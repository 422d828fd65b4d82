//! Where the pages for new tables come from.

use vstd::prelude::*;

verus! {

/// A source of physical pages.
///
/// Nothing is taken on trust about an allocator: a page map checks each
/// address that it is handed before it builds on it.
pub trait PageAllocator {
    /// Hands out `count` contiguous pages that were not handed out before,
    /// and returns the physical address of the first, or `None` when no
    /// such pages are left.
    fn allocate_pages(&mut self, count: usize) -> Option<u64>;
}

/// A request for pages and its answer: how many pages were asked for, and
/// the physical address of the first page that was handed out, if any was.
pub type Request = (usize, Option<u64>);

/// An allocator together with the record of what it was asked for and
/// what it answered. The page map and the loader ask for pages through
/// this record only, so that what they took can be told from it.
pub struct Recorded<A> {
    allocator: A,
    log: Ghost<Seq<Request>>,
}

impl<A: PageAllocator> Recorded<A> {
    /// The requests made so far and their answers, oldest first.
    pub closed spec fn handed(&self) -> Seq<Request> {
        self.log@
    }

    /// The allocator that is asked.
    pub closed spec fn source(&self) -> A {
        self.allocator
    }

    /// Starts a record for `allocator`: nothing was asked for yet.
    pub fn new(allocator: A) -> (recorded: Self)
        ensures
            recorded.handed() == Seq::<Request>::empty(),
            recorded.source() == allocator,
    {
        let ghost log = Seq::<Request>::empty();
        Recorded { allocator, log: Ghost(log) }
    }

    /// The allocator that is asked.
    pub fn get(&self) -> (allocator: &A)
        ensures
            *allocator == self.source(),
    {
        &self.allocator
    }

    /// Asks the allocator for `count` contiguous pages and writes the
    /// request and its answer down.
    pub fn allocate_pages(&mut self, count: usize) -> (result: Option<u64>)
        ensures
            final(self).handed() == old(self).handed().push((count, result)),
    {
        let result = self.allocator.allocate_pages(count);
        proof {
            self.log@ = self.log@.push((count, result));
        }
        result
    }
}

/// The requests for one page each that were answered with `frames`, in order.
pub open spec fn singles(frames: Seq<u64>) -> Seq<Request> {
    Seq::new(frames.len(), |i: int| (1usize, Some(frames[i])))
}

/// Whether `after` is `before` with further requests at its end.
pub open spec fn extends(before: Seq<Request>, after: Seq<Request>) -> bool {
    before.len() <= after.len() && after.subrange(0, before.len() as int) == before
}

/// Whether the first request after those of `before` was for `count`
/// pages and was answered with `answer`.
pub open spec fn asked_first(
    before: Seq<Request>,
    after: Seq<Request>,
    count: usize,
    answer: Option<u64>,
) -> bool {
    &&& extends(before, after)
    &&& before.len() < after.len()
    &&& after[before.len() as int] == (count, answer)
}

/// Whether every request after those of `before`, but for the first
/// `skip` of them, was for one page.
pub open spec fn then_singles(before: Seq<Request>, after: Seq<Request>, skip: int) -> bool {
    forall|n: int| before.len() + skip <= n < after.len() ==> (#[trigger] after[n]).0 == 1
}

/// Whether one of the requests after those of `before` was for `count`
/// pages and was answered with the pages at `address`.
pub open spec fn handed_out(
    before: Seq<Request>,
    after: Seq<Request>,
    count: usize,
    address: u64,
) -> bool {
    exists|n: int| before.len() <= n < after.len() && #[trigger] after[n] == (count, Some(address))
}

/// Requests for one page each, with or without a refusal at their end,
/// are further requests, each for one page.
pub proof fn lemma_singles(before: Seq<Request>, after: Seq<Request>, frames: Seq<u64>)
    requires
        after == before + singles(frames) || after == (before + singles(frames)).push(
            (1usize, None),
        ),
    ensures
        extends(before, after),
        then_singles(before, after, 0),
{
    assert(after.subrange(0, before.len() as int) =~= before);
}

/// What was asked after further requests were made, seen from the start.
pub proof fn lemma_extends(
    before: Seq<Request>,
    middle: Seq<Request>,
    after: Seq<Request>,
    skip: int,
)
    requires
        extends(before, middle),
        extends(middle, after),
        skip >= 0,
    ensures
        extends(before, after),
        then_singles(before, middle, skip) && then_singles(middle, after, 0) ==> then_singles(
            before,
            after,
            skip,
        ),
        forall|count: usize, answer: Option<u64>|
            asked_first(before, middle, count, answer) ==> #[trigger] asked_first(
                before,
                after,
                count,
                answer,
            ),
        forall|count: usize, address: u64|
            handed_out(before, middle, count, address) ==> #[trigger] handed_out(
                before,
                after,
                count,
                address,
            ),
        forall|count: usize, address: u64|
            handed_out(middle, after, count, address) ==> #[trigger] handed_out(
                before,
                after,
                count,
                address,
            ),
{
    assert(after.subrange(0, before.len() as int) =~= before) by {
        assert forall|n: int| 0 <= n < before.len() implies after[n] == before[n] by {
            assert(middle.subrange(0, before.len() as int)[n] == middle[n]);
            assert(after.subrange(0, middle.len() as int)[n] == after[n]);
        }
    }
    assert forall|n: int| 0 <= n < middle.len() implies after[n] == middle[n] by {
        assert(after.subrange(0, middle.len() as int)[n] == after[n]);
    }
    assert forall|count: usize, address: u64|
        handed_out(before, middle, count, address) implies #[trigger] handed_out(
        before,
        after,
        count,
        address,
    ) by {
        let n = choose|n: int|
            before.len() <= n < middle.len() && #[trigger] middle[n] == (count, Some(address));
        assert(after[n] == (count, Some(address)));
    }
    assert forall|count: usize, address: u64|
        handed_out(middle, after, count, address) implies #[trigger] handed_out(
        before,
        after,
        count,
        address,
    ) by {
        let n = choose|n: int|
            middle.len() <= n < after.len() && #[trigger] after[n] == (count, Some(address));
        assert(after[n] == (count, Some(address)));
    }
}

/// An allocator that hands out the pages of one range of physical memory,
/// one after the other, and never takes a page back.
pub struct BumpAllocator {
    next: u64,
    end: u64,
}

impl BumpAllocator {
    /// The address of the page that is handed out next.
    pub closed spec fn next(&self) -> u64 {
        self.next
    }

    /// The address at which the range ends.
    pub closed spec fn end(&self) -> u64 {
        self.end
    }

    /// The bytes that an allocation of `count` pages takes.
    pub open spec fn bytes(count: usize) -> int {
        count * 4096
    }

    /// The allocator over the pages that lie wholly within `start..end`.
    /// The first page is at `start` rounded up to a page boundary; where
    /// rounding up would overflow, the allocator is empty.
    pub fn new(start: u64, end: u64) -> (allocator: Self)
        ensures
            allocator.end() == end,
            start % 4096 == 0 ==> allocator.next() == start,
            start % 4096 != 0 && start + 4096 - start % 4096 <= u64::MAX ==> allocator.next()
                == start + 4096 - start % 4096,
            start % 4096 != 0 && start + 4096 - start % 4096 > u64::MAX ==> allocator.next()
                == end,
    {
        let rest: u64 = start % 4096;
        if rest == 0 {
            BumpAllocator { next: start, end }
        } else if start <= u64::MAX - (4096 - rest) {
            BumpAllocator { next: start + (4096 - rest), end }
        } else {
            BumpAllocator { next: end, end }
        }
    }

    /// How many bytes are left to hand out.
    pub fn remaining(&self) -> (bytes: u64)
        ensures
            bytes == if self.next() <= self.end() {
                self.end() - self.next()
            } else {
                0
            },
    {
        if self.next <= self.end {
            self.end - self.next
        } else {
            0
        }
    }
}

impl PageAllocator for BumpAllocator {
    /// Hands out the next `count` pages if they lie within the range, and
    /// nothing, leaving the allocator as it is, if they do not or if
    /// `count` is 0.
    fn allocate_pages(&mut self, count: usize) -> (result: Option<u64>)
        ensures
            final(self).end() == old(self).end(),
            match result {
                Some(address) => {
                    &&& count > 0
                    &&& address == old(self).next()
                    &&& old(self).next() + Self::bytes(count) <= old(self).end()
                    &&& final(self).next() == old(self).next() + Self::bytes(count)
                },
                None => {
                    &&& count == 0 || old(self).next() + Self::bytes(count) > old(self).end()
                    &&& final(self).next() == old(self).next()
                },
            },
    {
        if count == 0 || self.next > self.end {
            return None;
        }
        let available: u64 = (self.end - self.next) / 4096;
        if count as u64 > available {
            return None;
        }
        let address: u64 = self.next;
        self.next = self.next + (count as u64) * 4096;
        Some(address)
    }
}

} // verus!

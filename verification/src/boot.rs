//! From the loader into the kernel: building the kernel's address space.
//!
//! The steps are taken in this order, each once: the kernel image is
//! parsed; an empty page map is made; the stack is mapped below the
//! kernel's entry point; the three segments of the image are laid out in
//! fresh pages and mapped where the image wants them; the page that holds
//! the routine which switches page maps is mapped onto itself; the
//! registers are checked for 4-level paging. What is left to the caller is
//! to copy the page images into physical memory, to load the new root
//! table, and to jump.

use crate::exe::v0::{complete_image, image_error, segment_info_at, Error, Exe, SegmentInfo};
use crate::paging::allocator::{
    asked_first, extends, handed_out, lemma_extends, lemma_singles, then_singles, PageAllocator,
    Recorded, Request,
};
use crate::paging::entry::{valid_physical, PagingError};
use crate::paging::flags::PageMapFlags;
use crate::paging::indices::{lemma_page_base, pd_index, pdpt_index, pml4_index, pt_index};
use crate::paging::laws::lemma_set_leaves;
use crate::paging::map::{refused, PageMap};
use crate::paging::model::{
    leaf_entry, lemma_leaf_entry, lemma_page_address, lemma_page_of, page_address, PageMapView,
};
use crate::paging::translate::{lemma_translate_by_leaf, Access};
use crate::registers::{four_level_paging, four_level_paging_enabled, CR0, CR3, CR4, IA32_EFER};
use vstd::prelude::*;

verus! {

/// The virtual address of the kernel's first instruction. Everything
/// between 0 and this address is the kernel's stack.
pub const KERNEL_ENTRYPOINT: u64 = 0x1000;

/// The number of pages that `bytes` bytes take.
pub open spec fn pages_spec(bytes: u64) -> int {
    (bytes + 4095) / 4096
}

/// The number of pages that `bytes` bytes take: `bytes / 4096`, rounded up.
pub fn pages_for(bytes: u64) -> (pages: u64)
    ensures
        pages == pages_spec(bytes),
        pages * 4096 >= bytes,
        pages * 4096 < bytes + 4096,
{
    if bytes % 4096 == 0 {
        bytes / 4096
    } else {
        bytes / 4096 + 1
    }
}

/// Whether `pages` pages from `virtual_start` on can be mapped to the
/// pages from `physical_start` on: both addresses are page-aligned, the
/// virtual pages lie in the 48-bit range and the physical pages below `2^52`.
pub open spec fn mappable(virtual_start: u64, physical_start: u64, pages: u64) -> bool {
    &&& virtual_start % 4096 == 0
    &&& physical_start % 4096 == 0
    &&& virtual_start + pages * 4096 <= 0x1_0000_0000_0000
    &&& physical_start + pages * 4096 <= 0x10_0000_0000_0000
}

/// Whether the page at `address` is one of the `pages` pages from `start` on.
pub open spec fn in_pages(address: int, start: u64, pages: int) -> bool {
    start <= address < start + pages * 4096
}

/// A run of consecutive virtual pages that is mapped to a run of
/// consecutive physical pages.
#[derive(Clone, Copy, Debug, PartialEq, Eq, Structural)]
pub struct Mapping {
    /// The address of the first virtual page.
    pub virtual_start: u64,
    /// The address of the first physical page.
    pub physical_start: u64,
    /// The number of pages.
    pub pages: u64,
    /// What the pages may be used for.
    pub flags: PageMapFlags,
}

/// The last-level entry of `address` after the runs of `mappings` were
/// mapped one after the other, starting from `before`: the entry of the
/// last run that holds the address, and the entry that the address had
/// before where no run holds it.
pub open spec fn leaf_after(before: PageMapView, mappings: Seq<Mapping>, address: u64) -> u64
    decreases mappings.len(),
{
    if mappings.len() == 0 {
        before.leaf(address)
    } else {
        let last = mappings.last();
        if in_pages(address as int, last.virtual_start, last.pages as int) {
            leaf_entry((last.physical_start + (address - last.virtual_start)) as u64, last.flags)
        } else {
            leaf_after(before, mappings.drop_last(), address)
        }
    }
}

/// Whether `after` maps every page of the 48-bit range as mapping the
/// runs of `mappings` one after the other, starting from `before`, leaves it.
pub open spec fn mapped_all(before: PageMapView, after: PageMapView, mappings: Seq<Mapping>)
    -> bool {
    forall|address: u64|
        address < 0x1_0000_0000_0000 && address % 4096 == 0 ==> #[trigger] after.leaf(address)
            == leaf_after(before, mappings, address)
}

/// Mapping runs one after the other is mapping all of them.
pub proof fn lemma_mapped_all_push(
    before: PageMapView,
    middle: PageMapView,
    after: PageMapView,
    mappings: Seq<Mapping>,
    next: Mapping,
)
    requires
        mapped_all(before, middle, mappings),
        mapped_all(middle, after, seq![next]),
    ensures
        mapped_all(before, after, mappings.push(next)),
{
    assert forall|address: u64|
        address < 0x1_0000_0000_0000 && address % 4096 == 0 implies #[trigger] after.leaf(address)
        == leaf_after(before, mappings.push(next), address) by {
        assert(mappings.push(next).drop_last() =~= mappings);
        assert(seq![next].drop_last() =~= Seq::<Mapping>::empty());
        assert(seq![next].last() == next);
        assert(leaf_after(middle, seq![next].drop_last(), address) == middle.leaf(address));
    }
}

/// Mapping some runs and then some more is mapping all of them in order.
pub proof fn lemma_mapped_all_append(
    before: PageMapView,
    middle: PageMapView,
    after: PageMapView,
    first: Seq<Mapping>,
    second: Seq<Mapping>,
)
    requires
        mapped_all(before, middle, first),
        mapped_all(middle, after, second),
    ensures
        mapped_all(before, after, first + second),
{
    assert forall|address: u64|
        address < 0x1_0000_0000_0000 && address % 4096 == 0 implies #[trigger] after.leaf(address)
        == leaf_after(before, first + second, address) by {
        lemma_leaf_after_append(before, middle, first, second, address);
    }
}

proof fn lemma_leaf_after_append(
    before: PageMapView,
    middle: PageMapView,
    first: Seq<Mapping>,
    second: Seq<Mapping>,
    address: u64,
)
    requires
        address < 0x1_0000_0000_0000,
        address % 4096 == 0,
        mapped_all(before, middle, first),
    ensures
        leaf_after(middle, second, address) == leaf_after(before, first + second, address),
    decreases second.len(),
{
    if second.len() == 0 {
        assert(first + second =~= first);
        assert(middle.leaf(address) == leaf_after(before, first, address));
    } else {
        assert((first + second).drop_last() =~= first + second.drop_last());
        assert((first + second).last() == second.last());
        lemma_leaf_after_append(before, middle, first, second.drop_last(), address);
    }
}

/// Every address in the run that was mapped last leads into the run's
/// physical pages, as far from their start as it is from the start of the
/// run, and may be written and executed as the run's flags say.
pub proof fn lemma_last_mapping_translates(
    before: PageMapView,
    after: PageMapView,
    mappings: Seq<Mapping>,
    address: u64,
)
    requires
        after.wf(),
        after.grants_leaves(),
        mapped_all(before, after, mappings),
        mappings.len() > 0,
        mappable(
            mappings.last().virtual_start,
            mappings.last().physical_start,
            mappings.last().pages,
        ),
        in_pages(address as int, mappings.last().virtual_start, mappings.last().pages as int),
    ensures
        after.translate(address) == Some(
            Access {
                physical: mappings.last().physical_start + (address
                    - mappings.last().virtual_start),
                writable: mappings.last().flags.is_writeable(),
                executable: mappings.last().flags.is_executable(),
            },
        ),
{
    let last = mappings.last();
    let base = (address - address % 4096) as u64;
    lemma_page_base(address);
    assert(in_pages(base as int, last.virtual_start, last.pages as int));
    lemma_translate_by_leaf(after, address);
    assert(after.leaf(address) == after.leaf(base));
    assert(after.leaf(base) == leaf_after(before, mappings, base));
    lemma_leaf_entry((last.physical_start + (base - last.virtual_start)) as u64, last.flags);
}

spec fn mapped_range(
    before: PageMapView,
    after: PageMapView,
    virtual_start: u64,
    physical_start: u64,
    pages: int,
    done: int,
    flags: PageMapFlags,
) -> bool {
    &&& forall|n: int|
        0 <= n < done ==> #[trigger] after.leaf((virtual_start + n * 4096) as u64) == leaf_entry(
            (physical_start + n * 4096) as u64,
            flags,
        )
    &&& forall|i: int, j: int, k: int, l: int|
        0 <= i < 512 && 0 <= j < 512 && 0 <= k < 512 && 0 <= l < 512 && !in_pages(
            page_address(i, j, k, l),
            virtual_start,
            done,
        ) ==> #[trigger] after.pte(i, j, k, l) == before.pte(i, j, k, l)
}

proof fn lemma_range_is_mapping(
    before: PageMapView,
    after: PageMapView,
    virtual_start: u64,
    physical_start: u64,
    pages: int,
    done: int,
    flags: PageMapFlags,
)
    requires
        0 <= done <= pages <= u64::MAX,
        mappable(virtual_start, physical_start, pages as u64),
        mapped_range(before, after, virtual_start, physical_start, pages, done, flags),
    ensures
        mapped_all(
            before,
            after,
            seq![Mapping { virtual_start, physical_start, pages: done as u64, flags }],
        ),
{
    let mapping = Mapping { virtual_start, physical_start, pages: done as u64, flags };
    reveal_with_fuel(leaf_after, 3);
    assert forall|address: u64|
        address < 0x1_0000_0000_0000 && address % 4096 == 0 implies #[trigger] after.leaf(address)
        == leaf_after(before, seq![mapping], address) by {
        assert(seq![mapping].drop_last() =~= Seq::<Mapping>::empty());
        assert(seq![mapping].last() == mapping);
        lemma_page_of(address);
        if in_pages(address as int, virtual_start, done) {
            let n = (address - virtual_start) / 4096;
            assert(address == virtual_start + n * 4096);
            assert(after.leaf((virtual_start + n * 4096) as u64) == leaf_entry(
                (physical_start + n * 4096) as u64,
                flags,
            ));
        } else {
            assert(after.pte(
                pml4_index(address),
                pdpt_index(address),
                pd_index(address),
                pt_index(address),
            ) == before.pte(
                pml4_index(address),
                pdpt_index(address),
                pd_index(address),
                pt_index(address),
            ));
        }
    }
}

/// Maps `pages` consecutive pages from `virtual_start` on to the pages
/// from `physical_start` on.
///
/// Fails with an alignment error, and changes nothing, if one of the two
/// addresses is not page-aligned; else with a range error, and changes
/// nothing, if the virtual pages leave the 48-bit range or the physical
/// pages reach `2^52`. It fails with an allocation error if a table is
/// missing and cannot be had; the pages before the one that failed are
/// mapped then, and no page outside the range has changed.
pub fn map_pages<A: PageAllocator>(
    allocator: &mut Recorded<A>,
    page_map: &mut PageMap,
    virtual_start: u64,
    physical_start: u64,
    pages: u64,
    flags: PageMapFlags,
) -> (result: Result<(), PagingError>)
    requires
        old(page_map).wf(),
    ensures
        final(page_map).wf(),
        final(page_map)@.address() == old(page_map)@.address(),
        extends(old(allocator).handed(), final(allocator).handed()),
        then_singles(old(allocator).handed(), final(allocator).handed(), 0),
        pages == 0 ==> final(page_map)@ == old(page_map)@ && *final(allocator) == *old(allocator),
        match result {
            Ok(()) => mappable(virtual_start, physical_start, pages) && mapped_all(
                old(page_map)@,
                final(page_map)@,
                seq![Mapping { virtual_start, physical_start, pages, flags }],
            ),
            Err(PagingError::Alignment) => {
                &&& virtual_start % 4096 != 0 || physical_start % 4096 != 0
                &&& final(page_map)@ == old(page_map)@
                &&& *final(allocator) == *old(allocator)
            },
            Err(PagingError::Range) => {
                &&& virtual_start % 4096 == 0
                &&& physical_start % 4096 == 0
                &&& !mappable(virtual_start, physical_start, pages)
                &&& final(page_map)@ == old(page_map)@
                &&& *final(allocator) == *old(allocator)
            },
            Err(PagingError::AllocationExhausted) => {
                &&& mappable(virtual_start, physical_start, pages)
                &&& exists|done: u64, asked: Seq<Request>|
                    {
                        &&& done < pages
                        &&& #[trigger] mapped_all(
                            old(page_map)@,
                            final(page_map)@,
                            seq![Mapping { virtual_start, physical_start, pages: done, flags }],
                        )
                        &&& done == 0 ==> final(page_map)@ == old(page_map)@ && asked == old(
                            allocator,
                        ).handed()
                        &&& final(page_map)@.missing_tables(
                            (virtual_start + done * 4096) as u64,
                        ) > 0
                        &&& #[trigger] extends(old(allocator).handed(), asked)
                        &&& refused(
                            final(page_map)@,
                            (virtual_start + done * 4096) as u64,
                            asked,
                            final(allocator).handed(),
                        )
                    }
            },
        },
{
    proof {
        lemma_singles(allocator.handed(), allocator.handed(), Seq::<u64>::empty());
    }
    if virtual_start % 4096 != 0 || physical_start % 4096 != 0 {
        return Err(PagingError::Alignment);
    }
    if virtual_start > 0x1_0000_0000_0000 || pages > (0x1_0000_0000_0000 - virtual_start) / 4096
        || physical_start > 0x10_0000_0000_0000 || pages > (0x10_0000_0000_0000 - physical_start)
        / 4096 {
        return Err(PagingError::Range);
    }
    let ghost before = page_map@;
    let mut done: u64 = 0;
    while done < pages
        invariant
            page_map.wf(),
            page_map@.address() == before.address(),
            before == old(page_map)@,
            done <= pages,
            done == 0 ==> page_map@ == before && *allocator == *old(allocator),
            extends(old(allocator).handed(), allocator.handed()),
            then_singles(old(allocator).handed(), allocator.handed(), 0),
            mappable(virtual_start, physical_start, pages),
            mapped_range(
                before,
                page_map@,
                virtual_start,
                physical_start,
                pages as int,
                done as int,
                flags,
            ),
        decreases pages - done,
    {
        let virtual_address: u64 = virtual_start + done * 4096;
        let physical_address: u64 = physical_start + done * 4096;
        let ghost middle = page_map@;
        let ghost asked = allocator.handed();
        proof {
            page_map.lemma_view_wf();
        }
        let outcome = page_map.set(allocator, virtual_address, physical_address, flags);
        proof {
            lemma_extends(old(allocator).handed(), asked, allocator.handed(), 0);
        }
        match outcome {
            Ok(()) => {},
            Err(error) => {
                assert(error == PagingError::AllocationExhausted);
                proof {
                    lemma_range_is_mapping(
                        before,
                        page_map@,
                        virtual_start,
                        physical_start,
                        pages as int,
                        done as int,
                        flags,
                    );
                    assert(extends(old(allocator).handed(), asked));
                    assert(refused(
                        page_map@,
                        (virtual_start + done * 4096) as u64,
                        asked,
                        allocator.handed(),
                    ));
                }
                return Err(PagingError::AllocationExhausted);
            },
        }
        proof {
            let fresh = choose|fresh: Seq<u64>|
                middle.usable(fresh, middle.missing_tables(virtual_address)) && page_map@
                    == #[trigger] middle.set(fresh, virtual_address, physical_address, flags);
            lemma_map_step(
                before,
                middle,
                fresh,
                virtual_start,
                physical_start,
                pages as int,
                done as int,
                flags,
            );
        }
        done += 1;
    }
    proof {
        lemma_range_is_mapping(
            before,
            page_map@,
            virtual_start,
            physical_start,
            pages as int,
            pages as int,
            flags,
        );
    }
    Ok(())
}

/// Mapping the next page of a range keeps what was mapped of the range and
/// what lies outside it.
proof fn lemma_map_step(
    before: PageMapView,
    middle: PageMapView,
    fresh: Seq<u64>,
    virtual_start: u64,
    physical_start: u64,
    pages: int,
    done: int,
    flags: PageMapFlags,
)
    requires
        middle.wf(),
        0 <= done < pages,
        mappable(virtual_start, physical_start, pages as u64),
        pages <= u64::MAX,
        mapped_range(before, middle, virtual_start, physical_start, pages, done, flags),
    ensures
        mapped_range(
            before,
            middle.set(
                fresh,
                (virtual_start + done * 4096) as u64,
                (physical_start + done * 4096) as u64,
                flags,
            ),
            virtual_start,
            physical_start,
            pages,
            done + 1,
            flags,
        ),
{
    let address = (virtual_start + done * 4096) as u64;
    let physical = (physical_start + done * 4096) as u64;
    let after = middle.set(fresh, address, physical, flags);
    lemma_set_leaves(middle, fresh, address, physical, flags);
    lemma_page_of(address);
    assert forall|n: int| 0 <= n < done + 1 implies #[trigger] after.leaf(
        (virtual_start + n * 4096) as u64,
    ) == leaf_entry((physical_start + n * 4096) as u64, flags) by {
        if n < done {
            let other = (virtual_start + n * 4096) as u64;
            lemma_page_of(other);
            assert(middle.leaf(other) == leaf_entry((physical_start + n * 4096) as u64, flags));
            assert(other != address);
            assert(after.pte(
                pml4_index(other),
                pdpt_index(other),
                pd_index(other),
                pt_index(other),
            ) == middle.pte(
                pml4_index(other),
                pdpt_index(other),
                pd_index(other),
                pt_index(other),
            ));
        }
    }
    assert forall|i: int, j: int, k: int, l: int|
        0 <= i < 512 && 0 <= j < 512 && 0 <= k < 512 && 0 <= l < 512 && !in_pages(
            page_address(i, j, k, l),
            virtual_start,
            done + 1,
        ) implies #[trigger] after.pte(i, j, k, l) == before.pte(i, j, k, l) by {
        lemma_page_address(i, j, k, l);
        assert(after.pte(i, j, k, l) == middle.pte(i, j, k, l));
    }
}

/// Why the kernel's address space could not be built.
#[derive(Clone, Copy, Debug, PartialEq, Eq)]
pub enum BootError {
    /// The kernel image is not an executable of the format that is read here.
    Format(Error),
    /// A page could not be mapped.
    Paging(PagingError),
    /// The routine that switches page maps lies in the kernel's first two pages.
    TransitionOverlap,
    /// The registers do not say that 4-level paging is in use.
    PagingNotEnabled,
}

/// `length` bytes: those of `data`, in order, and zeros after them where
/// `data` is shorter.
pub open spec fn padded(data: Seq<u8>, length: int) -> Seq<u8> {
    Seq::new(
        length as nat,
        |n: int|
            if n < data.len() {
                data[n]
            } else {
                0u8
            },
    )
}

/// Lays `data` out in `length` bytes, with zeros after its end.
pub fn page_image(data: &[u8], length: usize) -> (bytes: Vec<u8>)
    ensures
        bytes@ == padded(data@, length as int),
{
    let mut bytes: Vec<u8> = Vec::new();
    let mut n: usize = 0;
    while n < length
        invariant
            n <= length,
            bytes@ == padded(data@, n as int),
        decreases length - n,
    {
        if n < data.len() {
            bytes.push(data[n]);
        } else {
            bytes.push(0);
        }
        n += 1;
        assert(bytes@ =~= padded(data@, n as int));
    }
    bytes
}

/// Pages that were taken for a part of the kernel, and what they are to hold.
#[derive(Debug)]
pub struct LoadedSegment {
    /// The physical address of the first page; 0 where there is no page.
    pub physical_address: u64,
    /// The number of pages.
    pub pages: u64,
    /// The bytes that the pages are to hold, `pages * 4096` of them.
    pub bytes: Vec<u8>,
}

/// Whether every page outside the `pages` pages from `virtual_start` on is
/// mapped in `after` as it is in `before`.
pub open spec fn kept_outside(before: PageMapView, after: PageMapView, virtual_start: u64, pages: int)
    -> bool {
    forall|address: u64|
        address < 0x1_0000_0000_0000 && address % 4096 == 0 && !in_pages(
            address as int,
            virtual_start,
            pages,
        ) ==> #[trigger] after.leaf(address) == before.leaf(address)
}

proof fn lemma_kept_outside(
    before: PageMapView,
    after: PageMapView,
    mapping: Mapping,
    pages: int,
)
    requires
        mapping.pages <= pages,
        mapped_all(before, after, seq![mapping]),
    ensures
        kept_outside(before, after, mapping.virtual_start, pages),
{
    reveal_with_fuel(leaf_after, 3);
    assert forall|address: u64|
        address < 0x1_0000_0000_0000 && address % 4096 == 0 && !in_pages(
            address as int,
            mapping.virtual_start,
            pages,
        ) implies #[trigger] after.leaf(address) == before.leaf(address) by {
        assert(seq![mapping].drop_last() =~= Seq::<Mapping>::empty());
        assert(seq![mapping].last() == mapping);
        assert(after.leaf(address) == leaf_after(before, seq![mapping], address));
    }
}

/// Whether `result`, the page map `after` and the requests `last` are
/// what taking a page for the stack and mapping it gives from the page
/// map `before` and the requests `first`.
pub open spec fn stack_mapped(
    before: PageMapView,
    after: PageMapView,
    first: Seq<Request>,
    last: Seq<Request>,
    result: Result<LoadedSegment, PagingError>,
) -> bool {
    &&& asked_first(
        first,
        last,
        1,
        last[first.len() as int].1,
    )
    &&& then_singles(first, last, 1)
    &&& match last[first.len() as int].1 {
        None => {
            &&& result matches Err(PagingError::AllocationExhausted)
            &&& last.len() == first.len() + 1
        },
        Some(page) => match result {
            Ok(stack) => {
                &&& stack.physical_address == page
                &&& stack.pages == 1
                &&& stack.bytes@ == padded(Seq::<u8>::empty(), 4096)
                &&& mappable(0, page, 1)
                &&& mapped_all(
                    before,
                    after,
                    seq![
                        Mapping {
                            virtual_start: 0,
                            physical_start: page,
                            pages: 1,
                            flags: PageMapFlags::W,
                        },
                    ],
                )
            },
            Err(PagingError::Alignment) => {
                &&& page % 4096 != 0
                &&& last.len() == first.len() + 1
            },
            Err(PagingError::Range) => {
                &&& page % 4096 == 0
                &&& !mappable(0, page, 1)
                &&& last.len() == first.len() + 1
            },
            Err(PagingError::AllocationExhausted) => {
                &&& mappable(0, page, 1)
                &&& before.missing_tables(0) > 0
                &&& refused(
                    before,
                    0,
                    first.push((1usize, Some(page))),
                    last,
                )
            },
        },
    }
    &&& result is Err ==> after == before
}

/// Takes a page for the kernel's stack and maps it, writable and not
/// executable, from address 0 up to the kernel's entry point. Returns the
/// page with what it is to hold: zeros.
///
/// The allocator is asked first for the one page of the stack, and after
/// that for one page for each table that is missing. The call fails if no
/// page was handed out for the stack or the page cannot be mapped, or if a
/// table is missing and cannot be had; the page map is then as it was.
pub fn map_stack<A: PageAllocator>(allocator: &mut Recorded<A>, page_map: &mut PageMap) -> (result:
    Result<LoadedSegment, PagingError>)
    requires
        old(page_map).wf(),
    ensures
        final(page_map).wf(),
        final(page_map)@.address() == old(page_map)@.address(),
        stack_mapped(
            old(page_map)@,
            final(page_map)@,
            old(allocator).handed(),
            final(allocator).handed(),
            result,
        ),
{
    let pages: u64 = pages_for(KERNEL_ENTRYPOINT);
    let ghost asked = allocator.handed();
    let physical_start: u64 = match allocator.allocate_pages(pages as usize) {
        None => {
            assert(allocator.handed().subrange(0, asked.len() as int) =~= asked);
            return Err(PagingError::AllocationExhausted);
        },
        Some(address) => address,
    };
    let ghost first = allocator.handed();
    assert(first.subrange(0, asked.len() as int) =~= asked);
    let outcome = map_pages(allocator, page_map, 0, physical_start, pages, PageMapFlags::W);
    proof {
        lemma_extends(asked, first, allocator.handed(), 1);
        assert(allocator.handed()[asked.len() as int] == first[asked.len() as int]) by {
            assert(allocator.handed().subrange(0, first.len() as int)[asked.len() as int]
                == allocator.handed()[asked.len() as int]);
        }
        assert(then_singles(asked, first, 1));
    }
    match outcome {
        Ok(()) => {
            let nothing: [u8; 0] = [];
            let bytes = page_image(nothing.as_slice(), 4096);
            assert(nothing@ =~= Seq::<u8>::empty());
            Ok(LoadedSegment { physical_address: physical_start, pages, bytes })
        },
        Err(error) => Err(error),
    }
}

/// Why a segment cannot be mapped whatever pages it is given: an
/// alignment error if its load address is not page-aligned, else a range
/// error if its pages leave the 48-bit range.
pub open spec fn segment_fault(info: SegmentInfo) -> Option<PagingError> {
    if info.load_address % 4096 != 0 {
        Some(PagingError::Alignment)
    } else if info.load_address + pages_spec(info.size) * 4096 > 0x1_0000_0000_0000 {
        Some(PagingError::Range)
    } else {
        None
    }
}

/// Whether `result` is what mapping a segment without a fault gives, after
/// the allocator answered the request for the segment's `pages` pages with
/// `answer`, where `first` are the requests up to and with that one and
/// `last` are all requests: an allocation error if no pages were handed out; an
/// alignment or a range error, with the page map as it was, if the pages
/// cannot stand in an entry; else the segment in the pages that were
/// handed out, unless a table was missing and could not be had.
pub open spec fn segment_outcome_with(
    before: PageMapView,
    after: PageMapView,
    info: SegmentInfo,
    flags: PageMapFlags,
    pages: u64,
    answer: Option<u64>,
    first: Seq<Request>,
    last: Seq<Request>,
    result: Result<LoadedSegment, PagingError>,
) -> bool {
    match answer {
        None => result matches Err(PagingError::AllocationExhausted) && after == before,
        Some(page) => match result {
            Ok(segment) => segment.physical_address == page,
            Err(PagingError::Alignment) => page % 4096 != 0 && after == before,
            Err(PagingError::Range) => {
                &&& page % 4096 == 0
                &&& page + pages * 4096 > 0x10_0000_0000_0000
                &&& after == before
            },
            Err(PagingError::AllocationExhausted) => {
                &&& mappable(info.load_address, page, pages)
                &&& exists|done: u64, asked: Seq<Request>|
                    {
                        &&& done < pages
                        &&& #[trigger] mapped_all(
                            before,
                            after,
                            seq![
                                Mapping {
                                    virtual_start: info.load_address,
                                    physical_start: page,
                                    pages: done,
                                    flags,
                                },
                            ],
                        )
                        &&& after.missing_tables((info.load_address + done * 4096) as u64) > 0
                        &&& #[trigger] extends(first, asked)
                        &&& refused(
                            after,
                            (info.load_address + done * 4096) as u64,
                            asked,
                            last,
                        )
                    }
            },
        },
    }
}

/// Whether `result`, the page map `after` and the requests `last` are
/// what mapping the segment that `info` describes, with the bytes `data`,
/// gives from the page map `before` and the requests `first`.
///
/// A segment with a fault is turned down and nothing changes. A segment
/// without pages is mapped nowhere and nothing changes. For a segment
/// whose bytes cannot be counted on this machine nothing is asked for.
/// For any other segment the allocator is asked for the segment's pages
/// first, and what comes of it is what the answer and the tables allow.
pub open spec fn segment_mapped(
    before: PageMapView,
    after: PageMapView,
    first: Seq<Request>,
    last: Seq<Request>,
    info: SegmentInfo,
    data: Seq<u8>,
    flags: PageMapFlags,
    result: Result<LoadedSegment, PagingError>,
) -> bool {
    &&& extends(first, last)
    &&& match result {
        Ok(segment) => {
            &&& segment.pages == pages_spec(info.size)
            &&& segment.bytes@ == padded(data, segment.pages * 4096)
            &&& mappable(info.load_address, segment.physical_address, segment.pages)
            &&& mapped_all(
                before,
                after,
                seq![
                    Mapping {
                        virtual_start: info.load_address,
                        physical_start: segment.physical_address,
                        pages: segment.pages,
                        flags,
                    },
                ],
            )
            &&& segment.pages == 0 ==> segment.physical_address == 0
        },
        Err(_) => kept_outside(before, after, info.load_address, pages_spec(info.size)),
    }
    &&& match segment_fault(info) {
        Some(error) => {
            &&& result matches Err(fault) && fault == error
            &&& after == before
            &&& last == first
        },
        None => if pages_spec(info.size) == 0 {
            &&& result is Ok
            &&& after == before
            &&& last == first
        } else if pages_spec(info.size) * 4096 > usize::MAX {
            &&& result matches Err(PagingError::AllocationExhausted)
            &&& after == before
            &&& last == first
        } else {
            &&& asked_first(first, last, pages_spec(info.size) as usize, last[first.len() as int].1)
            &&& then_singles(first, last, 1)
            &&& segment_outcome_with(
                before,
                after,
                info,
                flags,
                pages_spec(info.size) as u64,
                last[first.len() as int].1,
                first.push(last[first.len() as int]),
                last,
                result,
            )
        },
    }
}

/// Takes pages for one segment of the kernel, lays the segment's bytes
/// out for them with zeros after the segment's end, and maps the pages at
/// the segment's load address.
///
/// The load address is looked at first: the call fails, and asks for no
/// page, if it is not page-aligned or the segment's pages leave the 48-bit
/// range. A segment of size 0 then takes no page and is mapped nowhere.
/// For any other segment the allocator is asked first for the segment's
/// pages, and after that for one page for each table that is missing; the
/// call fails if no pages were handed out or they cannot be mapped, or if
/// a table is missing and cannot be had. No page outside the segment is
/// mapped differently when the call fails.
pub fn map_kernel_segment<A: PageAllocator>(
    allocator: &mut Recorded<A>,
    page_map: &mut PageMap,
    segment_info: SegmentInfo,
    segment_data: &[u8],
    flags: PageMapFlags,
) -> (result: Result<LoadedSegment, PagingError>)
    requires
        old(page_map).wf(),
    ensures
        final(page_map).wf(),
        final(page_map)@.address() == old(page_map)@.address(),
        segment_mapped(
            old(page_map)@,
            final(page_map)@,
            old(allocator).handed(),
            final(allocator).handed(),
            segment_info,
            segment_data@,
            flags,
            result,
        ),
        final(allocator).handed() == old(allocator).handed() ==> *final(allocator) == *old(
            allocator,
        ),
{
    let pages: u64 = pages_for(segment_info.size);
    let load: u64 = segment_info.load_address;
    let ghost before = page_map@;
    let ghost asked = allocator.handed();
    proof {
        lemma_singles(asked, asked, Seq::<u64>::empty());
    }
    if load % 4096 != 0 {
        return Err(PagingError::Alignment);
    }
    if load > 0x1_0000_0000_0000 || pages > (0x1_0000_0000_0000 - load) / 4096 {
        return Err(PagingError::Range);
    }
    if pages == 0 {
        return match map_pages(allocator, page_map, load, 0, 0, flags) {
            Ok(()) => {
                let bytes = page_image(segment_data, 0);
                Ok(LoadedSegment { physical_address: 0, pages, bytes })
            },
            Err(error) => Err(error),
        };
    }
    if pages > (usize::MAX / 4096) as u64 {
        return Err(PagingError::AllocationExhausted);
    }
    let physical_start: u64 = match allocator.allocate_pages(pages as usize) {
        None => {
            assert(allocator.handed().subrange(0, asked.len() as int) =~= asked);
            return Err(PagingError::AllocationExhausted);
        },
        Some(address) => address,
    };
    let ghost first = allocator.handed();
    assert(first.subrange(0, asked.len() as int) =~= asked);
    let outcome = map_pages(allocator, page_map, load, physical_start, pages, flags);
    proof {
        lemma_extends(asked, first, allocator.handed(), 1);
        assert(allocator.handed()[asked.len() as int] == first[asked.len() as int]) by {
            assert(allocator.handed().subrange(0, first.len() as int)[asked.len() as int]
                == allocator.handed()[asked.len() as int]);
        }
        assert(then_singles(asked, first, 1));
    }
    match outcome {
        Ok(()) => {
            let bytes = page_image(segment_data, (pages * 4096) as usize);
            Ok(LoadedSegment { physical_address: physical_start, pages, bytes })
        },
        Err(error) => {
            proof {
                if error == PagingError::AllocationExhausted {
                    let (done, later) = choose|done: u64, later: Seq<Request>|
                        {
                            &&& done < pages
                            &&& #[trigger] mapped_all(
                                before,
                                page_map@,
                                seq![
                                    Mapping {
                                        virtual_start: load,
                                        physical_start,
                                        pages: done,
                                        flags,
                                    },
                                ],
                            )
                            &&& page_map@.missing_tables((load + done * 4096) as u64) > 0
                            &&& #[trigger] extends(first, later)
                            &&& refused(
                                page_map@,
                                (load + done * 4096) as u64,
                                later,
                                allocator.handed(),
                            )
                        };
                    lemma_kept_outside(
                        before,
                        page_map@,
                        Mapping { virtual_start: load, physical_start, pages: done, flags },
                        pages as int,
                    );
                }
            }
            Err(error)
        },
    }
}

/// The pages that were taken for the kernel, segment by segment.
#[derive(Debug)]
pub struct KernelImage {
    /// The pages of the code segment, mapped executable and not writable.
    pub code: LoadedSegment,
    /// The pages of the read-only data, mapped neither writable nor executable.
    pub rodata: LoadedSegment,
    /// The pages of the read-write data, mapped writable and not executable.
    pub rwdata: LoadedSegment,
}

/// The runs that a kernel image is mapped with: code, read-only data and
/// read-write data, in this order, each at its load address with its
/// permissions.
pub open spec fn kernel_mappings(image: Seq<u8>, code: u64, rodata: u64, rwdata: u64) -> Seq<
    Mapping,
> {
    seq![
        Mapping {
            virtual_start: segment_info_at(image, 10).load_address,
            physical_start: code,
            pages: pages_spec(segment_info_at(image, 10).size) as u64,
            flags: PageMapFlags::X,
        },
        Mapping {
            virtual_start: segment_info_at(image, 34).load_address,
            physical_start: rodata,
            pages: pages_spec(segment_info_at(image, 34).size) as u64,
            flags: PageMapFlags::R,
        },
        Mapping {
            virtual_start: segment_info_at(image, 58).load_address,
            physical_start: rwdata,
            pages: pages_spec(segment_info_at(image, 58).size) as u64,
            flags: PageMapFlags::W,
        },
    ]
}

/// Whether `image` is an executable whose three segments lie within it.
pub open spec fn loadable(image: Seq<u8>) -> bool {
    complete_image(image)
}

/// The bytes of the segment whose descriptor stands at `offset` of the header.
pub open spec fn segment_of(image: Seq<u8>, offset: int) -> Seq<u8> {
    image.subrange(
        segment_info_at(image, offset).start as int,
        segment_info_at(image, offset).start + segment_info_at(image, offset).size,
    )
}

/// Whether `loaded` holds the segment whose descriptor stands at `offset`
/// of the header of `image`: as many pages as the segment's size takes,
/// and for them the segment's bytes with zeros after their end.
pub open spec fn laid_out(image: Seq<u8>, offset: int, loaded: LoadedSegment) -> bool {
    &&& loaded.pages == pages_spec(segment_info_at(image, offset).size)
    &&& loaded.bytes@ == padded(segment_of(image, offset), loaded.pages * 4096)
}

/// Says why a segment cannot be mapped whatever pages it is given, if it
/// cannot.
pub fn check_segment(info: SegmentInfo) -> (fault: Option<PagingError>)
    ensures
        fault == segment_fault(info),
{
    let pages: u64 = pages_for(info.size);
    if info.load_address % 4096 != 0 {
        Some(PagingError::Alignment)
    } else if info.load_address > 0x1_0000_0000_0000 || pages > (0x1_0000_0000_0000
        - info.load_address) / 4096 {
        Some(PagingError::Range)
    } else {
        None
    }
}

/// Why the kernel cannot be mapped whatever pages it is given: the fault
/// of the first segment that has one, in the order code, read-only data,
/// read-write data.
pub open spec fn kernel_fault(image: Seq<u8>) -> Option<PagingError> {
    if segment_fault(segment_info_at(image, 10)) is Some {
        segment_fault(segment_info_at(image, 10))
    } else if segment_fault(segment_info_at(image, 34)) is Some {
        segment_fault(segment_info_at(image, 34))
    } else {
        segment_fault(segment_info_at(image, 58))
    }
}

/// Whether none of the three segments of `image` takes a page.
pub open spec fn kernel_empty(image: Seq<u8>) -> bool {
    &&& pages_spec(segment_info_at(image, 10).size) == 0
    &&& pages_spec(segment_info_at(image, 34).size) == 0
    &&& pages_spec(segment_info_at(image, 58).size) == 0
}

/// The number of pages of the first segment of `image` that takes pages,
/// in the order code, read-only data, read-write data; 0 if none does.
pub open spec fn first_pages(image: Seq<u8>) -> int {
    if pages_spec(segment_info_at(image, 10).size) > 0 {
        pages_spec(segment_info_at(image, 10).size)
    } else if pages_spec(segment_info_at(image, 34).size) > 0 {
        pages_spec(segment_info_at(image, 34).size)
    } else {
        pages_spec(segment_info_at(image, 58).size)
    }
}

/// Whether the page at `address` is one of the pages of the segment that
/// `info` describes.
pub open spec fn in_segment(address: int, info: SegmentInfo) -> bool {
    in_pages(address, info.load_address, pages_spec(info.size))
}

/// Whether every page outside the three segments of `image` is mapped in
/// `after` as it is in `before`.
pub open spec fn kept_outside_kernel(before: PageMapView, after: PageMapView, image: Seq<u8>)
    -> bool {
    forall|address: u64|
        address < 0x1_0000_0000_0000 && address % 4096 == 0 && !in_segment(
            address as int,
            segment_info_at(image, 10),
        ) && !in_segment(address as int, segment_info_at(image, 34)) && !in_segment(
            address as int,
            segment_info_at(image, 58),
        ) ==> #[trigger] after.leaf(address) == before.leaf(address)
}

/// Whether the pages of `loaded` are pages that the allocator handed out
/// after the requests of `before`, in answer to a request for as many
/// pages as `loaded` has. A segment without pages has the address 0.
pub open spec fn taken_from(before: Seq<Request>, after: Seq<Request>, loaded: LoadedSegment)
    -> bool {
    if loaded.pages == 0 {
        loaded.physical_address == 0
    } else {
        handed_out(before, after, loaded.pages as usize, loaded.physical_address)
    }
}

/// Whether `result`, the page map `after` and the requests `last` are
/// what mapping the three segments of `image` one after the other gives
/// from the page map `before` and the requests `first`, where the first
/// segment left the page map `view1` and the requests `log1` with the
/// result `code`, and the second segment `view2`, `log2` and `rodata`.
/// The first segment that fails ends the mapping with its error.
pub open spec fn kernel_mapped(
    before: PageMapView,
    after: PageMapView,
    first: Seq<Request>,
    last: Seq<Request>,
    image: Seq<u8>,
    result: Result<KernelImage, BootError>,
    view1: PageMapView,
    view2: PageMapView,
    log1: Seq<Request>,
    log2: Seq<Request>,
    code: Result<LoadedSegment, PagingError>,
    rodata: Result<LoadedSegment, PagingError>,
    rwdata: Result<LoadedSegment, PagingError>,
) -> bool {
    &&& segment_mapped(
        before,
        view1,
        first,
        log1,
        segment_info_at(image, 10),
        segment_of(image, 10),
        PageMapFlags::X,
        code,
    )
    &&& match code {
        Err(error) => {
            &&& result == Err::<KernelImage, BootError>(BootError::Paging(error))
            &&& after == view1
            &&& last == log1
        },
        Ok(code_pages) => {
            &&& segment_mapped(
                view1,
                view2,
                log1,
                log2,
                segment_info_at(image, 34),
                segment_of(image, 34),
                PageMapFlags::R,
                rodata,
            )
            &&& match rodata {
                Err(error) => {
                    &&& result == Err::<KernelImage, BootError>(BootError::Paging(error))
                    &&& after == view2
                    &&& last == log2
                },
                Ok(rodata_pages) => {
                    &&& segment_mapped(
                        view2,
                        after,
                        log2,
                        last,
                        segment_info_at(image, 58),
                        segment_of(image, 58),
                        PageMapFlags::W,
                        rwdata,
                    )
                    &&& match rwdata {
                        Err(error) => result == Err::<KernelImage, BootError>(
                            BootError::Paging(error),
                        ),
                        Ok(rwdata_pages) => result == Ok::<KernelImage, BootError>(
                            KernelImage {
                                code: code_pages,
                                rodata: rodata_pages,
                                rwdata: rwdata_pages,
                            },
                        ),
                    }
                },
            }
        },
    }
}

/// Pages that were taken between two requests were taken between any
/// earlier and any later request.
pub proof fn lemma_taken_from(
    before: Seq<Request>,
    middle: Seq<Request>,
    later: Seq<Request>,
    after: Seq<Request>,
    loaded: LoadedSegment,
)
    requires
        extends(before, middle),
        extends(middle, later),
        extends(later, after),
        taken_from(middle, later, loaded),
    ensures
        taken_from(before, after, loaded),
{
    lemma_extends(before, middle, later, 0);
    lemma_extends(before, later, after, 0);
    if loaded.pages != 0 {
        assert(handed_out(before, later, loaded.pages as usize, loaded.physical_address));
        assert(handed_out(before, after, loaded.pages as usize, loaded.physical_address));
    }
}

/// Whether `result`, the page map `after` and the requests `last` are
/// what parsing `image` and mapping its three segments gives from the
/// page map `before` and the requests `first`.
pub open spec fn kernel_result(
    before: PageMapView,
    after: PageMapView,
    first: Seq<Request>,
    last: Seq<Request>,
    image: Seq<u8>,
    result: Result<KernelImage, BootError>,
) -> bool {
    &&& extends(first, last)
    &&& match result {
        Ok(kernel) => {
            &&& loadable(image)
            &&& kernel_fault(image) is None
            &&& laid_out(image, 10, kernel.code)
            &&& laid_out(image, 34, kernel.rodata)
            &&& laid_out(image, 58, kernel.rwdata)
            &&& taken_from(first, last, kernel.code)
            &&& taken_from(first, last, kernel.rodata)
            &&& taken_from(first, last, kernel.rwdata)
            &&& mapped_all(
                before,
                after,
                kernel_mappings(
                    image,
                    kernel.code.physical_address,
                    kernel.rodata.physical_address,
                    kernel.rwdata.physical_address,
                ),
            )
        },
        Err(BootError::Format(error)) => {
            &&& image_error(image, error)
            &&& after == before
            &&& last == first
        },
        Err(BootError::Paging(error)) => {
            &&& loadable(image)
            &&& kept_outside_kernel(before, after, image)
            &&& match kernel_fault(image) {
                Some(fault) => {
                    &&& error == fault
                    &&& after == before
                    &&& last == first
                },
                None => !kernel_empty(image),
            }
        },
        Err(_) => false,
    }
    &&& (result matches Err(BootError::Format(_)) <==> !loadable(image))
    &&& loadable(image) && kernel_fault(image) is Some ==> result is Err
    &&& loadable(image) && kernel_fault(image) is None && kernel_empty(
        image,
    ) ==> result is Ok && after == before && last == first
    &&& loadable(image) && kernel_fault(image) is None ==> (exists|
        view1: PageMapView,
        view2: PageMapView,
        log1: Seq<Request>,
        log2: Seq<Request>,
        code: Result<LoadedSegment, PagingError>,
        rodata: Result<LoadedSegment, PagingError>,
        rwdata: Result<LoadedSegment, PagingError>,
    | #[trigger]
        kernel_mapped(
            before,
            after,
            first,
            last,
            image,
            result,
            view1,
            view2,
            log1,
            log2,
            code,
            rodata,
            rwdata,
        ))
    &&& loadable(image) && kernel_fault(image) is None && !kernel_empty(
        image,
    ) && first_pages(image) * 4096 <= usize::MAX ==> {
        &&& asked_first(
            first,
            last,
            first_pages(image) as usize,
            last[first.len() as int].1,
        )
        &&& last[first.len() as int].1 is None ==> {
            &&& result matches Err(BootError::Paging(PagingError::AllocationExhausted))
            &&& after == before
        }
    }
}

/// Parses the kernel image and maps its three segments, each in fresh
/// pages: code executable and not writable, read-only data neither
/// writable nor executable, read-write data writable and not executable.
///
/// Before a page is asked for, the image and the load addresses of all
/// three segments are looked at: nothing is mapped and no page is asked
/// for if the image is no executable, if one of its segments does not lie
/// within it, or if a segment cannot be mapped whatever pages it is given.
/// After that the call fails only if a segment takes pages and they, or
/// the pages for missing tables, cannot be had or cannot be used; no page
/// outside the three segments is mapped differently then.
pub fn map_kernel<A: PageAllocator>(
    allocator: &mut Recorded<A>,
    page_map: &mut PageMap,
    kernel_buffer: &[u8],
) -> (result: Result<KernelImage, BootError>)
    requires
        old(page_map).wf(),
    ensures
        final(page_map).wf(),
        final(page_map)@.address() == old(page_map)@.address(),
        kernel_result(
            old(page_map)@,
            final(page_map)@,
            old(allocator).handed(),
            final(allocator).handed(),
            kernel_buffer@,
            result,
        ),
        final(allocator).handed() == old(allocator).handed() ==> *final(allocator) == *old(
            allocator,
        ),
{
    let ghost log0 = allocator.handed();
    proof {
        lemma_singles(log0, log0, Seq::<u64>::empty());
    }
    let exe = match Exe::parse(kernel_buffer) {
        Ok(exe) => exe,
        Err(error) => {
            return Err(BootError::Format(error));
        },
    };
    let code_info = exe.code_info();
    let rodata_info = exe.rodata_info();
    let rwdata_info = exe.rwdata_info();
    let code_data = match exe.code() {
        Ok(data) => data,
        Err(error) => {
            return Err(BootError::Format(error));
        },
    };
    let rodata_data = match exe.rodata() {
        Ok(data) => data,
        Err(error) => {
            return Err(BootError::Format(error));
        },
    };
    let rwdata_data = match exe.rwdata() {
        Ok(data) => data,
        Err(error) => {
            return Err(BootError::Format(error));
        },
    };
    match check_segment(code_info) {
        Some(fault) => {
            return Err(BootError::Paging(fault));
        },
        None => {},
    }
    match check_segment(rodata_info) {
        Some(fault) => {
            return Err(BootError::Paging(fault));
        },
        None => {},
    }
    match check_segment(rwdata_info) {
        Some(fault) => {
            return Err(BootError::Paging(fault));
        },
        None => {},
    }
    let ghost view0 = page_map@;
    let mapped_code = map_kernel_segment(
        allocator,
        page_map,
        code_info,
        code_data,
        PageMapFlags::X,
    );
    let ghost view1 = page_map@;
    let ghost log1 = allocator.handed();
    let ghost result1 = mapped_code;
    let code = match mapped_code {
        Ok(segment) => segment,
        Err(error) => {
            proof {
                assert(kernel_mapped(
                    view0,
                    page_map@,
                    log0,
                    allocator.handed(),
                    kernel_buffer@,
                    Err::<KernelImage, BootError>(BootError::Paging(error)),
                    view1,
                    view1,
                    log1,
                    log1,
                    result1,
                    result1,
                    result1,
                ));
            }
            return Err(BootError::Paging(error));
        },
    };
    let ghost m1 = Mapping {
        virtual_start: code_info.load_address,
        physical_start: code.physical_address,
        pages: code.pages,
        flags: PageMapFlags::X,
    };
    proof {
        assert(taken_from(log0, log1, code));
        lemma_kept_outside(view0, view1, m1, code.pages as int);
    }
    let mapped_rodata = map_kernel_segment(
        allocator,
        page_map,
        rodata_info,
        rodata_data,
        PageMapFlags::R,
    );
    let ghost view2 = page_map@;
    let ghost log2 = allocator.handed();
    let ghost result2 = mapped_rodata;
    let rodata = match mapped_rodata {
        Ok(segment) => segment,
        Err(error) => {
            proof {
                lemma_extends(log0, log1, allocator.handed(), 0);
                assert(kernel_mapped(
                    view0,
                    page_map@,
                    log0,
                    allocator.handed(),
                    kernel_buffer@,
                    Err::<KernelImage, BootError>(BootError::Paging(error)),
                    view1,
                    view2,
                    log1,
                    log2,
                    result1,
                    result2,
                    result2,
                ));
            }
            return Err(BootError::Paging(error));
        },
    };
    let ghost m2 = Mapping {
        virtual_start: rodata_info.load_address,
        physical_start: rodata.physical_address,
        pages: rodata.pages,
        flags: PageMapFlags::R,
    };
    proof {
        assert(taken_from(log1, log2, rodata));
        lemma_extends(log0, log1, log2, 0);
        lemma_kept_outside(view1, view2, m2, rodata.pages as int);
    }
    let mapped_rwdata = map_kernel_segment(
        allocator,
        page_map,
        rwdata_info,
        rwdata_data,
        PageMapFlags::W,
    );
    let ghost result3 = mapped_rwdata;
    let rwdata = match mapped_rwdata {
        Ok(segment) => segment,
        Err(error) => {
            proof {
                lemma_extends(log0, log2, allocator.handed(), 0);
                assert(kernel_mapped(
                    view0,
                    page_map@,
                    log0,
                    allocator.handed(),
                    kernel_buffer@,
                    Err::<KernelImage, BootError>(BootError::Paging(error)),
                    view1,
                    view2,
                    log1,
                    log2,
                    result1,
                    result2,
                    result3,
                ));
            }
            return Err(BootError::Paging(error));
        },
    };
    proof {
        let m3 = Mapping {
            virtual_start: rwdata_info.load_address,
            physical_start: rwdata.physical_address,
            pages: rwdata.pages,
            flags: PageMapFlags::W,
        };
        assert(taken_from(log2, allocator.handed(), rwdata));
        lemma_extends(log0, log2, allocator.handed(), 0);
        lemma_mapped_all_push(view0, view1, view2, seq![m1], m2);
        assert(seq![m1].push(m2) =~= seq![m1, m2]);
        lemma_mapped_all_push(view0, view2, page_map@, seq![m1, m2], m3);
        assert(seq![m1, m2].push(m3) =~= kernel_mappings(
            kernel_buffer@,
            code.physical_address,
            rodata.physical_address,
            rwdata.physical_address,
        ));
    }
    let kernel = KernelImage { code, rodata, rwdata };
    proof {
        assert(kernel_mapped(
            view0,
            page_map@,
            log0,
            allocator.handed(),
            kernel_buffer@,
            Ok::<KernelImage, BootError>(kernel),
            view1,
            view2,
            log1,
            log2,
            result1,
            result2,
            result3,
        ));
    }
    Ok(kernel)
}

/// Whether `result`, the page map `after` and the requests `last` are
/// what mapping the page of the switching routine at
/// `switch_to_kernel_addr` onto itself gives from the page map `before`
/// and the requests `first`.
pub open spec fn switch_mapped(
    before: PageMapView,
    after: PageMapView,
    first: Seq<Request>,
    last: Seq<Request>,
    switch_to_kernel_addr: u64,
    result: Result<u64, BootError>,
) -> bool {
    &&& extends(first, last)
    &&& then_singles(first, last, 0)
    &&& match result {
        Ok(page) => {
            &&& page == switch_to_kernel_addr - switch_to_kernel_addr % 4096
            &&& page > KERNEL_ENTRYPOINT + 0xfff
            &&& mappable(page, page, 1)
            &&& mapped_all(
                before,
                after,
                seq![
                    Mapping {
                        virtual_start: page,
                        physical_start: page,
                        pages: 1,
                        flags: PageMapFlags::X,
                    },
                ],
            )
        },
        Err(BootError::TransitionOverlap) => {
            &&& switch_to_kernel_addr - switch_to_kernel_addr % 4096 <= KERNEL_ENTRYPOINT
                + 0xfff
            &&& after == before
            &&& last == first
        },
        Err(BootError::Paging(PagingError::Range)) => {
            &&& switch_to_kernel_addr - switch_to_kernel_addr % 4096 > KERNEL_ENTRYPOINT
                + 0xfff
            &&& switch_to_kernel_addr - switch_to_kernel_addr % 4096 + 4096
                > 0x1_0000_0000_0000
            &&& after == before
            &&& last == first
        },
        Err(BootError::Paging(PagingError::AllocationExhausted)) => {
            &&& switch_to_kernel_addr - switch_to_kernel_addr % 4096 > KERNEL_ENTRYPOINT
                + 0xfff
            &&& switch_to_kernel_addr - switch_to_kernel_addr % 4096 + 4096
                <= 0x1_0000_0000_0000
            &&& before.missing_tables(
                (switch_to_kernel_addr - switch_to_kernel_addr % 4096) as u64,
            ) > 0
            &&& refused(
                before,
                (switch_to_kernel_addr - switch_to_kernel_addr % 4096) as u64,
                first,
                last,
            )
            &&& after == before
        },
        Err(_) => false,
    }
}

/// Maps the page that holds the routine which switches page maps onto
/// itself, executable, so that the routine can go on after the switch.
/// Returns the address of the page.
///
/// Fails, and asks for no page, if the page is one of the kernel's first
/// two pages, that is, if it does not lie above the page of the kernel's
/// entry point; and if it lies beyond the 48-bit range. Else it fails only
/// if a table is missing on the way to the page and cannot be had. The
/// page map is as it was when the call fails.
pub fn map_switch_to_kernel<A: PageAllocator>(
    allocator: &mut Recorded<A>,
    page_map: &mut PageMap,
    switch_to_kernel_addr: u64,
) -> (result: Result<u64, BootError>)
    requires
        old(page_map).wf(),
    ensures
        final(page_map).wf(),
        final(page_map)@.address() == old(page_map)@.address(),
        switch_mapped(
            old(page_map)@,
            final(page_map)@,
            old(allocator).handed(),
            final(allocator).handed(),
            switch_to_kernel_addr,
            result,
        ),
        (result matches Err(BootError::TransitionOverlap)) || (result matches Err(
            BootError::Paging(PagingError::Range),
        )) ==> *final(allocator) == *old(allocator),
{
    proof {
        lemma_singles(allocator.handed(), allocator.handed(), Seq::<u64>::empty());
    }
    let page: u64 = switch_to_kernel_addr - switch_to_kernel_addr % 4096;
    if page <= KERNEL_ENTRYPOINT + 0xfff {
        return Err(BootError::TransitionOverlap);
    }
    match map_pages(allocator, page_map, page, page, 1, PageMapFlags::X) {
        Ok(()) => Ok(page),
        Err(error) => Err(BootError::Paging(error)),
    }
}

/// What the kernel is handed in registers when it is entered.
#[derive(Clone, Copy, Debug, PartialEq, Eq, Structural)]
pub struct KernelArguments {
    /// The page size.
    pub page_size: u64,
    /// The virtual address of the page that holds the routine which
    /// switched page maps, for the kernel to unmap.
    pub switch_to_kernel_page_addr: u64,
    /// The I/O port of the serial controller.
    pub serial_controller_port: u16,
}

/// All that the switch into the kernel needs.
pub struct Transition {
    /// The kernel's address space.
    pub page_map: PageMap,
    /// The page of the kernel's stack and what it is to hold.
    pub stack: LoadedSegment,
    /// The pages of the kernel and what they are to hold.
    pub kernel: KernelImage,
    /// What is to be loaded into CR3: the root table of the kernel's
    /// address space, with the low 12 bits as they were.
    pub cr3: CR3,
    /// The virtual address to jump to, which is also the top of the stack.
    pub entrypoint: u64,
    /// What to hand to the kernel.
    pub arguments: KernelArguments,
}

/// The runs that the kernel's address space is built from, in the order in
/// which they are mapped: the stack, the three segments of the image, and
/// the page of the routine that switches page maps.
pub open spec fn transition_mappings(
    image: Seq<u8>,
    stack: u64,
    code: u64,
    rodata: u64,
    rwdata: u64,
    switch_page: u64,
) -> Seq<Mapping> {
    seq![
        Mapping { virtual_start: 0, physical_start: stack, pages: 1, flags: PageMapFlags::W },
    ] + kernel_mappings(image, code, rodata, rwdata) + seq![
        Mapping {
            virtual_start: switch_page,
            physical_start: switch_page,
            pages: 1,
            flags: PageMapFlags::X,
        },
    ]
}

/// Whether `result` and the requests `last` are what building the
/// address space of the kernel in `image` gives, step by step, from the
/// requests `first`. `log1`, `log2` and `log3` are the requests after the
/// root table, the stack and the kernel were dealt with; `view1`, `view2`
/// and `view3` are the page map after the stack, the kernel and the page
/// of the switching routine were mapped; `stack`, `kernel` and `switch`
/// are what these three steps gave.
///
/// The allocator is asked for the page of the root table first. Each step
/// starts from what the step before it left, and the first step that
/// fails ends the attempt with its error. The registers are looked at
/// last.
pub open spec fn prepared(
    first: Seq<Request>,
    last: Seq<Request>,
    image: Seq<u8>,
    switch_to_kernel_addr: u64,
    cr0: CR0,
    cr3: CR3,
    cr4: CR4,
    efer: IA32_EFER,
    serial_controller_port: u16,
    result: Result<Transition, BootError>,
    log1: Seq<Request>,
    log2: Seq<Request>,
    log3: Seq<Request>,
    view1: PageMapView,
    view2: PageMapView,
    view3: PageMapView,
    stack: Result<LoadedSegment, PagingError>,
    kernel: Result<KernelImage, BootError>,
    switch: Result<u64, BootError>,
) -> bool {
    &&& log1.len() == first.len() + 1
    &&& log1 == first.push(log1.last())
    &&& log1.last().0 == 1
    &&& match log1.last().1 {
        None => {
            &&& result == Err::<Transition, BootError>(
                BootError::Paging(PagingError::AllocationExhausted),
            )
            &&& last == log1
        },
        Some(root) => if root % 4096 != 0 {
            &&& result == Err::<Transition, BootError>(BootError::Paging(PagingError::Alignment))
            &&& last == log1
        } else if !valid_physical(root) {
            &&& result == Err::<Transition, BootError>(BootError::Paging(PagingError::Range))
            &&& last == log1
        } else {
            &&& stack_mapped(PageMapView::empty(root), view1, log1, log2, stack)
            &&& match stack {
                Err(error) => {
                    &&& result == Err::<Transition, BootError>(BootError::Paging(error))
                    &&& last == log2
                },
                Ok(stack_page) => {
                    &&& kernel_result(view1, view2, log2, log3, image, kernel)
                    &&& match kernel {
                        Err(error) => {
                            &&& result == Err::<Transition, BootError>(error)
                            &&& last == log3
                        },
                        Ok(kernel_pages) => {
                            &&& switch_mapped(
                                view2,
                                view3,
                                log3,
                                last,
                                switch_to_kernel_addr,
                                switch,
                            )
                            &&& match switch {
                                Err(error) => result == Err::<Transition, BootError>(error),
                                Ok(page) => if !four_level_paging(cr0, cr4, efer) {
                                    result == Err::<Transition, BootError>(
                                        BootError::PagingNotEnabled,
                                    )
                                } else {
                                    &&& result matches Ok(transition)
                                    &&& transition.page_map@ == view3
                                    &&& transition.page_map@.address() == root
                                    &&& transition.stack == stack_page
                                    &&& transition.kernel == kernel_pages
                                    &&& transition.cr3.bits() == (cr3.bits() & 0xfff) | root
                                    &&& transition.entrypoint == KERNEL_ENTRYPOINT
                                    &&& transition.arguments == (KernelArguments {
                                        page_size: 4096,
                                        switch_to_kernel_page_addr: page,
                                        serial_controller_port,
                                    })
                                },
                            }
                        },
                    }
                },
            }
        },
    }
}

/// Builds the kernel's address space and says what the switch into the
/// kernel is to load and to hand over.
///
/// The steps are taken in this order: the image is parsed and its
/// segments are looked for; an empty page map is made; the stack is
/// mapped; the segments are mapped; the page of the switching routine is
/// mapped onto itself; the registers are checked. The first step that
/// fails ends the attempt. So an image that cannot be loaded is turned
/// down before a page is asked for.
///
/// In the page map that is built, every address of the switching
/// routine's page leads to itself and can be executed: the routine goes on
/// where it is once the page map is in use.
pub fn prepare<A: PageAllocator>(
    allocator: &mut Recorded<A>,
    kernel_buffer: &[u8],
    switch_to_kernel_addr: u64,
    cr0: CR0,
    cr3: CR3,
    cr4: CR4,
    efer: IA32_EFER,
    serial_controller_port: u16,
) -> (result: Result<Transition, BootError>)
    ensures
        match result {
            Ok(transition) => {
                &&& transition.page_map.wf()
                &&& loadable(kernel_buffer@)
                &&& four_level_paging(cr0, cr4, efer)
                &&& transition.entrypoint == KERNEL_ENTRYPOINT
                &&& transition.arguments == (KernelArguments {
                    page_size: 4096,
                    switch_to_kernel_page_addr: (switch_to_kernel_addr - switch_to_kernel_addr
                        % 4096) as u64,
                    serial_controller_port,
                })
                &&& transition.cr3.bits() == (cr3.bits() & 0xfff) | transition.page_map@.address()
                &&& asked_first(
                    old(allocator).handed(),
                    final(allocator).handed(),
                    1,
                    Some(transition.page_map@.address()),
                )
                &&& old(allocator).handed().len() + 1 < final(allocator).handed().len()
                &&& final(allocator).handed()[old(allocator).handed().len() as int + 1] == (
                    1usize,
                    Some(transition.stack.physical_address),
                )
                &&& taken_from(
                    old(allocator).handed(),
                    final(allocator).handed(),
                    transition.kernel.code,
                )
                &&& taken_from(
                    old(allocator).handed(),
                    final(allocator).handed(),
                    transition.kernel.rodata,
                )
                &&& taken_from(
                    old(allocator).handed(),
                    final(allocator).handed(),
                    transition.kernel.rwdata,
                )
                &&& transition.stack.pages == 1
                &&& transition.stack.bytes@ == padded(Seq::<u8>::empty(), 4096)
                &&& laid_out(kernel_buffer@, 10, transition.kernel.code)
                &&& laid_out(kernel_buffer@, 34, transition.kernel.rodata)
                &&& laid_out(kernel_buffer@, 58, transition.kernel.rwdata)
                &&& mapped_all(
                    PageMapView::empty(transition.page_map@.address()),
                    transition.page_map@,
                    transition_mappings(
                        kernel_buffer@,
                        transition.stack.physical_address,
                        transition.kernel.code.physical_address,
                        transition.kernel.rodata.physical_address,
                        transition.kernel.rwdata.physical_address,
                        transition.arguments.switch_to_kernel_page_addr,
                    ),
                )
                &&& forall|address: u64|
                    in_pages(
                        address as int,
                        transition.arguments.switch_to_kernel_page_addr,
                        1,
                    ) ==> #[trigger] transition.page_map@.translate(address) == Some(
                        Access { physical: address as int, writable: false, executable: true },
                    )
            },
            Err(BootError::Format(error)) => {
                &&& image_error(kernel_buffer@, error)
                &&& *final(allocator) == *old(allocator)
            },
            Err(BootError::TransitionOverlap) => switch_to_kernel_addr - switch_to_kernel_addr
                % 4096 <= KERNEL_ENTRYPOINT + 0xfff,
            Err(BootError::PagingNotEnabled) => !four_level_paging(cr0, cr4, efer),
            Err(BootError::Paging(_)) => loadable(kernel_buffer@),
        },
        result matches Err(BootError::Format(_)) <==> !loadable(kernel_buffer@),
        extends(old(allocator).handed(), final(allocator).handed()),
        loadable(kernel_buffer@) ==> exists|
            log1: Seq<Request>,
            log2: Seq<Request>,
            log3: Seq<Request>,
            view1: PageMapView,
            view2: PageMapView,
            view3: PageMapView,
            stack: Result<LoadedSegment, PagingError>,
            kernel: Result<KernelImage, BootError>,
            switch: Result<u64, BootError>,
        | #[trigger]
            prepared(
                old(allocator).handed(),
                final(allocator).handed(),
                kernel_buffer@,
                switch_to_kernel_addr,
                cr0,
                cr3,
                cr4,
                efer,
                serial_controller_port,
                result,
                log1,
                log2,
                log3,
                view1,
                view2,
                view3,
                stack,
                kernel,
                switch,
            ),
        loadable(kernel_buffer@) ==> {
            &&& asked_first(
                old(allocator).handed(),
                final(allocator).handed(),
                1,
                final(allocator).handed()[old(allocator).handed().len() as int].1,
            )
            &&& final(allocator).handed()[old(allocator).handed().len() as int].1 is None
                ==> result matches Err(BootError::Paging(PagingError::AllocationExhausted))
        },
        result.is_ok() ==> switch_to_kernel_addr - switch_to_kernel_addr % 4096 > KERNEL_ENTRYPOINT
            + 0xfff,
{
    let ghost log0 = allocator.handed();
    proof {
        lemma_singles(log0, log0, Seq::<u64>::empty());
    }
    match Exe::parse(kernel_buffer) {
        Ok(exe) => match exe.check_segments() {
            Ok(()) => {},
            Err(error) => {
                return Err(BootError::Format(error));
            },
        },
        Err(error) => {
            return Err(BootError::Format(error));
        },
    }
    let made = PageMap::new(allocator);
    let ghost log1 = allocator.handed();
    let ghost nowhere = PageMapView::empty(0);
    let ghost no_stack = Err::<LoadedSegment, PagingError>(PagingError::Alignment);
    let ghost no_kernel = Err::<KernelImage, BootError>(BootError::PagingNotEnabled);
    let ghost no_switch = Err::<u64, BootError>(BootError::PagingNotEnabled);
    proof {
        assert(log1.subrange(0, log0.len() as int) =~= log0);
    }
    let mut page_map = match made {
        Ok(page_map) => page_map,
        Err(error) => {
            proof {
                assert(prepared(
                    log0,
                    allocator.handed(),
                    kernel_buffer@,
                    switch_to_kernel_addr,
                    cr0,
                    cr3,
                    cr4,
                    efer,
                    serial_controller_port,
                    Err::<Transition, BootError>(BootError::Paging(error)),
                    log1,
                    log1,
                    log1,
                    nowhere,
                    nowhere,
                    nowhere,
                    no_stack,
                    no_kernel,
                    no_switch,
                ));
            }
            return Err(BootError::Paging(error));
        },
    };
    let ghost root = page_map@.address();
    let ghost view0 = page_map@;
    assert(asked_first(log0, log1, 1, Some(root)));
    let stacked = map_stack(allocator, &mut page_map);
    let ghost log2 = allocator.handed();
    proof {
        lemma_extends(log0, log1, log2, 0);
        assert(asked_first(log0, log2, 1, Some(root)));
    }
    let ghost view1 = page_map@;
    let ghost stack_outcome = stacked;
    let stack = match stacked {
        Ok(stack) => stack,
        Err(error) => {
            proof {
                assert(prepared(
                    log0,
                    allocator.handed(),
                    kernel_buffer@,
                    switch_to_kernel_addr,
                    cr0,
                    cr3,
                    cr4,
                    efer,
                    serial_controller_port,
                    Err::<Transition, BootError>(BootError::Paging(error)),
                    log1,
                    log2,
                    log2,
                    view1,
                    nowhere,
                    nowhere,
                    stack_outcome,
                    no_kernel,
                    no_switch,
                ));
            }
            return Err(BootError::Paging(error));
        },
    };
    let mapped = map_kernel(allocator, &mut page_map, kernel_buffer);
    let ghost log3 = allocator.handed();
    proof {
        lemma_extends(log0, log2, log3, 0);
        assert(asked_first(log0, log3, 1, Some(root)));
    }
    let ghost view2 = page_map@;
    let ghost kernel_outcome = mapped;
    let kernel = match mapped {
        Ok(kernel) => kernel,
        Err(error) => {
            proof {
                assert(prepared(
                    log0,
                    allocator.handed(),
                    kernel_buffer@,
                    switch_to_kernel_addr,
                    cr0,
                    cr3,
                    cr4,
                    efer,
                    serial_controller_port,
                    Err::<Transition, BootError>(error),
                    log1,
                    log2,
                    log3,
                    view1,
                    view2,
                    nowhere,
                    stack_outcome,
                    kernel_outcome,
                    no_switch,
                ));
            }
            return Err(error);
        },
    };
    let switched = map_switch_to_kernel(allocator, &mut page_map, switch_to_kernel_addr);
    let ghost log4 = allocator.handed();
    proof {
        lemma_extends(log0, log3, log4, 0);
        assert(asked_first(log0, log4, 1, Some(root)));
        lemma_extends(log2, log3, log4, 0);
        assert(log4[log1.len() as int] == log2[log1.len() as int]) by {
            assert(log4.subrange(0, log2.len() as int)[log1.len() as int]
                == log4[log1.len() as int]);
        }
        lemma_taken_from(log0, log2, log3, log4, kernel.code);
        lemma_taken_from(log0, log2, log3, log4, kernel.rodata);
        lemma_taken_from(log0, log2, log3, log4, kernel.rwdata);
    }
    let ghost switch_outcome = switched;
    let switch_page = match switched {
        Ok(page) => page,
        Err(error) => {
            proof {
                assert(prepared(
                    log0,
                    allocator.handed(),
                    kernel_buffer@,
                    switch_to_kernel_addr,
                    cr0,
                    cr3,
                    cr4,
                    efer,
                    serial_controller_port,
                    Err::<Transition, BootError>(error),
                    log1,
                    log2,
                    log3,
                    view1,
                    view2,
                    page_map@,
                    stack_outcome,
                    kernel_outcome,
                    switch_outcome,
                ));
            }
            return Err(error);
        },
    };
    if !four_level_paging_enabled(&cr0, &cr4, &efer) {
            proof {
                assert(prepared(
                    log0,
                    allocator.handed(),
                    kernel_buffer@,
                    switch_to_kernel_addr,
                    cr0,
                    cr3,
                    cr4,
                    efer,
                    serial_controller_port,
                    Err::<Transition, BootError>(BootError::PagingNotEnabled),
                    log1,
                    log2,
                    log3,
                    view1,
                    view2,
                    page_map@,
                    stack_outcome,
                    kernel_outcome,
                    switch_outcome,
                ));
            }
        return Err(BootError::PagingNotEnabled);
    }
    let mut new_cr3 = cr3;
    let address = page_map.address();
    new_cr3.set_address(address);
    proof {
        let stack_run = Mapping {
            virtual_start: 0,
            physical_start: stack.physical_address,
            pages: 1,
            flags: PageMapFlags::W,
        };
        let segments = kernel_mappings(
            kernel_buffer@,
            kernel.code.physical_address,
            kernel.rodata.physical_address,
            kernel.rwdata.physical_address,
        );
        let switch = Mapping {
            virtual_start: switch_page,
            physical_start: switch_page,
            pages: 1,
            flags: PageMapFlags::X,
        };
        lemma_mapped_all_append(view0, view1, view2, seq![stack_run], segments);
        lemma_mapped_all_push(view0, view2, page_map@, seq![stack_run] + segments, switch);
        assert((seq![stack_run] + segments).push(switch) =~= transition_mappings(
            kernel_buffer@,
            stack.physical_address,
            kernel.code.physical_address,
            kernel.rodata.physical_address,
            kernel.rwdata.physical_address,
            switch_page,
        ));
        let mappings = transition_mappings(
            kernel_buffer@,
            stack.physical_address,
            kernel.code.physical_address,
            kernel.rodata.physical_address,
            kernel.rwdata.physical_address,
            switch_page,
        );
        assert(mappings.last() == switch);
        page_map.lemma_view_wf();
        assert forall|address: u64|
            in_pages(address as int, switch_page, 1) implies #[trigger] page_map@.translate(
            address,
        ) == Some(Access { physical: address as int, writable: false, executable: true }) by {
            lemma_last_mapping_translates(view0, page_map@, mappings, address);
        }
    }
    let transition = Transition {
        page_map,
        stack,
        kernel,
        cr3: new_cr3,
        entrypoint: KERNEL_ENTRYPOINT,
        arguments: KernelArguments {
            page_size: 4096,
            switch_to_kernel_page_addr: switch_page,
            serial_controller_port,
        },
    };
    proof {
        assert(prepared(
            log0,
            allocator.handed(),
            kernel_buffer@,
            switch_to_kernel_addr,
            cr0,
            cr3,
            cr4,
            efer,
            serial_controller_port,
            Ok::<Transition, BootError>(transition),
            log1,
            log2,
            log3,
            view1,
            view2,
            transition.page_map@,
            stack_outcome,
            kernel_outcome,
            switch_outcome,
        ));
    }
    Ok(transition)
}

} // verus!

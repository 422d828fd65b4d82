//! The page map: an arena of tables that are linked into a tree.

use super::allocator::{
    extends, lemma_singles, singles, then_singles, PageAllocator, Recorded, Request,
};
use super::entry::{
    address_of, build, is_present, lemma_alignment, lemma_zero_entry, raw_set_execute_disable,
    raw_set_writable, valid_physical, PagingError, PDE, PDPTE, PML4E, PTE,
};
use super::flags::{PageMapFlags, PageMapMode};
use super::indices::{
    address_to_page_map_indices, page_map_indices_to_address, pdpt_index, pml4_index,
    PageMapIndices,
};
use super::model::{
    lemma_fresh_link, lemma_page_address, lemma_widened, page_address, widened, zero_table,
    PageMapView, TablePath,
};
use super::laws::{lemma_set_mapped_pages, lemma_unset_mapped_pages};
use super::translate::{
    lemma_empty_grants, lemma_set_grants, lemma_set_translates, lemma_unset_translates, Access,
};
use super::visit::{PageMapVisitor, VisitView};
use super::walk::{
    leaf_steps, lemma_leaf_steps_add, lemma_walk_shows_mapped_pages, mapped_steps, PAGES,
};
use vstd::prelude::*;

verus! {

/// The entry of every table that leads back to the top-level table while the
/// page map is in use for address translation.
pub const RECURSIVE_INDEX: usize = 511;

/// Whether `result` is what making a page map with its root table at
/// `address` gives: the empty page map for a valid physical address, an
/// alignment error for an address that is not page-aligned, and a range
/// error for an aligned address of more than 52 bits.
pub open spec fn rooted(address: u64, result: Result<PageMap, PagingError>) -> bool {
    match result {
        Ok(map) => valid_physical(address) && map.wf() && map@ == PageMapView::empty(address),
        Err(PagingError::Alignment) => address % 4096 != 0,
        Err(PagingError::Range) => address % 4096 == 0 && !valid_physical(address),
        Err(PagingError::AllocationExhausted) => false,
    }
}

/// Whether the requests after those of `before` are those of a mapping of
/// the page at `address` into `view` that could not have its tables. One
/// page was asked for at a time, for the missing tables from the top
/// level down. Either a request was refused before all of them had a page,
/// and nothing was asked for after the refusal; or each of them was
/// handed a page, and the pages cannot be used: one of them is no valid
/// physical address, holds a table already, or was handed out twice.
pub open spec fn refused(
    view: PageMapView,
    address: u64,
    before: Seq<Request>,
    after: Seq<Request>,
) -> bool {
    exists|fresh: Seq<u64>|
        {
            ||| fresh.len() < view.missing_tables(address) && after == (before
                + #[trigger] singles(fresh)).push((1usize, None))
            ||| fresh.len() == view.missing_tables(address) && after == before + singles(fresh)
                && !view.usable(fresh, view.missing_tables(address))
        }
}

/// The virtual address at which a table is reached through the recursive
/// window: the table that translation arrives at after the window entry of
/// the top-level table was taken `4 - path.len()` times and the entries of
/// `path` after that.
pub open spec fn window_address(path: Seq<int>) -> int {
    if path.len() == 0 {
        page_address(511, 511, 511, 511)
    } else if path.len() == 1 {
        page_address(511, 511, 511, path[0])
    } else if path.len() == 2 {
        page_address(511, 511, path[0], path[1])
    } else {
        page_address(511, path[0], path[1], path[2])
    }
}

/// A 4-level page table structure for x86-64.
///
/// The tables are kept in an arena, in the order in which they were made;
/// the entries of the upper three levels hold the physical addresses of the
/// tables below them, as the hardware reads them.
pub struct PageMap {
    /// The physical address of the root table.
    address: u64,
    /// The physical address of each table.
    frames: Vec<u64>,
    /// The 512 entries of each table.
    tables: Vec<Vec<u64>>,
    /// For each table of the upper three levels and each present entry of
    /// it, the place in the arena of the table that the entry points to.
    children: Vec<Vec<usize>>,
    /// The place of each table in the tree.
    paths: Ghost<Seq<TablePath>>,
    /// The place in the arena of each table's parent.
    parents: Ghost<Seq<int>>,
}

impl PageMap {
    spec fn slot_ok(&self, s: int) -> bool {
        &&& self.tables@[s]@.len() == 512
        &&& valid_physical(self.frames@[s])
        &&& self.paths@[s].valid()
        &&& self.paths@[s].holds_tables() ==> self.children@[s]@.len() == 512
    }

    spec fn link_ok(&self, s: int, m: int) -> bool {
        is_present(self.tables@[s]@[m]) ==> {
            let c = self.children@[s]@[m] as int;
            &&& 0 < c < self.frames@.len()
            &&& self.paths@[c] == self.paths@[s].child(m)
            &&& self.frames@[c] == address_of(self.tables@[s]@[m])
        }
    }

    spec fn parent_ok(&self, c: int) -> bool {
        let s = self.parents@[c];
        let m = self.paths@[c].index();
        &&& 0 <= s < self.frames@.len()
        &&& !(self.paths@[c] is Pml4)
        &&& self.paths@[s] == self.paths@[c].parent()
        &&& is_present(self.tables@[s]@[m])
        &&& self.children@[s]@[m] == c
    }

    spec fn inv(&self) -> bool {
        &&& self.frames@.len() >= 1
        &&& self.tables@.len() == self.frames@.len()
        &&& self.children@.len() == self.frames@.len()
        &&& self.paths@.len() == self.frames@.len()
        &&& self.parents@.len() == self.frames@.len()
        &&& self.address == self.frames@[0]
        &&& self.paths@[0] == TablePath::Pml4
        &&& forall|s: int| 0 <= s < self.frames@.len() ==> #[trigger] self.slot_ok(s)
        &&& forall|s: int, t: int|
            0 <= s < self.frames@.len() && 0 <= t < self.frames@.len() && s != t
                ==> #[trigger] self.frames@[s] != #[trigger] self.frames@[t]
        &&& forall|s: int, t: int|
            0 <= s < self.frames@.len() && 0 <= t < self.frames@.len() && s != t
                ==> #[trigger] self.paths@[s] != #[trigger] self.paths@[t]
        &&& forall|s: int, m: int|
            0 <= s < self.frames@.len() && self.paths@[s].holds_tables() && 0 <= m < 512
                ==> #[trigger] self.link_ok(s, m)
        &&& forall|c: int| 1 <= c < self.frames@.len() ==> #[trigger] self.parent_ok(c)
    }

    spec fn slot_of(&self, path: TablePath) -> int {
        choose|s: int| 0 <= s < self.paths@.len() && self.paths@[s] == path
    }

    /// Whether the arena is a tree of tables in which no upper level takes
    /// away what a last-level entry grants. Every constructor establishes
    /// this and every operation keeps it.
    pub closed spec fn wf(&self) -> bool {
        self.inv() && self@.grants_leaves()
    }

    /// What the page map holds.
    pub closed spec fn view(&self) -> PageMapView {
        PageMapView {
            order: self.paths@,
            tables: Map::new(
                |path: TablePath| self.paths@.contains(path),
                |path: TablePath| self.tables@[self.slot_of(path)]@,
            ),
            frames: Map::new(
                |path: TablePath| self.paths@.contains(path),
                |path: TablePath| self.frames@[self.slot_of(path)],
            ),
        }
    }

    proof fn lemma_slot(&self, s: int)
        requires
            self.inv(),
            0 <= s < self.frames@.len(),
        ensures
            self.slot_of(self.paths@[s]) == s,
            self@.has(self.paths@[s]),
            self@.tables[self.paths@[s]] == self.tables@[s]@,
            self@.frames[self.paths@[s]] == self.frames@[s],
            self.slot_ok(s),
    {
        let t = self.slot_of(self.paths@[s]);
        assert(self.paths@[t] == self.paths@[s]);
    }

    proof fn lemma_has(&self, path: TablePath)
        requires
            self.inv(),
            self@.has(path),
        ensures
            0 <= self.slot_of(path) < self.frames@.len(),
            self.paths@[self.slot_of(path)] == path,
            self@.tables[path] == self.tables@[self.slot_of(path)]@,
            self@.frames[path] == self.frames@[self.slot_of(path)],
    {
    }

    /// A well-formed page map holds a tree in which no upper level takes
    /// away what a last-level entry grants.
    pub proof fn lemma_view_wf(&self)
        requires
            self.wf(),
        ensures
            self@.wf(),
            self@.grants_leaves(),
    {
        self.lemma_view_tree();
    }

    /// An arena that is a tree of tables holds a tree.
    proof fn lemma_view_tree(&self)
        requires
            self.inv(),
        ensures
            self@.wf(),
    {
        let v = self@;
        assert(v.order.no_duplicates());
        assert forall|path: TablePath| #[trigger] v.has(path) implies path.valid()
            && v.tables[path].len() == 512 && valid_physical(v.frames[path]) by {
            self.lemma_has(path);
            assert(self.slot_ok(self.slot_of(path)));
        }
        assert forall|p: TablePath, q: TablePath| #[trigger]
            v.has(p) && #[trigger] v.has(q) && p != q implies v.frames[p] != v.frames[q] by {
            self.lemma_has(p);
            self.lemma_has(q);
        }
        assert forall|path: TablePath, n: int|
            path.holds_tables() && 0 <= n < 512 implies (#[trigger] v.has(path.child(n)) <==> (
            v.has(path) && is_present(v.tables[path][n]))) by {
            if v.has(path.child(n)) {
                self.lemma_has(path.child(n));
                let c = self.slot_of(path.child(n));
                assert(self.parent_ok(c));
                let s = self.parents@[c];
                self.lemma_slot(s);
            }
            if v.has(path) && is_present(v.tables[path][n]) {
                self.lemma_has(path);
                let s = self.slot_of(path);
                assert(self.link_ok(s, n));
                self.lemma_slot(self.children@[s]@[n] as int);
            }
        }
        assert forall|path: TablePath, n: int|
            path.holds_tables() && 0 <= n < 512 && #[trigger] v.has(path.child(n)) implies address_of(
            v.tables[path][n],
        ) == v.frames[path.child(n)] by {
            self.lemma_has(path.child(n));
            let c = self.slot_of(path.child(n));
            assert(self.parent_ok(c));
            let s = self.parents@[c];
            self.lemma_slot(s);
            assert(self.link_ok(s, n));
        }
    }

    /// Size of a page, and of a table, in bytes.
    pub const PAGE_SIZE: usize = 4096;

    /// Makes the page map whose root table lies at `address` and is empty.
    ///
    /// Fails with an alignment error if the address is not page-aligned, and
    /// with a range error if it is aligned but needs more than 52 bits.
    pub fn with_root(address: u64) -> (result: Result<PageMap, PagingError>)
        ensures
            rooted(address, result),
    {
        proof {
            lemma_alignment(address);
        }
        if address & 0xfff != 0 {
            return Err(PagingError::Alignment);
        }
        if address & (0xfff << 52) != 0 {
            return Err(PagingError::Range);
        }
        let mut frames: Vec<u64> = Vec::new();
        frames.push(address);
        let mut tables: Vec<Vec<u64>> = Vec::new();
        tables.push(vec![0u64; 512]);
        let mut children: Vec<Vec<usize>> = Vec::new();
        children.push(vec![0usize; 512]);
        let ghost paths = seq![TablePath::Pml4];
        let ghost parents = seq![0int];
        let map = PageMap {
            address,
            frames,
            tables,
            children,
            paths: Ghost(paths),
            parents: Ghost(parents),
        };
        proof {
            lemma_zero_entry();
            assert(map.slot_ok(0));
            assert forall|s: int, m: int|
                0 <= s < map.frames@.len() && map.paths@[s].holds_tables() && 0 <= m < 512
                    implies #[trigger] map.link_ok(s, m) by {}
            assert(map.inv());
            map.lemma_slot(0);
            assert(map.tables@[0]@ =~= zero_table());
            assert(map@.tables =~= PageMapView::empty(address).tables);
            assert(map@.frames =~= PageMapView::empty(address).frames);
            assert(map@.order =~= PageMapView::empty(address).order);
            lemma_empty_grants(address);
        }
        Ok(map)
    }

    /// Makes an empty page map whose root table is a page from `allocator`.
    ///
    /// The allocator is asked once, for one page. The page map has its
    /// root table at the page that was handed out. The call fails with an
    /// allocation error when no page was handed out, and as `with_root`
    /// does when the page cannot hold a table.
    pub fn new<A: PageAllocator>(allocator: &mut Recorded<A>) -> (result: Result<
        PageMap,
        PagingError,
    >)
        ensures
            final(allocator).handed() == old(allocator).handed().push(
                final(allocator).handed().last(),
            ),
            final(allocator).handed().last().0 == 1,
            match final(allocator).handed().last().1 {
                Some(address) => rooted(address, result),
                None => result matches Err(PagingError::AllocationExhausted),
            },
    {
        match allocator.allocate_pages(1) {
            None => Err(PagingError::AllocationExhausted),
            Some(address) => PageMap::with_root(address),
        }
    }

    /// Replaces one entry of a last-level table.
    fn put(&mut self, slot: usize, index: usize, value: u64)
        requires
            old(self).inv(),
            slot < old(self).frames@.len(),
            old(self).paths@[slot as int] is Pt,
            index < 512,
        ensures
            final(self).inv(),
            final(self).address == old(self).address,
            final(self)@ == old(self)@.put(old(self).paths@[slot as int], index as int, value),
    {
        let ghost pre = *self;
        proof {
            pre.lemma_slot(slot as int);
        }
        self.tables[slot][index] = value;
        proof {
            let path = pre.paths@[slot as int];
            assert forall|s: int| 0 <= s < self.frames@.len() implies #[trigger] self.slot_ok(
                s,
            ) by {
                assert(pre.slot_ok(s));
            }
            assert forall|s: int, m: int|
                0 <= s < self.frames@.len() && self.paths@[s].holds_tables() && 0 <= m < 512
                    implies #[trigger] self.link_ok(s, m) by {
                assert(pre.link_ok(s, m));
            }
            assert forall|c: int| 1 <= c < self.frames@.len() implies #[trigger] self.parent_ok(
                c,
            ) by {
                assert(pre.parent_ok(c));
            }
            assert(self.inv());
            let goal = pre@.put(path, index as int, value);
            assert forall|q: TablePath| self@.tables.dom().contains(q) implies #[trigger]
                self@.tables[q] == goal.tables[q] by {
                pre.lemma_has(q);
            }
            assert(self@.tables =~= goal.tables);
            assert(self@.frames =~= goal.frames);
        }
    }

    /// Makes one entry of a table of the upper three levels lead to a table
    /// and allow `flags`, and returns the place of that table in the arena.
    /// Where the entry is not present, a table of zeros at `frame` is added.
    fn link(&mut self, slot: usize, index: usize, frame: u64, flags: PageMapFlags, leaf: bool) -> (child:
        usize)
        requires
            old(self).inv(),
            slot < old(self).frames@.len(),
            old(self).paths@[slot as int].holds_tables(),
            index < 512,
            leaf == (old(self).paths@[slot as int] is Pd),
            !is_present(old(self).tables@[slot as int]@[index as int]) ==> valid_physical(frame)
                && !old(self)@.uses_frame(frame),
        ensures
            final(self).inv(),
            final(self).address == old(self).address,
            final(self)@ == old(self)@.link(
                old(self).paths@[slot as int],
                index as int,
                frame,
                flags,
            ),
            old(self)@.has(old(self).paths@[slot as int].child(index as int)) == is_present(
                old(self).tables@[slot as int]@[index as int],
            ),
            child < final(self).frames@.len(),
            final(self).paths@[child as int] == old(self).paths@[slot as int].child(index as int),
            final(self).frames@.len() >= old(self).frames@.len(),
            forall|s: int|
                0 <= s < old(self).frames@.len() ==> final(self).paths@[s] == old(self).paths@[s],
    {
        let ghost pre = *self;
        let ghost path = pre.paths@[slot as int];
        let ghost below = path.child(index as int);
        proof {
            pre.lemma_slot(slot as int);
            assert(pre.link_ok(slot as int, index as int));
        }
        let entry: u64 = self.tables[slot][index];
        let present: bool = entry & 1 == 1;
        let mut value: u64 = entry;
        let mut child: usize = 0;
        if present {
            child = self.children[slot][index];
            proof {
                pre.lemma_slot(child as int);
            }
        } else {
            proof {
                lemma_alignment(frame);
                lemma_fresh_link(frame);
                // no table lies at the new frame, and none has the new path
                assert forall|s: int| 0 <= s < pre.frames@.len() implies pre.frames@[s]
                    != frame by {
                    pre.lemma_slot(s);
                }
                assert forall|s: int| 0 <= s < pre.frames@.len() implies pre.paths@[s]
                    != below by {
                    if pre.paths@[s] == below {
                        assert(pre.parent_ok(s));
                        pre.lemma_slot(pre.parents@[s]);
                    }
                }
                assert(!pre@.has(below));
            }
            child = self.frames.len();
            match build(true, frame, false, false, false, false) {
                Ok(built) => {
                    value = built;
                },
                Err(_) => {},
            }
            self.frames.push(frame);
            self.tables.push(vec![0u64; 512]);
            if leaf {
                self.children.push(Vec::new());
            } else {
                self.children.push(vec![0usize; 512]);
            }
            proof {
                self.paths@ = self.paths@.push(below);
                self.parents@ = self.parents@.push(slot as int);
            }
        }
        let ghost linked = value;
        if flags.writeable() {
            value = raw_set_writable(value, true);
        }
        if flags.executable() {
            value = raw_set_execute_disable(value, false);
        }
        self.tables[slot][index] = value;
        self.children[slot][index] = child;
        proof {
            lemma_widened(linked, flags);
            lemma_zero_entry();
            assert(value == widened(linked, flags));
            assert(is_present(value));
            assert(address_of(value) == address_of(linked));
            assert forall|s: int| 0 <= s < self.frames@.len() implies #[trigger] self.slot_ok(
                s,
            ) by {
                if s < pre.frames@.len() {
                    assert(pre.slot_ok(s));
                }
            }
            assert forall|s: int, m: int|
                0 <= s < self.frames@.len() && self.paths@[s].holds_tables() && 0 <= m < 512
                    implies #[trigger] self.link_ok(s, m) by {
                if s < pre.frames@.len() {
                    assert(pre.link_ok(s, m));
                }
            }
            assert forall|c: int| 1 <= c < self.frames@.len() implies #[trigger] self.parent_ok(
                c,
            ) by {
                if c < pre.frames@.len() {
                    assert(pre.parent_ok(c));
                    assert(pre.slot_ok(c));
                    assert(pre.slot_ok(pre.parents@[c]));
                    let q = pre.paths@[c];
                    assert(q == q.parent().child(q.index()));
                    if pre.parents@[c] == slot && q.index() == index {
                        assert(q == below);
                    }
                } else {
                    assert(below.parent() == path);
                    assert(below.index() == index);
                }
            }
            assert(self.inv());
            let goal = pre@.link(path, index as int, frame, flags);
            assert forall|q: TablePath| self@.tables.dom().contains(q) implies #[trigger]
                self@.tables[q] == goal.tables[q] && self@.frames[q] == goal.frames[q] by {
                self.lemma_has(q);
                let s = self.slot_of(q);
                if s < pre.frames@.len() {
                    pre.lemma_slot(s);
                }
            }
            assert forall|q: TablePath| goal.tables.dom().contains(q) implies self@.tables.dom().contains(
                q,
            ) by {
                if q == below {
                    self.lemma_slot(child as int);
                } else {
                    pre.lemma_has(q);
                    self.lemma_slot(pre.slot_of(q));
                }
            }
            assert(self@.tables =~= goal.tables);
            assert(self@.frames =~= goal.frames);
            assert(self@.order =~= goal.order);
        }
        child
    }

    /// The place in the arena of the table under one entry of a table of
    /// the upper three levels, if the entry is present.
    fn below(&self, slot: usize, index: usize) -> (child: Option<usize>)
        requires
            self.inv(),
            slot < self.frames@.len(),
            self.paths@[slot as int].holds_tables(),
            index < 512,
        ensures
            match child {
                Some(c) => c < self.frames@.len() && self.paths@[c as int]
                    == self.paths@[slot as int].child(index as int) && self@.has(
                    self.paths@[slot as int].child(index as int),
                ) && is_present(self.tables@[slot as int]@[index as int]),
                None => !self@.has(self.paths@[slot as int].child(index as int)) && !is_present(
                    self.tables@[slot as int]@[index as int],
                ),
            },
    {
        proof {
            self.lemma_slot(slot as int);
            self.lemma_view_tree();
            assert(self.link_ok(slot as int, index as int));
        }
        let entry: u64 = self.tables[slot][index];
        if entry & 1 == 1 {
            let child: usize = self.children[slot][index];
            proof {
                self.lemma_slot(child as int);
            }
            Some(child)
        } else {
            None
        }
    }

    /// Whether one of the tables lies at `frame`.
    pub fn uses_frame(&self, frame: u64) -> (used: bool)
        requires
            self.wf(),
        ensures
            used == self@.uses_frame(frame),
    {
        let mut s: usize = 0;
        while s < self.frames.len()
            invariant
                self.inv(),
                s <= self.frames@.len(),
                forall|t: int| 0 <= t < s ==> self.frames@[t] != frame,
            decreases self.frames@.len() - s,
        {
            if self.frames[s] == frame {
                proof {
                    self.lemma_slot(s as int);
                }
                return true;
            }
            s += 1;
        }
        proof {
            assert forall|path: TablePath| #[trigger] self@.has(path) implies self@.frames[path]
                != frame by {
                self.lemma_has(path);
            }
        }
        false
    }

    /// How many new tables mapping the page of `virtual_address` takes: 0 to 3.
    pub fn missing_tables(&self, virtual_address: u64) -> (count: usize)
        requires
            self.wf(),
        ensures
            count == self@.missing_tables(virtual_address),
            count <= 3,
    {
        let indices = address_to_page_map_indices(virtual_address);
        proof {
            self.lemma_view_tree();
            self@.lemma_tree(indices.pml4 as int, indices.pdpt as int, indices.pd as int);
        }
        match self.below(0, indices.pml4) {
            None => 3,
            Some(pdpt) => match self.below(pdpt, indices.pdpt) {
                None => 2,
                Some(pd) => match self.below(pd, indices.pd) {
                    None => 1,
                    Some(_) => 0,
                },
            },
        }
    }

    /// Whether the first `count` frames of `fresh` can hold new tables.
    fn usable(&self, fresh: &[u64], count: usize) -> (usable: bool)
        requires
            self.wf(),
            count <= 3,
        ensures
            usable == self@.usable(fresh@, count as nat),
    {
        if fresh.len() < count {
            return false;
        }
        let mut x: usize = 0;
        while x < count
            invariant
                self.wf(),
                x <= count <= 3,
                count <= fresh@.len(),
                self@.usable(fresh@, x as nat),
            decreases count - x,
        {
            let frame: u64 = fresh[x];
            proof {
                lemma_alignment(frame);
            }
            if frame & 0xfff != 0 || frame & (0xfff << 52) != 0 || self.uses_frame(frame) || (x >= 1
                && fresh[0] == frame) || (x >= 2 && fresh[1] == frame) {
                return false;
            }
            x += 1;
        }
        true
    }

    /// Maps the page at `virtual_page_address` to the page at
    /// `physical_page_address`, with the new tables, if any are needed, at
    /// the first frames of `fresh`.
    ///
    /// The three upper levels are walked; a missing table is made, empty,
    /// at the next frame of `fresh` and linked read-only and not executable.
    /// Every entry on the way is then widened to allow `flags`, and the
    /// last-level entry is replaced by one that allows exactly `flags`.
    ///
    /// Nothing changes when the call fails. It fails with an alignment
    /// error if one of the two addresses is not page-aligned; else with a
    /// range error if the physical address needs more than 52 bits; else
    /// with an allocation error if `fresh` does not start with as many
    /// usable frames as tables are missing.
    pub fn set_with(
        &mut self,
        fresh: &[u64],
        virtual_page_address: u64,
        physical_page_address: u64,
        flags: PageMapFlags,
    ) -> (result: Result<(), PagingError>)
        requires
            old(self).wf(),
        ensures
            final(self).wf(),
            final(self)@.address() == old(self)@.address(),
            match result {
                Ok(()) => {
                    &&& virtual_page_address % 4096 == 0
                    &&& valid_physical(physical_page_address)
                    &&& old(self)@.usable(fresh@, old(self)@.missing_tables(virtual_page_address))
                    &&& final(self)@ == old(self)@.set(
                        fresh@,
                        virtual_page_address,
                        physical_page_address,
                        flags,
                    )
                    &&& final(self)@.translate(virtual_page_address) == Some(
                        Access {
                            physical: physical_page_address as int,
                            writable: flags.is_writeable(),
                            executable: flags.is_executable(),
                        },
                    )
                    &&& virtual_page_address < 0x1_0000_0000_0000 ==> final(self)@.mapped_pages()
                        == old(self)@.mapped_pages().insert(virtual_page_address)
                },
                Err(PagingError::Alignment) => {
                    &&& virtual_page_address % 4096 != 0 || physical_page_address % 4096 != 0
                    &&& final(self)@ == old(self)@
                },
                Err(PagingError::Range) => {
                    &&& virtual_page_address % 4096 == 0
                    &&& physical_page_address % 4096 == 0
                    &&& !valid_physical(physical_page_address)
                    &&& final(self)@ == old(self)@
                },
                Err(PagingError::AllocationExhausted) => {
                    &&& virtual_page_address % 4096 == 0
                    &&& valid_physical(physical_page_address)
                    &&& !old(self)@.usable(fresh@, old(self)@.missing_tables(virtual_page_address))
                    &&& final(self)@ == old(self)@
                },
            },
    {
        proof {
            lemma_alignment(virtual_page_address);
            lemma_alignment(physical_page_address);
        }
        if virtual_page_address & 0xfff != 0 || physical_page_address & 0xfff != 0 {
            return Err(PagingError::Alignment);
        }
        if physical_page_address & (0xfff << 52) != 0 {
            return Err(PagingError::Range);
        }
        let missing: usize = self.missing_tables(virtual_page_address);
        if !self.usable(fresh, missing) {
            return Err(PagingError::AllocationExhausted);
        }
        let indices = address_to_page_map_indices(virtual_page_address);
        let ghost v0 = self@;
        let ghost i = indices.pml4 as int;
        let ghost j = indices.pdpt as int;
        let ghost k = indices.pd as int;
        proof {
            self.lemma_view_tree();
            v0.lemma_tree(i, j, k);
        }
        let frame1: u64 = if missing == 3 {
            fresh[0]
        } else {
            0
        };
        let frame2: u64 = if missing >= 2 {
            fresh[missing - 2]
        } else {
            0
        };
        let frame3: u64 = if missing >= 1 {
            fresh[missing - 1]
        } else {
            0
        };
        proof {
            self.lemma_slot(0);
            assert(self.link_ok(0, i));
        }
        let pdpt: usize = self.link(0, indices.pml4, frame1, flags, false);
        let ghost v1 = self@;
        proof {
            v0.lemma_link_frames(TablePath::Pml4, i, frame1, flags);
            self.lemma_slot(pdpt as int);
            self.lemma_view_tree();
            assert(self.link_ok(pdpt as int, j));
            v1.lemma_tree(i, j, k);
        }
        let pd: usize = self.link(pdpt, indices.pdpt, frame2, flags, false);
        let ghost v2 = self@;
        proof {
            v1.lemma_link_frames(TablePath::Pdpt(i), j, frame2, flags);
            self.lemma_slot(pd as int);
            self.lemma_view_tree();
            assert(self.link_ok(pd as int, k));
            v2.lemma_tree(i, j, k);
        }
        let pt: usize = self.link(pd, indices.pd, frame3, flags, true);
        let ghost v3 = self@;
        let leaf: u64 = match build(
            !flags.executable(),
            physical_page_address,
            false,
            false,
            false,
            flags.writeable(),
        ) {
            Ok(entry) => entry,
            Err(_) => 0,
        };
        self.put(pt, indices.pt, leaf);
        proof {
            old(self).lemma_slot(0);
            self.lemma_slot(0);
            assert(v1 == v0.link(TablePath::Pml4, i, fresh@[0], flags));
            assert(v2 == v1.link(TablePath::Pdpt(i), j, fresh@[missing - 2], flags));
            assert(v3 == v2.link(TablePath::Pd(i, j), k, fresh@[missing - 1], flags));
            old(self).lemma_view_wf();
            lemma_set_grants(v0, fresh@, virtual_page_address, physical_page_address, flags);
            lemma_set_translates(
                v0,
                fresh@,
                virtual_page_address,
                physical_page_address,
                flags,
                virtual_page_address,
            );
            if virtual_page_address < 0x1_0000_0000_0000 {
                lemma_set_mapped_pages(
                    v0,
                    fresh@,
                    virtual_page_address,
                    physical_page_address,
                    flags,
                );
            }
        }
        Ok(())
    }

    /// Maps the page at `virtual_page_address` to the page at
    /// `physical_page_address`; the pages for new tables, at most three,
    /// come from `allocator`, one at a time.
    ///
    /// The two addresses are checked before anything is allocated. Nothing
    /// changes in the page map when the call fails. It fails with an
    /// alignment error if one of the two addresses is not page-aligned;
    /// else with a range error if the physical address needs more than 52
    /// bits; else with an allocation error if a table is missing and the
    /// allocator has no page left or hands out one that cannot hold a table.
    pub fn set<A: PageAllocator>(
        &mut self,
        allocator: &mut Recorded<A>,
        virtual_page_address: u64,
        physical_page_address: u64,
        flags: PageMapFlags,
    ) -> (result: Result<(), PagingError>)
        requires
            old(self).wf(),
        ensures
            final(self).wf(),
            final(self)@.address() == old(self)@.address(),
            extends(old(allocator).handed(), final(allocator).handed()),
            then_singles(old(allocator).handed(), final(allocator).handed(), 0),
            match result {
                Ok(()) => {
                    &&& virtual_page_address % 4096 == 0
                    &&& valid_physical(physical_page_address)
                    &&& exists|fresh: Seq<u64>|
                        {
                            &&& fresh.len() == old(self)@.missing_tables(virtual_page_address)
                            &&& final(allocator).handed() == old(allocator).handed() + singles(
                                fresh,
                            )
                            &&& old(self)@.usable(
                                fresh,
                                old(self)@.missing_tables(virtual_page_address),
                            )
                            &&& final(self)@ == #[trigger] old(self)@.set(
                                fresh,
                                virtual_page_address,
                                physical_page_address,
                                flags,
                            )
                        }
                    &&& final(self)@.translate(virtual_page_address) == Some(
                        Access {
                            physical: physical_page_address as int,
                            writable: flags.is_writeable(),
                            executable: flags.is_executable(),
                        },
                    )
                    &&& virtual_page_address < 0x1_0000_0000_0000 ==> final(self)@.mapped_pages()
                        == old(self)@.mapped_pages().insert(virtual_page_address)
                },
                Err(PagingError::Alignment) => {
                    &&& virtual_page_address % 4096 != 0 || physical_page_address % 4096 != 0
                    &&& final(self)@ == old(self)@
                    &&& *final(allocator) == *old(allocator)
                },
                Err(PagingError::Range) => {
                    &&& virtual_page_address % 4096 == 0
                    &&& physical_page_address % 4096 == 0
                    &&& !valid_physical(physical_page_address)
                    &&& final(self)@ == old(self)@
                    &&& *final(allocator) == *old(allocator)
                },
                Err(PagingError::AllocationExhausted) => {
                    &&& virtual_page_address % 4096 == 0
                    &&& valid_physical(physical_page_address)
                    &&& old(self)@.missing_tables(virtual_page_address) > 0
                    &&& final(self)@ == old(self)@
                    &&& refused(
                        old(self)@,
                        virtual_page_address,
                        old(allocator).handed(),
                        final(allocator).handed(),
                    )
                },
            },
    {
        proof {
            lemma_alignment(virtual_page_address);
            lemma_alignment(physical_page_address);
        }
        proof {
            lemma_singles(allocator.handed(), allocator.handed(), Seq::<u64>::empty());
        }
        if virtual_page_address & 0xfff != 0 || physical_page_address & 0xfff != 0 {
            return Err(PagingError::Alignment);
        }
        if physical_page_address & (0xfff << 52) != 0 {
            return Err(PagingError::Range);
        }
        let missing: usize = self.missing_tables(virtual_page_address);
        let ghost before = self@;
        let mut fresh: Vec<u64> = Vec::new();
        assert(allocator.handed() =~= old(allocator).handed() + singles(fresh@));
        while fresh.len() < missing
            invariant
                self.wf(),
                self@ == before,
                *self == *old(self),
                missing == before.missing_tables(virtual_page_address),
                virtual_page_address % 4096 == 0,
                valid_physical(physical_page_address),
                fresh@.len() <= missing <= 3,
                allocator.handed() == old(allocator).handed() + singles(fresh@),
            decreases missing - fresh@.len(),
        {
            let ghost taken = fresh@;
            match allocator.allocate_pages(1) {
                None => {
                    proof {
                        lemma_singles(old(allocator).handed(), allocator.handed(), taken);
                    }
                    return Err(PagingError::AllocationExhausted);
                },
                Some(frame) => {
                    fresh.push(frame);
                    assert(singles(fresh@) =~= singles(taken).push((1usize, Some(frame))));
                    assert(allocator.handed() =~= old(allocator).handed() + singles(fresh@));
                },
            }
        }
        let result = self.set_with(
            fresh.as_slice(),
            virtual_page_address,
            physical_page_address,
            flags,
        );
        proof {
            lemma_singles(old(allocator).handed(), allocator.handed(), fresh@);
            if result is Err {
                assert(fresh@.len() == missing);
                assert(!before.usable(fresh@, missing as nat));
            }
        }
        result
    }

    /// Unmaps the page at `virtual_page_address`.
    ///
    /// The upper three levels are walked; where one of them has no table
    /// for the address, nothing changes. Otherwise the last-level entry
    /// becomes 0. No table is ever given up.
    ///
    /// Fails with an alignment error, and changes nothing, if the address
    /// is not page-aligned.
    pub fn unset(&mut self, virtual_page_address: u64) -> (result: Result<(), PagingError>)
        requires
            old(self).wf(),
        ensures
            final(self).wf(),
            final(self)@.address() == old(self)@.address(),
            match result {
                Ok(()) => {
                    &&& virtual_page_address % 4096 == 0
                    &&& final(self)@ == old(self)@.unset(virtual_page_address)
                    &&& final(self)@.translate(virtual_page_address).is_none()
                    &&& virtual_page_address < 0x1_0000_0000_0000 ==> final(self)@.mapped_pages()
                        == old(self)@.mapped_pages().remove(virtual_page_address)
                },
                Err(PagingError::Alignment) => virtual_page_address % 4096 != 0 && final(self)@
                    == old(self)@,
                Err(_) => false,
            },
    {
        proof {
            lemma_alignment(virtual_page_address);
        }
        if virtual_page_address & 0xfff != 0 {
            return Err(PagingError::Alignment);
        }
        let indices = address_to_page_map_indices(virtual_page_address);
        proof {
            self.lemma_view_wf();
            self@.lemma_tree(indices.pml4 as int, indices.pdpt as int, indices.pd as int);
            self.lemma_slot(0);
            lemma_unset_translates(self@, virtual_page_address, virtual_page_address);
            if virtual_page_address < 0x1_0000_0000_0000 {
                lemma_unset_mapped_pages(self@, virtual_page_address);
            }
        }
        let pdpt: usize = match self.below(0, indices.pml4) {
            None => {
                return Ok(());
            },
            Some(pdpt) => pdpt,
        };
        let pd: usize = match self.below(pdpt, indices.pdpt) {
            None => {
                return Ok(());
            },
            Some(pd) => pd,
        };
        let pt: usize = match self.below(pd, indices.pd) {
            None => {
                return Ok(());
            },
            Some(pt) => pt,
        };
        self.put(pt, indices.pt, 0);
        proof {
            self.lemma_slot(0);
        }
        Ok(())
    }

    /// Adds to `total` the bytes that one last-level table maps.
    fn size_pt(&self, pt: usize, total: u64) -> (bytes: u64)
        requires
            self.inv(),
            pt < self.frames@.len(),
            self.paths@[pt as int] is Pt,
            total == 4096 * self@.mapped_below(self.paths@[pt as int].first_page()).len(),
            self@.mapped_below(self.paths@[pt as int].first_page()).finite(),
            total <= self.paths@[pt as int].first_page(),
        ensures
            bytes == 4096 * self@.mapped_below(
                self.paths@[pt as int].first_page() + 0x20_0000,
            ).len(),
            self@.mapped_below(self.paths@[pt as int].first_page() + 0x20_0000).finite(),
            bytes <= self.paths@[pt as int].first_page() + 0x20_0000,
    {
        let ghost path = self.paths@[pt as int];
        let ghost i = path->Pt_0;
        let ghost j = path->Pt_1;
        let ghost k = path->Pt_2;
        proof {
            self.lemma_slot(pt as int);
        }
        let mut total: u64 = total;
        let mut l: usize = 0;
        while l < 512
            invariant
                self.inv(),
                pt < self.frames@.len(),
                self.paths@[pt as int] == TablePath::Pt(i, j, k),
                TablePath::Pt(i, j, k).valid(),
                self@.has(TablePath::Pt(i, j, k)),
                self@.tables[TablePath::Pt(i, j, k)] == self.tables@[pt as int]@,
                self.tables@[pt as int]@.len() == 512,
                l <= 512,
                total == 4096 * self@.mapped_below(page_address(i, j, k, l as int)).len(),
                self@.mapped_below(page_address(i, j, k, l as int)).finite(),
                total <= page_address(i, j, k, l as int),
            decreases 512 - l,
        {
            proof {
                self@.lemma_mapped_step(i, j, k, l as int);
            }
            let entry: u64 = self.tables[pt][l];
            if entry & 1 == 1 {
                total += 4096;
            }
            l += 1;
        }
        total
    }

    /// Adds to `total` the bytes that are mapped through one third-level table.
    fn size_pd(&self, pd: usize, total: u64) -> (bytes: u64)
        requires
            self.inv(),
            pd < self.frames@.len(),
            self.paths@[pd as int] is Pd,
            total == 4096 * self@.mapped_below(self.paths@[pd as int].first_page()).len(),
            self@.mapped_below(self.paths@[pd as int].first_page()).finite(),
            total <= self.paths@[pd as int].first_page(),
        ensures
            bytes == 4096 * self@.mapped_below(
                self.paths@[pd as int].first_page() + 0x4000_0000,
            ).len(),
            self@.mapped_below(self.paths@[pd as int].first_page() + 0x4000_0000).finite(),
            bytes <= self.paths@[pd as int].first_page() + 0x4000_0000,
    {
        let ghost path = self.paths@[pd as int];
        let ghost i = path->Pd_0;
        let ghost j = path->Pd_1;
        proof {
            self.lemma_slot(pd as int);
        }
        let mut total: u64 = total;
        let mut k: usize = 0;
        while k < 512
            invariant
                self.inv(),
                pd < self.frames@.len(),
                self.paths@[pd as int] == TablePath::Pd(i, j),
                TablePath::Pd(i, j).valid(),
                k <= 512,
                total == 4096 * self@.mapped_below(page_address(i, j, k as int, 0)).len(),
                self@.mapped_below(page_address(i, j, k as int, 0)).finite(),
                total <= page_address(i, j, k as int, 0),
            decreases 512 - k,
        {
            match self.below(pd, k) {
                None => {
                    proof {
                        self@.lemma_mapped_skip_pt(i, j, k as int);
                    }
                },
                Some(pt) => {
                    total = self.size_pt(pt, total);
                },
            }
            k += 1;
        }
        total
    }

    /// Adds to `total` the bytes that are mapped through one second-level table.
    fn size_pdpt(&self, pdpt: usize, total: u64) -> (bytes: u64)
        requires
            self.inv(),
            pdpt < self.frames@.len(),
            self.paths@[pdpt as int] is Pdpt,
            total == 4096 * self@.mapped_below(self.paths@[pdpt as int].first_page()).len(),
            self@.mapped_below(self.paths@[pdpt as int].first_page()).finite(),
            total <= self.paths@[pdpt as int].first_page(),
        ensures
            bytes == 4096 * self@.mapped_below(
                self.paths@[pdpt as int].first_page() + 0x80_0000_0000,
            ).len(),
            self@.mapped_below(self.paths@[pdpt as int].first_page() + 0x80_0000_0000).finite(),
            bytes <= self.paths@[pdpt as int].first_page() + 0x80_0000_0000,
    {
        let ghost path = self.paths@[pdpt as int];
        let ghost i = path->Pdpt_0;
        proof {
            self.lemma_slot(pdpt as int);
            self.lemma_view_tree();
        }
        let mut total: u64 = total;
        let mut j: usize = 0;
        while j < 512
            invariant
                self.inv(),
                self@.wf(),
                pdpt < self.frames@.len(),
                self.paths@[pdpt as int] == TablePath::Pdpt(i),
                TablePath::Pdpt(i).valid(),
                j <= 512,
                total == 4096 * self@.mapped_below(page_address(i, j as int, 0, 0)).len(),
                self@.mapped_below(page_address(i, j as int, 0, 0)).finite(),
                total <= page_address(i, j as int, 0, 0),
            decreases 512 - j,
        {
            match self.below(pdpt, j) {
                None => {
                    proof {
                        self@.lemma_mapped_skip_pd(i, j as int);
                    }
                },
                Some(pd) => {
                    total = self.size_pd(pd, total);
                },
            }
            j += 1;
        }
        total
    }

    /// The total amount of mapped memory, in bytes: the page size times the
    /// number of pages that are mapped.
    pub fn size(&self) -> (bytes: u64)
        requires
            self.wf(),
        ensures
            self@.mapped_pages().finite(),
            bytes == 4096 * self@.mapped_pages().len(),
    {
        proof {
            self.lemma_slot(0);
            self.lemma_view_tree();
            self@.lemma_mapped_bounds();
        }
        let mut total: u64 = 0;
        let mut i: usize = 0;
        while i < 512
            invariant
                self.inv(),
                self@.wf(),
                self.paths@[0] == TablePath::Pml4,
                0 < self.frames@.len(),
                i <= 512,
                total == 4096 * self@.mapped_below(page_address(i as int, 0, 0, 0)).len(),
                self@.mapped_below(page_address(i as int, 0, 0, 0)).finite(),
                total <= page_address(i as int, 0, 0, 0),
            decreases 512 - i,
        {
            match self.below(0, i) {
                None => {
                    proof {
                        self@.lemma_mapped_skip_pdpt(i as int);
                    }
                },
                Some(pdpt) => {
                    total = self.size_pdpt(pdpt, total);
                },
            }
            i += 1;
        }
        total
    }

    /// Shows the present entries of one last-level table to `visitor`.
    fn debug_pt<V: PageMapVisitor>(&self, pt: usize, i: usize, j: usize, k: usize, visitor: &mut V)
        requires
            self.inv(),
            pt < self.frames@.len(),
            self.paths@[pt as int] == TablePath::Pt(i as int, j as int, k as int),
        ensures
            final(visitor).visited() == old(visitor).visited() + self@.visits_pt(
                i as int,
                j as int,
                k as int,
                512,
            ),
    {
        proof {
            self.lemma_slot(pt as int);
        }
        let ghost start = visitor.visited();
        let mut l: usize = 0;
        assert(start + self@.visits_pt(i as int, j as int, k as int, 0) =~= start);
        while l < 512
            invariant
                self.inv(),
                pt < self.frames@.len(),
                self.paths@[pt as int] == TablePath::Pt(i as int, j as int, k as int),
                TablePath::Pt(i as int, j as int, k as int).valid(),
                self@.has(TablePath::Pt(i as int, j as int, k as int)),
                self@.tables[TablePath::Pt(i as int, j as int, k as int)]
                    == self.tables@[pt as int]@,
                self.tables@[pt as int]@.len() == 512,
                l <= 512,
                visitor.visited() == start + self@.visits_pt(i as int, j as int, k as int, l as int),
            decreases 512 - l,
        {
            let entry: u64 = self.tables[pt][l];
            let ghost before = self@.visits_pt(i as int, j as int, k as int, l as int);
            if entry & 1 == 1 {
                proof {
                    lemma_page_address(i as int, j as int, k as int, l as int);
                }
                let address: u64 = page_map_indices_to_address(
                    PageMapIndices { pml4: i, pdpt: j, pd: k, pt: l, offset: 0 },
                );
                let typed = PTE::from_bits(entry);
                visitor.pte(l, address, &typed);
                assert(visitor.visited() =~= start + before.push(
                    VisitView::Pte { index: l as int, virtual_address: address, entry },
                ));
            }
            l += 1;
        }
    }

    /// Shows the present entries of one third-level table, and of the
    /// tables below it, to `visitor`.
    fn debug_pd<V: PageMapVisitor>(&self, pd: usize, i: usize, j: usize, visitor: &mut V)
        requires
            self.inv(),
            pd < self.frames@.len(),
            self.paths@[pd as int] == TablePath::Pd(i as int, j as int),
        ensures
            final(visitor).visited() == old(visitor).visited() + self@.visits_pd(
                i as int,
                j as int,
                512,
            ),
    {
        proof {
            self.lemma_slot(pd as int);
        }
        let ghost start = visitor.visited();
        let mut k: usize = 0;
        assert(start + self@.visits_pd(i as int, j as int, 0) =~= start);
        while k < 512
            invariant
                self.inv(),
                pd < self.frames@.len(),
                self.paths@[pd as int] == TablePath::Pd(i as int, j as int),
                TablePath::Pd(i as int, j as int).valid(),
                self@.has(TablePath::Pd(i as int, j as int)),
                self@.tables[TablePath::Pd(i as int, j as int)] == self.tables@[pd as int]@,
                self.tables@[pd as int]@.len() == 512,
                k <= 512,
                visitor.visited() == start + self@.visits_pd(i as int, j as int, k as int),
            decreases 512 - k,
        {
            let ghost before = self@.visits_pd(i as int, j as int, k as int);
            match self.below(pd, k) {
                None => {},
                Some(pt) => {
                    let entry: u64 = self.tables[pd][k];
                    let typed = PDE::from_bits(entry);
                    visitor.pde(k, &typed);
                    self.debug_pt(pt, i, j, k, visitor);
                    assert(visitor.visited() =~= start + (before.push(
                        VisitView::Pde { index: k as int, entry },
                    ) + self@.visits_pt(i as int, j as int, k as int, 512)));
                },
            }
            k += 1;
        }
    }

    /// Shows the present entries of one second-level table, and of the
    /// tables below it, to `visitor`.
    fn debug_pdpt<V: PageMapVisitor>(&self, pdpt: usize, i: usize, visitor: &mut V)
        requires
            self.inv(),
            pdpt < self.frames@.len(),
            self.paths@[pdpt as int] == TablePath::Pdpt(i as int),
        ensures
            final(visitor).visited() == old(visitor).visited() + self@.visits_pdpt(i as int, 512),
    {
        proof {
            self.lemma_slot(pdpt as int);
        }
        let ghost start = visitor.visited();
        let mut j: usize = 0;
        assert(start + self@.visits_pdpt(i as int, 0) =~= start);
        while j < 512
            invariant
                self.inv(),
                pdpt < self.frames@.len(),
                self.paths@[pdpt as int] == TablePath::Pdpt(i as int),
                TablePath::Pdpt(i as int).valid(),
                self@.has(TablePath::Pdpt(i as int)),
                self@.tables[TablePath::Pdpt(i as int)] == self.tables@[pdpt as int]@,
                self.tables@[pdpt as int]@.len() == 512,
                j <= 512,
                visitor.visited() == start + self@.visits_pdpt(i as int, j as int),
            decreases 512 - j,
        {
            let ghost before = self@.visits_pdpt(i as int, j as int);
            match self.below(pdpt, j) {
                None => {},
                Some(pd) => {
                    let entry: u64 = self.tables[pdpt][j];
                    let typed = PDPTE::from_bits(entry);
                    visitor.pdpte(j, &typed);
                    self.debug_pd(pd, i, j, visitor);
                    assert(visitor.visited() =~= start + (before.push(
                        VisitView::Pdpte { index: j as int, entry },
                    ) + self@.visits_pd(i as int, j as int, 512)));
                },
            }
            j += 1;
        }
    }

    /// Walks the page map depth first and shows every present entry to
    /// `visitor`: each entry of an upper level before the entries of the
    /// table that it points to, and each last-level entry together with
    /// the virtual address of the page that it maps. The page map is only
    /// read. The last-level entries that are shown are those of the mapped
    /// pages, each once, in ascending order of the addresses.
    pub fn debug<V: PageMapVisitor>(&self, visitor: &mut V)
        requires
            self.wf(),
        ensures
            final(visitor).visited() == old(visitor).visited() + self@.traversal(),
            leaf_steps(final(visitor).visited()) == leaf_steps(old(visitor).visited())
                + mapped_steps(self@, 0, PAGES as int),
    {
        proof {
            self.lemma_slot(0);
        }
        let ghost start = visitor.visited();
        let mut i: usize = 0;
        assert(start + self@.visits_pml4(0) =~= start);
        while i < 512
            invariant
                self.inv(),
                0 < self.frames@.len(),
                self.paths@[0] == TablePath::Pml4,
                self@.has(TablePath::Pml4),
                self@.tables[TablePath::Pml4] == self.tables@[0]@,
                self.tables@[0]@.len() == 512,
                i <= 512,
                visitor.visited() == start + self@.visits_pml4(i as int),
            decreases 512 - i,
        {
            let ghost before = self@.visits_pml4(i as int);
            match self.below(0, i) {
                None => {},
                Some(pdpt) => {
                    let entry: u64 = self.tables[0][i];
                    let typed = PML4E::from_bits(entry);
                    visitor.pml4e(i, &typed);
                    self.debug_pdpt(pdpt, i, visitor);
                    assert(visitor.visited() =~= start + (before.push(
                        VisitView::Pml4e { index: i as int, entry },
                    ) + self@.visits_pdpt(i as int, 512)));
                },
            }
            i += 1;
        }
        proof {
            self.lemma_view_tree();
            lemma_walk_shows_mapped_pages(self@);
            lemma_leaf_steps_add(start, self@.traversal());
        }
    }

    /// The last-level entry that translation of `virtual_address` ends at;
    /// the entry that maps nothing where a table is missing on the way.
    pub fn leaf(&self, virtual_address: u64) -> (entry: PTE)
        requires
            self.wf(),
        ensures
            entry.bits() == self@.leaf(virtual_address),
    {
        let indices = address_to_page_map_indices(virtual_address);
        proof {
            self.lemma_view_tree();
            self@.lemma_tree(indices.pml4 as int, indices.pdpt as int, indices.pd as int);
            self.lemma_slot(0);
        }
        let pdpt: usize = match self.below(0, indices.pml4) {
            None => {
                return PTE::unset();
            },
            Some(pdpt) => pdpt,
        };
        let pd: usize = match self.below(pdpt, indices.pdpt) {
            None => {
                return PTE::unset();
            },
            Some(pd) => pd,
        };
        let pt: usize = match self.below(pd, indices.pd) {
            None => {
                return PTE::unset();
            },
            Some(pt) => pt,
        };
        proof {
            self.lemma_slot(pt as int);
        }
        PTE::from_bits(self.tables[pt][indices.pt])
    }

    /// How many tables the page map holds.
    pub fn table_count(&self) -> (count: usize)
        requires
            self.wf(),
        ensures
            count == self@.order.len(),
            count >= 1,
    {
        self.frames.len()
    }

    /// The physical address of the table that was made as number `index`;
    /// number 0 is the root table.
    pub fn table_address(&self, index: usize) -> (address: u64)
        requires
            self.wf(),
            index < self@.order.len(),
        ensures
            address == self@.frames[self@.order[index as int]],
            valid_physical(address),
    {
        proof {
            self.lemma_slot(index as int);
        }
        self.frames[index]
    }

    /// The 512 entries of the table that was made as number `index`, as
    /// they are to stand in memory at its physical address.
    pub fn table_entries(&self, index: usize) -> (entries: &Vec<u64>)
        requires
            self.wf(),
            index < self@.order.len(),
        ensures
            entries@ == self@.tables[self@.order[index as int]],
            entries@.len() == 512,
    {
        proof {
            self.lemma_slot(index as int);
        }
        &self.tables[index]
    }

    /// The address at which the top-level table is reached: its physical
    /// address while the page map is not in use, and the address of the
    /// recursive window while it is.
    pub fn pml4(&self, mode: PageMapMode) -> (address: u64)
        requires
            self.wf(),
        ensures
            address == match mode {
                PageMapMode::Active => window_address(Seq::<int>::empty()) as u64,
                PageMapMode::Inactive => self@.address(),
            },
    {
        match mode {
            PageMapMode::Active => {
                proof {
                    lemma_page_address(511, 511, 511, 511);
                }
                page_map_indices_to_address(
                    PageMapIndices {
                        pml4: RECURSIVE_INDEX,
                        pdpt: RECURSIVE_INDEX,
                        pd: RECURSIVE_INDEX,
                        pt: RECURSIVE_INDEX,
                        offset: 0,
                    },
                )
            },
            PageMapMode::Inactive => self.address(),
        }
    }

    /// The address at which the top-level table is reached for writing;
    /// the same as for reading.
    pub fn pml4_mut(&mut self, mode: PageMapMode) -> (address: u64)
        requires
            old(self).wf(),
        ensures
            *final(self) == *old(self),
            address == match mode {
                PageMapMode::Active => window_address(Seq::<int>::empty()) as u64,
                PageMapMode::Inactive => old(self)@.address(),
            },
    {
        self.pml4(mode)
    }

    /// The address at which the second-level table under top-level entry
    /// `pml4_index` is reached: the address that the entry holds while the
    /// page map is not in use, and an address of the recursive window
    /// while it is.
    pub fn pdpt(&self, mode: PageMapMode, pml4_index: u16) -> (address: u64)
        requires
            self.wf(),
            pml4_index < 512,
        ensures
            address == match mode {
                PageMapMode::Active => window_address(seq![pml4_index as int]) as u64,
                PageMapMode::Inactive => address_of(self@.pml4e(pml4_index as int)),
            },
    {
        match mode {
            PageMapMode::Active => {
                proof {
                    lemma_page_address(511, 511, 511, pml4_index as int);
                }
                page_map_indices_to_address(
                    PageMapIndices {
                        pml4: RECURSIVE_INDEX,
                        pdpt: RECURSIVE_INDEX,
                        pd: RECURSIVE_INDEX,
                        pt: pml4_index as usize,
                        offset: 0,
                    },
                )
            },
            PageMapMode::Inactive => {
                proof {
                    self.lemma_slot(0);
                }
                PML4E::from_bits(self.tables[0][pml4_index as usize]).pdpt_address()
            },
        }
    }

    /// The address at which the second-level table under top-level entry
    /// `pml4_index` is reached for writing; the same as for reading.
    pub fn pdpt_mut(&mut self, mode: PageMapMode, pml4_index: u16) -> (address: u64)
        requires
            old(self).wf(),
            pml4_index < 512,
        ensures
            *final(self) == *old(self),
            address == match mode {
                PageMapMode::Active => window_address(seq![pml4_index as int]) as u64,
                PageMapMode::Inactive => address_of(old(self)@.pml4e(pml4_index as int)),
            },
    {
        self.pdpt(mode, pml4_index)
    }

    /// The address at which the third-level table under entries
    /// `pml4_index` and `pdpt_index` is reached for writing: the address
    /// that the second-level entry holds while the page map is not in use
    /// (0 where there is no such entry), and an address of the recursive
    /// window while it is.
    pub fn pd_mut(&mut self, mode: PageMapMode, pml4_index: u16, pdpt_index: u16) -> (address: u64)
        requires
            old(self).wf(),
            pml4_index < 512,
            pdpt_index < 512,
        ensures
            *final(self) == *old(self),
            address == match mode {
                PageMapMode::Active => window_address(
                    seq![pml4_index as int, pdpt_index as int],
                ) as u64,
                PageMapMode::Inactive => address_of(
                    old(self)@.pdpte(pml4_index as int, pdpt_index as int),
                ),
            },
    {
        match mode {
            PageMapMode::Active => {
                proof {
                    lemma_page_address(511, 511, pml4_index as int, pdpt_index as int);
                }
                page_map_indices_to_address(
                    PageMapIndices {
                        pml4: RECURSIVE_INDEX,
                        pdpt: RECURSIVE_INDEX,
                        pd: pml4_index as usize,
                        pt: pdpt_index as usize,
                        offset: 0,
                    },
                )
            },
            PageMapMode::Inactive => {
                proof {
                    self.lemma_slot(0);
                    self.lemma_view_tree();
                    self@.lemma_tree(pml4_index as int, pdpt_index as int, 0);
                    lemma_zero_entry();
                }
                match self.below(0, pml4_index as usize) {
                    None => 0,
                    Some(pdpt) => {
                        proof {
                            self.lemma_slot(pdpt as int);
                        }
                        PDPTE::from_bits(self.tables[pdpt][pdpt_index as usize]).pd_address()
                    },
                }
            },
        }
    }

    /// The physical address of the root table.
    pub fn address(&self) -> (address: u64)
        requires
            self.wf(),
        ensures
            address == self@.address(),
            valid_physical(address),
    {
        proof {
            self.lemma_slot(0);
        }
        self.address
    }
}

} // verus!

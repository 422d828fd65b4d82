//! The page map as a tree of tables.
//!
//! A page map is a tree of depth four. Each table is one page of 512
//! entries. A table is named by the indices that lead to it from the root.
//! A present entry of one of the upper three levels holds the physical
//! address of the table below it; a present entry of the last level maps a
//! page.

use super::entry::{
    address_of, built, entry_view, is_execute_disable, is_present, is_writable,
    lemma_encoded_view, lemma_with_execute_disable, lemma_with_writable, lemma_zero_entry,
    valid_physical,
    with_execute_disable, with_writable, EntryView,
};
use super::flags::PageMapFlags;
use super::indices::{
    indices_of, lemma_index_ranges, lemma_join_then_split, lemma_split_then_join, pd_index,
    pdpt_index, pml4_index, pt_index, PageMapIndices,
};
use vstd::prelude::*;

verus! {

/// The place of a table in the tree: the indices that lead to it from the root.
pub enum TablePath {
    /// The top-level table.
    Pml4,
    /// The second-level table under the given top-level entry.
    Pdpt(int),
    /// The third-level table under the given top- and second-level entries.
    Pd(int, int),
    /// The fourth-level table under the given entries of the three levels above.
    Pt(int, int, int),
}

impl TablePath {
    /// Every index on the path selects one of 512 entries.
    pub open spec fn valid(self) -> bool {
        match self {
            TablePath::Pml4 => true,
            TablePath::Pdpt(i) => 0 <= i < 512,
            TablePath::Pd(i, j) => 0 <= i < 512 && 0 <= j < 512,
            TablePath::Pt(i, j, k) => 0 <= i < 512 && 0 <= j < 512 && 0 <= k < 512,
        }
    }

    /// Whether the entries of this table point to tables, not to pages.
    pub open spec fn holds_tables(self) -> bool {
        !(self is Pt)
    }

    /// The table that holds the entry which leads here; the root for the root.
    pub open spec fn parent(self) -> TablePath {
        match self {
            TablePath::Pml4 => TablePath::Pml4,
            TablePath::Pdpt(i) => TablePath::Pml4,
            TablePath::Pd(i, j) => TablePath::Pdpt(i),
            TablePath::Pt(i, j, k) => TablePath::Pd(i, j),
        }
    }

    /// The index, in the parent, of the entry which leads here; 0 for the root.
    pub open spec fn index(self) -> int {
        match self {
            TablePath::Pml4 => 0,
            TablePath::Pdpt(i) => i,
            TablePath::Pd(i, j) => j,
            TablePath::Pt(i, j, k) => k,
        }
    }

    /// The address of the first page that translation through this table reaches.
    pub open spec fn first_page(self) -> int {
        match self {
            TablePath::Pml4 => 0,
            TablePath::Pdpt(i) => page_address(i, 0, 0, 0),
            TablePath::Pd(i, j) => page_address(i, j, 0, 0),
            TablePath::Pt(i, j, k) => page_address(i, j, k, 0),
        }
    }

    /// The table under entry `n` of this table.
    pub open spec fn child(self, n: int) -> TablePath {
        match self {
            TablePath::Pml4 => TablePath::Pdpt(n),
            TablePath::Pdpt(i) => TablePath::Pd(i, n),
            TablePath::Pd(i, j) => TablePath::Pt(i, j, n),
            TablePath::Pt(i, j, k) => TablePath::Pt(i, j, k),
        }
    }
}

/// The address of the page that the four indices select.
pub open spec fn page_address(i: int, j: int, k: int, l: int) -> int {
    i * 0x80_0000_0000 + j * 0x4000_0000 + k * 0x20_0000 + l * 0x1000
}

/// The page of four valid indices lies in the 48-bit range, is
/// page-aligned, and has these indices.
pub proof fn lemma_page_address(i: int, j: int, k: int, l: int)
    requires
        0 <= i < 512,
        0 <= j < 512,
        0 <= k < 512,
        0 <= l < 512,
    ensures
        0 <= page_address(i, j, k, l) < 0x1_0000_0000_0000,
        page_address(i, j, k, l) % 4096 == 0,
        pml4_index(page_address(i, j, k, l) as u64) == i,
        pdpt_index(page_address(i, j, k, l) as u64) == j,
        pd_index(page_address(i, j, k, l) as u64) == k,
        pt_index(page_address(i, j, k, l) as u64) == l,
{
    let indices = PageMapIndices {
        pml4: i as usize,
        pdpt: j as usize,
        pd: k as usize,
        pt: l as usize,
        offset: 0,
    };
    lemma_join_then_split(indices);
    assert(indices.address() == page_address(i, j, k, l));
    lemma_index_ranges(page_address(i, j, k, l) as u64);
    let again = indices_of(page_address(i, j, k, l) as u64);
    assert(again.offset == 0);
}

/// A page-aligned address of the 48-bit range is the page of its indices.
pub proof fn lemma_page_of(address: u64)
    requires
        address < 0x1_0000_0000_0000,
        address % 4096 == 0,
    ensures
        address == page_address(
            pml4_index(address),
            pdpt_index(address),
            pd_index(address),
            pt_index(address),
        ),
        0 <= pml4_index(address) < 512,
        0 <= pdpt_index(address) < 512,
        0 <= pd_index(address) < 512,
        0 <= pt_index(address) < 512,
{
    lemma_index_ranges(address);
    lemma_split_then_join(address);
}

/// A table of 512 entries that are all 0.
pub open spec fn zero_table() -> Seq<u64> {
    Seq::new(512, |i: int| 0u64)
}

/// An entry after the permissions of a mapping below it were allowed: the
/// writable bit is set if the mapping is writeable, the execute-disable bit
/// is cleared if the mapping is executable, and nothing is ever taken away.
pub open spec fn widened(entry: u64, flags: PageMapFlags) -> u64 {
    let entry = if flags.is_writeable() {
        with_writable(entry, true)
    } else {
        entry
    };
    if flags.is_executable() {
        with_execute_disable(entry, false)
    } else {
        entry
    }
}

/// The entry that links a new table at `frame`: present, read-only, not executable.
pub open spec fn fresh_link(frame: u64) -> u64 {
    built(true, frame, false, false, false, false)
}

/// The last-level entry that maps the page at `physical` with `flags`.
pub open spec fn leaf_entry(physical: u64, flags: PageMapFlags) -> u64 {
    built(!flags.is_executable(), physical, false, false, false, flags.is_writeable())
}

/// Widening sets the writable bit for a writeable mapping, clears the
/// execute-disable bit for an executable one, and changes nothing else.
pub proof fn lemma_widened(entry: u64, flags: PageMapFlags)
    ensures
        entry_view(widened(entry, flags)) == (EntryView {
            writable: is_writable(entry) || flags.is_writeable(),
            execute_disable: is_execute_disable(entry) && !flags.is_executable(),
            ..entry_view(entry)
        }),
{
    let first = if flags.is_writeable() {
        with_writable(entry, true)
    } else {
        entry
    };
    lemma_with_writable(entry, true);
    lemma_with_execute_disable(first, false);
}

/// The link to a new table is present, read-only and not executable, and
/// holds the table's address.
pub proof fn lemma_fresh_link(frame: u64)
    requires
        valid_physical(frame),
    ensures
        entry_view(fresh_link(frame)) == (EntryView {
            present: true,
            writable: false,
            user: false,
            write_through: false,
            cache_disable: false,
            execute_disable: true,
            address: frame,
        }),
{
    lemma_encoded_view(
        EntryView {
            present: true,
            writable: false,
            user: false,
            write_through: false,
            cache_disable: false,
            execute_disable: true,
            address: frame,
        },
    );
}

/// A last-level entry is present, holds the page's address, and allows
/// exactly what its flags allow.
pub proof fn lemma_leaf_entry(physical: u64, flags: PageMapFlags)
    requires
        valid_physical(physical),
    ensures
        entry_view(leaf_entry(physical, flags)) == (EntryView {
            present: true,
            writable: flags.is_writeable(),
            user: false,
            write_through: false,
            cache_disable: false,
            execute_disable: !flags.is_executable(),
            address: physical,
        }),
{
    lemma_encoded_view(
        EntryView {
            present: true,
            writable: flags.is_writeable(),
            user: false,
            write_through: false,
            cache_disable: false,
            execute_disable: !flags.is_executable(),
            address: physical,
        },
    );
}

/// What a page map holds.
#[verifier::ext_equal]
pub struct PageMapView {
    /// The tables in the order in which they were made; the root comes first.
    pub order: Seq<TablePath>,
    /// The 512 entries of each table.
    pub tables: Map<TablePath, Seq<u64>>,
    /// The physical address of each table.
    pub frames: Map<TablePath, u64>,
}

impl PageMapView {
    /// Whether the table at `path` exists.
    pub open spec fn has(self, path: TablePath) -> bool {
        self.tables.dom().contains(path)
    }

    /// The physical address of the root table.
    pub open spec fn address(self) -> u64 {
        self.frames[TablePath::Pml4]
    }

    /// Whether one of the tables lies at `frame`.
    pub open spec fn uses_frame(self, frame: u64) -> bool {
        exists|path: TablePath| #[trigger] self.has(path) && self.frames[path] == frame
    }

    /// The entries of the table at `path`; a table that does not exist reads as zeros.
    pub open spec fn table(self, path: TablePath) -> Seq<u64> {
        if self.has(path) {
            self.tables[path]
        } else {
            zero_table()
        }
    }

    /// Entry `i` of the top-level table.
    pub open spec fn pml4e(self, i: int) -> u64 {
        self.table(TablePath::Pml4)[i]
    }

    /// Entry `j` of the second-level table under top-level entry `i`.
    pub open spec fn pdpte(self, i: int, j: int) -> u64 {
        self.table(TablePath::Pdpt(i))[j]
    }

    /// Entry `k` of the third-level table under entries `i` and `j`.
    pub open spec fn pde(self, i: int, j: int, k: int) -> u64 {
        self.table(TablePath::Pd(i, j))[k]
    }

    /// Entry `l` of the fourth-level table under entries `i`, `j` and `k`.
    pub open spec fn pte(self, i: int, j: int, k: int, l: int) -> u64 {
        self.table(TablePath::Pt(i, j, k))[l]
    }

    /// The last-level entry that translation of `address` ends at, 0 if there is none.
    pub open spec fn leaf(self, address: u64) -> u64 {
        self.pte(pml4_index(address), pdpt_index(address), pd_index(address), pt_index(address))
    }

    /// The page-aligned addresses of the 48-bit range that are mapped.
    pub open spec fn mapped_pages(self) -> Set<u64> {
        Set::new(
            |address: u64|
                address < 0x1_0000_0000_0000 && address % 4096 == 0 && is_present(
                    self.leaf(address),
                ),
        )
    }

    /// The tables form a tree: the root exists, a table of a lower level
    /// exists exactly where a present entry of its parent points to it, no
    /// two tables share a page, and every table has 512 entries.
    pub open spec fn wf(self) -> bool {
        &&& self.order.len() >= 1
        &&& self.order[0] == TablePath::Pml4
        &&& self.order.no_duplicates()
        &&& forall|path: TablePath| #[trigger] self.has(path) <==> self.order.contains(path)
        &&& forall|path: TablePath| #[trigger]
            self.frames.dom().contains(path) <==> self.has(path)
        &&& forall|path: TablePath| #[trigger]
            self.has(path) ==> path.valid() && self.tables[path].len() == 512 && valid_physical(
                self.frames[path],
            )
        &&& forall|p: TablePath, q: TablePath| #[trigger]
            self.has(p) && #[trigger] self.has(q) && p != q ==> self.frames[p] != self.frames[q]
        &&& forall|path: TablePath, n: int|
            path.holds_tables() && 0 <= n < 512 ==> (#[trigger] self.has(path.child(n)) <==> (
            self.has(path) && is_present(self.tables[path][n])))
        &&& forall|path: TablePath, n: int|
            path.holds_tables() && 0 <= n < 512 && #[trigger] self.has(path.child(n))
                ==> address_of(self.tables[path][n]) == self.frames[path.child(n)]
    }

    /// The page map that holds nothing but an empty root table at `address`.
    pub open spec fn empty(address: u64) -> PageMapView {
        PageMapView {
            order: seq![TablePath::Pml4],
            tables: map![TablePath::Pml4 => zero_table()],
            frames: map![TablePath::Pml4 => address],
        }
    }

    /// The page map with entry `n` of the table at `path` replaced.
    pub open spec fn put(self, path: TablePath, n: int, entry: u64) -> PageMapView {
        PageMapView { tables: self.tables.insert(path, self.tables[path].update(n, entry)), ..self }
    }

    /// The page map after entry `n` of the table at `path` was made to lead
    /// to a table and to allow `flags`. Where the entry is present already
    /// it is only widened. Otherwise a table of zeros at `frame` is added and
    /// the entry points to it.
    pub open spec fn link(self, path: TablePath, n: int, frame: u64, flags: PageMapFlags)
        -> PageMapView {
        let child = path.child(n);
        if self.has(child) {
            self.put(path, n, widened(self.tables[path][n], flags))
        } else {
            PageMapView {
                order: self.order.push(child),
                tables: self.tables.insert(
                    path,
                    self.tables[path].update(n, widened(fresh_link(frame), flags)),
                ).insert(child, zero_table()),
                frames: self.frames.insert(child, frame),
            }
        }
    }

    /// How many tables are missing on the way to the last-level table under
    /// entries `i`, `j` and `k`: 0 to 3.
    pub open spec fn missing(self, i: int, j: int, k: int) -> nat {
        if self.has(TablePath::Pt(i, j, k)) {
            0
        } else if self.has(TablePath::Pd(i, j)) {
            1
        } else if self.has(TablePath::Pdpt(i)) {
            2
        } else {
            3
        }
    }

    /// How many new tables mapping the page of `address` takes.
    pub open spec fn missing_tables(self, address: u64) -> nat {
        self.missing(pml4_index(address), pdpt_index(address), pd_index(address))
    }

    /// Whether the first `count` frames of `fresh` can hold new tables: each
    /// is a valid physical address that no table uses, and no two are the same.
    pub open spec fn usable(self, fresh: Seq<u64>, count: nat) -> bool {
        &&& count <= fresh.len()
        &&& forall|x: int|
            0 <= x < count ==> valid_physical(#[trigger] fresh[x]) && !self.uses_frame(fresh[x])
        &&& forall|x: int, y: int| 0 <= x < y < count ==> #[trigger] fresh[x] != #[trigger] fresh[y]
    }

    /// The page map after the page of `address` was mapped to `physical`
    /// with `flags`. The missing tables are made at the first frames of
    /// `fresh`, the upper levels first.
    pub open spec fn set(self, fresh: Seq<u64>, address: u64, physical: u64, flags: PageMapFlags)
        -> PageMapView {
        let i = pml4_index(address);
        let j = pdpt_index(address);
        let k = pd_index(address);
        let l = pt_index(address);
        let m = self.missing(i, j, k);
        self.link(TablePath::Pml4, i, fresh[0], flags).link(
            TablePath::Pdpt(i),
            j,
            fresh[m - 2],
            flags,
        ).link(TablePath::Pd(i, j), k, fresh[m - 1], flags).put(
            TablePath::Pt(i, j, k),
            l,
            leaf_entry(physical, flags),
        )
    }

    /// The page map after the page of `address` was unmapped: its last-level
    /// entry is 0. Where no last-level table exists for it, nothing changes.
    /// No table is ever given up.
    pub open spec fn unset(self, address: u64) -> PageMapView {
        let path = TablePath::Pt(pml4_index(address), pdpt_index(address), pd_index(address));
        if self.has(path) {
            self.put(path, pt_index(address), 0)
        } else {
            self
        }
    }

    /// In a tree, a table exists only where its parent exists.
    pub proof fn lemma_tree(self, i: int, j: int, k: int)
        requires
            self.wf(),
            0 <= i < 512,
            0 <= j < 512,
            0 <= k < 512,
        ensures
            self.has(TablePath::Pml4),
            self.has(TablePath::Pdpt(i)) <==> is_present(self.pml4e(i)),
            self.has(TablePath::Pd(i, j)) <==> self.has(TablePath::Pdpt(i)) && is_present(
                self.pdpte(i, j),
            ),
            self.has(TablePath::Pt(i, j, k)) <==> self.has(TablePath::Pd(i, j)) && is_present(
                self.pde(i, j, k),
            ),
            self.has(TablePath::Pdpt(i)) ==> address_of(self.pml4e(i)) == self.frames[TablePath::Pdpt(
                i,
            )],
            self.has(TablePath::Pd(i, j)) ==> address_of(self.pdpte(i, j))
                == self.frames[TablePath::Pd(i, j)],
            self.has(TablePath::Pt(i, j, k)) ==> address_of(self.pde(i, j, k))
                == self.frames[TablePath::Pt(i, j, k)],
    {
        assert(self.order.contains(self.order[0]));
        assert(TablePath::Pml4.child(i) == TablePath::Pdpt(i));
        assert(TablePath::Pdpt(i).child(j) == TablePath::Pd(i, j));
        assert(TablePath::Pd(i, j).child(k) == TablePath::Pt(i, j, k));
        assert(self.has(TablePath::Pml4.child(i)) <==> (self.has(TablePath::Pml4) && is_present(
            self.tables[TablePath::Pml4][i],
        )));
        assert(self.has(TablePath::Pdpt(i).child(j)) <==> (self.has(TablePath::Pdpt(i))
            && is_present(self.tables[TablePath::Pdpt(i)][j])));
        assert(self.has(TablePath::Pd(i, j).child(k)) <==> (self.has(TablePath::Pd(i, j))
            && is_present(self.tables[TablePath::Pd(i, j)][k])));
        lemma_zero_entry();
    }

    /// Linking adds at most the one new frame to the frames in use.
    pub proof fn lemma_link_frames(self, path: TablePath, n: int, frame: u64, flags: PageMapFlags)
        requires
            self.wf(),
            self.has(path),
        ensures
            forall|other: u64|
                #[trigger] self.link(path, n, frame, flags).uses_frame(other) <==> self.uses_frame(
                    other,
                ) || (!self.has(path.child(n)) && other == frame),
            forall|other: TablePath|
                #[trigger] self.link(path, n, frame, flags).has(other) <==> self.has(other)
                    || other == path.child(n),
    {
        let after = self.link(path, n, frame, flags);
        assert forall|other: u64| #[trigger] after.uses_frame(other) <==> self.uses_frame(other)
            || (!self.has(path.child(n)) && other == frame) by {
            if after.uses_frame(other) {
                let q = choose|q: TablePath| #[trigger] after.has(q) && after.frames[q] == other;
                if q != path.child(n) || self.has(path.child(n)) {
                    assert(self.has(q) && self.frames[q] == other);
                }
            }
            if self.uses_frame(other) {
                let q = choose|q: TablePath| #[trigger] self.has(q) && self.frames[q] == other;
                assert(after.has(q) && after.frames[q] == other);
            }
            if !self.has(path.child(n)) && other == frame {
                assert(after.has(path.child(n)) && after.frames[path.child(n)] == other);
            }
        }
    }

    /// The mapped pages below `bound`.
    pub open spec fn mapped_below(self, bound: int) -> Set<u64> {
        Set::new(|address: u64| self.mapped_pages().contains(address) && address < bound)
    }

    /// No page is mapped below 0, and every mapped page lies below `2^48`.
    pub proof fn lemma_mapped_bounds(self)
        ensures
            self.mapped_below(0) =~= Set::<u64>::empty(),
            self.mapped_below(0x1_0000_0000_0000) =~= self.mapped_pages(),
    {
    }

    /// The page of indices `i`, `j`, `k`, `l` is mapped exactly if the
    /// last-level entry at these indices is present.
    pub proof fn lemma_mapped_step(self, i: int, j: int, k: int, l: int)
        requires
            0 <= i < 512,
            0 <= j < 512,
            0 <= k < 512,
            0 <= l < 512,
        ensures
            self.leaf(page_address(i, j, k, l) as u64) == self.pte(i, j, k, l),
            !self.mapped_below(page_address(i, j, k, l)).contains(page_address(i, j, k, l) as u64),
            self.mapped_below(page_address(i, j, k, l) + 0x1000) =~= if is_present(
                self.pte(i, j, k, l),
            ) {
                self.mapped_below(page_address(i, j, k, l)).insert(page_address(i, j, k, l) as u64)
            } else {
                self.mapped_below(page_address(i, j, k, l))
            },
    {
        lemma_page_address(i, j, k, l);
    }

    /// Where no last-level table exists, none of its 512 pages is mapped.
    pub proof fn lemma_mapped_skip_pt(self, i: int, j: int, k: int)
        requires
            0 <= i < 512,
            0 <= j < 512,
            0 <= k < 512,
            !self.has(TablePath::Pt(i, j, k)),
        ensures
            self.mapped_below(page_address(i, j, k, 0) + 0x20_0000) =~= self.mapped_below(
                page_address(i, j, k, 0),
            ),
    {
        lemma_zero_entry();
        assert forall|address: u64|
            self.mapped_below(page_address(i, j, k, 0) + 0x20_0000).contains(
                address,
            ) implies self.mapped_below(page_address(i, j, k, 0)).contains(address) by {
            lemma_page_of(address);
        }
    }

    /// Where no third-level table exists, none of the pages under it is mapped.
    pub proof fn lemma_mapped_skip_pd(self, i: int, j: int)
        requires
            self.wf(),
            0 <= i < 512,
            0 <= j < 512,
            !self.has(TablePath::Pd(i, j)),
        ensures
            self.mapped_below(page_address(i, j, 0, 0) + 0x4000_0000) =~= self.mapped_below(
                page_address(i, j, 0, 0),
            ),
    {
        lemma_zero_entry();
        assert forall|address: u64|
            self.mapped_below(page_address(i, j, 0, 0) + 0x4000_0000).contains(
                address,
            ) implies self.mapped_below(page_address(i, j, 0, 0)).contains(address) by {
            lemma_page_of(address);
            if address >= page_address(i, j, 0, 0) {
                self.lemma_tree(i, j, pd_index(address));
            }
        }
    }

    /// Where no second-level table exists, none of the pages under it is mapped.
    pub proof fn lemma_mapped_skip_pdpt(self, i: int)
        requires
            self.wf(),
            0 <= i < 512,
            !self.has(TablePath::Pdpt(i)),
        ensures
            self.mapped_below(page_address(i, 0, 0, 0) + 0x80_0000_0000) =~= self.mapped_below(
                page_address(i, 0, 0, 0),
            ),
    {
        lemma_zero_entry();
        assert forall|address: u64|
            self.mapped_below(page_address(i, 0, 0, 0) + 0x80_0000_0000).contains(
                address,
            ) implies self.mapped_below(page_address(i, 0, 0, 0)).contains(address) by {
            lemma_page_of(address);
            if address >= page_address(i, 0, 0, 0) {
                self.lemma_tree(i, pdpt_index(address), pd_index(address));
            }
        }
    }
}

} // verus!

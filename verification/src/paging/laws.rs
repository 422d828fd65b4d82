//! What mapping and unmapping do to a page map, entry by entry.

use super::entry::{
    entry_view, is_execute_disable, is_present, is_writable, lemma_zero_entry, valid_physical,
};
use super::flags::PageMapFlags;
use super::indices::{
    indices_of, lemma_index_ranges, lemma_split_then_join, pd_index, pdpt_index, pml4_index,
    pt_index,
};
use super::map::window_address;
use super::model::{
    fresh_link, leaf_entry, lemma_fresh_link, lemma_leaf_entry, lemma_page_address, lemma_page_of,
    lemma_widened, widened, zero_table, PageMapView, TablePath,
};
use vstd::prelude::*;

verus! {

/// The entry that a link holds before it is widened: the old entry where
/// the table below exists, else the link to the new table at `frame`.
pub open spec fn linked(view: PageMapView, path: TablePath, n: int, frame: u64) -> u64 {
    if view.has(path.child(n)) {
        view.table(path)[n]
    } else {
        fresh_link(frame)
    }
}

/// Linking changes one entry of one table; the table that it may add
/// reads as zeros, as it did before it existed.
pub proof fn lemma_link_reads(
    view: PageMapView,
    path: TablePath,
    n: int,
    frame: u64,
    flags: PageMapFlags,
)
    requires
        view.has(path),
        path.holds_tables(),
        view.tables[path].len() == 512,
        0 <= n < 512,
    ensures
        forall|other: TablePath| #[trigger]
            view.link(path, n, frame, flags).has(other) <==> view.has(other) || other
                == path.child(n),
        forall|other: TablePath|
            other != path ==> #[trigger] view.link(path, n, frame, flags).table(other)
                == view.table(other),
        view.link(path, n, frame, flags).table(path) == view.table(path).update(
            n,
            widened(linked(view, path, n, frame), flags),
        ),
{
    let after = view.link(path, n, frame, flags);
    assert(path.child(n) != path);
    assert forall|other: TablePath| other != path implies #[trigger] after.table(other)
        == view.table(other) by {
        if other == path.child(n) && !view.has(other) {
            assert(after.table(other) =~= zero_table());
        }
    }
}

/// Replacing an entry changes that entry and nothing else.
pub proof fn lemma_put_reads(view: PageMapView, path: TablePath, n: int, entry: u64)
    requires
        view.has(path),
    ensures
        forall|other: TablePath| #[trigger] view.put(path, n, entry).has(other) <==> view.has(other),
        forall|other: TablePath|
            other != path ==> #[trigger] view.put(path, n, entry).table(other) == view.table(
                other,
            ),
        view.put(path, n, entry).table(path) == view.table(path).update(n, entry),
{
}

/// Mapping a page, table by table: on the way to the page each table of
/// the upper three levels has one entry widened, or linked and widened;
/// the last-level table has one entry replaced; every other table reads as
/// before.
pub proof fn lemma_set_tables(
    view: PageMapView,
    fresh: Seq<u64>,
    address: u64,
    physical: u64,
    flags: PageMapFlags,
)
    requires
        view.wf(),
    ensures
        ({
            let i = pml4_index(address);
            let j = pdpt_index(address);
            let k = pd_index(address);
            let l = pt_index(address);
            let m = view.missing(i, j, k);
            let after = view.set(fresh, address, physical, flags);
            &&& after.table(TablePath::Pml4) == view.table(TablePath::Pml4).update(
                i,
                widened(linked(view, TablePath::Pml4, i, fresh[0]), flags),
            )
            &&& after.table(TablePath::Pdpt(i)) == view.table(TablePath::Pdpt(i)).update(
                j,
                widened(linked(view, TablePath::Pdpt(i), j, fresh[m - 2]), flags),
            )
            &&& after.table(TablePath::Pd(i, j)) == view.table(TablePath::Pd(i, j)).update(
                k,
                widened(linked(view, TablePath::Pd(i, j), k, fresh[m - 1]), flags),
            )
            &&& after.table(TablePath::Pt(i, j, k)) == view.table(TablePath::Pt(i, j, k)).update(
                l,
                leaf_entry(physical, flags),
            )
            &&& forall|other: TablePath|
                other != TablePath::Pml4 && other != TablePath::Pdpt(i) && other != TablePath::Pd(
                    i,
                    j,
                ) && other != TablePath::Pt(i, j, k) ==> #[trigger] after.table(other)
                    == view.table(other)
            &&& forall|other: TablePath| #[trigger]
                after.has(other) <==> view.has(other) || other == TablePath::Pdpt(i) || other
                    == TablePath::Pd(i, j) || other == TablePath::Pt(i, j, k)
        }),
{
    lemma_index_ranges(address);
    let i = pml4_index(address);
    let j = pdpt_index(address);
    let k = pd_index(address);
    let l = pt_index(address);
    let m = view.missing(i, j, k);
    view.lemma_tree(i, j, k);
    let v1 = view.link(TablePath::Pml4, i, fresh[0], flags);
    lemma_link_reads(view, TablePath::Pml4, i, fresh[0], flags);
    assert(v1.has(TablePath::Pml4.child(i)));
    assert(v1.table(TablePath::Pdpt(i)).len() == 512);
    let v2 = v1.link(TablePath::Pdpt(i), j, fresh[m - 2], flags);
    lemma_link_reads(v1, TablePath::Pdpt(i), j, fresh[m - 2], flags);
    assert(v2.has(TablePath::Pdpt(i).child(j)));
    assert(v2.table(TablePath::Pd(i, j)).len() == 512);
    let v3 = v2.link(TablePath::Pd(i, j), k, fresh[m - 1], flags);
    lemma_link_reads(v2, TablePath::Pd(i, j), k, fresh[m - 1], flags);
    assert(v3.has(TablePath::Pd(i, j).child(k)));
    let after = v3.put(TablePath::Pt(i, j, k), l, leaf_entry(physical, flags));
    lemma_put_reads(v3, TablePath::Pt(i, j, k), l, leaf_entry(physical, flags));
    assert(after == view.set(fresh, address, physical, flags));
    assert(linked(v1, TablePath::Pdpt(i), j, fresh[m - 2]) == linked(
        view,
        TablePath::Pdpt(i),
        j,
        fresh[m - 2],
    ));
    assert(linked(v2, TablePath::Pd(i, j), k, fresh[m - 1]) == linked(
        view,
        TablePath::Pd(i, j),
        k,
        fresh[m - 1],
    ));
}

/// After a page was mapped, the last-level entry of its address is the
/// entry for the given physical page and flags, and the last-level entry of
/// every address of another page is what it was.
pub proof fn lemma_set_leaves(
    view: PageMapView,
    fresh: Seq<u64>,
    address: u64,
    physical: u64,
    flags: PageMapFlags,
)
    requires
        view.wf(),
    ensures
        view.set(fresh, address, physical, flags).leaf(address) == leaf_entry(physical, flags),
        forall|i: int, j: int, k: int, l: int|
            0 <= i < 512 && 0 <= j < 512 && 0 <= k < 512 && 0 <= l < 512 && !(i == pml4_index(
                address,
            ) && j == pdpt_index(address) && k == pd_index(address) && l == pt_index(address))
                ==> #[trigger] view.set(fresh, address, physical, flags).pte(i, j, k, l)
                == view.pte(i, j, k, l),
{
    lemma_index_ranges(address);
    lemma_set_tables(view, fresh, address, physical, flags);
    let after = view.set(fresh, address, physical, flags);
    let i0 = pml4_index(address);
    let j0 = pdpt_index(address);
    let k0 = pd_index(address);
    view.lemma_tree(i0, j0, k0);
    assert forall|i: int, j: int, k: int, l: int|
        0 <= i < 512 && 0 <= j < 512 && 0 <= k < 512 && 0 <= l < 512 && !(i == pml4_index(address)
            && j == pdpt_index(address) && k == pd_index(address) && l == pt_index(
            address,
        )) implies #[trigger] after.pte(i, j, k, l) == view.pte(i, j, k, l) by {
        if TablePath::Pt(i, j, k) != TablePath::Pt(i0, j0, k0) {
            assert(after.table(TablePath::Pt(i, j, k)) == view.table(TablePath::Pt(i, j, k)));
        }
    }
}

/// Mapping a page leaves every entry on its way present, writable if the
/// mapping is writeable, and executable if the mapping is executable.
pub proof fn lemma_set_ancestors(
    view: PageMapView,
    fresh: Seq<u64>,
    address: u64,
    physical: u64,
    flags: PageMapFlags,
)
    requires
        view.wf(),
        view.usable(fresh, view.missing_tables(address)),
    ensures
        ({
            let i = pml4_index(address);
            let j = pdpt_index(address);
            let k = pd_index(address);
            let after = view.set(fresh, address, physical, flags);
            &&& is_present(after.pml4e(i))
            &&& is_present(after.pdpte(i, j))
            &&& is_present(after.pde(i, j, k))
            &&& flags.is_writeable() ==> is_writable(after.pml4e(i)) && is_writable(
                after.pdpte(i, j),
            ) && is_writable(after.pde(i, j, k))
            &&& flags.is_executable() ==> !is_execute_disable(after.pml4e(i))
                && !is_execute_disable(after.pdpte(i, j)) && !is_execute_disable(
                after.pde(i, j, k),
            )
        }),
{
    lemma_index_ranges(address);
    let i = pml4_index(address);
    let j = pdpt_index(address);
    let k = pd_index(address);
    let m = view.missing(i, j, k);
    lemma_set_tables(view, fresh, address, physical, flags);
    view.lemma_tree(i, j, k);
    let e1 = linked(view, TablePath::Pml4, i, fresh[0]);
    let e2 = linked(view, TablePath::Pdpt(i), j, fresh[m - 2]);
    let e3 = linked(view, TablePath::Pd(i, j), k, fresh[m - 1]);
    lemma_widened(e1, flags);
    lemma_widened(e2, flags);
    lemma_widened(e3, flags);
    if !view.has(TablePath::Pdpt(i)) {
        lemma_fresh_link(fresh[0]);
    }
    if !view.has(TablePath::Pd(i, j)) {
        lemma_fresh_link(fresh[m - 2]);
    }
    if !view.has(TablePath::Pt(i, j, k)) {
        lemma_fresh_link(fresh[m - 1]);
    }
}

/// Mapping a page takes no permission away from any entry of the upper
/// three levels: an entry that was present stays present and keeps its
/// address, one that was writable stays writable, and one that was
/// executable stays executable.
pub proof fn lemma_set_widens(
    view: PageMapView,
    fresh: Seq<u64>,
    address: u64,
    physical: u64,
    flags: PageMapFlags,
    path: TablePath,
    n: int,
)
    requires
        view.wf(),
        path.holds_tables(),
        view.has(path),
        0 <= n < 512,
        is_present(view.table(path)[n]),
    ensures
        ({
            let before = entry_view(view.table(path)[n]);
            let after = entry_view(view.set(fresh, address, physical, flags).table(path)[n]);
            &&& after.present
            &&& after.address == before.address
            &&& before.writable ==> after.writable
            &&& !before.execute_disable ==> !after.execute_disable
        }),
{
    lemma_index_ranges(address);
    let i = pml4_index(address);
    let j = pdpt_index(address);
    let k = pd_index(address);
    lemma_set_tables(view, fresh, address, physical, flags);
    view.lemma_tree(i, j, k);
    lemma_widened(view.table(path)[n], flags);
    assert(view.has(path.child(n)));
}

/// After a page of the 48-bit range was mapped, the mapped pages are those
/// that were mapped before and the page itself.
pub proof fn lemma_set_mapped_pages(
    view: PageMapView,
    fresh: Seq<u64>,
    address: u64,
    physical: u64,
    flags: PageMapFlags,
)
    requires
        view.wf(),
        address < 0x1_0000_0000_0000,
        address % 4096 == 0,
        valid_physical(physical),
    ensures
        view.set(fresh, address, physical, flags).mapped_pages() =~= view.mapped_pages().insert(
            address,
        ),
{
    lemma_index_ranges(address);
    lemma_set_leaves(view, fresh, address, physical, flags);
    lemma_leaf_entry(physical, flags);
    let after = view.set(fresh, address, physical, flags);
    lemma_page_of(address);
    assert forall|other: u64| other < 0x1_0000_0000_0000 && other % 4096 == 0 && other
        != address implies after.leaf(other) == view.leaf(other) by {
        lemma_page_of(other);
    }
}

/// After a page of the 48-bit range was unmapped, the mapped pages are
/// those that were mapped before without the page itself.
pub proof fn lemma_unset_mapped_pages(view: PageMapView, address: u64)
    requires
        view.wf(),
        address < 0x1_0000_0000_0000,
        address % 4096 == 0,
    ensures
        view.unset(address).mapped_pages() =~= view.mapped_pages().remove(address),
{
    lemma_index_ranges(address);
    let after = view.unset(address);
    let i = pml4_index(address);
    let j = pdpt_index(address);
    let k = pd_index(address);
    lemma_zero_entry();
    lemma_page_of(address);
    view.lemma_tree(i, j, k);
    if view.has(TablePath::Pt(i, j, k)) {
        lemma_put_reads(view, TablePath::Pt(i, j, k), pt_index(address), 0);
    }
    assert(!is_present(after.leaf(address)));
    assert forall|other: u64| other < 0x1_0000_0000_0000 && other % 4096 == 0 && other
        != address implies after.leaf(other) == view.leaf(other) by {
        lemma_page_of(other);
    }
}

/// Unmapping leaves every entry of the upper three levels, and the
/// last-level entry of every other page, as it was.
pub proof fn lemma_unset_tables(view: PageMapView, address: u64)
    requires
        view.wf(),
    ensures
        ({
            let i = pml4_index(address);
            let j = pdpt_index(address);
            let k = pd_index(address);
            let l = pt_index(address);
            let after = view.unset(address);
            &&& !is_present(after.leaf(address))
            &&& after.leaf(address) == 0
            &&& after.order == view.order
            &&& after.frames == view.frames
            &&& forall|other: TablePath|
                other != TablePath::Pt(i, j, k) ==> #[trigger] after.table(other) == view.table(
                    other,
                )
            &&& after.table(TablePath::Pt(i, j, k)) == view.table(TablePath::Pt(i, j, k)).update(
                l,
                0,
            )
        }),
{
    lemma_index_ranges(address);
    let i = pml4_index(address);
    let j = pdpt_index(address);
    let k = pd_index(address);
    let l = pt_index(address);
    lemma_zero_entry();
    view.lemma_tree(i, j, k);
    if view.has(TablePath::Pt(i, j, k)) {
        lemma_put_reads(view, TablePath::Pt(i, j, k), l, 0);
    } else {
        assert(zero_table().update(l, 0) =~= zero_table());
    }
}

/// Unmapping a page twice leaves the page map as unmapping it once does.
pub proof fn lemma_unset_twice(view: PageMapView, address: u64)
    requires
        view.wf(),
    ensures
        view.unset(address).unset(address) == view.unset(address),
{
    lemma_index_ranges(address);
    let once = view.unset(address);
    let twice = once.unset(address);
    let i = pml4_index(address);
    let j = pdpt_index(address);
    let k = pd_index(address);
    let path = TablePath::Pt(i, j, k);
    if view.has(path) {
        assert(once.tables[path].update(pt_index(address), 0) =~= once.tables[path]);
        assert(twice.tables =~= once.tables);
    }
}

/// Unmapping a page that is not mapped changes nothing.
pub proof fn lemma_unset_unmapped(view: PageMapView, address: u64)
    requires
        view.wf(),
        view.leaf(address) == 0,
    ensures
        view.unset(address) == view,
{
    lemma_index_ranges(address);
    let i = pml4_index(address);
    let j = pdpt_index(address);
    let k = pd_index(address);
    let path = TablePath::Pt(i, j, k);
    if view.has(path) {
        view.lemma_tree(i, j, k);
        assert(view.tables[path].update(pt_index(address), 0) =~= view.tables[path]);
        assert(view.unset(address).tables =~= view.tables);
    }
}

/// Splitting an address of the 48-bit range into its four indices and its
/// offset, and putting these together again, gives the address.
pub proof fn lemma_decompose_recompose(address: u64)
    requires
        address < 0x1_0000_0000_0000,
    ensures
        indices_of(address).wf(),
        indices_of(address).address() == address,
{
    lemma_split_then_join(address);
}

/// The address of the top-level table in the recursive window has the
/// window index at all four levels.
pub proof fn lemma_window_pml4()
    ensures
        0 <= window_address(Seq::<int>::empty()) < 0x1_0000_0000_0000,
        pml4_index(window_address(Seq::<int>::empty()) as u64) == 511,
        pdpt_index(window_address(Seq::<int>::empty()) as u64) == 511,
        pd_index(window_address(Seq::<int>::empty()) as u64) == 511,
        pt_index(window_address(Seq::<int>::empty()) as u64) == 511,
{
    lemma_page_address(511, 511, 511, 511);
}

/// The address, in the recursive window, of the second-level table under
/// top-level entry `k` has the window index at the upper three levels and
/// `k` at the last.
pub proof fn lemma_window_pdpt(k: int)
    requires
        0 <= k < 512,
    ensures
        0 <= window_address(seq![k]) < 0x1_0000_0000_0000,
        pml4_index(window_address(seq![k]) as u64) == 511,
        pdpt_index(window_address(seq![k]) as u64) == 511,
        pd_index(window_address(seq![k]) as u64) == 511,
        pt_index(window_address(seq![k]) as u64) == k,
{
    lemma_page_address(511, 511, 511, k);
}

/// The address, in the recursive window, of the third-level table under
/// entries `i` and `j` has the window index at the upper two levels, then
/// `i`, then `j`.
pub proof fn lemma_window_pd(i: int, j: int)
    requires
        0 <= i < 512,
        0 <= j < 512,
    ensures
        0 <= window_address(seq![i, j]) < 0x1_0000_0000_0000,
        pml4_index(window_address(seq![i, j]) as u64) == 511,
        pdpt_index(window_address(seq![i, j]) as u64) == 511,
        pd_index(window_address(seq![i, j]) as u64) == i,
        pt_index(window_address(seq![i, j]) as u64) == j,
{
    lemma_page_address(511, 511, i, j);
}

/// The address, in the recursive window, of the fourth-level table under
/// entries `i`, `j` and `k` has the window index at the top level, then
/// `i`, `j` and `k`.
pub proof fn lemma_window_pt(i: int, j: int, k: int)
    requires
        0 <= i < 512,
        0 <= j < 512,
        0 <= k < 512,
    ensures
        0 <= window_address(seq![i, j, k]) < 0x1_0000_0000_0000,
        pml4_index(window_address(seq![i, j, k]) as u64) == 511,
        pdpt_index(window_address(seq![i, j, k]) as u64) == i,
        pd_index(window_address(seq![i, j, k]) as u64) == j,
        pt_index(window_address(seq![i, j, k]) as u64) == k,
{
    lemma_page_address(511, i, j, k);
}

} // verus!

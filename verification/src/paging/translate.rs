//! What the processor makes of an address under a page map.
//!
//! The processor walks the four levels. An address is mapped if the entry
//! at each level is present. An access may write only if the entry at each
//! level is writable, and may fetch instructions only if no entry on the
//! way disables execution.

use super::entry::{
    address_of, is_execute_disable, is_present, is_writable, lemma_zero_entry, valid_physical,
};
use super::flags::PageMapFlags;
use super::indices::{
    lemma_index_ranges, page_offset, pd_index, pdpt_index, pml4_index, pt_index,
};
use super::laws::{lemma_set_ancestors, lemma_set_leaves, lemma_set_widens, lemma_unset_tables};
use super::model::{lemma_leaf_entry, PageMapView, TablePath};
use vstd::prelude::*;

verus! {

/// Where an access to a virtual address goes, and what it may do there.
pub struct Access {
    /// The physical address that is reached.
    pub physical: int,
    /// Whether the access may write.
    pub writable: bool,
    /// Whether the access may fetch an instruction.
    pub executable: bool,
}

impl PageMapView {
    /// What the processor makes of `address`: nothing if an entry on the
    /// way is not present; else the address of the page with the offset
    /// added, and the permissions that every level grants.
    pub open spec fn translate(self, address: u64) -> Option<Access> {
        let i = pml4_index(address);
        let j = pdpt_index(address);
        let k = pd_index(address);
        let top = self.pml4e(i);
        let second = self.pdpte(i, j);
        let third = self.pde(i, j, k);
        let last = self.leaf(address);
        if is_present(top) && is_present(second) && is_present(third) && is_present(last) {
            Some(
                Access {
                    physical: address_of(last) + page_offset(address),
                    writable: is_writable(top) && is_writable(second) && is_writable(third)
                        && is_writable(last),
                    executable: !is_execute_disable(top) && !is_execute_disable(second)
                        && !is_execute_disable(third) && !is_execute_disable(last),
                },
            )
        } else {
            None
        }
    }

    /// Whether the entries above the last-level entry under `i`, `j`, `k`
    /// and `l` grant what that entry grants, if it is present.
    pub open spec fn granted(self, i: int, j: int, k: int, l: int) -> bool {
        let last = self.pte(i, j, k, l);
        is_present(last) ==> {
            &&& is_writable(last) ==> is_writable(self.pml4e(i)) && is_writable(self.pdpte(i, j))
                && is_writable(self.pde(i, j, k))
            &&& !is_execute_disable(last) ==> !is_execute_disable(self.pml4e(i))
                && !is_execute_disable(self.pdpte(i, j)) && !is_execute_disable(
                self.pde(i, j, k),
            )
        }
    }

    /// Whether no upper level takes away what a last-level entry grants:
    /// the permissions of a mapped page are those of its last-level entry.
    pub open spec fn grants_leaves(self) -> bool {
        forall|i: int, j: int, k: int, l: int|
            0 <= i < 512 && 0 <= j < 512 && 0 <= k < 512 && 0 <= l < 512 ==> #[trigger] self.granted(
                i,
                j,
                k,
                l,
            )
    }
}

/// What an access finds where the last-level entry decides alone: the page
/// and the permissions of `last`, if it is present.
pub open spec fn access_through(last: u64, address: u64) -> Option<Access> {
    if is_present(last) {
        Some(
            Access {
                physical: address_of(last) + page_offset(address),
                writable: is_writable(last),
                executable: !is_execute_disable(last),
            },
        )
    } else {
        None
    }
}

/// In a page map whose upper levels grant what its last-level entries
/// grant, the last-level entry of an address decides what the processor
/// makes of the address.
pub proof fn lemma_translate_by_leaf(view: PageMapView, address: u64)
    requires
        view.wf(),
        view.grants_leaves(),
    ensures
        view.translate(address) == access_through(view.leaf(address), address),
{
    lemma_index_ranges(address);
    let i = pml4_index(address);
    let j = pdpt_index(address);
    let k = pd_index(address);
    let l = pt_index(address);
    view.lemma_tree(i, j, k);
    lemma_zero_entry();
    assert(view.granted(i, j, k, l));
}

/// An empty page map maps nothing.
pub proof fn lemma_empty_grants(address: u64)
    ensures
        PageMapView::empty(address).grants_leaves(),
        forall|any: u64| #[trigger] PageMapView::empty(address).translate(any).is_none(),
{
    let view = PageMapView::empty(address);
    lemma_zero_entry();
    assert forall|i: int, j: int, k: int, l: int|
        0 <= i < 512 && 0 <= j < 512 && 0 <= k < 512 && 0 <= l < 512 implies #[trigger] view.granted(
        i,
        j,
        k,
        l,
    ) by {
        assert(!view.has(TablePath::Pt(i, j, k)));
    }
    assert forall|any: u64| #[trigger] view.translate(any).is_none() by {
        lemma_index_ranges(any);
        assert(!view.has(TablePath::Pt(pml4_index(any), pdpt_index(any), pd_index(any))));
    }
}

/// After a page was mapped, every address of the page leads to the same
/// offset of the physical page, and may be written and executed exactly as
/// the flags of the mapping say.
pub proof fn lemma_set_translates(
    view: PageMapView,
    fresh: Seq<u64>,
    address: u64,
    physical: u64,
    flags: PageMapFlags,
    within: u64,
)
    requires
        view.wf(),
        view.usable(fresh, view.missing_tables(address)),
        valid_physical(physical),
        pml4_index(within) == pml4_index(address),
        pdpt_index(within) == pdpt_index(address),
        pd_index(within) == pd_index(address),
        pt_index(within) == pt_index(address),
    ensures
        view.set(fresh, address, physical, flags).translate(within) == Some(
            Access {
                physical: physical + page_offset(within),
                writable: flags.is_writeable(),
                executable: flags.is_executable(),
            },
        ),
{
    lemma_set_ancestors(view, fresh, address, physical, flags);
    lemma_set_leaves(view, fresh, address, physical, flags);
    lemma_leaf_entry(physical, flags);
}

/// Mapping a page keeps what the upper levels grant in step with the
/// last-level entries.
pub proof fn lemma_set_grants(
    view: PageMapView,
    fresh: Seq<u64>,
    address: u64,
    physical: u64,
    flags: PageMapFlags,
)
    requires
        view.wf(),
        view.grants_leaves(),
        view.usable(fresh, view.missing_tables(address)),
        valid_physical(physical),
    ensures
        view.set(fresh, address, physical, flags).grants_leaves(),
{
    lemma_index_ranges(address);
    let after = view.set(fresh, address, physical, flags);
    lemma_set_ancestors(view, fresh, address, physical, flags);
    lemma_set_leaves(view, fresh, address, physical, flags);
    lemma_leaf_entry(physical, flags);
    assert forall|i: int, j: int, k: int, l: int|
        0 <= i < 512 && 0 <= j < 512 && 0 <= k < 512 && 0 <= l < 512 implies #[trigger] after.granted(
        i,
        j,
        k,
        l,
    ) by {
        if i == pml4_index(address) && j == pdpt_index(address) && k == pd_index(address) && l
            == pt_index(address) {
        } else if is_present(after.pte(i, j, k, l)) {
            assert(after.pte(i, j, k, l) == view.pte(i, j, k, l));
            assert(view.granted(i, j, k, l));
            lemma_zero_entry();
            lemma_kept_above(view, fresh, address, physical, flags, i, j, k);
        }
    }
}

/// Mapping a page takes nothing away from the entries above a last-level
/// table that existed before.
proof fn lemma_kept_above(
    view: PageMapView,
    fresh: Seq<u64>,
    address: u64,
    physical: u64,
    flags: PageMapFlags,
    i: int,
    j: int,
    k: int,
)
    requires
        view.wf(),
        0 <= i < 512,
        0 <= j < 512,
        0 <= k < 512,
        view.has(TablePath::Pt(i, j, k)),
    ensures
        ({
            let after = view.set(fresh, address, physical, flags);
            &&& is_present(view.pml4e(i)) && is_present(after.pml4e(i))
            &&& is_present(view.pdpte(i, j)) && is_present(after.pdpte(i, j))
            &&& is_present(view.pde(i, j, k)) && is_present(after.pde(i, j, k))
            &&& is_writable(view.pml4e(i)) ==> is_writable(after.pml4e(i))
            &&& is_writable(view.pdpte(i, j)) ==> is_writable(after.pdpte(i, j))
            &&& is_writable(view.pde(i, j, k)) ==> is_writable(after.pde(i, j, k))
            &&& !is_execute_disable(view.pml4e(i)) ==> !is_execute_disable(after.pml4e(i))
            &&& !is_execute_disable(view.pdpte(i, j)) ==> !is_execute_disable(after.pdpte(i, j))
            &&& !is_execute_disable(view.pde(i, j, k)) ==> !is_execute_disable(after.pde(i, j, k))
        }),
{
    view.lemma_tree(i, j, k);
    lemma_set_widens(view, fresh, address, physical, flags, TablePath::Pml4, i);
    lemma_set_widens(view, fresh, address, physical, flags, TablePath::Pdpt(i), j);
    lemma_set_widens(view, fresh, address, physical, flags, TablePath::Pd(i, j), k);
}

/// Mapping a page changes nothing for the addresses of other pages: each
/// leads where it led, with the permissions that it had.
pub proof fn lemma_set_keeps_translations(
    view: PageMapView,
    fresh: Seq<u64>,
    address: u64,
    physical: u64,
    flags: PageMapFlags,
    other: u64,
)
    requires
        view.wf(),
        view.grants_leaves(),
        view.usable(fresh, view.missing_tables(address)),
        valid_physical(physical),
        !(pml4_index(other) == pml4_index(address) && pdpt_index(other) == pdpt_index(address)
            && pd_index(other) == pd_index(address) && pt_index(other) == pt_index(address)),
    ensures
        view.set(fresh, address, physical, flags).translate(other) == view.translate(other),
{
    lemma_index_ranges(address);
    lemma_index_ranges(other);
    let after = view.set(fresh, address, physical, flags);
    let i = pml4_index(other);
    let j = pdpt_index(other);
    let k = pd_index(other);
    let l = pt_index(other);
    lemma_translate_by_leaf(view, other);
    lemma_set_leaves(view, fresh, address, physical, flags);
    lemma_set_grants(view, fresh, address, physical, flags);
    assert(after.leaf(other) == view.leaf(other));
    assert(after.granted(i, j, k, l));
    lemma_zero_entry();
    if is_present(view.leaf(other)) {
        lemma_kept_above(view, fresh, address, physical, flags, i, j, k);
    }
}

/// Unmapping a page keeps what the upper levels grant in step with the
/// last-level entries; the addresses of the page lead nowhere afterwards,
/// and nothing changes for the addresses of other pages.
pub proof fn lemma_unset_translates(view: PageMapView, address: u64, other: u64)
    requires
        view.wf(),
        view.grants_leaves(),
    ensures
        view.unset(address).grants_leaves(),
        view.unset(address).translate(other) == if pml4_index(other) == pml4_index(address)
            && pdpt_index(other) == pdpt_index(address) && pd_index(other) == pd_index(address)
            && pt_index(other) == pt_index(address) {
            None
        } else {
            view.translate(other)
        },
{
    lemma_index_ranges(address);
    lemma_index_ranges(other);
    let after = view.unset(address);
    lemma_unset_tables(view, address);
    lemma_zero_entry();
    let i0 = pml4_index(address);
    let j0 = pdpt_index(address);
    let k0 = pd_index(address);
    assert forall|i: int, j: int, k: int, l: int|
        0 <= i < 512 && 0 <= j < 512 && 0 <= k < 512 && 0 <= l < 512 implies #[trigger] after.granted(
        i,
        j,
        k,
        l,
    ) by {
        assert(view.granted(i, j, k, l));
        assert(after.table(TablePath::Pml4) == view.table(TablePath::Pml4));
        assert(after.table(TablePath::Pdpt(i)) == view.table(TablePath::Pdpt(i)));
        assert(after.table(TablePath::Pd(i, j)) == view.table(TablePath::Pd(i, j)));
    }
    let i = pml4_index(other);
    let j = pdpt_index(other);
    let k = pd_index(other);
    assert(after.table(TablePath::Pml4) == view.table(TablePath::Pml4));
    assert(after.table(TablePath::Pdpt(i)) == view.table(TablePath::Pdpt(i)));
    assert(after.table(TablePath::Pd(i, j)) == view.table(TablePath::Pd(i, j)));
}

} // verus!

//! What a walk through a page map shows of the pages that are mapped.
//!
//! The last-level steps of the walk are the mapped pages of the 48-bit
//! range: each page once, in ascending order of the addresses, with its
//! index in its table, its address and its entry, and nothing else.

use super::entry::{is_present, lemma_zero_entry};
use super::model::{lemma_page_address, page_address, PageMapView, TablePath};
use super::visit::VisitView;
use vstd::prelude::*;

verus! {

/// The number of pages in the 48-bit range.
pub const PAGES: u64 = 0x10_0000_0000;

/// The last-level steps of a walk, in the order of the walk.
pub open spec fn leaf_steps(walk: Seq<VisitView>) -> Seq<VisitView>
    decreases walk.len(),
{
    if walk.len() == 0 {
        Seq::empty()
    } else if walk.last() is Pte {
        leaf_steps(walk.drop_last()).push(walk.last())
    } else {
        leaf_steps(walk.drop_last())
    }
}

/// The step that shows page number `number`, the page at the address
/// `number * 4096`: its index in its table, its address and its entry.
pub open spec fn page_step(view: PageMapView, number: int) -> VisitView {
    VisitView::Pte {
        index: number % 512,
        virtual_address: (number * 4096) as u64,
        entry: view.leaf((number * 4096) as u64),
    }
}

/// The steps that show the mapped pages with the numbers from `from` up
/// to, but without, `to`, in ascending order.
pub open spec fn mapped_steps(view: PageMapView, from: int, to: int) -> Seq<VisitView>
    decreases to - from,
{
    if to <= from {
        Seq::empty()
    } else if is_present(view.leaf(((to - 1) * 4096) as u64)) {
        mapped_steps(view, from, to - 1).push(page_step(view, to - 1))
    } else {
        mapped_steps(view, from, to - 1)
    }
}

proof fn lemma_leaf_steps_push(walk: Seq<VisitView>, step: VisitView)
    ensures
        leaf_steps(walk.push(step)) == if step is Pte {
            leaf_steps(walk).push(step)
        } else {
            leaf_steps(walk)
        },
{
    assert(walk.push(step).drop_last() =~= walk);
    assert(walk.push(step).last() == step);
}

/// The last-level steps of two walks, one after the other, are those of
/// the first followed by those of the second.
pub proof fn lemma_leaf_steps_add(first: Seq<VisitView>, second: Seq<VisitView>)
    ensures
        leaf_steps(first + second) == leaf_steps(first) + leaf_steps(second),
    decreases second.len(),
{
    if second.len() == 0 {
        assert(first + second =~= first);
        assert(leaf_steps(first) + leaf_steps(second) =~= leaf_steps(first));
    } else {
        let rest = second.drop_last();
        assert((first + second).drop_last() =~= first + rest);
        assert((first + second).last() == second.last());
        lemma_leaf_steps_add(first, rest);
        if second.last() is Pte {
            assert((leaf_steps(first) + leaf_steps(rest)).push(second.last()) =~= leaf_steps(first)
                + leaf_steps(rest).push(second.last()));
        }
    }
}

proof fn lemma_mapped_steps_add(view: PageMapView, from: int, middle: int, to: int)
    requires
        from <= middle <= to,
    ensures
        mapped_steps(view, from, to) == mapped_steps(view, from, middle) + mapped_steps(
            view,
            middle,
            to,
        ),
    decreases to - middle,
{
    if to == middle {
        assert(mapped_steps(view, from, middle) + mapped_steps(view, middle, to) =~= mapped_steps(
            view,
            from,
            middle,
        ));
    } else {
        lemma_mapped_steps_add(view, from, middle, to - 1);
        if is_present(view.leaf(((to - 1) * 4096) as u64)) {
            assert((mapped_steps(view, from, middle) + mapped_steps(view, middle, to - 1)).push(
                page_step(view, to - 1),
            ) =~= mapped_steps(view, from, middle) + mapped_steps(view, middle, to - 1).push(
                page_step(view, to - 1),
            ));
        }
    }
}

/// The base of the pages under the third-level entry `k` of the tables
/// under `i` and `j`: the number of the first of its 512 pages.
pub open spec fn first_number(i: int, j: int, k: int) -> int {
    ((i * 512 + j) * 512 + k) * 512
}

proof fn lemma_number(i: int, j: int, k: int, l: int)
    requires
        0 <= i < 512,
        0 <= j < 512,
        0 <= k < 512,
        0 <= l < 512,
    ensures
        (first_number(i, j, k) + l) * 4096 == page_address(i, j, k, l),
        (first_number(i, j, k) + l) % 512 == l,
        0 <= first_number(i, j, k) + l < PAGES,
{
}

/// The walk through a last-level table shows its mapped pages.
proof fn lemma_walk_pt(view: PageMapView, i: int, j: int, k: int, upto: int)
    requires
        0 <= i < 512,
        0 <= j < 512,
        0 <= k < 512,
        0 <= upto <= 512,
    ensures
        leaf_steps(view.visits_pt(i, j, k, upto)) == mapped_steps(
            view,
            first_number(i, j, k),
            first_number(i, j, k) + upto,
        ),
    decreases upto,
{
    if upto > 0 {
        let l = upto - 1;
        lemma_walk_pt(view, i, j, k, l);
        lemma_number(i, j, k, l);
        lemma_page_address(i, j, k, l);
        let step = VisitView::Pte {
            index: l,
            virtual_address: page_address(i, j, k, l) as u64,
            entry: view.pte(i, j, k, l),
        };
        assert(view.leaf(page_address(i, j, k, l) as u64) == view.pte(i, j, k, l));
        assert(step == page_step(view, first_number(i, j, k) + l));
        lemma_leaf_steps_push(view.visits_pt(i, j, k, l), step);
    }
}

/// Where no last-level table exists, no page is mapped.
proof fn lemma_none_pt(view: PageMapView, i: int, j: int, k: int, upto: int)
    requires
        0 <= i < 512,
        0 <= j < 512,
        0 <= k < 512,
        0 <= upto <= 512,
        !view.has(TablePath::Pt(i, j, k)),
    ensures
        mapped_steps(view, first_number(i, j, k), first_number(i, j, k) + upto) == Seq::<
            VisitView,
        >::empty(),
    decreases upto,
{
    if upto > 0 {
        let l = upto - 1;
        lemma_none_pt(view, i, j, k, l);
        lemma_number(i, j, k, l);
        lemma_page_address(i, j, k, l);
        lemma_zero_entry();
        assert(view.leaf(page_address(i, j, k, l) as u64) == view.pte(i, j, k, l));
    }
}

/// The walk through a third-level table shows the mapped pages below it.
proof fn lemma_walk_pd(view: PageMapView, i: int, j: int, upto: int)
    requires
        view.wf(),
        0 <= i < 512,
        0 <= j < 512,
        0 <= upto <= 512,
    ensures
        leaf_steps(view.visits_pd(i, j, upto)) == mapped_steps(
            view,
            first_number(i, j, 0),
            first_number(i, j, upto),
        ),
    decreases upto,
{
    if upto > 0 {
        let k = upto - 1;
        lemma_walk_pd(view, i, j, k);
        view.lemma_tree(i, j, k);
        lemma_zero_entry();
        lemma_mapped_steps_add(
            view,
            first_number(i, j, 0),
            first_number(i, j, k),
            first_number(i, j, upto),
        );
        if is_present(view.pde(i, j, k)) {
            let step = VisitView::Pde { index: k, entry: view.pde(i, j, k) };
            lemma_leaf_steps_push(view.visits_pd(i, j, k), step);
            lemma_leaf_steps_add(view.visits_pd(i, j, k).push(step), view.visits_pt(i, j, k, 512));
            lemma_walk_pt(view, i, j, k, 512);
        } else {
            lemma_none_pt(view, i, j, k, 512);
            assert(mapped_steps(view, first_number(i, j, 0), first_number(i, j, k)) + Seq::<
                VisitView,
            >::empty() =~= mapped_steps(view, first_number(i, j, 0), first_number(i, j, k)));
        }
    }
}

/// Where no third-level table exists, no page is mapped.
proof fn lemma_none_pd(view: PageMapView, i: int, j: int, upto: int)
    requires
        view.wf(),
        0 <= i < 512,
        0 <= j < 512,
        0 <= upto <= 512,
        !view.has(TablePath::Pd(i, j)),
    ensures
        mapped_steps(view, first_number(i, j, 0), first_number(i, j, upto)) == Seq::<
            VisitView,
        >::empty(),
    decreases upto,
{
    if upto > 0 {
        let k = upto - 1;
        lemma_none_pd(view, i, j, k);
        view.lemma_tree(i, j, k);
        lemma_none_pt(view, i, j, k, 512);
        lemma_mapped_steps_add(
            view,
            first_number(i, j, 0),
            first_number(i, j, k),
            first_number(i, j, upto),
        );
        assert(Seq::<VisitView>::empty() + Seq::<VisitView>::empty() =~= Seq::<VisitView>::empty());
    }
}

/// The walk through a second-level table shows the mapped pages below it.
proof fn lemma_walk_pdpt(view: PageMapView, i: int, upto: int)
    requires
        view.wf(),
        0 <= i < 512,
        0 <= upto <= 512,
    ensures
        leaf_steps(view.visits_pdpt(i, upto)) == mapped_steps(
            view,
            first_number(i, 0, 0),
            first_number(i, upto, 0),
        ),
    decreases upto,
{
    if upto > 0 {
        let j = upto - 1;
        lemma_walk_pdpt(view, i, j);
        view.lemma_tree(i, j, 0);
        lemma_zero_entry();
        lemma_mapped_steps_add(
            view,
            first_number(i, 0, 0),
            first_number(i, j, 0),
            first_number(i, upto, 0),
        );
        assert(first_number(i, j, 512) == first_number(i, upto, 0));
        if is_present(view.pdpte(i, j)) {
            let step = VisitView::Pdpte { index: j, entry: view.pdpte(i, j) };
            lemma_leaf_steps_push(view.visits_pdpt(i, j), step);
            lemma_leaf_steps_add(view.visits_pdpt(i, j).push(step), view.visits_pd(i, j, 512));
            lemma_walk_pd(view, i, j, 512);
        } else {
            lemma_none_pd(view, i, j, 512);
            assert(mapped_steps(view, first_number(i, 0, 0), first_number(i, j, 0)) + Seq::<
                VisitView,
            >::empty() =~= mapped_steps(view, first_number(i, 0, 0), first_number(i, j, 0)));
        }
    }
}

/// Where no second-level table exists, no page is mapped.
proof fn lemma_none_pdpt(view: PageMapView, i: int, upto: int)
    requires
        view.wf(),
        0 <= i < 512,
        0 <= upto <= 512,
        !view.has(TablePath::Pdpt(i)),
    ensures
        mapped_steps(view, first_number(i, 0, 0), first_number(i, upto, 0)) == Seq::<
            VisitView,
        >::empty(),
    decreases upto,
{
    if upto > 0 {
        let j = upto - 1;
        lemma_none_pdpt(view, i, j);
        view.lemma_tree(i, j, 0);
        lemma_none_pd(view, i, j, 512);
        assert(first_number(i, j, 512) == first_number(i, upto, 0));
        lemma_mapped_steps_add(
            view,
            first_number(i, 0, 0),
            first_number(i, j, 0),
            first_number(i, upto, 0),
        );
        assert(Seq::<VisitView>::empty() + Seq::<VisitView>::empty() =~= Seq::<VisitView>::empty());
    }
}

/// The walk through the top-level table shows the mapped pages below it.
proof fn lemma_walk_pml4(view: PageMapView, upto: int)
    requires
        view.wf(),
        0 <= upto <= 512,
    ensures
        leaf_steps(view.visits_pml4(upto)) == mapped_steps(view, 0, first_number(upto, 0, 0)),
    decreases upto,
{
    if upto > 0 {
        let i = upto - 1;
        lemma_walk_pml4(view, i);
        view.lemma_tree(i, 0, 0);
        lemma_zero_entry();
        lemma_mapped_steps_add(view, 0, first_number(i, 0, 0), first_number(upto, 0, 0));
        assert(first_number(i, 512, 0) == first_number(upto, 0, 0));
        if is_present(view.pml4e(i)) {
            let step = VisitView::Pml4e { index: i, entry: view.pml4e(i) };
            lemma_leaf_steps_push(view.visits_pml4(i), step);
            lemma_leaf_steps_add(view.visits_pml4(i).push(step), view.visits_pdpt(i, 512));
            lemma_walk_pdpt(view, i, 512);
        } else {
            lemma_none_pdpt(view, i, 512);
            assert(mapped_steps(view, 0, first_number(i, 0, 0)) + Seq::<VisitView>::empty()
                =~= mapped_steps(view, 0, first_number(i, 0, 0)));
        }
    }
}

/// The last-level steps of the walk through a page map are its mapped
/// pages: each page of the 48-bit range that is mapped is shown once, in
/// ascending order of the addresses, with its index in its table, its
/// address and its entry, and no other page is shown.
pub proof fn lemma_walk_shows_mapped_pages(view: PageMapView)
    requires
        view.wf(),
    ensures
        leaf_steps(view.traversal()) == mapped_steps(view, 0, PAGES as int),
{
    lemma_walk_pml4(view, 512);
}

} // verus!

//! Walking a page map, entry by entry.

use super::entry::{is_present, PDE, PDPTE, PML4E, PTE};
use super::model::{page_address, PageMapView};
use vstd::prelude::*;

verus! {

/// One step of a walk: a present entry and where it stands.
#[derive(Clone, Copy, Debug, PartialEq, Eq)]
#[allow(inconsistent_fields)]
pub enum Visit {
    /// A present entry of the top-level table.
    Pml4e { index: usize, entry: PML4E },
    /// A present entry of a second-level table.
    Pdpte { index: usize, entry: PDPTE },
    /// A present entry of a third-level table.
    Pde { index: usize, entry: PDE },
    /// A present entry of a fourth-level table, and the virtual address of
    /// the page that it maps.
    Pte { index: usize, virtual_address: u64, entry: PTE },
}

/// One step of a walk, with the entry as its raw 64 bits.
pub enum VisitView {
    Pml4e { index: int, entry: u64 },
    Pdpte { index: int, entry: u64 },
    Pde { index: int, entry: u64 },
    Pte { index: int, virtual_address: u64, entry: u64 },
}

impl Visit {
    /// The step with the entry as its raw 64 bits.
    pub open spec fn view(self) -> VisitView {
        match self {
            Visit::Pml4e { index, entry } => VisitView::Pml4e {
                index: index as int,
                entry: entry.bits(),
            },
            Visit::Pdpte { index, entry } => VisitView::Pdpte {
                index: index as int,
                entry: entry.bits(),
            },
            Visit::Pde { index, entry } => VisitView::Pde {
                index: index as int,
                entry: entry.bits(),
            },
            Visit::Pte { index, virtual_address, entry } => VisitView::Pte {
                index: index as int,
                virtual_address,
                entry: entry.bits(),
            },
        }
    }
}

/// What is told of each present entry during a walk.
///
/// A visitor keeps count of what it was shown: each call adds one step to
/// `visited` and changes nothing else of it.
pub trait PageMapVisitor {
    /// The steps that the visitor was shown so far, oldest first.
    spec fn visited(&self) -> Seq<VisitView>;

    /// Shows a present entry of the top-level table.
    fn pml4e(&mut self, index: usize, entry: &PML4E)
        ensures
            final(self).visited() == old(self).visited().push(
                VisitView::Pml4e { index: index as int, entry: entry.bits() },
            ),
    ;

    /// Shows a present entry of a second-level table.
    fn pdpte(&mut self, index: usize, entry: &PDPTE)
        ensures
            final(self).visited() == old(self).visited().push(
                VisitView::Pdpte { index: index as int, entry: entry.bits() },
            ),
    ;

    /// Shows a present entry of a third-level table.
    fn pde(&mut self, index: usize, entry: &PDE)
        ensures
            final(self).visited() == old(self).visited().push(
                VisitView::Pde { index: index as int, entry: entry.bits() },
            ),
    ;

    /// Shows a present entry of a fourth-level table and the virtual
    /// address of the page that it maps.
    fn pte(&mut self, index: usize, virtual_address: u64, entry: &PTE)
        ensures
            final(self).visited() == old(self).visited().push(
                VisitView::Pte { index: index as int, virtual_address, entry: entry.bits() },
            ),
    ;
}

/// A visitor that writes down every step.
pub struct VisitLog {
    visits: Vec<Visit>,
}

impl VisitLog {
    /// The steps written down so far.
    pub closed spec fn view(&self) -> Seq<Visit> {
        self.visits@
    }

    /// A log with no step in it.
    pub fn new() -> (log: Self)
        ensures
            log@ == Seq::<Visit>::empty(),
            log.visited() == Seq::<VisitView>::empty(),
    {
        let log = VisitLog { visits: Vec::new() };
        assert(log.visited() =~= Seq::<VisitView>::empty());
        log
    }

    /// How many steps were written down.
    pub fn len(&self) -> (len: usize)
        ensures
            len == self@.len(),
    {
        self.visits.len()
    }

    /// The step that was written down at place `index`.
    pub fn get(&self, index: usize) -> (visit: Visit)
        requires
            index < self@.len(),
        ensures
            visit == self@[index as int],
    {
        self.visits[index]
    }

    /// All steps, oldest first.
    pub fn visits(&self) -> (visits: &Vec<Visit>)
        ensures
            visits@ == self@,
    {
        &self.visits
    }

    fn record(&mut self, visit: Visit)
        ensures
            final(self)@ == old(self)@.push(visit),
            final(self).visited() == old(self).visited().push(visit@),
    {
        self.visits.push(visit);
        assert(self.visited() =~= old(self).visited().push(visit@));
    }
}

impl PageMapVisitor for VisitLog {
    closed spec fn visited(&self) -> Seq<VisitView> {
        Seq::new(self.visits@.len(), |n: int| self.visits@[n]@)
    }

    fn pml4e(&mut self, index: usize, entry: &PML4E) {
        self.record(Visit::Pml4e { index, entry: *entry });
    }

    fn pdpte(&mut self, index: usize, entry: &PDPTE) {
        self.record(Visit::Pdpte { index, entry: *entry });
    }

    fn pde(&mut self, index: usize, entry: &PDE) {
        self.record(Visit::Pde { index, entry: *entry });
    }

    fn pte(&mut self, index: usize, virtual_address: u64, entry: &PTE) {
        self.record(Visit::Pte { index, virtual_address, entry: *entry });
    }
}

impl PageMapView {
    /// The walk through the first `upto` entries of the fourth-level table
    /// under entries `i`, `j` and `k`: each present entry, in order.
    pub open spec fn visits_pt(self, i: int, j: int, k: int, upto: int) -> Seq<VisitView>
        decreases upto,
    {
        if upto <= 0 {
            Seq::empty()
        } else {
            let l = upto - 1;
            let before = self.visits_pt(i, j, k, l);
            if is_present(self.pte(i, j, k, l)) {
                before.push(
                    VisitView::Pte {
                        index: l,
                        virtual_address: page_address(i, j, k, l) as u64,
                        entry: self.pte(i, j, k, l),
                    },
                )
            } else {
                before
            }
        }
    }

    /// The walk through the first `upto` entries of the third-level table
    /// under entries `i` and `j`: each present entry, in order, followed by
    /// the walk through the table that it points to.
    pub open spec fn visits_pd(self, i: int, j: int, upto: int) -> Seq<VisitView>
        decreases upto,
    {
        if upto <= 0 {
            Seq::empty()
        } else {
            let k = upto - 1;
            let before = self.visits_pd(i, j, k);
            if is_present(self.pde(i, j, k)) {
                before.push(VisitView::Pde { index: k, entry: self.pde(i, j, k) })
                    + self.visits_pt(i, j, k, 512)
            } else {
                before
            }
        }
    }

    /// The walk through the first `upto` entries of the second-level table
    /// under entry `i`.
    pub open spec fn visits_pdpt(self, i: int, upto: int) -> Seq<VisitView>
        decreases upto,
    {
        if upto <= 0 {
            Seq::empty()
        } else {
            let j = upto - 1;
            let before = self.visits_pdpt(i, j);
            if is_present(self.pdpte(i, j)) {
                before.push(VisitView::Pdpte { index: j, entry: self.pdpte(i, j) })
                    + self.visits_pd(i, j, 512)
            } else {
                before
            }
        }
    }

    /// The walk through the first `upto` entries of the top-level table.
    pub open spec fn visits_pml4(self, upto: int) -> Seq<VisitView>
        decreases upto,
    {
        if upto <= 0 {
            Seq::empty()
        } else {
            let i = upto - 1;
            let before = self.visits_pml4(i);
            if is_present(self.pml4e(i)) {
                before.push(VisitView::Pml4e { index: i, entry: self.pml4e(i) })
                    + self.visits_pdpt(i, 512)
            } else {
                before
            }
        }
    }

    /// The depth-first walk through all four levels: every present entry
    /// in the order of the addresses that it translates, each entry of an
    /// upper level before the entries of the table that it points to.
    pub open spec fn traversal(self) -> Seq<VisitView> {
        self.visits_pml4(512)
    }
}

} // verus!

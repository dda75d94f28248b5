//! The spatial grid: a fixed partition of a region into `(splits + 1)^2`
//! cells, each holding the element identifiers inserted into it since the
//! last reset.

use crate::geometry::{axis_cell, axis_index, clamp_point, lemma_axis_cell_clamped,
    lemma_axis_cell_in_range, Point, Region};
use vstd::prelude::*;

verus! {

/// A uniform grid over `region` with `splits + 1` cells along each axis.
///
/// Cell contents are caller-supplied identifiers, stored newest first; the
/// grid interprets them in no way. An out-of-range cell index is tolerated
/// everywhere: an insert to one is a silent no-op and a query of one returns
/// no elements, so a mis-indexing caller degrades to "no data" rather than
/// failing.
#[derive(Clone)]
pub struct Grid {
    pub region: Region,
    pub splits: usize,
    pub cells: Vec<Vec<usize>>,
}

impl View for Grid {
    type V = Seq<Seq<usize>>;

    /// A grid is modelled as the sequence of its cells' contents, each cell
    /// a sequence of element identifiers, newest first.
    closed spec fn view(&self) -> Seq<Seq<usize>> {
        Seq::new(self.cells@.len(), |i: int| self.cells@[i]@)
    }
}

impl Grid {
    /// Total number of cells: the square of the per-axis cell count.
    pub open spec fn spec_cell_count(self) -> int {
        (self.splits as int + 1) * (self.splits as int + 1)
    }

    /// The grid covers a well-formed region with exactly one cell bucket per
    /// cell.
    pub open spec fn wf(self) -> bool {
        &&& self.region.wf()
        &&& self.spec_cell_count() <= usize::MAX as int
        &&& self@.len() == self.spec_cell_count()
    }

    /// The identifiers stored in cell `i`, newest first; empty when no cell
    /// has that index.
    pub open spec fn spec_cell_elements(self, i: int) -> Seq<usize> {
        if 0 <= i < self@.len() {
            self@[i]
        } else {
            Seq::empty()
        }
    }

    /// The linear cell index of position `p`: the per-axis cell coordinates
    /// combined with the per-axis cell count as row stride.
    pub open spec fn spec_cell_of(self, p: Point) -> int {
        let cx = axis_cell(
            p.x as int,
            self.region.min.x as int,
            self.region.max.x as int,
            self.splits as int,
        );
        let cy = axis_cell(
            p.y as int,
            self.region.min.y as int,
            self.region.max.y as int,
            self.splits as int,
        );
        cx + cy * (self.splits as int + 1)
    }

    /// Builds a grid of `(splits + 1)^2` empty cells over `region`.
    ///
    /// A degenerate region (no extent along some axis) has no meaningful
    /// position mapping and is excluded up front.
    pub fn new(region: Region, splits: usize) -> (g: Grid)
        requires
            region.wf(),
            (splits as int + 1) * (splits as int + 1) <= usize::MAX as int,
        ensures
            g.wf(),
            g.region == region,
            g.splits == splits,
            forall|i: int| g.spec_cell_elements(i) == Seq::<usize>::empty(),
    {
        proof {
            assert(splits as int + 1 <= usize::MAX as int) by (nonlinear_arith)
                requires
                    0 <= splits as int,
                    (splits as int + 1) * (splits as int + 1) <= usize::MAX as int,
            ;
        }
        let count: usize = (splits + 1) * (splits + 1);
        let mut cells: Vec<Vec<usize>> = Vec::new();
        while cells.len() < count
            invariant
                cells@.len() <= count,
                forall|i: int| 0 <= i < cells@.len() ==> cells@[i]@ == Seq::<usize>::empty(),
            decreases count - cells@.len(),
        {
            cells.push(Vec::new());
        }
        let g = Grid { region, splits, cells };
        proof {
            assert forall|i: int| g.spec_cell_elements(i) == Seq::<usize>::empty() by {
                if 0 <= i < g@.len() {
                    assert(g@[i] == g.cells@[i]@);
                }
            }
        }
        g
    }

    /// Prepends `element` to cell `cell`; with no cell of that index the
    /// grid is left unchanged.
    pub fn insert(&mut self, cell: usize, element: usize)
        ensures
            final(self).region == old(self).region,
            final(self).splits == old(self).splits,
            final(self)@.len() == old(self)@.len(),
            cell < old(self)@.len() ==> final(self)@ == old(self)@.update(
                cell as int,
                old(self)@[cell as int].insert(0, element),
            ),
            cell < old(self)@.len() ==> final(self).spec_cell_elements(cell as int).contains(
                element,
            ),
            cell >= old(self)@.len() ==> *final(self) == *old(self),
    {
        if cell < self.cells.len() {
            self.cells[cell].insert(0, element);
            proof {
                assert(self@ =~= old(self)@.update(
                    cell as int,
                    old(self)@[cell as int].insert(0, element),
                ));
                assert(self@[cell as int].contains(element)) by {
                    assert(self@[cell as int][0] == element);
                }
            }
        }
    }

    /// Empties every cell; region, resolution and cell count are untouched.
    /// On an already-empty grid this changes nothing, so it is idempotent.
    pub fn cleanup(&mut self)
        ensures
            final(self).region == old(self).region,
            final(self).splits == old(self).splits,
            final(self)@.len() == old(self)@.len(),
            forall|i: int| final(self).spec_cell_elements(i) == Seq::<usize>::empty(),
    {
        let mut i: usize = 0;
        while i < self.cells.len()
            invariant
                i <= self.cells@.len(),
                self.region == old(self).region,
                self.splits == old(self).splits,
                self.cells@.len() == old(self).cells@.len(),
                forall|j: int| 0 <= j < i ==> self.cells@[j]@ == Seq::<usize>::empty(),
            decreases self.cells@.len() - i,
        {
            self.cells[i].clear();
            i += 1;
        }
        proof {
            assert forall|i: int| self.spec_cell_elements(i) == Seq::<usize>::empty() by {
                if 0 <= i < self@.len() {
                    assert(self@[i] == self.cells@[i]@);
                }
            }
        }
    }

    /// Maps a position, inside the region or not, to the index of the cell it
    /// falls in; the result is always a valid index.
    pub fn get_cell(&self, position: Point) -> (cell: usize)
        requires
            self.wf(),
        ensures
            cell == self.spec_cell_of(position),
            cell < self.spec_cell_count(),
    {
        let cx: usize = axis_index(
            position.x,
            self.region.min.x,
            self.region.max.x,
            self.splits,
        );
        let cy: usize = axis_index(
            position.y,
            self.region.min.y,
            self.region.max.y,
            self.splits,
        );
        proof {
            assert(self.splits as int + 1 <= usize::MAX as int) by (nonlinear_arith)
                requires
                    0 <= self.splits as int,
                    (self.splits as int + 1) * (self.splits as int + 1) <= usize::MAX as int,
            ;
            assert(cy * (self.splits as int + 1) <= self.splits as int * (self.splits as int + 1)
                && cx + self.splits as int * (self.splits as int + 1) < (self.splits as int + 1) * (
            self.splits as int + 1)) by (nonlinear_arith)
                requires
                    0 <= cx <= self.splits as int,
                    0 <= cy <= self.splits as int,
            ;
        }
        cx + cy * (self.splits + 1)
    }

    /// A snapshot of the identifiers in cell `cell`, newest first; an index
    /// with no cell yields an empty vector rather than an error.
    pub fn get_cell_elements(&self, cell: usize) -> (elements: Vec<usize>)
        ensures
            elements@ == self.spec_cell_elements(cell as int),
    {
        if cell < self.cells.len() {
            let source: &Vec<usize> = &self.cells[cell];
            let mut elements: Vec<usize> = Vec::new();
            let mut i: usize = 0;
            proof {
                assert(elements@ =~= source@.subrange(0, 0));
            }
            while i < source.len()
                invariant
                    i <= source@.len(),
                    elements@ == source@.subrange(0, i as int),
                decreases source@.len() - i,
            {
                elements.push(source[i]);
                proof {
                    assert(elements@ =~= source@.subrange(0, i + 1));
                }
                i += 1;
            }
            proof {
                assert(elements@ =~= source@);
                assert(self.spec_cell_elements(cell as int) == self.cells@[cell as int]@);
            }
            elements
        } else {
            Vec::new()
        }
    }

    /// The total number of cells, fixed at construction.
    pub fn get_cell_count(&self) -> (count: usize)
        ensures
            count == self@.len(),
            self.wf() ==> count == self.spec_cell_count(),
    {
        self.cells.len()
    }

    /// Every position, inside the region or not, maps to a cell index below
    /// the cell count.
    pub proof fn lemma_cell_of_in_range(self, p: Point)
        requires
            self.wf(),
        ensures
            0 <= self.spec_cell_of(p) < self.spec_cell_count(),
    {
        lemma_axis_cell_in_range(
            p.x as int,
            self.region.min.x as int,
            self.region.max.x as int,
            self.splits as int,
        );
        lemma_axis_cell_in_range(
            p.y as int,
            self.region.min.y as int,
            self.region.max.y as int,
            self.splits as int,
        );
        let cx = axis_cell(
            p.x as int,
            self.region.min.x as int,
            self.region.max.x as int,
            self.splits as int,
        );
        let cy = axis_cell(
            p.y as int,
            self.region.min.y as int,
            self.region.max.y as int,
            self.splits as int,
        );
        assert(cx + cy * (self.splits as int + 1) < (self.splits as int + 1) * (self.splits as int
            + 1)) by (nonlinear_arith)
            requires
                0 <= cx <= self.splits as int,
                0 <= cy <= self.splits as int,
        ;
    }

    /// A position outside the region maps to the same cell as its clamp into
    /// the region: out-of-region positions alias onto the boundary cells.
    pub proof fn lemma_cell_of_clamped(self, p: Point)
        requires
            self.wf(),
        ensures
            self.spec_cell_of(clamp_point(p, self.region)) == self.spec_cell_of(p),
    {
        lemma_axis_cell_clamped(
            p.x as int,
            self.region.min.x as int,
            self.region.max.x as int,
            self.splits as int,
        );
        lemma_axis_cell_clamped(
            p.y as int,
            self.region.min.y as int,
            self.region.max.y as int,
            self.splits as int,
        );
    }
}

} // verus!

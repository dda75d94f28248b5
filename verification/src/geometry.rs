//! Positions, regions, and the mapping from a position to a per-axis cell
//! coordinate.
//!
//! Coordinates are fixed-point integers: a caller working in fractional units
//! scales them to a common integer resolution before handing them to the grid.

use vstd::arithmetic::div_mod::lemma_div_pos_is_pos;
use vstd::prelude::*;

verus! {

/// A 2D position with fixed-point integer coordinates.
#[derive(Clone, Copy, PartialEq, Eq, Structural, Debug)]
pub struct Point {
    pub x: i64,
    pub y: i64,
}

/// An axis-aligned rectangle given by its minimum and maximum corners.
#[derive(Clone, Copy, PartialEq, Eq, Structural, Debug)]
pub struct Region {
    pub min: Point,
    pub max: Point,
}

impl Region {
    /// A region is well formed when it has positive extent along both axes;
    /// a degenerate region would leave the position mapping with a zero
    /// divisor.
    pub open spec fn wf(self) -> bool {
        self.min.x < self.max.x && self.min.y < self.max.y
    }
}

/// Clamp `v` into the closed interval `[lo, hi]`.
pub open spec fn clamp_int(v: int, lo: int, hi: int) -> int {
    if v < lo {
        lo
    } else if v > hi {
        hi
    } else {
        v
    }
}

/// The clamp of a point into a region, componentwise.
pub open spec fn clamp_point(p: Point, r: Region) -> Point {
    Point {
        x: clamp_int(p.x as int, r.min.x as int, r.max.x as int) as i64,
        y: clamp_int(p.y as int, r.min.y as int, r.max.y as int) as i64,
    }
}

/// The cell coordinate of `v` along one axis of a region spanning `[lo, hi]`
/// that is divided into `splits + 1` cells: clamp into the interval, translate
/// so `lo` becomes the origin, scale by the cell count, truncate, and collapse
/// the far boundary `hi` itself onto the last cell.
pub open spec fn axis_cell(v: int, lo: int, hi: int, splits: int) -> int
    recommends
        lo < hi,
        0 <= splits,
{
    let scaled = (clamp_int(v, lo, hi) - lo) * (splits + 1) / (hi - lo);
    if scaled > splits {
        splits
    } else {
        scaled
    }
}

/// Every position lands on a cell coordinate between 0 and `splits`.
pub proof fn lemma_axis_cell_in_range(v: int, lo: int, hi: int, splits: int)
    requires
        lo < hi,
        0 <= splits,
    ensures
        0 <= axis_cell(v, lo, hi, splits) <= splits,
{
    lemma_div_pos_is_pos((clamp_int(v, lo, hi) - lo) * (splits + 1), hi - lo);
}

/// Clamping is idempotent, so a position already clamped into the region maps
/// to the same cell coordinate as the original position.
pub proof fn lemma_axis_cell_clamped(v: int, lo: int, hi: int, splits: int)
    requires
        lo <= hi,
    ensures
        axis_cell(clamp_int(v, lo, hi), lo, hi, splits) == axis_cell(v, lo, hi, splits),
{
}

/// Computes `axis_cell` on machine integers.
pub(crate) fn axis_index(v: i64, lo: i64, hi: i64, splits: usize) -> (c: usize)
    requires
        lo < hi,
        (splits as int + 1) * (splits as int + 1) <= usize::MAX as int,
    ensures
        c == axis_cell(v as int, lo as int, hi as int, splits as int),
        c <= splits,
{
    let clamped: i64 = if v < lo {
        lo
    } else if v > hi {
        hi
    } else {
        v
    };
    let offset: u128 = (clamped as i128 - lo as i128) as u128;
    let span: u128 = (hi as i128 - lo as i128) as u128;
    proof {
        assert(offset as int == clamp_int(v as int, lo as int, hi as int) - lo);
        assert(offset <= span < 0x1_0000_0000_0000_0000_0000u128);
        assert(splits as int + 1 <= 0x1_0000_0000) by (nonlinear_arith)
            requires
                0 <= splits as int,
                (splits as int + 1) * (splits as int + 1) <= 0xffff_ffff_ffff_ffff,
        ;
        assert(offset * (splits as u128 + 1) < 0x1_0000_0000_0000_0000_0000_0000_0000u128)
            by (nonlinear_arith)
            requires
                offset < 0x1_0000_0000_0000_0000_0000u128,
                splits as u128 + 1 <= 0x1_0000_0000u128,
        ;
    }
    let scaled: u128 = offset * (splits as u128 + 1) / span;
    proof {
        lemma_div_pos_is_pos(offset as int * (splits as int + 1), span as int);
    }
    if scaled > splits as u128 {
        splits
    } else {
        scaled as usize
    }
}

} // verus!

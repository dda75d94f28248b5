//! A uniform spatial grid over a rectangular region.
//!
//! The grid partitions an axis-aligned rectangle into `(splits + 1)` cells
//! along each axis, maps positions to linear cell indices, and stores an
//! unordered collection of caller-supplied element identifiers per cell.

pub mod geometry;
pub mod grid;

//! Where a half's matrix lies on the whole keyboard.

use vstd::prelude::*;
use crate::event::LogicalCoordinate;

verus! {

/// The matrix of one half: its size, and the offset that maps its local
/// coordinates onto the whole keyboard.
#[derive(Clone, Copy, Debug, PartialEq, Eq, Structural)]
pub struct HalfConfig {
    pub row_offset: u8,
    pub col_offset: u8,
    pub rows: u8,
    pub cols: u8,
}

impl HalfConfig {
    /// A valid half has at least one row and one column, and its last row
    /// and column still have a coordinate on the whole keyboard.
    pub open spec fn wf(self) -> bool {
        &&& self.rows >= 1 && self.cols >= 1
        &&& self.row_offset + self.rows <= 256
        &&& self.col_offset + self.cols <= 256
    }

    /// Whether the local coordinate lies on the half.
    pub open spec fn holds(self, row: u8, col: u8) -> bool {
        row < self.rows && col < self.cols
    }

    /// The coordinate on the whole keyboard of a local coordinate.
    pub open spec fn logical(self, row: u8, col: u8) -> LogicalCoordinate {
        LogicalCoordinate {
            row: (row + self.row_offset) as u8,
            col: (col + self.col_offset) as u8,
        }
    }

    /// Whether the whole half lies on a keyboard of the given size.
    pub open spec fn fits(self, total_rows: u8, total_cols: u8) -> bool {
        self.row_offset + self.rows <= total_rows && self.col_offset + self.cols <= total_cols
    }

    /// Whether two halves share a coordinate of the whole keyboard.
    pub open spec fn overlaps(self, other: HalfConfig) -> bool {
        &&& self.row_offset < other.row_offset + other.rows
        &&& other.row_offset < self.row_offset + self.rows
        &&& self.col_offset < other.col_offset + other.cols
        &&& other.col_offset < self.col_offset + self.cols
    }

    /// The configuration of a half, where it is valid.
    pub fn new(row_offset: u8, col_offset: u8, rows: u8, cols: u8) -> (res: Option<HalfConfig>)
        ensures
            res is Some <==> (HalfConfig { row_offset, col_offset, rows, cols }).wf(),
            res is Some ==> res.unwrap() == (HalfConfig { row_offset, col_offset, rows, cols }),
    {
        let half = HalfConfig { row_offset, col_offset, rows, cols };
        if rows >= 1 && cols >= 1 && row_offset as u16 + rows as u16 <= 256 && col_offset as u16
            + cols as u16 <= 256 {
            Some(half)
        } else {
            None
        }
    }

    /// The coordinate on the whole keyboard of a local coordinate, if the
    /// local coordinate lies on the half.
    pub fn to_logical(&self, row: u8, col: u8) -> (res: Option<LogicalCoordinate>)
        requires
            self.wf(),
        ensures
            res is Some <==> self.holds(row, col),
            res is Some ==> res.unwrap() == self.logical(row, col),
    {
        if row < self.rows && col < self.cols {
            Some(LogicalCoordinate { row: row + self.row_offset, col: col + self.col_offset })
        } else {
            None
        }
    }

    /// Whether the whole half lies on a keyboard of the given size.
    pub fn fits_in(&self, total_rows: u8, total_cols: u8) -> (res: bool)
        ensures
            res == self.fits(total_rows, total_cols),
    {
        self.row_offset as u16 + self.rows as u16 <= total_rows as u16 && self.col_offset as u16
            + self.cols as u16 <= total_cols as u16
    }

    /// Whether two halves share a coordinate of the whole keyboard.
    pub fn overlaps_with(&self, other: &HalfConfig) -> (res: bool)
        ensures
            res == self.overlaps(*other),
    {
        (self.row_offset as u16) < other.row_offset as u16 + other.rows as u16 && (
        other.row_offset as u16) < self.row_offset as u16 + self.rows as u16 && (
        self.col_offset as u16) < other.col_offset as u16 + other.cols as u16 && (
        other.col_offset as u16) < self.col_offset as u16 + self.cols as u16
    }
}

/// Two halves that do not overlap never map their keys to one coordinate.
pub proof fn lemma_disjoint_halves_never_collide(
    a: HalfConfig,
    b: HalfConfig,
    ra: u8,
    ca: u8,
    rb: u8,
    cb: u8,
)
    requires
        a.wf(),
        b.wf(),
        !a.overlaps(b),
        a.holds(ra, ca),
        b.holds(rb, cb),
    ensures
        a.logical(ra, ca) != b.logical(rb, cb),
{
}

/// The mapping of a half is one to one.
pub proof fn lemma_logical_is_injective(a: HalfConfig, r1: u8, c1: u8, r2: u8, c2: u8)
    requires
        a.wf(),
        a.holds(r1, c1),
        a.holds(r2, c2),
        a.logical(r1, c1) == a.logical(r2, c2),
    ensures
        r1 == r2 && c1 == c2,
{
}

} // verus!

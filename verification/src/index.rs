//! Grid coordinates: rows (`Line`), columns (`Column`) and points.
//!
//! Negative lines address scrollback history, non-negative lines the visible
//! viewport (0 = top of the viewport).
use vstd::prelude::*;
use vstd::std_specs::ops::AddSpecImpl;
use vstd::std_specs::ops::SubSpecImpl;

verus! {

/// Saturating `i32` addition as a mathematical value.
pub open spec fn sat_i32(v: int) -> i32 {
    if v > i32::MAX { i32::MAX } else if v < i32::MIN { i32::MIN } else { v as i32 }
}

/// Saturating `usize` subtraction as a mathematical value.
pub open spec fn sat_sub_usize(a: usize, b: usize) -> usize {
    if a >= b { (a - b) as usize } else { 0 }
}

/// Saturating `usize` addition as a mathematical value.
pub open spec fn sat_add_usize(a: usize, b: usize) -> usize {
    if a + b > usize::MAX { usize::MAX } else { (a + b) as usize }
}

/// Row index; negative values address scrollback history.
#[derive(Debug, Clone, Copy, PartialEq, Eq, Structural, PartialOrd, Ord, Hash, Default)]
pub struct Line(pub i32);

/// Column index (0-based).
#[derive(Debug, Clone, Copy, PartialEq, Eq, Structural, PartialOrd, Ord, Hash, Default)]
pub struct Column(pub usize);

/// A 2-D point in the grid, ordered by line first, then column.
#[derive(Debug, Clone, Copy, PartialEq, Eq, Structural, PartialOrd, Ord, Hash, Default)]
pub struct Point {
    pub line: Line,
    pub column: Column,
}

/// The viewport row that a line value denotes: negative lines clamp to 0.
pub open spec fn viewport_idx_spec(v: i32) -> nat {
    if v < 0 { 0 } else { v as nat }
}

/// Lexicographic order on points (line, then column).
pub open spec fn point_le(a: Point, b: Point) -> bool {
    a.line.0 < b.line.0 || (a.line.0 == b.line.0 && a.column.0 <= b.column.0)
}

impl Line {
    /// Converts to a viewport row index, clamping negative values to 0.
    pub fn as_viewport_idx(self) -> (r: usize)
        ensures
            r == viewport_idx_spec(self.0),
    {
        if self.0 < 0 { 0 } else { self.0 as usize }
    }

    /// Builds a line from a row index, saturating at `i32::MAX`.
    pub fn from_usize(v: usize) -> (r: Line)
        ensures
            r.0 == (if v > i32::MAX { i32::MAX as int } else { v as int }),
    {
        if v > i32::MAX as usize { Line(i32::MAX) } else { Line(v as i32) }
    }
}

impl Point {
    pub fn new(line: Line, column: Column) -> (r: Self)
        ensures
            r.line == line,
            r.column == column,
    {
        Point { line, column }
    }
}

/// Point comparison `a <= b` in (line, column) order.
pub fn point_le_exec(a: Point, b: Point) -> (r: bool)
    ensures
        r == point_le(a, b),
{
    a.line.0 < b.line.0 || (a.line.0 == b.line.0 && a.column.0 <= b.column.0)
}

// --- Line arithmetic (saturating) ---

impl std::ops::Add<i32> for Line {
    type Output = Line;

    fn add(self, rhs: i32) -> (r: Line) {
        let v: i64 = self.0 as i64 + rhs as i64;
        if v > i32::MAX as i64 { Line(i32::MAX) } else if v < i32::MIN as i64 { Line(i32::MIN) } else { Line(v as i32) }
    }
}

impl AddSpecImpl<i32> for Line {
    open spec fn obeys_add_spec() -> bool {
        true
    }

    open spec fn add_req(self, rhs: i32) -> bool {
        true
    }

    open spec fn add_spec(self, rhs: i32) -> Line {
        Line(sat_i32(self.0 + rhs))
    }
}

impl std::ops::Sub<i32> for Line {
    type Output = Line;

    fn sub(self, rhs: i32) -> (r: Line) {
        let v: i64 = self.0 as i64 - rhs as i64;
        if v > i32::MAX as i64 { Line(i32::MAX) } else if v < i32::MIN as i64 { Line(i32::MIN) } else { Line(v as i32) }
    }
}

impl SubSpecImpl<i32> for Line {
    open spec fn obeys_sub_spec() -> bool {
        true
    }

    open spec fn sub_req(self, rhs: i32) -> bool {
        true
    }

    open spec fn sub_spec(self, rhs: i32) -> Line {
        Line(sat_i32(self.0 - rhs))
    }
}

impl std::ops::Sub<Line> for Line {
    type Output = i32;

    fn sub(self, rhs: Line) -> (r: i32) {
        self.0 - rhs.0
    }
}

impl SubSpecImpl<Line> for Line {
    open spec fn obeys_sub_spec() -> bool {
        true
    }

    open spec fn sub_req(self, rhs: Line) -> bool {
        i32::MIN <= self.0 - rhs.0 <= i32::MAX
    }

    open spec fn sub_spec(self, rhs: Line) -> i32 {
        (self.0 - rhs.0) as i32
    }
}

// --- Column arithmetic (saturating) ---

impl std::ops::Add<usize> for Column {
    type Output = Column;

    fn add(self, rhs: usize) -> (r: Column) {
        Column(self.0.saturating_add(rhs))
    }
}

impl AddSpecImpl<usize> for Column {
    open spec fn obeys_add_spec() -> bool {
        true
    }

    open spec fn add_req(self, rhs: usize) -> bool {
        true
    }

    open spec fn add_spec(self, rhs: usize) -> Column {
        Column(sat_add_usize(self.0, rhs))
    }
}

impl std::ops::Sub<usize> for Column {
    type Output = Column;

    fn sub(self, rhs: usize) -> (r: Column) {
        Column(self.0.saturating_sub(rhs))
    }
}

impl SubSpecImpl<usize> for Column {
    open spec fn obeys_sub_spec() -> bool {
        true
    }

    open spec fn sub_req(self, rhs: usize) -> bool {
        true
    }

    open spec fn sub_spec(self, rhs: usize) -> Column {
        Column(sat_sub_usize(self.0, rhs))
    }
}

impl std::ops::Sub<Column> for Column {
    type Output = usize;

    fn sub(self, rhs: Column) -> (r: usize) {
        self.0.saturating_sub(rhs.0)
    }
}

impl SubSpecImpl<Column> for Column {
    open spec fn obeys_sub_spec() -> bool {
        true
    }

    open spec fn sub_req(self, rhs: Column) -> bool {
        true
    }

    open spec fn sub_spec(self, rhs: Column) -> usize {
        sat_sub_usize(self.0, rhs.0)
    }
}

} // verus!

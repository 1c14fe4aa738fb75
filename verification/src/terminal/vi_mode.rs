//! Cursor motions of vi (copy) mode over the viewport and the scrollback.
//!
//! Lines are viewport-relative: 0 is the top viewport row, negative lines
//! address history (down to `-history`).
use vstd::prelude::*;
use crate::grid::Grid;
use crate::grid::cell::{Cell, default_cell};
use crate::index::{Column, Line, Point};

verus! {

/// A vi-mode motion.
#[derive(Debug, Clone, Copy, PartialEq, Eq, Structural)]
pub enum ViMotion {
    /// `k`: one line up.
    Up,
    /// `j`: one line down.
    Down,
    /// `h`: one column left.
    Left,
    /// `l`: one column right.
    Right,
    /// `0`: first column.
    First,
    /// `$`: last column.
    Last,
    /// `w`: start of the next word.
    WordRight,
    /// `b`: start of the previous word.
    WordLeft,
    /// `e`: end of the word.
    WordEnd,
    /// `{`: previous blank line.
    ParagraphUp,
    /// `}`: next blank line.
    ParagraphDown,
    /// `gg`: first scrollback line.
    Top,
    /// `G`: last viewport line.
    Bottom,
    /// `H`: top of the displayed screen.
    ScreenTop,
    /// `M`: middle of the displayed screen.
    ScreenMiddle,
    /// `L`: bottom of the displayed screen.
    ScreenBottom,
}

/// The vi-mode cursor: any line of the viewport or the history.
#[derive(Debug, Clone, Copy, PartialEq, Eq, Structural)]
pub struct ViCursor {
    pub point: Point,
}

/// Grids whose lines and history fit the `i32` line coordinates.
pub open spec fn vi_grid_ok(g: Grid) -> bool {
    &&& g.wf()
    &&& g.lines_spec() <= i32::MAX
    &&& g.history() <= i32::MAX
    &&& g.display_offset_spec() <= i32::MAX
}

/// The first line of the scrollback: `-history`.
pub open spec fn min_line(g: Grid) -> int {
    -g.history()
}

/// The last viewport line.
pub open spec fn max_line(g: Grid) -> int {
    g.lines_spec() - 1
}

/// The cell at `p` (history included), a default cell outside the grid.
pub open spec fn cell_at_point(g: Grid, p: Point) -> Cell {
    let l = p.line.0 as int;
    if l < min_line(g) || l > max_line(g) || p.column.0 >= g.columns_spec() {
        default_cell()
    } else {
        g.raw_row_view(g.history() + l)[p.column.0 as int]
    }
}

/// Space, tab and NUL count as blank.
pub open spec fn is_blank(c: char) -> bool {
    c == ' ' || c == '\t' || c == '\0'
}

/// `p` is in the last column (or past it).
pub open spec fn at_line_end(g: Grid, p: Point) -> bool {
    p.column.0 + 1 >= g.columns_spec()
}

/// Scans right (wrapping to following lines) from `p` until a cell whose
/// blankness differs from `blank`; `(p, true)` at such a cell, `(p, false)`
/// at the end of the last line.
pub open spec fn scan_right(g: Grid, p: Point, blank: bool) -> (Point, bool)
    decreases max_line(g) - p.line.0, g.columns_spec() - p.column.0,
{
    if is_blank(cell_at_point(g, p).c) != blank {
        (p, true)
    } else if at_line_end(g, p) {
        if p.line.0 >= max_line(g) || p.line.0 == i32::MAX {
            (p, false)
        } else {
            scan_right(g, Point { line: Line((p.line.0 + 1) as i32), column: Column(0) }, blank)
        }
    } else {
        scan_right(g, Point { line: p.line, column: Column((p.column.0 + 1) as usize) }, blank)
    }
}

/// Scans left (wrapping to previous lines, to their last column) from `p`
/// while the cell is blank; `(p, true)` at a non-blank cell, `(p, false)` at
/// the start of the first scrollback line.
pub open spec fn scan_left_blanks(g: Grid, p: Point) -> (Point, bool)
    decreases p.line.0 - min_line(g), p.column.0,
{
    if !is_blank(cell_at_point(g, p).c) {
        (p, true)
    } else if p.column.0 == 0 {
        if p.line.0 <= min_line(g) || p.line.0 == i32::MIN {
            (p, false)
        } else {
            scan_left_blanks(g, Point { line: Line((p.line.0 - 1) as i32), column: Column(last_col(g)) })
        }
    } else {
        scan_left_blanks(g, Point { line: p.line, column: Column((p.column.0 - 1) as usize) })
    }
}

/// The last column index (0 for a grid without columns).
pub open spec fn last_col(g: Grid) -> usize {
    if g.columns_spec() > 0 { (g.columns_spec() - 1) as usize } else { 0 }
}

/// Moves left along the line while the cell before `p` is not blank.
pub open spec fn word_start_left(g: Grid, p: Point) -> Point
    decreases p.column.0,
{
    if p.column.0 == 0 {
        p
    } else if is_blank(cell_at_point(g, Point { line: p.line, column: Column((p.column.0 - 1) as usize) }).c) {
        p
    } else {
        word_start_left(g, Point { line: p.line, column: Column((p.column.0 - 1) as usize) })
    }
}

/// Moves right along the line while the cell after `p` is not blank.
pub open spec fn word_end_right(g: Grid, p: Point) -> Point
    decreases g.columns_spec() - p.column.0,
{
    if at_line_end(g, p) {
        p
    } else if is_blank(cell_at_point(g, Point { line: p.line, column: Column((p.column.0 + 1) as usize) }).c) {
        p
    } else {
        word_end_right(g, Point { line: p.line, column: Column((p.column.0 + 1) as usize) })
    }
}

/// `w`: past the current word, past the blanks, onto the next word.
pub open spec fn word_right_spec(g: Grid, p: Point) -> Point {
    let (p1, found) = scan_right(g, p, false);
    if !found { p1 } else { scan_right(g, p1, true).0 }
}

/// One step right, wrapping to the next line; `None` at the end of the last line.
pub open spec fn step_right(g: Grid, p: Point) -> Option<Point> {
    if at_line_end(g, p) {
        if p.line.0 >= max_line(g) {
            None
        } else {
            Some(Point { line: Line((p.line.0 + 1) as i32), column: Column(0) })
        }
    } else {
        Some(Point { line: p.line, column: Column((p.column.0 + 1) as usize) })
    }
}

/// One step left, wrapping to the last column of the previous line; `None`
/// at the start of the first scrollback line.
pub open spec fn step_left(g: Grid, p: Point) -> Option<Point> {
    if p.column.0 == 0 {
        if p.line.0 <= min_line(g) {
            None
        } else {
            Some(Point { line: Line((p.line.0 - 1) as i32), column: Column(last_col(g)) })
        }
    } else {
        Some(Point { line: p.line, column: Column((p.column.0 - 1) as usize) })
    }
}

/// `b`: one step left, back over blanks, then to the start of that word.
pub open spec fn word_left_spec(g: Grid, p: Point) -> Point {
    match step_left(g, p) {
        None => p,
        Some(p1) => {
            let (p2, found) = scan_left_blanks(g, p1);
            if !found { p2 } else { word_start_left(g, p2) }
        },
    }
}

/// `e`: one step right, over blanks, then to the end of that word.
pub open spec fn word_end_spec(g: Grid, p: Point) -> Point {
    match step_right(g, p) {
        None => p,
        Some(p1) => {
            let (p2, found) = scan_right(g, p1, true);
            if !found { p2 } else { word_end_right(g, p2) }
        },
    }
}

/// Every cell of line `l` is blank.
pub open spec fn line_blank(g: Grid, l: int) -> bool {
    forall|c: int| 0 <= c < g.columns_spec() ==> #[trigger] is_blank(
        cell_at_point(g, Point { line: Line(l as i32), column: Column(c as usize) }).c,
    )
}

/// Moves up from line `l` while above the first line and line `l`'s
/// blankness equals `blank`.
pub open spec fn climb(g: Grid, l: int, blank: bool) -> int
    decreases l - min_line(g),
{
    if l > min_line(g) && line_blank(g, l) == blank { climb(g, l - 1, blank) } else { l }
}

/// Moves down from line `l` while above the last line and line `l`'s
/// blankness equals `blank`.
pub open spec fn descend(g: Grid, l: int, blank: bool) -> int
    decreases max_line(g) - l,
{
    if l < max_line(g) && line_blank(g, l) == blank { descend(g, l + 1, blank) } else { l }
}

/// The cell at `p` (history included), a default cell outside the grid.
pub fn grid_cell_at(grid: &Grid, point: Point) -> (r: Cell)
    requires
        vi_grid_ok(*grid),
    ensures
        r == cell_at_point(*grid, point),
{
    proof {
        grid.lemma_wf();
    }
    let lines = grid.screen_lines();
    let columns = grid.columns();
    let history = grid.history_size();
    let min_l: i64 = -(history as i64);
    let max_l: i64 = lines as i64 - 1;
    let l = point.line.0 as i64;
    if l < min_l || l > max_l || point.column.0 >= columns {
        return Cell::blank();
    }
    let raw_idx: usize = if point.line.0 >= 0 {
        history + point.line.0 as usize
    } else {
        history - ((-l) as usize)
    };
    match grid.raw_row_cell(raw_idx, point.column.0) {
        Some(c) => c.duplicate(),
        None => Cell::blank(),
    }
}

/// Space, tab and NUL count as blank.
pub fn is_space(cell: &Cell) -> (r: bool)
    ensures
        r == is_blank(cell.c),
{
    cell.c == ' ' || cell.c == '\t' || cell.c == '\0'
}

/// Whether every cell of line `line` is blank.
pub fn is_empty_line(grid: &Grid, line: Line) -> (r: bool)
    requires
        vi_grid_ok(*grid),
    ensures
        r == line_blank(*grid, line.0 as int),
{
    let columns = grid.columns();
    let mut col: usize = 0;
    while col < columns
        invariant
            vi_grid_ok(*grid),
            columns == grid.columns_spec(),
            col <= columns,
            forall|c: int| 0 <= c < col ==> #[trigger] is_blank(
                cell_at_point(*grid, Point { line: Line(line.0), column: Column(c as usize) }).c,
            ),
        decreases columns - col,
    {
        let cell = grid_cell_at(grid, Point::new(line, Column(col)));
        if !is_space(&cell) {
            assert(Point { line: Line((line.0 as int) as i32), column: Column((col as int) as usize) } == Point { line: line, column: Column(col) });
            assert(!is_blank(cell_at_point(*grid, Point { line: Line((line.0 as int) as i32), column: Column((col as int) as usize) }).c));
            return false;
        }
        col = col + 1;
    }
    true
}


/// Where `motion` takes the cursor at `p`.
pub open spec fn motion_target(g: Grid, p: Point, motion: ViMotion) -> Point {
    let l = p.line.0 as int;
    let c = p.column.0 as int;
    let d = g.display_offset_spec() as int;
    let lines = g.lines_spec() as int;
    match motion {
        ViMotion::Up => if l > min_line(g) { Point { line: Line((l - 1) as i32), ..p } } else { p },
        ViMotion::Down => if l < max_line(g) { Point { line: Line((l + 1) as i32), ..p } } else { p },
        ViMotion::Left => Point { column: Column(if c > 0 { (c - 1) as usize } else { 0 }), ..p },
        ViMotion::Right => if c < last_col(g) { Point { column: Column((c + 1) as usize), ..p } } else { p },
        ViMotion::First => Point { column: Column(0), ..p },
        ViMotion::Last => Point { column: Column(last_col(g)), ..p },
        ViMotion::WordRight => word_right_spec(g, p),
        ViMotion::WordLeft => word_left_spec(g, p),
        ViMotion::WordEnd => word_end_spec(g, p),
        ViMotion::ParagraphUp => Point { line: Line(climb(g, climb(g, l, true), false) as i32), column: Column(0) },
        ViMotion::ParagraphDown => Point { line: Line(descend(g, descend(g, l, true), false) as i32), column: Column(0) },
        ViMotion::Top => Point { line: Line(min_line(g) as i32), column: Column(0) },
        ViMotion::Bottom => Point { line: Line(max_line(g) as i32), column: Column(0) },
        ViMotion::ScreenTop => Point { line: Line((-d) as i32), column: Column(0) },
        ViMotion::ScreenMiddle => Point { line: Line((-d + lines / 2) as i32), column: Column(0) },
        ViMotion::ScreenBottom => Point { line: Line((-d + lines - 1) as i32), column: Column(0) },
    }
}

fn at_line_end_exec(grid: &Grid, p: Point) -> (r: bool)
    ensures
        r == at_line_end(*grid, p),
{
    let cols = grid.columns();
    cols == 0 || p.column.0 >= cols - 1
}

/// Scans right from `p` until a cell whose blankness differs from `blank`.
fn scan_right_exec(grid: &Grid, p: Point, blank: bool) -> (r: (Point, bool))
    requires
        vi_grid_ok(*grid),
    ensures
        r == scan_right(*grid, p, blank),
{
    let max_l: i64 = grid.screen_lines() as i64 - 1;
    let mut q = p;
    while is_space(&grid_cell_at(grid, q)) == blank
        invariant
            vi_grid_ok(*grid),
            max_l == max_line(*grid),
            scan_right(*grid, p, blank) == scan_right(*grid, q, blank),
        decreases max_line(*grid) - q.line.0, grid.columns_spec() - q.column.0,
    {
        if at_line_end_exec(grid, q) {
            if q.line.0 as i64 >= max_l || q.line.0 == i32::MAX {
                return (q, false);
            }
            q = Point::new(Line(q.line.0 + 1), Column(0));
        } else {
            q = Point::new(q.line, Column(q.column.0 + 1));
        }
    }
    (q, true)
}

/// Scans left from `p` while the cell is blank.
fn scan_left_blanks_exec(grid: &Grid, p: Point) -> (r: (Point, bool))
    requires
        vi_grid_ok(*grid),
    ensures
        r == scan_left_blanks(*grid, p),
{
    let min_l: i64 = -(grid.history_size() as i64);
    let cols = grid.columns();
    let last: usize = if cols > 0 { cols - 1 } else { 0 };
    let mut q = p;
    while is_space(&grid_cell_at(grid, q))
        invariant
            vi_grid_ok(*grid),
            min_l == min_line(*grid),
            last == last_col(*grid),
            scan_left_blanks(*grid, p) == scan_left_blanks(*grid, q),
        decreases q.line.0 - min_line(*grid), q.column.0,
    {
        if q.column.0 == 0 {
            if q.line.0 as i64 <= min_l || q.line.0 == i32::MIN {
                return (q, false);
            }
            q = Point::new(Line(q.line.0 - 1), Column(last));
        } else {
            q = Point::new(q.line, Column(q.column.0 - 1));
        }
    }
    (q, true)
}

/// `w`: start of the next word.
pub fn word_right(grid: &Grid, point: Point) -> (r: Point)
    requires
        vi_grid_ok(*grid),
    ensures
        r == word_right_spec(*grid, point),
{
    let (p1, found) = scan_right_exec(grid, point, false);
    if !found {
        return p1;
    }
    scan_right_exec(grid, p1, true).0
}

/// `b`: start of the previous word.
pub fn word_left(grid: &Grid, point: Point) -> (r: Point)
    requires
        vi_grid_ok(*grid),
    ensures
        r == word_left_spec(*grid, point),
{
    let min_l: i64 = -(grid.history_size() as i64);
    let cols = grid.columns();
    let p1 = if point.column.0 == 0 {
        if point.line.0 as i64 <= min_l {
            return point;
        }
        Point::new(Line(point.line.0 - 1), Column(if cols > 0 { cols - 1 } else { 0 }))
    } else {
        Point::new(point.line, Column(point.column.0 - 1))
    };
    let (p2, found) = scan_left_blanks_exec(grid, p1);
    if !found {
        return p2;
    }
    let mut q = p2;
    while q.column.0 > 0 && !is_space(&grid_cell_at(grid, Point::new(q.line, Column(q.column.0 - 1))))
        invariant
            vi_grid_ok(*grid),
            word_start_left(*grid, p2) == word_start_left(*grid, q),
        decreases q.column.0,
    {
        q = Point::new(q.line, Column(q.column.0 - 1));
    }
    q
}

/// `e`: end of the current or next word.
pub fn word_end(grid: &Grid, point: Point) -> (r: Point)
    requires
        vi_grid_ok(*grid),
    ensures
        r == word_end_spec(*grid, point),
{
    let max_l: i64 = grid.screen_lines() as i64 - 1;
    let p1 = if at_line_end_exec(grid, point) {
        if point.line.0 as i64 >= max_l {
            return point;
        }
        Point::new(Line(point.line.0 + 1), Column(0))
    } else {
        Point::new(point.line, Column(point.column.0 + 1))
    };
    let (p2, found) = scan_right_exec(grid, p1, true);
    if !found {
        return p2;
    }
    let mut q = p2;
    while !at_line_end_exec(grid, q) && !is_space(&grid_cell_at(grid, Point::new(q.line, Column(q.column.0 + 1))))
        invariant
            vi_grid_ok(*grid),
            word_end_right(*grid, p2) == word_end_right(*grid, q),
        decreases grid.columns_spec() - q.column.0,
    {
        q = Point::new(q.line, Column(q.column.0 + 1));
    }
    q
}

/// Moves up from `line` while its blankness equals `blank`.
fn climb_exec(grid: &Grid, line: i32, blank: bool) -> (r: i32)
    requires
        vi_grid_ok(*grid),
        min_line(*grid) <= line,
    ensures
        r as int == climb(*grid, line as int, blank),
        min_line(*grid) <= r,
{
    let min_l: i64 = -(grid.history_size() as i64);
    let mut l = line;
    while l as i64 > min_l && is_empty_line(grid, Line(l)) == blank
        invariant
            vi_grid_ok(*grid),
            min_l == min_line(*grid),
            min_l <= l,
            climb(*grid, line as int, blank) == climb(*grid, l as int, blank),
        decreases l - min_line(*grid),
    {
        l = l - 1;
    }
    l
}

/// Moves down from `line` while its blankness equals `blank`.
fn descend_exec(grid: &Grid, line: i32, blank: bool) -> (r: i32)
    requires
        vi_grid_ok(*grid),
    ensures
        r as int == descend(*grid, line as int, blank),
        r >= line,
{
    let max_l: i64 = grid.screen_lines() as i64 - 1;
    let mut l = line;
    while (l as i64) < max_l && is_empty_line(grid, Line(l)) == blank
        invariant
            vi_grid_ok(*grid),
            max_l == max_line(*grid),
            l >= line,
            descend(*grid, line as int, blank) == descend(*grid, l as int, blank),
        decreases max_line(*grid) - l,
    {
        l = l + 1;
    }
    l
}

impl ViCursor {
    /// A cursor at `point`.
    pub fn new(point: Point) -> (r: Self)
        ensures
            r.point == point,
    {
        ViCursor { point }
    }

    /// The cursor after `motion` on `grid`.
    pub fn motion(self, grid: &Grid, motion: ViMotion) -> (r: Self)
        requires
            vi_grid_ok(*grid),
        ensures
            r.point == motion_target(*grid, self.point, motion),
    {
        proof {
            grid.lemma_wf();
        }
        let lines = grid.screen_lines();
        let columns = grid.columns();
        let history = grid.history_size();
        let offset = grid.display_offset();
        let p = self.point;
        let l = p.line.0;
        let target = match motion {
            ViMotion::Up => if l as i64 > -(history as i64) { Point::new(Line(l - 1), p.column) } else { p },
            ViMotion::Down => if (l as i64) < lines as i64 - 1 { Point::new(Line(l + 1), p.column) } else { p },
            ViMotion::Left => Point::new(p.line, Column(if p.column.0 > 0 { p.column.0 - 1 } else { 0 })),
            ViMotion::Right => {
                let last: usize = if columns > 0 { columns - 1 } else { 0 };
                if p.column.0 < last { Point::new(p.line, Column(p.column.0 + 1)) } else { p }
            },
            ViMotion::First => Point::new(p.line, Column(0)),
            ViMotion::Last => Point::new(p.line, Column(if columns > 0 { columns - 1 } else { 0 })),
            ViMotion::WordRight => word_right(grid, p),
            ViMotion::WordLeft => word_left(grid, p),
            ViMotion::WordEnd => word_end(grid, p),
            ViMotion::ParagraphUp => {
                if (l as i64) < -(history as i64) {
                    Point::new(p.line, Column(0))
                } else {
                    let l1 = climb_exec(grid, l, true);
                    Point::new(Line(climb_exec(grid, l1, false)), Column(0))
                }
            },
            ViMotion::ParagraphDown => {
                let l1 = descend_exec(grid, l, true);
                Point::new(Line(descend_exec(grid, l1, false)), Column(0))
            },
            ViMotion::Top => Point::new(Line(-(history as i32)), Column(0)),
            ViMotion::Bottom => Point::new(Line((lines - 1) as i32), Column(0)),
            ViMotion::ScreenTop => Point::new(Line(-(offset as i32)), Column(0)),
            ViMotion::ScreenMiddle => Point::new(Line(-(offset as i32) + (lines / 2) as i32), Column(0)),
            ViMotion::ScreenBottom => Point::new(Line(-(offset as i32) + (lines - 1) as i32), Column(0)),
        };
        ViCursor { point: target }
    }
}

/// `p` lies in the scrollback or the viewport, inside the columns.
pub open spec fn in_vi_range(g: Grid, p: Point) -> bool {
    &&& min_line(g) <= p.line.0 <= max_line(g)
    &&& p.column.0 < g.columns_spec()
}

proof fn lemma_scan_right_in_range(g: Grid, p: Point, blank: bool)
    requires
        vi_grid_ok(g),
        in_vi_range(g, p),
    ensures
        in_vi_range(g, scan_right(g, p, blank).0),
    decreases max_line(g) - p.line.0, g.columns_spec() - p.column.0,
{
    if is_blank(cell_at_point(g, p).c) != blank {
    } else if at_line_end(g, p) {
        if p.line.0 >= max_line(g) || p.line.0 == i32::MAX {
        } else {
            lemma_scan_right_in_range(g, Point { line: Line((p.line.0 + 1) as i32), column: Column(0) }, blank);
        }
    } else {
        lemma_scan_right_in_range(g, Point { line: p.line, column: Column((p.column.0 + 1) as usize) }, blank);
    }
}

proof fn lemma_scan_left_in_range(g: Grid, p: Point)
    requires
        vi_grid_ok(g),
        in_vi_range(g, p),
    ensures
        in_vi_range(g, scan_left_blanks(g, p).0),
    decreases p.line.0 - min_line(g), p.column.0,
{
    if !is_blank(cell_at_point(g, p).c) {
    } else if p.column.0 == 0 {
        if p.line.0 <= min_line(g) || p.line.0 == i32::MIN {
        } else {
            lemma_scan_left_in_range(g, Point { line: Line((p.line.0 - 1) as i32), column: Column(last_col(g)) });
        }
    } else {
        lemma_scan_left_in_range(g, Point { line: p.line, column: Column((p.column.0 - 1) as usize) });
    }
}

proof fn lemma_word_start_in_range(g: Grid, p: Point)
    requires
        in_vi_range(g, p),
    ensures
        in_vi_range(g, word_start_left(g, p)),
    decreases p.column.0,
{
    if p.column.0 == 0 {
    } else if is_blank(cell_at_point(g, Point { line: p.line, column: Column((p.column.0 - 1) as usize) }).c) {
    } else {
        lemma_word_start_in_range(g, Point { line: p.line, column: Column((p.column.0 - 1) as usize) });
    }
}

proof fn lemma_word_end_in_range(g: Grid, p: Point)
    requires
        in_vi_range(g, p),
    ensures
        in_vi_range(g, word_end_right(g, p)),
    decreases g.columns_spec() - p.column.0,
{
    if at_line_end(g, p) {
    } else if is_blank(cell_at_point(g, Point { line: p.line, column: Column((p.column.0 + 1) as usize) }).c) {
    } else {
        lemma_word_end_in_range(g, Point { line: p.line, column: Column((p.column.0 + 1) as usize) });
    }
}

proof fn lemma_climb_in_range(g: Grid, l: int, blank: bool)
    requires
        min_line(g) <= l,
    ensures
        min_line(g) <= climb(g, l, blank) <= l,
    decreases l - min_line(g),
{
    if l > min_line(g) && line_blank(g, l) == blank {
        lemma_climb_in_range(g, l - 1, blank);
    }
}

proof fn lemma_descend_in_range(g: Grid, l: int, blank: bool)
    requires
        l <= max_line(g),
    ensures
        l <= descend(g, l, blank) <= max_line(g),
    decreases max_line(g) - l,
{
    if l < max_line(g) && line_blank(g, l) == blank {
        lemma_descend_in_range(g, l + 1, blank);
    }
}

/// Every vi motion keeps the cursor inside the scrollback and the viewport:
/// from a point there, the target lies on a line from `-history` to the
/// last viewport line and in one of the grid's columns.
pub proof fn lemma_motion_stays_in_range(g: Grid, p: Point, motion: ViMotion)
    requires
        vi_grid_ok(g),
        in_vi_range(g, p),
    ensures
        in_vi_range(g, motion_target(g, p, motion)),
{
    g.lemma_wf();
    let l = p.line.0 as int;
    match motion {
        ViMotion::WordRight => {
            lemma_scan_right_in_range(g, p, false);
            let (p1, found) = scan_right(g, p, false);
            if found {
                lemma_scan_right_in_range(g, p1, true);
            }
        },
        ViMotion::WordLeft => {
            match step_left(g, p) {
                None => {},
                Some(p1) => {
                    lemma_scan_left_in_range(g, p1);
                    let (p2, found) = scan_left_blanks(g, p1);
                    if found {
                        lemma_word_start_in_range(g, p2);
                    }
                },
            }
        },
        ViMotion::WordEnd => {
            match step_right(g, p) {
                None => {},
                Some(p1) => {
                    lemma_scan_right_in_range(g, p1, true);
                    let (p2, found) = scan_right(g, p1, true);
                    if found {
                        lemma_word_end_in_range(g, p2);
                    }
                },
            }
        },
        ViMotion::ParagraphUp => {
            lemma_climb_in_range(g, l, true);
            lemma_climb_in_range(g, climb(g, l, true), false);
        },
        ViMotion::ParagraphDown => {
            lemma_descend_in_range(g, l, true);
            lemma_descend_in_range(g, descend(g, l, true), false);
        },
        _ => {},
    }
}

/// `a` comes before `b` in reading order: on an earlier line, or further
/// left on the same line.
pub open spec fn point_before(a: Point, b: Point) -> bool {
    a.line.0 < b.line.0 || (a.line.0 == b.line.0 && a.column.0 < b.column.0)
}

/// The cell right of `q` on its line.
pub open spec fn right_of(q: Point) -> Point {
    Point { line: q.line, column: Column((q.column.0 + 1) as usize) }
}

/// Scanning for a non-blank cell from `p` stops at the first non-blank cell
/// at or after `p`, having passed only blank cells; when there is none it
/// stops on the last cell of the grid.
proof fn lemma_scan_to_nonblank(g: Grid, p: Point)
    requires
        vi_grid_ok(g),
        in_vi_range(g, p),
    ensures
        ({
            let (r, found) = scan_right(g, p, true);
            &&& in_vi_range(g, r)
            &&& (r == p || point_before(p, r))
            &&& found == !is_blank(cell_at_point(g, r).c)
            &&& forall|x: Point|
                in_vi_range(g, x) && (x == p || point_before(p, x)) && point_before(x, r) ==> is_blank(
                    #[trigger] cell_at_point(g, x).c,
                )
            &&& !found ==> forall|x: Point| in_vi_range(g, x) ==> !#[trigger] point_before(r, x)
        }),
    decreases max_line(g) - p.line.0, g.columns_spec() - p.column.0,
{
    g.lemma_wf();
    if is_blank(cell_at_point(g, p).c) != true {
    } else if at_line_end(g, p) {
        if p.line.0 >= max_line(g) || p.line.0 == i32::MAX {
        } else {
            let n = Point { line: Line((p.line.0 + 1) as i32), column: Column(0) };
            lemma_scan_to_nonblank(g, n);
            let (r, found) = scan_right(g, n, true);
            assert forall|x: Point|
                in_vi_range(g, x) && (x == p || point_before(p, x)) && point_before(x, r) implies is_blank(
                    #[trigger] cell_at_point(g, x).c,
                ) by {
                if x != p {
                    assert(x == n || point_before(n, x));
                }
            }
        }
    } else {
        let n = Point { line: p.line, column: Column((p.column.0 + 1) as usize) };
        lemma_scan_to_nonblank(g, n);
        let (r, found) = scan_right(g, n, true);
        assert forall|x: Point|
            in_vi_range(g, x) && (x == p || point_before(p, x)) && point_before(x, r) implies is_blank(
                #[trigger] cell_at_point(g, x).c,
            ) by {
            if x != p {
                assert(x == n || point_before(n, x));
            }
        }
    }
}

/// Running right along a word from `p` stays on `p`'s line, passes only
/// non-blank cells and stops at the last column or before a blank cell.
proof fn lemma_run_to_word_end(g: Grid, p: Point)
    requires
        in_vi_range(g, p),
    ensures
        ({
            let q = word_end_right(g, p);
            &&& in_vi_range(g, q)
            &&& q.line == p.line
            &&& p.column.0 <= q.column.0
            &&& at_line_end(g, q) || is_blank(cell_at_point(g, right_of(q)).c)
            &&& forall|c: int|
                p.column.0 < c <= q.column.0 ==> !is_blank(
                    #[trigger] cell_at_point(g, Point { line: p.line, column: Column(c as usize) }).c,
                )
        }),
    decreases g.columns_spec() - p.column.0,
{
    if at_line_end(g, p) {
    } else if is_blank(cell_at_point(g, Point { line: p.line, column: Column((p.column.0 + 1) as usize) }).c) {
    } else {
        let n = Point { line: p.line, column: Column((p.column.0 + 1) as usize) };
        lemma_run_to_word_end(g, n);
        let q = word_end_right(g, n);
        assert forall|c: int|
            p.column.0 < c <= q.column.0 implies !is_blank(
                #[trigger] cell_at_point(g, Point { line: p.line, column: Column(c as usize) }).c,
            ) by {
            if c == p.column.0 + 1 {
                assert(Point { line: p.line, column: Column(c as usize) } == n);
            }
        }
    }
}

/// `e` (vi word end) goes to the end of the next word: the target is at or
/// after the cursor; when any non-blank cell follows the cursor, the target
/// is a non-blank cell at the last column or before a blank cell, on the
/// line of the first non-blank cell after the cursor, and every cell from
/// that first non-blank cell to the target is non-blank (so it is the end of
/// that word); when none follows, the target is not a non-blank cell.
pub proof fn lemma_word_end_reaches_end_of_next_word(g: Grid, p: Point)
    requires
        vi_grid_ok(g),
        in_vi_range(g, p),
    ensures
        ({
            let q = motion_target(g, p, ViMotion::WordEnd);
            &&& in_vi_range(g, q)
            &&& (q == p || point_before(p, q))
            &&& !is_blank(cell_at_point(g, q).c) ==> at_line_end(g, q) || is_blank(cell_at_point(g, right_of(q)).c)
            &&& (exists|x: Point| in_vi_range(g, x) && point_before(p, x) && !is_blank(#[trigger] cell_at_point(g, x).c))
                ==> !is_blank(cell_at_point(g, q).c)
            &&& forall|x: Point, y: Point|
                in_vi_range(g, x) && in_vi_range(g, y) && point_before(p, x) && point_before(x, y) && (y == q || point_before(y, q))
                    && !is_blank(#[trigger] cell_at_point(g, x).c) ==> y.line == q.line && !is_blank(
                    #[trigger] cell_at_point(g, y).c,
                )
            &&& forall|x: Point|
                in_vi_range(g, x) && point_before(p, x) && point_before(x, q) && !is_blank(#[trigger] cell_at_point(g, x).c)
                    ==> x.line == q.line
        }),
{
    g.lemma_wf();
    match step_right(g, p) {
        None => {
            assert forall|x: Point| in_vi_range(g, x) implies !point_before(p, x) by {}
        },
        Some(p1) => {
            assert(in_vi_range(g, p1));
            assert forall|x: Point| in_vi_range(g, x) && point_before(p, x) implies (x == p1 || point_before(p1, x)) by {}
            lemma_scan_to_nonblank(g, p1);
            let (p2, found) = scan_right(g, p1, true);
            if found {
                lemma_run_to_word_end(g, p2);
                let q = word_end_right(g, p2);
                assert forall|x: Point|
                    in_vi_range(g, x) && point_before(p, x) && !is_blank(#[trigger] cell_at_point(g, x).c) implies (x == p2
                        || point_before(p2, x)) by {
                    assert(x == p1 || point_before(p1, x));
                    if point_before(x, p2) {
                        assert(is_blank(cell_at_point(g, x).c));
                    }
                }
                if p2.column.0 < q.column.0 {
                    let c: int = q.column.0 as int;
                    assert(!is_blank(cell_at_point(g, Point { line: p2.line, column: Column(c as usize) }).c));
                    assert(Point { line: p2.line, column: Column(c as usize) } == q);
                } else {
                    assert(q == p2);
                }
                assert(!is_blank(cell_at_point(g, q).c));
                assert forall|x: Point, y: Point|
                    in_vi_range(g, x) && in_vi_range(g, y) && point_before(p, x) && point_before(x, y) && (y == q
                        || point_before(y, q)) && !is_blank(#[trigger] cell_at_point(g, x).c) implies y.line == q.line
                    && !is_blank(#[trigger] cell_at_point(g, y).c) by {
                    assert(x == p2 || point_before(p2, x));
                    assert(y.line.0 == q.line.0);
                    assert(y.line == q.line);
                    if y != q {
                        assert(p2.column.0 < y.column.0 <= q.column.0);
                        let c: int = y.column.0 as int;
                        assert(!is_blank(cell_at_point(g, Point { line: p2.line, column: Column(c as usize) }).c));
                        assert(Point { line: p2.line, column: Column(c as usize) } == y);
                    }
                }
            } else {
                assert forall|x: Point| in_vi_range(g, x) && point_before(p, x) implies is_blank(
                    #[trigger] cell_at_point(g, x).c,
                ) by {
                    assert(x == p1 || point_before(p1, x));
                    assert(!point_before(p2, x));
                }
            }
        },
    }
}


/// Scanning right from `p` for a cell whose blankness differs from `blank`
/// stops at the first such cell at or after `p`, having passed only cells
/// of blankness `blank`; when there is none it stops on the last cell of
/// the grid.
proof fn lemma_scan_right_stops(g: Grid, p: Point, blank: bool)
    requires
        vi_grid_ok(g),
        in_vi_range(g, p),
    ensures
        ({
            let (r, found) = scan_right(g, p, blank);
            &&& in_vi_range(g, r)
            &&& (r == p || point_before(p, r))
            &&& found == (is_blank(cell_at_point(g, r).c) != blank)
            &&& forall|x: Point|
                in_vi_range(g, x) && (x == p || point_before(p, x)) && point_before(x, r) ==> is_blank(
                    #[trigger] cell_at_point(g, x).c,
                ) == blank
            &&& !found ==> forall|x: Point| in_vi_range(g, x) ==> !#[trigger] point_before(r, x)
        }),
    decreases max_line(g) - p.line.0, g.columns_spec() - p.column.0,
{
    g.lemma_wf();
    if is_blank(cell_at_point(g, p).c) != blank {
    } else if at_line_end(g, p) {
        if p.line.0 >= max_line(g) || p.line.0 == i32::MAX {
        } else {
            let n = Point { line: Line((p.line.0 + 1) as i32), column: Column(0) };
            lemma_scan_right_stops(g, n, blank);
            let (r, found) = scan_right(g, n, blank);
            assert forall|x: Point|
                in_vi_range(g, x) && (x == p || point_before(p, x)) && point_before(x, r) implies is_blank(
                    #[trigger] cell_at_point(g, x).c,
                ) == blank by {
                if x != p {
                    assert(x == n || point_before(n, x));
                }
            }
        }
    } else {
        let n = Point { line: p.line, column: Column((p.column.0 + 1) as usize) };
        lemma_scan_right_stops(g, n, blank);
        let (r, found) = scan_right(g, n, blank);
        assert forall|x: Point|
            in_vi_range(g, x) && (x == p || point_before(p, x)) && point_before(x, r) implies is_blank(
                #[trigger] cell_at_point(g, x).c,
            ) == blank by {
            if x != p {
                assert(x == n || point_before(n, x));
            }
        }
    }
}

/// `w` (vi word right) goes to the start of the next word: the target is at
/// or after the cursor; once a blank cell has been passed (from the cursor
/// on), every cell before the target is blank; and when some non-blank cell
/// follows a blank cell from the cursor on, the target is non-blank and a
/// blank cell lies between the cursor and it. So the target is the first
/// non-blank cell after the first blank cell at or after the cursor.
pub proof fn lemma_word_right_reaches_next_word(g: Grid, p: Point)
    requires
        vi_grid_ok(g),
        in_vi_range(g, p),
    ensures
        ({
            let q = motion_target(g, p, ViMotion::WordRight);
            &&& in_vi_range(g, q)
            &&& (q == p || point_before(p, q))
            &&& forall|b: Point, x: Point|
                in_vi_range(g, b) && in_vi_range(g, x) && (b == p || point_before(p, b)) && (b == x || point_before(b, x))
                    && point_before(x, q) && is_blank(#[trigger] cell_at_point(g, b).c) ==> is_blank(
                    #[trigger] cell_at_point(g, x).c,
                )
            &&& (exists|b: Point, x: Point|
                in_vi_range(g, b) && in_vi_range(g, x) && (b == p || point_before(p, b)) && point_before(b, x)
                    && is_blank(#[trigger] cell_at_point(g, b).c) && !is_blank(#[trigger] cell_at_point(g, x).c)) ==> {
                &&& !is_blank(cell_at_point(g, q).c)
                &&& exists|b: Point|
                    in_vi_range(g, b) && (b == p || point_before(p, b)) && point_before(b, q) && is_blank(
                        #[trigger] cell_at_point(g, b).c,
                    )
            }
        }),
{
    g.lemma_wf();
    lemma_scan_right_stops(g, p, false);
    let (p1, f1) = scan_right(g, p, false);
    if !f1 {
        assert forall|b: Point| in_vi_range(g, b) && (b == p || point_before(p, b)) implies !is_blank(
            #[trigger] cell_at_point(g, b).c,
        ) by {
            if point_before(b, p1) {
            } else if b == p1 {
            } else {
                assert(!point_before(p1, b));
            }
        }
    } else {
        lemma_scan_right_stops(g, p1, true);
        let (p2, f2) = scan_right(g, p1, true);
        assert forall|b: Point, x: Point|
            in_vi_range(g, b) && in_vi_range(g, x) && (b == p || point_before(p, b)) && (b == x || point_before(b, x))
                && point_before(x, p2) && is_blank(#[trigger] cell_at_point(g, b).c) implies is_blank(
                #[trigger] cell_at_point(g, x).c,
            ) by {
            if point_before(b, p1) {
                assert(!is_blank(cell_at_point(g, b).c));
            }
            assert(x == p1 || point_before(p1, x));
        }
        if f2 {
            assert(point_before(p1, p2));
            assert(is_blank(cell_at_point(g, p1).c));
            assert(in_vi_range(g, p1) && (p1 == p || point_before(p, p1)) && point_before(p1, p2) && is_blank(
                cell_at_point(g, p1).c,
            ));
        } else {
            assert forall|b: Point, x: Point|
                in_vi_range(g, b) && in_vi_range(g, x) && (b == p || point_before(p, b)) && point_before(b, x)
                    && is_blank(#[trigger] cell_at_point(g, b).c) implies is_blank(#[trigger] cell_at_point(g, x).c) by {
                if point_before(b, p1) {
                    assert(!is_blank(cell_at_point(g, b).c));
                }
                assert(x == p1 || point_before(p1, x));
                assert(!point_before(p2, x));
                if x != p2 {
                    assert(point_before(x, p2));
                }
            }
        }
    }
}


/// The cell left of `q` on its line.
pub open spec fn left_of(q: Point) -> Point {
    Point { line: q.line, column: Column((q.column.0 - 1) as usize) }
}

/// Scanning left from `p` over blank cells stops at the first non-blank cell
/// at or before `p`, having passed only blank cells; when there is none it
/// stops on the first cell of the scrollback.
proof fn lemma_scan_left_stops(g: Grid, p: Point)
    requires
        vi_grid_ok(g),
        in_vi_range(g, p),
    ensures
        ({
            let (r, found) = scan_left_blanks(g, p);
            &&& in_vi_range(g, r)
            &&& (r == p || point_before(r, p))
            &&& found == !is_blank(cell_at_point(g, r).c)
            &&& forall|x: Point|
                in_vi_range(g, x) && (x == p || point_before(x, p)) && point_before(r, x) ==> is_blank(
                    #[trigger] cell_at_point(g, x).c,
                )
            &&& !found ==> forall|x: Point| in_vi_range(g, x) ==> !#[trigger] point_before(x, r)
        }),
    decreases p.line.0 - min_line(g), p.column.0,
{
    g.lemma_wf();
    if !is_blank(cell_at_point(g, p).c) {
    } else if p.column.0 == 0 {
        if p.line.0 <= min_line(g) || p.line.0 == i32::MIN {
        } else {
            let n = Point { line: Line((p.line.0 - 1) as i32), column: Column(last_col(g)) };
            lemma_scan_left_stops(g, n);
            let (r, found) = scan_left_blanks(g, n);
            assert forall|x: Point|
                in_vi_range(g, x) && (x == p || point_before(x, p)) && point_before(r, x) implies is_blank(
                    #[trigger] cell_at_point(g, x).c,
                ) by {
                if x != p {
                    assert(x == n || point_before(x, n));
                }
            }
        }
    } else {
        let n = Point { line: p.line, column: Column((p.column.0 - 1) as usize) };
        lemma_scan_left_stops(g, n);
        let (r, found) = scan_left_blanks(g, n);
        assert forall|x: Point|
            in_vi_range(g, x) && (x == p || point_before(x, p)) && point_before(r, x) implies is_blank(
                #[trigger] cell_at_point(g, x).c,
            ) by {
            if x != p {
                assert(x == n || point_before(x, n));
            }
        }
    }
}

/// Running left along a word from `p` stays on `p`'s line, passes only
/// non-blank cells and stops at column 0 or after a blank cell.
proof fn lemma_run_to_word_start(g: Grid, p: Point)
    requires
        in_vi_range(g, p),
    ensures
        ({
            let q = word_start_left(g, p);
            &&& in_vi_range(g, q)
            &&& q.line == p.line
            &&& q.column.0 <= p.column.0
            &&& q.column.0 == 0 || is_blank(cell_at_point(g, left_of(q)).c)
            &&& forall|c: int|
                q.column.0 <= c < p.column.0 ==> !is_blank(
                    #[trigger] cell_at_point(g, Point { line: p.line, column: Column(c as usize) }).c,
                )
        }),
    decreases p.column.0,
{
    if p.column.0 == 0 {
    } else if is_blank(cell_at_point(g, Point { line: p.line, column: Column((p.column.0 - 1) as usize) }).c) {
    } else {
        let n = Point { line: p.line, column: Column((p.column.0 - 1) as usize) };
        lemma_run_to_word_start(g, n);
        let q = word_start_left(g, n);
        assert forall|c: int|
            q.column.0 <= c < p.column.0 implies !is_blank(
                #[trigger] cell_at_point(g, Point { line: p.line, column: Column(c as usize) }).c,
            ) by {
            if c == p.column.0 - 1 {
                assert(Point { line: p.line, column: Column(c as usize) } == n);
            }
        }
    }
}

/// `b` (vi word left) goes to the start of the previous word: the target is
/// at or before the cursor; when any non-blank cell precedes the cursor, the
/// target is a non-blank cell at column 0 or after a blank cell, on the line
/// of the last non-blank cell before the cursor, and every cell from the
/// target to that cell is non-blank (so it is the start of that word); when
/// none precedes it, the target is not a non-blank cell.
pub proof fn lemma_word_left_reaches_previous_word(g: Grid, p: Point)
    requires
        vi_grid_ok(g),
        in_vi_range(g, p),
    ensures
        ({
            let q = motion_target(g, p, ViMotion::WordLeft);
            &&& in_vi_range(g, q)
            &&& (q == p || point_before(q, p))
            &&& !is_blank(cell_at_point(g, q).c) ==> q.column.0 == 0 || is_blank(cell_at_point(g, left_of(q)).c)
            &&& (exists|x: Point| in_vi_range(g, x) && point_before(x, p) && !is_blank(#[trigger] cell_at_point(g, x).c))
                ==> !is_blank(cell_at_point(g, q).c)
            &&& forall|x: Point, y: Point|
                in_vi_range(g, x) && in_vi_range(g, y) && point_before(x, p) && point_before(y, x) && (y == q || point_before(q, y))
                    && !is_blank(#[trigger] cell_at_point(g, x).c) ==> y.line == q.line && !is_blank(
                    #[trigger] cell_at_point(g, y).c,
                )
        }),
{
    g.lemma_wf();
    match step_left(g, p) {
        None => {
            assert forall|x: Point| in_vi_range(g, x) implies !point_before(x, p) by {}
        },
        Some(p1) => {
            assert(in_vi_range(g, p1));
            assert forall|x: Point| in_vi_range(g, x) && point_before(x, p) implies (x == p1 || point_before(x, p1)) by {}
            lemma_scan_left_stops(g, p1);
            let (p2, found) = scan_left_blanks(g, p1);
            if found {
                lemma_run_to_word_start(g, p2);
                let q = word_start_left(g, p2);
                assert forall|x: Point|
                    in_vi_range(g, x) && point_before(x, p) && !is_blank(#[trigger] cell_at_point(g, x).c) implies (x == p2
                        || point_before(x, p2)) by {
                    assert(x == p1 || point_before(x, p1));
                    if point_before(p2, x) {
                        assert(is_blank(cell_at_point(g, x).c));
                    }
                }
                if q.column.0 < p2.column.0 {
                    let c: int = q.column.0 as int;
                    assert(!is_blank(cell_at_point(g, Point { line: p2.line, column: Column(c as usize) }).c));
                    assert(Point { line: p2.line, column: Column(c as usize) } == q);
                } else {
                    assert(q == p2);
                }
                assert(!is_blank(cell_at_point(g, q).c));
                assert forall|x: Point, y: Point|
                    in_vi_range(g, x) && in_vi_range(g, y) && point_before(x, p) && point_before(y, x) && (y == q
                        || point_before(q, y)) && !is_blank(#[trigger] cell_at_point(g, x).c) implies y.line == q.line
                    && !is_blank(#[trigger] cell_at_point(g, y).c) by {
                    assert(x == p2 || point_before(x, p2));
                    assert(y.line.0 == q.line.0);
                    assert(y.line == q.line);
                    if y != q {
                        assert(q.column.0 < y.column.0 < p2.column.0);
                        let c: int = y.column.0 as int;
                        assert(!is_blank(cell_at_point(g, Point { line: p2.line, column: Column(c as usize) }).c));
                        assert(Point { line: p2.line, column: Column(c as usize) } == y);
                    }
                }
            } else {
                assert forall|x: Point| in_vi_range(g, x) && point_before(x, p) implies is_blank(
                    #[trigger] cell_at_point(g, x).c,
                ) by {
                    assert(x == p1 || point_before(x, p1));
                    assert(!point_before(x, p2));
                }
            }
        },
    }
}


/// The single-step and jump motions: `k`/`j` move one line up/down and `h`/`l`
/// one column left/right, stopping at the edges of the scrollback and the
/// viewport and keeping the other coordinate; `0`/`$` go to the first/last
/// column of the line; `gg`/`G` go to column 0 of the first scrollback line
/// and of the last viewport line; `H`/`M`/`L` go to column 0 of the top,
/// middle and bottom line of the screen as it is scrolled.
pub proof fn lemma_simple_motions(g: Grid, p: Point)
    requires
        vi_grid_ok(g),
        in_vi_range(g, p),
    ensures
        ({
            let l = p.line.0 as int;
            let c = p.column.0 as int;
            let h = g.history();
            let lines = g.lines_spec() as int;
            let cols = g.columns_spec() as int;
            let d = g.display_offset_spec() as int;
            let at = |m: ViMotion| motion_target(g, p, m);
            &&& at(ViMotion::Up).column == p.column && at(ViMotion::Up).line.0 == (if l > -h { l - 1 } else { l })
            &&& at(ViMotion::Down).column == p.column && at(ViMotion::Down).line.0 == (if l < lines - 1 { l + 1 } else { l })
            &&& at(ViMotion::Left).line == p.line && at(ViMotion::Left).column.0 == (if c > 0 { c - 1 } else { 0 })
            &&& at(ViMotion::Right).line == p.line && at(ViMotion::Right).column.0 == (if c < cols - 1 { c + 1 } else { c })
            &&& at(ViMotion::First).line == p.line && at(ViMotion::First).column.0 == 0
            &&& at(ViMotion::Last).line == p.line && at(ViMotion::Last).column.0 == cols - 1
            &&& at(ViMotion::Top).line.0 == -h && at(ViMotion::Top).column.0 == 0
            &&& at(ViMotion::Bottom).line.0 == lines - 1 && at(ViMotion::Bottom).column.0 == 0
            &&& at(ViMotion::ScreenTop).line.0 == -d && at(ViMotion::ScreenTop).column.0 == 0
            &&& at(ViMotion::ScreenMiddle).line.0 == -d + lines / 2 && at(ViMotion::ScreenMiddle).column.0 == 0
            &&& at(ViMotion::ScreenBottom).line.0 == -d + lines - 1 && at(ViMotion::ScreenBottom).column.0 == 0
        }),
{
    g.lemma_wf();
}

/// `{` goes to column 0 of a line at or above the cursor's that is blank or
/// is the first scrollback line, and every line strictly between it and the
/// cursor's line that lies below a non-blank line of that stretch is
/// non-blank (it skips blank lines, then one paragraph); `}` does the same
/// downwards, ending on a blank line or the last line.
pub proof fn lemma_paragraph_motions(g: Grid, p: Point)
    requires
        vi_grid_ok(g),
        in_vi_range(g, p),
    ensures
        ({
            let l = p.line.0 as int;
            let up = motion_target(g, p, ViMotion::ParagraphUp);
            let down = motion_target(g, p, ViMotion::ParagraphDown);
            &&& up.column.0 == 0 && min_line(g) <= up.line.0 <= l
            &&& up.line.0 == min_line(g) || line_blank(g, up.line.0 as int)
            &&& forall|a: int, b: int|
                up.line.0 < a < b <= l && !#[trigger] line_blank(g, b) ==> !#[trigger] line_blank(g, a)
            &&& down.column.0 == 0 && l <= down.line.0 <= max_line(g)
            &&& down.line.0 == max_line(g) || line_blank(g, down.line.0 as int)
        }),
{
    g.lemma_wf();
    let l = p.line.0 as int;
    lemma_climb_in_range(g, l, true);
    lemma_climb_in_range(g, climb(g, l, true), false);
    lemma_climb_stops(g, climb(g, l, true), false);
    lemma_climb_passes(g, l, true);
    lemma_climb_passes(g, climb(g, l, true), false);
    lemma_descend_in_range(g, l, true);
    lemma_descend_in_range(g, descend(g, l, true), false);
    lemma_descend_stops(g, descend(g, l, true), false);
}

/// Climbing over lines of blankness `blank` stops at the first scrollback
/// line or at a line of the other blankness.
proof fn lemma_climb_stops(g: Grid, l: int, blank: bool)
    requires
        min_line(g) <= l,
    ensures
        climb(g, l, blank) == min_line(g) || line_blank(g, climb(g, l, blank)) != blank,
    decreases l - min_line(g),
{
    if l > min_line(g) && line_blank(g, l) == blank {
        lemma_climb_stops(g, l - 1, blank);
    }
}

/// Climbing over lines of blankness `blank` passes only such lines.
proof fn lemma_climb_passes(g: Grid, l: int, blank: bool)
    requires
        min_line(g) <= l,
    ensures
        forall|a: int| climb(g, l, blank) < a <= l ==> #[trigger] line_blank(g, a) == blank,
    decreases l - min_line(g),
{
    if l > min_line(g) && line_blank(g, l) == blank {
        lemma_climb_passes(g, l - 1, blank);
    }
}

/// Descending over lines of blankness `blank` stops at the last line or at
/// a line of the other blankness.
proof fn lemma_descend_stops(g: Grid, l: int, blank: bool)
    requires
        l <= max_line(g),
    ensures
        descend(g, l, blank) == max_line(g) || line_blank(g, descend(g, l, blank)) != blank,
    decreases max_line(g) - l,
{
    if l < max_line(g) && line_blank(g, l) == blank {
        lemma_descend_stops(g, l + 1, blank);
    }
}


} // verus!

//! Terminal grid: cell storage, scrolling and cursor state.
//!
//! [`Grid`] wraps a ring-buffer [`Storage`] and adds the cursor, the
//! scrollback limit and the display offset of the viewport.
pub mod cell;
pub mod row;
pub mod storage;

use vstd::prelude::*;
use vstd::arithmetic::div_mod::{lemma_small_mod, lemma_mod_bound, lemma_mod_twice};
use std::ops::Range;
use crate::grid::cell::{Cell, default_cell, reset_cell};
use crate::grid::row::{Row, blank_cells, is_reset_of};
use crate::grid::storage::{Storage, MAX_CACHE_SIZE, lemma_shift_compose, template_cells};
use crate::index::{Column, Line, Point, viewport_idx_spec};

verus! {

/// Direction and amount to scroll the display (not the buffer).
#[derive(Debug, Clone, Copy, PartialEq, Eq)]
pub enum Scroll {
    /// Move the display offset by `delta` lines (positive = into history).
    Delta(isize),
    /// Jump to the top of the scrollback.
    Top,
    /// Jump back to the live viewport.
    Bottom,
}

/// Cursor state stored inside the grid.
#[derive(Debug)]
pub struct Cursor {
    /// Cursor position in viewport coordinates.
    pub point: Point,
    /// Attribute template that new cells are initialised from.
    pub template: Cell,
    /// The cursor sits past the right margin: the next character wraps first.
    pub input_needs_wrap: bool,
}

/// The cursor of a fresh grid: top-left, default template, no pending wrap.
pub open spec fn default_cursor() -> Cursor {
    Cursor { point: Point { line: Line(0), column: Column(0) }, template: default_cell(), input_needs_wrap: false }
}

impl Cursor {
    /// A field-by-field copy of the cursor.
    pub fn duplicate(&self) -> (r: Cursor)
        ensures
            r == *self,
    {
        Cursor { point: self.point, template: self.template.duplicate(), input_needs_wrap: self.input_needs_wrap }
    }

    /// The cursor of a fresh grid.
    pub fn initial() -> (r: Cursor)
        ensures
            r == default_cursor(),
    {
        Cursor { point: Point::new(Line(0), Column(0)), template: Cell::blank(), input_needs_wrap: false }
    }
}

impl Clone for Cursor {
    fn clone(&self) -> (r: Self)
        ensures
            r == *self,
    {
        self.duplicate()
    }
}

impl Default for Cursor {
    fn default() -> (r: Self)
        ensures
            r == default_cursor(),
    {
        Cursor::initial()
    }
}

/// The main grid: `lines` viewport rows of `columns` cells, preceded by up to
/// `max_scroll_limit` rows of scrollback history.
#[derive(Debug)]
pub struct Grid {
    pub raw: Storage,
    /// Active cursor.
    pub cursor: Cursor,
    /// Saved cursor (DECSC / DECRC).
    pub saved_cursor: Cursor,
    pub lines: usize,
    pub columns: usize,
    pub display_offset: usize,
    pub max_scroll_limit: usize,
}

/// Storage layout invariant of a grid of `lines` rows and `columns` columns
/// keeping up to `max_scroll_limit` history rows.
pub closed spec fn layout_ok(raw: Storage, lines: usize, columns: usize, max_scroll_limit: usize) -> bool {
    &&& raw.wf()
    &&& raw.visible_lines == lines
    &&& lines >= 1
    &&& lines <= raw.inner@.len()
    &&& raw.rows_exactly(columns as nat)
    &&& lines + max_scroll_limit + MAX_CACHE_SIZE <= usize::MAX
    &&& max_scroll_limit <= isize::MAX
    &&& raw.len <= lines + max_scroll_limit
    &&& raw.len <= raw.inner@.len()
}

impl Grid {
    /// The row storage.
    pub open spec fn storage(&self) -> Storage {
        self.raw
    }

    /// Number of viewport rows.
    pub open spec fn lines_spec(&self) -> nat {
        self.lines as nat
    }

    /// Number of columns.
    pub open spec fn columns_spec(&self) -> nat {
        self.columns as nat
    }

    /// How far the display is scrolled back into history.
    pub open spec fn display_offset_spec(&self) -> nat {
        self.display_offset as nat
    }

    /// Maximum number of history rows kept.
    pub open spec fn max_scroll_spec(&self) -> nat {
        self.max_scroll_limit as nat
    }

    /// Number of history rows currently stored.
    pub open spec fn history(&self) -> int {
        self.storage().len - self.lines_spec()
    }

    /// The row at raw (logical storage) index `raw_row`.
    pub open spec fn raw_row_view(&self, raw_row: int) -> Seq<Cell> {
        self.storage().row_at(raw_row).view_cells()
    }

    /// The viewport row `line`.
    pub open spec fn line_view(&self, line: int) -> Seq<Cell> {
        self.raw_row_view(self.history() + line)
    }

    /// The viewport cell at (`line`, `col`).
    pub open spec fn cell_at(&self, line: int, col: int) -> Cell {
        self.line_view(line)[col]
    }

    /// `point` addresses a cell of the viewport.
    pub open spec fn in_viewport(&self, point: Point) -> bool {
        viewport_idx_spec(point.line.0) < self.lines_spec() && point.column.0 < self.columns_spec()
    }

    /// Grid well-formedness: the storage layout fits the dimensions, and the
    /// display offset never reaches past the history. It says nothing of
    /// the cursors.
    pub open spec fn wf(&self) -> bool {
        &&& layout_ok(self.raw, self.lines, self.columns, self.max_scroll_limit)
        &&& self.display_offset_spec() <= self.history()
    }

    /// Well-formedness facts that callers outside this module rely on.
    pub proof fn lemma_wf(&self)
        requires
            self.wf(),
        ensures
            self.lines_spec() >= 1,
            self.history() >= 0,
            self.history() <= self.max_scroll_spec(),
            self.lines_spec() + self.max_scroll_spec() + MAX_CACHE_SIZE <= usize::MAX,
            self.max_scroll_spec() <= isize::MAX,
            self.lines_spec() <= self.storage().inner@.len(),
            self.storage().len <= self.storage().inner@.len(),
            self.display_offset_spec() <= self.history(),
            self.storage().wf(),
            forall|l: int| 0 <= l < self.lines_spec() ==> (#[trigger] self.line_view(l)).len() == self.columns_spec(),
            forall|i: int| 0 <= i < self.storage().len ==> (#[trigger] self.raw_row_view(i)).len() == self.columns_spec(),
    {
        assert forall|i: int| 0 <= i < self.storage().len implies (#[trigger] self.raw_row_view(i)).len() == self.columns_spec() by {
            lemma_mod_bound(self.raw.zero + i, self.raw.inner@.len() as int);
        }
        assert forall|l: int| 0 <= l < self.lines_spec() implies (#[trigger] self.line_view(l)).len() == self.columns_spec() by {
            lemma_mod_bound(self.raw.zero + self.history() + l, self.raw.inner@.len() as int);
        }
    }

    /// A grid of `lines` rows (at least one) and `columns` columns keeping at
    /// most `max_scroll_limit` history rows.
    pub fn new(lines: usize, columns: usize, max_scroll_limit: usize) -> (g: Grid)
        requires
            lines + max_scroll_limit + MAX_CACHE_SIZE + 1 <= usize::MAX,
            max_scroll_limit <= isize::MAX,
        ensures
            g.wf(),
            g.lines_spec() == (if lines == 0 { 1 } else { lines as nat }),
            g.columns_spec() == columns,
            g.max_scroll_spec() == max_scroll_limit,
            g.history() == 0,
            g.display_offset_spec() == 0,
            g.cursor == default_cursor(),
            g.saved_cursor == default_cursor(),
            forall|l: int| 0 <= l < g.lines_spec() ==> #[trigger] g.line_view(l) == blank_cells(columns as nat),
    {
        let lines = if lines == 0 { 1 } else { lines };
        let raw = Storage::new(lines, columns);
        let g = Grid {
            raw,
            cursor: Cursor::initial(),
            saved_cursor: Cursor::initial(),
            lines,
            columns,
            display_offset: 0,
            max_scroll_limit,
        };
        proof {
            assert forall|l: int| 0 <= l < g.lines_spec() implies #[trigger] g.line_view(l) == blank_cells(columns as nat) by {
                lemma_small_mod(l as nat, lines as nat);
            }
        }
        g
    }

    /// Number of history rows currently stored.
    pub fn history_size(&self) -> (r: usize)
        requires
            self.wf(),
        ensures
            r == self.history(),
    {
        self.raw.len - self.lines
    }

    /// How far the display is scrolled back (0 = live viewport).
    pub fn display_offset(&self) -> (r: usize)
        ensures
            r == self.display_offset_spec(),
    {
        self.display_offset
    }

    /// Total number of logical rows (viewport + history).
    pub fn total_lines(&self) -> (r: usize)
        ensures
            r == self.storage().len,
    {
        self.raw.len
    }

    /// Number of viewport rows.
    pub fn screen_lines(&self) -> (r: usize)
        ensures
            r == self.lines_spec(),
    {
        self.lines
    }

    /// Number of columns.
    pub fn columns(&self) -> (r: usize)
        ensures
            r == self.columns_spec(),
    {
        self.columns
    }

    /// Maximum number of history rows kept.
    pub fn max_scroll_limit(&self) -> (r: usize)
        ensures
            r == self.max_scroll_spec(),
    {
        self.max_scroll_limit
    }

    /// The viewport cell at `point`.
    pub fn cell(&self, point: Point) -> (r: &Cell)
        requires
            self.wf(),
            self.in_viewport(point),
        ensures
            *r == self.cell_at(viewport_idx_spec(point.line.0) as int, point.column.0 as int),
    {
        proof {
            self.lemma_wf();
        }
        let row = self.raw.row(self.raw.len - self.lines + point.line.as_viewport_idx());
        row.cell(point.column)
    }

    /// Replaces the viewport cell at `point`.
    pub fn set_cell(&mut self, point: Point, cell: Cell)
        requires
            old(self).wf(),
            old(self).in_viewport(point),
        ensures
            final(self).wf(),
            final(self).same_shape(*old(self)),
            final(self).cursor == old(self).cursor,
            final(self).saved_cursor == old(self).saved_cursor,
            final(self).storage().inner@ == old(self).storage().inner@.update(
                old(self).storage().phys(old(self).history() + viewport_idx_spec(point.line.0)),
                final(self).storage().inner@[old(self).storage().phys(
                    old(self).history() + viewport_idx_spec(point.line.0),
                )],
            ),
            final(self).line_view(viewport_idx_spec(point.line.0) as int) == old(self).line_view(
                viewport_idx_spec(point.line.0) as int,
            ).update(point.column.0 as int, cell),
            forall|l: int|
                0 <= l < old(self).lines_spec() && l != viewport_idx_spec(point.line.0) ==> #[trigger] final(self).line_view(l)
                    == old(self).line_view(l),
    {
        proof {
            self.lemma_wf();
        }
        let logical = self.raw.len - self.lines + point.line.as_viewport_idx();
        let ghost before = *self;
        let mut row = self.raw.take_logical(logical);
        row.set_cell(point.column, cell);
        self.raw.set_row(logical, row);
        proof {
            let p = before.raw.phys(logical as int);
            assert forall|i: int| 0 <= i < self.raw.inner@.len() implies (#[trigger] self.raw.inner@[i]).view_cells().len() == self.columns by {
                if i != p {
                    assert(self.raw.inner@[i] == before.raw.inner@[i]);
                }
            }
            assert forall|l: int|
                0 <= l < before.lines_spec() && l != viewport_idx_spec(point.line.0) implies #[trigger] self.line_view(l)
                    == before.line_view(l) by {
                before.lemma_viewport_distinct(l, viewport_idx_spec(point.line.0) as int);
            }
        }
    }

    /// Same dimensions, history, limit and display offset.
    pub open spec fn same_shape(&self, other: Grid) -> bool {
        &&& self.lines_spec() == other.lines_spec()
        &&& self.columns_spec() == other.columns_spec()
        &&& self.storage().len == other.storage().len
        &&& self.storage().zero == other.storage().zero
        &&& self.storage().inner@.len() == other.storage().inner@.len()
        &&& self.display_offset_spec() == other.display_offset_spec()
        &&& self.max_scroll_spec() == other.max_scroll_spec()
    }

    /// Distinct viewport rows are distinct physical rows.
    pub proof fn lemma_viewport_distinct(&self, a: int, b: int)
        requires
            self.wf(),
            0 <= a < self.lines_spec(),
            0 <= b < self.lines_spec(),
            a != b,
        ensures
            self.storage().phys(self.history() + a) != self.storage().phys(self.history() + b),
    {
        let s = self.raw;
        let n = s.inner@.len() as int;
        let h = self.history();
        s.lemma_woff_phys(h, a);
        s.lemma_woff_phys(h, b);
    }
}


impl Grid {
    /// Mutable access to the viewport cell at `point`; the row's occupation
    /// mark is raised past it.
    pub fn cell_mut(&mut self, point: Point) -> (r: &mut Cell)
        requires
            old(self).wf(),
            old(self).in_viewport(point),
        ensures
            *r == old(self).cell_at(viewport_idx_spec(point.line.0) as int, point.column.0 as int),
            final(self).wf(),
            final(self).same_shape(*old(self)),
            final(self).cursor == old(self).cursor,
            final(self).saved_cursor == old(self).saved_cursor,
            final(self).line_view(viewport_idx_spec(point.line.0) as int) == old(self).line_view(
                viewport_idx_spec(point.line.0) as int,
            ).update(point.column.0 as int, *final(r)),
            forall|l: int|
                0 <= l < old(self).lines_spec() && l != viewport_idx_spec(point.line.0) ==> #[trigger] final(self).line_view(l)
                    == old(self).line_view(l),
            final(self).storage().inner@ == old(self).storage().inner@.update(
                old(self).storage().phys(old(self).history() + viewport_idx_spec(point.line.0)),
                final(self).storage().inner@[old(self).storage().phys(
                    old(self).history() + viewport_idx_spec(point.line.0),
                )],
            ),
    {
        proof {
            self.lemma_wf();
            assert forall|l: int|
                0 <= l < self.lines_spec() && l != viewport_idx_spec(point.line.0) implies #[trigger] self.storage().phys(self.history() + l)
                    != self.storage().phys(self.history() + viewport_idx_spec(point.line.0)) by {
                self.lemma_viewport_distinct(l, viewport_idx_spec(point.line.0) as int);
            }
        }
        let logical = self.raw.len - self.lines + point.line.as_viewport_idx();
        let p = self.raw.compute_index(logical);
        let row = &mut self.raw.inner[p];
        row.cell_mut(point.column)
    }

    /// Mutable access to the cell under the cursor.
    pub fn cursor_cell(&mut self) -> (r: &mut Cell)
        requires
            old(self).wf(),
            old(self).in_viewport(old(self).cursor.point),
        ensures
            *r == old(self).cell_at(
                viewport_idx_spec(old(self).cursor.point.line.0) as int,
                old(self).cursor.point.column.0 as int,
            ),
            final(self).wf(),
            final(self).same_shape(*old(self)),
            final(self).cursor == old(self).cursor,
            final(self).saved_cursor == old(self).saved_cursor,
            final(self).line_view(viewport_idx_spec(old(self).cursor.point.line.0) as int) == old(
                self,
            ).line_view(viewport_idx_spec(old(self).cursor.point.line.0) as int).update(
                old(self).cursor.point.column.0 as int,
                *final(r),
            ),
            forall|l: int|
                0 <= l < old(self).lines_spec() && l != viewport_idx_spec(old(self).cursor.point.line.0)
                    ==> #[trigger] final(self).line_view(l) == old(self).line_view(l),
    {
        let point = self.cursor.point;
        self.cell_mut(point)
    }
}


/// The grid `new` is `old` after `clear_viewport`.
pub open spec fn viewport_cleared(new: Grid, old: Grid) -> bool {
    &&& new.same_shape(old)
    &&& new.cursor == old.cursor
    &&& new.saved_cursor == old.saved_cursor
    &&& forall|l: int|
            0 <= l < old.lines_spec() ==> #[trigger] new.line_view(l) == reset_view(
                old.line_view(l),
                old.cursor.template,
            )
}

/// The grid `new` is `old` after `clear_history`.
pub open spec fn history_cleared(new: Grid, old: Grid) -> bool {
    &&& new.lines_spec() == old.lines_spec()
    &&& new.columns_spec() == old.columns_spec()
    &&& new.max_scroll_spec() == old.max_scroll_spec()
    &&& new.cursor == old.cursor
    &&& new.saved_cursor == old.saved_cursor
    &&& new.history() == 0
    &&& old.history() > 0 ==> new.display_offset_spec() == 0
    &&& old.history() == 0 ==> new == old
    &&& forall|l: int|
            0 <= l < old.lines_spec() ==> #[trigger] new.line_view(l)
                == old.line_view(l)
}

/// The row `v` after a reset with `template`: same width, all blanks.
pub open spec fn reset_view(v: Seq<Cell>, template: Cell) -> Seq<Cell> {
    Seq::new(v.len(), |i: int| reset_cell(template))
}

impl Grid {
    /// Viewport row `l` of a window-reset storage, seen from the grid.
    proof fn lemma_reset_window_view(&self, s: Storage, from_line: int, count: int, l: int)
        requires
            self.wf(),
            0 <= from_line,
            from_line + count <= self.lines_spec(),
            0 <= count,
            0 <= l < self.lines_spec(),
        ensures
            (from_line <= l < from_line + count) <==> self.storage().woff(
                self.storage().phys(self.history() + l),
                self.history() + from_line,
            ) < count,
    {
        let st = self.raw;
        let n = st.inner@.len() as int;
        st.lemma_woff_shift(self.history(), l, from_line);
        if l >= from_line {
            lemma_small_mod((l - from_line) as nat, n as nat);
        } else {
            vstd::arithmetic::div_mod::lemma_mod_add_multiples_vanish(l - from_line, n);
            lemma_small_mod((n + l - from_line) as nat, n as nat);
        }
    }

    /// Moves the display offset; it always stays within the history.
    pub fn scroll_display(&mut self, scroll: Scroll)
        requires
            old(self).wf(),
            scroll != Scroll::Delta(isize::MIN),
        ensures
            final(self).wf(),
            final(self).storage() == old(self).storage(),
            final(self).lines_spec() == old(self).lines_spec(),
            final(self).columns_spec() == old(self).columns_spec(),
            final(self).max_scroll_spec() == old(self).max_scroll_spec(),
            final(self).cursor == old(self).cursor,
            final(self).saved_cursor == old(self).saved_cursor,
            final(self).display_offset_spec() == match scroll {
                Scroll::Delta(d) => if d > 0 {
                    if old(self).display_offset_spec() + d > old(self).history() {
                        old(self).history()
                    } else {
                        old(self).display_offset_spec() + d
                    }
                } else {
                    if old(self).display_offset_spec() + d < 0 {
                        0
                    } else {
                        old(self).display_offset_spec() + d
                    }
                },
                Scroll::Top => old(self).history(),
                Scroll::Bottom => 0,
            },
    {
        let history = self.raw.len - self.lines;
        match scroll {
            Scroll::Delta(delta) => {
                if delta > 0 {
                    let up = delta as usize;
                    let sum = self.display_offset.saturating_add(up);
                    self.display_offset = if sum < history { sum } else { history };
                } else {
                    let down = (-delta) as usize;
                    self.display_offset = self.display_offset.saturating_sub(down);
                }
            },
            Scroll::Top => {
                self.display_offset = history;
            },
            Scroll::Bottom => {
                self.display_offset = 0;
            },
        }
    }

    /// The cell at raw row `raw_row` (0 = oldest history row) and column
    /// `col`, or `None` when either is out of range.
    pub fn raw_row_cell(&self, raw_row: usize, col: usize) -> (r: Option<&Cell>)
        requires
            self.wf(),
        ensures
            (raw_row >= self.storage().len || col >= self.columns_spec()) ==> r is None,
            (raw_row < self.storage().len && col < self.columns_spec()) ==> r == Some(
                &self.raw_row_view(raw_row as int)[col as int],
            ),
    {
        if raw_row >= self.raw.len || col >= self.columns {
            return None;
        }
        proof {
            lemma_mod_bound(self.raw.zero + raw_row, self.raw.inner@.len() as int);
        }
        let row = self.raw.row(raw_row);
        Some(row.cell(Column(col)))
    }

    /// Number of physically distinct rows that [`Grid::raw_row`] can return:
    /// `min(total_lines, physical capacity)`.
    pub fn raw_row_count(&self) -> (r: usize)
        ensures
            r == (if self.storage().len < self.storage().inner@.len() {
                self.storage().len as int
            } else {
                self.storage().inner@.len() as int
            }),
    {
        if self.raw.len < self.raw.inner.len() { self.raw.len } else { self.raw.inner.len() }
    }

    /// The row at raw index `raw_row` (0 = oldest history row).
    pub fn raw_row(&self, raw_row: usize) -> (r: &Row)
        requires
            self.wf(),
        ensures
            *r == self.storage().row_at(raw_row as int),
    {
        self.raw.row(raw_row)
    }

    /// All physically distinct rows in raw order.
    pub fn iter_raw_rows(&self) -> (r: Vec<&Row>)
        requires
            self.wf(),
        ensures
            r@.len() == (if self.storage().len < self.storage().inner@.len() {
                self.storage().len as int
            } else {
                self.storage().inner@.len() as int
            }),
            forall|i: int| 0 <= i < r@.len() ==> *#[trigger] r@[i] == self.storage().row_at(i),
    {
        let count = self.raw_row_count();
        let mut out: Vec<&Row> = Vec::new();
        let mut i: usize = 0;
        while i < count
            invariant
                self.wf(),
                i <= count,
                count <= self.storage().inner@.len(),
                out@.len() == i,
                forall|j: int| 0 <= j < i ==> *#[trigger] out@[j] == self.storage().row_at(j),
            decreases count - i,
        {
            out.push(self.raw.row(i));
            i = i + 1;
        }
        out
    }

    /// Blanks every viewport row with the cursor template.
    pub fn clear_viewport(&mut self)
        requires
            old(self).wf(),
        ensures
            final(self).wf(),
            viewport_cleared(*final(self), *old(self)),
    {
        proof {
            self.lemma_wf();
        }
        let ghost before = *self;
        let template = self.cursor.template.duplicate();
        let hist = self.raw.len - self.lines;
        self.raw.reset_window(hist, self.lines, &template);
        proof {
            assert forall|l: int| 0 <= l < before.lines_spec() implies #[trigger] self.line_view(l) == reset_view(
                before.line_view(l),
                before.cursor.template,
            ) by {
                before.lemma_reset_window_view(self.raw, 0, self.lines as int, l);
                lemma_mod_bound(before.raw.zero + hist + l, before.raw.inner@.len() as int);
                assert(self.line_view(l) =~= reset_view(before.line_view(l), before.cursor.template));
            }
        }
    }
}


impl Grid {
    /// Drops all scrollback history, keeping the viewport rows.
    pub fn clear_history(&mut self)
        requires
            old(self).wf(),
        ensures
            final(self).wf(),
            history_cleared(*final(self), *old(self)),
    {
        proof {
            self.lemma_wf();
        }
        let hist = self.raw.len - self.lines;
        if hist == 0 {
            return;
        }
        let ghost before = *self;
        self.raw.rotate(hist as isize);
        let ghost rotated = self.raw;
        self.raw.len = self.lines;
        self.display_offset = 0;
        let ghost mid = self.raw;
        assert forall|i: int| #[trigger] mid.row_at(i) == before.raw.row_at(i + hist) by {
            assert(mid.row_at(i) == rotated.row_at(i));
        }
        self.raw.truncate();
        proof {
            assert forall|l: int| 0 <= l < before.lines_spec() implies #[trigger] self.line_view(l)
                == before.line_view(l) by {
                if mid.inner@.len() > mid.visible_lines + MAX_CACHE_SIZE {
                    assert(self.raw.inner@[l] == mid.row_at(l));
                    lemma_small_mod(l as nat, self.raw.inner@.len());
                }
            }
            assert forall|i: int| 0 <= i < self.raw.inner@.len() implies (#[trigger] self.raw.inner@[i]).view_cells().len() == self.columns by {
                if mid.inner@.len() > mid.visible_lines + MAX_CACHE_SIZE {
                    assert(self.raw.inner@[i] == mid.row_at(i));
                    lemma_mod_bound(mid.zero + i, mid.inner@.len() as int);
                }
            }
        }
    }

    /// Scrolls the buffer up by `count` lines inside the viewport rows
    /// `region`: rows move up, the bottom `count` rows of the region are
    /// blanked with the cursor template. With `region.start == 0` the ring
    /// buffer rotates and the history grows, up to the scrollback limit.
    pub fn scroll_up(&mut self, region: Range<usize>, count: usize)
        requires
            old(self).wf(),
            region.end <= old(self).lines_spec(),
        ensures
            final(self).wf(),
            scrolled_up(*final(self), *old(self), region, count),
    {
        if region.end <= region.start {
            return;
        }
        let width = region.end - region.start;
        let count = if count < width { count } else { width };
        if region.start == 0 {
            self.scroll_up_top(region.end, count);
        } else {
            self.scroll_up_region(region.start, region.end, count);
        }
    }

    /// Moves the top `count` viewport rows into history: the history grows
    /// as far as the limit allows and the oldest rows beyond it are dropped;
    /// every logical row but the bottom `count` shows the row `count` below it.
    fn push_into_history(&mut self, count: usize) -> (grow: usize)
        requires
            old(self).wf(),
            count <= old(self).lines_spec(),
        ensures
            final(self).wf(),
            final(self).lines == old(self).lines,
            final(self).columns == old(self).columns,
            final(self).max_scroll_limit == old(self).max_scroll_limit,
            final(self).display_offset == old(self).display_offset,
            final(self).cursor == old(self).cursor,
            final(self).saved_cursor == old(self).saved_cursor,
            grow == scroll_growth(count as int, old(self).max_scroll_spec() as int, old(self).history()),
            final(self).raw.len == old(self).raw.len + grow,
            forall|i: int|
                0 <= i < final(self).raw.len - count ==> #[trigger] final(self).raw.row_at(i) == old(self).raw.row_at(
                    i + count - grow,
                ),
    {
        proof {
            self.lemma_wf();
        }
        let ghost before = *self;
        let template = self.cursor.template.duplicate();
        let hist0 = self.raw.len - self.lines;
        let room = self.max_scroll_limit - hist0;
        let grow = if count < room { count } else { room };
        if grow > 0 {
            self.raw.initialize(grow, self.columns, &template);
            let ghost gi = self.raw;
            self.raw.len = self.raw.len + grow;
            proof {
                assert forall|i: int| 0 <= i < before.raw.len implies #[trigger] self.raw.row_at(i) == before.raw.row_at(i) by {
                    assert(self.raw.row_at(i) == gi.row_at(i));
                }
            }
        }
        let ghost g1 = self.raw;
        let d = count - grow;
        if d > 0 {
            self.raw.rotate_forward(d);
        }
        proof {
            assert forall|i: int| 0 <= i < self.raw.len - count implies #[trigger] self.raw.row_at(i) == before.raw.row_at(
                i + count - grow,
            ) by {
                assert(self.raw.row_at(i) == g1.row_at(i + d));
            }
        }
        grow
    }

    /// Blanks the bottom `count` viewport rows with the cursor template, then
    /// moves the rows below viewport row `end` back down under them: rows
    /// `end - count .. end` end up blank and rows from `end` on show the rows
    /// `count` above them.
    #[verifier::rlimit(100)]
    fn blank_above_fixed(&mut self, end: usize, count: usize)
        requires
            old(self).wf(),
            count <= end <= old(self).lines_spec(),
        ensures
            final(self).wf(),
            final(self).lines == old(self).lines,
            final(self).columns == old(self).columns,
            final(self).max_scroll_limit == old(self).max_scroll_limit,
            final(self).display_offset == old(self).display_offset,
            final(self).cursor == old(self).cursor,
            final(self).saved_cursor == old(self).saved_cursor,
            final(self).raw.len == old(self).raw.len,
            forall|i: int| 0 <= i < old(self).history() ==> #[trigger] final(self).raw.row_at(i) == old(self).raw.row_at(i),
            forall|l: int|
                0 <= l < old(self).lines_spec() ==> #[trigger] final(self).line_view(l) == if l < end - count {
                    old(self).line_view(l)
                } else if l < end {
                    reset_view(final(self).line_view(l), old(self).cursor.template)
                } else {
                    old(self).line_view(l - count)
                },
    {
        proof {
            self.lemma_wf();
        }
        let ghost before = *self;
        let template = self.cursor.template.duplicate();
        let lines = self.lines;
        let hist1 = self.raw.len - lines;
        let from3 = hist1 + lines - count;
        let ghost g2 = self.raw;
        self.raw.reset_window(from3, count, &template);
        let ghost g3 = self.raw;
        let nn = self.raw.inner.len();
        proof {
            assert forall|i: int| 0 <= i < g3.len implies if i < from3 {
                #[trigger] g3.row_at(i) == g2.row_at(i)
            } else {
                is_reset_of(g3.row_at(i), g2.row_at(i), template)
            } by {
                g2.lemma_woff_logical(i, from3 as int);
                lemma_mod_bound(g2.zero + i, nn as int);
            }
        }
        let from4 = hist1 + end - count;
        let width = lines - end + count;
        if end < lines && count > 0 {
            self.raw.rotate_window_down_n(from4, width, count);
        }
        proof {
            let fin = self.raw;
            assert forall|i: int| 0 <= i < fin.len implies #[trigger] fin.row_at(i) == if i < from4 || !(end < lines && count > 0) {
                g3.row_at(i)
            } else {
                g3.row_at(from4 + ((i - from4) + width - count) % (width as int))
            } by {
                if end < lines && count > 0 {
                    g3.lemma_woff_logical(i, from4 as int);
                    lemma_mod_bound(g3.zero + i, nn as int);
                }
            }
            assert forall|i: int| 0 <= i < before.history() implies #[trigger] fin.row_at(i) == g2.row_at(i) by {
                assert(fin.row_at(i) == g3.row_at(i));
            }
            assert forall|l: int| 0 <= l < before.lines_spec() implies #[trigger] self.line_view(l) == if l < end - count {
                before.line_view(l)
            } else if l < end {
                reset_view(self.line_view(l), template)
            } else {
                before.line_view(l - count)
            } by {
                let i = hist1 + l;
                if l < end - count {
                    assert(fin.row_at(i) == g3.row_at(i));
                } else if l < end {
                    if end < lines && count > 0 {
                        let k = l - from4 + hist1;
                        lemma_small_mod((k + width - count) as nat, width as nat);
                        let src = from4 + (k + width - count);
                        assert(fin.row_at(i) == g3.row_at(src));
                        assert(is_reset_of(g3.row_at(src), g2.row_at(src), template));
                    } else {
                        assert(is_reset_of(g3.row_at(i), g2.row_at(i), template));
                    }
                    assert(self.line_view(l) =~= reset_view(self.line_view(l), template));
                } else {
                    let k = l - from4 + hist1;
                    vstd::arithmetic::div_mod::lemma_mod_add_multiples_vanish(k - count, width as int);
                    lemma_small_mod((k - count) as nat, width as nat);
                    let src = hist1 + l - count;
                    assert(fin.row_at(i) == g3.row_at(src));
                }
            }
            assert forall|q: int| 0 <= q < self.raw.inner@.len() implies (#[trigger] self.raw.inner@[q]).view_cells().len() == self.columns by {
                assert(g2.inner@[q].view_cells().len() == self.columns);
                assert(g3.inner@[q].view_cells().len() == self.columns);
                if end < lines && count > 0 {
                    let w = g3.woff(q, from4 as int);
                    if w < width {
                        lemma_mod_bound(from4 + (w + width - count) % (width as int) + g3.zero, nn as int);
                    }
                }
            }
        }
    }

    fn scroll_up_top(&mut self, end: usize, count: usize)
        requires
            old(self).wf(),
            0 < end <= old(self).lines_spec(),
            count <= end,
        ensures
            final(self).wf(),
            final(self).lines_spec() == old(self).lines_spec(),
            final(self).columns_spec() == old(self).columns_spec(),
            final(self).max_scroll_spec() == old(self).max_scroll_spec(),
            final(self).display_offset_spec() == old(self).display_offset_spec(),
            final(self).cursor == old(self).cursor,
            final(self).saved_cursor == old(self).saved_cursor,
            ({
                let n = count as int;
                let t = old(self).cursor.template;
                let grow = scroll_growth(n, old(self).max_scroll_spec() as int, old(self).history());
                let e = end as int;
                &&& final(self).history() == old(self).history() + grow
                &&& final(self).storage().len == old(self).storage().len + grow
                &&& forall|i: int|
                    0 <= i < final(self).history() ==> #[trigger] final(self).raw_row_view(i) == old(self).raw_row_view(
                        i + n - grow,
                    )
                &&& forall|l: int|
                    0 <= l < old(self).lines_spec() ==> #[trigger] final(self).line_view(l) == if l < e - n {
                        old(self).line_view(l + n)
                    } else if l < e {
                        reset_view(final(self).line_view(l), t)
                    } else {
                        old(self).line_view(l)
                    }
            }),
    {
        let ghost before = *self;
        let grow = self.push_into_history(count);
        let ghost mid = *self;
        self.blank_above_fixed(end, count);
        proof {
            assert forall|i: int| 0 <= i < self.history() implies #[trigger] self.raw_row_view(i) == before.raw_row_view(
                i + count - grow,
            ) by {
                assert(self.raw.row_at(i) == mid.raw.row_at(i));
                assert(mid.raw.row_at(i) == before.raw.row_at(i + count - grow));
            }
            assert forall|l: int| 0 <= l < before.lines_spec() implies #[trigger] self.line_view(l) == if l < end - count {
                before.line_view(l + count)
            } else if l < end {
                reset_view(self.line_view(l), before.cursor.template)
            } else {
                before.line_view(l)
            } by {
                if l < end - count {
                    assert(self.line_view(l) == mid.line_view(l));
                    assert(mid.raw.row_at(mid.history() + l) == before.raw.row_at(mid.history() + l + count - grow));
                } else if l < end {
                } else {
                    assert(self.line_view(l) == mid.line_view(l - count));
                    assert(mid.raw.row_at(mid.history() + l - count) == before.raw.row_at(mid.history() + l - grow));
                }
            }
        }
    }

    fn scroll_up_region(&mut self, start: usize, end: usize, count: usize)
        requires
            old(self).wf(),
            0 < start < end <= old(self).lines_spec(),
            count <= end - start,
        ensures
            final(self).wf(),
            final(self).lines_spec() == old(self).lines_spec(),
            final(self).columns_spec() == old(self).columns_spec(),
            final(self).max_scroll_spec() == old(self).max_scroll_spec(),
            final(self).display_offset_spec() == old(self).display_offset_spec(),
            final(self).cursor == old(self).cursor,
            final(self).saved_cursor == old(self).saved_cursor,
            ({
                let n = count as int;
                let t = old(self).cursor.template;
                let w = end - start;
                &&& final(self).storage().len == old(self).storage().len
                &&& final(self).storage().zero == old(self).storage().zero
                &&& forall|l: int|
                    0 <= l < old(self).lines_spec() ==> #[trigger] final(self).line_view(l) == if start <= l < end {
                        let src = old(self).line_view(start + (l - start + n) % w);
                        if l >= end - n { reset_view(src, t) } else { src }
                    } else {
                        old(self).line_view(l)
                    }
            }),
    {
        proof {
            self.lemma_wf();
        }
        let ghost before = *self;
        let template = self.cursor.template.duplicate();
        let width = end - start;
            let hist = self.raw.len - self.lines;
            let from = hist + start;
            self.raw.rotate_window_up_n(from, width, count);
            let ghost rotated = *self;
            proof {
                assert forall|i: int| 0 <= i < self.raw.inner@.len() implies (#[trigger] self.raw.inner@[i]).view_cells().len() == self.columns by {
                    let w = before.raw.woff(i, from as int);
                    if w < width {
                        lemma_mod_bound(from + (w + count) % (width as int) + before.raw.zero, before.raw.inner@.len() as int);
                    }
                }
                assert(self.wf());
            }
            self.raw.reset_window(hist + end - count, count, &template);
            proof {
                assert forall|l: int| 0 <= l < before.lines_spec() implies #[trigger] self.line_view(l) == if start <= l < end {
                    let src = before.line_view(start + (l - start + count) % (width as int));
                    if l >= end - count { reset_view(src, before.cursor.template) } else { src }
                } else {
                    before.line_view(l)
                } by {
                    rotated.lemma_reset_window_view(self.raw, end - count, count as int, l);
                    lemma_mod_bound(before.raw.zero + hist + l, before.raw.inner@.len() as int);
                    let p = before.raw.phys(hist + l);
                    if start <= l < end {
                        before.raw.lemma_woff_phys(from as int, l - start);
                        assert(hist + l == from + (l - start));
                        if l >= end - count {
                            assert(self.line_view(l) =~= reset_view(before.line_view(start + (l - start + count) % (width as int)), before.cursor.template));
                        }
                    } else {
                        before.raw.lemma_woff_shift(hist as int, l, start as int);
                        if l < start {
                            vstd::arithmetic::div_mod::lemma_mod_add_multiples_vanish(l - start, before.raw.inner@.len() as int);
                            lemma_small_mod((before.raw.inner@.len() + l - start) as nat, before.raw.inner@.len());
                        } else {
                            lemma_small_mod((l - start) as nat, before.raw.inner@.len());
                        }
                    }
                }
            }
    }

    /// Caps the logical length at the viewport plus the scrollback limit.
    fn enforce_scroll_limit(&mut self)
        requires
            old(self).raw.len >= old(self).lines,
        ensures
            *final(self) == (Grid {
                raw: Storage {
                    len: if old(self).raw.len > old(self).lines + old(self).max_scroll_limit {
                        (old(self).lines + old(self).max_scroll_limit) as usize
                    } else {
                        old(self).raw.len
                    },
                    ..old(self).raw
                },
                ..*old(self)
            }),
    {
        if self.raw.len - self.lines > self.max_scroll_limit {
            self.raw.len = self.lines + self.max_scroll_limit;
        }
    }
}

/// The grid `new` is `old` after `scroll_up(region, count)`.
pub open spec fn scrolled_up(new: Grid, old: Grid, region: Range<usize>, count: usize) -> bool {
    &&& new.lines_spec() == old.lines_spec()
    &&& new.columns_spec() == old.columns_spec()
    &&& new.max_scroll_spec() == old.max_scroll_spec()
    &&& new.display_offset_spec() == old.display_offset_spec()
    &&& new.cursor == old.cursor
    &&& new.saved_cursor == old.saved_cursor
    &&& region.end <= region.start ==> new == old
    &&& region.start < region.end ==> {
            let n = if count < region.end - region.start { count as int } else { region.end - region.start };
            let t = old.cursor.template;
            if region.start == 0 {
                let grow = scroll_growth(n, old.max_scroll_spec() as int, old.history());
                let e = region.end as int;
                &&& new.history() == old.history() + grow
                &&& new.storage().len == old.storage().len + grow
                &&& forall|i: int|
                    0 <= i < new.history() ==> #[trigger] new.raw_row_view(i) == old.raw_row_view(i + n - grow)
                &&& forall|l: int|
                    0 <= l < old.lines_spec() ==> #[trigger] new.line_view(l) == if l < e - n {
                        old.line_view(l + n)
                    } else if l < e {
                        reset_view(new.line_view(l), t)
                    } else {
                        old.line_view(l)
                    }
            } else {
                let w = region.end - region.start;
                &&& new.storage().len == old.storage().len
                &&& new.storage().zero == old.storage().zero
                &&& forall|l: int|
                    0 <= l < old.lines_spec() ==> #[trigger] new.line_view(l) == if region.start <= l < region.end {
                        let src = old.line_view(region.start + (l - region.start + n) % w);
                        if l >= region.end - n { reset_view(src, t) } else { src }
                    } else {
                        old.line_view(l)
                    }
            }
        }
}

/// The grid `new` is `old` after `scroll_down(region, count)`.
pub open spec fn scrolled_down(new: Grid, old: Grid, region: Range<usize>, count: usize) -> bool {
    &&& new.lines_spec() == old.lines_spec()
    &&& new.columns_spec() == old.columns_spec()
    &&& new.max_scroll_spec() == old.max_scroll_spec()
    &&& new.display_offset_spec() == old.display_offset_spec()
    &&& new.cursor == old.cursor
    &&& new.saved_cursor == old.saved_cursor
    &&& new.storage().len == old.storage().len
    &&& new.storage().zero == old.storage().zero
    &&& region.end <= region.start ==> new == old
    &&& region.start < region.end ==> {
            let w = region.end - region.start;
            let n = if count < w { count as int } else { w };
            let t = old.cursor.template;
            forall|l: int|
                0 <= l < old.lines_spec() ==> #[trigger] new.line_view(l) == if region.start <= l < region.end {
                    let src = old.line_view(region.start + (l - region.start + w - n) % w);
                    if l < region.start + n { reset_view(src, t) } else { src }
                } else {
                    old.line_view(l)
                }
        }
}

/// How many history rows a full-region scroll of `n` lines adds, given the
/// scrollback `limit` and the current history size.
pub open spec fn scroll_growth(n: int, limit: int, history: int) -> int {
    let additions = if n < limit { n } else { limit };
    let room = if limit > history { limit - history } else { 0 };
    if additions < room { additions } else { room }
}


impl Grid {
    /// Scrolls the buffer down by `count` lines inside the viewport rows
    /// `region`: rows move down, rows pushed past the bottom are dropped and
    /// the top `count` rows of the region are blanked with the cursor
    /// template.
    pub fn scroll_down(&mut self, region: Range<usize>, count: usize)
        requires
            old(self).wf(),
            region.end <= old(self).lines_spec(),
        ensures
            final(self).wf(),
            scrolled_down(*final(self), *old(self), region, count),
    {
        if region.end <= region.start {
            return;
        }
        let start = region.start;
        let end = region.end;
        proof {
            self.lemma_wf();
        }
        let width = end - start;
        let count = if count < width { count } else { width };
        let ghost before = *self;
        let template = self.cursor.template.duplicate();
        let hist = self.raw.len - self.lines;
        let from = hist + start;
        self.raw.rotate_window_down_n(from, width, count);
        let ghost rotated = *self;
        proof {
            assert forall|i: int| 0 <= i < self.raw.inner@.len() implies (#[trigger] self.raw.inner@[i]).view_cells().len() == self.columns by {
                let w = before.raw.woff(i, from as int);
                if w < width {
                    lemma_mod_bound(from + (w + width - count) % (width as int) + before.raw.zero, before.raw.inner@.len() as int);
                }
            }
            assert(self.wf());
        }
        self.raw.reset_window(from, count, &template);
        proof {
            assert forall|l: int| 0 <= l < before.lines_spec() implies #[trigger] self.line_view(l) == if start <= l < end {
                let src = before.line_view(start + (l - start + width - count) % (width as int));
                if l < start + count { reset_view(src, before.cursor.template) } else { src }
            } else {
                before.line_view(l)
            } by {
                rotated.lemma_reset_window_view(self.raw, start as int, count as int, l);
                lemma_mod_bound(before.raw.zero + hist + l, before.raw.inner@.len() as int);
                if start <= l < end {
                    before.raw.lemma_woff_phys(from as int, l - start);
                    assert(hist + l == from + (l - start));
                    if l < start + count {
                        assert(self.line_view(l) =~= reset_view(before.line_view(start + (l - start + width - count) % (width as int)), before.cursor.template));
                    }
                } else {
                    before.raw.lemma_woff_shift(hist as int, l, start as int);
                    if l < start {
                        vstd::arithmetic::div_mod::lemma_mod_add_multiples_vanish(l - start, before.raw.inner@.len() as int);
                        lemma_small_mod((before.raw.inner@.len() + l - start) as nat, before.raw.inner@.len());
                    } else {
                        lemma_small_mod((l - start) as nat, before.raw.inner@.len());
                    }
                }
            }
        }
    }
}


/// `line` clamped to the last row of a viewport of `lines` rows.
pub open spec fn clamp_line(line: i32, lines: nat) -> i32 {
    let lines_i32: int = if lines > i32::MAX { i32::MAX as int } else { lines as int };
    let max_line: int = if lines_i32 - 1 < 0 { 0 } else { lines_i32 - 1 };
    if line < max_line { line } else { max_line as i32 }
}

/// `col` clamped to the last column of a viewport of `columns` columns.
pub open spec fn clamp_col(col: usize, columns: nat) -> usize {
    let max_col: int = if columns == 0 { 0 } else { columns - 1 };
    if col < max_col { col } else { max_col as usize }
}

/// Row `v` padded with blank cells to `c` cells when narrower.
pub open spec fn grow_to(v: Seq<Cell>, c: nat) -> Seq<Cell> {
    if c > v.len() { v + blank_cells((c - v.len()) as nat) } else { v }
}

/// Row `v` cut to `c` cells when wider.
pub open spec fn shrink_to(v: Seq<Cell>, c: nat) -> Seq<Cell> {
    if v.len() > c { v.take(c as int) } else { v }
}

/// Row `v` after the grid's width changed from `old_cols` to `new_cols`.
pub open spec fn width_changed(v: Seq<Cell>, old_cols: nat, new_cols: nat) -> Seq<Cell> {
    if new_cols > old_cols { grow_to(v, new_cols) } else if new_cols < old_cols { shrink_to(v, new_cols) } else { v }
}

/// The grid `new` is `old` after `resize(new_lines, new_columns)`.
pub open spec fn resized(new: Grid, old: Grid, new_lines: usize, new_columns: usize) -> bool {
    &&& new.lines_spec() == new_lines
    &&& new.columns_spec() == new_columns
    &&& new.max_scroll_spec() == old.max_scroll_spec()
    &&& new.cursor.point.line.0 == clamp_line(old.cursor.point.line.0, new_lines as nat)
    &&& new.cursor.point.column.0 == clamp_col(old.cursor.point.column.0, new_columns as nat)
    &&& new.cursor.input_needs_wrap == false
    &&& new.cursor.template == old.cursor.template
    &&& new.saved_cursor.point.line.0 == clamp_line(old.saved_cursor.point.line.0, new_lines as nat)
    &&& new.saved_cursor.point.column.0 == clamp_col(old.saved_cursor.point.column.0, new_columns as nat)
    &&& new.saved_cursor.input_needs_wrap == false
    &&& new.saved_cursor.template == old.saved_cursor.template
    &&& new.history() == (if old.history() < MAX_CACHE_SIZE { old.history() } else { MAX_CACHE_SIZE as int })
    &&& new.display_offset_spec() <= new.history()
    &&& new.display_offset_spec() == (if old.display_offset_spec() < new.history() {
            old.display_offset_spec() as int
        } else {
            new.history()
        })
    &&& forall|i: int| 0 <= i < new.history() ==> #[trigger] new.raw_row_view(i) == width_changed(
        old.raw_row_view(i),
        old.columns_spec(),
        new_columns as nat,
    )
    &&& forall|l: int| 0 <= l < new_lines ==> #[trigger] new.line_view(l) == if new.history() + l < old.storage().len {
        width_changed(old.raw_row_view(new.history() + l), old.columns_spec(), new_columns as nat)
    } else {
        template_cells(new_columns as nat, old.cursor.template)
    }
}

impl Grid {
    /// Grows every physical row to at least `new_columns` cells.
    fn grow_all_rows(&mut self, new_columns: usize)
        requires
            old(self).raw.wf(),
            old(self).raw.rows_exactly(old(self).columns as nat),
            new_columns >= old(self).columns,
        ensures
            final(self).raw.wf(),
            final(self).raw.zero == old(self).raw.zero,
            final(self).raw.len == old(self).raw.len,
            final(self).raw.visible_lines == old(self).raw.visible_lines,
            final(self).raw.inner@.len() == old(self).raw.inner@.len(),
            final(self).raw.rows_exactly(new_columns as nat),
            forall|q: int| 0 <= q < old(self).raw.inner@.len() ==> #[trigger] final(self).raw.inner@[q].view_cells() == grow_to(
                old(self).raw.inner@[q].view_cells(),
                new_columns as nat,
            ),
            final(self).cursor == old(self).cursor,
            final(self).saved_cursor == old(self).saved_cursor,
            final(self).lines == old(self).lines,
            final(self).columns == old(self).columns,
            final(self).display_offset == old(self).display_offset,
            final(self).max_scroll_limit == old(self).max_scroll_limit,
    {
        let n = self.raw.inner.len();
        let mut p: usize = 0;
        while p < n
            invariant
                self.raw.wf(),
                self.raw.zero == old(self).raw.zero,
                self.raw.len == old(self).raw.len,
                self.raw.visible_lines == old(self).raw.visible_lines,
                self.raw.inner@.len() == n,
                n == old(self).raw.inner@.len(),
                p <= n,
                old(self).raw.rows_exactly(old(self).columns as nat),
                new_columns >= old(self).columns,
                forall|q: int| 0 <= q < p ==> (#[trigger] self.raw.inner@[q]).view_cells().len() == new_columns,
                forall|q: int| 0 <= q < p ==> #[trigger] self.raw.inner@[q].view_cells() == grow_to(
                    old(self).raw.inner@[q].view_cells(),
                    new_columns as nat,
                ),
                forall|q: int| p <= q < n ==> #[trigger] self.raw.inner@[q] == old(self).raw.inner@[q],
                self.cursor == old(self).cursor,
                self.saved_cursor == old(self).saved_cursor,
                self.lines == old(self).lines,
                self.columns == old(self).columns,
                self.display_offset == old(self).display_offset,
                self.max_scroll_limit == old(self).max_scroll_limit,
            decreases n - p,
        {
            let ghost before = self.raw.inner@;
            let mut row = self.raw.take_row_at(p);
            row.grow(new_columns);
            self.raw.inner.set(p, row);
            proof {
                assert forall|q: int| 0 <= q < self.raw.inner@.len() implies (#[trigger] self.raw.inner@[q]).wf() by {
                    if q != p {
                        assert(self.raw.inner@[q] == before[q]);
                    }
                }
                assert forall|q: int| 0 <= q < p + 1 implies (#[trigger] self.raw.inner@[q]).view_cells().len() == new_columns by {
                    if q != p {
                        assert(self.raw.inner@[q] == before[q]);
                    } else {
                        assert(old(self).raw.inner@[q].view_cells().len() == old(self).columns);
                    }
                }
                assert forall|q: int| 0 <= q < p + 1 implies #[trigger] self.raw.inner@[q].view_cells() == grow_to(
                    old(self).raw.inner@[q].view_cells(),
                    new_columns as nat,
                ) by {
                    if q != p {
                        assert(self.raw.inner@[q] == before[q]);
                    }
                }
                assert forall|q: int| p + 1 <= q < n implies #[trigger] self.raw.inner@[q] == old(self).raw.inner@[q] by {
                    assert(self.raw.inner@[q] == before[q]);
                }
            }
            p = p + 1;
        }
    }

    /// Cuts every physical row to `new_columns` cells.
    fn shrink_all_rows(&mut self, new_columns: usize)
        requires
            old(self).raw.wf(),
            old(self).raw.rows_exactly(old(self).columns as nat),
            new_columns <= old(self).columns,
        ensures
            final(self).raw.wf(),
            final(self).raw.zero == old(self).raw.zero,
            final(self).raw.len == old(self).raw.len,
            final(self).raw.visible_lines == old(self).raw.visible_lines,
            final(self).raw.inner@.len() == old(self).raw.inner@.len(),
            final(self).raw.rows_exactly(new_columns as nat),
            forall|q: int| 0 <= q < old(self).raw.inner@.len() ==> #[trigger] final(self).raw.inner@[q].view_cells() == shrink_to(
                old(self).raw.inner@[q].view_cells(),
                new_columns as nat,
            ),
            final(self).cursor == old(self).cursor,
            final(self).saved_cursor == old(self).saved_cursor,
            final(self).lines == old(self).lines,
            final(self).columns == old(self).columns,
            final(self).display_offset == old(self).display_offset,
            final(self).max_scroll_limit == old(self).max_scroll_limit,
    {
        let n = self.raw.inner.len();
        let mut p: usize = 0;
        while p < n
            invariant
                self.raw.wf(),
                self.raw.zero == old(self).raw.zero,
                self.raw.len == old(self).raw.len,
                self.raw.visible_lines == old(self).raw.visible_lines,
                self.raw.inner@.len() == n,
                n == old(self).raw.inner@.len(),
                p <= n,
                old(self).raw.rows_exactly(old(self).columns as nat),
                new_columns <= old(self).columns,
                forall|q: int| 0 <= q < p ==> (#[trigger] self.raw.inner@[q]).view_cells().len() == new_columns,
                forall|q: int| 0 <= q < p ==> #[trigger] self.raw.inner@[q].view_cells() == shrink_to(
                    old(self).raw.inner@[q].view_cells(),
                    new_columns as nat,
                ),
                forall|q: int| p <= q < n ==> #[trigger] self.raw.inner@[q] == old(self).raw.inner@[q],
                self.cursor == old(self).cursor,
                self.saved_cursor == old(self).saved_cursor,
                self.lines == old(self).lines,
                self.columns == old(self).columns,
                self.display_offset == old(self).display_offset,
                self.max_scroll_limit == old(self).max_scroll_limit,
            decreases n - p,
        {
            let ghost before = self.raw.inner@;
            let mut row = self.raw.take_row_at(p);
            let _excess = row.shrink(new_columns);
            self.raw.inner.set(p, row);
            proof {
                assert(before[p as int] == old(self).raw.inner@[p as int]);
                assert(old(self).raw.inner@[p as int].view_cells().len() == old(self).columns);
                assert forall|q: int| 0 <= q < self.raw.inner@.len() implies (#[trigger] self.raw.inner@[q]).wf() by {
                    if q != p {
                        assert(self.raw.inner@[q] == before[q]);
                    }
                }
                assert forall|q: int| 0 <= q < p + 1 implies (#[trigger] self.raw.inner@[q]).view_cells().len() == new_columns by {
                    if q != p {
                        assert(self.raw.inner@[q] == before[q]);
                    }
                }
                assert forall|q: int| 0 <= q < p + 1 implies #[trigger] self.raw.inner@[q].view_cells() == shrink_to(
                    old(self).raw.inner@[q].view_cells(),
                    new_columns as nat,
                ) by {
                    if q != p {
                        assert(self.raw.inner@[q] == before[q]);
                    }
                }
                assert forall|q: int| p + 1 <= q < n implies #[trigger] self.raw.inner@[q] == old(self).raw.inner@[q] by {
                    assert(self.raw.inner@[q] == before[q]);
                }
            }
            p = p + 1;
        }
    }

    /// Resizes the viewport to `new_lines` rows and `new_columns` columns.
    ///
    /// Rows keep their content (cut or blank-extended to the new width), the
    /// viewport grows (with fresh rows carrying the cursor template's
    /// colours) or shrinks at the bottom, both cursors are clamped
    /// inside the new bounds with any pending wrap cleared, and storage past
    /// `lines + MAX_CACHE_SIZE` rows is released: the first rows are the ones
    /// kept, so at most `MAX_CACHE_SIZE` history rows remain. The display
    /// offset is clamped to the history left.
    pub fn resize(&mut self, new_lines: usize, new_columns: usize)
        requires
            old(self).wf(),
            new_lines >= 1,
            new_lines + old(self).max_scroll_spec() + MAX_CACHE_SIZE + 1 <= usize::MAX,
        ensures
            final(self).wf(),
            resized(*final(self), *old(self), new_lines, new_columns),
    {
        proof {
            self.lemma_wf();
        }
        let ghost g0 = *self;
        self.resize_columns(new_columns);
        let ghost g1 = *self;
        self.resize_lines(new_lines);
        let ghost g2 = *self;
        let lines_i32: i32 = if self.lines > i32::MAX as usize { i32::MAX } else { self.lines as i32 };
        let max_line: i32 = if lines_i32 - 1 < 0 { 0 } else { lines_i32 - 1 };
        let max_col = self.columns.saturating_sub(1);
        self.cursor.point.line = Line(if self.cursor.point.line.0 < max_line { self.cursor.point.line.0 } else { max_line });
        self.cursor.point.column = Column(if self.cursor.point.column.0 < max_col { self.cursor.point.column.0 } else { max_col });
        self.cursor.input_needs_wrap = false;
        self.saved_cursor.point.line = Line(if self.saved_cursor.point.line.0 < max_line { self.saved_cursor.point.line.0 } else { max_line });
        self.saved_cursor.point.column = Column(if self.saved_cursor.point.column.0 < max_col { self.saved_cursor.point.column.0 } else { max_col });
        self.saved_cursor.input_needs_wrap = false;
        let hist = self.raw.len - self.lines;
        if self.display_offset > hist {
            self.display_offset = hist;
        }
        let ghost g3 = *self;
        self.truncate_storage();
        proof {
            assert(g3.raw == g2.raw);
            assert forall|i: int| 0 <= i < self.history() implies #[trigger] self.raw_row_view(i) == width_changed(
                g0.raw_row_view(i),
                g0.columns_spec(),
                new_columns as nat,
            ) by {
                assert(self.raw.row_at(i) == g2.raw.row_at(i));
                assert(g2.raw.row_at(i) == g1.raw.row_at(i));
            }
            assert forall|l: int| 0 <= l < new_lines implies #[trigger] self.line_view(l) == if self.history() + l < g0.raw.len {
                width_changed(g0.raw_row_view(self.history() + l), g0.columns_spec(), new_columns as nat)
            } else {
                template_cells(new_columns as nat, g0.cursor.template)
            } by {
                let k = self.history() + l;
                assert(self.raw.row_at(k) == g2.raw.row_at(k));
                if k < g0.raw.len {
                    assert(g2.raw.row_at(k) == g1.raw.row_at(k));
                } else {
                    let j = k - g1.raw.len;
                    assert(g2.raw.row_at(g1.raw.len + j).view_cells() == template_cells(g1.columns as nat, g1.cursor.template));
                }
            }
        }
    }
}


impl Grid {
    fn resize_columns(&mut self, new_columns: usize)
        requires
            old(self).wf(),
        ensures
            final(self).wf(),
            final(self).columns_spec() == new_columns,
            final(self).lines == old(self).lines,
            final(self).raw.len == old(self).raw.len,
            final(self).history() == old(self).history(),
            final(self).raw.zero == old(self).raw.zero,
            final(self).raw.inner@.len() == old(self).raw.inner@.len(),
            forall|i: int| 0 <= i < old(self).raw.len ==> #[trigger] final(self).raw.row_at(i).view_cells() == width_changed(
                old(self).raw.row_at(i).view_cells(),
                old(self).columns as nat,
                new_columns as nat,
            ),
            final(self).cursor == old(self).cursor,
            final(self).saved_cursor == old(self).saved_cursor,
            final(self).display_offset == old(self).display_offset,
            final(self).max_scroll_limit == old(self).max_scroll_limit,
    {
        let ghost before = self.raw;
        if new_columns > self.columns {
            self.grow_all_rows(new_columns);
            proof {
                assert forall|i: int| 0 <= i < before.len implies #[trigger] self.raw.row_at(i).view_cells() == width_changed(
                    before.row_at(i).view_cells(),
                    old(self).columns as nat,
                    new_columns as nat,
                ) by {
                    lemma_mod_bound(before.zero + i, before.inner@.len() as int);
                }
            }
        } else if new_columns < self.columns {
            self.shrink_all_rows(new_columns);
            proof {
                assert forall|i: int| 0 <= i < before.len implies #[trigger] self.raw.row_at(i).view_cells() == width_changed(
                    before.row_at(i).view_cells(),
                    old(self).columns as nat,
                    new_columns as nat,
                ) by {
                    lemma_mod_bound(before.zero + i, before.inner@.len() as int);
                }
            }
        }
        self.columns = new_columns;
    }

    fn resize_lines(&mut self, new_lines: usize)
        requires
            old(self).wf(),
            new_lines >= 1,
            new_lines + old(self).max_scroll_spec() + MAX_CACHE_SIZE + 1 <= usize::MAX,
        ensures
            final(self).wf(),
            final(self).lines == new_lines,
            final(self).history() == old(self).history(),
            final(self).columns == old(self).columns,
            new_lines <= old(self).lines ==> forall|i: int| 0 <= i < final(self).raw.len ==> #[trigger] final(self).raw.row_at(i)
                == old(self).raw.row_at(i),
            new_lines > old(self).lines ==> {
                &&& forall|i: int| 0 <= i < old(self).raw.len ==> #[trigger] final(self).raw.row_at(i) == old(self).raw.row_at(i)
                &&& forall|j: int| 0 <= j < new_lines - old(self).lines ==> #[trigger] final(self).raw.row_at(
                    old(self).raw.len + j,
                ).view_cells() == template_cells(old(self).columns as nat, old(self).cursor.template)
            },
            final(self).cursor == old(self).cursor,
            final(self).saved_cursor == old(self).saved_cursor,
            final(self).display_offset == old(self).display_offset,
            final(self).max_scroll_limit == old(self).max_scroll_limit,
    {
        let template = self.cursor.template.duplicate();
        if new_lines > self.lines {
            let add = new_lines - self.lines;
            let ghost before = self.raw;
            self.raw.grow_visible(add, self.columns, &template);
            proof {
                assert forall|q: int| 0 <= q < self.raw.inner@.len() implies (#[trigger] self.raw.inner@[q]).view_cells().len() == self.columns by {
                    if q < before.inner@.len() {
                        assert(before.inner@[q].view_cells().len() == self.columns);
                    }
                }
            }
        } else if new_lines < self.lines {
            let remove = self.lines - new_lines;
            self.raw.shrink_visible(remove);
        }
        self.lines = new_lines;
    }

    /// Releases storage past `lines + MAX_CACHE_SIZE` rows, which caps the
    /// history at `MAX_CACHE_SIZE` rows (the oldest rows are the ones kept),
    /// and clamps the display offset to the history left.
    fn truncate_storage(&mut self)
        requires
            old(self).wf(),
        ensures
            final(self).wf(),
            final(self).lines == old(self).lines,
            final(self).columns == old(self).columns,
            final(self).cursor == old(self).cursor,
            final(self).saved_cursor == old(self).saved_cursor,
            final(self).max_scroll_limit == old(self).max_scroll_limit,
            final(self).history() == (if old(self).history() < MAX_CACHE_SIZE {
                old(self).history()
            } else {
                MAX_CACHE_SIZE as int
            }),
            final(self).display_offset_spec() == (if old(self).display_offset_spec() < final(self).history() {
                old(self).display_offset_spec() as int
            } else {
                final(self).history()
            }),
            forall|i: int| 0 <= i < final(self).raw.len ==> #[trigger] final(self).raw.row_at(i) == old(self).raw.row_at(i),
            final(self).raw.visible_lines == old(self).raw.visible_lines,
            old(self).raw.inner@.len() <= old(self).raw.visible_lines + MAX_CACHE_SIZE ==> final(self).raw == old(self).raw,
            old(self).raw.inner@.len() > old(self).raw.visible_lines + MAX_CACHE_SIZE ==> {
                &&& final(self).raw.zero == 0
                &&& final(self).raw.inner@.len() == final(self).raw.len
            },
    {
        proof {
            self.lemma_wf();
        }
        let ghost before_trunc = self.raw;
        self.raw.truncate();
        proof {
            if before_trunc.inner@.len() > before_trunc.visible_lines + MAX_CACHE_SIZE {
                assert forall|i: int| 0 <= i < self.raw.len implies #[trigger] self.raw.row_at(i) == old(self).raw.row_at(i) by {
                    lemma_small_mod(i as nat, self.raw.inner@.len());
                }
            }
            assert forall|q: int| 0 <= q < self.raw.inner@.len() implies (#[trigger] self.raw.inner@[q]).view_cells().len() == self.columns by {
                if before_trunc.inner@.len() > before_trunc.visible_lines + MAX_CACHE_SIZE {
                    assert(self.raw.inner@[q] == before_trunc.row_at(q));
                    lemma_mod_bound(before_trunc.zero + q, before_trunc.inner@.len() as int);
                }
            }
        }
        let hist = self.raw.len - self.lines;
        if self.display_offset > hist {
            self.display_offset = hist;
        }
    }
}


/// Grid dimensions.
pub trait Dimensions {
    /// Rows stored: history and viewport.
    spec fn stored_rows(&self) -> nat;

    /// Viewport rows.
    spec fn viewport_rows(&self) -> nat;

    /// Columns.
    spec fn column_count(&self) -> nat;

    /// Rows stored: history and viewport.
    fn total_lines(&self) -> (r: usize)
        ensures
            r == self.stored_rows(),
    ;

    /// Viewport rows.
    fn screen_lines(&self) -> (r: usize)
        ensures
            r == self.viewport_rows(),
    ;

    /// Columns.
    fn columns(&self) -> (r: usize)
        ensures
            r == self.column_count(),
    ;
}

impl Dimensions for Grid {
    open spec fn stored_rows(&self) -> nat {
        self.storage().len as nat
    }

    open spec fn viewport_rows(&self) -> nat {
        self.lines_spec()
    }

    open spec fn column_count(&self) -> nat {
        self.columns_spec()
    }

    fn total_lines(&self) -> (r: usize) {
        Grid::total_lines(self)
    }

    fn screen_lines(&self) -> (r: usize) {
        Grid::screen_lines(self)
    }

    fn columns(&self) -> (r: usize) {
        Grid::columns(self)
    }
}

/// Scrolling a region down by `count` lines (at most its height `n`) moves
/// each of its lines `n` lines down, drops the lines pushed past its bottom
/// and fills its top `n` lines with blanks in the cursor template; lines
/// outside the region keep their content.
pub proof fn lemma_scroll_down_shifts(new: Grid, old: Grid, region: Range<usize>, count: usize)
    requires
        region.start < region.end <= old.lines_spec(),
        scrolled_down(new, old, region, count),
    ensures
        ({
            let w = region.end - region.start;
            let n = if count < w { count as int } else { w };
            forall|l: int| 0 <= l < old.lines_spec() ==> #[trigger] new.line_view(l) == if l < region.start || l >= region.end {
                old.line_view(l)
            } else if l < region.start + n {
                reset_view(new.line_view(l), old.cursor.template)
            } else {
                old.line_view(l - n)
            }
        }),
{
    let w = region.end - region.start;
    let n = if count < w { count as int } else { w };
    assert forall|l: int| 0 <= l < old.lines_spec() implies #[trigger] new.line_view(l) == if l < region.start || l >= region.end {
        old.line_view(l)
    } else if l < region.start + n {
        reset_view(new.line_view(l), old.cursor.template)
    } else {
        old.line_view(l - n)
    } by {
        if region.start <= l < region.end {
            let k = l - region.start + w - n;
            if l < region.start + n {
                assert(new.line_view(l) =~= reset_view(new.line_view(l), old.cursor.template));
            } else {
                vstd::arithmetic::div_mod::lemma_mod_add_multiples_vanish(l - region.start - n, w as int);
                lemma_small_mod((l - region.start - n) as nat, w as nat);
                assert(k % (w as int) == l - region.start - n);
            }
        }
    }
}

/// Scrolling a region that starts below the top line up by `count` lines (at
/// most its height `n`) moves each of its lines `n` lines up, drops the
/// lines pushed past its top and fills its bottom `n` lines with blanks in
/// the cursor template; lines outside the region keep their content and
/// nothing enters the history.
pub proof fn lemma_scroll_up_region_shifts(new: Grid, old: Grid, region: Range<usize>, count: usize)
    requires
        0 < region.start < region.end <= old.lines_spec(),
        scrolled_up(new, old, region, count),
    ensures
        new.history() == old.history(),
        ({
            let w = region.end - region.start;
            let n = if count < w { count as int } else { w };
            forall|l: int| 0 <= l < old.lines_spec() ==> #[trigger] new.line_view(l) == if l < region.start || l >= region.end {
                old.line_view(l)
            } else if l >= region.end - n {
                reset_view(new.line_view(l), old.cursor.template)
            } else {
                old.line_view(l + n)
            }
        }),
{
    let w = region.end - region.start;
    let n = if count < w { count as int } else { w };
    assert forall|l: int| 0 <= l < old.lines_spec() implies #[trigger] new.line_view(l) == if l < region.start || l >= region.end {
        old.line_view(l)
    } else if l >= region.end - n {
        reset_view(new.line_view(l), old.cursor.template)
    } else {
        old.line_view(l + n)
    } by {
        if region.start <= l < region.end {
            if l >= region.end - n {
                assert(new.line_view(l) =~= reset_view(new.line_view(l), old.cursor.template));
            } else {
                lemma_small_mod((l - region.start + n) as nat, w as nat);
            }
        }
    }
}


} // verus!

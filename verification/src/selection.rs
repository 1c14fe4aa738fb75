//! Text selection: its kinds, which cells it covers, and the text it holds.
use vstd::prelude::*;
use crate::grid::Grid;
use crate::index::{Column, Line, Point, point_le, point_le_exec, viewport_idx_spec};
use crate::text::{trim_end, trim_end_len, chars_to_string};

verus! {

/// Selection kind.
#[derive(Debug, Clone, Copy, PartialEq, Eq, Structural)]
pub enum SelectionType {
    /// Plain drag selection.
    Simple,
    /// Word selection (double click).
    Word,
    /// Line selection (triple click).
    Lines,
}

/// A selection from `start` to `end` (in either order).
#[derive(Debug, Clone)]
pub struct Selection {
    pub ty: SelectionType,
    pub start: Point,
    pub end: Point,
}

/// The two ends of a selection in order.
pub open spec fn ordered(start: Point, end: Point) -> (Point, Point) {
    if point_le(start, end) { (start, end) } else { (end, start) }
}

/// Whether the cell (`col`, `row`) lies in a selection of kind `ty` between
/// the ordered points `s` and `e`.
pub open spec fn covers(ty: SelectionType, s: Point, e: Point, col: int, row: int) -> bool {
    let sr = viewport_idx_spec(s.line.0) as int;
    let er = viewport_idx_spec(e.line.0) as int;
    let sc = s.column.0 as int;
    let ec = e.column.0 as int;
    if ty == SelectionType::Lines {
        sr <= row <= er
    } else if row < sr || row > er {
        false
    } else if sr == er {
        sc <= col <= ec
    } else if row == sr {
        col >= sc
    } else if row == er {
        col <= ec
    } else {
        true
    }
}

impl Selection {
    /// A selection of kind `ty` starting and ending at `point`.
    pub fn new(ty: SelectionType, point: Point) -> (r: Self)
        ensures
            r.ty == ty,
            r.start == point,
            r.end == point,
    {
        Selection { ty, start: point, end: point }
    }

    /// The ends in order: the first is never after the second.
    pub fn normalized(&self) -> (r: (Point, Point))
        ensures
            r == ordered(self.start, self.end),
    {
        if point_le_exec(self.start, self.end) {
            (self.start, self.end)
        } else {
            (self.end, self.start)
        }
    }

    /// Whether the cell at column `col` of viewport row `row` is selected;
    /// a line selection takes whole rows.
    pub fn contains(&self, col: usize, row: usize) -> (r: bool)
        ensures
            r == covers(self.ty, ordered(self.start, self.end).0, ordered(self.start, self.end).1, col as int, row as int),
    {
        let (start, end) = self.normalized();
        let sr = start.line.as_viewport_idx();
        let sc = start.column.0;
        let er = end.line.as_viewport_idx();
        let ec = end.column.0;
        if self.ty == SelectionType::Lines {
            return row >= sr && row <= er;
        }
        if row < sr || row > er {
            return false;
        }
        if sr == er {
            col >= sc && col <= ec
        } else if row == sr {
            col >= sc
        } else if row == er {
            col <= ec
        } else {
            true
        }
    }

    /// The selection as `((start_col, start_row), (end_col, end_row))`; a
    /// line selection spans columns 0 to `grid_cols - 1`.
    pub fn to_tuple(&self, grid_cols: usize) -> (r: ((usize, usize), (usize, usize)))
        ensures
            ({
                let (s, e) = ordered(self.start, self.end);
                let sr = viewport_idx_spec(s.line.0) as usize;
                let er = viewport_idx_spec(e.line.0) as usize;
                r == if self.ty == SelectionType::Lines {
                    ((0usize, sr), ((if grid_cols > 0 { grid_cols - 1 } else { 0 }) as usize, er))
                } else {
                    ((s.column.0, sr), (e.column.0, er))
                }
            }),
    {
        let (s, e) = self.normalized();
        let sr = s.line.as_viewport_idx();
        let er = e.line.as_viewport_idx();
        match self.ty {
            SelectionType::Lines => ((0, sr), (if grid_cols > 0 { grid_cols - 1 } else { 0 }, er)),
            _ => ((s.column.0, sr), (e.column.0, er)),
        }
    }
}

/// The characters of viewport row `row` from column `from` to `to` inclusive.
pub open spec fn row_chars(g: Grid, row: int, from: int, to: int) -> Seq<char> {
    Seq::new(if to >= from { (to - from + 1) as nat } else { 0 }, |i: int| g.cell_at(row, from + i).c)
}

/// The text of rows `row..=last` of the selection `sel` (ends `s`, `e`): each
/// row's span (the whole row for a line selection) with trailing white space
/// trimmed, rows joined by line feeds, and a line feed after the final row of
/// a line selection.
pub open spec fn rows_text(g: Grid, ty: SelectionType, s: Point, e: Point, row: int, last: int) -> Seq<char>
    decreases last + 1 - row,
{
    if row > last {
        Seq::empty()
    } else {
        let sr = viewport_idx_spec(s.line.0) as int;
        let er = viewport_idx_spec(e.line.0) as int;
        let whole = ty == SelectionType::Lines;
        let from = if row == sr && !whole { s.column.0 as int } else { 0 };
        let to = if row == er && !whole { e.column.0 as int } else { g.columns_spec() - 1 };
        let piece = trim_end(row_chars(g, row, from, to));
        let sep = if row != er || ty == SelectionType::Lines { seq!['\n'] } else { Seq::empty() };
        piece + sep + rows_text(g, ty, s, e, row + 1, last)
    }
}

/// The text that `selected_text` gives.
pub open spec fn selection_text(g: Grid, sel: Selection) -> Seq<char> {
    let (s, e) = ordered(sel.start, sel.end);
    let sr = viewport_idx_spec(s.line.0) as int;
    let er = viewport_idx_spec(e.line.0) as int;
    let last = if er < g.lines_spec() { er } else { g.lines_spec() - 1 };
    let t = rows_text(g, sel.ty, s, e, sr, last);
    if sel.ty == SelectionType::Lines && t.len() > 0 && t.last() == '\n' { t.drop_last() } else { t }
}

/// The cells that `selected_text` reads lie inside the columns.
pub open spec fn selection_readable(g: Grid, sel: Selection) -> bool {
    let (s, e) = ordered(sel.start, sel.end);
    let sr = viewport_idx_spec(s.line.0);
    let er = viewport_idx_spec(e.line.0);
    &&& (er < g.lines_spec() && sel.ty != SelectionType::Lines && (sr < er || s.column.0 <= e.column.0)) ==> e.column.0
        < g.columns_spec()
    &&& sr < g.lines_spec() ==> g.columns_spec() >= 1
}

/// Appends the characters of row `row`, columns `from..=to`.
fn push_row_chars(g: &Grid, row: usize, from: usize, to: usize, out: &mut Vec<char>)
    requires
        g.wf(),
        row < g.lines_spec(),
        from <= to ==> to < g.columns_spec(),
        row <= i32::MAX,
    ensures
        final(out)@ == old(out)@ + row_chars(*g, row as int, from as int, to as int),
{
    proof {
        g.lemma_wf();
    }
    if from > to {
        assert(row_chars(*g, row as int, from as int, to as int) =~= Seq::<char>::empty());
        assert(final(out)@ =~= old(out)@ + Seq::<char>::empty());
        return;
    }
    let ghost start = out@;
    let mut col = from;
    while col <= to
        invariant
            g.wf(),
            from <= col <= to + 1,
            to < g.columns_spec(),
            row < g.lines_spec(),
            row <= i32::MAX,
            out@ == start + row_chars(*g, row as int, from as int, col as int - 1),
        decreases to + 1 - col,
    {
        let c = g.cell(Point::new(Line(row as i32), Column(col))).c;
        out.push(c);
        assert(out@ =~= start + row_chars(*g, row as int, from as int, col as int));
        col = col + 1;
    }
}

/// The text of the selection: each row's span (whole rows for a line
/// selection) with trailing white space trimmed, rows joined by line feeds;
/// rows below the viewport are skipped.
pub fn selected_text(grid: &Grid, selection: &Selection) -> (r: String)
    requires
        grid.wf(),
        grid.lines_spec() <= i32::MAX,
        selection_readable(*grid, *selection),
    ensures
        r@ == selection_text(*grid, *selection),
{
    let (start, end) = selection.normalized();
    let sr = start.line.as_viewport_idx();
    let sc = start.column.0;
    let er = end.line.as_viewport_idx();
    let ec = end.column.0;
    let cols = grid.columns();
    let lines = grid.screen_lines();
    proof {
        grid.lemma_wf();
    }
    let last: usize = if er < lines { er } else { lines - 1 };
    let mut result: Vec<char> = Vec::new();
    let mut row = sr;
    if sr > last {
        assert(rows_text(*grid, selection.ty, start, end, sr as int, last as int) =~= Seq::<char>::empty());
        assert(result@ =~= Seq::<char>::empty());
        return chars_to_string(result.as_slice());
    }
    assert(result@ + rows_text(*grid, selection.ty, start, end, row as int, last as int)
        =~= rows_text(*grid, selection.ty, start, end, sr as int, last as int));
    while row <= last
        invariant
            grid.wf(),
            grid.lines_spec() <= i32::MAX,
            last < lines,
            lines == grid.lines_spec(),
            cols == grid.columns_spec(),
            (start, end) == ordered(selection.start, selection.end),
            sr == viewport_idx_spec(start.line.0),
            er == viewport_idx_spec(end.line.0),
            sc == start.column.0,
            ec == end.column.0,
            last == (if er < lines { er as int } else { lines - 1 }),
            selection_readable(*grid, *selection),
            sr <= row,
            row <= last + 1,
            result@ + rows_text(*grid, selection.ty, start, end, row as int, last as int)
                == rows_text(*grid, selection.ty, start, end, sr as int, last as int),
        decreases last + 1 - row,
    {
        let whole = selection.ty == SelectionType::Lines;
        let from = if row == sr && !whole { sc } else { 0 };
        let to = if row == er && !whole { ec } else { cols - 1 };
        let mut line_text: Vec<char> = Vec::new();
        push_row_chars(grid, row, from, to, &mut line_text);
        let keep = trim_end_len(&line_text);
        let mut k: usize = 0;
        let ghost before = result@;
        while k < keep
            invariant
                k <= keep,
                keep <= line_text@.len(),
                result@ == before + line_text@.take(k as int),
            decreases keep - k,
        {
            result.push(line_text[k]);
            k = k + 1;
            assert(result@ =~= before + line_text@.take(k as int));
        }
        if row != er || selection.ty == SelectionType::Lines {
            result.push('\n');
        }
        let ghost piece = trim_end(row_chars(*grid, row as int, from as int, to as int));
        let ghost sep = if row != er || selection.ty == SelectionType::Lines { seq!['\n'] } else { Seq::<char>::empty() };
        assert(result@ =~= before + piece + sep);
        assert(rows_text(*grid, selection.ty, start, end, row as int, last as int)
            == piece + sep + rows_text(*grid, selection.ty, start, end, row + 1, last as int));
        assert(before + rows_text(*grid, selection.ty, start, end, row as int, last as int)
            =~= result@ + rows_text(*grid, selection.ty, start, end, row + 1, last as int));
        row = row + 1;
    }
    assert(result@ =~= rows_text(*grid, selection.ty, start, end, sr as int, last as int));
    if selection.ty == SelectionType::Lines && result.len() > 0 && result[result.len() - 1] == '\n' {
        result.pop();
    }
    chars_to_string(result.as_slice())
}


/// A selection covers the same cells whichever end was its start.
pub proof fn lemma_selection_symmetric(a: Point, b: Point)
    ensures
        ordered(a, b) == ordered(b, a),
{
}

/// The text of a character-wise (simple or word) selection that spans more
/// than one viewport row starts with exactly the cells of its first row from
/// the start column to the last column, trailing white space trimmed, then a
/// line feed: nothing left of the start column is taken.
pub proof fn lemma_selection_first_row(g: Grid, sel: Selection)
    requires
        g.wf(),
        sel.ty != SelectionType::Lines,
        ({
            let (s, e) = ordered(sel.start, sel.end);
            &&& viewport_idx_spec(s.line.0) < viewport_idx_spec(e.line.0)
            &&& viewport_idx_spec(s.line.0) < g.lines_spec()
            &&& s.column.0 < g.columns_spec()
        }),
    ensures
        ({
            let (s, e) = ordered(sel.start, sel.end);
            let sr = viewport_idx_spec(s.line.0) as int;
            let sc = s.column.0 as int;
            let first = trim_end(Seq::new((g.columns_spec() - sc) as nat, |i: int| g.cell_at(sr, sc + i).c));
            let text = selection_text(g, sel);
            &&& text.len() > first.len()
            &&& text.take(first.len() as int + 1) == first.push('\n')
        }),
{
    let (s, e) = ordered(sel.start, sel.end);
    let sr = viewport_idx_spec(s.line.0) as int;
    let er = viewport_idx_spec(e.line.0) as int;
    let sc = s.column.0 as int;
    let last = if er < g.lines_spec() { er } else { g.lines_spec() - 1 };
    let first = trim_end(Seq::new((g.columns_spec() - sc) as nat, |i: int| g.cell_at(sr, sc + i).c));
    assert(row_chars(g, sr, sc, g.columns_spec() - 1) =~= Seq::new((g.columns_spec() - sc) as nat, |i: int| g.cell_at(sr, sc + i).c));
    let rest = rows_text(g, sel.ty, s, e, sr + 1, last);
    assert(rows_text(g, sel.ty, s, e, sr, last) == first + seq!['\n'] + rest);
    let t = first + seq!['\n'] + rest;
    assert(t.take(first.len() as int + 1) =~= first.push('\n'));
}


/// The piece that `rows_text` takes from row `row`, line feed included.
spec fn row_piece(g: Grid, ty: SelectionType, s: Point, e: Point, row: int) -> Seq<char> {
    let sr = viewport_idx_spec(s.line.0) as int;
    let er = viewport_idx_spec(e.line.0) as int;
    let whole = ty == SelectionType::Lines;
    let from = if row == sr && !whole { s.column.0 as int } else { 0 };
    let to = if row == er && !whole { e.column.0 as int } else { g.columns_spec() - 1 };
    let sep = if row != er || whole { seq!['\n'] } else { Seq::empty() };
    trim_end(row_chars(g, row, from, to)) + sep
}

/// The text of rows `row..=last` ends with the piece of row `last`.
proof fn lemma_rows_text_ends_with_last(g: Grid, ty: SelectionType, s: Point, e: Point, row: int, last: int)
    requires
        row <= last,
    ensures
        ({
            let t = rows_text(g, ty, s, e, row, last);
            let tail = row_piece(g, ty, s, e, last);
            t.len() >= tail.len() && t.skip(t.len() - tail.len()) == tail
        }),
    decreases last - row,
{
    let t = rows_text(g, ty, s, e, row, last);
    let tail = row_piece(g, ty, s, e, last);
    if row == last {
        assert(rows_text(g, ty, s, e, row + 1, last) =~= Seq::<char>::empty());
        assert(t =~= tail);
        assert(t.skip(0) =~= t);
    } else {
        lemma_rows_text_ends_with_last(g, ty, s, e, row + 1, last);
        let t1 = rows_text(g, ty, s, e, row + 1, last);
        assert(t == row_piece(g, ty, s, e, row) + t1);
        assert(t.skip(t.len() - tail.len()) =~= t1.skip(t1.len() - tail.len()));
    }
}

/// The text of a character-wise (simple or word) selection whose last row is
/// on screen ends with exactly the cells of that row up to the end column
/// (from column 0 when the selection started on an earlier row, from the
/// start column otherwise), trailing white space trimmed, with no line feed
/// after it: nothing right of the end column is taken.
pub proof fn lemma_selection_last_row(g: Grid, sel: Selection)
    requires
        g.wf(),
        sel.ty != SelectionType::Lines,
        ({
            let (s, e) = ordered(sel.start, sel.end);
            &&& viewport_idx_spec(s.line.0) <= viewport_idx_spec(e.line.0) < g.lines_spec()
            &&& e.column.0 < g.columns_spec()
        }),
    ensures
        ({
            let (s, e) = ordered(sel.start, sel.end);
            let sr = viewport_idx_spec(s.line.0) as int;
            let er = viewport_idx_spec(e.line.0) as int;
            let from = if sr == er { s.column.0 as int } else { 0 };
            let ec = e.column.0 as int;
            let last_row = trim_end(Seq::new(if ec >= from { (ec - from + 1) as nat } else { 0 }, |i: int| g.cell_at(er, from + i).c));
            let text = selection_text(g, sel);
            &&& text.len() >= last_row.len()
            &&& text.skip(text.len() - last_row.len()) == last_row
            &&& sr == er ==> text == last_row
        }),
{
    let (s, e) = ordered(sel.start, sel.end);
    let sr = viewport_idx_spec(s.line.0) as int;
    let er = viewport_idx_spec(e.line.0) as int;
    let from = if sr == er { s.column.0 as int } else { 0 };
    let ec = e.column.0 as int;
    assert(row_chars(g, er, from, ec) =~= Seq::new(if ec >= from { (ec - from + 1) as nat } else { 0 }, |i: int| g.cell_at(er, from + i).c));
    assert(row_piece(g, sel.ty, s, e, er) =~= trim_end(row_chars(g, er, from, ec)));
    lemma_rows_text_ends_with_last(g, sel.ty, s, e, sr, er);
    if sr == er {
        assert(rows_text(g, sel.ty, s, e, sr + 1, er) =~= Seq::<char>::empty());
        assert(rows_text(g, sel.ty, s, e, sr, er) =~= trim_end(row_chars(g, er, from, ec)));
    }
}


/// A line selection spanning more than one viewport row takes whole rows:
/// its text starts with all the cells of its first row, trailing white
/// space trimmed, then a line feed, whatever columns its ends hold.
pub proof fn lemma_line_selection_first_row(g: Grid, sel: Selection)
    requires
        g.wf(),
        sel.ty == SelectionType::Lines,
        ({
            let (s, e) = ordered(sel.start, sel.end);
            &&& viewport_idx_spec(s.line.0) < viewport_idx_spec(e.line.0)
            &&& viewport_idx_spec(s.line.0) + 1 < g.lines_spec()
        }),
    ensures
        ({
            let (s, e) = ordered(sel.start, sel.end);
            let sr = viewport_idx_spec(s.line.0) as int;
            let first = trim_end(Seq::new(g.columns_spec(), |i: int| g.cell_at(sr, i).c));
            let text = selection_text(g, sel);
            &&& text.len() > first.len()
            &&& text.take(first.len() as int + 1) == first.push('\n')
        }),
{
    let (s, e) = ordered(sel.start, sel.end);
    let sr = viewport_idx_spec(s.line.0) as int;
    let er = viewport_idx_spec(e.line.0) as int;
    let last = if er < g.lines_spec() { er } else { g.lines_spec() - 1 };
    let first = trim_end(Seq::new(g.columns_spec(), |i: int| g.cell_at(sr, i).c));
    assert(row_chars(g, sr, 0, g.columns_spec() - 1) =~= Seq::new(g.columns_spec(), |i: int| g.cell_at(sr, i).c));
    let rest = rows_text(g, sel.ty, s, e, sr + 1, last);
    assert(rows_text(g, sel.ty, s, e, sr, last) == first + seq!['\n'] + rest);
    lemma_rows_text_ends_with_last(g, sel.ty, s, e, sr + 1, last);
    let t = first + seq!['\n'] + rest;
    assert(rest.len() >= 1);
    assert(t.len() > first.len() + 1);
    let text = selection_text(g, sel);
    assert(text == t || text == t.drop_last());
    assert(t.take(first.len() as int + 1) =~= first.push('\n'));
    assert(t.drop_last().take(first.len() as int + 1) =~= first.push('\n'));
}


} // verus!

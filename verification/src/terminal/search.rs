//! Case-insensitive substring search over every row of a grid (history and
//! viewport).
use vstd::prelude::*;
use crate::grid::Grid;
use crate::grid::cell::{Cell, CellFlags};
use crate::text::{chars_to_string, str_chars, ascii_lower_seq};

verus! {

/// Largest number of matches one search reports.
pub const MAX_MATCHES: usize = 10000;

/// One match: raw row (0 = oldest history row) and its column span.
#[derive(Debug, Clone, PartialEq, Eq, Structural)]
pub struct SearchMatch {
    pub raw_row: usize,
    /// First column of the match.
    pub start_col: usize,
    /// Column after the match.
    pub end_col: usize,
}

/// Grid text search.
pub struct SearchEngine;

/// What `str::to_lowercase` gives for a text.
pub uninterp spec fn lowercase_chars(s: Seq<char>) -> Seq<char>;

/// `str::to_lowercase`: the text with every character lowered by Unicode's
/// case mapping. Only the ASCII part of that mapping is stated (`A`-`Z` to
/// `a`-`z`, every other ASCII character kept, as the Unicode Character
/// Database that std follows has it); the rest is only named.
#[verifier::external_body]
fn str_to_lowercase(s: &str) -> (r: String)
    ensures
        r@ == lowercase_chars(s@),
        (forall|i: int| 0 <= i < s@.len() ==> (s@[i] as u32) < 128) ==> r@ == ascii_lower_seq(s@),
{
    s.to_lowercase()
}

/// The text of a row: its characters, wide-character spacers skipped.
pub open spec fn row_text(cells: Seq<Cell>) -> Seq<char>
    decreases cells.len(),
{
    if cells.len() == 0 {
        Seq::empty()
    } else {
        let t = row_text(cells.drop_last());
        if cells.last().flags.has(CellFlags::WIDE_CHAR_SPACER) { t } else { t.push(cells.last().c) }
    }
}

/// The column of each character of `row_text(cells)`.
pub open spec fn row_cols(cells: Seq<Cell>) -> Seq<usize>
    decreases cells.len(),
{
    if cells.len() == 0 {
        Seq::empty()
    } else {
        let t = row_cols(cells.drop_last());
        if cells.last().flags.has(CellFlags::WIDE_CHAR_SPACER) { t } else { t.push((cells.len() - 1) as usize) }
    }
}

/// The column of character `i`, or the character count past the end.
pub open spec fn col_of(cols: Seq<usize>, i: int) -> usize {
    if 0 <= i < cols.len() { cols[i] } else { cols.len() as usize }
}

/// `q` occurs in `t` at character `i`.
pub open spec fn occurs_at(t: Seq<char>, q: Seq<char>, i: int) -> bool {
    0 <= i && i + q.len() <= t.len() && t.subrange(i, i + q.len()) == q
}

/// The positions from `i` on where `q` occurs in `t`, ascending
/// (overlapping occurrences included).
pub open spec fn occurrences_from(t: Seq<char>, q: Seq<char>, i: int) -> Seq<int>
    decreases t.len() + 1 - i,
{
    if i < 0 || i + q.len() > t.len() {
        Seq::empty()
    } else if occurs_at(t, q, i) {
        seq![i] + occurrences_from(t, q, i + 1)
    } else {
        occurrences_from(t, q, i + 1)
    }
}

/// The match that an occurrence at character `k` of raw row `r` makes.
pub open spec fn match_at(cols: Seq<usize>, qlen: int, r: usize, k: int) -> SearchMatch {
    SearchMatch { raw_row: r, start_col: col_of(cols, k), end_col: col_of(cols, k + qlen) }
}

/// The matches made by the occurrences `ks` in raw row `r`.
pub open spec fn matches_of(cols: Seq<usize>, qlen: int, r: usize, ks: Seq<int>) -> Seq<SearchMatch> {
    ks.map_values(|k: int| match_at(cols, qlen, r, k))
}

/// The matches of the lowered query `q` in the row `cells` at raw row `r`.
pub open spec fn row_matches(cells: Seq<Cell>, q: Seq<char>, r: usize) -> Seq<SearchMatch> {
    matches_of(row_cols(cells), q.len() as int, r, occurrences_from(lowercase_chars(row_text(cells)), q, 0))
}

/// The matches of `q` in the raw rows from `r` to `count - 1`, in order.
pub open spec fn matches_from(g: Grid, q: Seq<char>, r: int, count: int) -> Seq<SearchMatch>
    decreases count - r,
{
    if r < 0 || r >= count {
        Seq::empty()
    } else {
        row_matches(g.storage().row_at(r).view_cells(), q, r as usize) + matches_from(g, q, r + 1, count)
    }
}

/// The number of rows a search visits.
pub open spec fn searched_rows(g: Grid) -> int {
    if g.storage().len < g.storage().inner@.len() { g.storage().len as int } else { g.storage().inner@.len() as int }
}

/// What `search` reports for `query`: nothing for an empty query, else the
/// first `MAX_MATCHES` matches of the lowered query in raw-row order.
pub open spec fn search_result(g: Grid, query: Seq<char>) -> Seq<SearchMatch> {
    if query.len() == 0 {
        Seq::empty()
    } else {
        let all = matches_from(g, lowercase_chars(query), 0, searched_rows(g));
        if all.len() > MAX_MATCHES { all.take(MAX_MATCHES as int) } else { all }
    }
}

/// The text of `cells` with the column of each character.
pub fn cells_to_text_with_map(cells: &[Cell]) -> (r: (Vec<char>, Vec<usize>))
    ensures
        r.0@ == row_text(cells@),
        r.1@ == row_cols(cells@),
{
    let mut text: Vec<char> = Vec::new();
    let mut cols: Vec<usize> = Vec::new();
    let mut i: usize = 0;
    while i < cells.len()
        invariant
            i <= cells@.len(),
            text@ == row_text(cells@.take(i as int)),
            cols@ == row_cols(cells@.take(i as int)),
        decreases cells@.len() - i,
    {
        assert(cells@.take(i + 1).drop_last() =~= cells@.take(i as int));
        if !cells[i].flags.contains(CellFlags::WIDE_CHAR_SPACER) {
            cols.push(i);
            text.push(cells[i].c);
        }
        i = i + 1;
    }
    assert(cells@.take(cells@.len() as int) =~= cells@);
    (text, cols)
}

/// The column of character `char_idx`, or the character count past the end.
pub fn char_index_to_col(col_map: &Vec<usize>, char_idx: usize) -> (r: usize)
    ensures
        r == col_of(col_map@, char_idx as int),
{
    if char_idx < col_map.len() { col_map[char_idx] } else { col_map.len() }
}

/// Whether `q` occurs in `t` at `i`.
fn occurs_at_exec(t: &Vec<char>, q: &Vec<char>, i: usize) -> (r: bool)
    ensures
        r == occurs_at(t@, q@, i as int),
{
    let tl = t.len();
    if i > tl || q.len() > tl - i {
        return false;
    }
    let mut k: usize = 0;
    while k < q.len()
        invariant
            tl == t@.len(),
            k <= q@.len(),
            i + q@.len() <= t@.len(),
            forall|j: int| 0 <= j < k ==> t@[i + j] == q@[j],
        decreases q@.len() - k,
    {
        assert(i + k < tl);
        if t[i + k] != q[k] {
            assert(t@.subrange(i as int, i + q@.len())[k as int] != q@[k as int]);
            return false;
        }
        k = k + 1;
    }
    assert(t@.subrange(i as int, i + q@.len()) =~= q@);
    true
}

/// Appends the matches of `q` in the lowered row text `lower` (columns
/// `cols`) of raw row `r`, stopping once `results` holds `MAX_MATCHES`.
/// Returns whether it stopped there.
pub fn search_row(lower: &Vec<char>, q: &Vec<char>, cols: &Vec<usize>, r: usize, results: &mut Vec<SearchMatch>) -> (capped: bool)
    requires
        old(results)@.len() < MAX_MATCHES,
        lower@.len() <= isize::MAX,
    ensures
        ({
            let rm = matches_of(cols@, q@.len() as int, r, occurrences_from(lower@, q@, 0));
            if capped {
                &&& final(results)@.len() == MAX_MATCHES
                &&& (old(results)@ + rm).len() >= MAX_MATCHES
                &&& (old(results)@ + rm).take(MAX_MATCHES as int) == final(results)@
            } else {
                &&& final(results)@.len() < MAX_MATCHES
                &&& final(results)@ == old(results)@ + rm
            }
        }),
{
    let ghost occ = occurrences_from(lower@, q@, 0);
    let ghost base = results@;
    let ghost mut done: Seq<int> = Seq::empty();
    assert(occ =~= done + occurrences_from(lower@, q@, 0));
    assert(results@ =~= base + matches_of(cols@, q@.len() as int, r, done));
    if q.len() > lower.len() {
        assert(occurrences_from(lower@, q@, 0) =~= Seq::<int>::empty());
        assert(matches_of(cols@, q@.len() as int, r, occ) =~= Seq::<SearchMatch>::empty());
        assert(results@ =~= base + matches_of(cols@, q@.len() as int, r, occ));
        return false;
    }
    let mut i: usize = 0;
    while i <= lower.len() - q.len()
        invariant
            q@.len() <= lower@.len(),
            i <= lower@.len() - q@.len() + 1,
            lower@.len() <= isize::MAX,
            occ == occurrences_from(lower@, q@, 0),
            base == old(results)@,
            occ == done + occurrences_from(lower@, q@, i as int),
            results@ == base + matches_of(cols@, q@.len() as int, r, done),
            results@.len() < MAX_MATCHES,
        decreases lower@.len() - q@.len() + 1 - i,
    {
        if occurs_at_exec(lower, q, i) {
            let m = SearchMatch {
                raw_row: r,
                start_col: char_index_to_col(cols, i),
                end_col: char_index_to_col(cols, i + q.len()),
            };
            assert(m == match_at(cols@, q@.len() as int, r, i as int));
            let ghost prev_done = done;
            results.push(m);
            proof {
                done = done.push(i as int);
                assert(matches_of(cols@, q@.len() as int, r, done) =~= matches_of(cols@, q@.len() as int, r, prev_done).push(m));
                assert(occ =~= done + occurrences_from(lower@, q@, i + 1));
                assert(results@ =~= base + matches_of(cols@, q@.len() as int, r, done));
            }
            if results.len() >= MAX_MATCHES {
                proof {
                    let rest = occurrences_from(lower@, q@, i + 1);
                    assert(matches_of(cols@, q@.len() as int, r, occ) =~= matches_of(cols@, q@.len() as int, r, done) + matches_of(cols@, q@.len() as int, r, rest));
                    assert((base + matches_of(cols@, q@.len() as int, r, occ)).take(MAX_MATCHES as int) =~= results@);
                }
                return true;
            }
        }
        i = i + 1;
    }
    assert(occurrences_from(lower@, q@, i as int) =~= Seq::<int>::empty());
    assert(occ =~= done);
    false
}

impl SearchEngine {
    /// Every case-insensitive occurrence of `query` in the grid's rows
    /// (history first), overlapping ones included, at most `MAX_MATCHES`.
    pub fn search(grid: &Grid, query: &str) -> (r: Vec<SearchMatch>)
        requires
            grid.wf(),
        ensures
            r@ == search_result(*grid, query@),
    {
        let qchars = str_chars(query);
        if qchars.len() == 0 {
            return Vec::new();
        }
        let q = str_chars(str_to_lowercase(query).as_str());
        let rows = grid.iter_raw_rows();
        let ghost count = searched_rows(*grid);
        let ghost all = matches_from(*grid, q@, 0, count);
        let mut results: Vec<SearchMatch> = Vec::new();
        let mut r: usize = 0;
        while r < rows.len()
            invariant
                rows@.len() == count,
                count == searched_rows(*grid),
                q@ == lowercase_chars(query@),
                query@.len() > 0,
                all == matches_from(*grid, q@, 0, count),
                forall|i: int| 0 <= i < rows@.len() ==> *#[trigger] rows@[i] == grid.storage().row_at(i),
                r <= rows@.len(),
                results@.len() < MAX_MATCHES,
                results@ + matches_from(*grid, q@, r as int, count) == all,
            decreases rows@.len() - r,
        {
            let row = rows[r];
            let (text, cols) = cells_to_text_with_map(row.cells());
            let lower = str_chars(str_to_lowercase(chars_to_string(text.as_slice()).as_str()).as_str());
            let ghost before = results@;
            let ghost rm = row_matches(row.view_cells(), q@, r);
            assert(rm == matches_of(cols@, q@.len() as int, r, occurrences_from(lower@, q@, 0)));
            assert(matches_from(*grid, q@, r as int, count) == rm + matches_from(*grid, q@, r + 1, count));
            let capped = search_row(&lower, &q, &cols, r, &mut results);
            if capped {
                proof {
                    assert(all =~= before + rm + matches_from(*grid, q@, r + 1, count));
                    assert(all.take(MAX_MATCHES as int) =~= (before + rm).take(MAX_MATCHES as int));
                    assert(results@ == (if all.len() > MAX_MATCHES { all.take(MAX_MATCHES as int) } else { all }));
                }
                return results;
            }
            assert(results@ + matches_from(*grid, q@, r + 1, count) =~= all);
            r = r + 1;
        }
        assert(matches_from(*grid, q@, r as int, count) =~= Seq::<SearchMatch>::empty());
        assert(results@ =~= all);
        results
    }

    /// The viewport row at which raw row `raw_row` is displayed, if it is.
    pub fn raw_row_to_viewport(raw_row: usize, history_size: usize, display_offset: usize, screen_lines: usize) -> (r: Option<usize>)
        requires
            (if history_size > display_offset { history_size - display_offset } else { 0 }) + screen_lines <= usize::MAX,
        ensures
            ({
                let view_start: int = if history_size > display_offset { history_size - display_offset } else { 0 };
                r == if view_start <= raw_row < view_start + screen_lines {
                    Some((raw_row - view_start) as usize)
                } else {
                    None
                }
            }),
    {
        let view_start = history_size.saturating_sub(display_offset);
        let view_end = view_start + screen_lines;
        if raw_row >= view_start && raw_row < view_end { Some(raw_row - view_start) } else { None }
    }

    /// The display offset that shows raw row `raw_row` near the middle of
    /// the screen; 0 for a row of the live viewport.
    pub fn display_offset_for_match(raw_row: usize, history_size: usize, screen_lines: usize) -> (r: usize)
        ensures
            r == if raw_row >= history_size {
                0
            } else {
                let view_start: int = if raw_row > screen_lines / 2 { raw_row - screen_lines / 2 } else { 0 };
                (history_size - view_start) as usize
            },
    {
        if raw_row >= history_size {
            return 0;
        }
        let half = screen_lines / 2;
        let view_start = raw_row.saturating_sub(half);
        history_size.saturating_sub(view_start)
    }
}


/// Scrolling to the offset that `display_offset_for_match` gives for a row
/// puts that row on the screen.
pub proof fn lemma_match_becomes_visible(raw_row: usize, history_size: usize, screen_lines: usize)
    requires
        screen_lines >= 1,
        raw_row < history_size + screen_lines,
        history_size + screen_lines <= usize::MAX,
    ensures
        ({
            let d: int = if raw_row >= history_size {
                0
            } else {
                let view_start: int = if raw_row > screen_lines / 2 { raw_row - screen_lines / 2 } else { 0 };
                history_size - view_start
            };
            let view_start: int = if history_size > d { history_size - d } else { 0 };
            view_start <= raw_row < view_start + screen_lines
        }),
{
}

} // verus!

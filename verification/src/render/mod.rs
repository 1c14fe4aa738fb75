//! Rendering logic that needs no GPU: glyph-atlas space allocation, the
//! column-to-glyph map of a shaped line, selection hit tests and background
//! image checks.
pub mod atlas;

use vstd::prelude::*;
use crate::render::atlas::AtlasRegion;
use crate::grid::cell::{Color, NamedColor};
use crate::grid::Grid;
use crate::terminal::search::{cells_to_text_with_map, row_text};
use crate::text::chars_to_string;
use crate::terminal::{char_width, print_width};
use crate::text::{str_chars, utf8_len, char_utf8_len, char_len_utf8};

verus! {

/// A rasterised glyph in the atlas.
#[derive(Debug, Clone, Copy, PartialEq, Eq, Structural)]
pub struct GlyphEntry {
    /// Its rectangle in the atlas.
    pub region: AtlasRegion,
    /// Horizontal offset from the pen position, in pixels.
    pub placement_left: i32,
    /// Vertical offset above the baseline, in pixels.
    pub placement_top: i32,
    /// A colour glyph (emoji) is drawn with its own colours.
    pub is_color: bool,
}

/// One glyph of a shaped line.
#[derive(Debug, Clone)]
pub struct ShapedGlyph {
    /// First column the glyph covers.
    pub start_col: usize,
    /// Number of columns it covers (2 for wide characters, more for ligatures).
    pub num_cells: usize,
    /// The rasterised glyph; `None` for nothing to draw.
    pub entry: Option<GlyphEntry>,
}

/// What a column of a shaped line draws.
#[derive(Debug, Clone, Copy, PartialEq, Eq, Structural)]
pub struct ColGlyphInfo {
    /// The glyph, on its first column only.
    pub entry: Option<GlyphEntry>,
    /// Columns the glyph covers (1 on continuation columns).
    pub num_cells: usize,
    /// The column is the glyph's first.
    pub is_first_cell: bool,
}

/// The column map after the glyphs `shaped[..k]` were laid on `cols` columns:
/// each glyph marks its first column and the following columns it covers,
/// a later glyph overwriting an earlier one.
pub open spec fn col_map_after(shaped: Seq<ShapedGlyph>, cols: nat, k: int) -> Seq<Option<ColGlyphInfo>>
    decreases k,
{
    if k <= 0 {
        Seq::new(cols, |c: int| None)
    } else {
        let m = col_map_after(shaped, cols, k - 1);
        let sg = shaped[k - 1];
        if sg.start_col >= cols {
            m
        } else {
            Seq::new(cols, |c: int|
                if c == sg.start_col {
                    Some(ColGlyphInfo { entry: sg.entry, num_cells: sg.num_cells, is_first_cell: true })
                } else if sg.start_col < c < sg.start_col + sg.num_cells {
                    Some(ColGlyphInfo { entry: None, num_cells: 1, is_first_cell: false })
                } else {
                    m[c]
                })
        }
    }
}

proof fn lemma_col_map_len(shaped: Seq<ShapedGlyph>, cols: nat, k: int)
    ensures
        col_map_after(shaped, cols, k).len() == cols,
    decreases k,
{
    if k > 0 {
        lemma_col_map_len(shaped, cols, k - 1);
    }
}

/// The column map of a shaped line of `cols` columns.
pub fn build_col_glyph_map(shaped: &[ShapedGlyph], cols: usize) -> (r: Vec<Option<ColGlyphInfo>>)
    ensures
        r@ == col_map_after(shaped@, cols as nat, shaped@.len() as int),
{
    let mut map: Vec<Option<ColGlyphInfo>> = Vec::new();
    let mut c: usize = 0;
    while c < cols
        invariant
            c <= cols,
            map@ == Seq::new(c as nat, |i: int| None::<ColGlyphInfo>),
        decreases cols - c,
    {
        map.push(None);
        c = c + 1;
        assert(map@ =~= Seq::new(c as nat, |i: int| None::<ColGlyphInfo>));
    }
    assert(map@ =~= col_map_after(shaped@, cols as nat, 0));
    let mut k: usize = 0;
    while k < shaped.len()
        invariant
            k <= shaped@.len(),
            map@ == col_map_after(shaped@, cols as nat, k as int),
        decreases shaped@.len() - k,
    {
        proof {
            lemma_col_map_len(shaped@, cols as nat, k as int);
        }
        let sg = &shaped[k];
        if sg.start_col < cols {
            let ghost before = map@;
            map.set(sg.start_col, Some(ColGlyphInfo { entry: sg.entry, num_cells: sg.num_cells, is_first_cell: true }));
            let mut off: usize = 1;
            while off < sg.num_cells
                invariant
                    1 <= off,
                    off <= sg.num_cells || off == 1,
                    sg.start_col < cols,
                    map@.len() == cols,
                    before.len() == cols,
                    before == col_map_after(shaped@, cols as nat, k as int),
                    *sg == shaped@[k as int],
                    k < shaped@.len(),
                    forall|i: int| 0 <= i < cols ==> #[trigger] map@[i] == if i == sg.start_col {
                        Some(ColGlyphInfo { entry: sg.entry, num_cells: sg.num_cells, is_first_cell: true })
                    } else if sg.start_col < i < sg.start_col + off {
                        Some(ColGlyphInfo { entry: None, num_cells: 1, is_first_cell: false })
                    } else {
                        before[i]
                    },
                decreases sg.num_cells - off,
            {
                if off < cols - sg.start_col {
                    map.set(sg.start_col + off, Some(ColGlyphInfo { entry: None, num_cells: 1, is_first_cell: false }));
                }
                off = off + 1;
            }
            assert(off == sg.num_cells || (sg.num_cells == 0 && off == 1));
            let ghost target = col_map_after(shaped@, cols as nat, k + 1);
            assert(shaped@[k + 1 - 1] == *sg);
            assert(target == Seq::new(cols as nat, |c: int|
                if c == sg.start_col {
                    Some(ColGlyphInfo { entry: sg.entry, num_cells: sg.num_cells, is_first_cell: true })
                } else if sg.start_col < c < sg.start_col + sg.num_cells {
                    Some(ColGlyphInfo { entry: None, num_cells: 1, is_first_cell: false })
                } else {
                    before[c]
                }));
            assert(map@ =~= target);
        }
        k = k + 1;
    }
    map
}

/// The ends of a selection tuple in (row, column) order.
pub open spec fn selection_ordered(sel: ((usize, usize), (usize, usize))) -> (usize, usize, usize, usize) {
    let ((sc, sr), (ec, er)) = sel;
    if sr < er || (sr == er && sc <= ec) { (sc, sr, ec, er) } else { (ec, er, sc, sr) }
}

/// Whether cell (`col`, `row`) lies in the selection, its ends taken in order:
/// on a one-row selection between the two ends, on the first row from the
/// start on, on the last row up to the end, on the rows between entirely.
pub open spec fn in_selection(col: usize, row: usize, selection: ((usize, usize), (usize, usize))) -> bool {
    let (start_col, start_row, end_col, end_row) = selection_ordered(selection);
    if row < start_row || row > end_row {
        false
    } else if start_row == end_row {
        start_col <= col <= end_col
    } else if row == start_row {
        col >= start_col
    } else if row == end_row {
        col <= end_col
    } else {
        true
    }
}

/// Whether cell (`col`, `row`) lies in the selection
/// `((start_col, start_row), (end_col, end_row))`, its ends taken in order.
pub fn is_in_selection(col: usize, row: usize, selection: ((usize, usize), (usize, usize))) -> (r: bool)
    ensures
        r == in_selection(col, row, selection),
{
    let ((sc, sr), (ec, er)) = selection;
    let (start_col, start_row, end_col, end_row) = if sr < er || (sr == er && sc <= ec) {
        (sc, sr, ec, er)
    } else {
        (ec, er, sc, sr)
    };
    if row < start_row || row > end_row {
        return false;
    }
    if start_row == end_row {
        return col >= start_col && col <= end_col;
    }
    if row == start_row {
        return col >= start_col;
    }
    if row == end_row {
        return col <= end_col;
    }
    true
}

/// Largest background image side, in pixels.
pub const MAX_IMAGE_DIM: u32 = 4096;

/// Checks RGBA8 background image parameters: both sides between 1 and 4096
/// pixels and exactly `4 * width * height` bytes of data. Gives the bytes
/// per row.
pub fn validate_background_image_params(image_data: &[u8], image_width: u32, image_height: u32) -> (r: Option<u32>)
    ensures
        r == if 1 <= image_width <= MAX_IMAGE_DIM && 1 <= image_height <= MAX_IMAGE_DIM
            && image_data@.len() == 4 * image_width * image_height {
            Some((4 * image_width) as u32)
        } else {
            None::<u32>
        },
{
    if image_width == 0 || image_height == 0 || image_width > MAX_IMAGE_DIM || image_height > MAX_IMAGE_DIM {
        return None;
    }
    assert(image_width as int * image_height as int <= 4096 * 4096) by (nonlinear_arith)
        requires
            image_width <= 4096,
            image_height <= 4096,
    ;
    let pixel_count: u64 = image_width as u64 * image_height as u64;
    assert(pixel_count * 4 == 4 * image_width * image_height) by (nonlinear_arith)
        requires
            pixel_count == image_width as int * image_height as int,
    ;
    let expected_len = (pixel_count * 4) as usize;
    if image_data.len() != expected_len {
        return None;
    }
    Some(image_width * 4)
}


/// The columns that the characters `s` take, each as `print_width` counts it.
pub open spec fn columns_of(s: Seq<char>) -> int
    decreases s.len(),
{
    if s.len() == 0 { 0 } else { columns_of(s.drop_last()) + print_width(s.last()) }
}

/// For each UTF-8 byte of `s`, the column where its character starts.
pub open spec fn byte_cols(s: Seq<char>) -> Seq<usize>
    decreases s.len(),
{
    if s.len() == 0 {
        Seq::empty()
    } else {
        byte_cols(s.drop_last()) + Seq::new(char_utf8_len(s.last()), |i: int| columns_of(s.drop_last()) as usize)
    }
}

/// For each UTF-8 byte of `text`, the column where its character starts
/// (wide characters take two columns, control characters one).
pub fn build_byte_to_col_map(text: &str) -> (r: Vec<usize>)
    requires
        3 * text@.len() <= usize::MAX,
    ensures
        r@ == byte_cols(text@),
{
    let chars = str_chars(text);
    let mut map: Vec<usize> = Vec::new();
    let mut col: usize = 0;
    let mut i: usize = 0;
    while i < chars.len()
        invariant
            i <= chars@.len(),
            chars@ == text@,
            3 * text@.len() <= usize::MAX,
            0 <= columns_of(chars@.take(i as int)) <= 3 * i,
            col == columns_of(chars@.take(i as int)),
            map@ == byte_cols(chars@.take(i as int)),
        decreases chars@.len() - i,
    {
        let c = chars[i];
        let w = match char_width(c) {
            Some(w) => w,
            None => 1,
        };
        assert(chars@.take(i + 1).drop_last() =~= chars@.take(i as int));
        assert(chars@.take(i + 1).last() == c);
        let n = char_len_utf8(c);
        let ghost before = map@;
        let mut k: usize = 0;
        while k < n
            invariant
                k <= n,
                n == char_utf8_len(c),
                map@ == before + Seq::new(k as nat, |j: int| col),
            decreases n - k,
        {
            map.push(col);
            k = k + 1;
            assert(map@ =~= before + Seq::new(k as nat, |j: int| col));
        }
        col = col + w;
        i = i + 1;
    }
    assert(chars@.take(chars@.len() as int) =~= chars@);
    map
}

/// The characters of `s` whose first UTF-8 byte lies in `a..b`.
pub open spec fn chars_in_bytes(s: Seq<char>, a: int, b: int) -> Seq<char>
    decreases s.len(),
{
    if s.len() == 0 {
        Seq::empty()
    } else {
        let rest = chars_in_bytes(s.drop_last(), a, b);
        let off = utf8_len(s.drop_last()) as int;
        if a <= off < b { rest.push(s.last()) } else { rest }
    }
}

/// Every character of `s` is a space or a NUL.
pub open spec fn all_blank(s: Seq<char>) -> bool {
    forall|i: int| 0 <= i < s.len() ==> #[trigger] s[i] == ' ' || s[i] == '\0'
}

/// Where a shaped glyph that covers bytes `byte_start..byte_end` of the
/// line text `s` is drawn, given the line's byte-to-column map: `None` for a
/// range that starts past the text or runs backwards; else its first column
/// (the map's entry, its last entry past its end), the cells it spans (the
/// columns of the characters it covers, from 1 to 8; 1 when it covers none)
/// and whether it covers only spaces and NULs (nothing to draw).
pub open spec fn glyph_place(s: Seq<char>, map: Seq<usize>, byte_start: int, byte_end: int) -> Option<(usize, usize, bool)> {
    let n = utf8_len(s) as int;
    if byte_start >= n || byte_end < byte_start {
        None
    } else {
        let e = if byte_end < n { byte_end } else { n };
        let start_col = if byte_start < map.len() { map[byte_start] } else if map.len() > 0 { map.last() } else { 0 };
        let cov = chars_in_bytes(s, byte_start, e);
        let w = columns_of(cov);
        let cells = if cov.len() == 0 || w < 1 { 1 } else if w > 8 { 8 } else { w };
        Some((start_col, cells as usize, all_blank(cov)))
    }
}

/// Where a shaped glyph covering bytes `byte_start..byte_end` of `text` is
/// drawn: its first column, the cells it spans and whether it has nothing
/// to draw; `None` for a byte range that starts past the text or runs
/// backwards.
pub fn glyph_cells(text: &str, byte_to_col: &Vec<usize>, byte_start: usize, byte_end: usize) -> (r: Option<(usize, usize, bool)>)
    requires
        4 * text@.len() <= usize::MAX,
    ensures
        r == glyph_place(text@, byte_to_col@, byte_start as int, byte_end as int),
{
    let chars = str_chars(text);
    let mut off: usize = 0;
    let mut i: usize = 0;
    while i < chars.len()
        invariant
            i <= chars@.len(),
            chars@ == text@,
            4 * text@.len() <= usize::MAX,
            off == utf8_len(chars@.take(i as int)),
            off <= 4 * i,
        decreases chars@.len() - i,
    {
        assert(chars@.take(i + 1).drop_last() =~= chars@.take(i as int));
        off = off + char_len_utf8(chars[i]);
        i = i + 1;
    }
    assert(chars@.take(chars@.len() as int) =~= chars@);
    let n = off;
    if byte_start >= n || byte_end < byte_start {
        return None;
    }
    let e = if byte_end < n { byte_end } else { n };
    let start_col = if byte_start < byte_to_col.len() {
        byte_to_col[byte_start]
    } else if byte_to_col.len() > 0 {
        byte_to_col[byte_to_col.len() - 1]
    } else {
        0
    };
    let ghost map = byte_to_col@;
    let mut count: usize = 0;
    let mut w: usize = 0;
    let mut blank = true;
    let mut pos: usize = 0;
    let mut j: usize = 0;
    while j < chars.len()
        invariant
            j <= chars@.len(),
            chars@ == text@,
            4 * text@.len() <= usize::MAX,
            pos == utf8_len(chars@.take(j as int)),
            pos <= 4 * j,
            count == chars_in_bytes(chars@.take(j as int), byte_start as int, e as int).len(),
            w == columns_of(chars_in_bytes(chars@.take(j as int), byte_start as int, e as int)),
            0 <= w <= 3 * count,
            count <= j,
            blank == all_blank(chars_in_bytes(chars@.take(j as int), byte_start as int, e as int)),
        decreases chars@.len() - j,
    {
        let c = chars[j];
        let ghost pre = chars@.take(j as int);
        let ghost cov0 = chars_in_bytes(pre, byte_start as int, e as int);
        assert(chars@.take(j + 1).drop_last() =~= pre);
        assert(chars@.take(j + 1).last() == c);
        if byte_start <= pos && pos < e {
            let cw = match char_width(c) {
                Some(x) => x,
                None => 1,
            };
            let ghost cov1 = cov0.push(c);
            assert(cov1.drop_last() =~= cov0);
            assert(cov1.last() == c);
            assert(all_blank(cov1) == (all_blank(cov0) && (c == ' ' || c == '\0'))) by {
                if all_blank(cov0) && (c == ' ' || c == '\0') {
                    assert forall|k: int| 0 <= k < cov1.len() implies #[trigger] cov1[k] == ' ' || cov1[k] == '\0' by {
                        if k < cov0.len() {
                            assert(cov1[k] == cov0[k]);
                        }
                    }
                }
                if all_blank(cov1) {
                    assert forall|k: int| 0 <= k < cov0.len() implies #[trigger] cov0[k] == ' ' || cov0[k] == '\0' by {
                        assert(cov1[k] == cov0[k]);
                    }
                    assert(cov1[cov0.len() as int] == c);
                }
            }
            w = w + cw;
            count = count + 1;
            blank = blank && (c == ' ' || c == '\0');
        }
        pos = pos + char_len_utf8(c);
        j = j + 1;
    }
    assert(chars@.take(chars@.len() as int) =~= chars@);
    let cells = if count == 0 || w < 1 { 1 } else if w > 8 { 8 } else { w };
    Some((start_col, cells, blank))
}

/// RGB bytes of a named colour in the renderer's palette (normal and bright
/// variants share a value).
pub open spec fn named_rgb(named: NamedColor) -> (u8, u8, u8) {
    match named {
        NamedColor::Black => (0x45, 0x47, 0x5a),
        NamedColor::Red | NamedColor::BrightRed => (0xf3, 0x8b, 0xa8),
        NamedColor::Green | NamedColor::BrightGreen => (0xa6, 0xe3, 0xa1),
        NamedColor::Yellow | NamedColor::BrightYellow => (0xf9, 0xe2, 0xaf),
        NamedColor::Blue | NamedColor::BrightBlue => (0x89, 0xb4, 0xfa),
        NamedColor::Magenta | NamedColor::BrightMagenta => (0xcb, 0xa6, 0xf7),
        NamedColor::Cyan | NamedColor::BrightCyan => (0x89, 0xdc, 0xeb),
        NamedColor::White => (0xba, 0xc2, 0xde),
        NamedColor::BrightBlack => (0x58, 0x5b, 0x70),
        NamedColor::BrightWhite | NamedColor::Foreground => (0xcd, 0xd6, 0xf4),
        NamedColor::Background => (0x1e, 0x1e, 0x2e),
    }
}

/// The named colour that palette index `idx` (below 16) stands for.
pub open spec fn ansi_named(idx: u8) -> NamedColor {
    if idx == 0 { NamedColor::Black }
    else if idx == 1 { NamedColor::Red }
    else if idx == 2 { NamedColor::Green }
    else if idx == 3 { NamedColor::Yellow }
    else if idx == 4 { NamedColor::Blue }
    else if idx == 5 { NamedColor::Magenta }
    else if idx == 6 { NamedColor::Cyan }
    else if idx == 7 { NamedColor::White }
    else if idx == 8 { NamedColor::BrightBlack }
    else if idx == 9 { NamedColor::BrightRed }
    else if idx == 10 { NamedColor::BrightGreen }
    else if idx == 11 { NamedColor::BrightYellow }
    else if idx == 12 { NamedColor::BrightBlue }
    else if idx == 13 { NamedColor::BrightMagenta }
    else if idx == 14 { NamedColor::BrightCyan }
    else { NamedColor::BrightWhite }
}

/// Intensity of level `n` (0 to 5) of the 6x6x6 colour cube.
pub open spec fn cube_level(n: int) -> int {
    if n == 0 { 0 } else { 55 + 40 * n }
}

/// RGB bytes of palette index `idx`: the 16 named colours, then the 6x6x6
/// cube (red most significant), then a 24-step grey ramp.
pub open spec fn indexed_rgb(idx: u8) -> (u8, u8, u8) {
    if idx < 16 {
        named_rgb(ansi_named(idx))
    } else if idx < 232 {
        let v = idx - 16;
        (cube_level(v / 36) as u8, cube_level((v / 6) % 6) as u8, cube_level(v % 6) as u8)
    } else {
        let g = (10 * (idx - 232) + 8) as u8;
        (g, g, g)
    }
}

/// RGB bytes that `color` is drawn with.
pub open spec fn color_rgb(color: Color) -> (u8, u8, u8) {
    match color {
        Color::Rgb { r, g, b } => (r, g, b),
        Color::Indexed(idx) => indexed_rgb(idx),
        Color::Named(named) => named_rgb(named),
    }
}

/// RGB bytes of a named colour.
pub fn named_color_to_rgb(named: NamedColor) -> (r: (u8, u8, u8))
    ensures
        r == named_rgb(named),
{
    match named {
        NamedColor::Black => (0x45, 0x47, 0x5a),
        NamedColor::Red | NamedColor::BrightRed => (0xf3, 0x8b, 0xa8),
        NamedColor::Green | NamedColor::BrightGreen => (0xa6, 0xe3, 0xa1),
        NamedColor::Yellow | NamedColor::BrightYellow => (0xf9, 0xe2, 0xaf),
        NamedColor::Blue | NamedColor::BrightBlue => (0x89, 0xb4, 0xfa),
        NamedColor::Magenta | NamedColor::BrightMagenta => (0xcb, 0xa6, 0xf7),
        NamedColor::Cyan | NamedColor::BrightCyan => (0x89, 0xdc, 0xeb),
        NamedColor::White => (0xba, 0xc2, 0xde),
        NamedColor::BrightBlack => (0x58, 0x5b, 0x70),
        NamedColor::BrightWhite | NamedColor::Foreground => (0xcd, 0xd6, 0xf4),
        NamedColor::Background => (0x1e, 0x1e, 0x2e),
    }
}

/// Intensity of one cube level.
fn cube_level_exec(n: u8) -> (r: u8)
    requires
        n < 6,
    ensures
        r == cube_level(n as int),
{
    if n == 0 { 0 } else { 55 + 40 * n }
}

/// RGB bytes of a 256-colour palette index.
pub fn xterm256_to_rgb(idx: u8) -> (r: (u8, u8, u8))
    ensures
        r == indexed_rgb(idx),
{
    if idx < 16 {
        let named = match idx {
            0 => NamedColor::Black,
            1 => NamedColor::Red,
            2 => NamedColor::Green,
            3 => NamedColor::Yellow,
            4 => NamedColor::Blue,
            5 => NamedColor::Magenta,
            6 => NamedColor::Cyan,
            7 => NamedColor::White,
            8 => NamedColor::BrightBlack,
            9 => NamedColor::BrightRed,
            10 => NamedColor::BrightGreen,
            11 => NamedColor::BrightYellow,
            12 => NamedColor::BrightBlue,
            13 => NamedColor::BrightMagenta,
            14 => NamedColor::BrightCyan,
            _ => NamedColor::BrightWhite,
        };
        named_color_to_rgb(named)
    } else if idx < 232 {
        let v: u8 = idx - 16;
        (cube_level_exec(v / 36), cube_level_exec((v / 6) % 6), cube_level_exec(v % 6))
    } else {
        let g: u8 = 10 * (idx - 232) + 8;
        (g, g, g)
    }
}

/// RGB bytes that a cell colour is drawn with.
pub fn color_to_rgb(color: Color) -> (r: (u8, u8, u8))
    ensures
        r == color_rgb(color),
{
    match color {
        Color::Rgb { r, g, b } => (r, g, b),
        Color::Indexed(idx) => xterm256_to_rgb(idx),
        Color::Named(named) => named_color_to_rgb(named),
    }
}

/// How a cell is drawn, the first that applies winning: under the cursor,
/// selected, in the current search match, in another search match, under
/// a hovered link, or plain.
#[derive(Debug, Clone, Copy, PartialEq, Eq, Structural)]
pub enum CellHighlight {
    Cursor,
    Selected,
    CurrentMatch,
    SearchMatch,
    UrlHover,
    Plain,
}

/// Cell (`col`, `row`) lies in the span `(row, start_col, end_col)`, end
/// exclusive.
pub open spec fn in_span(col: usize, row: usize, span: (usize, usize, usize)) -> bool {
    row == span.0 && span.1 <= col < span.2
}

/// The highlight of cell (`col`, `row`).
pub open spec fn highlight_of(
    col: usize,
    row: usize,
    cursor_pos: Option<(usize, usize)>,
    selection: Option<((usize, usize), (usize, usize))>,
    url_hover: Option<(usize, usize, usize)>,
    search_matches: Seq<(usize, usize, usize)>,
    current_match: Option<(usize, usize, usize)>,
) -> CellHighlight {
    if cursor_pos == Some((col, row)) {
        CellHighlight::Cursor
    } else if selection is Some && in_selection(col, row, selection->0) {
        CellHighlight::Selected
    } else if current_match is Some && in_span(col, row, current_match->0) {
        CellHighlight::CurrentMatch
    } else if exists|i: int| 0 <= i < search_matches.len() && in_span(col, row, #[trigger] search_matches[i]) {
        CellHighlight::SearchMatch
    } else if url_hover is Some && in_span(col, row, url_hover->0) {
        CellHighlight::UrlHover
    } else {
        CellHighlight::Plain
    }
}

fn in_span_exec(col: usize, row: usize, span: (usize, usize, usize)) -> (r: bool)
    ensures
        r == in_span(col, row, span),
{
    row == span.0 && span.1 <= col && col < span.2
}

/// The highlight that cell (`col`, `row`) is drawn with, given the cursor
/// position `(col, row)`, the selection, the hovered link span, the search
/// match spans and the current match span (spans are `(row, start, end)`).
pub fn cell_highlight(
    col: usize,
    row: usize,
    cursor_pos: Option<(usize, usize)>,
    selection: Option<((usize, usize), (usize, usize))>,
    url_hover: Option<(usize, usize, usize)>,
    search_matches: &[(usize, usize, usize)],
    current_match: Option<(usize, usize, usize)>,
) -> (r: CellHighlight)
    ensures
        r == highlight_of(col, row, cursor_pos, selection, url_hover, search_matches@, current_match),
{
    let is_cursor = match cursor_pos {
        Some((c, l)) => c == col && l == row,
        None => false,
    };
    if is_cursor {
        return CellHighlight::Cursor;
    }
    let is_selected = match selection {
        Some(sel) => is_in_selection(col, row, sel),
        None => false,
    };
    if is_selected {
        return CellHighlight::Selected;
    }
    let is_current = match current_match {
        Some(span) => in_span_exec(col, row, span),
        None => false,
    };
    if is_current {
        return CellHighlight::CurrentMatch;
    }
    let mut i: usize = 0;
    while i < search_matches.len()
        invariant
            i <= search_matches@.len(),
            cursor_pos != Some((col, row)),
            !(selection is Some && in_selection(col, row, selection->0)),
            !(current_match is Some && in_span(col, row, current_match->0)),
            forall|k: int| 0 <= k < i ==> !in_span(col, row, #[trigger] search_matches@[k]),
        decreases search_matches@.len() - i,
    {
        if in_span_exec(col, row, search_matches[i]) {
            assert(in_span(col, row, search_matches@[i as int]));
            return CellHighlight::SearchMatch;
        }
        i = i + 1;
    }
    let is_hovered = match url_hover {
        Some(span) => in_span_exec(col, row, span),
        None => false,
    };
    if is_hovered {
        CellHighlight::UrlHover
    } else {
        CellHighlight::Plain
    }
}

/// The text of viewport row `line` handed to the shaper: its characters,
/// wide-character spacers skipped.
pub fn viewport_row_text(grid: &Grid, line: usize) -> (r: String)
    requires
        grid.wf(),
        line < grid.lines_spec(),
    ensures
        r@ == row_text(grid.line_view(line as int)),
{
    proof {
        grid.lemma_wf();
    }
    let raw = grid.total_lines() - grid.screen_lines() + line;
    let row = grid.raw_row(raw);
    let (text, _cols) = cells_to_text_with_map(row.cells());
    chars_to_string(text.as_slice())
}

} // verus!

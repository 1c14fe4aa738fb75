//! C0 controls, ESC and CSI dispatch, and SGR parameter handling for
//! [`Terminal`].
use vstd::prelude::*;
use crate::grid::Cursor;
use crate::grid::cell::{Cell, Color};
use vstd::string::StringSliceAdditionalSpecFns;
use crate::grid::default_cursor;
use crate::index::{Column, Line, Point};
use crate::terminal::{
    Terminal, TermMode, CursorStyle, KittyKeyboardFlags, with_cursor, moved_to, sgr_applied, linefed,
    carriage_returned, with_reply, alt_swapped, grid_erased, soft_wrapped, cursor_cell_set, with_flags_set,
    printed, print_steps, print_width,
};
use crate::grid::cell::{CellFlags, reset_cell};
use crate::grid::{scrolled_up, scrolled_down, viewport_cleared, history_cleared};
use crate::text::{decimal_digits, push_decimal, push_bytes};

verus! {

/// The first value of a parameter (its sub-parameters follow), 0 if empty.
pub open spec fn first_raw(param: Seq<u16>) -> u16 {
    if param.len() > 0 { param[0] } else { 0 }
}

/// Parameter `n` (0-based), or `default` (truncated to 16 bits) when it is
/// missing or zero.
pub open spec fn param_or(ps: Seq<Seq<u16>>, n: int, default: usize) -> usize {
    if 0 <= n < ps.len() && first_raw(ps[n]) != 0 {
        first_raw(ps[n]) as usize
    } else {
        (default as u16) as usize
    }
}

/// The parameters as sequences of values.
pub open spec fn params_view(params: Seq<Vec<u16>>) -> Seq<Seq<u16>> {
    Seq::new(params.len(), |i: int| params[i]@)
}

fn first_raw_exec(param: &Vec<u16>) -> (r: u16)
    ensures
        r == first_raw(param@),
{
    if param.len() > 0 { param[0] } else { 0 }
}

/// Parameter `n` of `params`, or `default` when missing or zero.
pub fn nth_param(params: &[Vec<u16>], n: usize, default: usize) -> (r: usize)
    ensures
        r == param_or(params_view(params@), n as int, default),
{
    let d = default as u16;
    if n < params.len() {
        let v = first_raw_exec(&params[n]);
        if v != 0 {
            return v as usize;
        }
    }
    d as usize
}

/// The first parameter, or `default` when missing or zero.
pub fn first_param(params: &[Vec<u16>], default: usize) -> (r: usize)
    ensures
        r == param_or(params_view(params@), 0, default),
{
    nth_param(params, 0, default)
}

/// First value of parameter `i` of `ps`, 0 if absent.
pub open spec fn top_or0(ps: Seq<Seq<u16>>, i: int) -> u16 {
    if 0 <= i < ps.len() { first_raw(ps[i]) } else { 0 }
}

/// The low byte of `x`.
pub open spec fn low_byte(x: u16) -> u8 {
    (x % 256) as u8
}

fn low_byte_exec(x: u16) -> (r: u8)
    ensures
        r == low_byte(x),
{
    (x % 256) as u8
}

/// `t` with its foreground (code 38) or background (other codes) set to `c`.
pub open spec fn ext_color_applied(t: Cell, code: u16, c: Color) -> Cell {
    if code == 38 { Cell { fg: c, ..t } } else { Cell { bg: c, ..t } }
}

/// The cursor template after the SGR parameters `ps` from index `i` on.
/// 38/48 take an indexed (`5;n`) or RGB (`2;r;g;b`) colour, either from the
/// parameter's own sub-parameters or from the parameters that follow.
pub open spec fn sgr_from(t: Cell, ps: Seq<Seq<u16>>, i: int) -> Cell
    decreases ps.len() - i,
{
    if i < 0 || i >= ps.len() {
        t
    } else {
        let param = ps[i];
        let p = first_raw(param);
        if p == 38 || p == 48 {
            if param.len() >= 3 {
                let mode = param[1];
                let t2 = if mode == 5 {
                    ext_color_applied(t, p, Color::Indexed(low_byte(param[2])))
                } else if mode == 2 && param.len() >= 5 {
                    ext_color_applied(t, p, Color::Rgb { r: low_byte(param[2]), g: low_byte(param[3]), b: low_byte(param[4]) })
                } else {
                    t
                };
                sgr_from(t2, ps, i + 1)
            } else if i + 1 < ps.len() {
                let mode = first_raw(ps[i + 1]);
                if mode == 5 {
                    if i + 2 < ps.len() {
                        sgr_from(ext_color_applied(t, p, Color::Indexed(low_byte(first_raw(ps[i + 2])))), ps, i + 3)
                    } else {
                        t
                    }
                } else if mode == 2 {
                    let c = Color::Rgb {
                        r: low_byte(top_or0(ps, i + 2)),
                        g: low_byte(top_or0(ps, i + 3)),
                        b: low_byte(top_or0(ps, i + 4)),
                    };
                    sgr_from(ext_color_applied(t, p, c), ps, if i + 5 < ps.len() { i + 5 } else { ps.len() as int })
                } else {
                    sgr_from(t, ps, i + 2)
                }
            } else {
                t
            }
        } else {
            sgr_from(sgr_applied(t, p), ps, i + 1)
        }
    }
}

fn top_or0_exec(params: &[Vec<u16>], i: usize) -> (r: u16)
    ensures
        r == top_or0(params_view(params@), i as int),
{
    if i < params.len() { first_raw_exec(&params[i]) } else { 0 }
}

impl Terminal {
    /// Sets the template's foreground (code 38) or background colour.
    fn set_extended_color(&mut self, sgr_code: u16, color: Color)
        ensures
            *final(self) == with_cursor(*old(self), Cursor {
                template: ext_color_applied(old(self).grid.cursor.template, sgr_code, color),
                ..old(self).grid.cursor
            }),
    {
        if sgr_code == 38 {
            self.grid.cursor.template.fg = color;
        } else {
            self.grid.cursor.template.bg = color;
        }
    }

    /// Applies the SGR parameter at index `i` (with the parameters that a
    /// 38/48 colour consumes) and returns the index of the next one.
    fn sgr_step(&mut self, params: &[Vec<u16>], i: usize) -> (next: usize)
        requires
            i < params@.len(),
        ensures
            i < next <= params@.len(),
            *final(self) == with_cursor(*old(self), Cursor { template: final(self).grid.cursor.template, ..old(self).grid.cursor }),
            sgr_from(old(self).grid.cursor.template, params_view(params@), i as int)
                == sgr_from(final(self).grid.cursor.template, params_view(params@), next as int),
    {
        let ghost ps = params_view(params@);
        let n = params.len();
        let param = &params[i];
        assert(param@ == ps[i as int]);
        let p = first_raw_exec(param);
        if p != 38 && p != 48 {
            self.apply_sgr(p);
            return i + 1;
        }
        if param.len() >= 3 {
            let mode = param[1];
            if mode == 5 {
                self.set_extended_color(p, Color::Indexed(low_byte_exec(param[2])));
            } else if mode == 2 && param.len() >= 5 {
                self.set_extended_color(p, Color::Rgb { r: low_byte_exec(param[2]), g: low_byte_exec(param[3]), b: low_byte_exec(param[4]) });
            }
            return i + 1;
        }
        if i + 1 >= n {
            assert(sgr_from(self.grid.cursor.template, ps, n as int) == self.grid.cursor.template);
            return n;
        }
        let mode = first_raw_exec(&params[i + 1]);
        if mode == 5 {
            if i + 2 < n {
                let idx = first_raw_exec(&params[i + 2]);
                self.set_extended_color(p, Color::Indexed(low_byte_exec(idx)));
                i + 3
            } else {
                assert(sgr_from(self.grid.cursor.template, ps, n as int) == self.grid.cursor.template);
                n
            }
        } else if mode == 2 {
            let r = top_or0_exec(params, i + 2);
            let g = top_or0_exec(params, i.saturating_add(3));
            let b = top_or0_exec(params, i.saturating_add(4));
            self.set_extended_color(p, Color::Rgb { r: low_byte_exec(r), g: low_byte_exec(g), b: low_byte_exec(b) });
            if n - i > 5 { i + 5 } else { n }
        } else {
            i + 2
        }
    }

    /// Applies all parameters of an SGR sequence to the cursor template.
    pub fn dispatch_sgr(&mut self, params: &[Vec<u16>])
        ensures
            *final(self) == with_cursor(*old(self), Cursor {
                template: sgr_from(old(self).grid.cursor.template, params_view(params@), 0),
                ..old(self).grid.cursor
            }),
    {
        let ghost ps = params_view(params@);
        let ghost before = *self;
        let n = params.len();
        let mut i: usize = 0;
        while i < n
            invariant
                i <= n,
                n == ps.len(),
                ps == params_view(params@),
                before == *old(self),
                *self == with_cursor(before, Cursor { template: self.grid.cursor.template, ..before.grid.cursor }),
                sgr_from(before.grid.cursor.template, ps, 0) == sgr_from(self.grid.cursor.template, ps, i as int),
            decreases n - i,
        {
            i = self.sgr_step(params, i);
        }
    }
}


/// The first tab stop at or after column `c`, else the last column.
pub open spec fn next_tab_from(tabs: Seq<bool>, c: int, cols: int) -> int
    decreases cols - c,
{
    if c >= cols {
        cols - 1
    } else if tabs[c] {
        c
    } else {
        next_tab_from(tabs, c + 1, cols)
    }
}

/// `new` is `old` after the C0 control `byte`.
pub open spec fn executed(new: Terminal, old: Terminal, byte: u8) -> bool {
    let cur = old.grid.cursor;
    let col = cur.point.column.0 as int;
    if byte == 0x05 {
        match old.enquiry_response {
            Some(s) => new == (Terminal { pending_writes: new.pending_writes, ..old })
                && new.pending_writes@ == with_reply(old.pending_writes@, vstd::utf8::encode_utf8(s@)),
            None => new == old,
        }
    } else if byte == 0x07 {
        new == (Terminal { bell_pending: true, ..old })
    } else if byte == 0x08 {
        new == with_cursor(old, Cursor {
            point: Point { column: Column(if col > 0 { (col - 1) as usize } else { 0 }), ..cur.point },
            input_needs_wrap: false,
            ..cur
        })
    } else if byte == 0x09 {
        new == with_cursor(old, Cursor {
            point: Point { column: Column(next_tab_from(old.tabs@, col + 1, old.columns_spec() as int) as usize), ..cur.point },
            input_needs_wrap: false,
            ..cur
        })
    } else if 0x0a <= byte <= 0x0c {
        if old.mode.has(TermMode::LINE_FEED_NEW_LINE) {
            exists|mid: Terminal| linefed(mid, old) && #[trigger] carriage_returned(new, mid)
        } else {
            linefed(new, old)
        }
    } else if byte == 0x0d {
        carriage_returned(new, old)
    } else {
        new == old
    }
}

impl Terminal {
    /// ENQ: queues the configured answer-back text, if any.
    fn enquiry(&mut self)
        requires
            old(self).wf(),
        ensures
            final(self).wf(),
            executed(*final(self), *old(self), 0x05),
    {
        match &self.enquiry_response {
            Some(s) => {
                let st = s.as_str();
                let bytes = st.as_bytes();
                let mut data: Vec<u8> = Vec::new();
                crate::text::push_bytes(&mut data, bytes);
                self.write_response(data.as_slice());
            },
            None => {},
        }
    }

    /// BS: one column left, no pending wrap.
    fn backspace(&mut self)
        requires
            old(self).wf(),
        ensures
            final(self).wf(),
            executed(*final(self), *old(self), 0x08),
    {
        let col = self.grid.cursor.point.column.0;
        if col > 0 {
            self.grid.cursor.point.column = Column(col - 1);
        }
        self.grid.cursor.input_needs_wrap = false;
    }

    /// HT: to the next tab stop, or the last column.
    fn horizontal_tab(&mut self)
        requires
            old(self).wf(),
        ensures
            final(self).wf(),
            executed(*final(self), *old(self), 0x09),
    {
        let ghost before = *self;
        let cur_col = self.grid.cursor.point.column.0;
        let cols = self.grid.columns();
        let mut c = cur_col + 1;
        while c < cols && !self.tabs[c]
            invariant
                *self == before,
                cur_col < c <= cols,
                cols == self.columns_spec(),
                self.tabs@.len() == cols,
                next_tab_from(self.tabs@, cur_col + 1, cols as int) == next_tab_from(self.tabs@, c as int, cols as int),
            decreases cols - c,
        {
            c = c + 1;
        }
        let dest = if c < cols { c } else { cols - 1 };
        assert(next_tab_from(self.tabs@, c as int, cols as int) == dest as int);
        self.grid.cursor.point.column = Column(dest);
        self.grid.cursor.input_needs_wrap = false;
    }

    /// LF, VT, FF: line feed, plus carriage return in LNM mode.
    fn line_feed_control(&mut self, byte: u8)
        requires
            old(self).wf(),
            0x0a <= byte <= 0x0c,
        ensures
            final(self).wf(),
            executed(*final(self), *old(self), byte),
    {
        let ghost before = *self;
        self.linefeed();
        let ghost mid = *self;
        if self.mode.contains(TermMode::LINE_FEED_NEW_LINE) {
            self.carriage_return();
            assert(linefed(mid, before) && carriage_returned(*self, mid));
        }
    }

    /// Handles a C0 control byte: ENQ answers, BEL rings, BS, HT, LF/VT/FF
    /// (with a carriage return in LNM mode) and CR move the cursor.
    pub fn execute(&mut self, byte: u8)
        requires
            old(self).wf(),
        ensures
            final(self).wf(),
            executed(*final(self), *old(self), byte),
    {
        match byte {
            0x05 => self.enquiry(),
            0x07 => {
                self.bell_pending = true;
            },
            0x08 => self.backspace(),
            0x09 => self.horizontal_tab(),
            0x0a | 0x0b | 0x0c => self.line_feed_control(byte),
            0x0d => {
                self.carriage_return();
            },
            _ => {},
        }
    }

    /// Handles an ESC sequence without intermediates: DECSC saves and DECRC
    /// restores the cursor, IND and NEL feed lines, RI moves up or scrolls
    /// the region down at its top.
    pub fn esc_dispatch(&mut self, intermediates: &[u8], ignore: bool, byte: u8)
        requires
            old(self).wf(),
        ensures
            final(self).wf(),
            intermediates@.len() > 0 ==> *final(self) == *old(self),
            intermediates@.len() == 0 ==> esc_handled(*final(self), *old(self), byte),
    {
        if intermediates.len() > 0 {
            return;
        }
        let ghost before = *self;
        match byte {
            0x37 => {
                self.grid.saved_cursor = self.grid.cursor.duplicate();
                assert(*self == (Terminal { grid: crate::grid::Grid { saved_cursor: before.grid.cursor, ..before.grid }, ..before }));
            },
            0x38 => {
                self.grid.cursor = self.grid.saved_cursor.duplicate();
            },
            0x44 => {
                self.linefeed();
            },
            0x45 => {
                self.linefeed();
                let ghost mid = *self;
                self.carriage_return();
                assert(linefed(mid, before) && carriage_returned(*self, mid));
            },
            0x4d => {
                let top = self.scroll_region.start;
                let cur_line = self.grid.cursor.point.line.as_viewport_idx();
                self.grid.cursor.input_needs_wrap = false;
                if cur_line == top {
                    let region = self.scroll_region.start..self.scroll_region.end;
                    self.grid.scroll_down(region, 1);
                } else if cur_line > 0 {
                    self.grid.cursor.point.line = Line(self.grid.cursor.point.line.0 - 1);
                }
            },
            _ => {},
        }
    }
}

/// `new` is `old` after the ESC final byte `byte` (no intermediates).
pub open spec fn esc_handled(new: Terminal, old: Terminal, byte: u8) -> bool {
    let cur = old.grid.cursor;
    if byte == 0x37 {
        new == (Terminal { grid: crate::grid::Grid { saved_cursor: cur, ..old.grid }, ..old })
    } else if byte == 0x38 {
        new == with_cursor(old, old.grid.saved_cursor)
    } else if byte == 0x44 {
        linefed(new, old)
    } else if byte == 0x45 {
        exists|mid: Terminal| linefed(mid, old) && #[trigger] carriage_returned(new, mid)
    } else if byte == 0x4d {
        let row = old.cursor_row();
        if row == old.scroll_region.start {
            &&& crate::grid::scrolled_down(new.grid, Terminal::grid_with_cursor(old.grid, Cursor { input_needs_wrap: false, ..cur }), old.scroll_region, 1)
            &&& new == (Terminal { grid: new.grid, ..old })
        } else {
            new == with_cursor(old, Cursor {
                point: Point { line: Line(if row > 0 { (row - 1) as i32 } else { cur.point.line.0 }), ..cur.point },
                input_needs_wrap: false,
                ..cur
            })
        }
    } else {
        new == old
    }
}

impl Terminal {
    /// `g` with its cursor replaced by `c`.
    pub open spec fn grid_with_cursor(g: crate::grid::Grid, c: Cursor) -> crate::grid::Grid {
        crate::grid::Grid { cursor: c, ..g }
    }
}


/// `new` is `old` with the mode bit `bit` set or cleared.
pub open spec fn mode_bit_set(new: Terminal, old: Terminal, bit: u32, set: bool) -> bool {
    new == (Terminal { mode: TermMode(if set { old.mode.0 | bit } else { old.mode.0 & !bit }), ..old })
}

/// `new` is `old` after DEC private mode `p` was set (`set`) or reset.
pub open spec fn private_mode_step(new: Terminal, old: Terminal, p: u16, set: bool) -> bool {
    if p == 1 {
        mode_bit_set(new, old, TermMode::APP_CURSOR, set)
    } else if p == 7 {
        mode_bit_set(new, old, TermMode::LINE_WRAP, set)
    } else if p == 9 || p == 1000 {
        mode_bit_set(new, old, TermMode::MOUSE_REPORT_CLICK, set)
    } else if p == 12 {
        new == (Terminal { cursor_blinking: set, ..old })
    } else if p == 25 {
        mode_bit_set(new, old, TermMode::SHOW_CURSOR, set)
    } else if p == 1002 {
        mode_bit_set(new, old, TermMode::MOUSE_REPORT_DRAG, set)
    } else if p == 1003 {
        mode_bit_set(new, old, TermMode::MOUSE_REPORT_MOTION, set)
    } else if p == 1005 {
        mode_bit_set(new, old, TermMode::UTF8_MOUSE, set)
    } else if p == 1006 {
        mode_bit_set(new, old, TermMode::SGR_MOUSE, set)
    } else if p == 1049 {
        if set != old.mode.has(TermMode::ALT_SCREEN) { alt_swapped(new, old) } else { new == old }
    } else if p == 2004 {
        mode_bit_set(new, old, TermMode::BRACKETED_PASTE, set)
    } else {
        new == old
    }
}

/// `new` is `old` after ANSI mode `p` was set or reset (only LNM, 20).
pub open spec fn ansi_mode_step(new: Terminal, old: Terminal, p: u16, set: bool) -> bool {
    if p == 20 { mode_bit_set(new, old, TermMode::LINE_FEED_NEW_LINE, set) } else { new == old }
}

/// Step `i` of a mode-setting chain: `states[i + 1]` follows from
/// `states[i]` by parameter `i`.
pub open spec fn mode_link(states: Seq<Terminal>, ps: Seq<Seq<u16>>, i: int, set: bool, private: bool) -> bool {
    if private {
        private_mode_step(states[i + 1], states[i], first_raw(ps[i]), set)
    } else {
        ansi_mode_step(states[i + 1], states[i], first_raw(ps[i]), set)
    }
}

/// `states` runs from `old` to `new` through one mode step per parameter.
pub open spec fn mode_chain(states: Seq<Terminal>, old: Terminal, new: Terminal, ps: Seq<Seq<u16>>, set: bool, private: bool) -> bool {
    &&& states.len() == ps.len() + 1
    &&& states[0] == old
    &&& states[ps.len() as int] == new
    &&& forall|i: int| 0 <= i < ps.len() ==> #[trigger] mode_link(states, ps, i, set, private)
}

/// `new` is `old` after SM/RM with parameters `ps`, applied in order.
pub open spec fn modes_applied(new: Terminal, old: Terminal, ps: Seq<Seq<u16>>, set: bool, private: bool) -> bool {
    exists|states: Seq<Terminal>| #[trigger] mode_chain(states, old, new, ps, set, private)
}

/// `new` is `old` with `data` offered to the reply buffer.
pub open spec fn replied(new: Terminal, old: Terminal, data: Seq<u8>) -> bool {
    &&& new == (Terminal { pending_writes: new.pending_writes, ..old })
    &&& new.pending_writes@ == with_reply(old.pending_writes@, data)
}

/// `new` is `old` with the cursor moved to viewport row `row`, column kept.
pub open spec fn moved_to_row(new: Terminal, old: Terminal, row: int) -> bool {
    new == moved_to(old, row, old.grid.cursor.point.column.0 as int)
}

/// `new` is `old` with the cursor moved to column `col`, row kept.
pub open spec fn moved_to_col(new: Terminal, old: Terminal, col: int) -> bool {
    new == moved_to(old, old.grid.cursor.point.line.0 as int, col)
}

/// `new` differs from `old` in the active grid only.
pub open spec fn grid_only(new: Terminal, old: Terminal) -> bool {
    new == (Terminal { grid: new.grid, ..old })
}

/// Answer to DA2: `ESC [ > 0 ; 0 ; 0 c`.
pub open spec fn da2_reply() -> Seq<u8> {
    seq![27u8, 91u8, 62u8, 48u8, 59u8, 48u8, 59u8, 48u8, 99u8]
}

/// Answer to DA1: `ESC [ ? 62 ; 4 c`.
pub open spec fn da1_reply() -> Seq<u8> {
    seq![27u8, 91u8, 63u8, 54u8, 50u8, 59u8, 52u8, 99u8]
}

/// Answer to DSR 5: `ESC [ 0 n`.
pub open spec fn dsr_reply() -> Seq<u8> {
    seq![27u8, 91u8, 48u8, 110u8]
}

/// Cursor position report: `ESC [ row ; col R` (1-based).
pub open spec fn cpr_reply(row: nat, col: nat) -> Seq<u8> {
    seq![27u8, 91u8] + decimal_digits(row) + seq![59u8] + decimal_digits(col) + seq![82u8]
}

/// Kitty keyboard flags report: `ESC [ ? flags u`.
pub open spec fn kitty_reply(flags: nat) -> Seq<u8> {
    seq![27u8, 91u8, 63u8] + decimal_digits(flags) + seq![117u8]
}

/// Window title report: `ESC ] l title ESC \`.
pub open spec fn title_reply(title: Seq<char>) -> Seq<u8> {
    seq![27u8, 93u8, 108u8] + vstd::utf8::encode_utf8(title) + seq![27u8, 92u8]
}

/// The first intermediate byte, if any.
pub open spec fn lead(inter: Seq<u8>) -> Option<u8> {
    if inter.len() > 0 { Some(inter[0]) } else { None }
}

/// `new` is `old` after a cursor-movement CSI (`A`, `B`, `C`, `D`, `H`, `f`).
pub open spec fn cursor_csi_done(new: Terminal, old: Terminal, ps: Seq<Seq<u16>>, action: char) -> bool {
    let row = old.cursor_row() as int;
    let col = old.grid.cursor.point.column.0 as int;
    let lines = old.lines_spec() as int;
    let cols = old.columns_spec() as int;
    let n = param_or(ps, 0, 1) as int;
    let start = old.scroll_region.start as int;
    if action == 'A' {
        moved_to_row(new, old, if row - n > start { row - n } else { start })
    } else if action == 'B' {
        moved_to_row(new, old, if row + n < lines - 1 { row + n } else { lines - 1 })
    } else if action == 'C' {
        moved_to_col(new, old, if col + n < cols - 1 { col + n } else { cols - 1 })
    } else if action == 'D' {
        moved_to_col(new, old, if col - n > 0 { col - n } else { 0 })
    } else {
        let r = param_or(ps, 0, 1) - 1;
        let c = param_or(ps, 1, 1) - 1;
        new == moved_to(old, if r < lines - 1 { r } else { lines - 1 }, if c < cols - 1 { c } else { cols - 1 })
    }
}

/// `new` is `old` after ED (`J`) with mode `mode`: 0 erases from the cursor
/// to the end of the screen, 1 from the start of the screen to the cursor,
/// 2 the whole screen, 3 the screen and the scrollback.
pub open spec fn erase_display_done(new: Terminal, old: Terminal, mode: usize) -> bool {
    let lines = old.lines_spec() as int;
    let cols = old.columns_spec() as int;
    let cur = old.grid.cursor.point;
    let last = Point { line: Line((lines - 1) as i32), column: Column((cols - 1) as usize) };
    let first = Point { line: Line(0), column: Column(0) };
    if mode == 0 {
        grid_only(new, old) && grid_erased(new.grid, old.grid, cur, last)
    } else if mode == 1 {
        grid_only(new, old) && grid_erased(new.grid, old.grid, first, cur)
    } else if mode == 2 {
        grid_only(new, old) && viewport_cleared(new.grid, old.grid)
    } else if mode == 3 {
        grid_only(new, old) && exists|g: crate::grid::Grid| viewport_cleared(g, old.grid) && #[trigger] history_cleared(new.grid, g)
    } else {
        new == old
    }
}

/// `new` is `old` after EL (`K`) with mode `mode`.
pub open spec fn erase_line_done(new: Terminal, old: Terminal, mode: usize) -> bool {
    let cols = old.columns_spec() as int;
    let cur = old.grid.cursor.point;
    let bol = Point { line: cur.line, column: Column(0) };
    let eol = Point { line: cur.line, column: Column((cols - 1) as usize) };
    if mode == 0 {
        grid_only(new, old) && grid_erased(new.grid, old.grid, cur, eol)
    } else if mode == 1 {
        grid_only(new, old) && grid_erased(new.grid, old.grid, bol, cur)
    } else if mode == 2 {
        grid_only(new, old) && grid_erased(new.grid, old.grid, bol, eol)
    } else {
        new == old
    }
}

/// `new` is `old` after a scrolling CSI: IL (`L`) and DL (`M`) act on the
/// rows from the cursor to the end of the scroll region, SU (`S`) and SD
/// (`T`) on the whole region.
pub open spec fn scroll_csi_done(new: Terminal, old: Terminal, ps: Seq<Seq<u16>>, action: char) -> bool {
    let n = param_or(ps, 0, 1);
    let row = old.cursor_row() as usize;
    let below = row..old.scroll_region.end;
    if action == 'L' {
        if row < old.scroll_region.end { grid_only(new, old) && scrolled_down(new.grid, old.grid, below, n) } else { new == old }
    } else if action == 'M' {
        if row < old.scroll_region.end { grid_only(new, old) && scrolled_up(new.grid, old.grid, below, n) } else { new == old }
    } else if action == 'S' {
        grid_only(new, old) && scrolled_up(new.grid, old.grid, old.scroll_region, n)
    } else {
        grid_only(new, old) && scrolled_down(new.grid, old.grid, old.scroll_region, n)
    }
}

/// `new` is `old` after DECSTBM (`r`): a valid `top;bottom` (1-based,
/// inclusive) becomes the scroll region; the cursor goes home either way.
pub open spec fn region_set_done(new: Terminal, old: Terminal, ps: Seq<Seq<u16>>) -> bool {
    let top = param_or(ps, 0, 1) - 1;
    let bottom = param_or(ps, 1, old.lines_spec() as usize) as int;
    let region = if top < bottom && bottom <= old.lines_spec() { (top as usize)..(bottom as usize) } else { old.scroll_region };
    new == moved_to(Terminal { scroll_region: region, ..old }, 0, 0)
}

/// `new` is `old` after DECSCUSR (`SP q`) with parameter `style`: 0 returns
/// to the defaults, 1/2 block, 3/4 underline, 5/6 bar, odd values blink.
pub open spec fn cursor_style_done(new: Terminal, old: Terminal, style: usize) -> bool {
    if style == 0 {
        new == (Terminal { cursor_style: old.default_cursor_style, cursor_blinking: old.default_cursor_blinking, ..old })
    } else if 1 <= style <= 6 {
        let shape = if style <= 2 { CursorStyle::Block } else if style <= 4 { CursorStyle::Underline } else { CursorStyle::Bar };
        new == (Terminal { cursor_style: shape, cursor_blinking: style % 2 == 1, ..old })
    } else {
        new == old
    }
}

/// `new` is `old` after a kitty keyboard CSI `u`: `>` pushes flags, `<`
/// pops entries (one by default), `?` asks for the current flags.
pub open spec fn kitty_csi_done(new: Terminal, old: Terminal, ps: Seq<Seq<u16>>, lead: Option<u8>) -> bool {
    let stack = old.kitty_flags.view_flags();
    if lead == Some(62u8) {
        let f = low_byte(top_or0(ps, 0)) & 0x1f;
        &&& new == (Terminal { kitty_flags: new.kitty_flags, ..old })
        &&& new.kitty_flags.wf()
        &&& new.kitty_flags.view_flags() == if stack.len() < 8 { stack.push(f) } else { stack }
    } else if lead == Some(60u8) {
        let n = if ps.len() > 0 && ps[0].len() > 0 { ps[0][0] as int } else { 1 };
        &&& new == (Terminal { kitty_flags: new.kitty_flags, ..old })
        &&& new.kitty_flags.wf()
        &&& new.kitty_flags.view_flags() == stack.take(if stack.len() > n + 1 { stack.len() - n } else { 1 })
    } else if lead == Some(63u8) {
        replied(new, old, kitty_reply(stack.last() as nat))
    } else {
        new == old
    }
}

/// `new` is `old` after a report request: DA (`c`), DSR/CPR (`n`) or the
/// title report (`21 t`, only when allowed and a title is set).
pub open spec fn report_csi_done(new: Terminal, old: Terminal, ps: Seq<Seq<u16>>, lead: Option<u8>, action: char) -> bool {
    let private = lead == Some(63u8);
    let p = param_or(ps, 0, 0);
    if action == 'c' {
        if lead == Some(62u8) {
            replied(new, old, da2_reply())
        } else if !private && p == 0 {
            replied(new, old, da1_reply())
        } else {
            new == old
        }
    } else if action == 'n' {
        if !private && p == 5 {
            replied(new, old, dsr_reply())
        } else if !private && p == 6 {
            replied(new, old, cpr_reply(old.cursor_row() + 1, old.grid.cursor.point.column.0 as nat + 1))
        } else {
            new == old
        }
    } else {
        if p == 21 && old.title_report && old.title is Some {
            replied(new, old, title_reply(old.title->0@))
        } else {
            new == old
        }
    }
}

/// `new` is `old` after the CSI sequence with parameters `ps`,
/// intermediates `inter` and final character `action`.
pub open spec fn csi_handled(new: Terminal, old: Terminal, ps: Seq<Seq<u16>>, inter: Seq<u8>, action: char) -> bool {
    let private = lead(inter) == Some(63u8);
    if action == 'A' || action == 'B' || action == 'C' || action == 'D' || action == 'H' || action == 'f' {
        cursor_csi_done(new, old, ps, action)
    } else if action == 'J' {
        erase_display_done(new, old, param_or(ps, 0, 0))
    } else if action == 'K' {
        erase_line_done(new, old, param_or(ps, 0, 0))
    } else if action == 'L' || action == 'M' || action == 'S' || action == 'T' {
        scroll_csi_done(new, old, ps, action)
    } else if action == 'm' {
        new == with_cursor(old, Cursor { template: sgr_from(old.grid.cursor.template, ps, 0), ..old.grid.cursor })
    } else if action == 'r' {
        region_set_done(new, old, ps)
    } else if action == 'h' || action == 'l' {
        modes_applied(new, old, ps, action == 'h', private)
    } else if action == 'c' || action == 'n' || action == 't' {
        report_csi_done(new, old, ps, lead(inter), action)
    } else if action == 'q' {
        if lead(inter) == Some(32u8) { cursor_style_done(new, old, param_or(ps, 0, 0)) } else { new == old }
    } else if action == 'u' {
        kitty_csi_done(new, old, ps, lead(inter))
    } else {
        new == old
    }
}


impl Terminal {
    /// Cursor movement: CUU `A`, CUD `B`, CUF `C`, CUB `D`, CUP `H`/`f`.
    fn cursor_csi(&mut self, params: &[Vec<u16>], action: char)
        requires
            old(self).wf(),
            action == 'A' || action == 'B' || action == 'C' || action == 'D' || action == 'H' || action == 'f',
        ensures
            final(self).wf(),
            cursor_csi_done(*final(self), *old(self), params_view(params@), action),
    {
        let row = self.grid.cursor.point.line.as_viewport_idx();
        let col = self.grid.cursor.point.column.0;
        let lines = self.grid.screen_lines();
        let cols = self.grid.columns();
        let n = first_param(params, 1);
        if action == 'A' {
            let start = self.scroll_region.start;
            let target = if row > n && row - n > start { row - n } else { start };
            self.grid.cursor.point.line = Line(target as i32);
            self.grid.cursor.input_needs_wrap = false;
        } else if action == 'B' {
            let target = if n < lines - 1 - row { row + n } else { lines - 1 };
            self.grid.cursor.point.line = Line(target as i32);
            self.grid.cursor.input_needs_wrap = false;
        } else if action == 'C' {
            let target = if n < cols - 1 - col { col + n } else { cols - 1 };
            self.grid.cursor.point.column = Column(target);
            self.grid.cursor.input_needs_wrap = false;
        } else if action == 'D' {
            let target = if col > n { col - n } else { 0 };
            self.grid.cursor.point.column = Column(target);
            self.grid.cursor.input_needs_wrap = false;
        } else {
            let r = first_param(params, 1) - 1;
            let c = nth_param(params, 1, 1) - 1;
            self.set_cursor(r, c);
        }
    }

    /// ED: erase in display.
    fn erase_display(&mut self, mode: usize)
        requires
            old(self).wf(),
        ensures
            final(self).wf(),
            erase_display_done(*final(self), *old(self), mode),
    {
        let lines = self.grid.screen_lines();
        let cols = self.grid.columns();
        let cur = self.grid.cursor.point;
        if mode == 0 {
            self.erase_cells(cur, Point::new(Line((lines - 1) as i32), Column(cols - 1)));
        } else if mode == 1 {
            self.erase_cells(Point::new(Line(0), Column(0)), cur);
        } else if mode == 2 {
            self.grid.clear_viewport();
        } else if mode == 3 {
            self.grid.clear_viewport();
            let ghost g = self.grid;
            self.grid.clear_history();
            assert(history_cleared(self.grid, g));
        }
    }

    /// EL: erase in line.
    fn erase_in_line(&mut self, mode: usize)
        requires
            old(self).wf(),
        ensures
            final(self).wf(),
            erase_line_done(*final(self), *old(self), mode),
    {
        if mode == 0 {
            self.erase_to_eol();
        } else if mode == 1 {
            self.erase_to_bol();
        } else if mode == 2 {
            self.erase_line();
        }
    }

    /// IL `L`, DL `M`, SU `S`, SD `T`.
    fn scroll_csi(&mut self, params: &[Vec<u16>], action: char)
        requires
            old(self).wf(),
            action == 'L' || action == 'M' || action == 'S' || action == 'T',
        ensures
            final(self).wf(),
            scroll_csi_done(*final(self), *old(self), params_view(params@), action),
    {
        let n = first_param(params, 1);
        let row = self.grid.cursor.point.line.as_viewport_idx();
        let end = self.scroll_region.end;
        if action == 'L' {
            if row < end {
                self.grid.scroll_down(row..end, n);
            }
        } else if action == 'M' {
            if row < end {
                self.grid.scroll_up(row..end, n);
            }
        } else if action == 'S' {
            let region = self.scroll_region.start..end;
            self.grid.scroll_up(region, n);
        } else {
            let region = self.scroll_region.start..end;
            self.grid.scroll_down(region, n);
        }
    }

    /// DECSTBM: sets the scroll region and homes the cursor.
    fn set_scroll_region(&mut self, params: &[Vec<u16>])
        requires
            old(self).wf(),
        ensures
            final(self).wf(),
            region_set_done(*final(self), *old(self), params_view(params@)),
    {
        let lines = self.grid.screen_lines();
        let top = first_param(params, 1) - 1;
        let bottom = nth_param(params, 1, lines);
        if top < bottom && bottom <= lines {
            self.scroll_region = top..bottom;
        }
        self.set_cursor(0, 0);
    }

    /// Sets or clears the mode bit `flag`.
    fn toggle_mode(&mut self, flag: u32, set: bool)
        ensures
            mode_bit_set(*final(self), *old(self), flag, set),
    {
        if set {
            self.mode.insert(flag);
        } else {
            self.mode.remove(flag);
        }
    }

    /// Sets or resets the DEC private mode `param`.
    pub fn set_private_mode(&mut self, param: u16, set: bool)
        requires
            old(self).wf(),
        ensures
            final(self).wf(),
            private_mode_step(*final(self), *old(self), param, set),
    {
        match param {
            1 => self.toggle_mode(TermMode::APP_CURSOR, set),
            7 => self.toggle_mode(TermMode::LINE_WRAP, set),
            9 | 1000 => self.toggle_mode(TermMode::MOUSE_REPORT_CLICK, set),
            12 => {
                self.cursor_blinking = set;
            },
            25 => self.toggle_mode(TermMode::SHOW_CURSOR, set),
            1002 => self.toggle_mode(TermMode::MOUSE_REPORT_DRAG, set),
            1003 => self.toggle_mode(TermMode::MOUSE_REPORT_MOTION, set),
            1005 => self.toggle_mode(TermMode::UTF8_MOUSE, set),
            1006 => self.toggle_mode(TermMode::SGR_MOUSE, set),
            1049 => {
                let currently_alt = self.mode.contains(TermMode::ALT_SCREEN);
                if set != currently_alt {
                    self.swap_alt_screen();
                }
            },
            2004 => self.toggle_mode(TermMode::BRACKETED_PASTE, set),
            _ => {},
        }
    }

    /// Sets or resets the ANSI mode `param` (only LNM, 20, is known).
    pub fn set_ansi_mode(&mut self, param: u16, set: bool)
        requires
            old(self).wf(),
        ensures
            final(self).wf(),
            ansi_mode_step(*final(self), *old(self), param, set),
    {
        if param == 20 {
            self.toggle_mode(TermMode::LINE_FEED_NEW_LINE, set);
        }
    }

    /// SM/RM: applies every parameter in order.
    fn set_modes(&mut self, params: &[Vec<u16>], set: bool, private: bool)
        requires
            old(self).wf(),
        ensures
            final(self).wf(),
            modes_applied(*final(self), *old(self), params_view(params@), set, private),
    {
        let ghost ps = params_view(params@);
        let ghost mut states: Seq<Terminal> = seq![*self];
        let n = params.len();
        let mut i: usize = 0;
        while i < n
            invariant
                self.wf(),
                i <= n,
                n == ps.len(),
                ps == params_view(params@),
                states.len() == i + 1,
                states[0] == *old(self),
                states[i as int] == *self,
                forall|k: int| 0 <= k < i ==> #[trigger] mode_link(states, ps, k, set, private),
            decreases n - i,
        {
            let p = first_raw_exec(&params[i]);
            assert(params@[i as int]@ == ps[i as int]);
            let ghost prev = *self;
            if private {
                self.set_private_mode(p, set);
            } else {
                self.set_ansi_mode(p, set);
            }
            proof {
                let old_states = states;
                states = states.push(*self);
                assert forall|k: int| 0 <= k < i + 1 implies #[trigger] mode_link(states, ps, k, set, private) by {
                    if k < i {
                        assert(mode_link(old_states, ps, k, set, private));
                        assert(states[k] == old_states[k] && states[k + 1] == old_states[k + 1]);
                    } else {
                        assert(states[k] == prev && states[k + 1] == *self);
                    }
                }
            }
            i = i + 1;
        }
        assert(mode_chain(states, *old(self), *self, ps, set, private));
    }
}


impl Terminal {
    /// DECSCUSR: sets the cursor shape and blinking.
    fn set_cursor_style(&mut self, style: usize)
        requires
            old(self).wf(),
        ensures
            final(self).wf(),
            cursor_style_done(*final(self), *old(self), style),
    {
        if style == 0 {
            self.cursor_style = self.default_cursor_style;
            self.cursor_blinking = self.default_cursor_blinking;
        } else if style <= 2 {
            self.cursor_style = CursorStyle::Block;
            self.cursor_blinking = style == 1;
        } else if style <= 4 {
            self.cursor_style = CursorStyle::Underline;
            self.cursor_blinking = style == 3;
        } else if style <= 6 {
            self.cursor_style = CursorStyle::Bar;
            self.cursor_blinking = style == 5;
        }
    }

    /// Kitty keyboard protocol: push (`>`), pop (`<`) and query (`?`).
    fn kitty_csi(&mut self, params: &[Vec<u16>], lead_byte: Option<u8>)
        requires
            old(self).wf(),
        ensures
            final(self).wf(),
            kitty_csi_done(*final(self), *old(self), params_view(params@), lead_byte),
    {
        let ghost ps = params_view(params@);
        if lead_byte == Some(62u8) {
            let raw = top_or0_exec(params, 0);
            let flags = KittyKeyboardFlags::from_raw(low_byte_exec(raw));
            self.kitty_flags.push(flags);
        } else if lead_byte == Some(60u8) {
            let n: u16 = if params.len() > 0 && params[0].len() > 0 { params[0][0] } else { 1 };
            assert(params.len() > 0 ==> params@[0]@ == ps[0]);
            self.kitty_flags.pop(n as usize);
        } else if lead_byte == Some(63u8) {
            let current = self.kitty_flags.current().raw();
            let mut reply: Vec<u8> = Vec::new();
            reply.push(27);
            reply.push(91);
            reply.push(63);
            push_decimal(&mut reply, current as usize);
            reply.push(117);
            assert(reply@ =~= kitty_reply(current as nat));
            self.write_response(reply.as_slice());
        }
    }

    /// DA (`c`), DSR/CPR (`n`) and the title report (`21 t`).
    fn report_csi(&mut self, params: &[Vec<u16>], lead_byte: Option<u8>, action: char)
        requires
            old(self).wf(),
            action == 'c' || action == 'n' || action == 't',
        ensures
            final(self).wf(),
            report_csi_done(*final(self), *old(self), params_view(params@), lead_byte, action),
    {
        let private = lead_byte == Some(63u8);
        let p = first_param(params, 0);
        if action == 'c' {
            if lead_byte == Some(62u8) {
                let r: [u8; 9] = [27, 91, 62, 48, 59, 48, 59, 48, 99];
                assert(r@ == da2_reply());
                self.write_response(&r);
            } else if !private && p == 0 {
                let r: [u8; 8] = [27, 91, 63, 54, 50, 59, 52, 99];
                assert(r@ == da1_reply());
                self.write_response(&r);
            }
        } else if action == 'n' {
            if !private && p == 5 {
                let r: [u8; 4] = [27, 91, 48, 110];
                assert(r@ == dsr_reply());
                self.write_response(&r);
            } else if !private && p == 6 {
                let row = self.grid.cursor.point.line.as_viewport_idx() + 1;
                let col = self.grid.cursor.point.column.0 + 1;
                let mut reply: Vec<u8> = Vec::new();
                reply.push(27);
                reply.push(91);
                push_decimal(&mut reply, row);
                reply.push(59);
                push_decimal(&mut reply, col);
                reply.push(82);
                assert(reply@ =~= cpr_reply(row as nat, col as nat));
                self.write_response(reply.as_slice());
            }
        } else {
            if p == 21 && self.title_report {
                match &self.title {
                    Some(t) => {
                        let mut reply: Vec<u8> = Vec::new();
                        reply.push(27);
                        reply.push(93);
                        reply.push(108);
                        push_bytes(&mut reply, t.as_str().as_bytes());
                        reply.push(27);
                        reply.push(92);
                        assert(reply@ =~= title_reply(t@));
                        self.write_response(reply.as_slice());
                    },
                    None => {},
                }
            }
        }
    }

    /// Handles a complete CSI sequence.
    pub fn csi_dispatch(&mut self, params: &[Vec<u16>], intermediates: &[u8], ignore: bool, action: char)
        requires
            old(self).wf(),
        ensures
            final(self).wf(),
            csi_handled(*final(self), *old(self), params_view(params@), intermediates@, action),
    {
        let lead_byte: Option<u8> = if intermediates.len() > 0 { Some(intermediates[0]) } else { None };
        let private = lead_byte == Some(63u8);
        match action {
            'A' | 'B' | 'C' | 'D' | 'H' | 'f' => self.cursor_csi(params, action),
            'J' => {
                let mode = first_param(params, 0);
                self.erase_display(mode);
            },
            'K' => {
                let mode = first_param(params, 0);
                self.erase_in_line(mode);
            },
            'L' | 'M' | 'S' | 'T' => self.scroll_csi(params, action),
            'm' => self.dispatch_sgr(params),
            'r' => self.set_scroll_region(params),
            'h' | 'l' => self.set_modes(params, action == 'h', private),
            'c' | 'n' | 't' => self.report_csi(params, lead_byte, action),
            'q' => {
                if lead_byte == Some(32u8) {
                    let style = first_param(params, 0);
                    self.set_cursor_style(style);
                }
            },
            'u' => self.kitty_csi(params, lead_byte),
            _ => {},
        }
    }
}


/// DECSC then DECRC gives back the saved cursor, whatever moved the cursor
/// in between (as long as the saved cursor itself was left alone).
pub proof fn lemma_save_restore_cursor(t0: Terminal, t1: Terminal, t2: Terminal, t3: Terminal)
    requires
        esc_handled(t1, t0, 0x37),
        t2.grid.saved_cursor == t1.grid.saved_cursor,
        esc_handled(t3, t2, 0x38),
    ensures
        t3.grid.cursor == t0.grid.cursor,
{
}

/// A soft wrap leaves the saved cursor alone.
proof fn lemma_soft_wrap_keeps_saved_cursor(new: Terminal, old: Terminal)
    requires
        soft_wrapped(new, old),
    ensures
        new.grid.saved_cursor == old.grid.saved_cursor,
{
    let (a, b) = choose|a: Terminal, b: Terminal|
        cursor_cell_set(a, old, with_flags_set(old.grid.cell_at(old.cursor_row() as int, old.grid.cursor.point.column.0 as int), CellFlags::WRAPLINE))
        && linefed(b, a) && carriage_returned(new, b);
}

/// Printing a character leaves the saved cursor alone.
pub proof fn lemma_print_keeps_saved_cursor(new: Terminal, old: Terminal, c: char)
    requires
        printed(new, old, c),
    ensures
        new.grid.saved_cursor == old.grid.saved_cursor,
{
    let (s1, s2) = choose|s1: Terminal, s2: Terminal| #[trigger] print_steps(new, old, c, print_width(c), s1, s2);
    if old.grid.cursor.input_needs_wrap && old.mode.has(TermMode::LINE_WRAP) {
        lemma_soft_wrap_keeps_saved_cursor(s1, old);
    }
    let col = s1.grid.cursor.point.column.0 as int;
    let blank = reset_cell(s1.grid.cursor.template);
    if print_width(c) == 2 && col + 1 >= s1.columns_spec() && old.mode.has(TermMode::LINE_WRAP) {
        let x = choose|x: Terminal| cursor_cell_set(x, s1, blank) && #[trigger] soft_wrapped(s2, x);
        lemma_soft_wrap_keeps_saved_cursor(s2, x);
    }
}

/// `new` follows `old` by printing a character, by an SGR parameter applied
/// to the cursor template, or by a cursor-movement CSI.
pub open spec fn plain_step(new: Terminal, old: Terminal) -> bool {
    ||| exists|c: char| #[trigger] printed(new, old, c)
    ||| exists|p: u16|
        new == with_cursor(old, Cursor { template: #[trigger] sgr_applied(old.grid.cursor.template, p), ..old.grid.cursor })
    ||| exists|ps: Seq<Seq<u16>>, a: char|
        (a == 'A' || a == 'B' || a == 'C' || a == 'D' || a == 'H' || a == 'f') && #[trigger] cursor_csi_done(new, old, ps, a)
}

/// A plain step leaves the saved cursor alone.
pub proof fn lemma_plain_step_keeps_saved_cursor(new: Terminal, old: Terminal)
    requires
        plain_step(new, old),
    ensures
        new.grid.saved_cursor == old.grid.saved_cursor,
{
    if exists|c: char| #[trigger] printed(new, old, c) {
        let c = choose|c: char| #[trigger] printed(new, old, c);
        lemma_print_keeps_saved_cursor(new, old, c);
    }
}

/// Along a run of plain steps, the saved cursor of `ts[k]` is that of `ts[1]`.
proof fn lemma_steps_keep_saved_cursor(ts: Seq<Terminal>, k: int)
    requires
        ts.len() >= 2,
        1 <= k < ts.len(),
        forall|j: int| 1 <= j < ts.len() - 1 ==> plain_step(#[trigger] ts[j + 1], ts[j]),
    ensures
        ts[k].grid.saved_cursor == ts[1].grid.saved_cursor,
    decreases k,
{
    if k > 1 {
        lemma_steps_keep_saved_cursor(ts, k - 1);
        let j = k - 1;
        assert(plain_step(ts[j + 1], ts[j]));
        assert(ts[j + 1] == ts[k]);
        lemma_plain_step_keeps_saved_cursor(ts[k], ts[k - 1]);
    }
}

/// DECSC, then any run of printed characters, SGR parameters and
/// cursor-movement CSIs, then DECRC gives back the cursor that DECSC saved:
/// `ts[0]` is the terminal before DECSC, `ts[1]` after it, each `ts[k + 1]`
/// follows `ts[k]` by a plain step, and DECRC follows the last.
pub proof fn lemma_save_steps_restore(ts: Seq<Terminal>, t_end: Terminal)
    requires
        ts.len() >= 2,
        esc_handled(ts[1], ts[0], 0x37),
        forall|k: int| 1 <= k < ts.len() - 1 ==> plain_step(#[trigger] ts[k + 1], ts[k]),
        esc_handled(t_end, ts.last(), 0x38),
    ensures
        t_end.grid.cursor == ts[0].grid.cursor,
{
    lemma_steps_keep_saved_cursor(ts, ts.len() - 1);
    lemma_save_restore_cursor(ts[0], ts[1], ts.last(), t_end);
}

/// EL (erase in line): mode 0 blanks the cursor's line from the cursor's
/// column to the last column, mode 1 from the first column to the cursor's
/// column, mode 2 the whole line; each blanked cell becomes a blank with the
/// cursor template's colours. Every other viewport cell, the cursor and all
/// state outside the active grid stay as they were.
pub proof fn lemma_erase_in_line(new: Terminal, old: Terminal, mode: usize)
    requires
        old.wf(),
        mode <= 2,
        erase_line_done(new, old, mode),
    ensures
        new.grid.cursor == old.grid.cursor,
        new.mode == old.mode,
        new.inactive_grid == old.inactive_grid,
        new.lines_spec() == old.lines_spec(),
        new.columns_spec() == old.columns_spec(),
        forall|l: int, c: int|
            0 <= l < old.lines_spec() && 0 <= c < old.columns_spec() ==> #[trigger] new.grid.cell_at(l, c) == if l
                == old.grid.cursor.point.line.0 && (mode == 2 || (mode == 0 && c >= old.grid.cursor.point.column.0) || (
            mode == 1 && c <= old.grid.cursor.point.column.0)) {
                reset_cell(old.grid.cursor.template)
            } else {
                old.grid.cell_at(l, c)
            },
{
    old.grid.lemma_wf();
}


/// ED (erase in display): mode 0 blanks from the cursor to the end of the
/// screen (the rest of the cursor's line and every line below), mode 1 from
/// the start of the screen to the cursor (every line above and the cursor's
/// line up to its column), mode 2 the whole screen; each blanked cell becomes
/// a blank with the cursor template's colours. Every other viewport cell,
/// the cursor and all state outside the active grid stay as they were.
pub proof fn lemma_erase_in_display(new: Terminal, old: Terminal, mode: usize)
    requires
        old.wf(),
        mode <= 2,
        erase_display_done(new, old, mode),
    ensures
        new.grid.cursor == old.grid.cursor,
        new.mode == old.mode,
        new.inactive_grid == old.inactive_grid,
        forall|l: int, c: int|
            0 <= l < old.lines_spec() && 0 <= c < old.columns_spec() ==> #[trigger] new.grid.cell_at(l, c) == if mode == 2 || (
            mode == 0 && (l > old.grid.cursor.point.line.0 || (l == old.grid.cursor.point.line.0 && c
                >= old.grid.cursor.point.column.0))) || (mode == 1 && (l < old.grid.cursor.point.line.0 || (l
                == old.grid.cursor.point.line.0 && c <= old.grid.cursor.point.column.0))) {
                reset_cell(old.grid.cursor.template)
            } else {
                old.grid.cell_at(l, c)
            },
{
    old.grid.lemma_wf();
    if mode == 2 {
        assert forall|l: int, c: int| 0 <= l < old.lines_spec() && 0 <= c < old.columns_spec() implies #[trigger] new.grid.cell_at(
            l,
            c,
        ) == reset_cell(old.grid.cursor.template) by {
            assert(new.grid.line_view(l) == crate::grid::reset_view(old.grid.line_view(l), old.grid.cursor.template));
        }
    }
}


/// Cursor-movement CSIs with count `n` (the first parameter, 1 when absent
/// or 0): CUU (`A`) moves up `n` lines but not above the scroll region's top
/// line, CUD (`B`) down `n` lines but not past the last line, CUF (`C`) right
/// `n` columns but not past the last column, CUB (`D`) left `n` columns but
/// not past column 0; CUP (`H`, `f`) goes to the 1-based row and column of
/// its two parameters (1 when absent or 0), clamped to the screen. `A` and
/// `B` keep the column, `C` and `D` keep the line; each clears a pending
/// wrap, keeps the template and changes nothing but the cursor.
pub proof fn lemma_cursor_moves(new: Terminal, old: Terminal, ps: Seq<Seq<u16>>, a: char)
    requires
        old.wf(),
        a == 'A' || a == 'B' || a == 'C' || a == 'D' || a == 'H' || a == 'f',
        cursor_csi_done(new, old, ps, a),
    ensures
        new == with_cursor(old, new.grid.cursor),
        !new.grid.cursor.input_needs_wrap,
        new.grid.cursor.template == old.grid.cursor.template,
        ({
            let n = param_or(ps, 0, 1) as int;
            let row = old.grid.cursor.point.line.0 as int;
            let col = old.grid.cursor.point.column.0 as int;
            let top = old.scroll_region.start as int;
            let last_line = old.lines_spec() - 1;
            let last_col = old.columns_spec() - 1;
            let nl = new.grid.cursor.point.line.0 as int;
            let nc = new.grid.cursor.point.column.0 as int;
            &&& a == 'A' ==> nc == col && nl == (if row - n > top { row - n } else { top })
            &&& a == 'B' ==> nc == col && nl == (if row + n < last_line { row + n } else { last_line })
            &&& a == 'C' ==> nl == row && nc == (if col + n < last_col { col + n } else { last_col })
            &&& a == 'D' ==> nl == row && nc == (if col - n > 0 { col - n } else { 0 })
            &&& (a == 'H' || a == 'f') ==> {
                let r = param_or(ps, 0, 1) as int - 1;
                let c = param_or(ps, 1, 1) as int - 1;
                &&& nl == (if r < last_line { r } else { last_line })
                &&& nc == (if c < last_col { c } else { last_col })
            }
        }),
{
    old.grid.lemma_wf();
}


/// Extended SGR colours: `38;5;n` sets the foreground to palette entry `n`
/// and `38;2;r;g;b` to that true colour, in the colon form (one parameter)
/// and the semicolon form (separate parameters) alike; `48` does the same
/// for the background. Nothing else of the template changes.
pub proof fn lemma_sgr_extended_colours(t: Cell, n: u8, r: u8, g: u8, b: u8)
    ensures
        sgr_from(t, seq![seq![38u16, 5u16, n as u16]], 0) == (Cell { fg: Color::Indexed(n), ..t }),
        sgr_from(t, seq![seq![48u16, 5u16, n as u16]], 0) == (Cell { bg: Color::Indexed(n), ..t }),
        sgr_from(t, seq![seq![38u16], seq![5u16], seq![n as u16]], 0) == (Cell { fg: Color::Indexed(n), ..t }),
        sgr_from(t, seq![seq![48u16], seq![5u16], seq![n as u16]], 0) == (Cell { bg: Color::Indexed(n), ..t }),
        sgr_from(t, seq![seq![38u16, 2u16, r as u16, g as u16, b as u16]], 0) == (Cell { fg: Color::Rgb { r, g, b }, ..t }),
        sgr_from(t, seq![seq![48u16, 2u16, r as u16, g as u16, b as u16]], 0) == (Cell { bg: Color::Rgb { r, g, b }, ..t }),
        sgr_from(t, seq![seq![38u16], seq![2u16], seq![r as u16], seq![g as u16], seq![b as u16]], 0) == (Cell {
            fg: Color::Rgb { r, g, b },
            ..t
        }),
        sgr_from(t, seq![seq![48u16], seq![2u16], seq![r as u16], seq![g as u16], seq![b as u16]], 0) == (Cell {
            bg: Color::Rgb { r, g, b },
            ..t
        }),
{
    assert(low_byte(n as u16) == n);
    assert(low_byte(r as u16) == r);
    assert(low_byte(g as u16) == g);
    assert(low_byte(b as u16) == b);
    reveal_with_fuel(sgr_from, 2);
}


} // verus!

//! The terminal state machine: modes, the keyboard protocol flag stack,
//! shell-integration markers and the [`Terminal`] that the VT parser drives.
pub mod handler;
pub mod osc;
pub mod search;
pub mod url_detector;
pub mod vi_mode;

use vstd::prelude::*;
use std::collections::VecDeque;
use std::ops::Range;
use crate::config::OscColorReportFormat;
use crate::grid::{Cursor, Grid, default_cursor, scrolled_up, resized, reset_view};
use crate::grid::cell::{Cell, CellFlags, Color, NamedColor, default_cell, reset_cell};
use crate::grid::storage::MAX_CACHE_SIZE;
use crate::index::{Column, Line, Point, viewport_idx_spec, point_le};

verus! {

#[verifier::external_type_specification]
#[verifier::external_body]
pub struct ExInstant(std::time::Instant);

/// What `unicode_width::UnicodeWidthChar::width` gives for a character.
pub uninterp spec fn unicode_char_width(c: char) -> Option<usize>;

/// `unicode_width::UnicodeWidthChar::width`: the columns that `c` takes.
/// The crate returns `None` exactly for the control characters below U+0020
/// and from U+007F to U+009F, 1 for the printable ASCII range, and never
/// more than 3; other widths come from its Unicode tables and are only named
/// here.
#[verifier::external_body]
pub fn char_width(c: char) -> (r: Option<usize>)
    ensures
        r == unicode_char_width(c),
        r is None <==> ((c as u32) < 0x20 || (0x7f <= (c as u32) && (c as u32) < 0xa0)),
        (0x20 <= (c as u32) && (c as u32) < 0x7f) ==> r == Some(1usize),
        r is Some ==> r->0 <= 3,
{
    unicode_width::UnicodeWidthChar::width(c)
}

/// The cells that `print` gives `c`: the crate's width, 1 for control characters.
pub open spec fn print_width(c: char) -> int {
    match unicode_char_width(c) {
        Some(w) => w as int,
        None => 1,
    }
}

/// `std::time::Instant::now`: the current instant. Nothing is stated of the
/// value, which depends on the clock.
#[verifier::external_body]
fn instant_now() -> (r: std::time::Instant) {
    std::time::Instant::now()
}

/// `Instant::elapsed` of `start`, in whole seconds (`Duration::as_secs`).
/// Nothing is stated of the value, which depends on the clock.
#[verifier::external_body]
fn elapsed_whole_secs(start: &std::time::Instant) -> (r: u64) {
    start.elapsed().as_secs()
}

/// Largest number of reply bytes that may wait in `pending_writes`.
pub const MAX_PENDING_WRITES: usize = 4096;

/// Largest number of semantic markers kept; the oldest go first.
pub const MAX_SEMANTIC_MARKERS: usize = 10000;

/// Shell-integration zone kinds (OSC 133).
#[derive(Debug, Clone, Copy, PartialEq, Eq, Structural)]
pub enum SemanticZone {
    /// Prompt start (OSC 133;A).
    PromptStart,
    /// Command input start (OSC 133;B).
    CommandStart,
    /// Command output start (OSC 133;C).
    OutputStart,
    /// Command end with its exit code, if one was given (OSC 133;D).
    CommandEnd(Option<i32>),
}

/// A zone marker recorded at a viewport line.
#[derive(Debug, Clone, Copy, PartialEq, Eq, Structural)]
pub struct SemanticMarker {
    /// Cursor line at the time the marker was recorded.
    pub line: i32,
    /// Zone kind.
    pub zone: SemanticZone,
}

/// Cursor shape.
#[derive(Debug, Clone, Copy, PartialEq, Eq, Structural)]
pub enum CursorStyle {
    Block,
    Underline,
    Bar,
}

impl Default for CursorStyle {
    fn default() -> (r: Self)
        ensures
            r == CursorStyle::Block,
    {
        CursorStyle::Block
    }
}

/// Active terminal mode bits.
#[derive(Debug, Clone, Copy, PartialEq, Eq, Structural, Default)]
pub struct TermMode(pub u32);

impl TermMode {
    /// Show the cursor (DECTCEM).
    pub const SHOW_CURSOR: u32 = 0x0001;
    /// Automatic line wrap (DECAWM).
    pub const LINE_WRAP: u32 = 0x0002;
    /// Origin mode (DECOM).
    pub const ORIGIN: u32 = 0x0004;
    /// Insert mode.
    pub const INSERT: u32 = 0x0008;
    /// Application cursor keys.
    pub const APP_CURSOR: u32 = 0x0010;
    /// Application keypad.
    pub const APP_KEYPAD: u32 = 0x0020;
    /// The alternate screen is active.
    pub const ALT_SCREEN: u32 = 0x0040;
    /// Bracketed paste.
    pub const BRACKETED_PASTE: u32 = 0x0080;
    /// LF also returns the carriage (LNM).
    pub const LINE_FEED_NEW_LINE: u32 = 0x0100;
    /// X10/X11 click reporting (?9 / ?1000).
    pub const MOUSE_REPORT_CLICK: u32 = 0x0200;
    /// Button-event tracking (?1002).
    pub const MOUSE_REPORT_DRAG: u32 = 0x0400;
    /// Any-event tracking (?1003).
    pub const MOUSE_REPORT_MOTION: u32 = 0x0800;
    /// SGR extended mouse coordinates (?1006).
    pub const SGR_MOUSE: u32 = 0x1000;
    /// UTF-8 mouse coordinates (?1005).
    pub const UTF8_MOUSE: u32 = 0x2000;

    /// Every bit of `bits` is set.
    pub open spec fn has(self, bits: u32) -> bool {
        self.0 & bits == bits
    }

    /// The modes of a fresh terminal: cursor shown, line wrap on.
    pub fn defaults() -> (r: TermMode)
        ensures
            r.0 == TermMode::SHOW_CURSOR | TermMode::LINE_WRAP,
    {
        TermMode(TermMode::SHOW_CURSOR | TermMode::LINE_WRAP)
    }

    pub fn empty() -> (r: TermMode)
        ensures
            r.0 == 0,
    {
        TermMode(0)
    }

    pub fn bits(&self) -> (r: u32)
        ensures
            r == self.0,
    {
        self.0
    }

    /// Every bit of `bits` is set.
    pub fn contains(&self, bits: u32) -> (r: bool)
        ensures
            r == self.has(bits),
    {
        self.0 & bits == bits
    }

    /// Some bit of `bits` is set.
    pub fn intersects(&self, bits: u32) -> (r: bool)
        ensures
            r == (self.0 & bits != 0),
    {
        self.0 & bits != 0
    }

    /// Sets the given bits.
    pub fn insert(&mut self, bits: u32)
        ensures
            final(self).0 == old(self).0 | bits,
    {
        self.0 = self.0 | bits;
    }

    /// Clears the given bits.
    pub fn remove(&mut self, bits: u32)
        ensures
            final(self).0 == old(self).0 & !bits,
    {
        self.0 = self.0 & !bits;
    }

    /// Flips the given bits.
    pub fn toggle(&mut self, bits: u32)
        ensures
            final(self).0 == old(self).0 ^ bits,
    {
        self.0 = self.0 ^ bits;
    }
}

/// Progressive-enhancement flags of the kitty keyboard protocol (five bits).
#[derive(Debug, Clone, Copy, Default)]
pub struct KittyKeyboardFlags(u8);

impl PartialEq for KittyKeyboardFlags {
    fn eq(&self, other: &Self) -> (r: bool) {
        self.0 == other.0
    }
}

impl vstd::std_specs::cmp::PartialEqSpecImpl for KittyKeyboardFlags {
    open spec fn obeys_eq_spec() -> bool {
        true
    }

    open spec fn eq_spec(&self, other: &Self) -> bool {
        self.spec_raw() == other.spec_raw()
    }
}

/// Flags compare equal to a raw bit pattern with the same bits.
impl PartialEq<u8> for KittyKeyboardFlags {
    fn eq(&self, other: &u8) -> (r: bool) {
        self.0 == *other
    }
}

impl vstd::std_specs::cmp::PartialEqSpecImpl<u8> for KittyKeyboardFlags {
    open spec fn obeys_eq_spec() -> bool {
        true
    }

    open spec fn eq_spec(&self, other: &u8) -> bool {
        self.spec_raw() == *other
    }
}

impl KittyKeyboardFlags {
    /// No flag: legacy behaviour.
    pub const NONE: u8 = 0;
    /// Bit 0: disambiguate escape codes.
    pub const DISAMBIGUATE: u8 = 1;
    /// Bit 1: report event types (press, repeat, release).
    pub const REPORT_EVENTS: u8 = 2;
    /// Bit 2: report alternate keys.
    pub const REPORT_ALTERNATES: u8 = 4;
    /// Bit 3: report all keys as escape codes.
    pub const REPORT_ALL: u8 = 8;
    /// Bit 4: report associated text.
    pub const REPORT_ASSOCIATED: u8 = 16;

    /// The raw bits.
    pub closed spec fn spec_raw(self) -> u8 {
        self.0
    }

    /// Flags from a raw byte; bits above the fifth are masked off.
    pub fn from_raw(val: u8) -> (r: Self)
        ensures
            r.spec_raw() == val & 0x1f,
    {
        KittyKeyboardFlags(val & 0x1f)
    }

    /// The raw bits.
    pub fn raw(self) -> (r: u8)
        ensures
            r == self.spec_raw(),
    {
        self.0
    }

    /// Some bit of `flag` is set.
    pub fn has(self, flag: u8) -> (r: bool)
        ensures
            r == (self.spec_raw() & flag != 0),
    {
        self.0 & flag != 0
    }

    /// Any flag is set.
    pub fn is_active(self) -> (r: bool)
        ensures
            r == (self.spec_raw() != 0),
    {
        self.0 != 0
    }
}


/// Push/pop stack of kitty keyboard flags: eight fixed slots, of which the
/// first always stays; a push onto a full stack is ignored.
#[derive(Debug, Clone)]
pub struct KittyFlagStack {
    entries: [KittyKeyboardFlags; 8],
    len: usize,
}

impl KittyFlagStack {
    /// The flags on the stack, bottom first.
    pub closed spec fn view_flags(&self) -> Seq<u8> {
        Seq::new(self.len as nat, |i: int| self.entries@[i].spec_raw())
    }

    /// Stack invariant: one to eight entries, unused slots cleared.
    pub closed spec fn wf(&self) -> bool {
        &&& 1 <= self.len <= 8
        &&& forall|i: int| self.len <= i < 8 ==> #[trigger] self.entries@[i].spec_raw() == 0
    }

    /// A stack holding only the initial, empty entry.
    pub fn new() -> (r: Self)
        ensures
            r.wf(),
            r.view_flags() == seq![0u8],
    {
        let none = KittyKeyboardFlags(0);
        let r = KittyFlagStack { entries: [none, none, none, none, none, none, none, none], len: 1 };
        assert(r.view_flags() =~= seq![0u8]);
        r
    }

    /// Pushes `flags`; a full stack (eight entries) is left as it is.
    pub fn push(&mut self, flags: KittyKeyboardFlags)
        requires
            old(self).wf(),
        ensures
            final(self).wf(),
            final(self).view_flags() == if old(self).view_flags().len() < 8 {
                old(self).view_flags().push(flags.spec_raw())
            } else {
                old(self).view_flags()
            },
    {
        if self.len < 8 {
            let ghost before = *self;
            self.entries[self.len] = flags;
            self.len = self.len + 1;
            assert(self.view_flags() =~= before.view_flags().push(flags.spec_raw()));
        }
    }

    /// Pops `n` entries; the bottom entry always stays.
    pub fn pop(&mut self, n: usize)
        requires
            old(self).wf(),
        ensures
            final(self).wf(),
            final(self).view_flags() == old(self).view_flags().take(
                if old(self).view_flags().len() > n + 1 { old(self).view_flags().len() - n } else { 1 },
            ),
    {
        let ghost before = *self;
        let sub = if self.len > n { self.len - n } else { 0 };
        let new_len = if sub > 1 { sub } else { 1 };
        let mut i = new_len;
        while i < self.len
            invariant
                1 <= new_len <= i <= self.len,
                self.len == before.len,
                self.len <= 8,
                forall|j: int| 0 <= j < new_len ==> self.entries@[j] == before.entries@[j],
                forall|j: int| new_len <= j < i ==> #[trigger] self.entries@[j].spec_raw() == 0,
                forall|j: int| self.len <= j < 8 ==> #[trigger] self.entries@[j].spec_raw() == 0,
            decreases self.len - i,
        {
            self.entries[i] = KittyKeyboardFlags(0);
            i = i + 1;
        }
        self.len = new_len;
        assert(self.view_flags() =~= before.view_flags().take(new_len as int));
    }

    /// The flags on top of the stack.
    pub fn current(&self) -> (r: KittyKeyboardFlags)
        requires
            self.wf(),
        ensures
            r.spec_raw() == self.view_flags().last(),
    {
        self.entries[self.len - 1]
    }

    /// Replaces the flags on top of the stack.
    pub fn set(&mut self, flags: KittyKeyboardFlags)
        requires
            old(self).wf(),
        ensures
            final(self).wf(),
            final(self).view_flags() == old(self).view_flags().update(
                old(self).view_flags().len() - 1,
                flags.spec_raw(),
            ),
    {
        let ghost before = *self;
        self.entries[self.len - 1] = flags;
        assert(self.view_flags() =~= before.view_flags().update(before.view_flags().len() - 1, flags.spec_raw()));
    }
}

impl Default for KittyFlagStack {
    fn default() -> (r: Self)
        ensures
            r.wf(),
            r.view_flags() == seq![0u8],
    {
        KittyFlagStack::new()
    }
}


/// Tab stops of a line of `columns` cells: every eighth column but the first.
pub open spec fn tab_stops(columns: nat) -> Seq<bool> {
    Seq::new(columns, |c: int| c != 0 && c % 8 == 0)
}

/// Builds the tab-stop table of a line of `columns` cells.
pub fn build_tabs(columns: usize) -> (r: Vec<bool>)
    ensures
        r@ == tab_stops(columns as nat),
{
    let mut tabs: Vec<bool> = Vec::new();
    let mut c: usize = 0;
    while c < columns
        invariant
            c <= columns,
            tabs@ == tab_stops(c as nat),
        decreases columns - c,
    {
        tabs.push(c != 0 && c % 8 == 0);
        c = c + 1;
        assert(tabs@ =~= tab_stops(c as nat));
    }
    tabs
}

/// The cursor lies inside a viewport of `lines` rows and `columns` columns.
pub open spec fn cursor_inside(c: Cursor, lines: nat, columns: nat) -> bool {
    0 <= c.point.line.0 < lines && c.point.column.0 < columns
}

/// The terminal: primary and alternate grids, modes, scroll region, tab
/// stops, and what the escape sequences left for the application to pick up.
pub struct Terminal {
    /// The active grid.
    pub grid: Grid,
    /// The other grid (primary while the alternate screen is shown).
    pub inactive_grid: Grid,
    /// Active mode bits.
    pub mode: TermMode,
    /// Scroll region as viewport rows `start..end`.
    pub scroll_region: Range<usize>,
    /// `tabs[col]` holds when column `col` is a tab stop.
    pub tabs: Vec<bool>,
    /// Window title set by OSC 0/2.
    pub title: Option<String>,
    /// Reply bytes waiting for the pty (at most `MAX_PENDING_WRITES`).
    pub pending_writes: Vec<u8>,
    /// Cursor shape chosen by the application (DECSCUSR).
    pub cursor_style: CursorStyle,
    /// Cursor blinking chosen by the application.
    pub cursor_blinking: bool,
    /// Shape that DECSCUSR 0 returns to.
    pub default_cursor_style: CursorStyle,
    /// Blinking that DECSCUSR 0 returns to.
    pub default_cursor_blinking: bool,
    /// A BEL arrived.
    pub bell_pending: bool,
    /// Text that OSC 52 asked to put on the clipboard.
    pub clipboard_write_pending: Option<String>,
    /// The hyperlink (OSC 8) that newly printed cells carry.
    pub current_hyperlink: Option<String>,
    /// Kitty keyboard protocol flag stack.
    pub kitty_flags: KittyFlagStack,
    /// Desktop notification `(title, body)` from OSC 9/99.
    pub notification_pending: Option<(String, String)>,
    /// Shell-integration markers in the order they arrived.
    pub semantic_markers: VecDeque<SemanticMarker>,
    /// OSC 133 markers are recorded.
    pub shell_integration_enabled: bool,
    /// Number format of colour-query answers.
    pub osc_color_report_format: OscColorReportFormat,
    /// CSI 21 t may report the window title.
    pub title_report: bool,
    /// Answer to ENQ, if any.
    pub enquiry_response: Option<String>,
    /// When the running command started (OSC 133;B).
    pub command_start_time: Option<std::time::Instant>,
    /// `(elapsed seconds, exit code)` of a command that finished (OSC 133;D).
    pub command_finished_pending: Option<(u64, Option<i32>)>,
}

impl Terminal {
    /// Terminal invariant.
    pub open spec fn wf(&self) -> bool {
        let lines = self.grid.lines_spec();
        let cols = self.grid.columns_spec();
        &&& self.grid.wf()
        &&& self.inactive_grid.wf()
        &&& self.inactive_grid.lines_spec() == lines
        &&& self.inactive_grid.columns_spec() == cols
        &&& cols >= 1
        &&& lines <= i32::MAX
        &&& self.scroll_region.start < self.scroll_region.end <= lines
        &&& self.tabs@.len() == cols
        &&& cursor_inside(self.grid.cursor, lines, cols)
        &&& cursor_inside(self.grid.saved_cursor, lines, cols)
        &&& cursor_inside(self.inactive_grid.cursor, lines, cols)
        &&& cursor_inside(self.inactive_grid.saved_cursor, lines, cols)
        &&& self.pending_writes@.len() <= MAX_PENDING_WRITES
        &&& self.kitty_flags.wf()
        &&& self.semantic_markers@.len() <= MAX_SEMANTIC_MARKERS
    }

    /// Number of viewport rows.
    pub open spec fn lines_spec(&self) -> nat {
        self.grid.lines_spec()
    }

    /// Number of columns.
    pub open spec fn columns_spec(&self) -> nat {
        self.grid.columns_spec()
    }

    /// The viewport row of the cursor.
    pub open spec fn cursor_row(&self) -> nat {
        viewport_idx_spec(self.grid.cursor.point.line.0)
    }

    /// The state of a terminal fresh from `new_with_cursor`.
    pub open spec fn is_fresh(&self, lines: usize, columns: usize, max_scroll_limit: usize, style: CursorStyle, blinking: bool) -> bool {
        &&& self.wf()
        &&& self.grid.lines_spec() == lines
        &&& self.grid.columns_spec() == columns
        &&& self.grid.max_scroll_spec() == max_scroll_limit
        &&& self.grid.history() == 0
        &&& self.grid.cursor == default_cursor()
        &&& self.inactive_grid.max_scroll_spec() == 0
        &&& self.mode.0 == TermMode::SHOW_CURSOR | TermMode::LINE_WRAP
        &&& self.scroll_region == (0..lines)
        &&& self.tabs@ == tab_stops(columns as nat)
        &&& self.title is None
        &&& self.pending_writes@.len() == 0
        &&& self.cursor_style == style
        &&& self.cursor_blinking == blinking
        &&& self.default_cursor_style == style
        &&& self.default_cursor_blinking == blinking
        &&& !self.bell_pending
        &&& self.clipboard_write_pending is None
        &&& self.current_hyperlink is None
        &&& self.kitty_flags.view_flags() == seq![0u8]
        &&& self.notification_pending is None
        &&& self.semantic_markers@.len() == 0
        &&& self.shell_integration_enabled
        &&& self.osc_color_report_format == OscColorReportFormat::SixteenBit
        &&& !self.title_report
        &&& self.enquiry_response is None
        &&& self.command_start_time is None
        &&& self.command_finished_pending is None
    }

    /// A terminal of `lines` rows and `columns` columns whose primary grid
    /// keeps up to `max_scroll_limit` history rows; the alternate grid keeps
    /// none.
    ///
    /// It needs at least one column: the terminal always has a cell under
    /// its cursor, which a row of no cells cannot give (printing into one
    /// indexes past its end).
    pub fn new(lines: usize, columns: usize, max_scroll_limit: usize) -> (r: Terminal)
        requires
            1 <= lines <= i32::MAX,
            columns >= 1,
            lines + max_scroll_limit + MAX_CACHE_SIZE + 1 <= usize::MAX,
            max_scroll_limit <= isize::MAX,
        ensures
            r.is_fresh(lines, columns, max_scroll_limit, CursorStyle::Block, false),
    {
        Terminal::new_with_cursor(lines, columns, max_scroll_limit, CursorStyle::Block, false)
    }

    /// Like [`Terminal::new`], with the given cursor shape and blinking as
    /// both the current and the default ones.
    pub fn new_with_cursor(
        lines: usize,
        columns: usize,
        max_scroll_limit: usize,
        default_cursor_style: CursorStyle,
        default_cursor_blinking: bool,
    ) -> (r: Terminal)
        requires
            1 <= lines <= i32::MAX,
            columns >= 1,
            lines + max_scroll_limit + MAX_CACHE_SIZE + 1 <= usize::MAX,
            max_scroll_limit <= isize::MAX,
        ensures
            r.is_fresh(lines, columns, max_scroll_limit, default_cursor_style, default_cursor_blinking),
    {
        let tabs = build_tabs(columns);
        Terminal {
            grid: Grid::new(lines, columns, max_scroll_limit),
            inactive_grid: Grid::new(lines, columns, 0),
            mode: TermMode::defaults(),
            scroll_region: 0..lines,
            tabs,
            title: None,
            pending_writes: Vec::new(),
            cursor_style: default_cursor_style,
            cursor_blinking: default_cursor_blinking,
            default_cursor_style,
            default_cursor_blinking,
            bell_pending: false,
            clipboard_write_pending: None,
            current_hyperlink: None,
            kitty_flags: KittyFlagStack::new(),
            notification_pending: None,
            semantic_markers: VecDeque::new(),
            shell_integration_enabled: true,
            osc_color_report_format: OscColorReportFormat::SixteenBit,
            title_report: false,
            enquiry_response: None,
            command_start_time: None,
            command_finished_pending: None,
        }
    }
}


impl Terminal {
    /// Replaces the default cursor shape and blinking (DECSCUSR 0 returns to
    /// them); the current ones stay.
    pub fn set_default_cursor(&mut self, style: CursorStyle, blinking: bool)
        ensures
            *final(self) == (Terminal { default_cursor_style: style, default_cursor_blinking: blinking, ..*old(self) }),
    {
        self.default_cursor_style = style;
        self.default_cursor_blinking = blinking;
    }

    /// The active grid.
    pub fn grid(&self) -> (r: &Grid)
        ensures
            *r == self.grid,
    {
        &self.grid
    }

    /// Mutable access to the active grid.
    pub fn grid_mut(&mut self) -> (r: &mut Grid)
        ensures
            *r == old(self).grid,
            *final(self) == (Terminal { grid: *final(r), ..*old(self) }),
    {
        &mut self.grid
    }

    /// The active mode bits.
    pub fn mode(&self) -> (r: TermMode)
        ensures
            r == self.mode,
    {
        self.mode
    }

    /// The window title, if one was set.
    pub fn title(&self) -> (r: Option<&str>)
        ensures
            r is Some <==> self.title is Some,
            r is Some ==> r->0@ == self.title->0@,
    {
        match &self.title {
            Some(t) => Some(t.as_str()),
            None => None,
        }
    }

    /// Takes the waiting reply bytes; `None` when there are none.
    pub fn drain_pending_writes(&mut self) -> (r: Option<Vec<u8>>)
        ensures
            old(self).pending_writes@.len() == 0 ==> r is None && *final(self) == *old(self),
            old(self).pending_writes@.len() > 0 ==> r is Some && r->0@ == old(self).pending_writes@
                && *final(self) == (Terminal { pending_writes: final(self).pending_writes, ..*old(self) })
                && final(self).pending_writes@.len() == 0,
    {
        if self.pending_writes.len() == 0 {
            None
        } else {
            let mut out: Vec<u8> = Vec::new();
            std::mem::swap(&mut out, &mut self.pending_writes);
            Some(out)
        }
    }

    /// The cursor shape.
    pub fn cursor_style(&self) -> (r: CursorStyle)
        ensures
            r == self.cursor_style,
    {
        self.cursor_style
    }

    /// Whether the cursor blinks.
    pub fn cursor_blinking(&self) -> (r: bool)
        ensures
            r == self.cursor_blinking,
    {
        self.cursor_blinking
    }

    /// Some mouse reporting mode (click, drag or motion) is on.
    pub fn mouse_mode_active(&self) -> (r: bool)
        ensures
            r == (self.mode.0 & (TermMode::MOUSE_REPORT_CLICK | TermMode::MOUSE_REPORT_DRAG
                | TermMode::MOUSE_REPORT_MOTION) != 0),
    {
        self.mode.intersects(TermMode::MOUSE_REPORT_CLICK | TermMode::MOUSE_REPORT_DRAG | TermMode::MOUSE_REPORT_MOTION)
    }

    /// Whether a BEL arrived since the last call; clears the mark.
    pub fn take_bell(&mut self) -> (r: bool)
        ensures
            r == old(self).bell_pending,
            *final(self) == (Terminal { bell_pending: false, ..*old(self) }),
    {
        let r = self.bell_pending;
        self.bell_pending = false;
        r
    }

    /// Takes the clipboard text that OSC 52 left.
    pub fn take_clipboard_write(&mut self) -> (r: Option<String>)
        ensures
            r == old(self).clipboard_write_pending,
            *final(self) == (Terminal { clipboard_write_pending: None, ..*old(self) }),
    {
        let mut r: Option<String> = None;
        std::mem::swap(&mut r, &mut self.clipboard_write_pending);
        r
    }

    /// Takes the desktop notification `(title, body)` that OSC 9/99 left.
    pub fn take_notification(&mut self) -> (r: Option<(String, String)>)
        ensures
            r == old(self).notification_pending,
            *final(self) == (Terminal { notification_pending: None, ..*old(self) }),
    {
        let mut r: Option<(String, String)> = None;
        std::mem::swap(&mut r, &mut self.notification_pending);
        r
    }
}


/// `t` with the active grid's cursor replaced by `c`.
pub open spec fn with_cursor(t: Terminal, c: Cursor) -> Terminal {
    Terminal { grid: Grid { cursor: c, ..t.grid }, ..t }
}

/// `t` with the cursor moved to (`line`, `column`), the pending wrap cleared.
pub open spec fn moved_to(t: Terminal, line: int, column: int) -> Terminal {
    with_cursor(t, Cursor {
        point: Point { line: Line(line as i32), column: Column(column as usize) },
        input_needs_wrap: false,
        ..t.grid.cursor
    })
}

/// `new` is `old` after a line feed: at the bottom of the scroll region the
/// region scrolls up one line; elsewhere above the last row the cursor moves
/// down; on the last row outside the region nothing happens.
pub open spec fn linefed(new: Terminal, old: Terminal) -> bool {
    let cur = old.cursor_row();
    if cur + 1 == old.scroll_region.end {
        &&& scrolled_up(new.grid, old.grid, old.scroll_region, 1)
        &&& new == (Terminal { grid: new.grid, ..old })
    } else if cur + 1 < old.lines_spec() {
        new == with_cursor(old, Cursor {
            point: Point { line: Line((cur + 1) as i32), ..old.grid.cursor.point },
            ..old.grid.cursor
        })
    } else {
        new == old
    }
}

/// `new` is `old` after a carriage return: column 0, no pending wrap.
pub open spec fn carriage_returned(new: Terminal, old: Terminal) -> bool {
    new == with_cursor(old, Cursor {
        point: Point { column: Column(0), ..old.grid.cursor.point },
        input_needs_wrap: false,
        ..old.grid.cursor
    })
}

/// The viewport cell (`l`, `c`) lies in the row-major span `start..=end`.
pub open spec fn in_span(start: Point, end: Point, l: int, c: int) -> bool {
    &&& (start.line.0 < l || (start.line.0 == l && start.column.0 <= c))
    &&& (l < end.line.0 || (l == end.line.0 && c <= end.column.0))
}

/// `new` is `old` with the viewport cells of the span `start..=end` (and
/// inside the column count) reset from the cursor template.
pub open spec fn grid_erased(new: Grid, old: Grid, start: Point, end: Point) -> bool {
    &&& new.same_shape(old)
    &&& new.cursor == old.cursor
    &&& new.saved_cursor == old.saved_cursor
    &&& forall|l: int| 0 <= l < old.lines_spec() ==> (#[trigger] new.line_view(l)).len() == old.line_view(l).len()
    &&& forall|l: int, c: int|
        0 <= l < old.lines_spec() && 0 <= c < old.line_view(l).len() ==> #[trigger] new.line_view(l)[c] == if c
            < old.columns_spec() && in_span(start, end, l, c) {
            reset_cell(old.cursor.template)
        } else {
            old.line_view(l)[c]
        }
}

/// `new` is `old` after the primary and alternate grids traded places:
/// `ALT_SCREEN` flips and the hyperlink is dropped; entering the alternate
/// screen clears its viewport and homes its cursor, leaving it shows the
/// primary grid as it was.
pub open spec fn alt_swapped(new: Terminal, old: Terminal) -> bool {
    &&& new.mode.0 == old.mode.0 ^ TermMode::ALT_SCREEN
    &&& new.inactive_grid == old.grid
    &&& new.current_hyperlink is None
    &&& !new.mode.has(TermMode::ALT_SCREEN) ==> new.grid == old.inactive_grid
    &&& new.mode.has(TermMode::ALT_SCREEN) ==> {
        &&& new.grid.same_shape(old.inactive_grid)
        &&& new.grid.cursor == default_cursor()
        &&& new.grid.saved_cursor == old.inactive_grid.saved_cursor
        &&& forall|l: int| 0 <= l < old.lines_spec() ==> #[trigger] new.grid.line_view(l)
            == reset_view(old.inactive_grid.line_view(l), old.inactive_grid.cursor.template)
    }
    &&& new == (Terminal {
        grid: new.grid,
        inactive_grid: new.inactive_grid,
        mode: new.mode,
        current_hyperlink: None,
        ..old
    })
}

impl Terminal {
    /// Resizes both grids to `lines` rows and `columns` columns; the scroll
    /// region becomes the whole viewport and the tab stops are rebuilt.
    pub fn resize(&mut self, lines: usize, columns: usize)
        requires
            old(self).wf(),
            1 <= lines <= i32::MAX,
            columns >= 1,
            lines + old(self).grid.max_scroll_spec() + MAX_CACHE_SIZE + 1 <= usize::MAX,
            lines + old(self).inactive_grid.max_scroll_spec() + MAX_CACHE_SIZE + 1 <= usize::MAX,
        ensures
            final(self).wf(),
            resized(final(self).grid, old(self).grid, lines, columns),
            resized(final(self).inactive_grid, old(self).inactive_grid, lines, columns),
            final(self).scroll_region == (0..lines),
            final(self).tabs@ == tab_stops(columns as nat),
            *final(self) == (Terminal {
                grid: final(self).grid,
                inactive_grid: final(self).inactive_grid,
                scroll_region: final(self).scroll_region,
                tabs: final(self).tabs,
                ..*old(self)
            }),
    {
        self.grid.resize(lines, columns);
        self.inactive_grid.resize(lines, columns);
        self.scroll_region = 0..lines;
        self.tabs = build_tabs(columns);
    }

    /// Moves the cursor to (`line`, `column`) clamped into the viewport and
    /// clears the pending wrap.
    pub fn set_cursor(&mut self, line: usize, column: usize)
        requires
            old(self).wf(),
        ensures
            final(self).wf(),
            *final(self) == moved_to(
                *old(self),
                if line < old(self).lines_spec() { line as int } else { old(self).lines_spec() - 1 },
                if column < old(self).columns_spec() { column as int } else { old(self).columns_spec() - 1 },
            ),
    {
        let max_line = self.grid.screen_lines() - 1;
        let max_col = self.grid.columns() - 1;
        let l = if line < max_line { line } else { max_line };
        let c = if column < max_col { column } else { max_col };
        self.grid.cursor.point.line = Line(l as i32);
        self.grid.cursor.point.column = Column(c);
        self.grid.cursor.input_needs_wrap = false;
    }

    /// Line feed: scrolls the region at its bottom row, else moves down.
    pub fn linefeed(&mut self)
        requires
            old(self).wf(),
        ensures
            final(self).wf(),
            linefed(*final(self), *old(self)),
    {
        let cur_line = self.grid.cursor.point.line.as_viewport_idx();
        if cur_line + 1 == self.scroll_region.end {
            let region = self.scroll_region.start..self.scroll_region.end;
            self.grid.scroll_up(region, 1);
        } else if cur_line + 1 < self.grid.screen_lines() {
            self.grid.cursor.point.line = Line(self.grid.cursor.point.line.0 + 1);
        }
    }

    /// Carriage return: column 0, no pending wrap.
    pub fn carriage_return(&mut self)
        requires
            old(self).wf(),
        ensures
            final(self).wf(),
            carriage_returned(*final(self), *old(self)),
    {
        self.grid.cursor.point.column = Column(0);
        self.grid.cursor.input_needs_wrap = false;
    }

    /// Swaps the primary and alternate grids and flips `ALT_SCREEN`; the
    /// active hyperlink is dropped. Entering the alternate screen clears its
    /// viewport and homes its cursor; leaving it shows the primary grid as it
    /// was, cursor included.
    pub fn swap_alt_screen(&mut self)
        requires
            old(self).wf(),
        ensures
            final(self).wf(),
            alt_swapped(*final(self), *old(self)),
    {
        std::mem::swap(&mut self.grid, &mut self.inactive_grid);
        self.mode.toggle(TermMode::ALT_SCREEN);
        self.current_hyperlink = None;
        if self.mode.contains(TermMode::ALT_SCREEN) {
            self.grid.clear_viewport();
            let ghost mid = self.grid;
            self.grid.cursor = Cursor::initial();
            assert forall|l: int| 0 <= l < self.grid.lines_spec() implies #[trigger] self.grid.line_view(l) == mid.line_view(l) by {}
        }
    }

    /// Resets the cursor template to the default cell.
    pub fn reset_sgr(&mut self)
        ensures
            *final(self) == with_cursor(*old(self), Cursor { template: default_cell(), ..old(self).grid.cursor }),
    {
        self.grid.cursor.template = Cell::blank();
    }
}


impl Terminal {
    /// Resets the viewport cells from `start` to `end` (inclusive, row-major)
    /// from the cursor template; an inverted span erases nothing.
    pub fn erase_cells(&mut self, start: Point, end: Point)
        requires
            old(self).wf(),
            0 <= start.line.0,
            0 <= end.line.0,
            old(self).grid.in_viewport(start),
            old(self).grid.in_viewport(end),
        ensures
            final(self).wf(),
            *final(self) == (Terminal { grid: final(self).grid, ..*old(self) }),
            grid_erased(final(self).grid, old(self).grid, start, end),
    {
        let ghost before = *self;
        if !crate::index::point_le_exec(start, end) {
            return;
        }
        let template = self.grid.cursor.template.duplicate();
        let mut blank = Cell::blank();
        blank.reset(&template);
        let cols = self.grid.columns();
        let lines = self.grid.screen_lines();
        let mut pt = start;
        loop
            invariant_except_break
                0 <= pt.line.0,
                self.grid.in_viewport(pt),
                point_le(start, pt),
                point_le(pt, end),
                *self == (Terminal { grid: self.grid, ..before }),
                self.grid.same_shape(before.grid),
                self.grid.cursor == before.grid.cursor,
                self.grid.saved_cursor == before.grid.saved_cursor,
                forall|l: int| 0 <= l < lines ==> (#[trigger] self.grid.line_view(l)).len() == before.grid.line_view(l).len(),
                forall|l: int, c: int|
                    0 <= l < lines && 0 <= c < before.grid.line_view(l).len() ==> #[trigger] self.grid.line_view(l)[c]
                        == if c < cols && in_span(start, end, l, c) && (l < pt.line.0 || (l == pt.line.0 && c < pt.column.0)) {
                        reset_cell(before.grid.cursor.template)
                    } else {
                        before.grid.line_view(l)[c]
                    },
            invariant
                self.wf(),
                before.wf(),
                0 <= end.line.0 < lines,
                end.column.0 < cols,
                cols == before.columns_spec(),
                lines == before.lines_spec(),
                blank == reset_cell(before.grid.cursor.template),
            ensures
                self.wf(),
                *self == (Terminal { grid: self.grid, ..before }),
                grid_erased(self.grid, before.grid, start, end),
            decreases end.line.0 - pt.line.0, cols - pt.column.0,
        {
            let ghost prev = self.grid;
            self.grid.set_cell(pt, blank.duplicate());
            proof {
                before.grid.lemma_wf();
                assert forall|l: int| 0 <= l < lines implies (#[trigger] self.grid.line_view(l)).len() == before.grid.line_view(l).len() by {
                    assert(prev.line_view(l).len() == before.grid.line_view(l).len());
                    if l != pt.line.0 {
                        assert(self.grid.line_view(l) == prev.line_view(l));
                    } else {
                        assert(viewport_idx_spec(pt.line.0) == l);
                        assert(self.grid.line_view(l) == prev.line_view(l).update(pt.column.0 as int, blank));
                    }
                }
                assert forall|l: int, c: int|
                    0 <= l < lines && 0 <= c < before.grid.line_view(l).len() implies #[trigger] self.grid.line_view(l)[c]
                        == if c < cols && in_span(start, end, l, c) && (l < pt.line.0 || (l == pt.line.0 && c <= pt.column.0)) {
                        reset_cell(before.grid.cursor.template)
                    } else {
                        before.grid.line_view(l)[c]
                    } by {
                    assert(prev.line_view(l).len() == before.grid.line_view(l).len());
                    if l != pt.line.0 {
                        assert(self.grid.line_view(l) == prev.line_view(l));
                    } else {
                        assert(viewport_idx_spec(pt.line.0) == l);
                        assert(self.grid.line_view(l) == prev.line_view(l).update(pt.column.0 as int, blank));
                    }
                }
            }
            if pt.line.0 == end.line.0 && pt.column.0 == end.column.0 {
                break;
            }
            let next_col = pt.column.0 + 1;
            if next_col >= cols {
                pt = Point::new(Line(pt.line.0 + 1), Column(0));
                if pt.line.as_viewport_idx() >= lines {
                    break;
                }
            } else {
                pt = Point::new(pt.line, Column(next_col));
            }
        }
    }

    /// Erases from the cursor to the end of its line.
    pub fn erase_to_eol(&mut self)
        requires
            old(self).wf(),
        ensures
            final(self).wf(),
            *final(self) == (Terminal { grid: final(self).grid, ..*old(self) }),
            grid_erased(
                final(self).grid,
                old(self).grid,
                old(self).grid.cursor.point,
                Point { line: old(self).grid.cursor.point.line, column: Column((old(self).columns_spec() - 1) as usize) },
            ),
    {
        let start = self.grid.cursor.point;
        let end = Point::new(start.line, Column(self.grid.columns() - 1));
        self.erase_cells(start, end);
    }

    /// Erases from the start of the cursor's line to the cursor (inclusive).
    pub fn erase_to_bol(&mut self)
        requires
            old(self).wf(),
        ensures
            final(self).wf(),
            *final(self) == (Terminal { grid: final(self).grid, ..*old(self) }),
            grid_erased(
                final(self).grid,
                old(self).grid,
                Point { line: old(self).grid.cursor.point.line, column: Column(0) },
                old(self).grid.cursor.point,
            ),
    {
        let cur = self.grid.cursor.point;
        let start = Point::new(cur.line, Column(0));
        self.erase_cells(start, cur);
    }

    /// Erases the cursor's whole line.
    pub fn erase_line(&mut self)
        requires
            old(self).wf(),
        ensures
            final(self).wf(),
            *final(self) == (Terminal { grid: final(self).grid, ..*old(self) }),
            grid_erased(
                final(self).grid,
                old(self).grid,
                Point { line: old(self).grid.cursor.point.line, column: Column(0) },
                Point { line: old(self).grid.cursor.point.line, column: Column((old(self).columns_spec() - 1) as usize) },
            ),
    {
        let line = self.grid.cursor.point.line;
        let start = Point::new(line, Column(0));
        let end = Point::new(line, Column(self.grid.columns() - 1));
        self.erase_cells(start, end);
    }
}


/// Marker `mk` starts a prompt above line `cur`.
pub open spec fn prompt_above(mk: SemanticMarker, cur: i32) -> bool {
    mk.zone == SemanticZone::PromptStart && mk.line < cur
}

/// Marker `mk` starts a prompt below line `cur`.
pub open spec fn prompt_below(mk: SemanticMarker, cur: i32) -> bool {
    mk.zone == SemanticZone::PromptStart && mk.line > cur
}

/// `r` is the nearest line above `cur` on which a marker of `m` starts a
/// prompt (the largest such line), or `None` when there is none.
pub open spec fn nearest_prompt_above(m: Seq<SemanticMarker>, cur: i32, r: Option<i32>) -> bool {
    match r {
        None => forall|i: int| 0 <= i < m.len() ==> !prompt_above(#[trigger] m[i], cur),
        Some(x) => {
            &&& exists|i: int| 0 <= i < m.len() && prompt_above(#[trigger] m[i], cur) && m[i].line == x
            &&& forall|i: int| 0 <= i < m.len() && prompt_above(#[trigger] m[i], cur) ==> m[i].line <= x
        },
    }
}

/// `r` is the nearest line below `cur` on which a marker of `m` starts a
/// prompt (the smallest such line), or `None` when there is none.
pub open spec fn nearest_prompt_below(m: Seq<SemanticMarker>, cur: i32, r: Option<i32>) -> bool {
    match r {
        None => forall|i: int| 0 <= i < m.len() ==> !prompt_below(#[trigger] m[i], cur),
        Some(x) => {
            &&& exists|i: int| 0 <= i < m.len() && prompt_below(#[trigger] m[i], cur) && m[i].line == x
            &&& forall|i: int| 0 <= i < m.len() && prompt_below(#[trigger] m[i], cur) ==> m[i].line >= x
        },
    }
}

/// Basic ANSI colour `i` (0 = black .. 7 = white).
pub open spec fn basic_color(i: int) -> NamedColor {
    if i == 0 { NamedColor::Black }
    else if i == 1 { NamedColor::Red }
    else if i == 2 { NamedColor::Green }
    else if i == 3 { NamedColor::Yellow }
    else if i == 4 { NamedColor::Blue }
    else if i == 5 { NamedColor::Magenta }
    else if i == 6 { NamedColor::Cyan }
    else { NamedColor::White }
}

/// Bright ANSI colour `i` (0 = bright black .. 7 = bright white).
pub open spec fn bright_color(i: int) -> NamedColor {
    if i == 0 { NamedColor::BrightBlack }
    else if i == 1 { NamedColor::BrightRed }
    else if i == 2 { NamedColor::BrightGreen }
    else if i == 3 { NamedColor::BrightYellow }
    else if i == 4 { NamedColor::BrightBlue }
    else if i == 5 { NamedColor::BrightMagenta }
    else if i == 6 { NamedColor::BrightCyan }
    else { NamedColor::BrightWhite }
}

/// `t` with the flag bits `bits` set.
pub open spec fn with_flags_set(t: Cell, bits: u16) -> Cell {
    Cell { flags: CellFlags(t.flags.0 | bits), ..t }
}

/// `t` with the flag bits `bits` cleared.
pub open spec fn with_flags_cleared(t: Cell, bits: u16) -> Cell {
    Cell { flags: CellFlags(t.flags.0 & !bits), ..t }
}

/// The cursor template after the single SGR parameter `p`.
pub open spec fn sgr_applied(t: Cell, p: u16) -> Cell {
    if p == 0 { default_cell() }
    else if p == 1 { with_flags_set(t, CellFlags::BOLD) }
    else if p == 3 { with_flags_set(t, CellFlags::ITALIC) }
    else if p == 4 { with_flags_set(t, CellFlags::UNDERLINE) }
    else if p == 7 { with_flags_set(t, CellFlags::INVERSE) }
    else if p == 8 { with_flags_set(t, CellFlags::HIDDEN) }
    else if p == 9 { with_flags_set(t, CellFlags::STRIKEOUT) }
    else if p == 21 { with_flags_cleared(t, CellFlags::BOLD) }
    else if p == 22 { with_flags_cleared(t, CellFlags::BOLD | CellFlags::DIM) }
    else if p == 23 { with_flags_cleared(t, CellFlags::ITALIC) }
    else if p == 24 { with_flags_cleared(t, CellFlags::UNDERLINE) }
    else if p == 27 { with_flags_cleared(t, CellFlags::INVERSE) }
    else if p == 28 { with_flags_cleared(t, CellFlags::HIDDEN) }
    else if p == 29 { with_flags_cleared(t, CellFlags::STRIKEOUT) }
    else if 30 <= p <= 37 { Cell { fg: Color::Named(basic_color(p - 30)), ..t } }
    else if p == 39 { Cell { fg: Color::Named(NamedColor::Foreground), ..t } }
    else if 40 <= p <= 47 { Cell { bg: Color::Named(basic_color(p - 40)), ..t } }
    else if p == 49 { Cell { bg: Color::Named(NamedColor::Background), ..t } }
    else if 90 <= p <= 97 { Cell { fg: Color::Named(bright_color(p - 90)), ..t } }
    else if 100 <= p <= 107 { Cell { bg: Color::Named(bright_color(p - 100)), ..t } }
    else { t }
}

fn basic_color_exec(i: u16) -> (r: NamedColor)
    ensures
        r == basic_color(i as int),
{
    match i {
        0 => NamedColor::Black,
        1 => NamedColor::Red,
        2 => NamedColor::Green,
        3 => NamedColor::Yellow,
        4 => NamedColor::Blue,
        5 => NamedColor::Magenta,
        6 => NamedColor::Cyan,
        _ => NamedColor::White,
    }
}

fn bright_color_exec(i: u16) -> (r: NamedColor)
    ensures
        r == bright_color(i as int),
{
    match i {
        0 => NamedColor::BrightBlack,
        1 => NamedColor::BrightRed,
        2 => NamedColor::BrightGreen,
        3 => NamedColor::BrightYellow,
        4 => NamedColor::BrightBlue,
        5 => NamedColor::BrightMagenta,
        6 => NamedColor::BrightCyan,
        _ => NamedColor::BrightWhite,
    }
}

impl Terminal {
    /// The line of the nearest prompt-start marker above the cursor.
    pub fn prev_prompt(&self) -> (r: Option<i32>)
        ensures
            nearest_prompt_above(self.semantic_markers@, self.grid.cursor.point.line.0, r),
    {
        let cur = self.grid.cursor.point.line.0;
        let ghost m = self.semantic_markers@;
        let n = self.semantic_markers.len();
        let mut best: Option<i32> = None;
        let mut i: usize = 0;
        while i < n
            invariant
                i <= n,
                n == m.len(),
                m == self.semantic_markers@,
                cur == self.grid.cursor.point.line.0,
                nearest_prompt_above(m.take(i as int), cur, best),
            decreases n - i,
        {
            let mk = self.semantic_markers[i];
            let ghost t0 = m.take(i as int);
            let ghost t1 = m.take(i + 1);
            assert(t1 =~= t0.push(mk));
            if mk.zone == SemanticZone::PromptStart && mk.line < cur {
                match best {
                    Some(x) => {
                        if x < mk.line {
                            best = Some(mk.line);
                            assert(prompt_above(t1[i as int], cur));
                        } else {
                            let ghost k = choose|k: int| 0 <= k < t0.len() && prompt_above(#[trigger] t0[k], cur) && t0[k].line == x;
                            assert(t1[k] == t0[k]);
                        }
                    },
                    None => {
                        best = Some(mk.line);
                        assert(prompt_above(t1[i as int], cur));
                    },
                }
                assert(nearest_prompt_above(t1, cur, best)) by {
                    assert forall|k: int| 0 <= k < t1.len() && prompt_above(#[trigger] t1[k], cur) implies t1[k].line <= best->0 by {
                        if k < i {
                            assert(t1[k] == t0[k]);
                        }
                    }
                }
            } else {
                assert(nearest_prompt_above(t1, cur, best)) by {
                    match best {
                        Some(x) => {
                            let k = choose|k: int| 0 <= k < t0.len() && prompt_above(#[trigger] t0[k], cur) && t0[k].line == x;
                            assert(t1[k] == t0[k]);
                            assert forall|k2: int| 0 <= k2 < t1.len() && prompt_above(#[trigger] t1[k2], cur) implies t1[k2].line <= x by {
                                if k2 < i {
                                    assert(t1[k2] == t0[k2]);
                                }
                            }
                        },
                        None => {
                            assert forall|k2: int| 0 <= k2 < t1.len() implies !prompt_above(#[trigger] t1[k2], cur) by {
                                if k2 < i {
                                    assert(t1[k2] == t0[k2]);
                                }
                            }
                        },
                    }
                }
            }
            i = i + 1;
        }
        assert(m.take(n as int) =~= m);
        best
    }

    /// The line of the nearest prompt-start marker below the cursor.
    pub fn next_prompt(&self) -> (r: Option<i32>)
        ensures
            nearest_prompt_below(self.semantic_markers@, self.grid.cursor.point.line.0, r),
    {
        let cur = self.grid.cursor.point.line.0;
        let ghost m = self.semantic_markers@;
        let n = self.semantic_markers.len();
        let mut best: Option<i32> = None;
        let mut i: usize = 0;
        while i < n
            invariant
                i <= n,
                n == m.len(),
                m == self.semantic_markers@,
                cur == self.grid.cursor.point.line.0,
                nearest_prompt_below(m.take(i as int), cur, best),
            decreases n - i,
        {
            let mk = self.semantic_markers[i];
            let ghost t0 = m.take(i as int);
            let ghost t1 = m.take(i + 1);
            assert(t1 =~= t0.push(mk));
            if mk.zone == SemanticZone::PromptStart && mk.line > cur {
                match best {
                    Some(x) => {
                        if x > mk.line {
                            best = Some(mk.line);
                            assert(prompt_below(t1[i as int], cur));
                        } else {
                            let ghost k = choose|k: int| 0 <= k < t0.len() && prompt_below(#[trigger] t0[k], cur) && t0[k].line == x;
                            assert(t1[k] == t0[k]);
                        }
                    },
                    None => {
                        best = Some(mk.line);
                        assert(prompt_below(t1[i as int], cur));
                    },
                }
                assert(nearest_prompt_below(t1, cur, best)) by {
                    assert forall|k: int| 0 <= k < t1.len() && prompt_below(#[trigger] t1[k], cur) implies t1[k].line >= best->0 by {
                        if k < i {
                            assert(t1[k] == t0[k]);
                        }
                    }
                }
            } else {
                assert(nearest_prompt_below(t1, cur, best)) by {
                    match best {
                        Some(x) => {
                            let k = choose|k: int| 0 <= k < t0.len() && prompt_below(#[trigger] t0[k], cur) && t0[k].line == x;
                            assert(t1[k] == t0[k]);
                            assert forall|k2: int| 0 <= k2 < t1.len() && prompt_below(#[trigger] t1[k2], cur) implies t1[k2].line >= x by {
                                if k2 < i {
                                    assert(t1[k2] == t0[k2]);
                                }
                            }
                        },
                        None => {
                            assert forall|k2: int| 0 <= k2 < t1.len() implies !prompt_below(#[trigger] t1[k2], cur) by {
                                if k2 < i {
                                    assert(t1[k2] == t0[k2]);
                                }
                            }
                        },
                    }
                }
            }
            i = i + 1;
        }
        assert(m.take(n as int) =~= m);
        best
    }

    /// Applies one SGR parameter to the cursor template.
    pub fn apply_sgr(&mut self, param: u16)
        ensures
            *final(self) == with_cursor(*old(self), Cursor {
                template: sgr_applied(old(self).grid.cursor.template, param),
                ..old(self).grid.cursor
            }),
    {
        if param == 0 {
            self.reset_sgr();
            return;
        }
        let tmpl = &mut self.grid.cursor.template;
        match param {
            1 => tmpl.flags.insert(CellFlags::BOLD),
            3 => tmpl.flags.insert(CellFlags::ITALIC),
            4 => tmpl.flags.insert(CellFlags::UNDERLINE),
            7 => tmpl.flags.insert(CellFlags::INVERSE),
            8 => tmpl.flags.insert(CellFlags::HIDDEN),
            9 => tmpl.flags.insert(CellFlags::STRIKEOUT),
            21 => tmpl.flags.remove(CellFlags::BOLD),
            22 => tmpl.flags.remove(CellFlags::BOLD | CellFlags::DIM),
            23 => tmpl.flags.remove(CellFlags::ITALIC),
            24 => tmpl.flags.remove(CellFlags::UNDERLINE),
            27 => tmpl.flags.remove(CellFlags::INVERSE),
            28 => tmpl.flags.remove(CellFlags::HIDDEN),
            29 => tmpl.flags.remove(CellFlags::STRIKEOUT),
            30..=37 => tmpl.fg = Color::Named(basic_color_exec(param - 30)),
            39 => tmpl.fg = Color::Named(NamedColor::Foreground),
            40..=47 => tmpl.bg = Color::Named(basic_color_exec(param - 40)),
            49 => tmpl.bg = Color::Named(NamedColor::Background),
            90..=97 => tmpl.fg = Color::Named(bright_color_exec(param - 90)),
            100..=107 => tmpl.bg = Color::Named(bright_color_exec(param - 100)),
            _ => {},
        }
    }
}


/// `new` is `old` with viewport row `l` replaced by `row`; every other row,
/// the dimensions and the saved cursor stay.
pub open spec fn row_replaced(new: Grid, old: Grid, l: int, row: Seq<Cell>) -> bool {
    &&& new.same_shape(old)
    &&& new.saved_cursor == old.saved_cursor
    &&& new.line_view(l) == row
    &&& forall|k: int| 0 <= k < old.lines_spec() && k != l ==> #[trigger] new.line_view(k) == old.line_view(k)
}

/// `new` is `old` with the cell under the cursor replaced by `cell`.
pub open spec fn cursor_cell_set(new: Terminal, old: Terminal, cell: Cell) -> bool {
    let l = old.cursor_row() as int;
    let col = old.grid.cursor.point.column.0 as int;
    &&& new == (Terminal { grid: new.grid, ..old })
    &&& new.grid.cursor == old.grid.cursor
    &&& row_replaced(new.grid, old.grid, l, old.grid.line_view(l).update(col, cell))
}

/// `new` is `old` after a soft wrap: the cell under the cursor is marked
/// `WRAPLINE`, then a line feed and a carriage return follow.
pub open spec fn soft_wrapped(new: Terminal, old: Terminal) -> bool {
    exists|a: Terminal, b: Terminal|
        cursor_cell_set(a, old, with_flags_set(old.grid.cell_at(old.cursor_row() as int, old.grid.cursor.point.column.0 as int), CellFlags::WRAPLINE))
        && linefed(b, a) && carriage_returned(new, b)
}

/// `new` is `old` after `c` of width `w` is written at the cursor: the cell
/// takes the character, the template's colours and flags (`WIDE_CHAR` added
/// for width 2) and the current hyperlink; a wide character puts a spacer in
/// the next column when there is one; the cursor advances by its width, or
/// stays with a pending wrap when that would leave the line.
pub open spec fn char_put(new: Terminal, old: Terminal, c: char, w: int) -> bool {
    let l = old.cursor_row() as int;
    let col = old.grid.cursor.point.column.0 as int;
    let cols = old.columns_spec() as int;
    let t = old.grid.cursor.template;
    let cell = Cell {
        c: c,
        fg: t.fg,
        bg: t.bg,
        flags: CellFlags(if w == 2 { t.flags.0 | CellFlags::WIDE_CHAR } else { t.flags.0 }),
        hyperlink: old.current_hyperlink,
    };
    let row = old.grid.line_view(l).update(col, cell);
    let next = col + if w == 2 { 2int } else { 1int };
    &&& new == (Terminal { grid: new.grid, ..old })
    &&& row_replaced(new.grid, old.grid, l, if w == 2 && col + 1 < cols {
        row.update(col + 1, with_flags_set(reset_cell(t), CellFlags::WIDE_CHAR_SPACER))
    } else {
        row
    })
    &&& new.grid.cursor == if next >= cols {
        Cursor { input_needs_wrap: true, ..old.grid.cursor }
    } else {
        Cursor { point: Point { column: Column(next as usize), ..old.grid.cursor.point }, ..old.grid.cursor }
    }
}

/// The steps of printing `c`: `s1` is the state after a pending wrap was
/// taken, `s2` the one right before the character is written.
pub open spec fn print_steps(new: Terminal, old: Terminal, c: char, w: int, s1: Terminal, s2: Terminal) -> bool {
    let wrap = old.mode.has(TermMode::LINE_WRAP);
    &&& (if old.grid.cursor.input_needs_wrap && wrap { soft_wrapped(s1, old) } else { s1 == old })
    &&& {
        let col = s1.grid.cursor.point.column.0 as int;
        let blank = reset_cell(s1.grid.cursor.template);
        if w == 2 && col + 1 >= s1.columns_spec() {
            if wrap {
                (exists|x: Terminal| cursor_cell_set(x, s1, blank) && #[trigger] soft_wrapped(s2, x)) && char_put(new, s2, c, w)
            } else {
                cursor_cell_set(new, s1, blank)
            }
        } else {
            char_put(new, s1, c, w)
        }
    }
}

/// `new` is `old` after printing `c` taken to be `w` columns wide.
pub open spec fn printed_with_width(new: Terminal, old: Terminal, c: char, w: int) -> bool {
    exists|s1: Terminal, s2: Terminal| #[trigger] print_steps(new, old, c, w, s1, s2)
}

/// `new` is `old` after printing `c`.
pub open spec fn printed(new: Terminal, old: Terminal, c: char) -> bool {
    printed_with_width(new, old, c, print_width(c))
}

fn clone_link(o: &Option<String>) -> (r: Option<String>)
    ensures
        r == *o,
{
    match o {
        Some(s) => Some(s.clone()),
        None => None,
    }
}

impl Terminal {
    /// Replaces the cell under the cursor.
    fn set_cursor_cell(&mut self, cell: Cell)
        requires
            old(self).wf(),
        ensures
            final(self).wf(),
            cursor_cell_set(*final(self), *old(self), cell),
    {
        let p = self.grid.cursor.point;
        self.grid.set_cell(p, cell);
    }

    /// Soft wrap: marks the cell under the cursor `WRAPLINE`, then line feed
    /// and carriage return.
    fn soft_wrap(&mut self)
        requires
            old(self).wf(),
        ensures
            final(self).wf(),
            soft_wrapped(*final(self), *old(self)),
    {
        let ghost before = *self;
        let p = self.grid.cursor.point;
        let mut cell = self.grid.cell(p).duplicate();
        cell.flags.insert(CellFlags::WRAPLINE);
        self.set_cursor_cell(cell);
        let ghost a = *self;
        self.linefeed();
        let ghost b = *self;
        self.carriage_return();
        assert(cursor_cell_set(a, before, with_flags_set(before.grid.cell_at(before.cursor_row() as int, before.grid.cursor.point.column.0 as int), CellFlags::WRAPLINE)));
        assert(linefed(b, a) && carriage_returned(*self, b));
    }

    /// Writes `c` of width `w` at the cursor and advances it.
    #[verifier::rlimit(40)]
    fn put_char(&mut self, c: char, w: usize)
        requires
            old(self).wf(),
        ensures
            final(self).wf(),
            char_put(*final(self), *old(self), c, w as int),
    {
        let ghost before = *self;
        let p = self.grid.cursor.point;
        let cols = self.grid.columns();
        let col = p.column.0;
        let t = self.grid.cursor.template.duplicate();
        let flags = if w == 2 { CellFlags(t.flags.0 | CellFlags::WIDE_CHAR) } else { t.flags };
        let cell = Cell { c, fg: t.fg, bg: t.bg, flags, hyperlink: clone_link(&self.current_hyperlink) };
        self.grid.set_cell(p, cell);
        if w == 2 && col + 1 < cols {
            let mut spacer = Cell::blank();
            spacer.reset(&t);
            spacer.flags.insert(CellFlags::WIDE_CHAR_SPACER);
            self.put_spacer(Point::new(p.line, Column(col + 1)), spacer);
        }
        let ghost g1 = self.grid;
        let adv: usize = if w == 2 { 2 } else { 1 };
        if adv >= cols - col {
            self.grid.cursor.input_needs_wrap = true;
        } else {
            self.grid.cursor.point.column = Column(col + adv);
        }
        proof {
            assert forall|k: int| 0 <= k < before.lines_spec() implies #[trigger] self.grid.line_view(k) == g1.line_view(k) by {}
        }
    }

    /// Stores `spacer` at `p`, on the cursor's row, keeping the cursor.
    fn put_spacer(&mut self, p: Point, spacer: Cell)
        requires
            old(self).wf(),
            p.line == old(self).grid.cursor.point.line,
            p.column.0 < old(self).columns_spec(),
        ensures
            final(self).wf(),
            *final(self) == (Terminal { grid: final(self).grid, ..*old(self) }),
            final(self).grid.cursor == old(self).grid.cursor,
            row_replaced(final(self).grid, old(self).grid, old(self).cursor_row() as int,
                old(self).grid.line_view(old(self).cursor_row() as int).update(p.column.0 as int, spacer)),
    {
        self.grid.set_cell(p, spacer);
    }

    /// Prints `c` at the cursor: a pending wrap is taken first (with line
    /// wrap on); a wide character that does not fit blanks the last cell and
    /// wraps (or, with line wrap off, is dropped).
    pub fn print(&mut self, c: char)
        requires
            old(self).wf(),
        ensures
            final(self).wf(),
            printed(*final(self), *old(self), c),
    {
        let width = match char_width(c) {
            Some(w) => w,
            None => 1,
        };
        self.print_with_width(c, width);
    }

    /// Prints `c` at the cursor as a character `width` columns wide (2 for a
    /// wide character): a pending wrap is taken first (with line wrap on); a
    /// wide character that does not fit blanks the last cell and wraps (or,
    /// with line wrap off, is dropped).
    pub fn print_with_width(&mut self, c: char, width: usize)
        requires
            old(self).wf(),
        ensures
            final(self).wf(),
            printed_with_width(*final(self), *old(self), c, width as int),
    {
        let ghost before = *self;
        let wrap = self.mode.contains(TermMode::LINE_WRAP);
        if self.grid.cursor.input_needs_wrap && wrap {
            self.soft_wrap();
        }
        let ghost s1 = *self;
        let col = self.grid.cursor.point.column.0;
        let cols = self.grid.columns();
        if width == 2 && col + 1 >= cols {
            let blank = {
                let mut b = Cell::blank();
                b.reset(&self.grid.cursor.template);
                b
            };
            self.set_cursor_cell(blank);
            let ghost x = *self;
            if wrap {
                self.soft_wrap();
                let ghost s2 = *self;
                self.put_char(c, width);
                assert(cursor_cell_set(x, s1, reset_cell(s1.grid.cursor.template)) && soft_wrapped(s2, x));
                assert(char_put(*self, s2, c, width as int));
                assert(print_steps(*self, before, c, width as int, s1, s2));
            } else {
                assert(print_steps(*self, before, c, width as int, s1, s1));
            }
            return;
        }
        self.put_char(c, width);
        assert(char_put(*self, s1, c, width as int));
        assert(print_steps(*self, before, c, width as int, s1, s1));
    }
}


/// The reply buffer after `data` is offered to it: appended when the total
/// stays within `MAX_PENDING_WRITES`, dropped otherwise.
pub open spec fn with_reply(pending: Seq<u8>, data: Seq<u8>) -> Seq<u8> {
    if pending.len() + data.len() <= MAX_PENDING_WRITES { pending + data } else { pending }
}

impl Terminal {
    /// Queues reply bytes for the pty, dropping them when the buffer would
    /// exceed `MAX_PENDING_WRITES`.
    pub fn write_response(&mut self, data: &[u8])
        requires
            old(self).wf(),
        ensures
            final(self).wf(),
            *final(self) == (Terminal { pending_writes: final(self).pending_writes, ..*old(self) }),
            final(self).pending_writes@ == with_reply(old(self).pending_writes@, data@),
    {
        if data.len() <= MAX_PENDING_WRITES - self.pending_writes.len() {
            crate::text::push_bytes(&mut self.pending_writes, data);
        }
    }
}


/// Pushing onto a stack with room and popping one entry gives back the
/// stack as it was.
pub proof fn lemma_kitty_push_pop(before: Seq<u8>, pushed: Seq<u8>, popped: Seq<u8>, flags: u8)
    requires
        1 <= before.len() < 8,
        pushed == before.push(flags),
        popped == pushed.take(if pushed.len() > 1 + 1 { pushed.len() - 1 } else { 1 }),
    ensures
        popped == before,
{
    assert(popped =~= before);
}

/// Entering the alternate screen and leaving it again shows the primary grid
/// exactly as it was, whatever happened on the alternate screen meanwhile
/// (as long as the inactive grid was left alone, which every operation of
/// this module does).
pub proof fn lemma_alt_screen_roundtrip(t0: Terminal, t1: Terminal, t2: Terminal, t3: Terminal)
    requires
        !t0.mode.has(TermMode::ALT_SCREEN),
        alt_swapped(t1, t0),
        t2.inactive_grid == t1.inactive_grid,
        t2.mode == t1.mode,
        alt_swapped(t3, t2),
    ensures
        t1.mode.has(TermMode::ALT_SCREEN),
        !t3.mode.has(TermMode::ALT_SCREEN),
        t3.grid == t0.grid,
{
    lemma_toggle_flips(t0.mode.0);
    lemma_toggle_flips(t2.mode.0);
}

proof fn lemma_toggle_flips(m: u32)
    ensures
        ((m & 0x40u32) == 0x40u32) != (((m ^ 0x40u32) & 0x40u32) == 0x40u32),
{
    assert(((m & 0x40u32) == 0x40u32) != (((m ^ 0x40u32) & 0x40u32) == 0x40u32)) by (bit_vector);
}

/// The eight ANSI colours in parameter order.
pub open spec fn ansi_colors() -> Seq<NamedColor> {
    seq![
        NamedColor::Black,
        NamedColor::Red,
        NamedColor::Green,
        NamedColor::Yellow,
        NamedColor::Blue,
        NamedColor::Magenta,
        NamedColor::Cyan,
        NamedColor::White
    ]
}

/// The eight bright ANSI colours in parameter order.
pub open spec fn bright_ansi_colors() -> Seq<NamedColor> {
    seq![
        NamedColor::BrightBlack,
        NamedColor::BrightRed,
        NamedColor::BrightGreen,
        NamedColor::BrightYellow,
        NamedColor::BrightBlue,
        NamedColor::BrightMagenta,
        NamedColor::BrightCyan,
        NamedColor::BrightWhite
    ]
}

/// SGR colour parameters: 30-37 and 90-97 set only the foreground, 40-47 and
/// 100-107 only the background, each to the ANSI colour that the last digit
/// names (black, red, green, yellow, blue, magenta, cyan, white; bright ones
/// for 90-97 and 100-107); 39 and 49 restore the default foreground and
/// background. The character, the flags, the link and the other colour are
/// kept.
pub proof fn lemma_sgr_colours(t: Cell, p: u16)
    ensures
        30 <= p <= 37 ==> sgr_applied(t, p) == (Cell { fg: Color::Named(ansi_colors()[p - 30]), ..t }),
        90 <= p <= 97 ==> sgr_applied(t, p) == (Cell { fg: Color::Named(bright_ansi_colors()[p - 90]), ..t }),
        40 <= p <= 47 ==> sgr_applied(t, p) == (Cell { bg: Color::Named(ansi_colors()[p - 40]), ..t }),
        100 <= p <= 107 ==> sgr_applied(t, p) == (Cell { bg: Color::Named(bright_ansi_colors()[p - 100]), ..t }),
        p == 39 ==> sgr_applied(t, p) == (Cell { fg: Color::Named(NamedColor::Foreground), ..t }),
        p == 49 ==> sgr_applied(t, p) == (Cell { bg: Color::Named(NamedColor::Background), ..t }),
{
}


/// Setting attribute bit `b` and then clearing it leaves it clear; clearing
/// and then setting it leaves it set; no other bit moves.
proof fn lemma_set_clear_bits(x: u16, b: u16)
    ensures
        ((x | b) & !b) & b == 0,
        ((x & !b) | b) & b == b,
        (x | b) & !b == x & !b,
{
    assert(((x | b) & !b) & b == 0) by (bit_vector);
    assert(((x & !b) | b) & b == b) by (bit_vector);
    assert((x | b) & !b == x & !b) by (bit_vector);
}

/// Clearing a set of bits that holds `a` after setting `a` leaves `a`
/// clear; setting `a` after clearing them leaves it set.
proof fn lemma_set_clear_subset(x: u16, a: u16, b: u16)
    requires
        a & !b == 0,
    ensures
        ((x | a) & !b) & a == 0,
        ((x & !b) | a) & a == a,
{
    assert(((x | a) & !b) & a == 0) by (bit_vector)
        requires
            a & !b == 0;
    assert(((x & !b) | a) & a == a) by (bit_vector);
}

/// SGR attribute parameters: 0 resets the template to the default colours
/// with no flags; 1, 3, 4, 7, 8 and 9 turn on bold, italic, underline,
/// inverse, hidden and strikeout, and 22 (with dim), 23, 24, 27, 28 and 29
/// turn each off again: turning one on and then off leaves it off, off and
/// then on leaves it on, and neither touches the colours, the character or
/// the link.
pub proof fn lemma_sgr_attributes(t: Cell, p: u16)
    ensures
        sgr_applied(t, 0).fg == Color::Named(NamedColor::Foreground),
        sgr_applied(t, 0).bg == Color::Named(NamedColor::Background),
        sgr_applied(t, 0).flags.0 == 0,
        ({
            let pairs = seq![
                (1u16, 22u16, CellFlags::BOLD),
                (3u16, 23u16, CellFlags::ITALIC),
                (4u16, 24u16, CellFlags::UNDERLINE),
                (7u16, 27u16, CellFlags::INVERSE),
                (8u16, 28u16, CellFlags::HIDDEN),
                (9u16, 29u16, CellFlags::STRIKEOUT)
            ];
            forall|k: int| 0 <= k < pairs.len() ==> {
                let (on, off, bit) = #[trigger] pairs[k];
                &&& sgr_applied(sgr_applied(t, on), off).flags.0 & bit == 0
                &&& sgr_applied(sgr_applied(t, off), on).flags.0 & bit == bit
                &&& sgr_applied(t, on).fg == t.fg && sgr_applied(t, on).bg == t.bg
                &&& sgr_applied(t, off).fg == t.fg && sgr_applied(t, off).bg == t.bg
                &&& sgr_applied(t, on).c == t.c && sgr_applied(t, on).hyperlink == t.hyperlink
            }
        }),
{
    let x = t.flags.0;
    lemma_set_clear_bits(x, CellFlags::BOLD);
    lemma_set_clear_bits(x, CellFlags::BOLD | CellFlags::DIM);
    lemma_set_clear_bits(x, CellFlags::ITALIC);
    lemma_set_clear_bits(x, CellFlags::UNDERLINE);
    lemma_set_clear_bits(x, CellFlags::INVERSE);
    lemma_set_clear_bits(x, CellFlags::HIDDEN);
    lemma_set_clear_bits(x, CellFlags::STRIKEOUT);
    assert(CellFlags::BOLD & !(CellFlags::BOLD | CellFlags::DIM) == 0) by (bit_vector);
    lemma_set_clear_subset(x, CellFlags::BOLD, CellFlags::BOLD | CellFlags::DIM);
}


} // verus!

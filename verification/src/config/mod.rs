//! Configuration values, their defaults, and the rules that clamp and
//! normalise them.
pub mod color;
pub mod font;
pub mod keybinds;
pub mod template;

use vstd::prelude::*;
use crate::terminal::CursorStyle;
use crate::text::{
    trim, trim_chars, str_chars, chars_to_string, all_hex, hex_digits_value, parse_hex_u32,
    parse_hex_u32_spec, utf8_len, char_utf8_len, char_len_utf8, utf8_len_of, find_from, find_chars,
};

verus! {

/// Window state at startup.
#[derive(Debug, Clone, Copy, PartialEq, Eq, Structural)]
pub enum StartupMode {
    Windowed,
    Maximized,
    Fullscreen,
}

impl Default for StartupMode {
    fn default() -> (r: Self)
        ensures
            r == StartupMode::Windowed,
    {
        StartupMode::Windowed
    }
}

/// Cursor shape as written in the configuration.
#[derive(Debug, Clone, Copy, PartialEq, Eq, Structural)]
pub enum CursorStyleConfig {
    Block,
    Underline,
    Bar,
}

impl Default for CursorStyleConfig {
    fn default() -> (r: Self)
        ensures
            r == CursorStyleConfig::Block,
    {
        CursorStyleConfig::Block
    }
}

/// The terminal cursor shape that a configured shape names.
pub open spec fn cursor_style_of(c: CursorStyleConfig) -> CursorStyle {
    match c {
        CursorStyleConfig::Block => CursorStyle::Block,
        CursorStyleConfig::Underline => CursorStyle::Underline,
        CursorStyleConfig::Bar => CursorStyle::Bar,
    }
}

impl From<CursorStyleConfig> for CursorStyle {
    fn from(c: CursorStyleConfig) -> (r: Self) {
        match c {
            CursorStyleConfig::Block => CursorStyle::Block,
            CursorStyleConfig::Underline => CursorStyle::Underline,
            CursorStyleConfig::Bar => CursorStyle::Bar,
        }
    }
}

impl vstd::std_specs::convert::FromSpecImpl<CursorStyleConfig> for CursorStyle {
    open spec fn obeys_from_spec() -> bool {
        true
    }

    open spec fn from_spec(c: CursorStyleConfig) -> CursorStyle {
        cursor_style_of(c)
    }
}

/// Cursor settings.
#[derive(Debug, Clone)]
pub struct CursorConfig {
    pub style: CursorStyleConfig,
    pub blinking: bool,
    /// Cursor colour as a hex string; `None` uses the theme foreground.
    pub color: Option<String>,
}

impl Default for CursorConfig {
    fn default() -> (r: Self)
        ensures
            r.style == CursorStyleConfig::Block,
            !r.blinking,
            r.color is None,
    {
        CursorConfig { style: CursorStyleConfig::Block, blinking: false, color: None }
    }
}

/// Which macOS Option keys act as Alt.
#[derive(Debug, Clone, Copy, PartialEq, Eq, Structural)]
pub enum OptionAsAlt {
    OnlyLeft,
    OnlyRight,
    Both,
    /// Option keys behave normally (the default).
    Neither,
}

impl Default for OptionAsAlt {
    fn default() -> (r: Self)
        ensures
            r == OptionAsAlt::Neither,
    {
        OptionAsAlt::Neither
    }
}

/// When closing asks for confirmation.
#[derive(Debug, Clone, Copy, PartialEq, Eq, Structural)]
pub enum ConfirmClose {
    Never,
    Always,
    ProcessRunning,
}

impl Default for ConfirmClose {
    fn default() -> (r: Self)
        ensures
            r == ConfirmClose::ProcessRunning,
    {
        ConfirmClose::ProcessRunning
    }
}

/// Window decorations.
#[derive(Debug, Clone, Copy, PartialEq, Eq, Structural)]
pub enum Decorations {
    Full,
    /// Borderless window.
    NoDecorations,
}

impl Default for Decorations {
    fn default() -> (r: Self)
        ensures
            r == Decorations::Full,
    {
        Decorations::Full
    }
}

/// Colour of the window padding.
#[derive(Debug, Clone, Copy, PartialEq, Eq, Structural)]
pub enum PaddingColor {
    Background,
}

impl Default for PaddingColor {
    fn default() -> (r: Self)
        ensures
            r == PaddingColor::Background,
    {
        PaddingColor::Background
    }
}

/// What the title bar shows as subtitle.
#[derive(Debug, Clone, Copy, PartialEq, Eq, Structural)]
pub enum WindowSubtitle {
    /// No subtitle (the default).
    NoSubtitle,
    WorkingDirectory,
    SessionName,
}

impl Default for WindowSubtitle {
    fn default() -> (r: Self)
        ensures
            r == WindowSubtitle::NoSubtitle,
    {
        WindowSubtitle::NoSubtitle
    }
}

/// How a background image fits the window.
#[derive(Debug, Clone, Copy, PartialEq, Eq, Structural)]
pub enum BackgroundImageFit {
    Contain,
    Cover,
    Fill,
}

impl Default for BackgroundImageFit {
    fn default() -> (r: Self)
        ensures
            r == BackgroundImageFit::Cover,
    {
        BackgroundImageFit::Cover
    }
}

/// Window colour space.
#[derive(Debug, Clone, Copy, PartialEq, Eq, Structural)]
pub enum WindowColorspace {
    Srgb,
    DisplayP3,
}

impl Default for WindowColorspace {
    fn default() -> (r: Self)
        ensures
            r == WindowColorspace::Srgb,
    {
        WindowColorspace::Srgb
    }
}

/// `v` clamped into `lo..=hi`.
pub open spec fn clamp_u32(v: u32, lo: u32, hi: u32) -> u32 {
    if v < lo { lo } else if v > hi { hi } else { v }
}

/// Bell settings.
#[derive(Debug, Clone)]
pub struct BellConfig {
    /// Flash the screen on BEL.
    pub visual: bool,
    /// Bounce the Dock icon on BEL.
    pub dock_bounce: bool,
    /// Fade-out time of the visual bell, in milliseconds.
    pub duration_ms: u32,
}

impl BellConfig {
    pub const DEFAULT_DURATION_MS: u32 = 150;
    pub const MIN_DURATION_MS: u32 = 1;
    pub const MAX_DURATION_MS: u32 = 5000;

    /// `duration_ms` clamped into `MIN_DURATION_MS..=MAX_DURATION_MS`.
    pub fn clamped_duration_ms(&self) -> (r: u32)
        ensures
            r == clamp_u32(self.duration_ms, BellConfig::MIN_DURATION_MS, BellConfig::MAX_DURATION_MS),
    {
        if self.duration_ms < Self::MIN_DURATION_MS {
            Self::MIN_DURATION_MS
        } else if self.duration_ms > Self::MAX_DURATION_MS {
            Self::MAX_DURATION_MS
        } else {
            self.duration_ms
        }
    }
}

impl Default for BellConfig {
    fn default() -> (r: Self)
        ensures
            r.visual,
            r.dock_bounce,
            r.duration_ms == BellConfig::DEFAULT_DURATION_MS,
    {
        BellConfig { visual: true, dock_bounce: true, duration_ms: Self::DEFAULT_DURATION_MS }
    }
}

/// When a finished command raises a notification.
#[derive(Debug, Clone, Copy, PartialEq, Eq, Structural)]
pub enum CommandNotifyMode {
    Never,
    Unfocused,
    Always,
}

impl Default for CommandNotifyMode {
    fn default() -> (r: Self)
        ensures
            r == CommandNotifyMode::Unfocused,
    {
        CommandNotifyMode::Unfocused
    }
}

/// Desktop notification settings.
#[derive(Debug, Clone)]
pub struct NotificationConfig {
    pub enabled: bool,
    pub command_notify: CommandNotifyMode,
    /// Commands running at least this many seconds notify.
    pub command_notify_threshold: u32,
}

impl NotificationConfig {
    pub const DEFAULT_COMMAND_NOTIFY_THRESHOLD: u32 = 10;
    pub const MIN_COMMAND_NOTIFY_THRESHOLD: u32 = 1;
    pub const MAX_COMMAND_NOTIFY_THRESHOLD: u32 = 3600;

    /// `command_notify_threshold` clamped into `1..=3600` seconds.
    pub fn clamped_command_notify_threshold(&self) -> (r: u32)
        ensures
            r == clamp_u32(
                self.command_notify_threshold,
                NotificationConfig::MIN_COMMAND_NOTIFY_THRESHOLD,
                NotificationConfig::MAX_COMMAND_NOTIFY_THRESHOLD,
            ),
    {
        if self.command_notify_threshold < Self::MIN_COMMAND_NOTIFY_THRESHOLD {
            Self::MIN_COMMAND_NOTIFY_THRESHOLD
        } else if self.command_notify_threshold > Self::MAX_COMMAND_NOTIFY_THRESHOLD {
            Self::MAX_COMMAND_NOTIFY_THRESHOLD
        } else {
            self.command_notify_threshold
        }
    }
}

impl Default for NotificationConfig {
    fn default() -> (r: Self)
        ensures
            r.enabled,
            r.command_notify == CommandNotifyMode::Unfocused,
            r.command_notify_threshold == NotificationConfig::DEFAULT_COMMAND_NOTIFY_THRESHOLD,
    {
        NotificationConfig {
            enabled: true,
            command_notify: CommandNotifyMode::Unfocused,
            command_notify_threshold: Self::DEFAULT_COMMAND_NOTIFY_THRESHOLD,
        }
    }
}

/// Paste settings.
#[derive(Debug, Clone)]
pub struct PasteConfig {
    /// Ask before pasting text with line breaks.
    pub confirm_multiline: bool,
}

impl Default for PasteConfig {
    fn default() -> (r: Self)
        ensures
            r.confirm_multiline,
    {
        PasteConfig { confirm_multiline: true }
    }
}

/// Scrollback settings.
#[derive(Debug, Clone)]
pub struct ScrollbackConfig {
    /// Largest number of history lines.
    pub lines: u32,
}

impl ScrollbackConfig {
    pub const DEFAULT_LINES: u32 = 10000;
    pub const MAX_LINES: usize = 1000000;

    /// `lines` capped at `MAX_LINES`.
    pub fn clamped_lines(&self) -> (r: usize)
        ensures
            r == if self.lines as usize > ScrollbackConfig::MAX_LINES { ScrollbackConfig::MAX_LINES } else { self.lines as usize },
    {
        let l = self.lines as usize;
        if l > Self::MAX_LINES { Self::MAX_LINES } else { l }
    }
}

impl Default for ScrollbackConfig {
    fn default() -> (r: Self)
        ensures
            r.lines == ScrollbackConfig::DEFAULT_LINES,
    {
        ScrollbackConfig { lines: Self::DEFAULT_LINES }
    }
}

/// Shell-integration settings.
#[derive(Debug, Clone)]
pub struct ShellIntegrationConfig {
    /// Record OSC 133 markers.
    pub enabled: bool,
}

impl Default for ShellIntegrationConfig {
    fn default() -> (r: Self)
        ensures
            r.enabled,
    {
        ShellIntegrationConfig { enabled: true }
    }
}

/// Quick-select settings.
#[derive(Debug, Clone)]
pub struct QuickSelectConfig {
    /// Extra regular expressions, used beside the default patterns.
    pub patterns: Vec<String>,
}

impl Default for QuickSelectConfig {
    fn default() -> (r: Self)
        ensures
            r.patterns@.len() == 0,
    {
        QuickSelectConfig { patterns: Vec::new() }
    }
}

impl QuickSelectConfig {
    /// The patterns, at most the first 50.
    pub fn clamped_patterns(&self) -> (r: &[String])
        ensures
            r@ == self.patterns@.take(if self.patterns@.len() < 50 { self.patterns@.len() as int } else { 50 }),
    {
        let n = if self.patterns.len() < 50 { self.patterns.len() } else { 50 };
        let s = self.patterns.as_slice();
        &s[0..n]
    }
}

/// Scrolling settings.
#[derive(Debug, Clone)]
pub struct ScrollingConfig {
    /// Lines per wheel notch.
    pub multiplier: u32,
    pub scroll_to_bottom_on_keystroke: bool,
    pub scroll_to_bottom_on_output: bool,
}

impl ScrollingConfig {
    pub const DEFAULT_MULTIPLIER: u32 = 3;
    pub const MIN_MULTIPLIER: u32 = 1;
    pub const MAX_MULTIPLIER: u32 = 100;

    /// `multiplier` clamped into `1..=100`.
    pub fn clamped_multiplier(&self) -> (r: u32)
        ensures
            r == clamp_u32(self.multiplier, ScrollingConfig::MIN_MULTIPLIER, ScrollingConfig::MAX_MULTIPLIER),
    {
        if self.multiplier < Self::MIN_MULTIPLIER {
            Self::MIN_MULTIPLIER
        } else if self.multiplier > Self::MAX_MULTIPLIER {
            Self::MAX_MULTIPLIER
        } else {
            self.multiplier
        }
    }
}

impl Default for ScrollingConfig {
    fn default() -> (r: Self)
        ensures
            r.multiplier == ScrollingConfig::DEFAULT_MULTIPLIER,
            r.scroll_to_bottom_on_keystroke,
            !r.scroll_to_bottom_on_output,
    {
        ScrollingConfig { multiplier: Self::DEFAULT_MULTIPLIER, scroll_to_bottom_on_keystroke: true, scroll_to_bottom_on_output: false }
    }
}

/// What a right click does.
#[derive(Debug, Clone, Copy, PartialEq, Eq, Structural)]
pub enum RightClickAction {
    ContextMenu,
    Paste,
    /// Ignore right clicks.
    DoNothing,
}

impl Default for RightClickAction {
    fn default() -> (r: Self)
        ensures
            r == RightClickAction::ContextMenu,
    {
        RightClickAction::ContextMenu
    }
}

/// Mouse settings.
#[derive(Debug, Clone)]
pub struct MouseConfig {
    pub hide_when_typing: bool,
    pub right_click_action: RightClickAction,
    /// Double/triple click interval in milliseconds.
    pub click_repeat_interval: u32,
    pub focus_follows_mouse: bool,
    /// A click that focuses the window is not passed on.
    pub swallow_mouse_click_on_focus: bool,
}

impl MouseConfig {
    pub const DEFAULT_CLICK_REPEAT_INTERVAL: u32 = 300;
    pub const MIN_CLICK_REPEAT_INTERVAL: u32 = 50;
    pub const MAX_CLICK_REPEAT_INTERVAL: u32 = 2000;

    /// `click_repeat_interval` clamped into `50..=2000` milliseconds.
    pub fn clamped_click_repeat_interval(&self) -> (r: u32)
        ensures
            r == clamp_u32(
                self.click_repeat_interval,
                MouseConfig::MIN_CLICK_REPEAT_INTERVAL,
                MouseConfig::MAX_CLICK_REPEAT_INTERVAL,
            ),
    {
        if self.click_repeat_interval < Self::MIN_CLICK_REPEAT_INTERVAL {
            Self::MIN_CLICK_REPEAT_INTERVAL
        } else if self.click_repeat_interval > Self::MAX_CLICK_REPEAT_INTERVAL {
            Self::MAX_CLICK_REPEAT_INTERVAL
        } else {
            self.click_repeat_interval
        }
    }
}

impl Default for MouseConfig {
    fn default() -> (r: Self)
        ensures
            !r.hide_when_typing,
            r.right_click_action == RightClickAction::ContextMenu,
            r.click_repeat_interval == MouseConfig::DEFAULT_CLICK_REPEAT_INTERVAL,
            !r.focus_follows_mouse,
            !r.swallow_mouse_click_on_focus,
    {
        MouseConfig {
            hide_when_typing: false,
            right_click_action: RightClickAction::ContextMenu,
            click_repeat_interval: Self::DEFAULT_CLICK_REPEAT_INTERVAL,
            focus_follows_mouse: false,
            swallow_mouse_click_on_focus: false,
        }
    }
}

/// Scrollbar settings.
#[derive(Debug, Clone)]
pub struct ScrollbarConfig {
    pub enabled: bool,
    /// Width hint in pixels.
    pub width: u8,
}

impl ScrollbarConfig {
    pub const DEFAULT_WIDTH: u8 = 8;
    pub const MIN_WIDTH: u8 = 2;
    pub const MAX_WIDTH: u8 = 32;

    /// `width` clamped into `2..=32`.
    pub fn clamped_width(&self) -> (r: u8)
        ensures
            r == if self.width < ScrollbarConfig::MIN_WIDTH {
                ScrollbarConfig::MIN_WIDTH
            } else if self.width > ScrollbarConfig::MAX_WIDTH {
                ScrollbarConfig::MAX_WIDTH
            } else {
                self.width
            },
    {
        if self.width < Self::MIN_WIDTH {
            Self::MIN_WIDTH
        } else if self.width > Self::MAX_WIDTH {
            Self::MAX_WIDTH
        } else {
            self.width
        }
    }
}

impl Default for ScrollbarConfig {
    fn default() -> (r: Self)
        ensures
            r.enabled,
            r.width == ScrollbarConfig::DEFAULT_WIDTH,
    {
        ScrollbarConfig { enabled: true, width: Self::DEFAULT_WIDTH }
    }
}

/// Security settings.
#[derive(Debug, Clone)]
pub struct SecurityConfig {
    /// Turn on Secure Keyboard Entry when focused.
    pub auto_secure_input: bool,
}

impl Default for SecurityConfig {
    fn default() -> (r: Self)
        ensures
            !r.auto_secure_input,
    {
        SecurityConfig { auto_secure_input: false }
    }
}

/// A custom link: text matching `regex` runs `action` (`open:<URL template>`).
#[derive(Debug, Clone)]
pub struct LinkConfig {
    pub regex: String,
    pub action: String,
}

/// Custom links beyond this many are ignored.
pub const MAX_LINK_ENTRIES: usize = 32;

/// A custom link whose pattern is longer than this many bytes is ignored.
pub const MAX_LINK_REGEX_LEN: usize = 512;

/// A custom link whose action is longer than this many bytes is ignored.
pub const MAX_LINK_ACTION_LEN: usize = 1024;

/// A custom link within the pattern and action length limits.
pub open spec fn link_within_limits(lc: LinkConfig) -> bool {
    utf8_len(lc.regex@) <= MAX_LINK_REGEX_LEN && utf8_len(lc.action@) <= MAX_LINK_ACTION_LEN
}

/// The links of `links` within the length limits, in order.
pub open spec fn links_within_limits(links: Seq<LinkConfig>) -> Seq<LinkConfig>
    decreases links.len(),
{
    if links.len() == 0 {
        Seq::empty()
    } else {
        let rest = links_within_limits(links.drop_last());
        if link_within_limits(links.last()) { rest.push(links.last()) } else { rest }
    }
}

/// The custom links in effect: of the first 32 entries, those whose pattern is
/// at most 512 bytes and whose action at most 1024 bytes, in order.
pub fn clamped_links(links: &[LinkConfig]) -> (r: Vec<&LinkConfig>)
    ensures
        r@.map_values(|lc: &LinkConfig| *lc) == links_within_limits(
            links@.take(if links@.len() < MAX_LINK_ENTRIES { links@.len() as int } else { MAX_LINK_ENTRIES as int }),
        ),
{
    let n: usize = if links.len() < MAX_LINK_ENTRIES { links.len() } else { MAX_LINK_ENTRIES };
    let mut out: Vec<&LinkConfig> = Vec::new();
    let mut i: usize = 0;
    while i < n
        invariant
            n <= links@.len(),
            i <= n,
            out@.map_values(|lc: &LinkConfig| *lc) == links_within_limits(links@.take(i as int)),
        decreases n - i,
    {
        let lc = &links[i];
        assert(links@.take(i + 1).drop_last() =~= links@.take(i as int));
        let rc = str_chars(lc.regex.as_str());
        let ac = str_chars(lc.action.as_str());
        let rl = utf8_len_of(rc.as_slice());
        let al = utf8_len_of(ac.as_slice());
        if rl <= MAX_LINK_REGEX_LEN && al <= MAX_LINK_ACTION_LEN {
            let ghost before = out@;
            out.push(lc);
            assert(out@.map_values(|lc: &LinkConfig| *lc) =~= before.map_values(|lc: &LinkConfig| *lc).push(*lc));
        }
        i = i + 1;
    }
    out
}

/// Where the quick terminal slides in from.
#[derive(Debug, Clone, Copy, PartialEq, Eq, Structural)]
pub enum QuickTerminalPosition {
    Top,
    Bottom,
    Left,
    Right,
}

impl Default for QuickTerminalPosition {
    fn default() -> (r: Self)
        ensures
            r == QuickTerminalPosition::Top,
    {
        QuickTerminalPosition::Top
    }
}

/// Number format of the answer to an OSC 10/11/12 colour query.
#[derive(Debug, Clone, Copy, PartialEq, Eq, Structural)]
pub enum OscColorReportFormat {
    /// `rgb:RR/GG/BB`
    EightBit,
    /// `rgb:RRRR/GGGG/BBBB` (the default)
    SixteenBit,
}

impl Default for OscColorReportFormat {
    fn default() -> (r: Self)
        ensures
            r == OscColorReportFormat::SixteenBit,
    {
        OscColorReportFormat::SixteenBit
    }
}

/// Grapheme width computation.
#[derive(Debug, Clone, Copy, PartialEq, Eq, Structural)]
pub enum GraphemeWidthMethod {
    Unicode,
    Legacy,
}

impl Default for GraphemeWidthMethod {
    fn default() -> (r: Self)
        ensures
            r == GraphemeWidthMethod::Unicode,
    {
        GraphemeWidthMethod::Unicode
    }
}

/// Cell width of East Asian ambiguous-width characters.
#[derive(Debug, Clone, Copy, PartialEq, Eq, Structural)]
pub enum EastAsianAmbiguousWidth {
    Narrow,
    Wide,
}

impl Default for EastAsianAmbiguousWidth {
    fn default() -> (r: Self)
        ensures
            r == EastAsianAmbiguousWidth::Narrow,
    {
        EastAsianAmbiguousWidth::Narrow
    }
}

/// Terminal behaviour settings.
#[derive(Debug, Clone)]
pub struct TerminalConfig {
    pub grapheme_width_method: GraphemeWidthMethod,
    pub east_asian_ambiguous_width: EastAsianAmbiguousWidth,
    pub osc_color_report_format: OscColorReportFormat,
    /// CSI 21 t may report the title (off by default).
    pub title_report: bool,
    /// Answer to ENQ; at most 256 characters are used.
    pub enquiry_response: Option<String>,
}

impl Default for TerminalConfig {
    fn default() -> (r: Self)
        ensures
            r.grapheme_width_method == GraphemeWidthMethod::Unicode,
            r.east_asian_ambiguous_width == EastAsianAmbiguousWidth::Narrow,
            r.osc_color_report_format == OscColorReportFormat::SixteenBit,
            !r.title_report,
            r.enquiry_response is None,
    {
        TerminalConfig {
            grapheme_width_method: GraphemeWidthMethod::Unicode,
            east_asian_ambiguous_width: EastAsianAmbiguousWidth::Narrow,
            osc_color_report_format: OscColorReportFormat::SixteenBit,
            title_report: false,
            enquiry_response: None,
        }
    }
}

/// Largest answer-back text, in characters.
pub const MAX_ENQ_CHARS: usize = 256;

/// `s` cut to its first `n` characters.
pub open spec fn first_chars(s: Seq<char>, n: int) -> Seq<char> {
    if s.len() > n { s.take(n) } else { s }
}

/// The first `n` characters of `s`.
pub fn take_chars(s: &str, n: usize) -> (r: String)
    ensures
        r@ == first_chars(s@, n as int),
{
    let chars = str_chars(s);
    let k = if chars.len() > n { n } else { chars.len() };
    let part = &chars.as_slice()[0..k];
    assert(part@ =~= first_chars(s@, n as int));
    chars_to_string(part)
}

impl TerminalConfig {
    /// The answer-back text cut to its first 256 characters.
    pub fn clamped_enquiry_response(&self) -> (r: Option<String>)
        ensures
            r is Some <==> self.enquiry_response is Some,
            r is Some ==> r->0@ == first_chars(self.enquiry_response->0@, MAX_ENQ_CHARS as int),
    {
        match &self.enquiry_response {
            Some(s) => Some(take_chars(s.as_str(), MAX_ENQ_CHARS)),
            None => None,
        }
    }
}


/// Text-selection settings.
#[derive(Debug, Clone)]
pub struct SelectionConfig {
    /// Extra characters that count as part of a word on double click.
    pub word_chars: String,
    /// Copy to the clipboard when a selection ends.
    pub save_to_clipboard: bool,
    /// Trim trailing white space of each copied line.
    pub trim_trailing_spaces: bool,
    /// Character replacements applied when copying: a code point or range
    /// (`U+2500-U+257F`) and its replacement text, in order.
    pub clipboard_codepoint_map: Vec<(String, String)>,
}

impl Default for SelectionConfig {
    fn default() -> (r: Self)
        ensures
            r.word_chars@.len() == 0,
            !r.save_to_clipboard,
            r.trim_trailing_spaces,
            r.clipboard_codepoint_map@.len() == 0,
    {
        SelectionConfig {
            word_chars: String::new(),
            save_to_clipboard: false,
            trim_trailing_spaces: true,
            clipboard_codepoint_map: Vec::new(),
        }
    }
}

/// `t` without a leading `U+` or `u+`.
pub open spec fn strip_u_plus(t: Seq<char>) -> Seq<char> {
    if t.len() >= 2 && (t[0] == 'U' || t[0] == 'u') && t[1] == '+' { t.skip(2) } else { t }
}

/// What `parse_clipboard_codepoint` gives: `U+XXXX`, `u+XXXX` or `XXXX`,
/// one to eight hexadecimal digits, at most U+10FFFF.
pub open spec fn clipboard_codepoint(s: Seq<char>) -> Option<u32> {
    let hex = strip_u_plus(trim(s));
    if hex.len() == 0 || hex.len() > 8 || !all_hex(hex) || hex_digits_value(hex) > 0x10FFFF {
        None
    } else {
        Some(hex_digits_value(hex) as u32)
    }
}

/// What `parse_clipboard_range` gives: `U+XXXX-U+YYYY` (start not after
/// end) or a single code point.
pub open spec fn clipboard_range(s: Seq<char>) -> Option<(u32, u32)> {
    let t = trim(s);
    let sep = match find_from(t, seq!['-', 'U', '+'], 0) {
        Some(i) => Some(i),
        None => find_from(t, seq!['-', 'u', '+'], 0),
    };
    match sep {
        Some(i) => match (clipboard_codepoint(t.take(i)), clipboard_codepoint(t.skip(i + 1))) {
            (Some(a), Some(b)) => if a <= b { Some((a, b)) } else { None },
            _ => None,
        },
        None => match clipboard_codepoint(t) {
            Some(c) => Some((c, c)),
            None => None,
        },
    }
}

fn strip_u_plus_exec(t: &Vec<char>) -> (r: Vec<char>)
    ensures
        r@ == strip_u_plus(t@),
{
    if t.len() >= 2 && (t[0] == 'U' || t[0] == 'u') && t[1] == '+' {
        let mut out: Vec<char> = Vec::new();
        let mut i: usize = 2;
        while i < t.len()
            invariant
                2 <= i <= t@.len(),
                out@ == t@.subrange(2, i as int),
            decreases t@.len() - i,
        {
            out.push(t[i]);
            i = i + 1;
            assert(out@ =~= t@.subrange(2, i as int));
        }
        assert(out@ =~= t@.skip(2));
        out
    } else {
        let mut out: Vec<char> = Vec::new();
        let mut i: usize = 0;
        while i < t.len()
            invariant
                i <= t@.len(),
                out@ == t@.take(i as int),
            decreases t@.len() - i,
        {
            out.push(t[i]);
            i = i + 1;
            assert(out@ =~= t@.take(i as int));
        }
        assert(out@ =~= t@);
        out
    }
}

/// Parses a clipboard-map code point: `U+XXXX`, `u+XXXX` or `XXXX`.
pub fn parse_clipboard_codepoint(s: &[char]) -> (r: Option<u32>)
    ensures
        r == clipboard_codepoint(s@),
{
    let t = trim_chars(s);
    let hex = strip_u_plus_exec(&t);
    if hex.len() == 0 || hex.len() > 8 {
        return None;
    }
    let mut i: usize = 0;
    while i < hex.len()
        invariant
            i <= hex@.len(),
            hex@ == strip_u_plus(trim(s@)),
            1 <= hex@.len() <= 8,
            forall|j: int| 0 <= j < i ==> (#[trigger] crate::text::hex_value(hex@[j])) is Some,
        decreases hex@.len() - i,
    {
        let c = hex[i];
        if !(('0' <= c && c <= '9') || ('a' <= c && c <= 'f') || ('A' <= c && c <= 'F')) {
            assert(crate::text::hex_value(hex@[i as int]) is None);
            assert(!all_hex(hex@));
            return None;
        }
        i = i + 1;
    }
    proof {
        lemma_hex_value_bound(hex@);
        lemma_pow16_mono(hex@.len(), 8);
        reveal_with_fuel(crate::text::pow16, 9);
        assert(crate::text::hex_value(hex@[0]) is Some);
    }
    assert(crate::text::without_plus(hex@) == hex@);
    match parse_hex_u32(hex.as_slice()) {
        Some(v) => if v <= 0x10FFFF { Some(v) } else { None },
        None => None,
    }
}

proof fn lemma_hex_value_bound(d: Seq<char>)
    requires
        all_hex(d),
    ensures
        0 <= hex_digits_value(d) < crate::text::pow16(d.len()),
    decreases d.len(),
{
    if d.len() > 0 {
        assert(all_hex(d.drop_last())) by {
            assert forall|i: int| 0 <= i < d.drop_last().len() implies (#[trigger] crate::text::hex_value(d.drop_last()[i])) is Some by {
                assert(d.drop_last()[i] == d[i]);
            }
        }
        lemma_hex_value_bound(d.drop_last());
        assert(crate::text::hex_value(d[d.len() - 1]) is Some);
    }
}

proof fn lemma_pow16_mono(n: nat, m: nat)
    requires
        n <= m,
    ensures
        1 <= crate::text::pow16(n) <= crate::text::pow16(m),
    decreases m,
{
    if n < m {
        lemma_pow16_mono(n, (m - 1) as nat);
    } else if m > 0 {
        lemma_pow16_mono((m - 1) as nat, (m - 1) as nat);
    }
}

/// Parses a clipboard-map key: `U+XXXX-U+YYYY` or a single code point.
pub fn parse_clipboard_range(range_str: &[char]) -> (r: Option<(u32, u32)>)
    ensures
        r == clipboard_range(range_str@),
{
    let t = trim_chars(range_str);
    let tlen = t.len();
    let up: [char; 3] = ['-', 'U', '+'];
    let low: [char; 3] = ['-', 'u', '+'];
    assert(up@ == seq!['-', 'U', '+'] && low@ == seq!['-', 'u', '+']);
    let sep = match find_chars(t.as_slice(), &up) {
        Some(i) => Some(i),
        None => find_chars(t.as_slice(), &low),
    };
    proof {
        crate::text::lemma_find_from_bounds(t@, seq!['-', 'U', '+'], 0);
        crate::text::lemma_find_from_bounds(t@, seq!['-', 'u', '+'], 0);
    }
    let ghost spec_sep = match find_from(t@, seq!['-', 'U', '+'], 0) {
        Some(i) => Some(i),
        None => find_from(t@, seq!['-', 'u', '+'], 0),
    };
    assert(spec_sep is Some <==> sep is Some);
    assert(sep is Some ==> spec_sep->0 == sep->0 as int);
    assert(sep is Some ==> sep->0 + 3 <= t@.len());
    match sep {
        Some(i) => {
            let tl = t.len();
            assert(i + 3 <= tl);
            let a_part = &t.as_slice()[0..i];
            let b_part = &t.as_slice()[i + 1..t.len()];
            assert(a_part@ =~= t@.take(i as int));
            assert(b_part@ =~= t@.skip(i + 1));
            let a = parse_clipboard_codepoint(a_part);
            let b = parse_clipboard_codepoint(b_part);
            match (a, b) {
                (Some(x), Some(y)) => if x <= y { Some((x, y)) } else { None },
                _ => None,
            }
        },
        None => match parse_clipboard_codepoint(t.as_slice()) {
            Some(c) => Some((c, c)),
            None => None,
        },
    }
}

/// Largest number of clipboard-map entries used.
pub const MAX_CLIPBOARD_CODEPOINT_MAP_ENTRIES: usize = 64;
/// Largest replacement text, in characters.
pub const MAX_REPLACEMENT_CHARS: usize = 256;
/// Output may grow to this many times the input's byte length.
pub const MAX_OUTPUT_MULTIPLIER: usize = 10;

/// The usable ranges of the first entries `m` of a clipboard map: entries
/// whose replacement is at most `MAX_REPLACEMENT_CHARS` characters and whose
/// key parses.
pub open spec fn usable_ranges(m: Seq<(String, String)>) -> Seq<(u32, u32, Seq<char>)>
    decreases m.len(),
{
    if m.len() == 0 {
        Seq::empty()
    } else {
        let rest = usable_ranges(m.drop_last());
        let (key, rep) = m.last();
        if rep@.len() > MAX_REPLACEMENT_CHARS {
            rest
        } else {
            match clipboard_range(key@) {
                Some((a, b)) => rest.push((a, b, rep@)),
                None => rest,
            }
        }
    }
}

/// What `c` becomes: the replacement of the first range holding it, or itself.
pub open spec fn mapped_char(ranges: Seq<(u32, u32, Seq<char>)>, c: char) -> Seq<char>
    decreases ranges.len(),
{
    if ranges.len() == 0 {
        seq![c]
    } else if ranges[0].0 <= (c as u32) && (c as u32) <= ranges[0].1 {
        ranges[0].2
    } else {
        mapped_char(ranges.drop_first(), c)
    }
}

/// The UTF-8 length of `s`, saturating at `usize::MAX`.
pub open spec fn sat_utf8_len(s: Seq<char>) -> int {
    if utf8_len(s) > usize::MAX { usize::MAX as int } else { utf8_len(s) as int }
}

/// Maps the characters of `text` onto `acc`, stopping before a character
/// once `acc` is longer than `max` bytes.
pub open spec fn mapped_text(ranges: Seq<(u32, u32, Seq<char>)>, text: Seq<char>, max: int, acc: Seq<char>) -> Seq<char>
    decreases text.len(),
{
    if text.len() == 0 || sat_utf8_len(acc) > max {
        acc
    } else {
        mapped_text(ranges, text.drop_first(), max, acc + mapped_char(ranges, text[0]))
    }
}

/// What `apply_codepoint_map` gives for `text` under the map `m`.
pub open spec fn codepoint_mapped(m: Seq<(String, String)>, text: Seq<char>) -> Seq<char> {
    let ranges = usable_ranges(map_head(m));
    if m.len() == 0 || ranges.len() == 0 {
        text
    } else {
        let n = utf8_len(text) * MAX_OUTPUT_MULTIPLIER;
        let max = if n > usize::MAX { usize::MAX as int } else { n as int };
        mapped_text(ranges, text, max, Seq::empty())
    }
}

/// The ranges as code-point bounds and replacement characters.
pub open spec fn ranges_view(r: Seq<(u32, u32, Vec<char>)>) -> Seq<(u32, u32, Seq<char>)> {
    Seq::new(r.len(), |k: int| (r[k].0, r[k].1, r[k].2@))
}

/// The first entries of a clipboard map that are used.
pub open spec fn map_head(m: Seq<(String, String)>) -> Seq<(String, String)> {
    if m.len() > MAX_CLIPBOARD_CODEPOINT_MAP_ENTRIES { m.take(MAX_CLIPBOARD_CODEPOINT_MAP_ENTRIES as int) } else { m }
}

/// The usable ranges of the map's first entries.
fn build_ranges(m: &Vec<(String, String)>) -> (r: Vec<(u32, u32, Vec<char>)>)
    ensures
        ranges_view(r@) == usable_ranges(map_head(m@)),
{
    let n = if m.len() > MAX_CLIPBOARD_CODEPOINT_MAP_ENTRIES { MAX_CLIPBOARD_CODEPOINT_MAP_ENTRIES } else { m.len() };
    let ghost mm = map_head(m@);
    let mut out: Vec<(u32, u32, Vec<char>)> = Vec::new();
    let mut i: usize = 0;
    assert(ranges_view(out@) =~= usable_ranges(mm.take(0)));
    while i < n
        invariant
            i <= n,
            n == mm.len(),
            mm == map_head(m@),
            ranges_view(out@) == usable_ranges(mm.take(i as int)),
        decreases n - i,
    {
        assert(mm.take(i + 1).drop_last() =~= mm.take(i as int));
        assert(mm.take(i + 1).last() == m@[i as int]);
        let key = &m[i].0;
        let rep = &m[i].1;
        let rep_chars = str_chars(rep.as_str());
        let ghost before = out@;
        if rep_chars.len() <= MAX_REPLACEMENT_CHARS {
            let key_chars = str_chars(key.as_str());
            match parse_clipboard_range(key_chars.as_slice()) {
                Some((a, b)) => {
                    out.push((a, b, rep_chars));
                    assert(ranges_view(out@) =~= ranges_view(before).push((a, b, rep@)));
                },
                None => {},
            }
        }
        i = i + 1;
    }
    assert(mm.take(n as int) =~= mm);
    out
}

/// The index of the first range holding `c`, if any.
fn lookup_range(ranges: &Vec<(u32, u32, Vec<char>)>, c: char) -> (r: Option<usize>)
    ensures
        match r {
            Some(k) => k < ranges@.len() && mapped_char(ranges_view(ranges@), c) == ranges@[k as int].2@,
            None => mapped_char(ranges_view(ranges@), c) == seq![c],
        },
{
    let cp = c as u32;
    let ghost gr = ranges_view(ranges@);
    let mut k: usize = 0;
    assert(gr.skip(0) =~= gr);
    while k < ranges.len()
        invariant
            k <= ranges@.len(),
            gr == ranges_view(ranges@),
            cp == c as u32,
            mapped_char(gr, c) == mapped_char(gr.skip(k as int), c),
        decreases ranges@.len() - k,
    {
        assert(gr.skip(k as int)[0] == gr[k as int]);
        assert(gr[k as int] == (ranges@[k as int].0, ranges@[k as int].1, ranges@[k as int].2@));
        assert(gr.skip(k as int).drop_first() =~= gr.skip(k + 1));
        let lo = ranges[k].0;
        let hi = ranges[k].1;
        assert(gr.len() == ranges@.len());
        assert(gr.skip(k as int).len() > 0);

        assert(lo == gr.skip(k as int)[0].0 && hi == gr.skip(k as int)[0].1);
        if lo <= cp && cp <= hi {
            assert(mapped_char(gr.skip(k as int), c) == gr.skip(k as int)[0].2);
            return Some(k);
        }
        assert(mapped_char(gr.skip(k as int), c) == mapped_char(gr.skip(k as int).drop_first(), c));
        k = k + 1;
    }
    None
}

impl SelectionConfig {
    pub const MAX_WORD_CHARS: usize = 256;

    /// `word_chars` cut to its first 256 characters.
    pub fn clamped_word_chars(&self) -> (r: String)
        ensures
            r@ == first_chars(self.word_chars@, SelectionConfig::MAX_WORD_CHARS as int),
    {
        take_chars(self.word_chars.as_str(), Self::MAX_WORD_CHARS)
    }

    /// `text` with every character that falls in a range of the clipboard
    /// map (its first 64 entries whose replacement is at most 256 characters
    /// and whose key parses) replaced by that range's text; the output stops
    /// growing once it exceeds ten times the input's byte length.
    pub fn apply_codepoint_map(&self, text: &str) -> (r: String)
        ensures
            r@ == codepoint_mapped(self.clipboard_codepoint_map@, text@),
    {
        let chars = str_chars(text);
        if self.clipboard_codepoint_map.len() == 0 {
            return chars_to_string(chars.as_slice());
        }
        let ranges = build_ranges(&self.clipboard_codepoint_map);
        let ghost gr = ranges_view(ranges@);
        if ranges.len() == 0 {
            return chars_to_string(chars.as_slice());
        }
        let in_len = utf8_len_of(chars.as_slice());
        let max = if in_len > usize::MAX / MAX_OUTPUT_MULTIPLIER { usize::MAX } else { in_len * MAX_OUTPUT_MULTIPLIER };
        let ghost gmax: int = if utf8_len(text@) * MAX_OUTPUT_MULTIPLIER > usize::MAX { usize::MAX as int } else { (utf8_len(text@) * MAX_OUTPUT_MULTIPLIER) as int };
        assert(max == gmax);
        let mut out: Vec<char> = Vec::new();
        let mut out_len: usize = 0;
        let mut i: usize = 0;
        assert(chars@.skip(0) =~= chars@);
        while i < chars.len() && out_len <= max
            invariant
                i <= chars@.len(),
                chars@ == text@,
                gr == ranges_view(ranges@),
                out_len == if utf8_len(out@) > usize::MAX { usize::MAX as int } else { utf8_len(out@) as int },
                mapped_text(gr, text@, gmax, Seq::empty()) == mapped_text(gr, chars@.skip(i as int), gmax, out@),
                max == gmax,
            decreases chars@.len() - i,
        {
            let c = chars[i];
            let ghost before = out@;
            match lookup_range(&ranges, c) {
                Some(k) => {
                    let rep = &ranges[k].2;
                    let mut j: usize = 0;
                    while j < rep.len()
                        invariant
                            j <= rep@.len(),
                            out@ == before + rep@.take(j as int),
                            out_len == if utf8_len(out@) > usize::MAX { usize::MAX as int } else { utf8_len(out@) as int },
                        decreases rep@.len() - j,
                    {
                        out.push(rep[j]);
                        assert(out@.drop_last() =~= before + rep@.take(j as int));
                        out_len = out_len.saturating_add(char_len_utf8(rep[j]));
                        j = j + 1;
                        assert(out@ =~= before + rep@.take(j as int));
                    }
                    assert(rep@.take(rep@.len() as int) =~= rep@);
                },
                None => {
                    out.push(c);
                    assert(out@.drop_last() =~= before);
                    out_len = out_len.saturating_add(char_len_utf8(c));
                },
            }
            assert(out@ =~= before + mapped_char(gr, c));
            assert(chars@.skip(i as int).drop_first() =~= chars@.skip(i + 1));
            assert(chars@.skip(i as int)[0] == c);
            i = i + 1;
        }
        chars_to_string(out.as_slice())
    }
}


/// Initial window width in columns when unset.
pub const DEFAULT_COLUMNS: u16 = 80;
/// Initial window height in rows when unset.
pub const DEFAULT_ROWS: u16 = 24;
/// Narrowest window, in columns.
pub const MIN_COLUMNS: u16 = 10;
/// Widest window, in columns.
pub const MAX_COLUMNS: u16 = 500;
/// Lowest window, in rows.
pub const MIN_ROWS: u16 = 2;
/// Tallest window, in rows.
pub const MAX_ROWS: u16 = 200;
/// Largest window padding, in pixels.
pub const MAX_PADDING: u16 = 200;
/// Smallest window position, in physical pixels.
pub const MIN_POSITION: i32 = -16000;
/// Largest window position, in physical pixels.
pub const MAX_POSITION: i32 = 32000;

/// `v` clamped into `lo..=hi`.
pub open spec fn clamp_u16(v: u16, lo: u16, hi: u16) -> u16 {
    if v < lo { lo } else if v > hi { hi } else { v }
}

/// `v` clamped into `lo..=hi`.
pub open spec fn clamp_i32(v: i32, lo: i32, hi: i32) -> i32 {
    if v < lo { lo } else if v > hi { hi } else { v }
}

/// Window padding capped at `MAX_PADDING`.
pub fn clamp_padding(v: u16) -> (r: u16)
    ensures
        r == if v > MAX_PADDING { MAX_PADDING } else { v },
{
    if v > MAX_PADDING { MAX_PADDING } else { v }
}

/// Window width clamped into `MIN_COLUMNS..=MAX_COLUMNS`.
pub fn clamp_columns(v: u16) -> (r: u16)
    ensures
        r == clamp_u16(v, MIN_COLUMNS, MAX_COLUMNS),
{
    if v < MIN_COLUMNS { MIN_COLUMNS } else if v > MAX_COLUMNS { MAX_COLUMNS } else { v }
}

/// Window height clamped into `MIN_ROWS..=MAX_ROWS`.
pub fn clamp_rows(v: u16) -> (r: u16)
    ensures
        r == clamp_u16(v, MIN_ROWS, MAX_ROWS),
{
    if v < MIN_ROWS { MIN_ROWS } else if v > MAX_ROWS { MAX_ROWS } else { v }
}

/// The window position, when both coordinates are set, each clamped into
/// `MIN_POSITION..=MAX_POSITION`.
pub fn clamp_position(x: Option<i32>, y: Option<i32>) -> (r: Option<(i32, i32)>)
    ensures
        r == match (x, y) {
            (Some(a), Some(b)) => Some((clamp_i32(a, MIN_POSITION, MAX_POSITION), clamp_i32(b, MIN_POSITION, MAX_POSITION))),
            _ => None,
        },
{
    match (x, y) {
        (Some(a), Some(b)) => {
            let ca = if a < MIN_POSITION { MIN_POSITION } else if a > MAX_POSITION { MAX_POSITION } else { a };
            let cb = if b < MIN_POSITION { MIN_POSITION } else if b > MAX_POSITION { MAX_POSITION } else { b };
            Some((ca, cb))
        },
        _ => None,
    }
}

/// `s` without any leading `#`.
pub open spec fn strip_hashes(s: Seq<char>) -> Seq<char>
    decreases s.len(),
{
    if s.len() > 0 && s[0] == '#' { strip_hashes(s.drop_first()) } else { s }
}

/// The colour that `#RRGGBB` (any number of leading `#`) names: exactly six
/// hexadecimal digits.
pub open spec fn hex_rgb(s: Seq<char>) -> Option<(u8, u8, u8)> {
    let h = strip_hashes(s);
    if h.len() != 6 || !all_hex(h) {
        None
    } else {
        Some((hex_digits_value(h.subrange(0, 2)) as u8, hex_digits_value(h.subrange(2, 4)) as u8, hex_digits_value(h.subrange(4, 6)) as u8))
    }
}

proof fn lemma_two_hex_digits(d: Seq<char>)
    requires
        d.len() == 2,
        all_hex(d),
    ensures
        0 <= hex_digits_value(d) < 256,
        d[0] != '+',
{
    lemma_hex_value_bound(d);
    reveal_with_fuel(crate::text::pow16, 3);
    assert(crate::text::hex_value(d[0]) is Some);
}

/// Reads `#RRGGBB` as red, green and blue bytes.
pub fn parse_hex_rgb(s: &str) -> (r: Option<(u8, u8, u8)>)
    ensures
        r == hex_rgb(s@),
{
    let chars = str_chars(s);
    let mut a: usize = 0;
    assert(chars@.skip(0) =~= chars@);
    while a < chars.len() && chars[a] == '#'
        invariant
            a <= chars@.len(),
            chars@ == s@,
            strip_hashes(s@) == strip_hashes(chars@.skip(a as int)),
        decreases chars@.len() - a,
    {
        assert(chars@.skip(a as int).drop_first() =~= chars@.skip(a + 1));
        a = a + 1;
    }
    assert(a < chars@.len() ==> chars@.skip(a as int)[0] == chars@[a as int]);
    let ghost h = chars@.skip(a as int);
    assert(strip_hashes(s@) == h);
    if chars.len() - a != 6 {
        return None;
    }
    let mut i: usize = a;
    while i < chars.len()
        invariant
            a <= i <= chars@.len(),
            chars@.len() == a + 6,
            chars@ == s@,
            strip_hashes(s@) == h,
            h == chars@.skip(a as int),
            forall|j: int| 0 <= j < i - a ==> (#[trigger] crate::text::hex_value(h[j])) is Some,
        decreases chars@.len() - i,
    {
        let c = chars[i];
        if !(('0' <= c && c <= '9') || ('a' <= c && c <= 'f') || ('A' <= c && c <= 'F')) {
            assert(h[i - a] == c);
            assert(crate::text::hex_value(h[i - a]) is None);
            assert(!all_hex(h));
            return None;
        }
        i = i + 1;
    }
    let r_part = &chars.as_slice()[a..a + 2];
    let g_part = &chars.as_slice()[a + 2..a + 4];
    let b_part = &chars.as_slice()[a + 4..a + 6];
    assert(r_part@ =~= h.subrange(0, 2));
    assert(g_part@ =~= h.subrange(2, 4));
    assert(b_part@ =~= h.subrange(4, 6));
    proof {
        assert forall|k: int| 0 <= k < 2 implies (#[trigger] crate::text::hex_value(h.subrange(0, 2)[k])) is Some by {
            assert(h.subrange(0, 2)[k] == h[k]);
        }
        assert forall|k: int| 0 <= k < 2 implies (#[trigger] crate::text::hex_value(h.subrange(2, 4)[k])) is Some by {
            assert(h.subrange(2, 4)[k] == h[k + 2]);
        }
        assert forall|k: int| 0 <= k < 2 implies (#[trigger] crate::text::hex_value(h.subrange(4, 6)[k])) is Some by {
            assert(h.subrange(4, 6)[k] == h[k + 4]);
        }
        lemma_two_hex_digits(h.subrange(0, 2));
        lemma_two_hex_digits(h.subrange(2, 4));
        lemma_two_hex_digits(h.subrange(4, 6));
        assert(crate::text::without_plus(h.subrange(0, 2)) == h.subrange(0, 2));
        assert(crate::text::without_plus(h.subrange(2, 4)) == h.subrange(2, 4));
        assert(crate::text::without_plus(h.subrange(4, 6)) == h.subrange(4, 6));
    }
    let rv = parse_hex_u32(r_part);
    let gv = parse_hex_u32(g_part);
    let bv = parse_hex_u32(b_part);
    match (rv, gv, bv) {
        (Some(x), Some(y), Some(z)) => Some((x as u8, y as u8, z as u8)),
        _ => None,
    }
}

} // verus!

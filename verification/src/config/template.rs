//! The commented settings-file template: the serialised settings with a
//! block of explanatory comments before each section.
use vstd::prelude::*;
use crate::text::{str_chars, chars_to_string, chars_eq, bytes_start_with};

verus! {

/// `s` split at every `c`.
pub open spec fn split_on(s: Seq<char>, c: char) -> Seq<Seq<char>>
    decreases s.len(),
{
    if s.len() == 0 {
        seq![Seq::empty()]
    } else {
        let p = split_on(s.drop_last(), c);
        if s.last() == c {
            p.push(Seq::empty())
        } else {
            p.update(p.len() - 1, p.last().push(s.last()))
        }
    }
}

/// `l` without one trailing carriage return.
pub open spec fn strip_cr(l: Seq<char>) -> Seq<char> {
    if l.len() > 0 && l.last() == '\r' { l.drop_last() } else { l }
}

/// The lines of `s` as `str::lines` gives them: split at line feeds, a
/// carriage return before a line feed dropped, no empty line after a final
/// line feed.
pub open spec fn text_lines(s: Seq<char>) -> Seq<Seq<char>> {
    let p = split_on(s, '\n');
    let body = p.drop_last().map_values(|l: Seq<char>| strip_cr(l));
    if p.last().len() == 0 { body } else { body.push(p.last()) }
}

/// The first lines of the template.
pub open spec fn template_header() -> Seq<char> {
    "# SDIT Terminal Configuration\n# Changes are applied automatically (hot reload).\n#\n# Documentation: https://github.com/user/sdit\n\n"@
}

/// The comment block before an `option_as_alt` line.
pub open spec fn option_as_alt_comment() -> Seq<char> {
    "\n# ── macOS Option Key ────────────────────────────────────\n# option_as_alt: treat Option key as Alt for readline shortcuts (Alt+B/F/D etc.)\n#   values: \"none\" (default), \"both\", \"only_left\" / \"left\", \"only_right\" / \"right\"\n"@
}

/// Section headers and the comment block that goes before each.
pub open spec fn section_comments() -> Seq<(Seq<char>, Seq<char>)> {
    seq![
        ("[font]"@, "# ── Font ──────────────────────────────────────────────\n# family: font family name (default: system monospace)\n# size: font size in pixels (1.0 - 200.0, default: 14.0)\n# line_height: line height multiplier (0.5 - 5.0, default: 1.2)\n# fallback_families: list of fallback font families (e.g. for CJK)\n# codepoint_map: per-codepoint-range font override (max 64 entries)\n#   e.g. [font.codepoint_map] \"U+3000-U+9FFF\" = \"Noto Sans CJK\"\n# variation: OpenType font variation (max 16 entries, future support)\n#   e.g. [font.variation] wght = 700.0\n# feature: OpenType font feature on/off (max 32 entries, future support)\n#   e.g. [font.feature] calt = true\n# adjust: fine-tune cell metrics (cell_width, cell_height, baseline in pixels)\n#   e.g. [font.adjust] cell_width = 1.0  cell_height = 0.0  baseline = -1.0\n"@),
        ("[colors]"@, "\n# ── Colors ─────────────────────────────────────────────\n# theme: built-in color theme name\n#   available: \"catppuccin-mocha\", \"catppuccin-latte\", \"gruvbox-dark\",\n#              \"solarized-dark\", \"solarized-light\", \"dracula\", \"nord\", \"one-dark\", \"tokyo-night\"\n# selection_foreground: text selection foreground color as hex \"#RRGGBB\"; omit to use inverted color\n# selection_background: text selection background color as hex \"#RRGGBB\"; omit to use inverted color\n# minimum_contrast: minimum WCAG 2.0 contrast ratio for cell rendering (1.0 = disabled, max 21.0)\n#   fg color is auto-adjusted when the contrast ratio falls below this value\n#   e.g. minimum_contrast = 4.5  # WCAG AA level\n# search_foreground: search highlight foreground color as hex \"#RRGGBB\"; omit to use default\n# search_background: search highlight background color as hex \"#RRGGBB\"; omit to use default\n"@),
        ("[keybinds]"@, "\n# ── Keybinds ────────────────────────────────────────────\n# Each entry: key, mods (\"super\", \"ctrl\", \"shift\", \"alt\", combined with \"|\"), action\n# Example: key = \"n\", mods = \"super\", action = \"NewWindow\"\n"@),
        ("[[keybinds]]"@, "\n# ── Keybinds ────────────────────────────────────────────\n# Each entry: key, mods (\"super\", \"ctrl\", \"shift\", \"alt\", combined with \"|\"), action\n# Example: key = \"n\", mods = \"super\", action = \"NewWindow\"\n"@),
        ("[bell]"@, "\n# ── Bell ──────────────────────────────────────────────\n# visual: flash the screen when BEL (0x07) is received (default: true)\n# dock_bounce: bounce the Dock icon when BEL is received while unfocused (default: true, macOS only)\n# duration_ms: visual bell fade-out duration in milliseconds (default: 150)\n"@),
        ("[window]"@, "\n# ── Window ─────────────────────────────────────────────\n# opacity: background opacity (0.0 = fully transparent, 1.0 = opaque, default: 1.0)\n# blur: enable background blur effect (macOS only, default: false)\n# padding_x: horizontal padding between grid and window edge in pixels (0-200, default: 0)\n# padding_y: vertical padding between grid and window edge in pixels (0-200, default: 0)\n# columns: initial terminal width in columns (10-500, default: 80)\n# rows: initial terminal height in rows (2-200, default: 24)\n# startup_mode: initial window state: \"Windowed\" (default), \"Maximized\", \"Fullscreen\"\n# inherit_working_directory: inherit active session's working directory for new sessions/windows (default: true)\n# confirm_close: show confirmation dialog when closing a session (default: \"process_running\")\n#   \"never\": close without confirmation\n#   \"always\": always show confirmation\n#   \"process_running\": show confirmation only when a foreground process is running\n# decorations: window decoration mode (default: \"full\")\n#   \"full\": native window decorations (title bar, borders)\n#   \"none\": borderless window (no title bar)\n# always_on_top: keep window above all other windows (default: false)\n# restore_session: restore windows and tabs from previous session on startup (default: true)\n# background_image: path to a background image file (PNG/JPEG/WebP); omit for no image\n#   e.g. background_image = \"~/Pictures/bg.png\"\n# background_image_opacity: opacity of the background image (0.0-1.0, default: 0.3)\n# background_image_fit: how to fit the image: \"cover\" (default), \"contain\", \"fill\"\n# working_directory: initial working directory for new sessions (default: home directory)\n#   e.g. working_directory = \"~/Projects\"\n# padding_color: color of the padding area (default: \"background\" = same as terminal background)\n# subtitle: window subtitle display (default: \"none\")\n#   \"none\": no subtitle\n#   \"working-directory\": show current working directory (updated via OSC 7)\n#   \"session-name\": show session name\n# resize_increments: snap window resize to cell size multiples (default: false)\n#   true: window resizes in exact cell-width/cell-height steps (no fractional padding)\n# colorspace: window color space (default: \"srgb\"); macOS wide color display support\n#   \"srgb\": standard sRGB\n#   \"display-p3\": prefer Display P3 (uses Bgra8UnormSrgb format when available)\n"@),
        ("[paste]"@, "\n# ── Paste ─────────────────────────────────────────────\n# confirm_multiline: show confirmation dialog when pasting text containing newlines (default: true)\n"@),
        ("[notification]"@, "\n# ── Notification ──────────────────────────────────────\n# enabled: show desktop notifications from OSC 9/99 sequences (default: true)\n"@),
        ("[cursor]"@, "\n# ── Cursor ─────────────────────────────────────────────\n# style: cursor shape: \"block\" (default), \"underline\", \"bar\"\n# blinking: enable cursor blinking (default: false)\n# color: cursor color as hex string (e.g. \"#ff6600\"); omit to use theme foreground\n"@),
        ("[scrollback]"@, "\n# ── Scrollback ──────────────────────────────────────────\n# lines: maximum number of scrollback lines (default: 10000, range: 0-1000000)\n"@),
        ("[shell_integration]"@, "\n# ── Shell Integration ──────────────────────────────────────\n# enabled: enable OSC 133 shell integration for prompt navigation (default: true)\n"@),
        ("[quick_select]"@, "\n# ── Quick Select ───────────────────────────────────────────\n# patterns: additional regex patterns to match in Quick Select mode\n# Example: patterns = [\"[A-Z]+-\\\\d+\"]  # matches JIRA issue IDs\n"@),
        ("[scrolling]"@, "\n# ── Scrolling ───────────────────────────────────────────────\n# multiplier: scroll lines per mouse wheel notch (1-100, default: 3)\n# scroll_to_bottom_on_keystroke: scroll to bottom when a key is pressed (default: true)\n# scroll_to_bottom_on_output: scroll to bottom when new output is received (default: false)\n"@),
        ("[selection]"@, "\n# ── Selection ───────────────────────────────────────────────\n# word_chars: extra characters treated as part of a word in double-click selection (default: \"\")\n# save_to_clipboard: auto-copy selected text to clipboard on mouse release (default: false)\n# trim_trailing_spaces: remove trailing whitespace from each line when copying to clipboard (default: true)\n"@),
        ("[mouse]"@, "\n# ── Mouse ──────────────────────────────────────────────────\n# hide_when_typing: hide mouse cursor while typing (default: false)\n# right_click_action: action on right mouse button click (default: \"context_menu\")\n#   \"context_menu\": show context menu\n#   \"paste\": paste from clipboard\n#   \"none\": do nothing\n# click_repeat_interval: double/triple click detection interval in milliseconds (50-2000, default: 300)\n# swallow_mouse_click_on_focus: absorb click when window gains focus (default: false)\n#   true: click only focuses the window, not passed to terminal\n"@),
        ("[scrollbar]"@, "\n# ── Scrollbar ──────────────────────────────────────────────\n# enabled: show scrollbar when scrollback history exists (default: true)\n# width: scrollbar width hint in pixels (2-32, default: 8)\n"@),
        ("[security]"@, "\n# ── Security ───────────────────────────────────────────────\n# auto_secure_input: automatically enable Secure Keyboard Entry on focus (macOS only, default: false)\n#   prevents other apps from capturing keystrokes while SDIT is focused\n"@),
        ("[quick_terminal]"@, "\n# ── Quick Terminal ─────────────────────────────────────────\n# enabled: enable the Quick Terminal dropdown (default: false, macOS only)\n# position: slide-in direction: \"top\" (default), \"bottom\", \"left\", \"right\"\n# size: fraction of screen width/height (0.1-1.0, default: 0.4)\n# hotkey: global hotkey string (default: \"ctrl+`\")\n# animation_duration: slide-in/out animation in seconds (0.0-2.0, default: 0.2)\n"@),
        ("[[global_hotkeys]]"@, "\n# ── Global Hotkeys ─────────────────────────────────────────\n# System-wide hotkeys (macOS only, requires Accessibility permission).\n# hotkey: key combination e.g. \"cmd+shift+alt+t\"\n# action: action name e.g. \"BringToFront\", \"NewWindow\"\n"@),
        ("[[links]]"@, "\n# ── Custom Links ───────────────────────────────────────────\n# Custom link patterns. Each entry defines a regex and an action.\n# regex: regular expression pattern (max 512 chars, max 32 entries)\n# action: \"open:<URL_TEMPLATE>\" where $0 = full match, $1/$2 = capture groups\n# Example:\n#   [[links]]\n#   regex = \"JIRA-\\\\d+\"\n#   action = \"open:https://jira.example.com/browse/$0\"\n"@),
        ("[env]"@, "\n# ── Environment Variables ─────────────────────────────────\n# Extra environment variables injected into each PTY session (max 64 entries).\n# Keys/values containing control characters are skipped with a warning.\n# Example:\n#   [env]\n#   TERM_PROGRAM = \"sdit\"\n#   COLORTERM = \"truecolor\"\n"@),
        ("[terminal]"@, "\n# ── Terminal ───────────────────────────────────────────────\n# grapheme_width_method: grapheme width calculation method (default: \"unicode\")\n#   \"unicode\": standard Unicode width calculation\n#   \"legacy\": legacy wcswidth-compatible mode (future support)\n# east_asian_ambiguous_width: cell width for East Asian Ambiguous characters e.g. ○□★ (default: \"narrow\")\n#   \"narrow\": 1 cell (standard unicode-width behavior)\n#   \"wide\": 2 cells (CJK environment preference)\n"@)
    ]
}

/// The comment block of the first rule that `line` matches.
pub open spec fn comment_from(rules: Seq<(Seq<char>, Seq<char>)>, line: Seq<char>) -> Seq<char>
    decreases rules.len(),
{
    if rules.len() == 0 {
        Seq::empty()
    } else if rules[0].0 == line {
        rules[0].1
    } else {
        comment_from(rules.drop_first(), line)
    }
}

/// The comment block that goes before `line`.
pub open spec fn comment_for(line: Seq<char>) -> Seq<char> {
    let key = "option_as_alt"@;
    if key.len() <= line.len() && line.take(key.len() as int) == key {
        option_as_alt_comment()
    } else {
        comment_from(section_comments(), line)
    }
}

/// The lines `ls`, each after its comment block and followed by a line feed.
pub open spec fn commented_lines(ls: Seq<Seq<char>>) -> Seq<char>
    decreases ls.len(),
{
    if ls.len() == 0 {
        Seq::empty()
    } else {
        commented_lines(ls.drop_last()) + comment_for(ls.last()) + ls.last() + seq!['\n']
    }
}

/// The template for the serialised settings `toml_body`.
pub open spec fn commented_template(toml_body: Seq<char>) -> Seq<char> {
    template_header() + commented_lines(text_lines(toml_body))
}

/// The section rules as text pairs.
fn section_comment_table() -> (r: Vec<(&'static str, &'static str)>)
    ensures
        r@.len() == section_comments().len(),
        forall|i: int| 0 <= i < r@.len() ==> #[trigger] r@[i].0@ == section_comments()[i].0 && r@[i].1@ == section_comments()[i].1,
{
    let r = vec![
        ("[font]", "# ── Font ──────────────────────────────────────────────\n# family: font family name (default: system monospace)\n# size: font size in pixels (1.0 - 200.0, default: 14.0)\n# line_height: line height multiplier (0.5 - 5.0, default: 1.2)\n# fallback_families: list of fallback font families (e.g. for CJK)\n# codepoint_map: per-codepoint-range font override (max 64 entries)\n#   e.g. [font.codepoint_map] \"U+3000-U+9FFF\" = \"Noto Sans CJK\"\n# variation: OpenType font variation (max 16 entries, future support)\n#   e.g. [font.variation] wght = 700.0\n# feature: OpenType font feature on/off (max 32 entries, future support)\n#   e.g. [font.feature] calt = true\n# adjust: fine-tune cell metrics (cell_width, cell_height, baseline in pixels)\n#   e.g. [font.adjust] cell_width = 1.0  cell_height = 0.0  baseline = -1.0\n"),
        ("[colors]", "\n# ── Colors ─────────────────────────────────────────────\n# theme: built-in color theme name\n#   available: \"catppuccin-mocha\", \"catppuccin-latte\", \"gruvbox-dark\",\n#              \"solarized-dark\", \"solarized-light\", \"dracula\", \"nord\", \"one-dark\", \"tokyo-night\"\n# selection_foreground: text selection foreground color as hex \"#RRGGBB\"; omit to use inverted color\n# selection_background: text selection background color as hex \"#RRGGBB\"; omit to use inverted color\n# minimum_contrast: minimum WCAG 2.0 contrast ratio for cell rendering (1.0 = disabled, max 21.0)\n#   fg color is auto-adjusted when the contrast ratio falls below this value\n#   e.g. minimum_contrast = 4.5  # WCAG AA level\n# search_foreground: search highlight foreground color as hex \"#RRGGBB\"; omit to use default\n# search_background: search highlight background color as hex \"#RRGGBB\"; omit to use default\n"),
        ("[keybinds]", "\n# ── Keybinds ────────────────────────────────────────────\n# Each entry: key, mods (\"super\", \"ctrl\", \"shift\", \"alt\", combined with \"|\"), action\n# Example: key = \"n\", mods = \"super\", action = \"NewWindow\"\n"),
        ("[[keybinds]]", "\n# ── Keybinds ────────────────────────────────────────────\n# Each entry: key, mods (\"super\", \"ctrl\", \"shift\", \"alt\", combined with \"|\"), action\n# Example: key = \"n\", mods = \"super\", action = \"NewWindow\"\n"),
        ("[bell]", "\n# ── Bell ──────────────────────────────────────────────\n# visual: flash the screen when BEL (0x07) is received (default: true)\n# dock_bounce: bounce the Dock icon when BEL is received while unfocused (default: true, macOS only)\n# duration_ms: visual bell fade-out duration in milliseconds (default: 150)\n"),
        ("[window]", "\n# ── Window ─────────────────────────────────────────────\n# opacity: background opacity (0.0 = fully transparent, 1.0 = opaque, default: 1.0)\n# blur: enable background blur effect (macOS only, default: false)\n# padding_x: horizontal padding between grid and window edge in pixels (0-200, default: 0)\n# padding_y: vertical padding between grid and window edge in pixels (0-200, default: 0)\n# columns: initial terminal width in columns (10-500, default: 80)\n# rows: initial terminal height in rows (2-200, default: 24)\n# startup_mode: initial window state: \"Windowed\" (default), \"Maximized\", \"Fullscreen\"\n# inherit_working_directory: inherit active session's working directory for new sessions/windows (default: true)\n# confirm_close: show confirmation dialog when closing a session (default: \"process_running\")\n#   \"never\": close without confirmation\n#   \"always\": always show confirmation\n#   \"process_running\": show confirmation only when a foreground process is running\n# decorations: window decoration mode (default: \"full\")\n#   \"full\": native window decorations (title bar, borders)\n#   \"none\": borderless window (no title bar)\n# always_on_top: keep window above all other windows (default: false)\n# restore_session: restore windows and tabs from previous session on startup (default: true)\n# background_image: path to a background image file (PNG/JPEG/WebP); omit for no image\n#   e.g. background_image = \"~/Pictures/bg.png\"\n# background_image_opacity: opacity of the background image (0.0-1.0, default: 0.3)\n# background_image_fit: how to fit the image: \"cover\" (default), \"contain\", \"fill\"\n# working_directory: initial working directory for new sessions (default: home directory)\n#   e.g. working_directory = \"~/Projects\"\n# padding_color: color of the padding area (default: \"background\" = same as terminal background)\n# subtitle: window subtitle display (default: \"none\")\n#   \"none\": no subtitle\n#   \"working-directory\": show current working directory (updated via OSC 7)\n#   \"session-name\": show session name\n# resize_increments: snap window resize to cell size multiples (default: false)\n#   true: window resizes in exact cell-width/cell-height steps (no fractional padding)\n# colorspace: window color space (default: \"srgb\"); macOS wide color display support\n#   \"srgb\": standard sRGB\n#   \"display-p3\": prefer Display P3 (uses Bgra8UnormSrgb format when available)\n"),
        ("[paste]", "\n# ── Paste ─────────────────────────────────────────────\n# confirm_multiline: show confirmation dialog when pasting text containing newlines (default: true)\n"),
        ("[notification]", "\n# ── Notification ──────────────────────────────────────\n# enabled: show desktop notifications from OSC 9/99 sequences (default: true)\n"),
        ("[cursor]", "\n# ── Cursor ─────────────────────────────────────────────\n# style: cursor shape: \"block\" (default), \"underline\", \"bar\"\n# blinking: enable cursor blinking (default: false)\n# color: cursor color as hex string (e.g. \"#ff6600\"); omit to use theme foreground\n"),
        ("[scrollback]", "\n# ── Scrollback ──────────────────────────────────────────\n# lines: maximum number of scrollback lines (default: 10000, range: 0-1000000)\n"),
        ("[shell_integration]", "\n# ── Shell Integration ──────────────────────────────────────\n# enabled: enable OSC 133 shell integration for prompt navigation (default: true)\n"),
        ("[quick_select]", "\n# ── Quick Select ───────────────────────────────────────────\n# patterns: additional regex patterns to match in Quick Select mode\n# Example: patterns = [\"[A-Z]+-\\\\d+\"]  # matches JIRA issue IDs\n"),
        ("[scrolling]", "\n# ── Scrolling ───────────────────────────────────────────────\n# multiplier: scroll lines per mouse wheel notch (1-100, default: 3)\n# scroll_to_bottom_on_keystroke: scroll to bottom when a key is pressed (default: true)\n# scroll_to_bottom_on_output: scroll to bottom when new output is received (default: false)\n"),
        ("[selection]", "\n# ── Selection ───────────────────────────────────────────────\n# word_chars: extra characters treated as part of a word in double-click selection (default: \"\")\n# save_to_clipboard: auto-copy selected text to clipboard on mouse release (default: false)\n# trim_trailing_spaces: remove trailing whitespace from each line when copying to clipboard (default: true)\n"),
        ("[mouse]", "\n# ── Mouse ──────────────────────────────────────────────────\n# hide_when_typing: hide mouse cursor while typing (default: false)\n# right_click_action: action on right mouse button click (default: \"context_menu\")\n#   \"context_menu\": show context menu\n#   \"paste\": paste from clipboard\n#   \"none\": do nothing\n# click_repeat_interval: double/triple click detection interval in milliseconds (50-2000, default: 300)\n# swallow_mouse_click_on_focus: absorb click when window gains focus (default: false)\n#   true: click only focuses the window, not passed to terminal\n"),
        ("[scrollbar]", "\n# ── Scrollbar ──────────────────────────────────────────────\n# enabled: show scrollbar when scrollback history exists (default: true)\n# width: scrollbar width hint in pixels (2-32, default: 8)\n"),
        ("[security]", "\n# ── Security ───────────────────────────────────────────────\n# auto_secure_input: automatically enable Secure Keyboard Entry on focus (macOS only, default: false)\n#   prevents other apps from capturing keystrokes while SDIT is focused\n"),
        ("[quick_terminal]", "\n# ── Quick Terminal ─────────────────────────────────────────\n# enabled: enable the Quick Terminal dropdown (default: false, macOS only)\n# position: slide-in direction: \"top\" (default), \"bottom\", \"left\", \"right\"\n# size: fraction of screen width/height (0.1-1.0, default: 0.4)\n# hotkey: global hotkey string (default: \"ctrl+`\")\n# animation_duration: slide-in/out animation in seconds (0.0-2.0, default: 0.2)\n"),
        ("[[global_hotkeys]]", "\n# ── Global Hotkeys ─────────────────────────────────────────\n# System-wide hotkeys (macOS only, requires Accessibility permission).\n# hotkey: key combination e.g. \"cmd+shift+alt+t\"\n# action: action name e.g. \"BringToFront\", \"NewWindow\"\n"),
        ("[[links]]", "\n# ── Custom Links ───────────────────────────────────────────\n# Custom link patterns. Each entry defines a regex and an action.\n# regex: regular expression pattern (max 512 chars, max 32 entries)\n# action: \"open:<URL_TEMPLATE>\" where $0 = full match, $1/$2 = capture groups\n# Example:\n#   [[links]]\n#   regex = \"JIRA-\\\\d+\"\n#   action = \"open:https://jira.example.com/browse/$0\"\n"),
        ("[env]", "\n# ── Environment Variables ─────────────────────────────────\n# Extra environment variables injected into each PTY session (max 64 entries).\n# Keys/values containing control characters are skipped with a warning.\n# Example:\n#   [env]\n#   TERM_PROGRAM = \"sdit\"\n#   COLORTERM = \"truecolor\"\n"),
        ("[terminal]", "\n# ── Terminal ───────────────────────────────────────────────\n# grapheme_width_method: grapheme width calculation method (default: \"unicode\")\n#   \"unicode\": standard Unicode width calculation\n#   \"legacy\": legacy wcswidth-compatible mode (future support)\n# east_asian_ambiguous_width: cell width for East Asian Ambiguous characters e.g. ○□★ (default: \"narrow\")\n#   \"narrow\": 1 cell (standard unicode-width behavior)\n#   \"wide\": 2 cells (CJK environment preference)\n"),
    ];
    r
}


fn starts_with_chars(line: &Vec<char>, prefix: &Vec<char>) -> (r: bool)
    ensures
        r == (prefix@.len() <= line@.len() && line@.take(prefix@.len() as int) == prefix@),
{
    if prefix.len() > line.len() {
        return false;
    }
    let mut i: usize = 0;
    while i < prefix.len()
        invariant
            i <= prefix@.len(),
            prefix@.len() <= line@.len(),
            forall|j: int| 0 <= j < i ==> line@[j] == prefix@[j],
        decreases prefix@.len() - i,
    {
        if line[i] != prefix[i] {
            assert(line@.take(prefix@.len() as int)[i as int] != prefix@[i as int]);
            return false;
        }
        i = i + 1;
    }
    assert(line@.take(prefix@.len() as int) =~= prefix@);
    true
}

/// The comment block that goes before `line`.
fn comment_for_line(line: &Vec<char>, table: &Vec<(&'static str, &'static str)>) -> (r: Vec<char>)
    requires
        table@.len() == section_comments().len(),
        forall|i: int| 0 <= i < table@.len() ==> #[trigger] table@[i].0@ == section_comments()[i].0 && table@[i].1@ == section_comments()[i].1,
    ensures
        r@ == comment_for(line@),
{
    let key = str_chars("option_as_alt");
    if starts_with_chars(line, &key) {
        return str_chars("\n# ── macOS Option Key ────────────────────────────────────\n# option_as_alt: treat Option key as Alt for readline shortcuts (Alt+B/F/D etc.)\n#   values: \"none\" (default), \"both\", \"only_left\" / \"left\", \"only_right\" / \"right\"\n");
    }
    let ghost rules = section_comments();
    let mut i: usize = 0;
    assert(rules.skip(0) =~= rules);
    while i < table.len()
        invariant
            i <= table@.len(),
            rules == section_comments(),
            table@.len() == rules.len(),
            forall|k: int| 0 <= k < table@.len() ==> #[trigger] table@[k].0@ == rules[k].0 && table@[k].1@ == rules[k].1,
            comment_for(line@) == comment_from(rules.skip(i as int), line@),
        decreases table@.len() - i,
    {
        let (h, b) = table[i];
        assert(rules.skip(i as int)[0] == rules[i as int]);
        assert(rules.skip(i as int).drop_first() =~= rules.skip(i + 1));
        let hc = str_chars(h);
        if chars_eq(hc.as_slice(), line.as_slice()) {
            return str_chars(b);
        }
        i = i + 1;
    }
    Vec::new()
}

fn push_all(out: &mut Vec<char>, v: &Vec<char>)
    ensures
        final(out)@ == old(out)@ + v@,
{
    let mut i: usize = 0;
    while i < v.len()
        invariant
            i <= v@.len(),
            out@ == old(out)@ + v@.take(i as int),
        decreases v@.len() - i,
    {
        out.push(v[i]);
        i = i + 1;
        assert(out@ =~= old(out)@ + v@.take(i as int));
    }
    assert(v@.take(v@.len() as int) =~= v@);
}

proof fn lemma_split_on_nonempty(s: Seq<char>, c: char)
    ensures
        split_on(s, c).len() >= 1,
    decreases s.len(),
{
    if s.len() > 0 {
        lemma_split_on_nonempty(s.drop_last(), c);
    }
}

/// The settings-file template: a header, then every line of `toml_body`
/// after the comment block of its section (if any) and a line feed.
pub fn commented_config(toml_body: &str) -> (r: String)
    ensures
        r@ == commented_template(toml_body@),
{
    let chars = str_chars(toml_body);
    let table = section_comment_table();
    let mut out = str_chars("# SDIT Terminal Configuration\n# Changes are applied automatically (hot reload).\n#\n# Documentation: https://github.com/user/sdit\n\n");
    let mut cur: Vec<char> = Vec::new();
    let mut i: usize = 0;
    proof {
        lemma_split_on_nonempty(chars@.take(0), '\n');
    }
    assert(chars@.take(0) =~= Seq::<char>::empty());
    assert(split_on(chars@.take(0), '\n').drop_last().map_values(|l: Seq<char>| strip_cr(l)) =~= Seq::<Seq<char>>::empty());
    while i < chars.len()
        invariant
            i <= chars@.len(),
            chars@ == toml_body@,
            table@.len() == section_comments().len(),
            forall|k: int| 0 <= k < table@.len() ==> #[trigger] table@[k].0@ == section_comments()[k].0 && table@[k].1@ == section_comments()[k].1,
            split_on(chars@.take(i as int), '\n').len() >= 1,
            cur@ == split_on(chars@.take(i as int), '\n').last(),
            out@ == template_header() + commented_lines(
                split_on(chars@.take(i as int), '\n').drop_last().map_values(|l: Seq<char>| strip_cr(l)),
            ),
        decreases chars@.len() - i,
    {
        let c = chars[i];
        let ghost p = split_on(chars@.take(i as int), '\n');
        assert(chars@.take(i + 1).drop_last() =~= chars@.take(i as int));
        if c == '\n' {
            if cur.len() > 0 && cur[cur.len() - 1] == '\r' {
                cur.pop();
            }
            let comment = comment_for_line(&cur, &table);
            push_all(&mut out, &comment);
            push_all(&mut out, &cur);
            out.push('\n');
            cur = Vec::new();
            proof {
                let q = split_on(chars@.take(i + 1), '\n');
                assert(q == p.push(Seq::empty()));
                let lines_before = p.drop_last().map_values(|l: Seq<char>| strip_cr(l));
                let lines_after = q.drop_last().map_values(|l: Seq<char>| strip_cr(l));
                assert(q.drop_last() =~= p);
                assert(p =~= p.drop_last().push(p.last()));
                assert(lines_after =~= lines_before.push(strip_cr(p.last())));
                assert(lines_after.drop_last() =~= lines_before);
            }
        } else {
            cur.push(c);
            proof {
                let q = split_on(chars@.take(i + 1), '\n');
                assert(q == p.update(p.len() - 1, p.last().push(c)));
                assert(q.drop_last() =~= p.drop_last());
            }
        }
        i = i + 1;
    }
    assert(chars@.take(chars@.len() as int) =~= chars@);
    if cur.len() > 0 {
        let comment = comment_for_line(&cur, &table);
        push_all(&mut out, &comment);
        push_all(&mut out, &cur);
        out.push('\n');
        proof {
            let p = split_on(chars@, '\n');
            let body = p.drop_last().map_values(|l: Seq<char>| strip_cr(l));
            assert(body.push(p.last()).drop_last() =~= body);
        }
    }
    chars_to_string(out.as_slice())
}

} // verus!

use sdit_core::render::glyph_cells;
use sdit_core::grid::cell::NamedColor;
use sdit_core::render::{color_to_rgb, named_color_to_rgb, xterm256_to_rgb};
use sdit_core::render::{cell_highlight, CellHighlight};
use sdit_core::grid::cell::CellFlags;
use sdit_core::render::viewport_row_text;
use sdit_core::session::persistence::validated_active_index;
use sdit_core::session::persistence::clamp_window_pos;
use sdit_core::config::font::parse_codepoint_map;
use sdit_core::config::{clamp_columns, clamp_padding, clamp_position, clamp_rows, parse_hex_rgb};
use sdit_core::grid::cell::Cell;
use sdit_core::terminal::url_detector::detect_patterns_in_line;
use sdit_core::grid::cell::Color;
use sdit_core::config::color::ThemeName;
use sdit_core::config::keybinds::{parse_mods_to_bits, Action, KeyBinding, KeybindConfig, other_default_bindings};
use sdit_core::config::template::commented_config;
use sdit_core::config::{parse_clipboard_codepoint, parse_clipboard_range, SelectionConfig, TerminalConfig};
use sdit_core::grid::Grid;
use sdit_core::index::{Column, Line, Point};
use sdit_core::render::atlas::AtlasAllocator;
use sdit_core::render::{build_col_glyph_map, is_in_selection, ShapedGlyph};
use sdit_core::selection::{Selection, SelectionType};
use sdit_core::session::persistence::SessionRestoreInfo;
use sdit_core::terminal::osc::{decode_base64, parse_i32_bytes, sanitize_notification_text, truncate_utf8};
use sdit_core::terminal::search::SearchEngine;
use sdit_core::terminal::{CursorStyle, KittyFlagStack, KittyKeyboardFlags, TermMode, Terminal};

fn chars(s: &str) -> Vec<char> {
    s.chars().collect()
}

#[test]
fn base64_decodes_and_rejects() {
    assert_eq!(decode_base64(b"SGVsbG8="), Some("Hello".to_string()));
    assert_eq!(decode_base64(b"SGVs\nbG8="), Some("Hello".to_string()));
    assert_eq!(decode_base64(b"not!valid"), None);
    assert_eq!(decode_base64(b"/w=="), None);
    assert_eq!(decode_base64(b""), Some(String::new()));
}

#[test]
fn truncate_utf8_backs_off_to_char_boundary() {
    let s = "あい".as_bytes();
    assert_eq!(truncate_utf8(s, 4), "あ");
    assert_eq!(truncate_utf8(s, 6), "あい");
    assert_eq!(truncate_utf8(b"abc", 2), "ab");
}

#[test]
fn sanitize_keeps_newline_and_tab() {
    assert_eq!(sanitize_notification_text("a\u{7}b\nc\td\u{9b}"), "ab\nc\td");
}

#[test]
fn exit_code_parsing_follows_i32_rules() {
    assert_eq!(parse_i32_bytes(b"0"), Some(0));
    assert_eq!(parse_i32_bytes(b"-12"), Some(-12));
    assert_eq!(parse_i32_bytes(b"+7"), Some(7));
    assert_eq!(parse_i32_bytes(b"2147483648"), None);
    assert_eq!(parse_i32_bytes(b"-2147483648"), Some(i32::MIN));
    assert_eq!(parse_i32_bytes(b""), None);
    assert_eq!(parse_i32_bytes(b"-"), None);
    assert_eq!(parse_i32_bytes(b"1x"), None);
}

#[test]
fn kitty_push_then_pop_restores() {
    let mut s = KittyFlagStack::default();
    s.push(KittyKeyboardFlags::from_raw(5));
    let before = s.current();
    s.push(KittyKeyboardFlags::from_raw(9));
    s.pop(1);
    assert_eq!(s.current(), before);
}

#[test]
fn alt_screen_roundtrip_keeps_primary_cursor() {
    let mut t = Terminal::new(5, 10, 10);
    t.print('x');
    t.set_cursor(2, 3);
    t.swap_alt_screen();
    assert!(t.mode().contains(TermMode::ALT_SCREEN));
    t.print('y');
    t.swap_alt_screen();
    assert!(!t.mode().contains(TermMode::ALT_SCREEN));
    assert_eq!(t.grid().cursor.point, Point::new(Line(2), Column(3)));
    assert_eq!(t.grid().cell(Point::new(Line(0), Column(0))).c, 'x');
}

#[test]
fn save_and_restore_cursor() {
    let mut t = Terminal::new(5, 10, 10);
    t.set_cursor(1, 4);
    t.esc_dispatch(&[], false, b'7');
    t.set_cursor(3, 0);
    t.esc_dispatch(&[], false, b'8');
    assert_eq!(t.grid().cursor.point, Point::new(Line(1), Column(4)));
}

#[test]
fn decscusr_zero_returns_to_defaults() {
    let mut t = Terminal::new_with_cursor(5, 10, 0, CursorStyle::Underline, true);
    t.csi_dispatch(&[vec![6]], b" ", false, 'q');
    assert_eq!(t.cursor_style(), CursorStyle::Bar);
    assert!(!t.cursor_blinking());
    t.csi_dispatch(&[vec![0]], b" ", false, 'q');
    assert_eq!(t.cursor_style(), CursorStyle::Underline);
    assert!(t.cursor_blinking());
}

#[test]
fn cursor_color_query_reports_white() {
    let mut t = Terminal::new(5, 10, 0);
    t.osc_dispatch(&[b"12", b"?"], false);
    let w = t.drain_pending_writes().unwrap();
    assert_eq!(w, b"\x1b]12;rgb:ffff/ffff/ffff\x1b\\".to_vec());
}

#[test]
fn title_report_answers_with_title() {
    let mut t = Terminal::new(5, 10, 0);
    t.title_report = true;
    t.osc_dispatch(&[b"2", b"T"], false);
    t.csi_dispatch(&[vec![21]], b"", false, 't');
    assert_eq!(t.drain_pending_writes().unwrap(), b"\x1b]lT\x1b\\".to_vec());
}

#[test]
fn horizontal_tab_stops_every_eight() {
    let mut t = Terminal::new(3, 20, 0);
    t.execute(0x09);
    assert_eq!(t.grid().cursor.point.column, Column(8));
    t.execute(0x09);
    assert_eq!(t.grid().cursor.point.column, Column(16));
    t.execute(0x09);
    assert_eq!(t.grid().cursor.point.column, Column(19));
}

#[test]
fn extended_sgr_colors() {
    let mut t = Terminal::new(3, 10, 0);
    t.csi_dispatch(&[vec![38], vec![5], vec![196]], b"", false, 'm');
    assert_eq!(t.grid().cursor.template.fg, Color::Indexed(196));
    t.csi_dispatch(&[vec![48, 2, 1, 2, 3]], b"", false, 'm');
    assert_eq!(t.grid().cursor.template.bg, Color::Rgb { r: 1, g: 2, b: 3 });
}

#[test]
fn erase_display_below_cursor() {
    let mut t = Terminal::new(3, 4, 0);
    for _ in 0..12 {
        t.print('z');
    }
    t.set_cursor(1, 2);
    t.csi_dispatch(&[vec![0]], b"", false, 'J');
    assert_eq!(t.grid().cell(Point::new(Line(1), Column(1))).c, 'z');
    assert_eq!(t.grid().cell(Point::new(Line(1), Column(2))).c, ' ');
    assert_eq!(t.grid().cell(Point::new(Line(2), Column(0))).c, ' ');
}

#[test]
fn theme_cycle_returns_after_nine_steps() {
    for t in ThemeName::all() {
        assert_eq!(t.next().prev(), t);
        assert_eq!(t.prev().next(), t);
        let mut x = t;
        for _ in 0..9 {
            x = x.next();
        }
        assert_eq!(x, t);
    }
}

#[test]
fn selection_ends_are_interchangeable() {
    let a = Selection { ty: SelectionType::Simple, start: Point::new(Line(1), Column(3)), end: Point::new(Line(2), Column(1)) };
    let b = Selection { ty: SelectionType::Simple, start: a.end, end: a.start };
    assert_eq!(a.normalized(), b.normalized());
    assert_eq!(a.to_tuple(10), b.to_tuple(10));
}

#[test]
fn match_row_becomes_visible() {
    let raw = 3;
    let d = SearchEngine::display_offset_for_match(raw, 20, 10);
    assert_eq!(SearchEngine::raw_row_to_viewport(raw, 20, d, 10), Some(3));
    let d2 = SearchEngine::display_offset_for_match(12, 20, 10);
    assert_eq!(SearchEngine::raw_row_to_viewport(12, 20, d2, 10), Some(5));
}

#[test]
fn search_reports_overlapping_matches() {
    let mut g = Grid::new(2, 10, 0);
    for (i, c) in "aaa".chars().enumerate() {
        g.cell_mut(Point::new(Line(0), Column(i))).c = c;
    }
    let r = SearchEngine::search(&g, "AA");
    assert_eq!(r.len(), 2);
    assert_eq!((r[0].start_col, r[0].end_col), (0, 2));
    assert_eq!((r[1].start_col, r[1].end_col), (1, 3));
}

#[test]
fn atlas_regions_do_not_overlap() {
    let mut a = AtlasAllocator::new(16);
    let r1 = a.reserve(10, 4).unwrap();
    let r2 = a.reserve(10, 4).unwrap();
    let r3 = a.reserve(6, 3).unwrap();
    assert_eq!((r1.x, r1.y), (0, 0));
    assert_eq!((r2.x, r2.y), (0, 4));
    assert_eq!((r3.x, r3.y), (10, 0));
    assert!(a.reserve(0, 3).is_none());
    assert!(a.reserve(17, 1).is_none());
    assert!(a.reserve(16, 9).is_none());
    a.clear();
    assert_eq!(a.reserve(16, 16).map(|r| (r.x, r.y)), Some((0, 0)));
}

#[test]
fn glyph_map_marks_continuation_columns() {
    let shaped = vec![
        ShapedGlyph { start_col: 1, num_cells: 2, entry: None },
        ShapedGlyph { start_col: 9, num_cells: 3, entry: None },
    ];
    let m = build_col_glyph_map(&shaped, 4);
    assert!(m[0].is_none());
    assert!(m[1].unwrap().is_first_cell);
    assert_eq!(m[1].unwrap().num_cells, 2);
    assert!(!m[2].unwrap().is_first_cell);
    assert!(m[3].is_none());
}

#[test]
fn selection_tuple_hit_test() {
    let sel = ((5, 1), (2, 3));
    assert!(is_in_selection(5, 1, sel));
    assert!(!is_in_selection(4, 1, sel));
    assert!(is_in_selection(0, 2, sel));
    assert!(is_in_selection(2, 3, sel));
    assert!(!is_in_selection(3, 3, sel));
    assert_eq!(is_in_selection(5, 1, ((2, 3), (5, 1))), true);
}

#[test]
fn clipboard_ranges_parse() {
    assert_eq!(parse_clipboard_codepoint(&chars("U+2500")), Some(0x2500));
    assert_eq!(parse_clipboard_codepoint(&chars(" u+41 ")), Some(0x41));
    assert_eq!(parse_clipboard_codepoint(&chars("110000")), None);
    assert_eq!(parse_clipboard_codepoint(&chars("123456789")), None);
    assert_eq!(parse_clipboard_codepoint(&chars("+41")), None);
    assert_eq!(parse_clipboard_range(&chars("U+2500-U+257F")), Some((0x2500, 0x257F)));
    assert_eq!(parse_clipboard_range(&chars("U+257F-U+2500")), None);
    assert_eq!(parse_clipboard_range(&chars("U+41")), Some((0x41, 0x41)));
}

#[test]
fn codepoint_map_replaces_characters() {
    let cfg = SelectionConfig {
        clipboard_codepoint_map: vec![
            ("U+2500-U+257F".to_string(), "-".to_string()),
            ("nonsense".to_string(), "?".to_string()),
        ],
        ..SelectionConfig::default()
    };
    assert_eq!(cfg.apply_codepoint_map("a\u{2502}b\u{2550}"), "a-b-");
    let empty = SelectionConfig::default();
    assert_eq!(empty.apply_codepoint_map("\u{2502}"), "\u{2502}");
}

#[test]
fn enquiry_response_is_capped() {
    let cfg = TerminalConfig { enquiry_response: Some("é".repeat(300)), ..TerminalConfig::default() };
    assert_eq!(cfg.clamped_enquiry_response().unwrap().chars().count(), 256);
    assert_eq!(TerminalConfig::default().clamped_enquiry_response(), None);
}

#[test]
fn modifier_lists_parse() {
    assert_eq!(parse_mods_to_bits("super|shift"), 5);
    assert_eq!(parse_mods_to_bits(" Ctrl | ALT "), 10);
    assert_eq!(parse_mods_to_bits("cmd|option|control"), 11);
    assert_eq!(parse_mods_to_bits("hyper"), 0);
    assert_eq!(parse_mods_to_bits(""), 0);
}

#[test]
fn keybind_validation_drops_long_fields() {
    let mut cfg = KeybindConfig {
        bindings: vec![
            KeyBinding { key: "x".repeat(65), mods: String::new(), action: Action::Copy, cached_mods_bits: 0 },
            KeyBinding { key: "n".to_string(), mods: "ctrl|shift".to_string(), action: Action::NewWindow, cached_mods_bits: 0 },
        ],
    };
    cfg.validate();
    assert_eq!(cfg.bindings.len(), 1);
    assert_eq!(cfg.bindings[0].cached_mods_bits, 6);
    assert!(!other_default_bindings().is_empty());
    assert_eq!(Action::all_with_names().len(), 28);
}

#[test]
fn template_comments_sections() {
    let out = commented_config("[bell]\nvisual = true\n");
    assert!(out.starts_with("# SDIT Terminal Configuration\n"));
    assert!(out.contains("# ── Bell"));
    assert!(out.ends_with("[bell]\nvisual = true\n"));
    let plain = commented_config("a = 1");
    assert!(plain.ends_with("\n\na = 1\n"));
}

#[test]
fn restore_info_drops_oversized_fields() {
    let info = SessionRestoreInfo { custom_name: Some("n".repeat(257)), working_directory: Some("/tmp".to_string()) };
    let v = info.validated();
    assert_eq!(v.custom_name, None);
    assert_eq!(v.working_directory.as_deref(), Some("/tmp"));
}

#[test]
fn build_byte_to_col_map_ascii() {
    let map = sdit_core::render::build_byte_to_col_map("abc");
    assert_eq!(map, vec![0, 1, 2]);
}

#[test]
fn build_byte_to_col_map_cjk() {
    let map = sdit_core::render::build_byte_to_col_map("日a");
    assert_eq!(map[0], 0);
    assert_eq!(map[1], 0);
    assert_eq!(map[2], 0);
    assert_eq!(map[3], 2);
}

#[test]
fn codepoint_map_entries_parse() {
    let entries = vec![
        ("U+3000-U+9FFF".to_string(), "Noto CJK".to_string()),
        ("bogus".to_string(), "X".to_string()),
        ("U+0041-U+005A-U+0060".to_string(), "Y".to_string()),
        ("U+0041".to_string(), "F".repeat(129)),
    ];
    let r = parse_codepoint_map(&entries);
    assert_eq!(r.len(), 1);
    assert_eq!((r[0].start, r[0].end, r[0].family.as_str()), (0x3000, 0x9FFF, "Noto CJK"));
}

#[test]
fn hex_colors_and_window_clamps() {
    assert_eq!(parse_hex_rgb("#ff8000"), Some((255, 128, 0)));
    assert_eq!(parse_hex_rgb("##0A0b0C"), Some((10, 11, 12)));
    assert_eq!(parse_hex_rgb("#fff"), None);
    assert_eq!(parse_hex_rgb("#gg0000"), None);
    assert_eq!(clamp_columns(5), 10);
    assert_eq!(clamp_columns(900), 500);
    assert_eq!(clamp_rows(1), 2);
    assert_eq!(clamp_padding(300), 200);
    assert_eq!(clamp_position(Some(-20000), Some(40000)), Some((-16000, 32000)));
    assert_eq!(clamp_position(Some(1), None), None);
}

#[test]
fn resize_keeps_rows_when_shrinking() {
    let mut g = Grid::new(5, 10, 0);
    g.cell_mut(Point::new(Line(1), Column(2))).c = 'k';
    g.cell_mut(Point::new(Line(4), Column(0))).c = 'z';
    g.resize(3, 4);
    assert_eq!(g.cell(Point::new(Line(1), Column(2))).c, 'k');
    assert_eq!(g.screen_lines(), 3);
    assert_eq!(g.columns(), 4);
}

#[test]
fn quick_select_defaults_find_numbers() {
    let cells: Vec<Cell> = "port 8080 open".chars().map(|c| Cell { c, ..Cell::default() }).collect();
    let m = detect_patterns_in_line(&cells, &[]);
    assert!(m.iter().any(|x| x.text == "8080" && x.start_col == 5 && x.end_col == 9));
}

#[test]
fn resize_keeps_rows_when_growing() {
    let mut g = Grid::new(3, 4, 0);
    g.cell_mut(Point::new(Line(0), Column(1))).c = 'a';
    g.cell_mut(Point::new(Line(2), Column(3))).c = 'b';
    g.resize(5, 6);
    assert_eq!(g.cell(Point::new(Line(0), Column(1))).c, 'a');
    assert_eq!(g.cell(Point::new(Line(2), Column(3))).c, 'b');
    assert_eq!(g.cell(Point::new(Line(2), Column(5))).c, ' ');
    assert_eq!(g.cell(Point::new(Line(4), Column(0))).c, ' ');
    assert_eq!(g.screen_lines(), 5);
    assert_eq!(g.columns(), 6);
}

#[test]
fn palette_colors_map_to_rgb() {
    assert_eq!(xterm256_to_rgb(1), (0xf3, 0x8b, 0xa8));
    assert_eq!(xterm256_to_rgb(16), (0, 0, 0));
    assert_eq!(xterm256_to_rgb(21), (0, 0, 255));
    assert_eq!(xterm256_to_rgb(196), (255, 0, 0));
    assert_eq!(xterm256_to_rgb(67), (95, 135, 175));
    assert_eq!(xterm256_to_rgb(232), (8, 8, 8));
    assert_eq!(xterm256_to_rgb(255), (238, 238, 238));
    assert_eq!(named_color_to_rgb(NamedColor::Background), (0x1e, 0x1e, 0x2e));
    assert_eq!(named_color_to_rgb(NamedColor::BrightRed), named_color_to_rgb(NamedColor::Red));
    assert_eq!(color_to_rgb(Color::Rgb { r: 1, g: 2, b: 3 }), (1, 2, 3));
    assert_eq!(color_to_rgb(Color::Indexed(15)), named_color_to_rgb(NamedColor::BrightWhite));
}

#[test]
fn cell_highlight_priority() {
    let matches = [(1usize, 0usize, 3usize), (2, 5, 7)];
    let sel = Some(((2usize, 1usize), (4usize, 1usize)));
    // Cursor wins over everything.
    assert_eq!(cell_highlight(2, 1, Some((2, 1)), sel, None, &matches, Some((1, 0, 3))), CellHighlight::Cursor);
    assert_eq!(cell_highlight(2, 1, Some((0, 0)), sel, None, &matches, Some((1, 0, 3))), CellHighlight::Selected);
    assert_eq!(cell_highlight(1, 1, None, sel, None, &matches, Some((1, 0, 3))), CellHighlight::CurrentMatch);
    assert_eq!(cell_highlight(1, 1, None, sel, None, &matches, None), CellHighlight::SearchMatch);
    assert_eq!(cell_highlight(6, 2, None, None, Some((2, 0, 9)), &matches, None), CellHighlight::SearchMatch);
    assert_eq!(cell_highlight(7, 2, None, None, Some((2, 0, 9)), &matches, None), CellHighlight::UrlHover);
    assert_eq!(cell_highlight(9, 2, None, None, Some((2, 0, 9)), &matches, None), CellHighlight::Plain);
}

#[test]
fn viewport_row_text_skips_spacers() {
    let mut g = Grid::new(2, 4, 0);
    g.cell_mut(Point::new(Line(1), Column(0))).c = 'a';
    g.cell_mut(Point::new(Line(1), Column(1))).c = '日';
    g.cell_mut(Point::new(Line(1), Column(1))).flags = CellFlags(CellFlags::WIDE_CHAR);
    g.cell_mut(Point::new(Line(1), Column(2))).flags = CellFlags(CellFlags::WIDE_CHAR_SPACER);
    g.cell_mut(Point::new(Line(1), Column(3))).c = 'b';
    assert_eq!(viewport_row_text(&g, 1), "a日b");
    assert_eq!(viewport_row_text(&g, 0), "    ");
}

#[test]
fn active_index_falls_back_to_zero() {
    assert_eq!(validated_active_index(2, 3), 2);
    assert_eq!(validated_active_index(3, 3), 0);
    assert_eq!(validated_active_index(0, 0), 0);
    assert_eq!(validated_active_index(5, 0), 0);
}

#[test]
fn window_position_is_clamped() {
    assert_eq!(clamp_window_pos(-99999), -16384);
    assert_eq!(clamp_window_pos(99999), 65536);
    assert_eq!(clamp_window_pos(120), 120);
    assert_eq!(clamp_window_pos(-16384), -16384);
}

#[test]
fn glyph_cells_places_a_shaped_glyph() {
    let text = "a日 b";
    let map = sdit_core::render::build_byte_to_col_map(text);
    assert_eq!(glyph_cells(text, &map, 1, 4), Some((1, 2, false)));
    assert_eq!(glyph_cells(text, &map, 4, 5), Some((3, 1, true)));
    assert_eq!(glyph_cells(text, &map, 0, 100), Some((0, 5, false)));
    assert_eq!(glyph_cells(text, &map, 6, 7), None);
    assert_eq!(glyph_cells(text, &map, 3, 2), None);
    assert_eq!(glyph_cells(text, &map, 2, 2), Some((1, 1, true)));
}

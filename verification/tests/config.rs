use sdit_core::terminal::CursorStyle;
use std::collections::HashSet;
use sdit_core::config::color::ThemeName;
use sdit_core::config::font::CodepointRange;
use sdit_core::config::keybinds::{default_bindings, Action, KeybindConfig};
use sdit_core::config::{
    BellConfig, CursorConfig, CursorStyleConfig, MouseConfig, NotificationConfig, PasteConfig, RightClickAction,
    ScrollbackConfig, ScrollbarConfig, ScrollingConfig, SecurityConfig, SelectionConfig,
};

#[test]
fn scrollbar_config_default() {
    let cfg = ScrollbarConfig::default();
    assert!(cfg.enabled, "enabled のデフォルトは true");
    assert_eq!(cfg.width, 8, "width のデフォルトは 8");
}

#[test]
fn scrollbar_config_clamped_width() {
    let cfg = ScrollbarConfig { enabled: true, width: 1 };
    assert_eq!(cfg.clamped_width(), 2, "width=1 はクランプされて 2 になる");

    let cfg = ScrollbarConfig { enabled: true, width: 8 };
    assert_eq!(cfg.clamped_width(), 8, "width=8 はそのまま");

    let cfg = ScrollbarConfig { enabled: true, width: 33 };
    assert_eq!(cfg.clamped_width(), 32, "width=33 はクランプされて 32 になる");
}

#[test]
fn security_config_default() {
    let cfg = SecurityConfig::default();
    assert!(!cfg.auto_secure_input, "auto_secure_input のデフォルトは false");
}

#[test]
fn bell_config_default() {
    let bell = BellConfig::default();
    assert!(bell.visual);
    assert!(bell.dock_bounce);
    assert_eq!(bell.duration_ms, 150);
}

#[test]
fn bell_duration_clamp_zero() {
    let bell = BellConfig { duration_ms: 0, ..Default::default() };
    assert_eq!(bell.clamped_duration_ms(), 1);
}

#[test]
fn bell_duration_clamp_max() {
    let bell = BellConfig { duration_ms: 999_999, ..Default::default() };
    assert_eq!(bell.clamped_duration_ms(), 5000);
}

#[test]
fn paste_config_default() {
    let pc = PasteConfig::default();
    assert!(pc.confirm_multiline);
}

#[test]
fn notification_config_default() {
    let nc = NotificationConfig::default();
    assert!(nc.enabled);
}

#[test]
fn cursor_config_default() {
    let cc = CursorConfig::default();
    assert_eq!(cc.style, CursorStyleConfig::Block);
    assert!(!cc.blinking);
    assert!(cc.color.is_none());
}

#[test]
fn cursor_style_config_converts_to_cursor_style() {
    assert_eq!(CursorStyle::from(CursorStyleConfig::Block), CursorStyle::Block);
    assert_eq!(CursorStyle::from(CursorStyleConfig::Underline), CursorStyle::Underline);
    assert_eq!(CursorStyle::from(CursorStyleConfig::Bar), CursorStyle::Bar);
}

#[test]
fn scrollback_config_default() {
    let sc = ScrollbackConfig::default();
    assert_eq!(sc.lines, 10_000);
}

#[test]
fn scrollback_clamped_lines_zero() {
    let sc = ScrollbackConfig { lines: 0 };
    assert_eq!(sc.clamped_lines(), 0);
}

#[test]
fn scrollback_clamped_lines_over_max() {
    let sc = ScrollbackConfig { lines: 2_000_000 };
    assert_eq!(sc.clamped_lines(), 1_000_000);
}

#[test]
fn scrolling_config_default() {
    let sc = ScrollingConfig::default();
    assert_eq!(sc.multiplier, 3);
    assert_eq!(sc.clamped_multiplier(), 3);
}

#[test]
fn scrolling_config_clamp_min() {
    let sc = ScrollingConfig { multiplier: 0, ..Default::default() };
    assert_eq!(sc.clamped_multiplier(), 1);
}

#[test]
fn scrolling_config_clamp_max() {
    let sc = ScrollingConfig { multiplier: 999, ..Default::default() };
    assert_eq!(sc.clamped_multiplier(), 100);
}

#[test]
fn selection_config_default() {
    let sc = SelectionConfig::default();
    assert!(sc.word_chars.is_empty());
    assert!(!sc.save_to_clipboard);
}

#[test]
fn selection_config_word_chars_clamp() {
    // 256 文字以内はそのまま
    let s256: String = "a".repeat(256);
    let sc = SelectionConfig { word_chars: s256.clone(), ..Default::default() };
    assert_eq!(sc.clamped_word_chars().chars().count(), 256);

    // 257 文字は 256 文字にクランプ
    let s257: String = "b".repeat(257);
    let sc2 = SelectionConfig { word_chars: s257, ..Default::default() };
    assert_eq!(sc2.clamped_word_chars().chars().count(), 256);
}

#[test]
fn mouse_config_default() {
    let mc = MouseConfig::default();
    assert!(!mc.hide_when_typing);
}

#[test]
fn selection_trim_trailing_spaces_default() {
    let sc = SelectionConfig::default();
    assert!(sc.trim_trailing_spaces);
}

#[test]
fn scrolling_scroll_to_bottom_default() {
    let sc = ScrollingConfig::default();
    assert!(sc.scroll_to_bottom_on_keystroke);
    assert!(!sc.scroll_to_bottom_on_output);
}

#[test]
fn right_click_action_default_is_context_menu() {
    let mc = MouseConfig::default();
    assert_eq!(mc.right_click_action, RightClickAction::ContextMenu);
}

#[test]
fn codepoint_range_parse_range() {
    let r = CodepointRange::parse("U+3000-U+9FFF", "Noto Sans CJK").unwrap();
    assert_eq!(r.start, 0x3000);
    assert_eq!(r.end, 0x9FFF);
    assert_eq!(r.family, "Noto Sans CJK");
}

#[test]
fn codepoint_range_parse_single() {
    let r = CodepointRange::parse("U+3042", "Hiragino").unwrap();
    assert_eq!(r.start, 0x3042);
    assert_eq!(r.end, 0x3042);
}

#[test]
fn codepoint_range_parse_lowercase_u() {
    let r = CodepointRange::parse("u+0041-u+005A", "Arial").unwrap();
    assert_eq!(r.start, 0x0041); // 'A'
    assert_eq!(r.end, 0x005A); // 'Z'
}

#[test]
fn codepoint_range_parse_without_u_prefix() {
    // プレフィックスなしの hex も許容する
    let r = CodepointRange::parse("3000-9FFF", "Fallback").unwrap();
    assert_eq!(r.start, 0x3000);
    assert_eq!(r.end, 0x9FFF);
}

#[test]
fn codepoint_range_parse_invalid_returns_none() {
    assert!(CodepointRange::parse("INVALID", "Font").is_none());
    assert!(CodepointRange::parse("U+ZZZZ", "Font").is_none());
    // start > end は無効
    assert!(CodepointRange::parse("U+9FFF-U+3000", "Font").is_none());
}

#[test]
fn codepoint_range_contains() {
    let r = CodepointRange::parse("U+3040-U+309F", "Hiragino").unwrap();
    assert!(r.contains('\u{3042}')); // あ
    assert!(r.contains('\u{3040}'));
    assert!(r.contains('\u{309F}'));
    assert!(!r.contains('A'));
}

#[test]
fn default_bindings_not_empty() {
    let bindings = default_bindings();
    assert!(!bindings.is_empty(), "default_bindings() は空であってはならない");
}

#[test]
fn default_keybind_config() {
    let config = KeybindConfig::default();
    assert!(!config.bindings.is_empty());
}

#[test]
fn macos_has_required_actions() {
    let bindings = default_bindings();
    let actions: HashSet<_> = bindings.iter().map(|b| b.action).collect();
    for required in [
        Action::NewWindow,
        Action::AddSession,
        Action::CloseSession,
        Action::SidebarToggle,
        Action::Copy,
        Action::Paste,
        Action::ZoomIn,
        Action::ZoomOut,
        Action::ZoomReset,
        Action::Search,
        Action::NextSession,
        Action::PrevSession,
        Action::Quit,
        Action::SelectAll,
        Action::Preferences,
    ] {
        assert!(
            actions.contains(&required),
            "デフォルトバインディングに {required:?} が含まれていない"
        );
    }
}

#[test]
fn theme_next_cycles() {
    let all = ThemeName::all();
    let last = all.last().unwrap();
    let next = last.next();
    assert_eq!(&next, &all[0]);
    let first = &all[0];
    let prev = first.prev();
    assert_eq!(&prev, all.last().unwrap());
}

#[test]
fn link_config_entry_limit() {
    let links: Vec<sdit_core::config::LinkConfig> = (0..33)
        .map(|i| sdit_core::config::LinkConfig {
            regex: format!("PAT-{i}"),
            action: "open:https://example.com".to_string(),
        })
        .collect();
    assert_eq!(links.len(), 33);
    assert_eq!(sdit_core::config::clamped_links(&links).len(), 32);
}

#[test]
fn link_config_regex_length_limit() {
    let links = vec![sdit_core::config::LinkConfig {
        regex: "a".repeat(513),
        action: "open:https://example.com".to_string(),
    }];
    assert_eq!(sdit_core::config::clamped_links(&links).len(), 0);
}

#[test]
fn link_config_action_length_limit() {
    let long_action = format!("open:https://example.com/{}", "a".repeat(1000));
    let links = vec![sdit_core::config::LinkConfig { regex: "PAT".to_string(), action: long_action }];
    assert_eq!(sdit_core::config::clamped_links(&links).len(), 0);
}

#[test]
fn clamped_links_keep_order_and_skip_long_entries() {
    let mk = |r: &str, a: &str| sdit_core::config::LinkConfig { regex: r.to_string(), action: a.to_string() };
    let links = vec![mk("A", "x"), mk(&"b".repeat(512), "y"), mk("C", &"z".repeat(1025)), mk("D", "w")];
    let kept: Vec<&str> = sdit_core::config::clamped_links(&links).iter().map(|l| l.regex.as_str()).collect();
    assert_eq!(kept.len(), 3);
    assert_eq!(kept[0], "A");
    assert_eq!(kept[2], "D");
}

#[test]
fn validate_twice_changes_nothing() {
    let mut bindings = default_bindings();
    bindings.push(sdit_core::config::keybinds::KeyBinding {
        key: "k".repeat(65),
        mods: "super".to_string(),
        action: Action::Copy,
        cached_mods_bits: 0,
    });
    let mut cfg = KeybindConfig { bindings };
    cfg.validate();
    let once: Vec<(String, String, u8)> =
        cfg.bindings.iter().map(|b| (b.key.clone(), b.mods.clone(), b.cached_mods_bits)).collect();
    cfg.validate();
    let twice: Vec<(String, String, u8)> =
        cfg.bindings.iter().map(|b| (b.key.clone(), b.mods.clone(), b.cached_mods_bits)).collect();
    assert_eq!(once, twice);
    assert_eq!(once.len(), default_bindings().len());
}

#[test]
fn default_bindings_for_picks_the_platform_table() {
    let mac = sdit_core::config::keybinds::default_bindings_for(true);
    let other = sdit_core::config::keybinds::default_bindings_for(false);
    assert_eq!(mac.len(), sdit_core::config::keybinds::macos_default_bindings().len());
    assert_eq!(other.len(), sdit_core::config::keybinds::other_default_bindings().len());
    assert!(mac.iter().zip(default_bindings().iter()).all(|(a, b)| a.key == b.key && a.mods == b.mods));
}

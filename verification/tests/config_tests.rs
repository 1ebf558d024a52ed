use mould::app::{App, Mode};
use mould::config::{hex_is_readable, Config, KeybindsConfig, ThemeColor, ThemeConfig};
use mould::error::MouldError;
use mould::format::{ConfigItem, ItemStatus, PathSegment, ValueType};
use mould::view::{
    entry_styles, entry_text, indent, input_display, input_title, join, mode_label, screen_styles,
    status_text, Emphasis,
};

#[test]
fn hex_colours_are_read_in_pairs() {
    assert_eq!(ThemeConfig::parse_hex("#1e1e2e"), ThemeColor::Rgb(0x1e, 0x1e, 0x2e));
    assert_eq!(ThemeConfig::parse_hex("##FFa000"), ThemeColor::Rgb(255, 160, 0));
    assert_eq!(ThemeConfig::parse_hex("+f+f+f"), ThemeColor::Rgb(15, 15, 15));
    assert_eq!(ThemeConfig::parse_hex("zz0102"), ThemeColor::Rgb(0, 1, 2));
    assert_eq!(ThemeConfig::parse_hex("#123"), ThemeColor::Reset);
    assert_eq!(ThemeConfig::parse_hex(""), ThemeColor::Reset);
    assert_eq!(ThemeConfig::parse_hex("éééé"), ThemeColor::Reset);
    assert_eq!(ThemeConfig::parse_hex("ééé"), ThemeColor::Rgb(0, 0, 0));
    assert!(hex_is_readable("ééé"));
    assert!(!hex_is_readable("aééb"));
}

#[test]
fn the_default_theme_is_catppuccin_mocha() {
    let t = ThemeConfig::default();
    assert!(!t.transparent);
    assert!(t.is_readable());
    assert_eq!(t.bg_normal(), ThemeColor::Rgb(0x1e, 0x1e, 0x2e));
    assert_eq!(t.fg_warning(), ThemeColor::Rgb(0xf3, 0x8b, 0xa8));
    assert_eq!(t.tree_depth_4(), ThemeColor::Rgb(0xfa, 0xb3, 0x87));
}

#[test]
fn the_default_bindings() {
    let k = KeybindsConfig::default();
    assert_eq!(k.down, "j");
    assert_eq!(k.jump_top, "gg");
    assert_eq!(k.delete_item, "dd");
    assert_eq!(k.save, ":w");
    assert_eq!(k.undo, "u");
    assert_eq!(k.edit, "i");
    assert_eq!(k.edit_append, "a");
    assert_eq!(k.edit_substitute, "s");
    assert_eq!(k.rename, "r");
    let c = Config::default();
    assert_eq!(c.keybinds.quit, ":q");
    assert_eq!(c.theme.border_active, "#a6e3a1");
}

#[test]
fn errors_have_messages() {
    assert_eq!(MouldError::FileNotFound("x".to_string()).message(), "File not found: x");
    assert_eq!(MouldError::Terminal("t".to_string()).message(), "Terminal error: t");
    let io = MouldError::Io(std::io::Error::new(std::io::ErrorKind::Other, "boom"));
    assert_eq!(io.message(), "IO error: boom");
}

fn entry(key: &str, depth: usize) -> ConfigItem {
    ConfigItem {
        key: key.to_string(),
        path: vec![PathSegment::Key("s".to_string()), PathSegment::Key(key.to_string())],
        value: Some("v".to_string()),
        template_value: Some("t".to_string()),
        default_value: None,
        depth,
        is_group: false,
        status: ItemStatus::Modified,
        value_type: ValueType::String,
    }
}

#[test]
fn screen_texts() {
    assert_eq!(indent(2), "    ");
    assert_eq!(join(&vec!["a".to_string(), "b".to_string()], " · "), "a · b");
    assert_eq!(mode_label(Mode::Search), " SEARCH ");
    let keys = KeybindsConfig::default();
    let mut app = App::new(vec![entry("port", 1)]);
    assert_eq!(
        status_text(&app, &keys),
        "j/k move · gg/G jump · / search · i/a/s edit · r rename · t toggle · o/O add · alt+o/alt+O group · dd del · u undo · :w save · :q quit"
    );
    assert_eq!(input_title(&app), " Editing: s.port ");
    assert_eq!(input_display(&app), "v  [Template: t]");
    let e = entry_text(&app, 0, &app.matching_indices());
    assert_eq!(e.indent, "  ");
    assert_eq!(e.note, "");
    assert!(e.selected);
    assert_eq!(
        e.value_line,
        Some(("      └─ ".to_string(), "v".to_string(), " [Def: t]".to_string()))
    );
    app.status_message = Some("hello".to_string());
    assert_eq!(status_text(&app, &keys), "hello");
    app.mode = Mode::Insert;
    app.status_message = None;
    assert_eq!(status_text(&app, &keys), "Esc cancel · Enter commit");
}

#[test]
fn entry_and_screen_styles_follow_the_theme() {
    let t = ThemeConfig::default();
    let lavender = ThemeColor::Rgb(0xb4, 0xbe, 0xfe);
    let mauve = ThemeColor::Rgb(0xcb, 0xa6, 0xf7);
    let peach = ThemeColor::Rgb(0xfa, 0xb3, 0x87);
    let mut e = entry("k", 1);
    e.status = ItemStatus::Present;
    let st = entry_styles(&t, &e, false, false);
    assert_eq!(st.key.fg, Some(mauve));
    assert_eq!(st.key.emphasis, Emphasis::Plain);
    let st = entry_styles(&t, &entry("k", 4), false, false);
    assert_eq!(st.key.fg, Some(lavender));
    assert_eq!(st.note.fg, Some(peach));
    assert_eq!(st.item.fg, Some(peach));
    let st = entry_styles(&t, &entry("k", 0), false, true);
    assert_eq!(st.key.fg, Some(mauve));
    assert_eq!(st.key.emphasis, Emphasis::Underlined);
    let st = entry_styles(&t, &entry("k", 0), true, true);
    assert_eq!(st.key.emphasis, Emphasis::Bold);
    assert_eq!(st.item.bg, Some(ThemeColor::Rgb(0x89, 0xb4, 0xfa)));
    assert_eq!(st.item.fg, None);
    let s = screen_styles(&t, Mode::Insert);
    assert_eq!(s.input_border, ThemeColor::Rgb(0xa6, 0xe3, 0xa1));
    assert_eq!(s.mode.bg, Some(ThemeColor::Rgb(0xa6, 0xe3, 0xa1)));
    assert_eq!(s.background, Some(ThemeColor::Rgb(0x1e, 0x1e, 0x2e)));
    let s = screen_styles(&t, Mode::Normal);
    assert_eq!(s.input_border, ThemeColor::Rgb(0x45, 0x47, 0x5a));
    let mut clear = ThemeConfig::default();
    clear.transparent = true;
    assert_eq!(screen_styles(&clear, Mode::Normal).background, None);
}

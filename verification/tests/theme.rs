//! Colours and the style of rows.

use beckon_macos::theme::{apply, pack, row_style, unpack, Applied, Theme, ThemeConfig};

#[test]
fn default_theme_matches_the_builtin_panel_look() {
    let t = Theme::default();
    assert_eq!(t.background, (0x1C, 0x1C, 0x21));
    assert_eq!(t.foreground, (0xFF, 0xFF, 0xFF));
    assert_eq!(t.accent, (0x5A, 0xC8, 0xFA));
    assert_eq!(t.font_size, 22);
}

#[test]
fn pack_unpack_round_trip() {
    for c in [(0, 0, 0), (255, 255, 255), (0x1C, 0x1C, 0x21), (1, 2, 3)] {
        assert_eq!(unpack(pack(c)), c);
    }
    assert_eq!(pack((0x1C, 0x1C, 0x21)), 0x1C1C21);
}

#[test]
fn apply_before_panel_init_is_safe_and_records_row_style() {
    let t = Theme {
        background: (10, 20, 30),
        foreground: (200, 210, 220),
        accent: (1, 2, 3),
        font_size: 14,
    };
    let mut state = Applied::none();
    assert!(row_style(&state).is_none());
    let colors = apply(&mut state, &t);
    assert_eq!(colors.background, (10, 20, 30));
    assert_eq!(colors.foreground, (200, 210, 220));
    assert_eq!(colors.font_size, 14);
    let style = row_style(&state).expect("row style after apply");
    assert_eq!(style.foreground, (200, 210, 220));
    assert_eq!(style.accent, (1, 2, 3));
    assert_eq!(style.font_size, 14);
}

#[test]
fn colours_that_do_not_read_fall_back() {
    let t = Theme::from_config(&ThemeConfig {
        background: None,
        foreground: Some((9, 9, 9)),
        accent: None,
        font_size: 30,
    });
    assert_eq!(t.foreground, (9, 9, 9));
    assert_eq!(t.background, Theme::default().background);
    assert_eq!(t.accent, Theme::default().accent);
    assert_eq!(t.font_size, 30);
}

use popone::theme::{
    accent_text, color_hex, effective_palette, fill_custom_defaults, gray_text, strong_text, Color,
    ThemeConfig, ThemeMode, ThemePalette,
};

#[test]
fn test_fill_custom_defaults_matches_dark_palette() {
    let mut cfg = ThemeConfig::default();
    fill_custom_defaults(&mut cfg);
    assert_eq!(cfg.panel_bg.as_deref(), Some("1D1D1D"));
    let custom = ThemePalette::custom(&cfg);
    let dark = ThemePalette::dark_default();
    assert_eq!(custom.panel_bg, dark.panel_bg);
    assert_eq!(custom.border, dark.border);
    assert_eq!(custom.accent, dark.accent);
    assert_eq!(custom.text, dark.text);
    assert_eq!(custom.widget_bg, dark.widget_bg);
    assert_eq!(custom.active, dark.active);
}

#[test]
fn test_fill_custom_defaults_keeps_existing_colors() {
    let mut cfg = ThemeConfig {
        panel_bg: Some("202020".to_string()),
        ..Default::default()
    };
    fill_custom_defaults(&mut cfg);
    assert_eq!(cfg.panel_bg.as_deref(), Some("202020"));
    assert_eq!(cfg.border.as_deref(), Some("333333"));
}

#[test]
fn test_color_hex_roundtrip() {
    let c = Color::from_rgb(0x4A, 0x90, 0xD9);
    let hex = color_hex(c);
    assert_eq!(hex, "4A90D9");
    assert_eq!(ThemeConfig::parse_hex(&hex), Some((0x4A, 0x90, 0xD9)));
}

#[test]
fn test_theme_aware_text_helpers() {
    assert_eq!(gray_text(true, 0x60), Color::from_gray(0x60));
    assert_eq!(gray_text(false, 0x60), Color::from_gray(0x9F));
    assert_eq!(strong_text(true), Color::white());
    let red = Color::from_rgb(0xFF, 0x60, 0x60);
    assert_eq!(accent_text(true, red), red);
    let light_red = accent_text(false, red);
    assert!(light_red.r < red.r && light_red.g < red.g);
}

// ---------------------------------------------------------------------------
// Further cases
// ---------------------------------------------------------------------------

#[test]
fn accent_text_matches_float_darkening_for_every_channel() {
    for c in 0..=255u8 {
        let expect = (c as f32 * 0.55_f32) as u8;
        let got = accent_text(false, Color::from_rgb(c, c, c));
        assert_eq!(got.r, expect, "channel {c}");
    }
}

#[test]
fn parse_hex_rejects_bad_input() {
    assert_eq!(ThemeConfig::parse_hex("4a90d9"), Some((0x4A, 0x90, 0xD9)));
    assert_eq!(ThemeConfig::parse_hex("4A90D"), None);
    assert_eq!(ThemeConfig::parse_hex("4A90DG"), None);
    assert_eq!(ThemeConfig::parse_hex("#4A90D9"), None);
    assert_eq!(ThemeConfig::parse_hex(""), None);
}

#[test]
fn color_hex_pads_with_zero() {
    assert_eq!(color_hex(Color::from_rgb(0x00, 0x0A, 0xFF)), "000AFF");
}

#[test]
fn custom_uses_defaults_for_invalid_hex() {
    let cfg = ThemeConfig {
        accent: Some("zzzzzz".to_string()),
        border: Some("010203".to_string()),
        ..Default::default()
    };
    let p = ThemePalette::custom(&cfg);
    assert_eq!(p.accent, ThemePalette::dark_default().accent);
    assert_eq!(p.border, Color::from_rgb(1, 2, 3));
    assert!(p.dark);
}

#[test]
fn effective_palette_follows_theme_and_mode() {
    let cfg = ThemeConfig {
        panel_bg: Some("102030".to_string()),
        ..Default::default()
    };
    assert_eq!(effective_palette(false, ThemeMode::Custom, &cfg), ThemePalette::light_default());
    assert_eq!(effective_palette(true, ThemeMode::Dark, &cfg), ThemePalette::dark_default());
    assert_eq!(effective_palette(true, ThemeMode::Custom, &cfg).panel_bg, Color::from_rgb(0x10, 0x20, 0x30));
    assert_eq!(ThemePalette::light_default().gray_text(0x60), Color::from_gray(0x9F));
    assert_eq!(ThemePalette::light_default().strong_text(), Color::from_gray(0x10));
}

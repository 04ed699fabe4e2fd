//! Application appearance theme: the dark / light / custom palettes, the
//! theme-aware text colors, and the 6-digit hex form of colors in the config.
use vstd::prelude::*;

use crate::text::{chars_of, opt_view, push_char};

verus! {

/// An RGBA color with 8 bits per channel.
#[derive(Debug, Clone, Copy, PartialEq, Eq, Structural)]
pub struct Color {
    pub r: u8,
    pub g: u8,
    pub b: u8,
    pub a: u8,
}

impl Color {
    /// An opaque color from its red, green and blue parts.
    pub fn from_rgb(r: u8, g: u8, b: u8) -> (c: Color)
        ensures
            c == (Color { r, g, b, a: 255 }),
    {
        Color { r, g, b, a: 255 }
    }

    /// An opaque gray of the given level.
    pub fn from_gray(l: u8) -> (c: Color)
        ensures
            c == (Color { r: l, g: l, b: l, a: 255 }),
    {
        Color { r: l, g: l, b: l, a: 255 }
    }

    /// Opaque white.
    pub fn white() -> (c: Color)
        ensures
            c == (Color { r: 255, g: 255, b: 255, a: 255 }),
    {
        Color { r: 255, g: 255, b: 255, a: 255 }
    }
}

/// Dark theme panel background color (#1D1D1D).
pub fn dark_panel_bg() -> (c: Color)
    ensures
        c == (Color { r: 0x1D, g: 0x1D, b: 0x1D, a: 255 }),
{
    Color::from_rgb(0x1D, 0x1D, 0x1D)
}

/// Dark theme border color (#333333).
pub fn dark_border() -> (c: Color)
    ensures
        c == (Color { r: 0x33, g: 0x33, b: 0x33, a: 255 }),
{
    Color::from_rgb(0x33, 0x33, 0x33)
}

/// Dark theme accent color (#4A90D9).
pub fn dark_accent() -> (c: Color)
    ensures
        c == (Color { r: 0x4A, g: 0x90, b: 0xD9, a: 255 }),
{
    Color::from_rgb(0x4A, 0x90, 0xD9)
}

/// Dark theme text color (#D0D0D0).
pub fn dark_text() -> (c: Color)
    ensures
        c == (Color { r: 0xD0, g: 0xD0, b: 0xD0, a: 255 }),
{
    Color::from_gray(0xD0)
}

/// Dark theme widget background color (#252525).
pub fn dark_widget_bg() -> (c: Color)
    ensures
        c == (Color { r: 0x25, g: 0x25, b: 0x25, a: 255 }),
{
    Color::from_rgb(0x25, 0x25, 0x25)
}

/// Resolved theme colors for one effective theme (dark or light).
#[derive(Debug, Clone, Copy, PartialEq, Eq, Structural)]
pub struct ThemePalette {
    /// Effective darkness (Custom counts as dark).
    pub dark: bool,
    /// Panel / window background.
    pub panel_bg: Color,
    /// Border / separator stroke color.
    pub border: Color,
    /// Accent (hover / selection) color.
    pub accent: Color,
    /// Normal text color.
    pub text: Color,
    /// Widget (button at rest) background.
    pub widget_bg: Color,
    /// Active (mouse-down) background.
    pub active: Color,
    /// Open-widget (expanded ComboBox) / inactive-tab background.
    pub open_bg: Color,
    /// Extreme background (TextEdit interior).
    pub extreme_bg: Color,
}

/// The custom colors of the theme configuration, each a 6-digit hex string when set.
#[derive(Debug, Clone, PartialEq, Eq, Default)]
pub struct ThemeConfig {
    pub panel_bg: Option<String>,
    pub border: Option<String>,
    pub accent: Option<String>,
    pub text: Option<String>,
    pub widget_bg: Option<String>,
    pub active: Option<String>,
}

/// Which appearance the user chose.
#[derive(Debug, Clone, Copy, PartialEq, Eq, Structural)]
pub enum ThemeMode {
    System,
    Light,
    Dark,
    Custom,
}

/// The opaque color for a channel triple.
pub open spec fn rgb(t: (u8, u8, u8)) -> Color {
    Color { r: t.0, g: t.1, b: t.2, a: 255 }
}

/// The default dark palette.
pub open spec fn dark_palette() -> ThemePalette {
    ThemePalette {
        dark: true,
        panel_bg: rgb((0x1D, 0x1D, 0x1D)),
        border: rgb((0x33, 0x33, 0x33)),
        accent: rgb((0x4A, 0x90, 0xD9)),
        text: rgb((0xD0, 0xD0, 0xD0)),
        widget_bg: rgb((0x25, 0x25, 0x25)),
        active: rgb((0x2A, 0x5A, 0x8A)),
        open_bg: rgb((0x2A, 0x2A, 0x2A)),
        extreme_bg: rgb((0x15, 0x15, 0x15)),
    }
}

/// The light palette: neutral grays mirror the dark ones; the accent is shared.
pub open spec fn light_palette() -> ThemePalette {
    ThemePalette {
        dark: false,
        panel_bg: rgb((0xE2, 0xE2, 0xE2)),
        border: rgb((0xBB, 0xBB, 0xBB)),
        accent: rgb((0x4A, 0x90, 0xD9)),
        text: rgb((0x2F, 0x2F, 0x2F)),
        widget_bg: rgb((0xDA, 0xDA, 0xDA)),
        active: rgb((0xA9, 0xC7, 0xE8)),
        open_bg: rgb((0xD5, 0xD5, 0xD5)),
        extreme_bg: rgb((0xF4, 0xF4, 0xF4)),
    }
}

/// The value of a hexadecimal digit (either case).
pub open spec fn hex_value(c: char) -> Option<u8> {
    if '0' <= c && c <= '9' {
        Some((c as u32 - '0' as u32) as u8)
    } else if 'A' <= c && c <= 'F' {
        Some((c as u32 - 'A' as u32 + 10) as u8)
    } else if 'a' <= c && c <= 'f' {
        Some((c as u32 - 'a' as u32 + 10) as u8)
    } else {
        None
    }
}

/// The byte written by two hex digits.
pub open spec fn hex_pair(s: Seq<char>, i: int) -> Option<u8> {
    match (hex_value(s[i]), hex_value(s[i + 1])) {
        (Some(h), Some(l)) => Some((h * 16 + l) as u8),
        _ => None,
    }
}

/// A color written as six hex digits `RRGGBB`.
pub open spec fn parse_hex_spec(s: Seq<char>) -> Option<(u8, u8, u8)> {
    if s.len() != 6 {
        None
    } else {
        match (hex_pair(s, 0), hex_pair(s, 2), hex_pair(s, 4)) {
            (Some(r), Some(g), Some(b)) => Some((r, g, b)),
            _ => None,
        }
    }
}

/// The upper-case hex digit of `n < 16`.
pub open spec fn hex_digit(n: u8) -> char {
    seq!['0', '1', '2', '3', '4', '5', '6', '7', '8', '9', 'A', 'B', 'C', 'D', 'E', 'F'][n as int]
}

/// The 6-digit upper-case hex form `RRGGBB` of a color.
pub open spec fn hex_of(c: Color) -> Seq<char> {
    seq![
        hex_digit(c.r / 16),
        hex_digit(c.r % 16),
        hex_digit(c.g / 16),
        hex_digit(c.g % 16),
        hex_digit(c.b / 16),
        hex_digit(c.b % 16),
    ]
}

/// A configured hex color, or the default when unset or not a valid color.
pub open spec fn theme_color_spec(opt: Option<Seq<char>>, default: Color) -> Color {
    match opt {
        Some(s) => match parse_hex_spec(s) {
            Some(t) => rgb(t),
            None => default,
        },
        None => default,
    }
}


/// The custom palette: the dark palette with the configured colors laid over it.
pub open spec fn custom_palette(cfg: ThemeConfig) -> ThemePalette {
    let d = dark_palette();
    ThemePalette {
        dark: true,
        panel_bg: theme_color_spec(opt_view(cfg.panel_bg), d.panel_bg),
        border: theme_color_spec(opt_view(cfg.border), d.border),
        accent: theme_color_spec(opt_view(cfg.accent), d.accent),
        text: theme_color_spec(opt_view(cfg.text), d.text),
        widget_bg: theme_color_spec(opt_view(cfg.widget_bg), d.widget_bg),
        active: theme_color_spec(opt_view(cfg.active), d.active),
        open_bg: d.open_bg,
        extreme_bg: d.extreme_bg,
    }
}

/// Strong text: white on dark, near-black (0x10) on light.
pub open spec fn strong_text_spec(dark: bool) -> Color {
    if dark {
        rgb((255, 255, 255))
    } else {
        rgb((0x10, 0x10, 0x10))
    }
}

/// Gray text: the level itself on dark, its inverse `255 - level` on light.
pub open spec fn gray_text_spec(dark: bool, level: u8) -> Color {
    if dark {
        rgb((level, level, level))
    } else {
        rgb(((255 - level) as u8, (255 - level) as u8, (255 - level) as u8))
    }
}

/// A channel darkened to 55%, rounded down.
pub open spec fn darken(c: u8) -> u8 {
    (c * 55 / 100) as u8
}

/// Colored text: as given on dark; on light each channel darkened to 55% (opaque).
pub open spec fn accent_text_spec(dark: bool, v: Color) -> Color {
    if dark {
        v
    } else {
        rgb((darken(v.r), darken(v.g), darken(v.b)))
    }
}

/// The palette in effect: light when the effective theme is light, otherwise the
/// custom palette in Custom mode and the dark palette in any other mode.
pub open spec fn effective_palette_spec(theme_dark: bool, mode: ThemeMode, cfg: ThemeConfig) -> ThemePalette {
    if !theme_dark {
        light_palette()
    } else if mode == ThemeMode::Custom {
        custom_palette(cfg)
    } else {
        dark_palette()
    }
}

impl ThemeConfig {
    /// Parse a 6-digit hex color `RRGGBB` (digits in either case).
    pub fn parse_hex(s: &str) -> (r: Option<(u8, u8, u8)>)
        ensures
            r == parse_hex_spec(s@),
    {
        let cs = chars_of(s);
        if cs.len() != 6 {
            return None;
        }
        let r = match hex_pair_at(&cs, 0) {
            Some(v) => v,
            None => {
                return None;
            },
        };
        let g = match hex_pair_at(&cs, 2) {
            Some(v) => v,
            None => {
                return None;
            },
        };
        let b = match hex_pair_at(&cs, 4) {
            Some(v) => v,
            None => {
                return None;
            },
        };
        Some((r, g, b))
    }
}

/// The value of one hex digit.
fn hex_value_of(c: char) -> (r: Option<u8>)
    ensures
        r == hex_value(c),
{
    if '0' <= c && c <= '9' {
        Some((c as u32 - '0' as u32) as u8)
    } else if 'A' <= c && c <= 'F' {
        Some((c as u32 - 'A' as u32 + 10) as u8)
    } else if 'a' <= c && c <= 'f' {
        Some((c as u32 - 'a' as u32 + 10) as u8)
    } else {
        None
    }
}

/// The byte written by the two hex digits at `i`.
fn hex_pair_at(cs: &Vec<char>, i: usize) -> (r: Option<u8>)
    requires
        i + 1 < cs.len(),
    ensures
        r == hex_pair(cs@, i as int),
{
    match (hex_value_of(cs[i]), hex_value_of(cs[i + 1])) {
        (Some(h), Some(l)) => Some(h * 16 + l),
        _ => None,
    }
}

/// The upper-case hex digit of `n`.
fn hex_digit_of(n: u8) -> (c: char)
    requires
        n < 16,
    ensures
        c == hex_digit(n),
{
    let digits = ['0', '1', '2', '3', '4', '5', '6', '7', '8', '9', 'A', 'B', 'C', 'D', 'E', 'F'];
    assert(digits@ == seq!['0', '1', '2', '3', '4', '5', '6', '7', '8', '9', 'A', 'B', 'C', 'D', 'E', 'F']);
    digits[n as usize]
}

/// A configured hex color, or the default when unset or not a valid color.
fn theme_color(opt: &Option<String>, default: Color) -> (c: Color)
    ensures
        c == theme_color_spec(opt_view(*opt), default),
{
    match opt {
        Some(s) => match ThemeConfig::parse_hex(s.as_str()) {
            Some((r, g, b)) => Color::from_rgb(r, g, b),
            None => default,
        },
        None => default,
    }
}

impl ThemePalette {
    /// The default dark palette.
    pub fn dark_default() -> (p: Self)
        ensures
            p == dark_palette(),
    {
        Self {
            dark: true,
            panel_bg: dark_panel_bg(),
            border: dark_border(),
            accent: dark_accent(),
            text: dark_text(),
            widget_bg: dark_widget_bg(),
            active: Color::from_rgb(0x2A, 0x5A, 0x8A),
            open_bg: Color::from_rgb(0x2A, 0x2A, 0x2A),
            extreme_bg: Color::from_rgb(0x15, 0x15, 0x15),
        }
    }

    /// The light palette.
    pub fn light_default() -> (p: Self)
        ensures
            p == light_palette(),
    {
        Self {
            dark: false,
            panel_bg: Color::from_rgb(0xE2, 0xE2, 0xE2),
            border: Color::from_rgb(0xBB, 0xBB, 0xBB),
            accent: dark_accent(),
            text: Color::from_gray(0x2F),
            widget_bg: Color::from_rgb(0xDA, 0xDA, 0xDA),
            active: Color::from_rgb(0xA9, 0xC7, 0xE8),
            open_bg: Color::from_rgb(0xD5, 0xD5, 0xD5),
            extreme_bg: Color::from_rgb(0xF4, 0xF4, 0xF4),
        }
    }

    /// The custom palette: dark base overridden by the configured hex colors.
    pub fn custom(cfg: &ThemeConfig) -> (p: Self)
        ensures
            p == custom_palette(*cfg),
    {
        let d = Self::dark_default();
        Self {
            dark: true,
            panel_bg: theme_color(&cfg.panel_bg, d.panel_bg),
            border: theme_color(&cfg.border, d.border),
            accent: theme_color(&cfg.accent, d.accent),
            text: theme_color(&cfg.text, d.text),
            widget_bg: theme_color(&cfg.widget_bg, d.widget_bg),
            active: theme_color(&cfg.active, d.active),
            open_bg: d.open_bg,
            extreme_bg: d.extreme_bg,
        }
    }

    /// Strong (emphasized) text for this palette.
    pub fn strong_text(&self) -> (c: Color)
        ensures
            c == strong_text_spec(self.dark),
    {
        strong_text(self.dark)
    }

    /// Gray text tuned for this palette.
    pub fn gray_text(&self, level: u8) -> (c: Color)
        ensures
            c == gray_text_spec(self.dark, level),
    {
        gray_text(self.dark, level)
    }

    /// Colored text tuned for this palette.
    pub fn accent_text(&self, dark_variant: Color) -> (c: Color)
        ensures
            c == accent_text_spec(self.dark, dark_variant),
    {
        accent_text(self.dark, dark_variant)
    }
}

/// Strong (emphasized) text color for the given darkness.
pub fn strong_text(dark: bool) -> (c: Color)
    ensures
        c == strong_text_spec(dark),
{
    if dark {
        Color::white()
    } else {
        Color::from_gray(0x10)
    }
}

/// Theme-aware gray text: the dark theme uses the level as-is, the light theme its inverse.
pub fn gray_text(dark: bool, level: u8) -> (c: Color)
    ensures
        c == gray_text_spec(dark, level),
{
    if dark {
        Color::from_gray(level)
    } else {
        Color::from_gray(0xFF - level)
    }
}

/// Theme-aware colored text: as given on dark, darkened on light so it stays readable.
pub fn accent_text(dark: bool, dark_variant: Color) -> (c: Color)
    ensures
        c == accent_text_spec(dark, dark_variant),
{
    if dark {
        dark_variant
    } else {
        Color::from_rgb(darken_channel(dark_variant.r), darken_channel(dark_variant.g), darken_channel(dark_variant.b))
    }
}

/// One channel darkened to 55%, rounded down.
fn darken_channel(c: u8) -> (r: u8)
    ensures
        r == darken(c),
{
    let v = (c as u32) * 55 / 100;
    assert((c as u32) * 55 / 100 <= 255) by (nonlinear_arith)
        requires c <= 255;
    v as u8
}

/// Format a color back into the config's 6-digit upper-case hex form.
pub fn color_hex(c: Color) -> (s: String)
    ensures
        s@ == hex_of(c),
{
    let mut s = String::new();
    push_char(&mut s, hex_digit_of(c.r / 16));
    push_char(&mut s, hex_digit_of(c.r % 16));
    push_char(&mut s, hex_digit_of(c.g / 16));
    push_char(&mut s, hex_digit_of(c.g % 16));
    push_char(&mut s, hex_digit_of(c.b / 16));
    push_char(&mut s, hex_digit_of(c.b % 16));
    assert(s@ =~= hex_of(c));
    s
}

/// The effect of filling one unset custom color with a default.
pub open spec fn filled(slot: Option<String>, v: Color) -> Option<Seq<char>> {
    match slot {
        Some(s) => Some(s@),
        None => Some(hex_of(v)),
    }
}

/// Fill one unset slot with the hex form of `v`.
fn fill_slot(slot: &mut Option<String>, v: Color)
    ensures
        opt_view(*final(slot)) == filled(*old(slot), v),
{
    if slot.is_none() {
        *slot = Some(color_hex(v));
    }
}

/// Fill unset custom colors with the dark defaults (so the color pickers show the
/// effective colors when switching to Custom). Set colors are kept.
pub fn fill_custom_defaults(cfg: &mut ThemeConfig)
    ensures
        opt_view(final(cfg).panel_bg) == filled(old(cfg).panel_bg, dark_palette().panel_bg),
        opt_view(final(cfg).border) == filled(old(cfg).border, dark_palette().border),
        opt_view(final(cfg).accent) == filled(old(cfg).accent, dark_palette().accent),
        opt_view(final(cfg).text) == filled(old(cfg).text, dark_palette().text),
        opt_view(final(cfg).widget_bg) == filled(old(cfg).widget_bg, dark_palette().widget_bg),
        opt_view(final(cfg).active) == filled(old(cfg).active, dark_palette().active),
{
    let d = ThemePalette::dark_default();
    fill_slot(&mut cfg.panel_bg, d.panel_bg);
    fill_slot(&mut cfg.border, d.border);
    fill_slot(&mut cfg.accent, d.accent);
    fill_slot(&mut cfg.text, d.text);
    fill_slot(&mut cfg.widget_bg, d.widget_bg);
    fill_slot(&mut cfg.active, d.active);
}

/// The palette in effect for the effective theme (`theme_dark`) and the chosen mode.
pub fn effective_palette(theme_dark: bool, mode: ThemeMode, cfg: &ThemeConfig) -> (p: ThemePalette)
    ensures
        p == effective_palette_spec(theme_dark, mode, *cfg),
{
    if !theme_dark {
        ThemePalette::light_default()
    } else {
        match mode {
            ThemeMode::Custom => ThemePalette::custom(cfg),
            _ => ThemePalette::dark_default(),
        }
    }
}

// ---------------------------------------------------------------------------
// Laws
// ---------------------------------------------------------------------------

/// Every hex digit reads back as its value.
proof fn lemma_hex_digit_value(n: u8)
    requires
        n < 16,
    ensures
        hex_value(hex_digit(n)) == Some(n),
{
    let digits = seq!['0', '1', '2', '3', '4', '5', '6', '7', '8', '9', 'A', 'B', 'C', 'D', 'E', 'F'];
    assert(hex_digit(n) == digits[n as int]);
    if n < 10 {
        assert(digits[n as int] as u32 == '0' as u32 + n);
    } else {
        assert(digits[n as int] as u32 == 'A' as u32 + n - 10);
    }
}

/// Parsing the hex form of a color gives back its red, green and blue parts.
pub proof fn hex_round_trip(c: Color)
    ensures
        parse_hex_spec(hex_of(c)) == Some((c.r, c.g, c.b)),
{
    lemma_hex_digit_value(c.r / 16);
    lemma_hex_digit_value(c.r % 16);
    lemma_hex_digit_value(c.g / 16);
    lemma_hex_digit_value(c.g % 16);
    lemma_hex_digit_value(c.b / 16);
    lemma_hex_digit_value(c.b % 16);
    let s = hex_of(c);
    assert(hex_pair(s, 0) == Some(c.r));
    assert(hex_pair(s, 2) == Some(c.g));
    assert(hex_pair(s, 4) == Some(c.b));
}

/// Filling a slot with the hex form of an opaque default leaves the color it yields unchanged.
proof fn lemma_filled_same_color(slot: Option<String>, v: Color)
    requires
        v.a == 255,
    ensures
        theme_color_spec(filled(slot, v), v) == theme_color_spec(opt_view(slot), v),
{
    if slot is None {
        hex_round_trip(v);
    }
}

/// Filling the unset custom colors with the dark defaults does not change the custom
/// palette; in particular a configuration with no colors set gives the dark look.
pub proof fn fill_keeps_custom_palette(before: ThemeConfig, after: ThemeConfig)
    requires
        opt_view(after.panel_bg) == filled(before.panel_bg, dark_palette().panel_bg),
        opt_view(after.border) == filled(before.border, dark_palette().border),
        opt_view(after.accent) == filled(before.accent, dark_palette().accent),
        opt_view(after.text) == filled(before.text, dark_palette().text),
        opt_view(after.widget_bg) == filled(before.widget_bg, dark_palette().widget_bg),
        opt_view(after.active) == filled(before.active, dark_palette().active),
    ensures
        custom_palette(after) == custom_palette(before),
{
    let d = dark_palette();
    lemma_filled_same_color(before.panel_bg, d.panel_bg);
    lemma_filled_same_color(before.border, d.border);
    lemma_filled_same_color(before.accent, d.accent);
    lemma_filled_same_color(before.text, d.text);
    lemma_filled_same_color(before.widget_bg, d.widget_bg);
    lemma_filled_same_color(before.active, d.active);
}

/// With no custom colors set, the custom palette is the dark palette.
pub proof fn unset_custom_is_dark(cfg: ThemeConfig)
    requires
        cfg.panel_bg is None,
        cfg.border is None,
        cfg.accent is None,
        cfg.text is None,
        cfg.widget_bg is None,
        cfg.active is None,
    ensures
        custom_palette(cfg) == dark_palette(),
{
}

/// Light-theme gray is the inverse of dark-theme gray.
pub proof fn light_gray_inverts_dark_gray(level: u8)
    ensures
        gray_text_spec(false, level).r == 255 - gray_text_spec(true, level).r,
        gray_text_spec(false, level).g == 255 - gray_text_spec(true, level).g,
        gray_text_spec(false, level).b == 255 - gray_text_spec(true, level).b,
{
}

/// On light, colored text is never brighter than given, and strictly darker in every
/// channel that is not already zero.
pub proof fn light_accent_is_darker(v: Color)
    ensures
        accent_text_spec(false, v).r <= v.r,
        accent_text_spec(false, v).g <= v.g,
        accent_text_spec(false, v).b <= v.b,
        v.r > 0 ==> accent_text_spec(false, v).r < v.r,
        v.g > 0 ==> accent_text_spec(false, v).g < v.g,
        v.b > 0 ==> accent_text_spec(false, v).b < v.b,
{
}

} // verus!

//! The two colour schemes and the sizes that every tab shares.

use egui::Color32;
use vstd::prelude::*;

verus! {

/// A colour with premultiplied alpha, one byte per channel.
#[derive(Debug, Clone, Copy, PartialEq, Eq, Structural)]
pub struct Color {
    pub r: u8,
    pub g: u8,
    pub b: u8,
    pub a: u8,
}

/// The colour with these channels and full opacity.
pub open spec fn opaque_rgb(r: u8, g: u8, b: u8) -> Color {
    Color { r, g, b, a: 255 }
}

impl Color {
    pub fn from_rgb(r: u8, g: u8, b: u8) -> (c: Color)
        ensures
            c == opaque_rgb(r, g, b),
    {
        Color { r, g, b, a: 255 }
    }
}

/// Which scheme the window is painted in.
#[derive(Debug, Clone, Copy, PartialEq, Eq, Structural)]
pub enum Theme {
    Dark,
    Light,
}

impl Default for Theme {
    fn default() -> (r: Self)
        ensures
            r == Theme::Dark,
    {
        Theme::Dark
    }
}

/// The semantic colours of one scheme.
#[derive(Debug, Clone, Copy, PartialEq, Eq, Structural)]
pub struct Palette {
    pub bg: Color,
    pub surface: Color,
    pub surface_hover: Color,
    pub surface_active: Color,
    pub border: Color,
    pub border_muted: Color,
    pub text: Color,
    pub text_muted: Color,
    pub text_dim: Color,
    pub accent: Color,
    pub accent_hover: Color,
    pub success: Color,
    pub warning: Color,
    pub error: Color,
    /// Second data series: the memory line of a chart.
    pub series_secondary: Color,
    /// Text and glyphs on an accent-filled surface. Not `bg`, which would vanish
    /// on the accent in light mode.
    pub on_accent: Color,
    /// Chart grid lines.
    pub grid: Color,
    /// Text-edit wells.
    pub extreme_bg: Color,
    /// Code backgrounds.
    pub code_bg: Color,
}

/// A colour by its meaning, whatever the scheme.
#[derive(Debug, Clone, Copy, PartialEq, Eq, Structural)]
pub enum Tone {
    Bg,
    Surface,
    SurfaceHover,
    SurfaceActive,
    Border,
    BorderMuted,
    Text,
    TextMuted,
    TextDim,
    Accent,
    AccentHover,
    Success,
    Warning,
    Error,
    SeriesSecondary,
    OnAccent,
    Grid,
    ExtremeBg,
    CodeBg,
}

/// Navy and charcoal with a cyan accent.
pub open spec fn dark_palette() -> Palette {
    Palette {
        bg: opaque_rgb(0x0e, 0x11, 0x18),
        surface: opaque_rgb(0x16, 0x1b, 0x22),
        surface_hover: opaque_rgb(0x21, 0x27, 0x33),
        surface_active: opaque_rgb(0x2a, 0x30, 0x3d),
        border: opaque_rgb(0x30, 0x36, 0x3d),
        border_muted: opaque_rgb(0x26, 0x2b, 0x33),
        text: opaque_rgb(0xc9, 0xd1, 0xd9),
        text_muted: opaque_rgb(0x8b, 0x94, 0x9e),
        text_dim: opaque_rgb(0x6e, 0x76, 0x81),
        accent: opaque_rgb(0x58, 0xa6, 0xff),
        accent_hover: opaque_rgb(0x79, 0xb8, 0xff),
        success: opaque_rgb(0x3f, 0xb9, 0x50),
        warning: opaque_rgb(0xd2, 0x99, 0x22),
        error: opaque_rgb(0xf8, 0x51, 0x49),
        series_secondary: opaque_rgb(0x8c, 0x5a, 0xc8),
        on_accent: opaque_rgb(0x0e, 0x11, 0x18),
        grid: opaque_rgb(0x1c, 0x22, 0x2b),
        extreme_bg: opaque_rgb(0x08, 0x0b, 0x10),
        code_bg: opaque_rgb(0x0a, 0x0e, 0x14),
    }
}

/// The same hues on white, with darker semantic colours.
pub open spec fn light_palette() -> Palette {
    Palette {
        bg: opaque_rgb(0xf6, 0xf8, 0xfa),
        surface: opaque_rgb(0xff, 0xff, 0xff),
        surface_hover: opaque_rgb(0xef, 0xf2, 0xf5),
        surface_active: opaque_rgb(0xea, 0xee, 0xf2),
        border: opaque_rgb(0xd0, 0xd7, 0xde),
        border_muted: opaque_rgb(0xea, 0xee, 0xf2),
        text: opaque_rgb(0x1f, 0x23, 0x28),
        text_muted: opaque_rgb(0x65, 0x6d, 0x76),
        text_dim: opaque_rgb(0x83, 0x8d, 0x97),
        accent: opaque_rgb(0x09, 0x69, 0xda),
        accent_hover: opaque_rgb(0x08, 0x60, 0xca),
        success: opaque_rgb(0x1a, 0x7f, 0x37),
        warning: opaque_rgb(0x9a, 0x67, 0x00),
        error: opaque_rgb(0xcf, 0x22, 0x2e),
        series_secondary: opaque_rgb(0x82, 0x50, 0xdf),
        on_accent: opaque_rgb(0xff, 0xff, 0xff),
        grid: opaque_rgb(0xea, 0xee, 0xf2),
        extreme_bg: opaque_rgb(0xea, 0xee, 0xf2),
        code_bg: opaque_rgb(0xf6, 0xf8, 0xfa),
    }
}

/// The palette of a scheme.
pub open spec fn palette_of(theme: Theme) -> Palette {
    match theme {
        Theme::Dark => dark_palette(),
        Theme::Light => light_palette(),
    }
}

/// The colour that a palette gives a tone.
pub open spec fn tone_in(palette: Palette, tone: Tone) -> Color {
    match tone {
        Tone::Bg => palette.bg,
        Tone::Surface => palette.surface,
        Tone::SurfaceHover => palette.surface_hover,
        Tone::SurfaceActive => palette.surface_active,
        Tone::Border => palette.border,
        Tone::BorderMuted => palette.border_muted,
        Tone::Text => palette.text,
        Tone::TextMuted => palette.text_muted,
        Tone::TextDim => palette.text_dim,
        Tone::Accent => palette.accent,
        Tone::AccentHover => palette.accent_hover,
        Tone::Success => palette.success,
        Tone::Warning => palette.warning,
        Tone::Error => palette.error,
        Tone::SeriesSecondary => palette.series_secondary,
        Tone::OnAccent => palette.on_accent,
        Tone::Grid => palette.grid,
        Tone::ExtremeBg => palette.extreme_bg,
        Tone::CodeBg => palette.code_bg,
    }
}

impl Palette {
    /// Navy and charcoal with a cyan accent.
    pub fn dark() -> (r: Palette)
        ensures
            r == dark_palette(),
    {
        Palette {
            bg: Color::from_rgb(0x0e, 0x11, 0x18),
            surface: Color::from_rgb(0x16, 0x1b, 0x22),
            surface_hover: Color::from_rgb(0x21, 0x27, 0x33),
            surface_active: Color::from_rgb(0x2a, 0x30, 0x3d),
            border: Color::from_rgb(0x30, 0x36, 0x3d),
            border_muted: Color::from_rgb(0x26, 0x2b, 0x33),
            text: Color::from_rgb(0xc9, 0xd1, 0xd9),
            text_muted: Color::from_rgb(0x8b, 0x94, 0x9e),
            text_dim: Color::from_rgb(0x6e, 0x76, 0x81),
            accent: Color::from_rgb(0x58, 0xa6, 0xff),
            accent_hover: Color::from_rgb(0x79, 0xb8, 0xff),
            success: Color::from_rgb(0x3f, 0xb9, 0x50),
            warning: Color::from_rgb(0xd2, 0x99, 0x22),
            error: Color::from_rgb(0xf8, 0x51, 0x49),
            series_secondary: Color::from_rgb(0x8c, 0x5a, 0xc8),
            on_accent: Color::from_rgb(0x0e, 0x11, 0x18),
            grid: Color::from_rgb(0x1c, 0x22, 0x2b),
            extreme_bg: Color::from_rgb(0x08, 0x0b, 0x10),
            code_bg: Color::from_rgb(0x0a, 0x0e, 0x14),
        }
    }

    /// The same hues on white, with darker semantic colours.
    pub fn light() -> (r: Palette)
        ensures
            r == light_palette(),
    {
        Palette {
            bg: Color::from_rgb(0xf6, 0xf8, 0xfa),
            surface: Color::from_rgb(0xff, 0xff, 0xff),
            surface_hover: Color::from_rgb(0xef, 0xf2, 0xf5),
            surface_active: Color::from_rgb(0xea, 0xee, 0xf2),
            border: Color::from_rgb(0xd0, 0xd7, 0xde),
            border_muted: Color::from_rgb(0xea, 0xee, 0xf2),
            text: Color::from_rgb(0x1f, 0x23, 0x28),
            text_muted: Color::from_rgb(0x65, 0x6d, 0x76),
            text_dim: Color::from_rgb(0x83, 0x8d, 0x97),
            accent: Color::from_rgb(0x09, 0x69, 0xda),
            accent_hover: Color::from_rgb(0x08, 0x60, 0xca),
            success: Color::from_rgb(0x1a, 0x7f, 0x37),
            warning: Color::from_rgb(0x9a, 0x67, 0x00),
            error: Color::from_rgb(0xcf, 0x22, 0x2e),
            series_secondary: Color::from_rgb(0x82, 0x50, 0xdf),
            on_accent: Color::from_rgb(0xff, 0xff, 0xff),
            grid: Color::from_rgb(0xea, 0xee, 0xf2),
            extreme_bg: Color::from_rgb(0xea, 0xee, 0xf2),
            code_bg: Color::from_rgb(0xf6, 0xf8, 0xfa),
        }
    }

    /// The colour of a tone in this palette.
    pub fn tone(self, tone: Tone) -> (r: Color)
        ensures
            r == tone_in(self, tone),
    {
        match tone {
            Tone::Bg => self.bg,
            Tone::Surface => self.surface,
            Tone::SurfaceHover => self.surface_hover,
            Tone::SurfaceActive => self.surface_active,
            Tone::Border => self.border,
            Tone::BorderMuted => self.border_muted,
            Tone::Text => self.text,
            Tone::TextMuted => self.text_muted,
            Tone::TextDim => self.text_dim,
            Tone::Accent => self.accent,
            Tone::AccentHover => self.accent_hover,
            Tone::Success => self.success,
            Tone::Warning => self.warning,
            Tone::Error => self.error,
            Tone::SeriesSecondary => self.series_secondary,
            Tone::OnAccent => self.on_accent,
            Tone::Grid => self.grid,
            Tone::ExtremeBg => self.extreme_bg,
            Tone::CodeBg => self.code_bg,
        }
    }
}

impl Theme {
    /// The palette that this scheme paints with.
    pub fn palette(self) -> (r: Palette)
        ensures
            r == palette_of(self),
    {
        match self {
            Theme::Dark => Palette::dark(),
            Theme::Light => Palette::light(),
        }
    }
}

/// A dark channel under an alpha: their product over 255, to the nearest.
pub open spec fn dark_channel(channel: u8, alpha: u8) -> int {
    (2 * channel * alpha + 255) / 510
}

/// `egui::Color32::from_rgba_unmultiplied`, byte for byte. It keeps the alpha;
/// at full alpha it keeps the channels, and at zero alpha it clears them. In
/// between it scales the channels in linear light. A channel of at most 10 lies
/// on the straight piece of the gamma curve, both before and after: it is divided
/// by 3294.6, multiplied by the alpha over 255 and by 3294.6, and rounded. That
/// product is never closer to a half than 1/510, far more than these few `f32`
/// operations can be off, so the channel comes out as the product rounded to
/// the nearest. A brighter channel goes through `f32::powf`, whose precision
/// depends on the machine, so nothing more is said of it.
#[verifier::external_body]
fn premultiply(r: u8, g: u8, b: u8, a: u8) -> (c: (u8, u8, u8, u8))
    ensures
        c.3 == a,
        a == 255 ==> c == (r, g, b, 255u8),
        a == 0 ==> c == (0u8, 0u8, 0u8, 0u8),
        r <= 10 ==> c.0 == dark_channel(r, a),
        g <= 10 ==> c.1 == dark_channel(g, a),
        b <= 10 ==> c.2 == dark_channel(b, a),
{
    let c = Color32::from_rgba_unmultiplied(r, g, b, a);
    (c.r(), c.g(), c.b(), c.a())
}

proof fn lemma_dark_channel(channel: u8, alpha: u8)
    ensures
        0 <= dark_channel(channel, alpha) <= channel,
{
    assert(0 <= 2 * channel * alpha <= 510 * channel) by (nonlinear_arith);
}

/// Whether `filled` is what egui may hand back for this colour under this alpha.
pub closed spec fn may_fill(color: Color, alpha: u8, filled: Color) -> bool {
    call_ensures(
        premultiply,
        (color.r, color.g, color.b, alpha),
        (filled.r, filled.g, filled.b, filled.a),
    )
}

/// A translucent fill of `color`: `alpha` is the opacity that shows, whatever
/// the alpha of `color` was. Between the ends the channels are scaled in linear
/// light; a dark one stays at or below what it was.
pub fn fill_alpha(color: Color, alpha: u8) -> (r: Color)
    ensures
        may_fill(color, alpha, r),
        r.a == alpha,
        alpha == 255 ==> r == opaque_rgb(color.r, color.g, color.b),
        alpha == 0 ==> r == (Color { r: 0, g: 0, b: 0, a: 0 }),
        color.r <= 10 ==> r.r == dark_channel(color.r, alpha) && r.r <= color.r,
        color.g <= 10 ==> r.g == dark_channel(color.g, alpha) && r.g <= color.g,
        color.b <= 10 ==> r.b == dark_channel(color.b, alpha) && r.b <= color.b,
{
    let (r, g, b, a) = premultiply(color.r, color.g, color.b, alpha);
    proof {
        lemma_dark_channel(color.r, alpha);
        lemma_dark_channel(color.g, alpha);
        lemma_dark_channel(color.b, alpha);
    }
    Color { r, g, b, a }
}

/// The sizes that the tabs share, in hundredths of a logical point.
pub struct Metrics;

impl Metrics {
    // Type scale
    pub const TEXT_BODY: u32 = 1300;
    pub const TEXT_SMALL: u32 = 1250;
    pub const TEXT_TINY: u32 = 1200;
    pub const TEXT_SECTION: u32 = 1050;
    pub const TEXT_CARD_VALUE: u32 = 1500;
    pub const TEXT_HERO: u32 = 1600;
    pub const TEXT_MONO: u32 = 1200;
    pub const TEXT_PILL: u32 = 1100;
    // Radii
    pub const R_CARD: u32 = 800;
    pub const R_BUTTON: u32 = 600;
    pub const R_PILL: u32 = 1000;
    // Card geometry
    pub const CARD_PAD_X: u32 = 1200;
    pub const CARD_PAD_Y: u32 = 1000;
    pub const HERO_PAD_X: u32 = 1400;
    pub const HERO_PAD_Y: u32 = 1200;
    pub const CARD_GAP: u32 = 1000;
    pub const PAGE_PAD: u32 = 1200;
    // Chrome
    pub const TAB_PAD_X: u32 = 1000;
    pub const TAB_PAD_Y: u32 = 800;
    pub const TAB_UNDERLINE: u32 = 200;
    pub const SPARKLINE_W: u32 = 9000;
    pub const SPARKLINE_H: u32 = 1800;
    // Tables
    pub const ROW_H: u32 = 2600;
    pub const ROW_H_2LINE: u32 = 3400;
    pub const ROW_H_RULES: u32 = 3000;
    pub const HEADER_H: u32 = 2400;
    pub const GUTTER_W: u32 = 400;
    pub const CPU_BAR_W: u32 = 3400;
    pub const CPU_BAR_H: u32 = 500;
    // Controls
    pub const BTN_PAD_X: u32 = 1200;
    pub const BTN_PAD_Y: u32 = 600;
    pub const CHIP_PAD_X: u32 = 1000;
    pub const CHIP_PAD_Y: u32 = 300;
    pub const PILL_PAD_X: u32 = 800;
    pub const PILL_PAD_Y: u32 = 200;
    pub const SEARCH_W: u32 = 30000;
    pub const DOT: u32 = 600;
    pub const HERO_DOT: u32 = 900;
    pub const SLIDER_W: u32 = 14000;
    pub const DRAG_VALUE_W: u32 = 5200;
    pub const DRAG_VALUE_H: u32 = 2200;
    // Sessions
    pub const SESSION_LIST_W: u32 = 28000;
    pub const CHART_H: u32 = 14000;
    // Tints, as hundredths of the full colour
    pub const TINT_PILL: u32 = 13;
    pub const TINT_HERO: u32 = 7;
    // Vertical rhythm
    pub const SP_XS: u32 = 400;
    pub const SP_SM: u32 = 800;
    pub const SP_MD: u32 = 1200;
    pub const SP_LG: u32 = 1600;
    pub const SP_XL: u32 = 2400;
}

} // verus!

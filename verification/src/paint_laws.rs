//! Laws of the colours and of the icons.

use vstd::prelude::*;

use crate::icons::{self, IconCache, IconStep};
use crate::theme::{self, Color, Palette, Theme, Tone};

verus! {

// ── Colours ─────────────────────────────────────────────────────────────────

/// Whether a colour has these channels and lets nothing through.
pub open spec fn is_solid(c: Color, r: u8, g: u8, b: u8) -> bool {
    c.r == r && c.g == g && c.b == b && c.a == 255
}

/// A colour is made of its channels and is solid.
pub proof fn colours_are_made_of_channels(r: u8, g: u8, b: u8, c: Color)
    requires
        call_ensures(Color::from_rgb, (r, g, b), c),
    ensures
        is_solid(c, r, g, b),
{
}

/// The dark scheme is navy and charcoal with a cyan accent.
pub proof fn the_dark_scheme_is_navy(r: Palette)
    requires
        call_ensures(Palette::dark, (), r),
    ensures
        is_solid(r.bg, 0x0e, 0x11, 0x18),
        is_solid(r.surface, 0x16, 0x1b, 0x22),
        is_solid(r.surface_hover, 0x21, 0x27, 0x33),
        is_solid(r.surface_active, 0x2a, 0x30, 0x3d),
        is_solid(r.border, 0x30, 0x36, 0x3d),
        is_solid(r.border_muted, 0x26, 0x2b, 0x33),
        is_solid(r.text, 0xc9, 0xd1, 0xd9),
        is_solid(r.text_muted, 0x8b, 0x94, 0x9e),
        is_solid(r.text_dim, 0x6e, 0x76, 0x81),
        is_solid(r.accent, 0x58, 0xa6, 0xff),
        is_solid(r.accent_hover, 0x79, 0xb8, 0xff),
        is_solid(r.success, 0x3f, 0xb9, 0x50),
        is_solid(r.warning, 0xd2, 0x99, 0x22),
        is_solid(r.error, 0xf8, 0x51, 0x49),
        is_solid(r.series_secondary, 0x8c, 0x5a, 0xc8),
        is_solid(r.on_accent, 0x0e, 0x11, 0x18),
        is_solid(r.grid, 0x1c, 0x22, 0x2b),
        is_solid(r.extreme_bg, 0x08, 0x0b, 0x10),
        is_solid(r.code_bg, 0x0a, 0x0e, 0x14),
{
}

/// The light scheme is white with the same hues, darker.
pub proof fn the_light_scheme_is_white(r: Palette)
    requires
        call_ensures(Palette::light, (), r),
    ensures
        is_solid(r.bg, 0xf6, 0xf8, 0xfa),
        is_solid(r.surface, 0xff, 0xff, 0xff),
        is_solid(r.surface_hover, 0xef, 0xf2, 0xf5),
        is_solid(r.surface_active, 0xea, 0xee, 0xf2),
        is_solid(r.border, 0xd0, 0xd7, 0xde),
        is_solid(r.border_muted, 0xea, 0xee, 0xf2),
        is_solid(r.text, 0x1f, 0x23, 0x28),
        is_solid(r.text_muted, 0x65, 0x6d, 0x76),
        is_solid(r.text_dim, 0x83, 0x8d, 0x97),
        is_solid(r.accent, 0x09, 0x69, 0xda),
        is_solid(r.accent_hover, 0x08, 0x60, 0xca),
        is_solid(r.success, 0x1a, 0x7f, 0x37),
        is_solid(r.warning, 0x9a, 0x67, 0x00),
        is_solid(r.error, 0xcf, 0x22, 0x2e),
        is_solid(r.series_secondary, 0x82, 0x50, 0xdf),
        is_solid(r.on_accent, 0xff, 0xff, 0xff),
        is_solid(r.grid, 0xea, 0xee, 0xf2),
        is_solid(r.extreme_bg, 0xea, 0xee, 0xf2),
        is_solid(r.code_bg, 0xf6, 0xf8, 0xfa),
{
}

/// A scheme paints with its own palette, and the dark one is the first.
pub proof fn schemes_have_their_palettes(
    dark: Palette,
    light: Palette,
    painted: Palette,
    scheme: Theme,
    first: Theme,
)
    requires
        call_ensures(Palette::dark, (), dark),
        call_ensures(Palette::light, (), light),
        call_ensures(Theme::palette, (scheme,), painted),
        call_ensures(Theme::default, (), first),
    ensures
        scheme is Dark ==> painted == dark,
        scheme is Light ==> painted == light,
        first is Dark,
{
}

/// The sum of a colour's channels.
pub open spec fn brightness(c: Color) -> int {
    c.r + c.g + c.b
}

/// Text stands out from what it is written on, in either scheme: it is far
/// lighter on the dark one and far darker on the light one, and so it is on a
/// button in the accent colour.
pub proof fn text_stands_out(dark: Palette, light: Palette)
    requires
        call_ensures(Palette::dark, (), dark),
        call_ensures(Palette::light, (), light),
    ensures
        brightness(dark.text) > brightness(dark.bg) + 400,
        brightness(dark.text) > brightness(dark.surface) + 400,
        brightness(light.text) + 400 < brightness(light.bg),
        brightness(light.text) + 400 < brightness(light.surface),
        brightness(dark.on_accent) + 300 < brightness(dark.accent),
        brightness(light.on_accent) > brightness(light.accent) + 300,
{
}

/// A tone is the colour of its name.
pub proof fn tones_are_colours_by_name(palette: Palette, tone: Tone, r: Color)
    requires
        call_ensures(Palette::tone, (palette, tone), r),
    ensures
        tone is Bg ==> r == palette.bg,
        tone is Surface ==> r == palette.surface,
        tone is SurfaceHover ==> r == palette.surface_hover,
        tone is SurfaceActive ==> r == palette.surface_active,
        tone is Border ==> r == palette.border,
        tone is BorderMuted ==> r == palette.border_muted,
        tone is Text ==> r == palette.text,
        tone is TextMuted ==> r == palette.text_muted,
        tone is TextDim ==> r == palette.text_dim,
        tone is Accent ==> r == palette.accent,
        tone is AccentHover ==> r == palette.accent_hover,
        tone is Success ==> r == palette.success,
        tone is Warning ==> r == palette.warning,
        tone is Error ==> r == palette.error,
        tone is SeriesSecondary ==> r == palette.series_secondary,
        tone is OnAccent ==> r == palette.on_accent,
        tone is Grid ==> r == palette.grid,
        tone is ExtremeBg ==> r == palette.extreme_bg,
        tone is CodeBg ==> r == palette.code_bg,
{
}

/// A fill has the opacity it was asked for. A full one keeps the channels, an
/// empty one has none, and a dark channel is scaled to the nearest.
pub proof fn fills_have_their_opacity(color: Color, alpha: u8, r: Color)
    requires
        call_ensures(theme::fill_alpha, (color, alpha), r),
    ensures
        r.a == alpha,
        alpha == 255 ==> r.r == color.r && r.g == color.g && r.b == color.b,
        alpha == 0 ==> r.r == 0 && r.g == 0 && r.b == 0,
        color.r <= 10 ==> 2 * (color.r * alpha) - 255 <= 510 * r.r <= 2 * (color.r * alpha) + 255,
        color.g <= 10 ==> 2 * (color.g * alpha) - 255 <= 510 * r.g <= 2 * (color.g * alpha) + 255,
        color.b <= 10 ==> 2 * (color.b * alpha) - 255 <= 510 * r.b <= 2 * (color.b * alpha) + 255,
{
    assert(2 * color.r * alpha == 2 * (color.r * alpha)) by (nonlinear_arith);
    assert(2 * color.g * alpha == 2 * (color.g * alpha)) by (nonlinear_arith);
    assert(2 * color.b * alpha == 2 * (color.b * alpha)) by (nonlinear_arith);
}

// ── Icons ───────────────────────────────────────────────────────────────────

/// A new cache knows no path: an icon is extracted if the frame can afford it
/// and there is a path at all.
pub proof fn new_caches_are_empty(cache: IconCache, path: &str, budget: &mut u32, r: IconStep)
    requires
        call_ensures(IconCache::new, (), cache),
        call_ensures(IconCache::get_or_load, (&cache, path, budget), r),
    ensures
        *old(budget) == 0 || path@.len() == 0 ==> r is Skip && *final(budget) == *old(budget),
        *old(budget) > 0 && path@.len() > 0 ==> r is Extract && *final(budget) == *old(budget) - 1,
{
    assert(cache.holds(path@) is None);
}

/// What was stored for a path is shown from then on, free of charge, be it an
/// icon or none. Other paths are as they were.
pub proof fn stored_icons_are_shown(
    cache: &mut IconCache,
    path: &str,
    texture: Option<u64>,
    asked: &str,
    before_budget: &mut u32,
    before: IconStep,
    budget: &mut u32,
    r: IconStep,
)
    requires
        call_ensures(IconCache::get_or_load, (old(cache), asked, before_budget), before),
        call_ensures(IconCache::store, (cache, path, texture), ()),
        call_ensures(IconCache::get_or_load, (final(cache), asked, budget), r),
        *old(budget) == *old(before_budget),
    ensures
        asked@ == path@ ==> r == IconStep::Show(texture) && *final(budget) == *old(budget),
        asked@ != path@ ==> r == before && *final(budget) == *final(before_budget),
{
    if asked@ != path@ {
        assert(final(cache).holds(asked@) == old(cache).holds(asked@));
    }
}

/// Whoever shows a cached icon pays nothing; whoever extracts one pays one of
/// the frame's four, and nothing is extracted without a path.
pub proof fn extractions_are_paid_for(
    cache: &IconCache,
    path: &str,
    budget: &mut u32,
    r: IconStep,
)
    requires
        call_ensures(IconCache::get_or_load, (cache, path, budget), r),
    ensures
        r is Extract ==> *old(budget) > 0 && path@.len() > 0 && *final(budget) == *old(budget)
            - 1,
        !(r is Extract) ==> *final(budget) == *old(budget),
        icons::ICONS_PER_FRAME == 4,
        icons::ICON_PX == 16,
{
}

/// Red and blue change places in every pixel; green and alpha stay.
pub proof fn red_and_blue_change_places(px: &[u8], r: Vec<u8>, k: int)
    requires
        px@.len() % 4 == 0,
        call_ensures(icons::swizzle, (px,), r),
        0 <= k,
        4 * k < px@.len(),
    ensures
        r@.len() == px@.len(),
        r@[4 * k] == px@[4 * k + 2],
        r@[4 * k + 1] == px@[4 * k + 1],
        r@[4 * k + 2] == px@[4 * k],
        r@[4 * k + 3] == px@[4 * k + 3],
{
}

} // verus!

//! Terminal colors for highlighted snippets: compositing a theme's
//! foreground color over the terminal background.
use vstd::prelude::*;

verus! {

/// A color with an alpha channel, as a syntax theme gives it.
#[derive(Debug, Clone, Copy, PartialEq, Eq, Structural)]
pub struct Rgba {
    pub r: u8,
    pub g: u8,
    pub b: u8,
    pub a: u8,
}

/// The dark background that snippets are shown on.
pub fn terminal_background() -> (r: Rgba)
    ensures
        r == (Rgba { r: 13, g: 17, b: 23, a: 255 }),
{
    Rgba { r: 13, g: 17, b: 23, a: 255 }
}

/// The alpha that compositing uses: a fully transparent color counts as opaque.
pub open spec fn effective_alpha(a: u8) -> int {
    if a == 0 {
        255
    } else {
        a as int
    }
}

/// One channel of `fg` over `bg` at `alpha` (out of 255), rounded down.
pub open spec fn blend_channel(fg: int, bg: int, alpha: int) -> int {
    (fg * alpha + bg * (255 - alpha)) / 255
}

fn blend_u8(fg: u8, bg: u8, alpha: u32) -> (r: u8)
    requires
        1 <= alpha <= 255,
    ensures
        r as int == blend_channel(fg as int, bg as int, alpha as int),
{
    let f = fg as u32;
    let b = bg as u32;
    assert(f * alpha <= 255 * alpha) by (nonlinear_arith)
        requires
            f <= 255,
    ;
    assert(b * (255 - alpha) <= 255 * (255 - alpha)) by (nonlinear_arith)
        requires
            b <= 255,
            alpha <= 255,
    ;
    let x = f * alpha + b * (255 - alpha);
    let v = x / 255;
    assert(v <= 255) by (nonlinear_arith)
        requires
            x <= 255 * 255,
            v == x / 255,
    ;
    v as u8
}

/// `fg` composited over `bg`: each channel blended by the foreground's alpha.
pub fn blend_fg_color(fg: Rgba, bg: Rgba) -> (r: Rgba)
    ensures
        r.a == 255,
        r.r as int == blend_channel(fg.r as int, bg.r as int, effective_alpha(fg.a)),
        r.g as int == blend_channel(fg.g as int, bg.g as int, effective_alpha(fg.a)),
        r.b as int == blend_channel(fg.b as int, bg.b as int, effective_alpha(fg.a)),
{
    let alpha: u32 = if fg.a == 0 {
        255
    } else {
        fg.a as u32
    };
    Rgba {
        r: blend_u8(fg.r, bg.r, alpha),
        g: blend_u8(fg.g, bg.g, alpha),
        b: blend_u8(fg.b, bg.b, alpha),
        a: 255,
    }
}

/// The color a theme foreground is shown in before it is made readable: none
/// (the default text color) for a nearly transparent black, the color itself
/// when it is opaque, else the color composited over the terminal background.
pub fn composited_foreground(fg: Rgba) -> (r: Option<Rgba>)
    ensures
        fg.a < 16 && fg.r == 0 && fg.g == 0 && fg.b == 0 ==> r is None,
        !(fg.a < 16 && fg.r == 0 && fg.g == 0 && fg.b == 0) ==> (r matches Some(c) && (if fg.a
            == 255 {
            c == fg
        } else {
            c.a == 255 && c.r as int == blend_channel(fg.r as int, 13, effective_alpha(fg.a))
                && c.g as int == blend_channel(fg.g as int, 17, effective_alpha(fg.a)) && c.b as int
                == blend_channel(fg.b as int, 23, effective_alpha(fg.a))
        })),
{
    if fg.a < 16 && fg.r == 0 && fg.g == 0 && fg.b == 0 {
        return None;
    }
    if fg.a == 255 {
        Some(fg)
    } else {
        Some(blend_fg_color(fg, terminal_background()))
    }
}

} // verus!

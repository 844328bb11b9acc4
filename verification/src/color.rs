use vstd::prelude::*;

verus! {

/// A colour without alpha: three 8-bit channels.
#[derive(Clone, Copy, Debug, PartialEq, Eq, Structural)]
pub struct Rgb {
    pub r: u8,
    pub g: u8,
    pub b: u8,
}

/// One pixel of a frame: red, green, blue and alpha.
#[derive(Clone, Copy, Debug, PartialEq, Eq, Structural)]
pub struct Rgba {
    pub r: u8,
    pub g: u8,
    pub b: u8,
    pub a: u8,
}

/// The larger of two channel values.
pub open spec fn channel_max(x: u8, y: u8) -> u8 {
    if x >= y {
        x
    } else {
        y
    }
}

/// The colour lift: each colour channel of the pixel is raised to at least
/// the matching channel of `color`; alpha is kept.
pub open spec fn lifted(pixel: Rgba, color: Rgb) -> Rgba {
    Rgba {
        r: channel_max(pixel.r, color.r),
        g: channel_max(pixel.g, color.g),
        b: channel_max(pixel.b, color.b),
        a: pixel.a,
    }
}

/// Opaque black, the colour of everything outside the racoon mask.
pub open spec fn opaque_black() -> Rgba {
    Rgba { r: 0, g: 0, b: 0, a: 255 }
}

impl Rgb {
    pub fn new(r: u8, g: u8, b: u8) -> (c: Rgb)
        ensures
            c == (Rgb { r, g, b }),
    {
        Rgb { r, g, b }
    }

    pub fn black() -> (c: Rgb)
        ensures
            c == (Rgb { r: 0, g: 0, b: 0 }),
    {
        Rgb { r: 0, g: 0, b: 0 }
    }
}

impl Rgba {
    pub fn new(r: u8, g: u8, b: u8, a: u8) -> (p: Rgba)
        ensures
            p == (Rgba { r, g, b, a }),
    {
        Rgba { r, g, b, a }
    }

    pub fn opaque_black() -> (p: Rgba)
        ensures
            p == opaque_black(),
    {
        Rgba { r: 0, g: 0, b: 0, a: 255 }
    }
}

fn max_channel(x: u8, y: u8) -> (m: u8)
    ensures
        m == channel_max(x, y),
{
    if x >= y {
        x
    } else {
        y
    }
}

/// Lifts one pixel by a colour (the per-pixel colour effect).
pub fn lift_pixel(pixel: Rgba, color: Rgb) -> (out: Rgba)
    ensures
        out == lifted(pixel, color),
{
    Rgba {
        r: max_channel(pixel.r, color.r),
        g: max_channel(pixel.g, color.g),
        b: max_channel(pixel.b, color.b),
        a: pixel.a,
    }
}

/// Lifting twice by the same colour is the same as lifting once.
pub proof fn lemma_lift_idempotent(pixel: Rgba, color: Rgb)
    ensures
        lifted(lifted(pixel, color), color) == lifted(pixel, color),
{
}

/// Lifting by black leaves every pixel unchanged.
pub proof fn lemma_lift_black_is_identity(pixel: Rgba)
    ensures
        lifted(pixel, Rgb { r: 0, g: 0, b: 0 }) == pixel,
{
}

/// The lifted pixel keeps its alpha and is, channel by channel, at least the
/// pixel and at least the colour, and equal to one of the two.
pub proof fn lemma_lift_bounds(pixel: Rgba, color: Rgb)
    ensures
        lifted(pixel, color).a == pixel.a,
        lifted(pixel, color).r >= pixel.r && lifted(pixel, color).r >= color.r,
        lifted(pixel, color).g >= pixel.g && lifted(pixel, color).g >= color.g,
        lifted(pixel, color).b >= pixel.b && lifted(pixel, color).b >= color.b,
        lifted(pixel, color).r == pixel.r || lifted(pixel, color).r == color.r,
        lifted(pixel, color).g == pixel.g || lifted(pixel, color).g == color.g,
        lifted(pixel, color).b == pixel.b || lifted(pixel, color).b == color.b,
{
}

/// Lifting by one colour and then another is lifting by their channel-wise
/// maximum, in either order.
pub proof fn lemma_lift_compose(pixel: Rgba, c1: Rgb, c2: Rgb)
    ensures
        lifted(lifted(pixel, c1), c2) == lifted(
            pixel,
            Rgb { r: channel_max(c1.r, c2.r), g: channel_max(c1.g, c2.g), b: channel_max(c1.b, c2.b) },
        ),
        lifted(lifted(pixel, c1), c2) == lifted(lifted(pixel, c2), c1),
{
}

} // verus!

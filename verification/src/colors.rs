//! Colour values used when clearing freshly allocated surfaces.
//!
//! A colour is either an opaque red/green/blue triple or a
//! red/green/blue/alpha quadruple.  Surfaces store pixels as packed
//! 32-bit values in premultiplied ARGB order, so this module also defines
//! the packing rule.

use vstd::prelude::*;

verus! {

/// A colour, with or without an alpha channel.
#[derive(Debug, Copy, Clone, PartialEq, Eq, Structural)]
pub enum Colour {
    Rgb(Rgb),
    Rgba(Rgba),
}

/// An opaque colour: red, green and blue channels.
#[derive(Debug, Copy, Clone, PartialEq, Eq, Structural)]
pub struct Rgb {
    pub r: u8,
    pub g: u8,
    pub b: u8,
}

/// A translucent colour: red, green, blue and alpha channels.
#[derive(Debug, Copy, Clone, PartialEq, Eq, Structural)]
pub struct Rgba {
    pub r: u8,
    pub g: u8,
    pub b: u8,
    pub a: u8,
}

impl From<Rgb> for Colour {
    fn from(rgb: Rgb) -> (c: Colour) {
        Colour::Rgb(rgb)
    }
}

impl vstd::std_specs::convert::FromSpecImpl<Rgb> for Colour {
    open spec fn obeys_from_spec() -> bool {
        true
    }

    open spec fn from_spec(rgb: Rgb) -> Colour {
        Colour::Rgb(rgb)
    }
}

impl From<(u8, u8, u8)> for Colour {
    fn from(channels: (u8, u8, u8)) -> (c: Colour) {
        Colour::Rgb(Rgb { r: channels.0, g: channels.1, b: channels.2 })
    }
}

impl vstd::std_specs::convert::FromSpecImpl<(u8, u8, u8)> for Colour {
    open spec fn obeys_from_spec() -> bool {
        true
    }

    open spec fn from_spec(channels: (u8, u8, u8)) -> Colour {
        Colour::Rgb(Rgb { r: channels.0, g: channels.1, b: channels.2 })
    }
}

impl From<Rgba> for Colour {
    fn from(rgba: Rgba) -> (c: Colour) {
        Colour::Rgba(rgba)
    }
}

impl vstd::std_specs::convert::FromSpecImpl<Rgba> for Colour {
    open spec fn obeys_from_spec() -> bool {
        true
    }

    open spec fn from_spec(rgba: Rgba) -> Colour {
        Colour::Rgba(rgba)
    }
}

impl From<(u8, u8, u8, u8)> for Colour {
    fn from(channels: (u8, u8, u8, u8)) -> (c: Colour) {
        Colour::Rgba(Rgba { r: channels.0, g: channels.1, b: channels.2, a: channels.3 })
    }
}

impl vstd::std_specs::convert::FromSpecImpl<(u8, u8, u8, u8)> for Colour {
    open spec fn obeys_from_spec() -> bool {
        true
    }

    open spec fn from_spec(channels: (u8, u8, u8, u8)) -> Colour {
        Colour::Rgba(Rgba { r: channels.0, g: channels.1, b: channels.2, a: channels.3 })
    }
}

impl Colour {
    /// The colour a freshly created CPU surface is cleared to.
    pub fn cyan() -> (c: Colour)
        ensures
            c == Colour::Rgb(Rgb { r: 0, g: 255, b: 255 }),
    {
        Colour::Rgb(Rgb { r: 0, g: 255, b: 255 })
    }
}

/// The packed pixel for a colour, in premultiplied ARGB order: the alpha
/// channel in the top byte, then red, green and blue, each channel of the
/// colour multiplied by alpha over 255 first.  An `Rgb` colour is fully
/// opaque.
pub open spec fn pack_colour(c: Colour) -> u32 {
    match c {
        Colour::Rgb(rgb) => (0xFF000000u32 + rgb.r * 0x10000 + rgb.g * 0x100 + rgb.b) as u32,
        Colour::Rgba(rgba) => (
            rgba.a * 0x1000000 + (rgba.r * rgba.a / 255) * 0x10000 + (rgba.g * rgba.a / 255) * 0x100
                + rgba.b * rgba.a / 255
        ) as u32,
    }
}

/// Packs a colour into one premultiplied ARGB pixel.
pub fn pack_pixel(c: Colour) -> (p: u32)
    ensures
        p == pack_colour(c),
{
    match c {
        Colour::Rgb(rgb) => {
            0xFF000000u32 + (rgb.r as u32) * 0x10000 + (rgb.g as u32) * 0x100 + (rgb.b as u32)
        },
        Colour::Rgba(rgba) => {
            let a = rgba.a as u32;
            assert(forall|x: u32, y: u32|
                x <= 255 && y <= 255 ==> #[trigger] (x * y) <= 65025 && x * y / 255 <= 255)
                by (nonlinear_arith);
            let pr = (rgba.r as u32) * a / 255;
            let pg = (rgba.g as u32) * a / 255;
            let pb = (rgba.b as u32) * a / 255;
            a * 0x1000000 + pr * 0x10000 + pg * 0x100 + pb
        },
    }
}

} // verus!

//! Linear RGBA color used throughout the framebuffer.

use crate::single::Single;
use vstd::prelude::*;

verus! {

/// An RGBA color with each channel in the range zero to one.
#[derive(Clone, Copy, Debug, PartialEq, Eq, Structural)]
pub struct Color {
    /// Red channel.
    pub r: Single,
    /// Green channel.
    pub g: Single,
    /// Blue channel.
    pub b: Single,
    /// Alpha channel (one is opaque).
    pub a: Single,
}

impl Color {
    /// Fully transparent black.
    #[verifier::allow_in_spec]
    pub fn transparent() -> Color
        returns
            (Color { r: Single::zero(), g: Single::zero(), b: Single::zero(), a: Single::zero() }),
    {
        Color { r: Single::zero(), g: Single::zero(), b: Single::zero(), a: Single::zero() }
    }

    /// Opaque black.
    #[verifier::allow_in_spec]
    pub fn black() -> Color
        returns
            (Color { r: Single::zero(), g: Single::zero(), b: Single::zero(), a: Single::one() }),
    {
        Color { r: Single::zero(), g: Single::zero(), b: Single::zero(), a: Single::one() }
    }

    /// Opaque white.
    #[verifier::allow_in_spec]
    pub fn white() -> Color
        returns
            (Color { r: Single::one(), g: Single::one(), b: Single::one(), a: Single::one() }),
    {
        Color { r: Single::one(), g: Single::one(), b: Single::one(), a: Single::one() }
    }

    /// Creates a color from raw channel values (not clamped).
    pub fn new(r: Single, g: Single, b: Single, a: Single) -> (c: Color)
        ensures
            c == (Color { r, g, b, a }),
    {
        Color { r, g, b, a }
    }

    /// Creates an opaque color.
    pub fn rgb(r: Single, g: Single, b: Single) -> (c: Color)
        ensures
            c == (Color { r, g, b, a: Single::one() }),
    {
        Color { r, g, b, a: Single::one() }
    }

    /// Creates a color from 8-bit channels, mapping `0..=255` to zero to one linearly.
    pub fn from_u8(r: u8, g: u8, b: u8, a: u8) -> (c: Color)
        ensures
            c == Color::spec_from_u8(r, g, b, a),
    {
        let c = Color {
            r: Single::from_level(r),
            g: Single::from_level(g),
            b: Single::from_level(b),
            a: Single::from_level(a),
        };
        proof {
            crate::single::lemma_nearest_level_is_unique(r, c.r);
            crate::single::lemma_nearest_level_is_unique(g, c.g);
            crate::single::lemma_nearest_level_is_unique(b, c.b);
            crate::single::lemma_nearest_level_is_unique(a, c.a);
        }
        c
    }

    /// The color whose channels are each `level / 255`, rounded to the nearest number.
    pub open spec fn spec_from_u8(r: u8, g: u8, b: u8, a: u8) -> Color {
        Color {
            r: crate::single::level_value(r),
            g: crate::single::level_value(g),
            b: crate::single::level_value(b),
            a: crate::single::level_value(a),
        }
    }

    /// This color with every channel clamped to the range zero to one.
    pub open spec fn spec_clamped(self) -> Color {
        Color {
            r: self.r.spec_clamped(),
            g: self.g.spec_clamped(),
            b: self.b.spec_clamped(),
            a: self.a.spec_clamped(),
        }
    }

    /// Returns a copy with every channel clamped to the range zero to one.
    pub fn clamped(self) -> (c: Color)
        ensures
            c == self.spec_clamped(),
    {
        Color {
            r: self.r.clamped(),
            g: self.g.clamped(),
            b: self.b.clamped(),
            a: self.a.clamped(),
        }
    }

    /// Whether the alpha channel is above zero.
    pub open spec fn is_visible(self) -> bool {
        Single::zero().spec_lt(self.a)
    }

    /// Whether the alpha channel is above zero.
    pub fn visible(self) -> (b: bool)
        ensures
            b == self.is_visible(),
    {
        Single::zero().lt(self.a)
    }
}

impl Default for Color {
    fn default() -> (c: Color)
        ensures
            c == Color::transparent(),
    {
        Color::transparent()
    }
}

/// The channels of a color from bytes do not mix: each follows its own byte, in the same way.
pub proof fn law_bytes_keep_their_channels(r: u8, g: u8, b: u8, a: u8, v: u8)
    ensures
        Color::spec_from_u8(r, v, v, v).r == Color::spec_from_u8(r, g, b, a).r,
        Color::spec_from_u8(v, g, v, v).g == Color::spec_from_u8(r, g, b, a).g,
        Color::spec_from_u8(v, v, b, v).b == Color::spec_from_u8(r, g, b, a).b,
        Color::spec_from_u8(v, v, v, a).a == Color::spec_from_u8(r, g, b, a).a,
        Color::spec_from_u8(v, g, b, a).r == Color::spec_from_u8(r, v, b, a).g,
        Color::spec_from_u8(r, v, b, a).g == Color::spec_from_u8(r, g, v, a).b,
        Color::spec_from_u8(r, g, v, a).b == Color::spec_from_u8(r, g, b, v).a,
{
}

/// Clamping keeps the channels apart and brings each between zero and one: one that lies there stays, and
/// colors that agree in a channel agree in it afterwards.
pub proof fn law_clamping_keeps_channels_apart(c: Color, d: Color)
    ensures
        c.r == d.r ==> c.spec_clamped().r == d.spec_clamped().r,
        c.g == d.g ==> c.spec_clamped().g == d.spec_clamped().g,
        c.b == d.b ==> c.spec_clamped().b == d.spec_clamped().b,
        c.a == d.a ==> c.spec_clamped().a == d.spec_clamped().a,
        Single::zero().spec_le(c.r) && c.r.spec_le(Single::one()) ==> c.spec_clamped().r == c.r,
        Single::zero().spec_le(c.g) && c.g.spec_le(Single::one()) ==> c.spec_clamped().g == c.g,
        Single::zero().spec_le(c.b) && c.b.spec_le(Single::one()) ==> c.spec_clamped().b == c.b,
        Single::zero().spec_le(c.a) && c.a.spec_le(Single::one()) ==> c.spec_clamped().a == c.a,
        c.spec_clamped().spec_clamped() == c.spec_clamped(),
{
}

} // verus!

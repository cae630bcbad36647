//! Colours, stored pixels and the tolerance test between two colours.

use vstd::prelude::*;

verus! {

/// An RGB colour. Matching always treats it as fully opaque.
#[derive(Clone, Copy, Debug, PartialEq, Eq, Structural)]
pub struct Color {
    pub r: u8,
    pub g: u8,
    pub b: u8,
}

/// One stored sample: the three colour channels and alpha.
#[derive(Clone, Copy, Debug, PartialEq, Eq, Structural)]
pub struct Pixel {
    pub r: u8,
    pub g: u8,
    pub b: u8,
    pub a: u8,
}

impl Color {
    pub fn new(r: u8, g: u8, b: u8) -> (c: Color)
        ensures
            c.r == r,
            c.g == g,
            c.b == b,
    {
        Color { r, g, b }
    }
}

impl Pixel {
    pub fn new(r: u8, g: u8, b: u8, a: u8) -> (p: Pixel)
        ensures
            p.r == r,
            p.g == g,
            p.b == b,
            p.a == a,
    {
        Pixel { r, g, b, a }
    }

    /// The pixel's colour: its alpha is dropped.
    pub open spec fn rgb(self) -> Color {
        Color { r: self.r, g: self.g, b: self.b }
    }

    /// The fully opaque pixel of a colour.
    pub fn opaque(c: Color) -> (p: Pixel)
        ensures
            p.rgb() == c,
            p.a == 255,
    {
        Pixel { r: c.r, g: c.g, b: c.b, a: 255 }
    }

    pub fn color(&self) -> (c: Color)
        ensures
            c == self.rgb(),
    {
        Color { r: self.r, g: self.g, b: self.b }
    }
}

/// The distance between two channel values.
pub open spec fn channel_gap(a: u8, b: u8) -> int {
    if a >= b {
        a - b
    } else {
        b - a
    }
}

/// Two colours match when no channel differs by more than `deviation`.
///
/// `deviation` is the tolerance on the scale of a channel: a tolerance `t`
/// between 0 and 1 stands for the deviation `round(t * 255)`. With 0 the
/// colours must be equal; with 255 any two colours match.
pub open spec fn colors_match(a: Color, b: Color, deviation: u8) -> bool {
    channel_gap(a.r, b.r) <= deviation && channel_gap(a.g, b.g) <= deviation && channel_gap(
        a.b,
        b.b,
    ) <= deviation
}

/// The deviation that a search uses: exact matching where none is given.
pub open spec fn deviation_of(tolerance: Option<u8>) -> u8 {
    match tolerance {
        Some(d) => d,
        None => 0,
    }
}

fn gap(a: u8, b: u8) -> (d: u8)
    ensures
        d == channel_gap(a, b),
{
    if a >= b {
        a - b
    } else {
        b - a
    }
}

/// Tests two colours against each other, channel by channel.
pub fn matches(a: Color, b: Color, deviation: u8) -> (m: bool)
    ensures
        m == colors_match(a, b, deviation),
{
    gap(a.r, b.r) <= deviation && gap(a.g, b.g) <= deviation && gap(a.b, b.b) <= deviation
}

/// The deviation for an optional tolerance.
pub fn deviation_or_exact(tolerance: Option<u8>) -> (d: u8)
    ensures
        d == deviation_of(tolerance),
{
    match tolerance {
        Some(d) => d,
        None => 0,
    }
}

/// With deviation 0 only equal colours match.
pub proof fn lemma_exact_match(a: Color, b: Color)
    ensures
        colors_match(a, b, 0) <==> a == b,
{
}

/// With deviation 255 any two colours match.
pub proof fn lemma_full_tolerance_matches_all(a: Color, b: Color)
    ensures
        colors_match(a, b, 255),
{
}

/// Matching is symmetric, and a larger deviation matches at least as much.
pub proof fn lemma_match_symmetric_monotone(a: Color, b: Color, d: u8, e: u8)
    requires
        d <= e,
    ensures
        colors_match(a, b, d) == colors_match(b, a, d),
        colors_match(a, b, d) ==> colors_match(a, b, e),
{
}

} // verus!

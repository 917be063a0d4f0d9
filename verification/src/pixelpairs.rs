// This Source Code Form is subject to the terms of the Mozilla Public
// License, v. 2.0. If a copy of the MPL was not distributed with this
// file, You can obtain one at http://mozilla.org/MPL/2.0/.

//! Pixels and the energy of a pair of pixels.
//!
//! The energy between two pixels is the distance between their colours:
//! either the squared difference of their luma, or the sum of the squared
//! differences of their channels.

use vstd::prelude::*;

verus! {

/// One pixel of an image with 8-bit samples, in one of the four channel
/// layouts: grey, grey with alpha, colour, colour with alpha.
#[derive(Clone, Copy, Debug, PartialEq, Eq, Structural)]
pub enum Pixel {
    Luma(u8),
    LumaA(u8, u8),
    Rgb(u8, u8, u8),
    Rgba(u8, u8, u8, u8),
}

/// The luma of a colour: its red, green and blue weighted by 0.2126,
/// 0.7152 and 0.0722, in integer arithmetic, rounded down.
pub open spec fn luma_of_rgb(r: u8, g: u8, b: u8) -> int {
    (2126 * r + 7152 * g + 722 * b) / 10000
}

/// `image::Pixel::to_luma` on `image::Rgb<u8>`.  For 8-bit samples the
/// `image` crate computes the luma as the weighted sum of `luma_of_rgb`
/// in 32-bit integers, divides by 10000 and clamps to the range of a `u8`,
/// which the quotient never leaves.
#[verifier::external_body]
fn rgb_to_luma(r: u8, g: u8, b: u8) -> (luma: u8)
    ensures
        luma == luma_of_rgb(r, g, b),
{
    image::Pixel::to_luma(&image::Rgb([r, g, b])).0[0]
}

impl Pixel {
    /// The luma of this pixel: its grey value, or the luma of its colour.
    /// Alpha does not count.
    pub open spec fn luma_spec(self) -> int {
        match self {
            Pixel::Luma(l) => l as int,
            Pixel::LumaA(l, _) => l as int,
            Pixel::Rgb(r, g, b) => luma_of_rgb(r, g, b),
            Pixel::Rgba(r, g, b, _) => luma_of_rgb(r, g, b),
        }
    }

    /// The red, green and blue of this pixel; a grey pixel has all three
    /// equal.  Alpha does not count.
    pub open spec fn rgb_spec(self) -> Seq<u8> {
        match self {
            Pixel::Luma(l) => seq![l, l, l],
            Pixel::LumaA(l, _) => seq![l, l, l],
            Pixel::Rgb(r, g, b) => seq![r, g, b],
            Pixel::Rgba(r, g, b, _) => seq![r, g, b],
        }
    }

    /// The luma of this pixel.
    pub fn luma(&self) -> (luma: u8)
        ensures
            luma == self.luma_spec(),
    {
        match *self {
            Pixel::Luma(l) => l,
            Pixel::LumaA(l, _) => l,
            Pixel::Rgb(r, g, b) => rgb_to_luma(r, g, b),
            Pixel::Rgba(r, g, b, _) => rgb_to_luma(r, g, b),
        }
    }

    /// The red, green and blue of this pixel.
    pub fn to_rgb(&self) -> (rgb: [u8; 3])
        ensures
            rgb@ == self.rgb_spec(),
    {
        let rgb = match *self {
            Pixel::Luma(l) => [l, l, l],
            Pixel::LumaA(l, _) => [l, l, l],
            Pixel::Rgb(r, g, b) => [r, g, b],
            Pixel::Rgba(r, g, b, _) => [r, g, b],
        };
        rgb
    }
}

/// The square of the difference of two samples.
pub open spec fn squared_difference(a: int, b: int) -> int {
    (a - b) * (a - b)
}

/// The energy between two pixels by their luma: the squared difference
/// of the two lumas.
pub open spec fn luma_energy(p1: Pixel, p2: Pixel) -> int {
    squared_difference(p1.luma_spec(), p2.luma_spec())
}

/// The sum of the squared differences of the first `n` samples of two
/// pixels.
pub open spec fn channel_energy_upto(p1: Seq<u8>, p2: Seq<u8>, n: nat) -> int
    decreases n,
{
    if n == 0 {
        0
    } else {
        channel_energy_upto(p1, p2, (n - 1) as nat) + squared_difference(
            p1[n - 1] as int,
            p2[n - 1] as int,
        )
    }
}

/// The energy between two pixels by their channels: the sum, over the
/// channels that both have, of the squared differences.
pub open spec fn channel_energy(p1: Seq<u8>, p2: Seq<u8>) -> int {
    channel_energy_upto(
        p1,
        p2,
        if p1.len() <= p2.len() {
            p1.len()
        } else {
            p2.len()
        },
    )
}

/// The squared difference of two 8-bit samples.
fn squared_sample_difference(a: u8, b: u8) -> (e: u32)
    ensures
        e == squared_difference(a as int, b as int),
        e <= 65025,
{
    let d: u32 = if a >= b {
        (a - b) as u32
    } else {
        (b - a) as u32
    };
    assert(d * d <= 65025 && d * d == (a - b) * (a - b)) by (nonlinear_arith)
        requires
            d <= 255,
            d == a - b || d == b - a,
    ;
    d * d
}

/// (Pixel, Pixel) -> Energy
///
/// Given a pair of pixels, calculate the energy between them.  This
/// variant uses the luma channel.
pub fn energy_of_pair_luma(p1: &Pixel, p2: &Pixel) -> (e: u32)
    ensures
        e == luma_energy(*p1, *p2),
        e <= 65025,
{
    squared_sample_difference(p1.luma(), p2.luma())
}

/// Takes the channels of two pixels, squares the difference of each pair
/// of channels, and sums the squares up:
///
/// ```text
///     |Δ|² = (Δr)² + (Δg)² + (Δb)²
/// ```
///
/// Channels that only one of the two pixels has do not count.  The sum
/// has to fit the result: no more than 66051 channels are compared.
pub fn energy_of_pair(p1: &[u8], p2: &[u8]) -> (e: u32)
    requires
        p1@.len() <= 66051 || p2@.len() <= 66051,
    ensures
        e == channel_energy(p1@, p2@),
        e <= 65025 * p1@.len(),
        e <= 65025 * p2@.len(),
{
    let n: usize = if p1.len() <= p2.len() {
        p1.len()
    } else {
        p2.len()
    };
    let mut e: u32 = 0;
    let mut i: usize = 0;
    while i < n
        invariant
            i <= n,
            n <= 66051,
            n <= p1@.len(),
            n <= p2@.len(),
            e == channel_energy_upto(p1@, p2@, i as nat),
            e <= 65025 * i,
        decreases n - i,
    {
        let d = squared_sample_difference(p1[i], p2[i]);
        e = e + d;
        i += 1;
    }
    e
}

/// The energy between two pixels does not depend on their order.
pub proof fn lemma_luma_energy_symmetric(p1: Pixel, p2: Pixel)
    ensures
        luma_energy(p1, p2) == luma_energy(p2, p1),
{
    let a = p1.luma_spec();
    let b = p2.luma_spec();
    assert((a - b) * (a - b) == (b - a) * (b - a)) by (nonlinear_arith);
}

/// The energy between two pixels lies between 0 and 65025, the square
/// of 255.
pub proof fn lemma_luma_energy_bound(p1: Pixel, p2: Pixel)
    ensures
        0 <= luma_energy(p1, p2) <= 65025,
{
    let a = p1.luma_spec();
    let b = p2.luma_spec();
    assert(0 <= (a - b) * (a - b) <= 65025) by (nonlinear_arith)
        requires
            0 <= a <= 255,
            0 <= b <= 255,
    ;
}

/// The energy between two pixels is never negative, and it is zero
/// exactly where the two have the same luma.
pub proof fn lemma_luma_energy_zero(p1: Pixel, p2: Pixel)
    ensures
        luma_energy(p1, p2) >= 0,
        luma_energy(p1, p2) == 0 <==> p1.luma_spec() == p2.luma_spec(),
{
    let a = p1.luma_spec();
    let b = p2.luma_spec();
    assert((a - b) * (a - b) >= 0 && ((a - b) * (a - b) == 0 <==> a == b)) by (nonlinear_arith);
}

/// The channel energy of the first `n` samples does not depend on the
/// order of the two pixels.
pub proof fn lemma_channel_energy_upto_symmetric(p1: Seq<u8>, p2: Seq<u8>, n: nat)
    ensures
        channel_energy_upto(p1, p2, n) == channel_energy_upto(p2, p1, n),
    decreases n,
{
    if n > 0 {
        lemma_channel_energy_upto_symmetric(p1, p2, (n - 1) as nat);
        let a = p1[n - 1] as int;
        let b = p2[n - 1] as int;
        assert((a - b) * (a - b) == (b - a) * (b - a)) by (nonlinear_arith);
    }
}

/// The energy between two pixels by their channels does not depend on
/// their order.
pub proof fn lemma_channel_energy_symmetric(p1: Seq<u8>, p2: Seq<u8>)
    ensures
        channel_energy(p1, p2) == channel_energy(p2, p1),
{
    let n = if p1.len() <= p2.len() {
        p1.len()
    } else {
        p2.len()
    };
    lemma_channel_energy_upto_symmetric(p1, p2, n);
}

/// The channel energy of the first `n` samples is never negative, and it
/// is zero exactly where the two pixels agree on each of those samples.
pub proof fn lemma_channel_energy_upto_zero(p1: Seq<u8>, p2: Seq<u8>, n: nat)
    requires
        n <= p1.len(),
        n <= p2.len(),
    ensures
        channel_energy_upto(p1, p2, n) >= 0,
        channel_energy_upto(p1, p2, n) == 0 <==> forall|i: int| 0 <= i < n ==> p1[i] == p2[i],
    decreases n,
{
    if n > 0 {
        lemma_channel_energy_upto_zero(p1, p2, (n - 1) as nat);
        let a = p1[n - 1] as int;
        let b = p2[n - 1] as int;
        assert((a - b) * (a - b) >= 0 && ((a - b) * (a - b) == 0 <==> a == b)) by (nonlinear_arith);
    }
}

/// The energy between two pixels with the same number of channels is
/// never negative, and it is zero exactly where the two are equal
/// channel by channel.
pub proof fn lemma_channel_energy_zero(p1: Seq<u8>, p2: Seq<u8>)
    requires
        p1.len() == p2.len(),
    ensures
        channel_energy(p1, p2) >= 0,
        channel_energy(p1, p2) == 0 <==> p1 == p2,
{
    lemma_channel_energy_upto_zero(p1, p2, p1.len());
    if channel_energy(p1, p2) == 0 {
        assert(p1 =~= p2);
    }
}

} // verus!

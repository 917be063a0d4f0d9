// This Source Code Form is subject to the terms of the Mozilla Public
// License, v. 2.0. If a copy of the MPL was not distributed with this
// file, You can obtain one at http://mozilla.org/MPL/2.0/.

//! The energy of an image by its colours, and an energy map rendered as
//! a grey image for looking at.

use crate::avisha1::{after, before};
use crate::imageview::{Image, ImageView};
use crate::pixelpairs::{channel_energy, channel_energy_upto, energy_of_pair, Pixel};
use crate::twodmap::{Plane, TwoDimensionalMap};
use vstd::prelude::*;

verus! {

/// The energy between two pixels by their colours: the sum of the
/// squared differences of red, green and blue.
///
/// ```text
///        |Δx|² = (Δrx)²+(Δgx)²+(Δbx)²
///        |Δy|² = (Δry)²+(Δgy)²+(Δby)²
///       e(x,y) = |Δx|²+|Δy|²
/// ```
pub open spec fn colour_energy(p1: Pixel, p2: Pixel) -> int {
    channel_energy(p1.rgb_spec(), p2.rgb_spec())
}

/// The energy of the pixel at `(x, y)` by colour: the energy between
/// its left and right neighbours plus the energy between its upper and
/// lower neighbours.  Where the image ends, the pixel itself stands for
/// the neighbour that is missing.
pub open spec fn pixel_colour_energy(image: Plane<Pixel>, x: int, y: int) -> int {
    colour_energy(image.at(before(x), y), image.at(after(x, image.width), y)) + colour_energy(
        image.at(x, before(y)),
        image.at(x, after(y, image.height)),
    )
}

/// The energy by colour of every pixel of an image.
pub open spec fn colour_energy_plane(image: Plane<Pixel>) -> Plane<u32> {
    Plane::from_fn(
        image.width,
        image.height,
        |x: int, y: int| pixel_colour_energy(image, x, y) as u32,
    )
}

/// The energy between two colours is the sum of three squares of
/// differences of 8-bit values.
pub proof fn lemma_colour_energy_bound(p1: Pixel, p2: Pixel)
    ensures
        0 <= colour_energy(p1, p2) <= 195075,
{
    let a = p1.rgb_spec();
    let b = p2.rgb_spec();
    reveal_with_fuel(channel_energy_upto, 4);
    let d0 = a[0] - b[0];
    let d1 = a[1] - b[1];
    let d2 = a[2] - b[2];
    assert(0 <= d0 * d0 <= 65025) by (nonlinear_arith)
        requires
            -255 <= d0 <= 255,
    ;
    assert(0 <= d1 * d1 <= 65025) by (nonlinear_arith)
        requires
            -255 <= d1 <= 255,
    ;
    assert(0 <= d2 * d2 <= 65025) by (nonlinear_arith)
        requires
            -255 <= d2 <= 255,
    ;
}

/// The colour energy map has the size of the image and holds at each
/// coordinate the colour energy of the pixel there.
pub proof fn lemma_colour_energy_plane(image: Plane<Pixel>)
    ensures
        colour_energy_plane(image).wf(),
        colour_energy_plane(image).width == image.width,
        colour_energy_plane(image).height == image.height,
        forall|x: int, y: int|
            image.contains(x, y) ==> #[trigger] colour_energy_plane(image).at(x, y)
                == pixel_colour_energy(image, x, y),
{
    Plane::lemma_from_fn(
        image.width,
        image.height,
        |x: int, y: int| pixel_colour_energy(image, x, y) as u32,
    );
    assert forall|x: int, y: int| image.contains(x, y) implies #[trigger] colour_energy_plane(
        image,
    ).at(x, y) == pixel_colour_energy(image, x, y) by {
        lemma_colour_energy_bound(image.at(before(x), y), image.at(after(x, image.width), y));
        lemma_colour_energy_bound(image.at(x, before(y)), image.at(x, after(y, image.height)));
    }
}

/// In an image of one colour no pixel has any colour energy.
pub proof fn lemma_uniform_image_has_no_colour_energy(image: Plane<Pixel>, colour: Pixel)
    requires
        image.wf(),
        forall|x: int, y: int| image.contains(x, y) ==> image.at(x, y) == colour,
    ensures
        forall|x: int, y: int|
            image.contains(x, y) ==> #[trigger] pixel_colour_energy(image, x, y) == 0,
        forall|x: int, y: int|
            image.contains(x, y) ==> #[trigger] colour_energy_plane(image).at(x, y) == 0,
{
    lemma_colour_energy_plane(image);
    crate::pixelpairs::lemma_channel_energy_zero(colour.rgb_spec(), colour.rgb_spec());
    assert forall|x: int, y: int| image.contains(x, y) implies #[trigger] pixel_colour_energy(
        image,
        x,
        y,
    ) == 0 by {
        assert(image.contains(before(x), y) && image.contains(after(x, image.width), y));
        assert(image.contains(x, before(y)) && image.contains(x, after(y, image.height)));
    }
}

/// The energy between two pixels by their colours.
fn energy_of_colours(p1: &Pixel, p2: &Pixel) -> (e: u32)
    ensures
        e == colour_energy(*p1, *p2),
        e <= 195075,
{
    let (c1, c2) = (p1.to_rgb(), p2.to_rgb());
    energy_of_pair(c1.as_slice(), c2.as_slice())
}

/// Compute the energy of every pixel in an image by its colours,
/// returning the energies row by row.
pub fn compute_energy<I: ImageView>(image: &I) -> (energies: Vec<u32>)
    requires
        image.valid(),
    ensures
        energies@ == colour_energy_plane(image.plane()).cells,
{
    let (width, height) = image.dimensions();
    let ghost plane = image.plane();
    proof {
        image.lemma_valid();
        lemma_colour_energy_plane(plane);
    }
    let mut emap: TwoDimensionalMap<u32> = TwoDimensionalMap::new(width, height);
    let mut y: u32 = 0;
    while y < height
        invariant
            y <= height,
            image.valid(),
            plane == image.plane(),
            plane.width == width,
            plane.height == height,
            emap.wf(),
            emap.width == width,
            emap.height == height,
            forall|i: int, j: int|
                0 <= i < width && 0 <= j < y ==> #[trigger] emap@.at(i, j) == pixel_colour_energy(
                    plane,
                    i,
                    j,
                ),
        decreases height - y,
    {
        let mut x: u32 = 0;
        while x < width
            invariant
                x <= width,
                y < height,
                image.valid(),
                plane == image.plane(),
                plane.width == width,
                plane.height == height,
                emap.wf(),
                emap.width == width,
                emap.height == height,
                forall|i: int, j: int|
                    0 <= i < width && 0 <= j < y ==> #[trigger] emap@.at(i, j)
                        == pixel_colour_energy(plane, i, j),
                forall|i: int|
                    0 <= i < x ==> #[trigger] emap@.at(i, y as int) == pixel_colour_energy(
                        plane,
                        i,
                        y as int,
                    ),
            decreases width - x,
        {
            let current_pixel = image.get_pixel(x, y);
            let leftpixel = if x == 0 {
                current_pixel
            } else {
                image.get_pixel(x - 1, y)
            };
            let rightpixel = if x >= width - 1 {
                current_pixel
            } else {
                image.get_pixel(x + 1, y)
            };
            let uppixel = if y == 0 {
                current_pixel
            } else {
                image.get_pixel(x, y - 1)
            };
            let downpixel = if y >= height - 1 {
                current_pixel
            } else {
                image.get_pixel(x, y + 1)
            };
            let e = energy_of_colours(&leftpixel, &rightpixel) + energy_of_colours(
                &uppixel,
                &downpixel,
            );
            emap.put_pt(x, y, e);
            x += 1;
        }
        y += 1;
    }
    proof {
        emap@.lemma_equal(colour_energy_plane(plane));
    }
    emap.energy
}

/// The largest of the first `n` values of a sequence, or 0 for none.
pub open spec fn largest_upto(energy: Seq<u32>, n: nat) -> u32
    decreases n,
{
    if n == 0 {
        0
    } else {
        let rest = largest_upto(energy, (n - 1) as nat);
        if energy[n - 1] > rest {
            energy[n - 1]
        } else {
            rest
        }
    }
}

/// The largest value of a sequence, or 0 for an empty one.
pub open spec fn largest(energy: Seq<u32>) -> u32 {
    largest_upto(energy, energy.len())
}

/// The grey value that stands for the energy `e` where `factor` is the
/// largest energy of the map: `e` as a part of `factor`, in 256 steps,
/// and no brighter than 255.
pub open spec fn shade(e: u32, factor: u32) -> u8 {
    if e * 256 / (factor as int) > 255 {
        255u8
    } else {
        (e * 256 / (factor as int)) as u8
    }
}

/// `largest_upto` is one of the first `n` values, and none of them is
/// larger.
pub proof fn lemma_largest_upto(energy: Seq<u32>, n: nat)
    requires
        n <= energy.len(),
    ensures
        forall|i: int| 0 <= i < n ==> #[trigger] energy[i] <= largest_upto(energy, n),
        n > 0 ==> exists|i: int| 0 <= i < n && #[trigger] energy[i] == largest_upto(energy, n),
    decreases n,
{
    if n > 0 {
        lemma_largest_upto(energy, (n - 1) as nat);
        if n > 1 && energy[n - 1] <= largest_upto(energy, (n - 1) as nat) {
            let i = choose|i: int|
                0 <= i < n - 1 && #[trigger] energy[i] == largest_upto(energy, (n - 1) as nat);
            assert(energy[i] == largest_upto(energy, n));
        } else {
            assert(energy[n - 1] == largest_upto(energy, n));
        }
    }
}

/// Render an energy map, given row by row, as a grey image of the given
/// size.  The largest energy of the map comes out white, no energy
/// black, and what lies between in proportion.  Pixels beyond the end
/// of the map stay black.
///
/// The map holds an energy that is not zero, and no more energies than
/// the image has pixels.
pub fn energy_to_image(energy: &[u32], width: u32, height: u32) -> (out: Image)
    requires
        energy@.len() <= width as int * height as int <= usize::MAX,
        largest(energy@) > 0,
    ensures
        out.wf(),
        out.width == width,
        out.height == height,
        forall|i: int|
            0 <= i < energy@.len() ==> #[trigger] out.energy@[i] == Pixel::Luma(
                shade(energy@[i], largest(energy@)),
            ),
        forall|i: int|
            energy@.len() <= i < out.energy@.len() ==> #[trigger] out.energy@[i] == Pixel::Luma(0),
{
    let mut out: Image = TwoDimensionalMap::filled(width, height, Pixel::Luma(0));
    let mut factor: u32 = 0;
    let mut i: usize = 0;
    while i < energy.len()
        invariant
            i <= energy@.len(),
            factor == largest_upto(energy@, i as nat),
        decreases energy@.len() - i,
    {
        if energy[i] > factor {
            factor = energy[i];
        }
        i += 1;
    }
    let mut i: usize = 0;
    while i < energy.len()
        invariant
            i <= energy@.len(),
            energy@.len() <= out.energy@.len(),
            factor == largest(energy@),
            factor > 0,
            out.wf(),
            out.width == width,
            out.height == height,
            forall|k: int|
                0 <= k < i ==> #[trigger] out.energy@[k] == Pixel::Luma(shade(energy@[k], factor)),
            forall|k: int| i <= k < out.energy@.len() ==> #[trigger] out.energy@[k] == Pixel::Luma(0),
        decreases energy@.len() - i,
    {
        let c: u64 = energy[i] as u64 * 256 / factor as u64;
        let cs: u8 = if c > 255 {
            255
        } else {
            c as u8
        };
        out.energy.set(i, Pixel::Luma(cs));
        i += 1;
    }
    out
}

} // verus!

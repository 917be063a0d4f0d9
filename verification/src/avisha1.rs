// This Source Code Form is subject to the terms of the Mozilla Public
// License, v. 2.0. If a copy of the MPL was not distributed with this
// file, You can obtain one at http://mozilla.org/MPL/2.0/.

//! Calculate the energy of an image
//!
//! Given an image, calculate the energy map and either a horizontal or
//! vertical seam for that image.  This is the most straightforward of
//! the energy map algorithms: the energy of a pixel is the distance
//! between its neighbours, and a seam costs the sum of the energies of
//! its pixels.

use crate::imageview::ImageView;
use crate::pixelpairs::{energy_of_pair_luma, lemma_luma_energy_zero, luma_energy, Pixel};
use crate::seamfinder::{
    energy_to_seam, is_seam, lemma_seam_of, parents_adjacent, parents_in_range, seam_of,
    SeamFinder,
};
use crate::twodmap::{EnergyAndBackPointer, EnergyMap, Plane, TwoDimensionalMap};
use vstd::prelude::*;

verus! {

// Image -> Energy Map

/// The coordinate before `i` on its axis, or `i` itself at the border.
pub open spec fn before(i: int) -> int {
    if i <= 0 {
        i
    } else {
        i - 1
    }
}

/// The coordinate after `i` on an axis of the given length, or `i`
/// itself at the border.
pub open spec fn after(i: int, length: nat) -> int {
    if i + 1 >= length {
        i
    } else {
        i + 1
    }
}

/// The energy of the pixel at `(x, y)`: the energy between its left and
/// right neighbours plus the energy between its upper and lower
/// neighbours.  Where the image ends, the pixel itself stands for the
/// neighbour that is missing.
pub open spec fn pixel_energy(image: Plane<Pixel>, x: int, y: int) -> int {
    luma_energy(image.at(before(x), y), image.at(after(x, image.width), y)) + luma_energy(
        image.at(x, before(y)),
        image.at(x, after(y, image.height)),
    )
}

/// The energy of every pixel of an image.
pub open spec fn energy_plane(image: Plane<Pixel>) -> Plane<u32> {
    Plane::from_fn(image.width, image.height, |x: int, y: int| pixel_energy(image, x, y) as u32)
}

/// The energy map has the size of the image and holds at each
/// coordinate the energy of the pixel there.
pub proof fn lemma_energy_plane(image: Plane<Pixel>)
    ensures
        energy_plane(image).wf(),
        energy_plane(image).width == image.width,
        energy_plane(image).height == image.height,
        forall|x: int, y: int|
            image.contains(x, y) ==> #[trigger] energy_plane(image).at(x, y) == pixel_energy(
                image,
                x,
                y,
            ),
{
    Plane::lemma_from_fn(
        image.width,
        image.height,
        |x: int, y: int| pixel_energy(image, x, y) as u32,
    );
    assert forall|x: int, y: int| image.contains(x, y) implies #[trigger] energy_plane(image).at(
        x,
        y,
    ) == pixel_energy(image, x, y) by {
        lemma_pixel_energy_bound(image, x, y);
    }
}

/// The energy of a pixel is the sum of two squares of differences of
/// 8-bit values.
pub proof fn lemma_pixel_energy_bound(image: Plane<Pixel>, x: int, y: int)
    ensures
        0 <= pixel_energy(image, x, y) <= 130050,
{
    let l = image.at(before(x), y).luma_spec();
    let r = image.at(after(x, image.width), y).luma_spec();
    let u = image.at(x, before(y)).luma_spec();
    let d = image.at(x, after(y, image.height)).luma_spec();
    assert(0 <= (l - r) * (l - r) <= 65025) by (nonlinear_arith)
        requires
            0 <= l <= 255,
            0 <= r <= 255,
    ;
    assert(0 <= (u - d) * (u - d) <= 65025) by (nonlinear_arith)
        requires
            0 <= u <= 255,
            0 <= d <= 255,
    ;
}

/// In an image of one colour no pixel has any energy.
pub proof fn lemma_uniform_image_has_no_energy(image: Plane<Pixel>, colour: Pixel)
    requires
        image.wf(),
        forall|x: int, y: int| image.contains(x, y) ==> image.at(x, y) == colour,
    ensures
        forall|x: int, y: int| image.contains(x, y) ==> #[trigger] pixel_energy(image, x, y) == 0,
        forall|x: int, y: int|
            image.contains(x, y) ==> #[trigger] energy_plane(image).at(x, y) == 0,
{
    lemma_energy_plane(image);
    assert forall|x: int, y: int| image.contains(x, y) implies #[trigger] pixel_energy(
        image,
        x,
        y,
    ) == 0 by {
        lemma_luma_energy_zero(colour, colour);
    }
}

/// Compute the energy of every pixel in an image.  This uses only the
/// greyscale calculator, and the energy formula is the base one.
pub fn calculate_energy<I: ImageView>(image: &I) -> (emap: TwoDimensionalMap<u32>)
    requires
        image.valid(),
    ensures
        emap.wf(),
        emap@ == energy_plane(image.plane()),
{
    let (width, height) = image.dimensions();
    let ghost plane = image.plane();
    proof {
        image.lemma_valid();
        lemma_energy_plane(plane);
    }
    let mut emap: TwoDimensionalMap<u32> = TwoDimensionalMap::new(width, height);
    let mut y: u32 = 0;
    while y < height
        invariant
            y <= height,
            image.valid(),
            plane == image.plane(),
            plane.width == width,
            plane.height == height,
            emap.wf(),
            emap.width == width,
            emap.height == height,
            forall|i: int, j: int|
                0 <= i < width && 0 <= j < y ==> #[trigger] emap@.at(i, j) == pixel_energy(
                    plane,
                    i,
                    j,
                ),
        decreases height - y,
    {
        let mut x: u32 = 0;
        while x < width
            invariant
                x <= width,
                y < height,
                image.valid(),
                plane == image.plane(),
                plane.width == width,
                plane.height == height,
                emap.wf(),
                emap.width == width,
                emap.height == height,
                forall|i: int, j: int|
                    0 <= i < width && 0 <= j < y ==> #[trigger] emap@.at(i, j) == pixel_energy(
                        plane,
                        i,
                        j,
                    ),
                forall|i: int|
                    0 <= i < x ==> #[trigger] emap@.at(i, y as int) == pixel_energy(
                        plane,
                        i,
                        y as int,
                    ),
            decreases width - x,
        {
            let current_pixel = image.get_pixel(x, y);
            let leftpixel = if x == 0 {
                current_pixel
            } else {
                image.get_pixel(x - 1, y)
            };
            let rightpixel = if x >= width - 1 {
                current_pixel
            } else {
                image.get_pixel(x + 1, y)
            };
            let uppixel = if y == 0 {
                current_pixel
            } else {
                image.get_pixel(x, y - 1)
            };
            let downpixel = if y >= height - 1 {
                current_pixel
            } else {
                image.get_pixel(x, y + 1)
            };
            let e = energy_of_pair_luma(&leftpixel, &rightpixel) + energy_of_pair_luma(
                &uppixel,
                &downpixel,
            );
            emap.put_pt(x, y, e);
            x += 1;
        }
        y += 1;
    }
    proof {
        emap@.lemma_equal(energy_plane(plane));
    }
    emap
}

// Energy Map -> Seam

/// The costs of row `y` are compared over windows of columns; this names
/// the cheapest column among `lo..=lo + n`, the leftmost of several.
pub open spec fn cheapest_from(energy: Plane<u32>, y: int, lo: int, n: nat) -> int
    decreases y, n + 1,
{
    if n == 0 {
        lo
    } else {
        let m = cheapest_from(energy, y, lo, (n - 1) as nat);
        if path_cost(energy, lo + n, y) < path_cost(energy, m, y) {
            lo + n
        } else {
            m
        }
    }
}

/// The first column of the window above column `x`.
pub open spec fn window_lo(x: int) -> int {
    if x <= 0 {
        0
    } else {
        x - 1
    }
}

/// How many columns follow the first in the window above column `x` of
/// a map `width` wide.
pub open spec fn window_len(x: int, width: nat) -> nat {
    let hi = if x + 1 >= width {
        width - 1
    } else {
        x + 1
    };
    if hi >= window_lo(x) {
        (hi - window_lo(x)) as nat
    } else {
        0
    }
}

/// The column in row `y - 1` from which the cheapest path reaches
/// `(x, y)`: the cheapest of the up to three cells above, the leftmost
/// of several.
pub open spec fn path_parent(energy: Plane<u32>, x: int, y: int) -> int
    decreases y, 0nat,
{
    if y <= 0 {
        0
    } else {
        cheapest_from(energy, y - 1, window_lo(x), window_len(x, energy.width))
    }
}

/// The cost of the cheapest path from the first row to `(x, y)`: the
/// energy at `(x, y)`, and below the first row the cost of the cheapest
/// of the up to three cells above on top of it.
pub open spec fn path_cost(energy: Plane<u32>, x: int, y: int) -> int
    decreases y, 0nat,
{
    if y <= 0 {
        energy.at(x, 0) as int
    } else {
        energy.at(x, y) + path_cost(
            energy,
            cheapest_from(energy, y - 1, window_lo(x), window_len(x, energy.width)),
            y - 1,
        )
    }
}

/// The cost and the back-pointer of `(x, y)` as the cost map holds them.
pub open spec fn path_cell(energy: Plane<u32>, x: int, y: int) -> EnergyAndBackPointer<u64> {
    EnergyAndBackPointer {
        energy: path_cost(energy, x, y) as u64,
        parent: path_parent(energy, x, y) as u32,
    }
}

/// The cost map of an energy map: for each coordinate the cost of the
/// cheapest path to it and the column that the path comes from.
pub open spec fn path_costs(energy: Plane<u32>) -> Plane<EnergyAndBackPointer<u64>> {
    Plane::from_fn(energy.width, energy.height, |x: int, y: int| path_cell(energy, x, y))
}

/// `cheapest_from` names a column of the window that no column of the
/// window undercuts and that every column of the window to its left
/// exceeds.
pub proof fn lemma_cheapest_from(energy: Plane<u32>, y: int, lo: int, n: nat)
    ensures
        lo <= cheapest_from(energy, y, lo, n) <= lo + n,
        forall|x: int|
            lo <= x <= lo + n ==> path_cost(energy, cheapest_from(energy, y, lo, n), y)
                <= #[trigger] path_cost(energy, x, y),
        forall|x: int|
            lo <= x < cheapest_from(energy, y, lo, n) ==> path_cost(
                energy,
                cheapest_from(energy, y, lo, n),
                y,
            ) < #[trigger] path_cost(energy, x, y),
    decreases n,
{
    if n > 0 {
        lemma_cheapest_from(energy, y, lo, (n - 1) as nat);
    }
}

/// The back-pointer of a cell below the first row names a column of the
/// map, the cell's own or one next to it.
pub proof fn lemma_path_parent(energy: Plane<u32>, x: int, y: int)
    requires
        energy.contains(x, y),
        y >= 1,
    ensures
        0 <= path_parent(energy, x, y) < energy.width,
        x - 1 <= path_parent(energy, x, y) <= x + 1,
{
    lemma_cheapest_from(energy, y - 1, window_lo(x), window_len(x, energy.width));
}

/// A path to row `y` costs no more than `y + 1` energies.
pub proof fn lemma_path_cost_bound(energy: Plane<u32>, x: int, y: int)
    ensures
        0 <= path_cost(energy, x, y) <= (if y <= 0 {
            1
        } else {
            y + 1
        }) * u32::MAX,
    decreases y,
{
    if y > 0 {
        let p = cheapest_from(energy, y - 1, window_lo(x), window_len(x, energy.width));
        lemma_path_cost_bound(energy, p, y - 1);
    }
}

/// The cost map has the size of the energy map and holds at each
/// coordinate the cost of the cheapest path and its back-pointer; its
/// back-pointers are in range and adjacent.
pub proof fn lemma_path_costs(energy: Plane<u32>)
    requires
        energy.width <= u32::MAX,
        energy.height <= u32::MAX,
    ensures
        path_costs(energy).wf(),
        path_costs(energy).width == energy.width,
        path_costs(energy).height == energy.height,
        forall|x: int, y: int|
            energy.contains(x, y) ==> #[trigger] path_costs(energy).at(x, y) == path_cell(
                energy,
                x,
                y,
            ),
        forall|x: int, y: int|
            energy.contains(x, y) ==> (#[trigger] path_costs(energy).at(x, y)).energy == path_cost(
                energy,
                x,
                y,
            ),
        forall|x: int, y: int|
            energy.contains(x, y) ==> (#[trigger] path_costs(energy).at(x, y)).parent
                == path_parent(energy, x, y),
        parents_in_range(path_costs(energy)),
        parents_adjacent(path_costs(energy)),
{
    Plane::lemma_from_fn(energy.width, energy.height, |x: int, y: int| path_cell(energy, x, y));
    let costs = path_costs(energy);
    assert forall|x: int, y: int| energy.contains(x, y) implies (#[trigger] costs.at(x, y)).energy
        == path_cost(energy, x, y) && costs.at(x, y).parent == path_parent(energy, x, y) by {
        lemma_path_cost_bound(energy, x, y);
        assert((y + 1) * u32::MAX <= u64::MAX) by (nonlinear_arith)
            requires
                0 <= y < u32::MAX,
        ;
        if y >= 1 {
            lemma_path_parent(energy, x, y);
        }
    }
    assert forall|x: int, y: int| costs.contains(x, y) && y >= 1 implies (#[trigger] costs.at(
        x,
        y,
    )).parent < costs.width && x - 1 <= costs.at(x, y).parent <= x + 1 by {
        lemma_path_parent(energy, x, y);
    }
}

/// The energy that a seam takes out of the first `rows` rows of an
/// energy map: the sum of the energies of its cells in those rows.
pub open spec fn seam_energy(energy: Plane<u32>, seam: Seq<u32>, rows: nat) -> int
    decreases rows,
{
    if rows == 0 {
        0
    } else {
        seam_energy(energy, seam, (rows - 1) as nat) + energy.at(seam[rows - 1] as int, rows - 1)
    }
}

/// No seam reaches a cell for less than the cost that the cost map
/// holds for the cell: the part of a seam down to row `y` takes out at
/// least `path_cost` at the cell where it arrives.
pub proof fn lemma_path_cost_is_least(energy: Plane<u32>, seam: Seq<u32>, y: int)
    requires
        is_seam(seam, energy.width, energy.height),
        0 <= y < energy.height,
    ensures
        path_cost(energy, seam[y] as int, y) <= seam_energy(energy, seam, (y + 1) as nat),
    decreases y,
{
    if y > 0 {
        lemma_path_cost_is_least(energy, seam, y - 1);
        let x = seam[y] as int;
        lemma_cheapest_from(energy, y - 1, window_lo(x), window_len(x, energy.width));
        assert(seam_energy(energy, seam, y as nat) == seam_energy(energy, seam, (y - 1) as nat)
            + energy.at(seam[y - 1] as int, y - 1));
    } else {
        assert(seam_energy(energy, seam, 0) == 0);
    }
}

/// The seam that the cost map holds takes out, down to each row, just
/// the cost that the map holds for the cell where it arrives.
pub proof fn lemma_seam_energy_of_traced(energy: Plane<u32>, y: int)
    requires
        energy.wf(),
        1 <= energy.width <= u32::MAX,
        1 <= energy.height <= u32::MAX,
        0 <= y < energy.height,
    ensures
        seam_energy(energy, seam_of(path_costs(energy)), (y + 1) as nat) == path_cost(
            energy,
            seam_of(path_costs(energy))[y] as int,
            y,
        ),
    decreases y,
{
    let costs = path_costs(energy);
    let seam = seam_of(costs);
    lemma_path_costs(energy);
    lemma_seam_of(costs);
    if y > 0 {
        lemma_seam_energy_of_traced(energy, y - 1);
    } else {
        assert(seam_energy(energy, seam, 0) == 0);
    }
}

/// The seam from top to bottom that is read off the cost map of an
/// energy map is a cheapest one: no seam through the map takes out less
/// energy.
pub proof fn lemma_vertical_seam_is_cheapest(energy: Plane<u32>, other: Seq<u32>)
    requires
        energy.wf(),
        1 <= energy.width <= u32::MAX,
        1 <= energy.height <= u32::MAX,
        is_seam(other, energy.width, energy.height),
    ensures
        seam_energy(energy, seam_of(path_costs(energy)), energy.height) <= seam_energy(
            energy,
            other,
            energy.height,
        ),
{
    let costs = path_costs(energy);
    let seam = seam_of(costs);
    let last = energy.height - 1;
    lemma_path_costs(energy);
    lemma_seam_of(costs);
    lemma_seam_energy_of_traced(energy, last);
    lemma_path_cost_is_least(energy, other, last);
    crate::seamfinder::lemma_cheapest_upto(costs, last, energy.width - 1);
    assert(costs.at(seam[last] as int, last).energy <= costs.at(other[last] as int, last).energy);
}

/// The seam from left to right is a cheapest one too: it is the seam
/// from top to bottom of the map mirrored at its diagonal, where the
/// seams from left to right are the seams from top to bottom.
pub proof fn lemma_horizontal_seam_is_cheapest(energy: Plane<u32>, other: Seq<u32>)
    requires
        energy.wf(),
        1 <= energy.width <= u32::MAX,
        1 <= energy.height <= u32::MAX,
        is_seam(other, energy.height, energy.width),
    ensures
        seam_energy(
            energy.transposed(),
            seam_of(path_costs(energy.transposed())),
            energy.width,
        ) <= seam_energy(energy.transposed(), other, energy.width),
{
    energy.lemma_transposed();
    lemma_vertical_seam_is_cheapest(energy.transposed(), other);
}

/// The cost map of an energy map: for each coordinate the cost of the
/// cheapest path from the first row to it, and the column in the row
/// above that the path comes from, the leftmost of several.
pub fn cumulative_costs(energy: &TwoDimensionalMap<u32>) -> (target: EnergyMap)
    requires
        energy.wf(),
        energy.width >= 1,
        energy.height >= 1,
    ensures
        target.wf(),
        target@ == path_costs(energy@),
        parents_in_range(target@),
        parents_adjacent(target@),
{
    let (width, height) = (energy.width, energy.height);
    let ghost e = energy@;
    proof {
        assert(energy.energy@.len() == energy.energy.len());
        lemma_path_costs(e);
    }
    let mut target: EnergyMap = TwoDimensionalMap::filled(
        width,
        height,
        EnergyAndBackPointer { energy: 0, parent: 0 },
    );

    // Populate the first row with their native energies.
    let mut i: u32 = 0;
    while i < width
        invariant
            i <= width,
            width == energy.width,
            height == energy.height,
            height >= 1,
            energy.wf(),
            e == energy@,
            target.wf(),
            target.width == width,
            target.height == height,
            forall|k: int| 0 <= k < i ==> #[trigger] target@.at(k, 0) == path_cell(e, k, 0),
        decreases width - i,
    {
        target.put_pt(i, 0, EnergyAndBackPointer { energy: energy.get_pt(i, 0) as u64, parent: 0 });
        i += 1;
    }

    let maxwidth = width - 1;
    // For every subsequent row, populate the target cell with the sum
    // of the *lowest adjacent upper energy* and the *x coordinate of
    // that energy*
    let mut y: u32 = 1;
    while y < height
        invariant
            1 <= y <= height,
            width == energy.width,
            height == energy.height,
            width >= 1,
            maxwidth == width - 1,
            energy.wf(),
            e == energy@,
            target.wf(),
            target.width == width,
            target.height == height,
            forall|k: int, j: int|
                0 <= k < width && 0 <= j < y ==> #[trigger] target@.at(k, j) == path_cell(e, k, j),
        decreases height - y,
    {
        let mut x: u32 = 0;
        while x < width
            invariant
                x <= width,
                1 <= y < height,
                width == energy.width,
                height == energy.height,
                width >= 1,
                maxwidth == width - 1,
                energy.wf(),
                e == energy@,
                target.wf(),
                target.width == width,
                target.height == height,
                forall|k: int, j: int|
                    0 <= k < width && 0 <= j < y ==> #[trigger] target@.at(k, j) == path_cell(
                        e,
                        k,
                        j,
                    ),
                forall|k: int| 0 <= k < x ==> #[trigger] target@.at(k, y as int) == path_cell(e, k, y as int),
            decreases width - x,
        {
            let erg = energy.get_pt(x, y);
            let lo: u32 = if x == 0 {
                0
            } else {
                x - 1
            };
            let hi: u32 = if x == maxwidth {
                maxwidth
            } else {
                x + 1
            };
            let mut parent_x: u32 = lo;
            let mut c: u32 = lo;
            while c < hi
                invariant
                    lo <= c <= hi,
                    hi < width,
                    1 <= y < height,
                    width == energy.width,
                    height == energy.height,
                    e == energy@,
                    target.wf(),
                    target.width == width,
                    target.height == height,
                    forall|k: int, j: int|
                        0 <= k < width && 0 <= j < y ==> #[trigger] target@.at(k, j) == path_cell(
                            e,
                            k,
                            j,
                        ),
                    lo <= parent_x <= c,
                    parent_x == cheapest_from(e, y - 1, lo as int, (c - lo) as nat),
                decreases hi - c,
            {
                c += 1;
                proof {
                    lemma_cell_cost(e, c as int, y - 1);
                    lemma_cell_cost(e, parent_x as int, y - 1);
                }
                if target.get_pt(c, y - 1).energy < target.get_pt(parent_x, y - 1).energy {
                    parent_x = c;
                }
            }
            let parent = target.get_pt(parent_x, y - 1);
            proof {
                lemma_cell_cost(e, parent_x as int, y - 1);
                lemma_cell_cost(e, x as int, y as int);
            }
            target.put_pt(x, y, EnergyAndBackPointer { energy: erg as u64 + parent.energy, parent: parent_x });
            x += 1;
        }
        y += 1;
    }
    proof {
        target@.lemma_equal(path_costs(e));
    }
    target
}

/// The cost of a path to a row of a map fits 64 bits, so the cost map
/// holds it as it is.
proof fn lemma_cell_cost(energy: Plane<u32>, x: int, y: int)
    requires
        0 <= y < u32::MAX,
    ensures
        path_cell(energy, x, y).energy == path_cost(energy, x, y),
        0 <= path_cost(energy, x, y) <= u64::MAX - u32::MAX,
{
    lemma_path_cost_bound(energy, x, y);
    assert((y + 1) * u32::MAX <= u64::MAX - u32::MAX) by (nonlinear_arith)
        requires
            0 <= y < u32::MAX,
    ;
}

/// Given an energy map, return the list of x-coordinates that, when
/// mapped with the range (0..height), give the XY coordinates for each
/// pixel in the seam to be removed.
///
/// The seam is the cheapest connected path from the first row to the
/// last as the cost map of the energy map records it.
pub fn energy_to_vertical_seam(energy: &TwoDimensionalMap<u32>) -> (seam: Vec<u32>)
    requires
        energy.wf(),
        energy.width >= 1,
        energy.height >= 1,
    ensures
        seam@ == seam_of(path_costs(energy@)),
        is_seam(seam@, energy.width as nat, energy.height as nat),
        forall|other: Seq<u32>|
            is_seam(other, energy.width as nat, energy.height as nat) ==> seam_energy(
                energy@,
                seam@,
                energy.height as nat,
            ) <= #[trigger] seam_energy(energy@, other, energy.height as nat),
{
    proof {
        lemma_path_costs(energy@);
        assert forall|other: Seq<u32>|
            is_seam(other, energy.width as nat, energy.height as nat) implies seam_energy(
            energy@,
            seam_of(path_costs(energy@)),
            energy.height as nat,
        ) <= #[trigger] seam_energy(energy@, other, energy.height as nat) by {
            lemma_vertical_seam_is_cheapest(energy@, other);
        }
    }
    let target = cumulative_costs(energy);
    energy_to_seam(&target)
}

/// Given an energy map, return the list of y-coordinates that, when
/// mapped with the range (0..width), give the XY coordinates for each
/// pixel in the seam to be removed.
///
/// The seam is the vertical seam of the map mirrored at its diagonal.
pub fn energy_to_horizontal_seam(energy: &TwoDimensionalMap<u32>) -> (seam: Vec<u32>)
    requires
        energy.wf(),
        energy.width >= 1,
        energy.height >= 1,
    ensures
        seam@ == seam_of(path_costs(energy@.transposed())),
        is_seam(seam@, energy.height as nat, energy.width as nat),
        forall|other: Seq<u32>|
            is_seam(other, energy.height as nat, energy.width as nat) ==> seam_energy(
                energy@.transposed(),
                seam@,
                energy.width as nat,
            ) <= #[trigger] seam_energy(energy@.transposed(), other, energy.width as nat),
{
    let flipped = energy.transposed();
    energy_to_vertical_seam(&flipped)
}

/// A convenience wrapper: Given an image, get back a vector with the
/// next top-to-bottom seam for that image.
pub fn calculate_vertical_seam<I: ImageView>(image: &I) -> (seam: Vec<u32>)
    requires
        image.valid(),
        image.plane().width >= 1,
        image.plane().height >= 1,
    ensures
        seam@ == seam_of(path_costs(energy_plane(image.plane()))),
        is_seam(seam@, image.plane().width, image.plane().height),
        forall|other: Seq<u32>|
            is_seam(other, image.plane().width, image.plane().height) ==> seam_energy(
                energy_plane(image.plane()),
                seam@,
                image.plane().height,
            ) <= #[trigger] seam_energy(energy_plane(image.plane()), other, image.plane().height),
{
    proof {
        lemma_energy_plane(image.plane());
    }
    energy_to_vertical_seam(&calculate_energy(image))
}

/// A convenience wrapper: Given an image, get back a vector with the
/// next left-to-right seam for that image.
pub fn calculate_horizontal_seam<I: ImageView>(image: &I) -> (seam: Vec<u32>)
    requires
        image.valid(),
        image.plane().width >= 1,
        image.plane().height >= 1,
    ensures
        seam@ == seam_of(path_costs(energy_plane(image.plane()).transposed())),
        is_seam(seam@, image.plane().height, image.plane().width),
        forall|other: Seq<u32>|
            is_seam(other, image.plane().height, image.plane().width) ==> seam_energy(
                energy_plane(image.plane()).transposed(),
                seam@,
                image.plane().width,
            ) <= #[trigger] seam_energy(
                energy_plane(image.plane()).transposed(),
                other,
                image.plane().width,
            ),
{
    proof {
        lemma_energy_plane(image.plane());
    }
    energy_to_horizontal_seam(&calculate_energy(image))
}

/// The basic seam engine: just a simple image reference holder.
pub struct AviShaOne<'a, I: ImageView> {
    image: &'a I,
}

impl<'a, I: ImageView> AviShaOne<'a, I> {
    /// Takes a reference to an image, and holds onto it.
    pub fn new(image: &'a I) -> (finder: Self)
        ensures
            finder.image() == image,
    {
        AviShaOne { image }
    }

    /// The image that the finder holds.
    pub closed spec fn image(&self) -> &'a I {
        self.image
    }
}

impl<'a, I: ImageView> SeamFinder for AviShaOne<'a, I> {
    open spec fn image_width(&self) -> nat {
        self.image().plane().width
    }

    open spec fn image_height(&self) -> nat {
        self.image().plane().height
    }

    open spec fn has_vertical_seam(&self) -> bool {
        self.image().valid() && self.image_width() >= 1 && self.image_height() >= 1
    }

    open spec fn has_horizontal_seam(&self) -> bool {
        self.has_vertical_seam()
    }

    open spec fn vertical_seam(&self) -> Seq<u32> {
        seam_of(path_costs(energy_plane(self.image().plane())))
    }

    open spec fn horizontal_seam(&self) -> Seq<u32> {
        seam_of(path_costs(energy_plane(self.image().plane()).transposed()))
    }

    open spec fn vertical_cost(&self, seam: Seq<u32>) -> int {
        seam_energy(energy_plane(self.image().plane()), seam, self.image_height())
    }

    open spec fn horizontal_cost(&self, seam: Seq<u32>) -> int {
        seam_energy(energy_plane(self.image().plane()).transposed(), seam, self.image_width())
    }

    fn find_horizontal_seam(&self) -> (seam: Vec<u32>) {
        calculate_horizontal_seam(self.image)
    }

    fn find_vertical_seam(&self) -> (seam: Vec<u32>) {
        calculate_vertical_seam(self.image)
    }
}

} // verus!

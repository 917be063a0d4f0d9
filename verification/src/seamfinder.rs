// This Source Code Form is subject to the terms of the Mozilla Public
// License, v. 2.0. If a copy of the MPL was not distributed with this
// file, You can obtain one at http://mozilla.org/MPL/2.0/.

//! What a seam is, how one is asked for, and how one is read off a map
//! of costs and back-pointers.

use crate::twodmap::{EnergyAndBackPointer, EnergyMap, Plane};
use vstd::prelude::*;

verus! {

/// A seam through a field `width` wide: one coordinate per line,
/// `length` of them, each inside the field, and each at most one step
/// away from the one before.
pub open spec fn is_seam(seam: Seq<u32>, width: nat, length: nat) -> bool {
    &&& seam.len() == length
    &&& forall|i: int| 0 <= i < seam.len() ==> #[trigger] seam[i] < width
    &&& forall|i: int|
        0 <= i < seam.len() - 1 ==> seam[i] - 1 <= #[trigger] seam[i + 1] <= seam[i] + 1
}

/// This trait defines how seams are returned from an image.  It is a
/// primitive interface, just enough to make room for multiple seam
/// carvers as well as caching.
pub trait SeamFinder {
    /// The width of the image that the finder holds.
    spec fn image_width(&self) -> nat;

    /// The height of the image that the finder holds.
    spec fn image_height(&self) -> nat;

    /// Whether the image is one through which this finder can lay a
    /// seam from top to bottom.
    spec fn has_vertical_seam(&self) -> bool;

    /// Whether the image is one through which this finder can lay a
    /// seam from left to right.
    spec fn has_horizontal_seam(&self) -> bool;

    /// The seam from top to bottom that this finder picks: for each row
    /// the column to take out.
    spec fn vertical_seam(&self) -> Seq<u32>;

    /// The seam from left to right that this finder picks: for each
    /// column the row to take out.
    spec fn horizontal_seam(&self) -> Seq<u32>;

    /// What it costs, by the measure of this finder, to take a seam
    /// from top to bottom out of the image.
    spec fn vertical_cost(&self, seam: Seq<u32>) -> int;

    /// What it costs, by the measure of this finder, to take a seam
    /// from left to right out of the image.
    spec fn horizontal_cost(&self, seam: Seq<u32>) -> int;

    /// Once a SeamFinder has an image (or whatever it needs to make a
    /// rational decision), request a horizontal seam.
    ///
    /// The seam has one row for each column, and no seam from left to
    /// right costs less.
    fn find_horizontal_seam(&self) -> (seam: Vec<u32>)
        requires
            self.has_horizontal_seam(),
        ensures
            seam@ == self.horizontal_seam(),
            is_seam(seam@, self.image_height(), self.image_width()),
            forall|other: Seq<u32>|
                is_seam(other, self.image_height(), self.image_width()) ==> self.horizontal_cost(
                    seam@,
                ) <= #[trigger] self.horizontal_cost(other),
    ;

    /// Request a vertical seam.
    ///
    /// The seam has one column for each row, and no seam from top to
    /// bottom costs less.
    fn find_vertical_seam(&self) -> (seam: Vec<u32>)
        requires
            self.has_vertical_seam(),
        ensures
            seam@ == self.vertical_seam(),
            is_seam(seam@, self.image_width(), self.image_height()),
            forall|other: Seq<u32>|
                is_seam(other, self.image_width(), self.image_height()) ==> self.vertical_cost(
                    seam@,
                ) <= #[trigger] self.vertical_cost(other),
    ;
}

/// Every back-pointer below the first row names a column of the map.
pub open spec fn parents_in_range(costs: Plane<EnergyAndBackPointer<u64>>) -> bool {
    forall|x: int, y: int|
        costs.contains(x, y) && y >= 1 ==> (#[trigger] costs.at(x, y)).parent < costs.width
}

/// Every back-pointer below the first row names the column of its own
/// cell or one next to it.
pub open spec fn parents_adjacent(costs: Plane<EnergyAndBackPointer<u64>>) -> bool {
    forall|x: int, y: int|
        costs.contains(x, y) && y >= 1 ==> x - 1 <= (#[trigger] costs.at(x, y)).parent <= x + 1
}

/// The cheapest cell of row `y` among the columns `0..=hi`; of several
/// equally cheap ones the leftmost.
pub open spec fn cheapest_upto(costs: Plane<EnergyAndBackPointer<u64>>, y: int, hi: int) -> int
    decreases hi,
{
    if hi <= 0 {
        0
    } else {
        let m = cheapest_upto(costs, y, hi - 1);
        if costs.at(hi, y).energy < costs.at(m, y).energy {
            hi
        } else {
            m
        }
    }
}

/// Where the seam ends: the cheapest cell of the last row, the leftmost
/// of several.
pub open spec fn terminal(costs: Plane<EnergyAndBackPointer<u64>>) -> int {
    cheapest_upto(costs, costs.height - 1, costs.width - 1)
}

/// The column of the seam in row `y`: the terminal in the last row, and
/// above it what the back-pointer of the seam's cell one row below says.
pub open spec fn traced(costs: Plane<EnergyAndBackPointer<u64>>, y: int) -> int
    decreases costs.height - y,
{
    if y >= costs.height - 1 {
        terminal(costs)
    } else {
        costs.at(traced(costs, y + 1), y + 1).parent as int
    }
}

/// The seam that a map of costs and back-pointers holds, from the first
/// row to the last.
pub open spec fn seam_of(costs: Plane<EnergyAndBackPointer<u64>>) -> Seq<u32> {
    Seq::new(costs.height, |y: int| traced(costs, y) as u32)
}

/// `cheapest_upto` names a column in `0..=hi` that no column in that
/// range undercuts and that every column to its left exceeds.
pub proof fn lemma_cheapest_upto(costs: Plane<EnergyAndBackPointer<u64>>, y: int, hi: int)
    requires
        0 <= hi,
    ensures
        0 <= cheapest_upto(costs, y, hi) <= hi,
        forall|x: int|
            0 <= x <= hi ==> costs.at(cheapest_upto(costs, y, hi), y).energy <= (#[trigger] costs.at(
                x,
                y,
            )).energy,
        forall|x: int|
            0 <= x < cheapest_upto(costs, y, hi) ==> costs.at(cheapest_upto(costs, y, hi), y).energy
                < (#[trigger] costs.at(x, y)).energy,
    decreases hi,
{
    if hi > 0 {
        lemma_cheapest_upto(costs, y, hi - 1);
    }
}

/// The seam of a map whose back-pointers are in range has one column per
/// row, each inside the map; it ends at the cheapest cell of the last
/// row, and each of its cells is the one that the back-pointer below it
/// names.  Where the back-pointers are adjacent, it is connected.
pub proof fn lemma_seam_of(costs: Plane<EnergyAndBackPointer<u64>>)
    requires
        1 <= costs.width <= u32::MAX,
        costs.height >= 1,
        parents_in_range(costs),
    ensures
        seam_of(costs).len() == costs.height,
        forall|y: int| 0 <= y < costs.height ==> #[trigger] seam_of(costs)[y] == traced(costs, y),
        forall|y: int| 0 <= y < costs.height ==> 0 <= #[trigger] traced(costs, y) < costs.width,
        seam_of(costs)[costs.height - 1] == terminal(costs),
        forall|y: int|
            0 <= y < costs.height - 1 ==> #[trigger] seam_of(costs)[y] == costs.at(
                seam_of(costs)[y + 1] as int,
                y + 1,
            ).parent,
        parents_adjacent(costs) ==> is_seam(seam_of(costs), costs.width, costs.height),
{
    lemma_traced_in_range(costs, 0);
}

/// From row `from` down, the traced columns lie inside the map.
proof fn lemma_traced_in_range(costs: Plane<EnergyAndBackPointer<u64>>, from: int)
    requires
        costs.width >= 1,
        costs.height >= 1,
        parents_in_range(costs),
        0 <= from,
    ensures
        forall|y: int| from <= y < costs.height ==> 0 <= #[trigger] traced(costs, y) < costs.width,
    decreases costs.height - from,
{
    lemma_cheapest_upto(costs, costs.height - 1, costs.width - 1);
    if from < costs.height - 1 {
        lemma_traced_in_range(costs, from + 1);
        assert(costs.contains(traced(costs, from + 1), from + 1));
    }
}

/// Given a map of costs and back-pointers, return the list of
/// x-coordinates that, when mapped with the range (0..height), give the
/// XY coordinates for each pixel in the seam to be removed.
///
/// The seam ends at the cheapest cell of the last row, the leftmost of
/// several, and follows the back-pointers up to the first row.
pub fn energy_to_seam(energy: &EnergyMap) -> (seam: Vec<u32>)
    requires
        energy.wf(),
        energy.width >= 1,
        energy.height >= 1,
        parents_in_range(energy@),
    ensures
        seam@ == seam_of(energy@),
        seam@.len() == energy.height,
        forall|y: int| 0 <= y < seam@.len() ==> #[trigger] seam@[y] < energy.width,
        forall|x: int|
            0 <= x < energy.width ==> energy@.at(
                seam@[energy.height - 1] as int,
                energy.height - 1,
            ).energy <= (#[trigger] energy@.at(x, energy.height - 1)).energy,
        forall|x: int|
            0 <= x < seam@[energy.height - 1] ==> energy@.at(
                seam@[energy.height - 1] as int,
                energy.height - 1,
            ).energy < (#[trigger] energy@.at(x, energy.height - 1)).energy,
        forall|y: int|
            0 <= y < energy.height - 1 ==> #[trigger] seam@[y] == energy@.at(
                seam@[y + 1] as int,
                y + 1,
            ).parent,
        parents_adjacent(energy@) ==> is_seam(seam@, energy.width as nat, energy.height as nat),
{
    let (width, height) = (energy.width, energy.height);
    let ghost costs = energy@;
    proof {
        lemma_seam_of(costs);
        lemma_cheapest_upto(costs, height - 1, width - 1);
    }

    // Find the x coordinate of the bottommost cell with the least energy.
    let mut seam_col: u32 = 0;
    let mut x: u32 = 1;
    while x < width
        invariant
            1 <= x <= width,
            width == energy.width,
            height == energy.height,
            height >= 1,
            energy.wf(),
            costs == energy@,
            seam_col == cheapest_upto(costs, height - 1, x - 1),
            seam_col < x,
        decreases width - x,
    {
        if energy.get_pt(x, height - 1).energy < energy.get_pt(seam_col, height - 1).energy {
            seam_col = x;
        }
        x += 1;
    }

    // Working backwards, generate a vec of x coordinates that map to
    // the seam, reverse and return.
    let mut upward: Vec<u32> = Vec::with_capacity(height as usize);
    let mut y: u32 = height;
    while y > 0
        invariant
            0 <= y <= height,
            width == energy.width,
            height == energy.height,
            height >= 1,
            width >= 1,
            energy.wf(),
            costs == energy@,
            parents_in_range(costs),
            upward@.len() == height - y,
            forall|k: int| 0 <= k < upward@.len() ==> #[trigger] upward@[k] == traced(costs, height - 1 - k),
            forall|j: int| 0 <= j < height ==> 0 <= #[trigger] traced(costs, j) < width,
            y > 0 ==> seam_col == traced(costs, y - 1),
        decreases y,
    {
        y -= 1;
        upward.push(seam_col);
        if y > 0 {
            seam_col = energy.get_pt(seam_col, y).parent;
        }
    }
    let mut seam: Vec<u32> = Vec::with_capacity(height as usize);
    let mut i: usize = 0;
    while i < height as usize
        invariant
            i <= height,
            height == energy.height,
            upward@.len() == height,
            costs == energy@,
            seam@.len() == i,
            forall|k: int| 0 <= k < upward@.len() ==> #[trigger] upward@[k] == traced(costs, height - 1 - k),
            forall|k: int| 0 <= k < i ==> #[trigger] seam@[k] == traced(costs, k),
        decreases height - i,
    {
        seam.push(upward[height as usize - 1 - i]);
        i += 1;
    }
    seam
}

} // verus!

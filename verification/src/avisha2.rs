// This Source Code Form is subject to the terms of the Mozilla Public
// License, v. 2.0. If a copy of the MPL was not distributed with this
// file, You can obtain one at http://mozilla.org/MPL/2.0/.

//! Calculate the energy of an image using the Avidan & Shamir
//! "Forward Energy" algorithm.
//!
//! Given an image, calculate the cost map and either a horizontal or
//! vertical seam for that image.  The cost of a seam is not the energy
//! of the pixels that it takes out but the energy of the edges that
//! taking it out brings about.
//!
//! 1. Given a pixel coordinate *not* in the first row,
//! 2. there exist three possible seams to which that pixel contributes.
//! 3. Calculate the cost of reaching this pixel given those three seams,
//! 4. and return the pair of (lowest cost, which parent).
//!
//! With `D[a, b]` the energy between the pixels at `a` and `b`, the
//! costs of coming from the left, from straight above and from the
//! right are
//!
//! ```text
//!  CL(x,y) = D[(x-1,y),(x+1,y)] + D[(x,y-1),(x-1,y)]
//!  CU(x,y) = D[(x-1,y),(x+1,y)]
//!  CR(x,y) = D[(x-1,y),(x+1,y)] + D[(x,y-1),(x+1,y)]
//! ```
//!
//! and the cost of a pixel is
//!
//! ```text
//!            / M(x-1,y-1) + CL(x,y)
//! M(x,y)=min | M(x,y-1)   + CU(x,y)
//!            \ M(x+1,y-1) + CR(x,y)
//! ```
//!
//! At the left and right edge the pixel itself stands for the neighbour
//! that is missing, and the seam that would come from outside the image
//! is left out.  In the top row the cost is `CU` alone.

use crate::avisha1::{after, before};
use crate::flipper::Flipper;
use crate::imageview::ImageView;
use crate::pixelpairs::{energy_of_pair_luma, lemma_luma_energy_bound, luma_energy, Pixel};
use crate::seamfinder::{
    energy_to_seam, is_seam, lemma_seam_of, parents_adjacent, parents_in_range, seam_of,
    SeamFinder,
};
use crate::twodmap::{EnergyAndBackPointer, EnergyMap, Plane, TwoDimensionalMap};
use vstd::prelude::*;

verus! {

/// The most that one step adds to the cost of a seam: two energies.
pub const STEP_LIMIT: u64 = 130050;

/// The energy between the left and the right neighbour of `(x, y)`; at
/// the edge of the image the pixel itself stands for the one missing.
pub open spec fn neighbour_energy(image: Plane<Pixel>, x: int, y: int) -> int {
    luma_energy(image.at(before(x), y), image.at(after(x, image.width), y))
}

/// What it costs a seam to step from column `from` of row `y - 1` into
/// `(x, y)`: the energy between the left and right neighbours of
/// `(x, y)`, which meet once the seam is out, and for a step aside the
/// energy between the pixel above and the neighbour on the side that
/// the seam comes from, which meet as well.
pub open spec fn step_energy(image: Plane<Pixel>, from: int, x: int, y: int) -> int {
    neighbour_energy(image, x, y) + if from == x {
        0
    } else {
        luma_energy(image.at(x, y - 1), image.at(from, y))
    }
}

/// The cheapest way into `(x, y)` from the row above, given the costs
/// `left`, `up` and `right` of the three cells above: the cost and the
/// column it comes from.  Straight above is tried first, then the left,
/// then the right, and of equal costs the first one tried stays.  A
/// step from outside the image is not tried.
pub open spec fn cheapest_step(
    image: Plane<Pixel>,
    x: int,
    y: int,
    left: int,
    up: int,
    right: int,
) -> (int, int) {
    let via_up = (up + step_energy(image, x, x, y), x);
    let via_left = (left + step_energy(image, x - 1, x, y), x - 1);
    let via_right = (right + step_energy(image, x + 1, x, y), x + 1);
    let first = if x != 0 && via_left.0 < via_up.0 {
        via_left
    } else {
        via_up
    };
    if x != image.width - 1 && via_right.0 < first.0 {
        via_right
    } else {
        first
    }
}

/// The cost of the cheapest seam from the first row to `(x, y)` and the
/// column in row `y - 1` that it comes from.
pub open spec fn forward_step(image: Plane<Pixel>, x: int, y: int) -> (int, int)
    decreases y,
{
    if y <= 0 {
        (neighbour_energy(image, x, 0), 0)
    } else {
        cheapest_step(
            image,
            x,
            y,
            forward_step(image, x - 1, y - 1).0,
            forward_step(image, x, y - 1).0,
            forward_step(image, x + 1, y - 1).0,
        )
    }
}

/// A cost and a column as a cell of the cost map.
pub open spec fn as_cell(step: (int, int)) -> EnergyAndBackPointer<u64> {
    EnergyAndBackPointer { energy: step.0 as u64, parent: step.1 as u32 }
}

/// The cost map of an image: at each coordinate the cost of the
/// cheapest seam to it and the column that the seam comes from.
pub open spec fn forward_costs(image: Plane<Pixel>) -> Plane<EnergyAndBackPointer<u64>> {
    Plane::from_fn(image.width, image.height, |x: int, y: int| as_cell(forward_step(image, x, y)))
}

/// The cell at `(x, y)` as it follows from the row above it in a cost
/// map.
pub open spec fn step_cell(
    image: Plane<Pixel>,
    costs: Plane<EnergyAndBackPointer<u64>>,
    x: int,
    y: int,
) -> EnergyAndBackPointer<u64> {
    as_cell(
        cheapest_step(
            image,
            x,
            y,
            costs.at(x - 1, y - 1).energy as int,
            costs.at(x, y - 1).energy as int,
            costs.at(x + 1, y - 1).energy as int,
        ),
    )
}

/// Whether `segment` holds the cells of row `y` from column `start` up
/// to, not including, column `end`, as they follow from the row above.
pub open spec fn is_segment(
    image: Plane<Pixel>,
    costs: Plane<EnergyAndBackPointer<u64>>,
    y: int,
    start: int,
    end: int,
    segment: Seq<EnergyAndBackPointer<u64>>,
) -> bool {
    &&& segment.len() == end - start
    &&& forall|k: int|
        0 <= k < segment.len() ==> #[trigger] segment[k] == step_cell(image, costs, start + k, y)
}

/// Whether row `y` of an image can be worked out from the row above it
/// in `costs`: the two have one size, the row lies below the first, and
/// no cost of the row above is so large that a step could overflow.
pub open spec fn row_ready<I: ImageView>(image: &I, costs: &EnergyMap, y: int) -> bool {
    &&& image.valid()
    &&& costs.wf()
    &&& costs.width == image.plane().width
    &&& costs.height == image.plane().height
    &&& 1 <= y < costs.height
    &&& forall|k: int|
        0 <= k < costs.width ==> (#[trigger] costs@.at(k, y - 1)).energy <= u64::MAX - STEP_LIMIT
}

/// The cheapest step costs nothing negative and at most one energy more
/// than the cell straight above, and it comes from the column of its
/// cell or from one next to it, never from outside the image.
pub proof fn lemma_cheapest_step(image: Plane<Pixel>, x: int, y: int, left: int, up: int, right: int)
    requires
        0 <= left,
        0 <= up,
        0 <= right,
    ensures
        0 <= cheapest_step(image, x, y, left, up, right).0 <= up + 65025,
        x - 1 <= cheapest_step(image, x, y, left, up, right).1 <= x + 1,
        x == 0 ==> cheapest_step(image, x, y, left, up, right).1 >= x,
        x == image.width - 1 ==> cheapest_step(image, x, y, left, up, right).1 <= x,
{
    lemma_luma_energy_bound(image.at(before(x), y), image.at(after(x, image.width), y));
    lemma_luma_energy_bound(image.at(x, y - 1), image.at(x - 1, y));
    lemma_luma_energy_bound(image.at(x, y - 1), image.at(x + 1, y));
}

/// A seam to row `y` costs no more than `y + 1` energies.
pub proof fn lemma_forward_step_bound(image: Plane<Pixel>, x: int, y: int)
    ensures
        0 <= forward_step(image, x, y).0 <= (if y <= 0 {
            1
        } else {
            y + 1
        }) * 65025,
    decreases y,
{
    if y <= 0 {
        lemma_luma_energy_bound(image.at(before(x), 0), image.at(after(x, image.width), 0));
    } else {
        lemma_forward_step_bound(image, x - 1, y - 1);
        lemma_forward_step_bound(image, x, y - 1);
        lemma_forward_step_bound(image, x + 1, y - 1);
        lemma_cheapest_step(
            image,
            x,
            y,
            forward_step(image, x - 1, y - 1).0,
            forward_step(image, x, y - 1).0,
            forward_step(image, x + 1, y - 1).0,
        );
    }
}

/// The cost of a seam to a row of a map leaves room for one more step
/// in 64 bits.
pub proof fn lemma_forward_step_fits(image: Plane<Pixel>, x: int, y: int)
    requires
        0 <= y <= u32::MAX,
    ensures
        0 <= forward_step(image, x, y).0 <= u64::MAX - STEP_LIMIT,
        as_cell(forward_step(image, x, y)).energy == forward_step(image, x, y).0,
{
    lemma_forward_step_bound(image, x, y);
    assert((y + 1) * 65025 <= u64::MAX - 130050) by (nonlinear_arith)
        requires
            0 <= y <= u32::MAX,
    ;
}

/// Where it comes from: a seam reaches a cell below the first row from
/// a column of the image, the cell's own or one next to it.
pub proof fn lemma_forward_parent(image: Plane<Pixel>, x: int, y: int)
    requires
        image.contains(x, y),
        y >= 1,
    ensures
        0 <= forward_step(image, x, y).1 < image.width,
        x - 1 <= forward_step(image, x, y).1 <= x + 1,
{
    lemma_forward_step_bound(image, x - 1, y - 1);
    lemma_forward_step_bound(image, x, y - 1);
    lemma_forward_step_bound(image, x + 1, y - 1);
    lemma_cheapest_step(
        image,
        x,
        y,
        forward_step(image, x - 1, y - 1).0,
        forward_step(image, x, y - 1).0,
        forward_step(image, x + 1, y - 1).0,
    );
}

/// The cost map has the size of the image and holds at each coordinate
/// the cost of the cheapest seam and where it comes from; its
/// back-pointers are in range and adjacent.
pub proof fn lemma_forward_costs(image: Plane<Pixel>)
    requires
        image.width <= u32::MAX,
        image.height <= u32::MAX,
    ensures
        forward_costs(image).wf(),
        forward_costs(image).width == image.width,
        forward_costs(image).height == image.height,
        forall|x: int, y: int|
            image.contains(x, y) ==> #[trigger] forward_costs(image).at(x, y) == as_cell(
                forward_step(image, x, y),
            ),
        forall|x: int, y: int|
            image.contains(x, y) ==> (#[trigger] forward_costs(image).at(x, y)).energy
                == forward_step(image, x, y).0,
        forall|x: int, y: int|
            image.contains(x, y) && y >= 1 ==> (#[trigger] forward_costs(image).at(x, y)).parent
                == forward_step(image, x, y).1,
        parents_in_range(forward_costs(image)),
        parents_adjacent(forward_costs(image)),
{
    Plane::lemma_from_fn(
        image.width,
        image.height,
        |x: int, y: int| as_cell(forward_step(image, x, y)),
    );
    let costs = forward_costs(image);
    assert forall|x: int, y: int| image.contains(x, y) implies (#[trigger] costs.at(x, y)).energy
        == forward_step(image, x, y).0 by {
        lemma_forward_step_fits(image, x, y);
    }
    assert forall|x: int, y: int| image.contains(x, y) && y >= 1 implies (#[trigger] costs.at(
        x,
        y,
    )).parent == forward_step(image, x, y).1 && costs.at(x, y).parent < costs.width && x - 1
        <= costs.at(x, y).parent <= x + 1 by {
        lemma_forward_parent(image, x, y);
    }
}

/// The cost of the first `rows` rows of a seam: the neighbour energy of
/// its first cell and the energy of each of its steps.
pub open spec fn seam_cost(image: Plane<Pixel>, seam: Seq<u32>, rows: nat) -> int
    decreases rows,
{
    if rows == 0 {
        0
    } else if rows == 1 {
        neighbour_energy(image, seam[0] as int, 0)
    } else {
        seam_cost(image, seam, (rows - 1) as nat) + step_energy(
            image,
            seam[rows - 2] as int,
            seam[rows - 1] as int,
            rows - 1,
        )
    }
}

/// The cheapest step costs what the cell that it comes from costs and
/// the step from there, and no step from a cell above inside the image
/// comes to less.
pub proof fn lemma_cheapest_step_is_least(
    image: Plane<Pixel>,
    x: int,
    y: int,
    left: int,
    up: int,
    right: int,
)
    ensures
        ({
            let step = cheapest_step(image, x, y, left, up, right);
            &&& step.0 == step_energy(image, step.1, x, y) + if step.1 == x - 1 {
                left
            } else if step.1 == x {
                up
            } else {
                right
            }
            &&& step.0 <= up + step_energy(image, x, x, y)
            &&& x != 0 ==> step.0 <= left + step_energy(image, x - 1, x, y)
            &&& x != image.width - 1 ==> step.0 <= right + step_energy(image, x + 1, x, y)
        }),
{
}

/// No seam reaches a cell for less than the cost that the cost map
/// holds for the cell: the part of a seam down to row `y` costs at
/// least `forward_step` at the cell where it arrives.
pub proof fn lemma_forward_step_is_least(image: Plane<Pixel>, seam: Seq<u32>, y: int)
    requires
        is_seam(seam, image.width, image.height),
        0 <= y < image.height,
    ensures
        forward_step(image, seam[y] as int, y).0 <= seam_cost(image, seam, (y + 1) as nat),
    decreases y,
{
    if y > 0 {
        lemma_forward_step_is_least(image, seam, y - 1);
        let x = seam[y] as int;
        lemma_cheapest_step_is_least(
            image,
            x,
            y,
            forward_step(image, x - 1, y - 1).0,
            forward_step(image, x, y - 1).0,
            forward_step(image, x + 1, y - 1).0,
        );
    }
}

/// The seam that the cost map holds costs, down to each row, just what
/// the map holds for the cell where it arrives.
pub proof fn lemma_seam_cost_of_traced(image: Plane<Pixel>, y: int)
    requires
        image.wf(),
        1 <= image.width <= u32::MAX,
        1 <= image.height <= u32::MAX,
        0 <= y < image.height,
    ensures
        seam_cost(image, seam_of(forward_costs(image)), (y + 1) as nat) == forward_step(
            image,
            seam_of(forward_costs(image))[y] as int,
            y,
        ).0,
    decreases y,
{
    let costs = forward_costs(image);
    let seam = seam_of(costs);
    lemma_forward_costs(image);
    lemma_seam_of(costs);
    if y > 0 {
        lemma_seam_cost_of_traced(image, y - 1);
        let x = seam[y] as int;
        lemma_forward_parent(image, x, y);
        lemma_cheapest_step_is_least(
            image,
            x,
            y,
            forward_step(image, x - 1, y - 1).0,
            forward_step(image, x, y - 1).0,
            forward_step(image, x + 1, y - 1).0,
        );
    }
}

/// The seam that is read off the cost map of an image is a cheapest
/// one: no seam through the image costs less.
pub proof fn lemma_forward_seam_is_cheapest(image: Plane<Pixel>, other: Seq<u32>)
    requires
        image.wf(),
        1 <= image.width <= u32::MAX,
        1 <= image.height <= u32::MAX,
        is_seam(other, image.width, image.height),
    ensures
        seam_cost(image, seam_of(forward_costs(image)), image.height) <= seam_cost(
            image,
            other,
            image.height,
        ),
{
    let costs = forward_costs(image);
    let seam = seam_of(costs);
    let last = image.height - 1;
    lemma_forward_costs(image);
    lemma_seam_of(costs);
    lemma_seam_cost_of_traced(image, last);
    lemma_forward_step_is_least(image, other, last);
    crate::seamfinder::lemma_cheapest_upto(costs, last, image.width - 1);
    assert(costs.at(seam[last] as int, last).energy <= costs.at(other[last] as int, last).energy);
}

/// The cost of reaching the pixel at `at`, a coordinate below the first
/// row, given the costs of the row above: the lowest cost and which
/// parent it comes from.
pub fn cost_candidate_pixel<I: ImageView>(image: &I, energy: &EnergyMap, at: (u32, u32)) -> (cell:
    EnergyAndBackPointer<u64>)
    requires
        row_ready(image, energy, at.1 as int),
        at.0 < energy.width,
    ensures
        cell == step_cell(image.plane(), energy@, at.0 as int, at.1 as int),
{
    let (x, y) = at;
    let y_above = y - 1;
    let max_width = image.width() - 1;

    let left = if x == 0 {
        image.get_pixel(x, y)
    } else {
        image.get_pixel(x - 1, y)
    };
    let right = if x == max_width {
        image.get_pixel(x, y)
    } else {
        image.get_pixel(x + 1, y)
    };
    let cost_up = energy_of_pair_luma(&left, &right) as u64;
    let above = image.get_pixel(x, y_above);

    let mut current_cost = EnergyAndBackPointer {
        energy: cost_up + energy.get_pt(x, y_above).energy,
        parent: x,
    };

    if x != 0 {
        let n = cost_up + energy.get_pt(x - 1, y_above).energy + energy_of_pair_luma(
            &above,
            &image.get_pixel(x - 1, y),
        ) as u64;
        if n < current_cost.energy {
            current_cost = EnergyAndBackPointer { energy: n, parent: x - 1 };
        }
    }

    if x != max_width {
        let n = cost_up + energy.get_pt(x + 1, y_above).energy + energy_of_pair_luma(
            &above,
            &image.get_pixel(x + 1, y),
        ) as u64;
        if n < current_cost.energy {
            current_cost = EnergyAndBackPointer { energy: n, parent: x + 1 };
        }
    }

    current_cost
}

/// The columns that worker `index` takes: from the first up to, not
/// including, the second.  Every worker takes `segment_size` columns
/// but the last one, which takes what is left of the `width`.
pub fn start_and_end(index: usize, segment_size: usize, width: usize, last_thread: usize) -> (columns:
    (usize, usize))
    requires
        index * segment_size <= usize::MAX,
        index != last_thread ==> index < usize::MAX && (index + 1) * segment_size <= usize::MAX,
    ensures
        columns.0 == index * segment_size,
        columns.1 == if index == last_thread {
            width as int
        } else {
            (index + 1) * segment_size
        },
{
    (
        index * segment_size,
        if index == last_thread {
            width
        } else {
            (index + 1) * segment_size
        },
    )
}

/// The cells of row `y` from column `start` up to, not including,
/// column `end`.
fn calculate_segment<I: ImageView>(
    y: u32,
    start: usize,
    end: usize,
    image: &I,
    emap: &EnergyMap,
) -> (segment: Vec<EnergyAndBackPointer<u64>>)
    requires
        row_ready(image, emap, y as int),
        start <= end <= emap.width,
    ensures
        is_segment(image.plane(), emap@, y as int, start as int, end as int, segment@),
{
    let mut segment: Vec<EnergyAndBackPointer<u64>> = Vec::with_capacity(end - start);
    let mut x: usize = start;
    while x < end
        invariant
            start <= x <= end <= emap.width,
            row_ready(image, emap, y as int),
            is_segment(image.plane(), emap@, y as int, start as int, x as int, segment@),
        decreases end - x,
    {
        segment.push(cost_candidate_pixel(image, emap, (x as u32, y)));
        x += 1;
    }
    segment
}

/// `crossbeam::scope`, with `ScopedThreadBuilder::spawn` once per pair
/// of `bounds` and `ScopedJoinHandle::join` on each thread so started.
/// Each thread runs `calculate_segment` on its pair; a thread hands
/// back what the function that it runs returns.  An entry is `None`
/// where the thread could not be started or did not finish, and there
/// are fewer entries than pairs where the scope failed as a whole.
#[verifier::external_body]
fn spawn_segments<I: ImageView + Sync>(
    y: u32,
    bounds: &Vec<(usize, usize)>,
    image: &I,
    emap: &EnergyMap,
) -> (segments: Vec<Option<Vec<EnergyAndBackPointer<u64>>>>)
    requires
        row_ready(image, emap, y as int),
        forall|i: int|
            0 <= i < bounds@.len() ==> (#[trigger] bounds@[i]).0 <= bounds@[i].1 <= emap.width,
    ensures
        forall|i: int|
            0 <= i < segments@.len() && i < bounds@.len() ==> (#[trigger] segments@[i] matches Some(
                segment,
            ) ==> is_segment(
                image.plane(),
                emap@,
                y as int,
                bounds@[i].0 as int,
                bounds@[i].1 as int,
                segment@,
            )),
{
    crossbeam::scope(
        |nursery|
            {
                let handles: Vec<_> = bounds.iter().map(
                    |&(sx, ex)|
                        nursery.builder().spawn(
                            move |_| calculate_segment(y, sx, ex, image, emap),
                        ).ok(),
                ).collect();
                handles.into_iter().map(|handle| handle.and_then(|h| h.join().ok())).collect()
            },
    ).unwrap_or_default()
}

/// Row `y` of the cost map, as it follows from the row above.  The
/// columns are shared out among `thread_count` workers, `segment_size`
/// for each and the rest for the last; what a worker does not deliver
/// is worked out here.  The row is the same for every number of
/// workers.
pub fn calculate_one_row<I: ImageView + Sync>(
    y: u32,
    width: usize,
    segment_size: usize,
    thread_count: usize,
    image: &I,
    emap: &EnergyMap,
) -> (row: Vec<EnergyAndBackPointer<u64>>)
    requires
        row_ready(image, emap, y as int),
        width == emap.width,
        thread_count >= 1,
        (thread_count - 1) * segment_size <= width,
    ensures
        is_segment(image.plane(), emap@, y as int, 0, width as int, row@),
{
    let last_thread = thread_count - 1;
    let mut bounds: Vec<(usize, usize)> = Vec::new();
    let mut index: usize = 0;
    while index < thread_count
        invariant
            index <= thread_count,
            last_thread == thread_count - 1,
            last_thread * segment_size <= width,
            width == emap.width,
            bounds@.len() == index,
            forall|i: int|
                0 <= i < index ==> (#[trigger] bounds@[i]).0 == i * segment_size && bounds@[i].1
                    == if i == last_thread {
                    width as int
                } else {
                    (i + 1) * segment_size
                },
        decreases thread_count - index,
    {
        proof {
            lemma_segment_bounds(index as int, segment_size as int, width as int, last_thread as int);
        }
        bounds.push(start_and_end(index, segment_size, width, last_thread));
        index += 1;
    }
    proof {
        assert forall|i: int| 0 <= i < bounds@.len() implies (#[trigger] bounds@[i]).0
            <= bounds@[i].1 <= emap.width by {
            lemma_segment_bounds(i, segment_size as int, width as int, last_thread as int);
        }
    }
    let segments = spawn_segments(y, &bounds, image, emap);

    let mut row: Vec<EnergyAndBackPointer<u64>> = Vec::with_capacity(width);
    let mut index: usize = 0;
    while index < thread_count
        invariant
            index <= thread_count,
            last_thread == thread_count - 1,
            last_thread * segment_size <= width,
            width == emap.width,
            row_ready(image, emap, y as int),
            bounds@.len() == thread_count,
            forall|i: int|
                0 <= i < thread_count ==> (#[trigger] bounds@[i]).0 == i * segment_size
                    && bounds@[i].1 == if i == last_thread {
                    width as int
                } else {
                    (i + 1) * segment_size
                },
            forall|i: int|
                0 <= i < segments@.len() && i < bounds@.len() ==> (
                #[trigger] segments@[i] matches Some(segment) ==> is_segment(
                    image.plane(),
                    emap@,
                    y as int,
                    bounds@[i].0 as int,
                    bounds@[i].1 as int,
                    segment@,
                )),
            row@.len() == if index == thread_count {
                width as int
            } else {
                index * segment_size
            },
            is_segment(image.plane(), emap@, y as int, 0, row@.len() as int, row@),
        decreases thread_count - index,
    {
        proof {
            lemma_segment_bounds(index as int, segment_size as int, width as int, last_thread as int);
        }
        let (sx, ex) = bounds[index];
        let delivered = index < segments.len() && segments[index].is_some();
        if delivered {
            let segment = segments[index].as_ref().unwrap();
            let mut k: usize = 0;
            while k < segment.len()
                invariant
                    k <= segment@.len(),
                    sx <= ex,
                    is_segment(image.plane(), emap@, y as int, sx as int, ex as int, segment@),
                    row@.len() == sx + k,
                    is_segment(image.plane(), emap@, y as int, 0, row@.len() as int, row@),
                decreases segment@.len() - k,
            {
                row.push(segment[k]);
                k += 1;
            }
        } else {
            let mut x: usize = sx;
            while x < ex
                invariant
                    sx <= x <= ex <= emap.width,
                    row_ready(image, emap, y as int),
                    row@.len() == x,
                    is_segment(image.plane(), emap@, y as int, 0, row@.len() as int, row@),
                decreases ex - x,
            {
                row.push(cost_candidate_pixel(image, emap, (x as u32, y)));
                x += 1;
            }
        }
        index += 1;
    }
    row
}

/// Worker `index` of `last + 1` workers takes columns that lie inside
/// the row, and takes up where the worker before it left off.
proof fn lemma_segment_bounds(index: int, segment_size: int, width: int, last: int)
    requires
        0 <= index <= last,
        0 <= segment_size,
        last * segment_size <= width,
    ensures
        0 <= index * segment_size <= width,
        index < last ==> (index + 1) * segment_size <= width,
        (index + 1) * segment_size <= width + segment_size,
        index * segment_size <= (index + 1) * segment_size,
{
    assert(0 <= index * segment_size <= last * segment_size) by (nonlinear_arith)
        requires
            0 <= index <= last,
            0 <= segment_size,
    ;
    assert((index + 1) * segment_size == index * segment_size + segment_size) by (nonlinear_arith);
    if index < last {
        assert((index + 1) * segment_size <= last * segment_size) by (nonlinear_arith)
            requires
                0 <= index + 1 <= last,
                0 <= segment_size,
        ;
    }
}

/// The cost map of an image.  Each row after the first is worked out
/// from the row above it, by as many workers as `workers` says, but at
/// least one and no more than the row has columns.  The map does not
/// depend on the number of workers.
pub fn calculate_cost<I: ImageView + Sync>(image: &I, workers: usize) -> (emap: EnergyMap)
    requires
        image.valid(),
        image.plane().width >= 1,
        image.plane().height >= 1,
    ensures
        emap.wf(),
        emap@ == forward_costs(image.plane()),
        parents_in_range(emap@),
        parents_adjacent(emap@),
{
    let (width, height) = image.dimensions();
    let ghost plane = image.plane();
    proof {
        image.lemma_valid();
        lemma_forward_costs(plane);
    }
    let mut emap: EnergyMap = TwoDimensionalMap::filled(
        width,
        height,
        EnergyAndBackPointer { energy: 0, parent: 0 },
    );
    let mw = width - 1;

    // The top row is a special case: nothing lies above it.
    let mut x: u32 = 0;
    while x < width
        invariant
            x <= width,
            mw == width - 1,
            image.valid(),
            plane == image.plane(),
            plane.width == width,
            plane.height == height,
            height >= 1,
            emap.wf(),
            emap.width == width,
            emap.height == height,
            forall|k: int|
                0 <= k < x ==> #[trigger] emap@.at(k, 0) == as_cell(forward_step(plane, k, 0)),
        decreases width - x,
    {
        let left = if x == 0 {
            image.get_pixel(x, 0)
        } else {
            image.get_pixel(x - 1, 0)
        };
        let right = if x == mw {
            image.get_pixel(x, 0)
        } else {
            image.get_pixel(x + 1, 0)
        };
        emap.put_pt(
            x,
            0,
            EnergyAndBackPointer { energy: energy_of_pair_luma(&left, &right) as u64, parent: 0 },
        );
        x += 1;
    }

    let columns = width as usize;
    let thread_count = if workers < 1 {
        1
    } else if workers > columns {
        columns
    } else {
        workers
    };
    let segment_size = segment_size_for(columns, thread_count);
    let mut y: u32 = 1;
    while y < height
        invariant
            1 <= y <= height,
            image.valid(),
            plane == image.plane(),
            plane.width == width,
            plane.height == height,
            columns == width,
            thread_count >= 1,
            (thread_count - 1) * segment_size <= columns,
            emap.wf(),
            emap.width == width,
            emap.height == height,
            forall|k: int, j: int|
                0 <= k < width && 0 <= j < y ==> #[trigger] emap@.at(k, j) == as_cell(
                    forward_step(plane, k, j),
                ),
        decreases height - y,
    {
        proof {
            assert forall|k: int| 0 <= k < width implies (#[trigger] emap@.at(k, y - 1)).energy
                <= u64::MAX - STEP_LIMIT by {
                lemma_forward_step_fits(plane, k, y - 1);
            }
        }
        let row = calculate_one_row(y, columns, segment_size, thread_count, image, &emap);
        let ghost before_row = emap@;
        let mut x: u32 = 0;
        while x < width
            invariant
                x <= width,
                1 <= y < height,
                plane == image.plane(),
                plane.width == width,
                plane.height == height,
                emap.wf(),
                emap.width == width,
                emap.height == height,
                is_segment(plane, before_row, y as int, 0, width as int, row@),
                forall|k: int, j: int|
                    0 <= k < width && 0 <= j < y ==> #[trigger] emap@.at(k, j) == as_cell(
                        forward_step(plane, k, j),
                    ),
                forall|k: int, j: int|
                    0 <= k < width && 0 <= j < y ==> #[trigger] before_row.at(k, j) == as_cell(
                        forward_step(plane, k, j),
                    ),
                forall|k: int|
                    0 <= k < x ==> #[trigger] emap@.at(k, y as int) == as_cell(
                        forward_step(plane, k, y as int),
                    ),
            decreases width - x,
        {
            proof {
                lemma_step_cell(plane, before_row, x as int, y as int);
            }
            emap.put_pt(x, y, row[x as usize]);
            x += 1;
        }
        y += 1;
    }
    proof {
        emap@.lemma_equal(forward_costs(plane));
    }
    emap
}

/// Where the row above `y` in a cost map holds the costs of the cheapest
/// seams, the cell that follows from it at `(x, y)` holds the cost of
/// the cheapest seam to `(x, y)`.
proof fn lemma_step_cell(
    image: Plane<Pixel>,
    costs: Plane<EnergyAndBackPointer<u64>>,
    x: int,
    y: int,
)
    requires
        1 <= y <= u32::MAX,
        0 <= x < image.width,
        forall|k: int|
            0 <= k < image.width ==> #[trigger] costs.at(k, y - 1) == as_cell(
                forward_step(image, k, y - 1),
            ),
    ensures
        step_cell(image, costs, x, y) == as_cell(forward_step(image, x, y)),
{
    lemma_forward_step_fits(image, x, y - 1);
    if x != 0 {
        lemma_forward_step_fits(image, x - 1, y - 1);
    }
    if x != image.width - 1 {
        lemma_forward_step_fits(image, x + 1, y - 1);
    }
}

/// How many columns each worker but the last takes when `thread_count`
/// workers share a row of `columns`: the columns and one shared out
/// evenly, rounded down, but no more than there are columns.
fn segment_size_for(columns: usize, thread_count: usize) -> (segment_size: usize)
    requires
        1 <= thread_count <= columns,
        columns <= u32::MAX,
    ensures
        segment_size == if (columns + 1) / (thread_count as int) > columns {
            columns as int
        } else {
            (columns + 1) / (thread_count as int)
        },
        (thread_count - 1) * segment_size <= columns,
{
    let shared: u64 = (columns as u64 + 1) / (thread_count as u64);
    let segment_size: usize = if shared > columns as u64 {
        columns
    } else {
        shared as usize
    };
    proof {
        let n = thread_count as int;
        let c = columns as int;
        if n == 1 {
            assert((n - 1) * segment_size == 0) by (nonlinear_arith)
                requires
                    n == 1,
            ;
        } else {
            vstd::arithmetic::div_mod::lemma_fundamental_div_mod(c + 1, n);
            let q = (c + 1) / n;
            assert(q >= 1) by {
                vstd::arithmetic::div_mod::lemma_div_is_ordered(n, c + 1, n);
                vstd::arithmetic::div_mod::lemma_div_basics(n);
            }
            assert((n - 1) * q <= c) by (nonlinear_arith)
                requires
                    c + 1 == n * q + (c + 1) % n,
                    0 <= (c + 1) % n,
                    q >= 1,
                    n >= 2,
            ;
            assert(q <= c) by (nonlinear_arith)
                requires
                    (n - 1) * q <= c,
                    n >= 2,
                    q >= 1,
            ;
        }
    }
    segment_size
}

/// `num_cpus::get`: the number of processors of the machine that the
/// program runs on.  Nothing is known of the number.
#[verifier::external_body]
fn available_workers() -> (workers: usize) {
    num_cpus::get()
}

/// The number of workers for a machine that reports `processors`
/// processors: one for each of them, and one where it reports none.
pub open spec fn workers_for_spec(processors: usize) -> usize {
    if processors == 0 {
        1
    } else {
        processors
    }
}

/// The number of workers for a machine that reports `processors`
/// processors: one for each of them, and one where it reports none.
pub fn workers_for(processors: usize) -> (workers: usize)
    ensures
        workers == workers_for_spec(processors),
        workers >= 1,
{
    if processors == 0 {
        1
    } else {
        processors
    }
}

/// The number of workers that a seam finder takes where it is given
/// none: as many as the machine has processors, and at least one
/// whatever the machine reports.  The seams do not depend on it.
pub(crate) fn default_workers() -> (workers: usize)
    ensures
        workers >= 1,
{
    workers_for(available_workers())
}

/// The basic seam engine: just a simple image reference holder, and the
/// pair of functions needed to invoke the forward energy algorithm.
pub struct AviShaTwo<'a, I: ImageView + Sync> {
    /// A reference to the image we'll be manipulating.
    pub image: &'a I,
    /// How many workers share a row of the cost map.
    pub workers: usize,
}

impl<'a, I: ImageView + Sync> AviShaTwo<'a, I> {
    /// Takes a reference to an image, and holds onto it.  The finder
    /// takes as many workers as the machine has processors, and at
    /// least one.
    pub fn new(image: &'a I) -> (finder: Self)
        ensures
            finder.image == image,
            finder.workers >= 1,
    {
        AviShaTwo { image, workers: default_workers() }
    }

    /// Takes a reference to an image and the number of workers to share
    /// a row of the cost map among.
    pub fn with_workers(image: &'a I, workers: usize) -> (finder: Self)
        ensures
            finder.image == image,
            finder.workers == workers,
    {
        AviShaTwo { image, workers }
    }
}

impl<'a, I: ImageView + Sync> SeamFinder for AviShaTwo<'a, I> {
    open spec fn image_width(&self) -> nat {
        self.image.plane().width
    }

    open spec fn image_height(&self) -> nat {
        self.image.plane().height
    }

    open spec fn has_vertical_seam(&self) -> bool {
        self.image.valid() && self.image_width() >= 1 && self.image_height() >= 1
    }

    open spec fn has_horizontal_seam(&self) -> bool {
        self.has_vertical_seam()
    }

    open spec fn vertical_seam(&self) -> Seq<u32> {
        seam_of(forward_costs(self.image.plane()))
    }

    open spec fn horizontal_seam(&self) -> Seq<u32> {
        seam_of(forward_costs(self.image.plane().transposed()))
    }

    open spec fn vertical_cost(&self, seam: Seq<u32>) -> int {
        seam_cost(self.image.plane(), seam, self.image_height())
    }

    open spec fn horizontal_cost(&self, seam: Seq<u32>) -> int {
        seam_cost(self.image.plane().transposed(), seam, self.image_width())
    }

    fn find_horizontal_seam(&self) -> (seam: Vec<u32>) {
        let flipped = Flipper { image: self.image };
        proof {
            self.image.lemma_valid();
            self.image.plane().lemma_transposed();
            lemma_forward_costs(flipped.plane());
            assert forall|other: Seq<u32>|
                is_seam(other, self.image_height(), self.image_width()) implies self.horizontal_cost(
                self.horizontal_seam(),
            ) <= #[trigger] self.horizontal_cost(other) by {
                lemma_forward_seam_is_cheapest(flipped.plane(), other);
            }
        }
        energy_to_seam(&calculate_cost(&flipped, self.workers))
    }

    fn find_vertical_seam(&self) -> (seam: Vec<u32>) {
        proof {
            self.image.lemma_valid();
            lemma_forward_costs(self.image.plane());
            assert forall|other: Seq<u32>|
                is_seam(other, self.image_width(), self.image_height()) implies self.vertical_cost(
                self.vertical_seam(),
            ) <= #[trigger] self.vertical_cost(other) by {
                lemma_forward_seam_is_cheapest(self.image.plane(), other);
            }
        }
        energy_to_seam(&calculate_cost(self.image, self.workers))
    }
}

} // verus!

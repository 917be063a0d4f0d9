// This Source Code Form is subject to the terms of the Mozilla Public
// License, v. 2.0. If a copy of the MPL was not distributed with this
// file, You can obtain one at http://mozilla.org/MPL/2.0/.

//! Seamcarve - The main function
//!
//! The main seamcarver routine, with helpers for the horizontal and
//! vertical operations: taking one seam out of an image, and taking
//! seams out, one after the other, until the image has the size asked
//! for.

use crate::avisha2::{forward_costs, lemma_forward_costs, AviShaTwo};
use crate::imageview::{Image, ImageView};
use crate::pixelpairs::Pixel;
use crate::seamfinder::{is_seam, lemma_seam_of, seam_of, SeamFinder};
use crate::twodmap::{Plane, TwoDimensionalMap};
use vstd::prelude::*;

verus! {

/// Why an image was not carved.
#[derive(Clone, Copy, Debug, PartialEq, Eq, Structural)]
pub enum CarveError {
    /// The width or the height asked for is larger than the image's.
    UpscaleRequested,
    /// A seam was needed through an image whose width or height is 0
    /// or 1: there is no seam to trace.
    DegenerateImage,
}

/// One of the two axes of an image.
#[derive(Clone, Copy, Debug, PartialEq, Eq, Structural)]
pub enum Axis {
    /// The axis along which columns are counted; to shrink it is to
    /// take out a seam from top to bottom.
    Width,
    /// The axis along which rows are counted; to shrink it is to take
    /// out a seam from left to right.
    Height,
}

/// Where the carving of an image stands.
#[derive(Clone, Copy, Debug, PartialEq, Eq, Structural)]
pub enum CarveState {
    /// Both the width and the height are larger than asked for.
    BothAxesShrinking,
    /// Only the size along this axis is larger than asked for.
    SingleAxisShrinking(Axis),
    /// The image has the size asked for.
    Done,
}

impl Axis {
    /// The other axis.
    pub open spec fn other_spec(self) -> Axis {
        match self {
            Axis::Width => Axis::Height,
            Axis::Height => Axis::Width,
        }
    }

    /// The other axis.
    pub fn other(self) -> (axis: Axis)
        ensures
            axis == self.other_spec(),
    {
        match self {
            Axis::Width => Axis::Height,
            Axis::Height => Axis::Width,
        }
    }
}

impl CarveState {
    /// The state of an image of the given size that is to become
    /// `new_width` by `new_height`.
    pub open spec fn of_spec(width: nat, height: nat, new_width: nat, new_height: nat) -> CarveState {
        if width > new_width && height > new_height {
            CarveState::BothAxesShrinking
        } else if width > new_width {
            CarveState::SingleAxisShrinking(Axis::Width)
        } else if height > new_height {
            CarveState::SingleAxisShrinking(Axis::Height)
        } else {
            CarveState::Done
        }
    }

    /// The axis to shrink next in this state, where `turn` is the axis
    /// whose turn it is while both shrink.  There is none once the
    /// carving is done.
    pub open spec fn axis_spec(self, turn: Axis) -> Option<Axis> {
        match self {
            CarveState::BothAxesShrinking => Some(turn),
            CarveState::SingleAxisShrinking(axis) => Some(axis),
            CarveState::Done => None,
        }
    }

    /// The state of an image of the given size that is to become
    /// `new_width` by `new_height`.
    pub fn of(width: u32, height: u32, new_width: u32, new_height: u32) -> (state: CarveState)
        ensures
            state == CarveState::of_spec(
                width as nat,
                height as nat,
                new_width as nat,
                new_height as nat,
            ),
    {
        if width > new_width && height > new_height {
            CarveState::BothAxesShrinking
        } else if width > new_width {
            CarveState::SingleAxisShrinking(Axis::Width)
        } else if height > new_height {
            CarveState::SingleAxisShrinking(Axis::Height)
        } else {
            CarveState::Done
        }
    }

    /// The axis to shrink next in this state, where `turn` is the axis
    /// whose turn it is while both shrink.
    pub fn axis(self, turn: Axis) -> (axis: Option<Axis>)
        ensures
            axis == self.axis_spec(turn),
    {
        match self {
            CarveState::BothAxesShrinking => Some(turn),
            CarveState::SingleAxisShrinking(axis) => Some(axis),
            CarveState::Done => None,
        }
    }
}

/// How the state moves when the image shrinks by one along the axis
/// that the state names: while both axes shrink, both go on shrinking or
/// the axis just shrunk has reached its size and the other one goes on
/// alone; a single axis goes on shrinking or the carving is done.  No
/// state comes back once it is left.
pub proof fn lemma_carve_state_step(
    width: nat,
    height: nat,
    new_width: nat,
    new_height: nat,
    turn: Axis,
)
    ensures
        match CarveState::of_spec(width, height, new_width, new_height) {
            CarveState::BothAxesShrinking => match turn {
                Axis::Width => {
                    let next = CarveState::of_spec(
                        (width - 1) as nat,
                        height,
                        new_width,
                        new_height,
                    );
                    next == CarveState::BothAxesShrinking || (next
                        == CarveState::SingleAxisShrinking(Axis::Height) && width - 1
                        == new_width)
                },
                Axis::Height => {
                    let next = CarveState::of_spec(
                        width,
                        (height - 1) as nat,
                        new_width,
                        new_height,
                    );
                    next == CarveState::BothAxesShrinking || (next
                        == CarveState::SingleAxisShrinking(Axis::Width) && height - 1
                        == new_height)
                },
            },
            CarveState::SingleAxisShrinking(Axis::Width) => {
                let next = CarveState::of_spec((width - 1) as nat, height, new_width, new_height);
                next == CarveState::SingleAxisShrinking(Axis::Width) || (next == CarveState::Done
                    && width - 1 == new_width)
            },
            CarveState::SingleAxisShrinking(Axis::Height) => {
                let next = CarveState::of_spec(width, (height - 1) as nat, new_width, new_height);
                next == CarveState::SingleAxisShrinking(Axis::Height) || (next == CarveState::Done
                    && height - 1 == new_height)
            },
            CarveState::Done => width <= new_width && height <= new_height,
        },
{
}

/// An image without a seam from top to bottom: in each row `y` the
/// pixels left of column `seam[y]` stay where they are, and the pixels
/// right of it move one column to the left.
pub open spec fn without_vertical_seam<T>(image: Plane<T>, seam: Seq<u32>) -> Plane<T> {
    Plane::from_fn(
        (image.width - 1) as nat,
        image.height,
        |x: int, y: int|
            if x < seam[y] {
                image.at(x, y)
            } else {
                image.at(x + 1, y)
            },
    )
}

/// An image without a seam from left to right: in each column `x` the
/// pixels above row `seam[x]` stay where they are, and the pixels below
/// it move one row up.
pub open spec fn without_horizontal_seam<T>(image: Plane<T>, seam: Seq<u32>) -> Plane<T> {
    Plane::from_fn(
        image.width,
        (image.height - 1) as nat,
        |x: int, y: int|
            if y < seam[x] {
                image.at(x, y)
            } else {
                image.at(x, y + 1)
            },
    )
}

/// Taking a seam from top to bottom out of an image leaves a
/// well-formed image one column narrower and as high as before, and
/// each of its rows is the row of the image without the pixel of the
/// seam.
pub proof fn lemma_without_vertical_seam<T>(image: Plane<T>, seam: Seq<u32>)
    requires
        image.wf(),
        image.width >= 1,
        seam.len() == image.height,
        forall|y: int| 0 <= y < seam.len() ==> seam[y] < image.width,
    ensures
        without_vertical_seam(image, seam).wf(),
        without_vertical_seam(image, seam).width == image.width - 1,
        without_vertical_seam(image, seam).height == image.height,
        forall|x: int, y: int|
            0 <= x < image.width - 1 && 0 <= y < image.height ==> #[trigger] without_vertical_seam(
                image,
                seam,
            ).at(x, y) == if x < seam[y] {
                image.at(x, y)
            } else {
                image.at(x + 1, y)
            },
        forall|y: int|
            0 <= y < image.height ==> #[trigger] without_vertical_seam(image, seam).row(y)
                == image.row(y).remove(seam[y] as int),
{
    Plane::lemma_from_fn(
        (image.width - 1) as nat,
        image.height,
        |x: int, y: int|
            if x < seam[y] {
                image.at(x, y)
            } else {
                image.at(x + 1, y)
            },
    );
}

/// Taking a seam from left to right out of an image leaves a
/// well-formed image one row lower and as wide as before, and each of
/// its columns is the column of the image without the pixel of the
/// seam.
pub proof fn lemma_without_horizontal_seam<T>(image: Plane<T>, seam: Seq<u32>)
    requires
        image.wf(),
        image.height >= 1,
        seam.len() == image.width,
        forall|x: int| 0 <= x < seam.len() ==> seam[x] < image.height,
    ensures
        without_horizontal_seam(image, seam).wf(),
        without_horizontal_seam(image, seam).width == image.width,
        without_horizontal_seam(image, seam).height == image.height - 1,
        forall|x: int, y: int|
            0 <= x < image.width && 0 <= y < image.height - 1
                ==> #[trigger] without_horizontal_seam(image, seam).at(x, y) == if y < seam[x] {
                image.at(x, y)
            } else {
                image.at(x, y + 1)
            },
        forall|x: int|
            0 <= x < image.width ==> #[trigger] without_horizontal_seam(image, seam).column(x)
                == image.column(x).remove(seam[x] as int),
{
    Plane::lemma_from_fn(
        image.width,
        (image.height - 1) as nat,
        |x: int, y: int|
            if y < seam[x] {
                image.at(x, y)
            } else {
                image.at(x, y + 1)
            },
    );
}

/// Taking a seam from left to right out of an image is taking the same
/// seam from top to bottom out of the image mirrored at its diagonal,
/// and mirroring what is left.
pub proof fn lemma_horizontal_is_vertical_transposed<T>(image: Plane<T>, seam: Seq<u32>)
    requires
        image.wf(),
        image.height >= 1,
        seam.len() == image.width,
        forall|x: int| 0 <= x < seam.len() ==> seam[x] < image.height,
    ensures
        without_horizontal_seam(image, seam) == without_vertical_seam(
            image.transposed(),
            seam,
        ).transposed(),
{
    let flipped = image.transposed();
    image.lemma_transposed();
    lemma_without_horizontal_seam(image, seam);
    lemma_without_vertical_seam(flipped, seam);
    let narrow = without_vertical_seam(flipped, seam);
    narrow.lemma_transposed();
    let back = narrow.transposed();
    let direct = without_horizontal_seam(image, seam);
    direct.lemma_equal(back);
}

/// Given an image and a seam from top to bottom, one column for each
/// row, build a new image narrower by one column: for each row, the
/// pixels left of the seam unchanged, then the pixels right of the seam
/// shifted left by one, dropping the pixel of the seam itself.
pub fn remove_vertical_seam<P: Copy>(image: &TwoDimensionalMap<P>, seam: &[u32]) -> (carved:
    TwoDimensionalMap<P>)
    requires
        image.wf(),
        image.width >= 1,
        seam@.len() == image.height,
        forall|y: int| 0 <= y < seam@.len() ==> seam@[y] < image.width,
    ensures
        carved.wf(),
        carved.width == image.width - 1,
        carved.height == image.height,
        carved@ == without_vertical_seam(image@, seam@),
{
    let (width, height) = (image.width, image.height);
    proof {
        lemma_without_vertical_seam(image@, seam@);
        assert(image.energy@.len() == image.energy.len());
    }
    if width == 1 || height == 0 {
        let carved = TwoDimensionalMap { width: width - 1, height, energy: Vec::new() };
        proof {
            assert((width - 1) * height == 0) by (nonlinear_arith)
                requires
                    width == 1 || height == 0,
            ;
            carved@.lemma_equal(without_vertical_seam(image@, seam@));
        }
        return carved;
    }
    proof {
        assert((width - 1) * height <= width * height) by (nonlinear_arith)
            requires
                width >= 1,
                height >= 0,
        ;
    }
    let mut carved = TwoDimensionalMap::filled(width - 1, height, image.get_pt(0, 0));
    let mut y: u32 = 0;
    while y < height
        invariant
            y <= height,
            width == image.width,
            height == image.height,
            width >= 2,
            image.wf(),
            seam@.len() == height,
            forall|j: int| 0 <= j < seam@.len() ==> seam@[j] < width,
            carved.wf(),
            carved.width == width - 1,
            carved.height == height,
            forall|i: int, j: int|
                0 <= i < width - 1 && 0 <= j < y ==> #[trigger] carved@.at(i, j) == if i
                    < seam@[j] {
                    image@.at(i, j)
                } else {
                    image@.at(i + 1, j)
                },
        decreases height - y,
    {
        let gap = seam[y as usize];
        let mut x: u32 = 0;
        while x < width - 1
            invariant
                x <= width - 1,
                y < height,
                width == image.width,
                height == image.height,
                width >= 2,
                image.wf(),
                seam@.len() == height,
                gap == seam@[y as int],
                gap < width,
                carved.wf(),
                carved.width == width - 1,
                carved.height == height,
                forall|i: int, j: int|
                    0 <= i < width - 1 && 0 <= j < y ==> #[trigger] carved@.at(i, j) == if i
                        < seam@[j] {
                        image@.at(i, j)
                    } else {
                        image@.at(i + 1, j)
                    },
                forall|i: int|
                    0 <= i < x ==> #[trigger] carved@.at(i, y as int) == if i < gap {
                        image@.at(i, y as int)
                    } else {
                        image@.at(i + 1, y as int)
                    },
            decreases width - 1 - x,
        {
            let pixel = if x < gap {
                image.get_pt(x, y)
            } else {
                image.get_pt(x + 1, y)
            };
            carved.put_pt(x, y, pixel);
            x += 1;
        }
        y += 1;
    }
    proof {
        carved@.lemma_equal(without_vertical_seam(image@, seam@));
    }
    carved
}

/// Given an image and a seam from left to right, one row for each
/// column, build a new image lower by one row: for each column, the
/// pixels above the seam unchanged, then the pixels below the seam
/// shifted up by one, dropping the pixel of the seam itself.
pub fn remove_horizontal_seam<P: Copy>(image: &TwoDimensionalMap<P>, seam: &[u32]) -> (carved:
    TwoDimensionalMap<P>)
    requires
        image.wf(),
        image.height >= 1,
        seam@.len() == image.width,
        forall|x: int| 0 <= x < seam@.len() ==> seam@[x] < image.height,
    ensures
        carved.wf(),
        carved.width == image.width,
        carved.height == image.height - 1,
        carved@ == without_horizontal_seam(image@, seam@),
{
    let (width, height) = (image.width, image.height);
    proof {
        lemma_without_horizontal_seam(image@, seam@);
        assert(image.energy@.len() == image.energy.len());
    }
    if height == 1 || width == 0 {
        let carved = TwoDimensionalMap { width, height: height - 1, energy: Vec::new() };
        proof {
            assert(width * (height - 1) == 0) by (nonlinear_arith)
                requires
                    height == 1 || width == 0,
            ;
            carved@.lemma_equal(without_horizontal_seam(image@, seam@));
        }
        return carved;
    }
    proof {
        assert(width * (height - 1) <= width * height) by (nonlinear_arith)
            requires
                height >= 1,
                width >= 0,
        ;
    }
    let mut carved = TwoDimensionalMap::filled(width, height - 1, image.get_pt(0, 0));
    let mut y: u32 = 0;
    while y < height - 1
        invariant
            y <= height - 1,
            width == image.width,
            height == image.height,
            height >= 2,
            image.wf(),
            seam@.len() == width,
            forall|i: int| 0 <= i < seam@.len() ==> seam@[i] < height,
            carved.wf(),
            carved.width == width,
            carved.height == height - 1,
            forall|i: int, j: int|
                0 <= i < width && 0 <= j < y ==> #[trigger] carved@.at(i, j) == if j < seam@[i] {
                    image@.at(i, j)
                } else {
                    image@.at(i, j + 1)
                },
        decreases height - 1 - y,
    {
        let mut x: u32 = 0;
        while x < width
            invariant
                x <= width,
                y < height - 1,
                width == image.width,
                height == image.height,
                height >= 2,
                image.wf(),
                seam@.len() == width,
                forall|i: int| 0 <= i < seam@.len() ==> seam@[i] < height,
                carved.wf(),
                carved.width == width,
                carved.height == height - 1,
                forall|i: int, j: int|
                    0 <= i < width && 0 <= j < y ==> #[trigger] carved@.at(i, j) == if j
                        < seam@[i] {
                        image@.at(i, j)
                    } else {
                        image@.at(i, j + 1)
                    },
                forall|i: int|
                    0 <= i < x ==> #[trigger] carved@.at(i, y as int) == if y < seam@[i] {
                        image@.at(i, y as int)
                    } else {
                        image@.at(i, y + 1)
                    },
            decreases width - x,
        {
            let pixel = if y < seam[x as usize] {
                image.get_pt(x, y)
            } else {
                image.get_pt(x, y + 1)
            };
            carved.put_pt(x, y, pixel);
            x += 1;
        }
        y += 1;
    }
    proof {
        carved@.lemma_equal(without_horizontal_seam(image@, seam@));
    }
    carved
}

/// The seam that is taken out of an image to shrink it along `axis`:
/// the cheapest seam of the forward energy of the image, from top to
/// bottom to shrink the width, from left to right to shrink the height.
pub open spec fn seam_along(image: Plane<Pixel>, axis: Axis) -> Seq<u32> {
    match axis {
        Axis::Width => seam_of(forward_costs(image)),
        Axis::Height => seam_of(forward_costs(image.transposed())),
    }
}

/// An image shrunk by one along `axis`: the image without the seam
/// that is taken out to shrink it.
pub open spec fn shrunk(image: Plane<Pixel>, axis: Axis) -> Plane<Pixel> {
    match axis {
        Axis::Width => without_vertical_seam(image, seam_along(image, axis)),
        Axis::Height => without_horizontal_seam(image, seam_along(image, axis)),
    }
}

/// What carving an image down to `new_width` by `new_height` comes to,
/// where neither is larger than the image's and `turn` is the axis to
/// start with if both shrink.
///
/// An image of the size asked for is the result.  Any other image
/// needs a seam, and there is none where its width or its height is 0
/// or 1.  Else the image shrinks by one along an axis and the carving
/// goes on: along the axis whose turn it is while both sizes are too
/// large, the other axis taking the next turn, and along the one axis
/// that is too large after that.
#[verifier::opaque]
pub open spec fn carved(image: Plane<Pixel>, new_width: nat, new_height: nat, turn: Axis) -> Result<
    Plane<Pixel>,
    CarveError,
>
    decreases image.width + image.height,
{
    match CarveState::of_spec(image.width, image.height, new_width, new_height).axis_spec(turn) {
        None => Ok(image),
        Some(axis) => if image.width <= 1 || image.height <= 1 {
            Err(CarveError::DegenerateImage)
        } else {
            carved(shrunk(image, axis), new_width, new_height, axis.other_spec())
        },
    }
}

/// Carving, one step at a time: an image of the size asked for is the
/// result; another image whose width or height is 0 or 1 cannot be
/// carved; any other image is shrunk by one along the axis that its
/// state and the turn name, and carved on with the other axis taking
/// the next turn.
pub proof fn lemma_carved_step(image: Plane<Pixel>, new_width: nat, new_height: nat, turn: Axis)
    ensures
        match CarveState::of_spec(image.width, image.height, new_width, new_height).axis_spec(
            turn,
        ) {
            None => carved(image, new_width, new_height, turn) == Ok::<Plane<Pixel>, CarveError>(
                image,
            ),
            Some(axis) => if image.width <= 1 || image.height <= 1 {
                carved(image, new_width, new_height, turn) == Err::<Plane<Pixel>, CarveError>(
                    CarveError::DegenerateImage,
                )
            } else {
                carved(image, new_width, new_height, turn) == carved(
                    shrunk(image, axis),
                    new_width,
                    new_height,
                    axis.other_spec(),
                )
            },
        },
{
    reveal(carved);
}

/// The seam that is taken out of an image to shrink it is a seam: one
/// coordinate for each line across the axis, inside the image, each
/// next to the one before.
pub proof fn lemma_seam_along(image: Plane<Pixel>, axis: Axis)
    requires
        image.wf(),
        1 <= image.width <= u32::MAX,
        1 <= image.height <= u32::MAX,
    ensures
        axis == Axis::Width ==> is_seam(seam_along(image, axis), image.width, image.height),
        axis == Axis::Height ==> is_seam(seam_along(image, axis), image.height, image.width),
{
    match axis {
        Axis::Width => {
            lemma_forward_costs(image);
            lemma_seam_of(forward_costs(image));
        },
        Axis::Height => {
            image.lemma_transposed();
            lemma_forward_costs(image.transposed());
            lemma_seam_of(forward_costs(image.transposed()));
        },
    }
}

/// Shrinking an image along an axis leaves a well-formed image that is
/// smaller by one along that axis and as large as before along the
/// other.
pub proof fn lemma_shrunk(image: Plane<Pixel>, axis: Axis)
    requires
        image.wf(),
        1 <= image.width <= u32::MAX,
        1 <= image.height <= u32::MAX,
    ensures
        shrunk(image, axis).wf(),
        axis == Axis::Width ==> shrunk(image, axis).width == image.width - 1 && shrunk(
            image,
            axis,
        ).height == image.height,
        axis == Axis::Height ==> shrunk(image, axis).width == image.width && shrunk(
            image,
            axis,
        ).height == image.height - 1,
{
    lemma_seam_along(image, axis);
    match axis {
        Axis::Width => {
            lemma_without_vertical_seam(image, seam_along(image, axis));
        },
        Axis::Height => {
            lemma_without_horizontal_seam(image, seam_along(image, axis));
        },
    }
}

/// Carving an image to the size that it has gives the image back, with
/// no seam taken out.
pub proof fn lemma_carved_to_same_size(image: Plane<Pixel>, turn: Axis)
    ensures
        carved(image, image.width, image.height, turn) == Ok::<Plane<Pixel>, CarveError>(image),
{
    lemma_carved_step(image, image.width, image.height, turn);
}

/// Carving an image that is at least two pixels wide and high down by
/// one column gives an image one column narrower and as high as before,
/// each of whose rows is the row of the image without the pixel of the
/// seam from top to bottom.
pub proof fn lemma_carved_by_one_column(image: Plane<Pixel>, turn: Axis)
    requires
        image.wf(),
        2 <= image.width <= u32::MAX,
        2 <= image.height <= u32::MAX,
    ensures
        carved(image, (image.width - 1) as nat, image.height, turn) matches Ok(narrow)
            && narrow.wf() && narrow.width == image.width - 1 && narrow.height == image.height
            && forall|r: int|
            0 <= r < image.height ==> #[trigger] narrow.row(r) == image.row(r).remove(
                seam_along(image, Axis::Width)[r] as int,
            ),
{
    let seam = seam_along(image, Axis::Width);
    lemma_seam_along(image, Axis::Width);
    lemma_without_vertical_seam(image, seam);
    let narrow = shrunk(image, Axis::Width);
    lemma_carved_step(image, (image.width - 1) as nat, image.height, turn);
    lemma_carved_step(narrow, (image.width - 1) as nat, image.height, Axis::Height);
}

/// Carving an image that is at least two pixels wide and high down by
/// one row gives an image one row lower and as wide as before, each of
/// whose columns is the column of the image without the pixel of the
/// seam from left to right.
pub proof fn lemma_carved_by_one_row(image: Plane<Pixel>, turn: Axis)
    requires
        image.wf(),
        2 <= image.width <= u32::MAX,
        2 <= image.height <= u32::MAX,
    ensures
        carved(image, image.width, (image.height - 1) as nat, turn) matches Ok(low) && low.wf()
            && low.width == image.width && low.height == image.height - 1 && forall|c: int|
            0 <= c < image.width ==> #[trigger] low.column(c) == image.column(c).remove(
                seam_along(image, Axis::Height)[c] as int,
            ),
{
    let seam = seam_along(image, Axis::Height);
    lemma_seam_along(image, Axis::Height);
    lemma_without_horizontal_seam(image, seam);
    let low = shrunk(image, Axis::Height);
    lemma_carved_step(image, image.width, (image.height - 1) as nat, turn);
    lemma_carved_step(low, image.width, (image.height - 1) as nat, Axis::Width);
}

/// Whether an image of the given size can be carved down to
/// `new_width` by `new_height`, neither larger than the image's, where
/// `turn` is the axis to start with if both shrink.
///
/// An image of the size asked for can.  Any other image must be at
/// least two pixels wide and high, and so must every image on the way:
/// the size asked for is not 0 along any axis, it is 1 along one axis
/// at most, and where it is 1 along an axis, the last seam of all is
/// one that shrinks that axis, so that the other axis is done by then.
/// The axes take turns while both shrink, so the thin axis has to have
/// more seams to lose than the other.
pub open spec fn can_be_carved(
    width: nat,
    height: nat,
    new_width: nat,
    new_height: nat,
    turn: Axis,
) -> bool {
    ||| width == new_width && height == new_height
    ||| {
        &&& width >= 2 && height >= 2
        &&& new_width >= 1 && new_height >= 1
        &&& new_width == 1 ==> new_height >= 2 && height - new_height < width - new_width + (
        if turn == Axis::Height {
            1int
        } else {
            0int
        })
        &&& new_height == 1 ==> new_width >= 2 && width - new_width < height - new_height + (
        if turn == Axis::Width {
            1int
        } else {
            0int
        })
    }
}

/// Carving succeeds on just the sizes that `can_be_carved` names, and
/// fails for want of a seam on the others: whether an image can be
/// carved depends on its size alone.
pub proof fn lemma_carved_succeeds(
    image: Plane<Pixel>,
    new_width: nat,
    new_height: nat,
    turn: Axis,
)
    requires
        image.wf(),
        new_width <= image.width <= u32::MAX,
        new_height <= image.height <= u32::MAX,
    ensures
        carved(image, new_width, new_height, turn) is Ok <==> can_be_carved(
            image.width,
            image.height,
            new_width,
            new_height,
            turn,
        ),
        carved(image, new_width, new_height, turn) is Err ==> carved(
            image,
            new_width,
            new_height,
            turn,
        ) == Err::<Plane<Pixel>, CarveError>(CarveError::DegenerateImage),
    decreases image.width + image.height,
{
    lemma_carved_step(image, new_width, new_height, turn);
    match CarveState::of_spec(image.width, image.height, new_width, new_height).axis_spec(turn) {
        None => {},
        Some(axis) => {
            if image.width > 1 && image.height > 1 {
                lemma_shrunk(image, axis);
                lemma_carved_succeeds(
                    shrunk(image, axis),
                    new_width,
                    new_height,
                    axis.other_spec(),
                );
            }
        },
    }
}

/// Where carving succeeds, the result has the size asked for; where it
/// fails, it fails for want of a seam.
pub proof fn lemma_carved_size(image: Plane<Pixel>, new_width: nat, new_height: nat, turn: Axis)
    requires
        image.wf(),
        new_width <= image.width <= u32::MAX,
        new_height <= image.height <= u32::MAX,
    ensures
        carved(image, new_width, new_height, turn) matches Ok(small) ==> small.wf() && small.width
            == new_width && small.height == new_height,
        carved(image, new_width, new_height, turn) matches Err(error) ==> error
            == CarveError::DegenerateImage,
    decreases image.width + image.height,
{
    lemma_carved_step(image, new_width, new_height, turn);
    match CarveState::of_spec(image.width, image.height, new_width, new_height).axis_spec(turn) {
        None => {},
        Some(axis) => {
            if image.width > 1 && image.height > 1 {
                lemma_shrunk(image, axis);
                lemma_carved_size(shrunk(image, axis), new_width, new_height, axis.other_spec());
            }
        },
    }
}

/// A copy of what an image view shows.
pub fn to_image<I: ImageView>(image: &I) -> (copy: Image)
    requires
        image.valid(),
    ensures
        copy.wf(),
        copy@ == image.plane(),
{
    let (width, height) = image.dimensions();
    let ghost plane = image.plane();
    proof {
        image.lemma_valid();
    }
    let mut copy: Image = TwoDimensionalMap::filled(width, height, Pixel::Luma(0));
    let mut y: u32 = 0;
    while y < height
        invariant
            y <= height,
            image.valid(),
            plane == image.plane(),
            plane.width == width,
            plane.height == height,
            copy.wf(),
            copy.width == width,
            copy.height == height,
            forall|i: int, j: int|
                0 <= i < width && 0 <= j < y ==> #[trigger] copy@.at(i, j) == plane.at(i, j),
        decreases height - y,
    {
        let mut x: u32 = 0;
        while x < width
            invariant
                x <= width,
                y < height,
                image.valid(),
                plane == image.plane(),
                plane.width == width,
                plane.height == height,
                copy.wf(),
                copy.width == width,
                copy.height == height,
                forall|i: int, j: int|
                    0 <= i < width && 0 <= j < y ==> #[trigger] copy@.at(i, j) == plane.at(i, j),
                forall|i: int| 0 <= i < x ==> #[trigger] copy@.at(i, y as int) == plane.at(i, y as int),
            decreases width - x,
        {
            copy.put_pt(x, y, image.get_pixel(x, y));
            x += 1;
        }
        y += 1;
    }
    proof {
        copy@.lemma_equal(plane);
    }
    copy
}

/// Takes an image, returns an image of the size asked for: seams are
/// taken out of a copy of the image, one at a time, until it is
/// `newwidth` wide and `newheight` high.  While both sizes are too
/// large the seams run in turn from top to bottom and from left to
/// right, the first from top to bottom.  The cost map is worked out
/// anew for every seam, by `workers` workers.
///
/// Fails with `UpscaleRequested`, before anything is done, where a size
/// asked for is larger than the image's, and with `DegenerateImage`
/// where a seam is needed through an image whose width or height is 0
/// or 1.
pub fn seamcarve_with<I: ImageView + Sync>(
    image: &I,
    newwidth: u32,
    newheight: u32,
    workers: usize,
) -> (result: Result<Image, CarveError>)
    requires
        image.valid(),
    ensures
        (newwidth > image.plane().width || newheight > image.plane().height) <==> (result matches Err(
            CarveError::UpscaleRequested,
        )),
        newwidth <= image.plane().width && newheight <= image.plane().height ==> match carved(
            image.plane(),
            newwidth as nat,
            newheight as nat,
            Axis::Width,
        ) {
            Ok(small) => result matches Ok(out) && out.wf() && out@ == small,
            Err(error) => result matches Err(e) && e == error,
        },
        newwidth == image.plane().width && newheight == image.plane().height ==> (result matches Ok(
            out,
        ) && out.wf() && out@ == image.plane()),
        result matches Ok(out) ==> out.width == newwidth && out.height == newheight,
        result is Ok <==> newwidth <= image.plane().width && newheight <= image.plane().height
            && can_be_carved(
            image.plane().width,
            image.plane().height,
            newwidth as nat,
            newheight as nat,
            Axis::Width,
        ),
        (result matches Err(CarveError::DegenerateImage)) <==> newwidth <= image.plane().width
            && newheight <= image.plane().height && !can_be_carved(
            image.plane().width,
            image.plane().height,
            newwidth as nat,
            newheight as nat,
            Axis::Width,
        ),
{
    let (width, height) = image.dimensions();
    if newwidth > width || newheight > height {
        return Err(CarveError::UpscaleRequested);
    }
    let ghost source = image.plane();
    let ghost goal = carved(source, newwidth as nat, newheight as nat, Axis::Width);
    proof {
        image.lemma_valid();
        lemma_carved_size(source, newwidth as nat, newheight as nat, Axis::Width);
        lemma_carved_succeeds(source, newwidth as nat, newheight as nat, Axis::Width);
        lemma_carved_to_same_size(source, Axis::Width);
    }
    let mut current = to_image(image);
    let mut turn = Axis::Width;
    loop
        invariant
            source == image.plane(),
            newwidth <= source.width,
            newheight <= source.height,
            goal == carved(source, newwidth as nat, newheight as nat, Axis::Width),
            goal matches Ok(small) ==> small.width == newwidth && small.height == newheight,
            goal is Ok <==> can_be_carved(
                source.width,
                source.height,
                newwidth as nat,
                newheight as nat,
                Axis::Width,
            ),
            newwidth == source.width && newheight == source.height ==> goal == Ok::<
                Plane<Pixel>,
                CarveError,
            >(source),
            current.wf(),
            newwidth <= current.width,
            newheight <= current.height,
            carved(current@, newwidth as nat, newheight as nat, turn) == goal,
        decreases current.width + current.height,
    {
        proof {
            lemma_carved_step(current@, newwidth as nat, newheight as nat, turn);
        }
        let state = CarveState::of(current.width, current.height, newwidth, newheight);
        let axis = match state.axis(turn) {
            None => {
                return Ok(current);
            },
            Some(axis) => axis,
        };
        if current.width <= 1 || current.height <= 1 {
            return Err(CarveError::DegenerateImage);
        }
        proof {
            lemma_seam_along(current@, axis);
            lemma_shrunk(current@, axis);
        }
        let finder = AviShaTwo::with_workers(&current, workers);
        let smaller = match axis {
            Axis::Width => {
                let seam = finder.find_vertical_seam();
                remove_vertical_seam(&current, seam.as_slice())
            },
            Axis::Height => {
                let seam = finder.find_horizontal_seam();
                remove_horizontal_seam(&current, seam.as_slice())
            },
        };
        current = smaller;
        turn = axis.other();
    }
}

/// Takes an image, returns an image of the size asked for, as
/// `seamcarve_with` does, with as many workers as the machine has
/// processors.  The result does not depend on their number.
pub fn seamcarve<I: ImageView + Sync>(image: &I, newwidth: u32, newheight: u32) -> (result: Result<
    Image,
    CarveError,
>)
    requires
        image.valid(),
    ensures
        (newwidth > image.plane().width || newheight > image.plane().height) <==> (result matches Err(
            CarveError::UpscaleRequested,
        )),
        newwidth <= image.plane().width && newheight <= image.plane().height ==> match carved(
            image.plane(),
            newwidth as nat,
            newheight as nat,
            Axis::Width,
        ) {
            Ok(small) => result matches Ok(out) && out.wf() && out@ == small,
            Err(error) => result matches Err(e) && e == error,
        },
        newwidth == image.plane().width && newheight == image.plane().height ==> (result matches Ok(
            out,
        ) && out.wf() && out@ == image.plane()),
        result matches Ok(out) ==> out.width == newwidth && out.height == newheight,
        result is Ok <==> newwidth <= image.plane().width && newheight <= image.plane().height
            && can_be_carved(
            image.plane().width,
            image.plane().height,
            newwidth as nat,
            newheight as nat,
            Axis::Width,
        ),
        (result matches Err(CarveError::DegenerateImage)) <==> newwidth <= image.plane().width
            && newheight <= image.plane().height && !can_be_carved(
            image.plane().width,
            image.plane().height,
            newwidth as nat,
            newheight as nat,
            Axis::Width,
        ),
{
    seamcarve_with(image, newwidth, newheight, crate::avisha2::default_workers())
}

} // verus!

// This Source Code Form is subject to the terms of the Mozilla Public
// License, v. 2.0. If a copy of the MPL was not distributed with this
// file, You can obtain one at http://mozilla.org/MPL/2.0/.

//! Read-only access to the pixels of an image.

use crate::pixelpairs::Pixel;
use crate::twodmap::{Plane, TwoDimensionalMap};
use vstd::prelude::*;

verus! {

/// An image held in memory: one pixel per coordinate.
pub type Image = TwoDimensionalMap<Pixel>;

/// What the seam finders need of an image: its size and the pixel at
/// each coordinate.  Nothing here changes the image.
pub trait ImageView {
    /// The pixels that this view shows, laid out as the view shows them.
    spec fn plane(&self) -> Plane<Pixel>;

    /// Whether the view is fit for use.
    spec fn valid(&self) -> bool;

    /// A valid view shows a well-formed plane whose sizes fit 32 bits
    /// and whose pixels can be counted by a `usize`.
    proof fn lemma_valid(&self)
        requires
            self.valid(),
        ensures
            self.plane().wf(),
            self.plane().width <= u32::MAX,
            self.plane().height <= u32::MAX,
            self.plane().width * self.plane().height <= usize::MAX,
    ;

    /// The width and height of the image.
    fn dimensions(&self) -> (size: (u32, u32))
        requires
            self.valid(),
        ensures
            size.0 == self.plane().width,
            size.1 == self.plane().height,
    ;

    /// The width of the image.
    fn width(&self) -> (width: u32)
        requires
            self.valid(),
        ensures
            width == self.plane().width,
    ;

    /// The height of the image.
    fn height(&self) -> (height: u32)
        requires
            self.valid(),
        ensures
            height == self.plane().height,
    ;

    /// The bounding rectangle of the image: the coordinate of its first
    /// pixel, then its width and height.
    fn bounds(&self) -> (rectangle: (u32, u32, u32, u32))
        requires
            self.valid(),
        ensures
            rectangle.0 == 0,
            rectangle.1 == 0,
            rectangle.2 == self.plane().width,
            rectangle.3 == self.plane().height,
    ;

    /// The pixel at column `x` of row `y`.
    fn get_pixel(&self, x: u32, y: u32) -> (pixel: Pixel)
        requires
            self.valid(),
            self.plane().contains(x as int, y as int),
        ensures
            pixel == self.plane().at(x as int, y as int),
    ;
}

impl ImageView for TwoDimensionalMap<Pixel> {
    open spec fn plane(&self) -> Plane<Pixel> {
        self@
    }

    open spec fn valid(&self) -> bool {
        self.wf()
    }

    proof fn lemma_valid(&self) {
        assert(self.energy@.len() == self.energy.len());
    }

    fn dimensions(&self) -> (size: (u32, u32)) {
        (self.width, self.height)
    }

    fn width(&self) -> (width: u32) {
        self.width
    }

    fn height(&self) -> (height: u32) {
        self.height
    }

    fn bounds(&self) -> (rectangle: (u32, u32, u32, u32)) {
        (0, 0, self.width, self.height)
    }

    fn get_pixel(&self, x: u32, y: u32) -> (pixel: Pixel) {
        self.get_pt(x, y)
    }
}

} // verus!

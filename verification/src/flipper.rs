// This Source Code Form is subject to the terms of the Mozilla Public
// License, v. 2.0. If a copy of the MPL was not distributed with this
// file, You can obtain one at http://mozilla.org/MPL/2.0/.

//! Image dimensional flipper
//!
//! A utility proxy for an image that maps the width to the height of
//! the image behind it, and vice versa, as well as every x to y and
//! vice versa.
//!
//! This has the effect of making it possible to treat each column in a
//! horizontal scan as a contiguous block, that is, the way a row is
//! usually represented in memory.
//!
//! The algorithms of this crate treat the image as a read-only source.
//! By virtually flipping the image, the one algorithm that lays a seam
//! from top to bottom also lays the seams from left to right.

use crate::imageview::ImageView;
use crate::pixelpairs::Pixel;
use crate::twodmap::Plane;
use vstd::prelude::*;

verus! {

/// A view of an image with the two axes swapped.  It holds nothing but
/// a reference to the image.
pub struct Flipper<'a, I: ImageView> {
    pub image: &'a I,
}

impl<'a, I: ImageView> Flipper<'a, I> {
    /// The image behind the view.
    pub fn inner(&self) -> (image: &I)
        ensures
            image == self.image,
    {
        self.image
    }
}

impl<'a, I: ImageView> ImageView for Flipper<'a, I> {
    open spec fn plane(&self) -> Plane<Pixel> {
        self.image.plane().transposed()
    }

    open spec fn valid(&self) -> bool {
        self.image.valid()
    }

    proof fn lemma_valid(&self) {
        self.image.lemma_valid();
        let p = self.image.plane();
        p.lemma_transposed();
        assert(p.width * p.height == p.height * p.width) by (nonlinear_arith);
    }

    fn dimensions(&self) -> (size: (u32, u32)) {
        proof {
            self.image.plane().lemma_transposed();
        }
        let (x, y) = self.image.dimensions();
        (y, x)
    }

    fn width(&self) -> (width: u32) {
        proof {
            self.image.plane().lemma_transposed();
        }
        self.image.height()
    }

    fn height(&self) -> (height: u32) {
        proof {
            self.image.plane().lemma_transposed();
        }
        self.image.width()
    }

    fn bounds(&self) -> (rectangle: (u32, u32, u32, u32)) {
        proof {
            self.image.plane().lemma_transposed();
        }
        let (x1, y1, x2, y2) = self.image.bounds();
        (y1, x1, y2, x2)
    }

    fn get_pixel(&self, x: u32, y: u32) -> (pixel: Pixel) {
        proof {
            self.image.plane().lemma_transposed();
        }
        self.image.get_pixel(y, x)
    }
}

} // verus!

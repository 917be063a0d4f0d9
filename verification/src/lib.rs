// This Source Code Form is subject to the terms of the Mozilla Public
// License, v. 2.0. If a copy of the MPL was not distributed with this
// file, You can obtain one at http://mozilla.org/MPL/2.0/.

//! Seam Carving
//!
//! The seam carving algorithms analyze an image and identify (user
//! choice) a vertical or horizontal seam, a meandering path of
//! adjacent pixels, that if removed from the image would do the least
//! amount of damage to the information contained in the image.  It's
//! sort-of like automatically cropping the image, but rather than
//! just trim the edges, it trims out a line of pixels.
//!
//! Every function states what it returns over a mathematical model of
//! its arguments, and Verus proves the statement: a two-dimensional map
//! stands for a `Plane`, a seam for a sequence of coordinates, and the
//! seam that a finder returns is proved to be a cheapest one.

// A generic two-dimensional map, used to hold images and intermediate
// data, and the plane that it stands for.
pub mod twodmap;

// Pixels, and functions to calculate the energy distance between two
// pixels, using a variety of methods.
pub mod pixelpairs;

// Read-only access to the pixels of an image.
pub mod imageview;

// A proxy for an image that swaps its axes, so that the algorithm that
// lays seams from top to bottom lays them from left to right too.
pub mod flipper;

// Trait defining how an image becomes a seam, and the tracer that reads
// a seam off a map of costs.
pub mod seamfinder;

// The first algorithm of Avidan and Shamir: seams through the energy
// map of an image.
pub mod avisha1;

// The "forward energy" algorithm of Avidan and Shamir.
pub mod avisha2;

// Energy by colour, and energy maps rendered for the eye.
pub mod dump;

// Takes an image and produces a new image with seams carved out.
pub mod seamcarver;

pub use avisha1::AviShaOne;
pub use avisha2::AviShaTwo;
pub use seamcarver::seamcarve;

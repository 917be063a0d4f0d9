// This Source Code Form is subject to the terms of the Mozilla Public
// License, v. 2.0. If a copy of the MPL was not distributed with this
// file, You can obtain one at http://mozilla.org/MPL/2.0/.

//! A two-dimensional map: one value for each coordinate of a rectangle,
//! stored row by row in one flat vector, and the mathematical plane that
//! the contracts of this crate speak of.

use vstd::prelude::*;

verus! {

/// What a two-dimensional map stands for: a rectangle of `width` columns
/// and `height` rows with one value per coordinate.  The value at column
/// `x` of row `y` is `cells[y * width + x]`.
#[verifier::ext_equal]
pub struct Plane<T> {
    pub width: nat,
    pub height: nat,
    pub cells: Seq<T>,
}

impl<T> Plane<T> {
    /// There is exactly one cell per coordinate.
    pub open spec fn wf(self) -> bool {
        self.cells.len() == self.width * self.height
    }

    /// Whether `(x, y)` is a coordinate of this plane.
    pub open spec fn contains(self, x: int, y: int) -> bool {
        0 <= x < self.width && 0 <= y < self.height
    }

    /// The value at column `x` of row `y`.
    pub closed spec fn at(self, x: int, y: int) -> T {
        self.cells[y * self.width + x]
    }

    /// The plane of the given size whose value at `(x, y)` is `f(x, y)`.
    pub open spec fn from_fn(width: nat, height: nat, f: spec_fn(int, int) -> T) -> Plane<T> {
        Plane {
            width,
            height,
            cells: Seq::new(width * height, |i: int| f(i % width as int, i / width as int)),
        }
    }

    /// This plane with the value at `(x, y)` replaced by `value`.
    pub closed spec fn with(self, x: int, y: int, value: T) -> Plane<T> {
        Plane { cells: self.cells.update(y * self.width + x, value), ..self }
    }

    /// Row `y`, from the left.
    pub open spec fn row(self, y: int) -> Seq<T> {
        Seq::new(self.width, |x: int| self.at(x, y))
    }

    /// Column `x`, from the top.
    pub open spec fn column(self, x: int) -> Seq<T> {
        Seq::new(self.height, |y: int| self.at(x, y))
    }

    /// The plane mirrored at its diagonal: columns become rows.
    pub open spec fn transposed(self) -> Plane<T> {
        Plane::from_fn(self.height, self.width, |x: int, y: int| self.at(y, x))
    }

    /// A coordinate of the plane lies at its row-major index, and that
    /// index is inside the storage.
    pub proof fn lemma_at(self, x: int, y: int)
        requires
            self.wf(),
            self.contains(x, y),
        ensures
            0 <= y * self.width + x < self.cells.len(),
            self.at(x, y) == self.cells[y * self.width + x],
    {
        lemma_index_in_range(self.width as int, self.height as int, x, y);
    }

    /// The cell at a storage index is the value at the coordinate that
    /// the index counts out: column `i % width` of row `i / width`.
    pub proof fn lemma_cell(self, i: int)
        requires
            self.wf(),
            0 <= i < self.cells.len(),
        ensures
            self.contains(i % self.width as int, i / self.width as int),
            self.cells[i] == self.at(i % self.width as int, i / self.width as int),
    {
        lemma_index_split(self.width as int, self.height as int, i);
    }

    /// `from_fn` gives a well-formed plane of the size asked for, holding
    /// at each coordinate what the function says.
    pub proof fn lemma_from_fn(width: nat, height: nat, f: spec_fn(int, int) -> T)
        ensures
            Plane::from_fn(width, height, f).wf(),
            Plane::from_fn(width, height, f).width == width,
            Plane::from_fn(width, height, f).height == height,
            forall|x: int, y: int|
                0 <= x < width && 0 <= y < height ==> #[trigger] Plane::from_fn(
                    width,
                    height,
                    f,
                ).at(x, y) == f(x, y),
    {
        let p = Plane::from_fn(width, height, f);
        assert forall|x: int, y: int| 0 <= x < width && 0 <= y < height implies #[trigger] p.at(
            x,
            y,
        ) == f(x, y) by {
            lemma_index_in_range(width as int, height as int, x, y);
        }
    }

    /// Replacing one value changes that coordinate and no other.
    pub proof fn lemma_with(self, x: int, y: int, value: T)
        requires
            self.wf(),
            self.contains(x, y),
        ensures
            self.with(x, y, value).wf(),
            self.with(x, y, value).width == self.width,
            self.with(x, y, value).height == self.height,
            forall|i: int, j: int|
                self.contains(i, j) ==> #[trigger] self.with(x, y, value).at(i, j) == if i == x
                    && j == y {
                    value
                } else {
                    self.at(i, j)
                },
    {
        let q = self.with(x, y, value);
        lemma_index_in_range(self.width as int, self.height as int, x, y);
        assert forall|i: int, j: int| self.contains(i, j) implies #[trigger] q.at(i, j) == if i
            == x && j == y {
            value
        } else {
            self.at(i, j)
        } by {
            lemma_index_in_range(self.width as int, self.height as int, i, j);
        }
    }

    /// Two well-formed planes of one size that agree at every coordinate
    /// are the same plane.
    pub proof fn lemma_equal(self, other: Plane<T>)
        requires
            self.wf(),
            other.wf(),
            self.width == other.width,
            self.height == other.height,
            forall|x: int, y: int| self.contains(x, y) ==> self.at(x, y) == other.at(x, y),
        ensures
            self == other,
    {
        assert forall|i: int| 0 <= i < self.cells.len() implies self.cells[i] == other.cells[i] by {
            self.lemma_cell(i);
            other.lemma_cell(i);
        }
    }

    /// The transposed plane has the sizes swapped and holds at `(x, y)`
    /// what this plane holds at `(y, x)`.
    pub proof fn lemma_transposed(self)
        ensures
            self.transposed().wf(),
            self.transposed().width == self.height,
            self.transposed().height == self.width,
            forall|x: int, y: int|
                0 <= x < self.height && 0 <= y < self.width ==> #[trigger] self.transposed().at(
                    x,
                    y,
                ) == self.at(y, x),
    {
        Plane::lemma_from_fn(self.height, self.width, |x: int, y: int| self.at(y, x));
    }

    /// Transposing twice gives the plane back.
    pub proof fn lemma_transposed_twice(self)
        requires
            self.wf(),
        ensures
            self.transposed().transposed() == self,
    {
        let t = self.transposed();
        self.lemma_transposed();
        t.lemma_transposed();
        t.transposed().lemma_equal(self);
    }
}

/// A coordinate inside a `width` by `height` rectangle has its row-major
/// index inside the storage, and the index gives the coordinate back.
pub proof fn lemma_index_in_range(width: int, height: int, x: int, y: int)
    requires
        0 <= x < width,
        0 <= y < height,
    ensures
        0 <= y * width,
        0 <= y * width + x < width * height,
        (y * width + x) / width == y,
        (y * width + x) % width == x,
{
    assert(y * width >= 0 && y * width + width <= height * width) by (nonlinear_arith)
        requires
            0 <= y < height,
            0 < width,
    ;
    assert(width * height == height * width) by (nonlinear_arith);
    vstd::arithmetic::div_mod::lemma_fundamental_div_mod_converse(y * width + x, width, y, x);
}

/// An index inside the storage of a `width` by `height` rectangle counts
/// out a coordinate inside the rectangle.
pub proof fn lemma_index_split(width: int, height: int, i: int)
    requires
        0 <= width,
        0 <= height,
        0 <= i < width * height,
    ensures
        0 < width,
        0 <= i % width < width,
        0 <= i / width < height,
        (i / width) * width + i % width == i,
{
    assert(width > 0) by (nonlinear_arith)
        requires
            0 <= width,
            0 <= i < width * height,
    ;
    vstd::arithmetic::div_mod::lemma_fundamental_div_mod(i, width);
    vstd::arithmetic::div_mod::lemma_mod_bound(i, width);
    let q = i / width;
    assert(width * q == q * width) by (nonlinear_arith);
    assert(0 <= q < height) by (nonlinear_arith)
        requires
            0 < width,
            0 <= height,
            0 <= i < width * height,
            0 <= i - q * width < width,
    ;
}

/// An addressable two-dimensional field that holds one value per
/// coordinate.  It carries pixels (an image), plain energies, or
/// energies with a back-pointer, depending on `P`.
///
/// The cell at column `x` of row `y` is stored at index `y * width + x`.
#[derive(Debug)]
pub struct TwoDimensionalMap<P> {
    pub width: u32,
    pub height: u32,
    pub energy: Vec<P>,
}

impl<P> View for TwoDimensionalMap<P> {
    type V = Plane<P>;

    open spec fn view(&self) -> Plane<P> {
        Plane { width: self.width as nat, height: self.height as nat, cells: self.energy@ }
    }
}

impl<P> TwoDimensionalMap<P> {
    /// The storage has exactly one cell per coordinate.
    pub open spec fn wf(&self) -> bool {
        self@.wf()
    }

    /// The index in the storage of the cell at column `x` of row `y`.
    ///
    /// Absolutely, the number one name of this game is keep the index
    /// math in a singular location and never, ever mess with it.
    pub fn get_index(&self, x: u32, y: u32) -> (index: usize)
        requires
            self.wf(),
            self@.contains(x as int, y as int),
        ensures
            index == y as int * self.width as int + x as int,
            index < self.energy@.len(),
    {
        proof {
            lemma_index_in_range(self.width as int, self.height as int, x as int, y as int);
            assert(self.energy@.len() == self.energy.len());
        }
        (y as usize) * (self.width as usize) + (x as usize)
    }
}

impl<P: Copy> TwoDimensionalMap<P> {
    /// A map of the given size over the given storage, or `None` where
    /// the storage does not hold exactly `width * height` values.
    pub fn from_raw(width: u32, height: u32, energy: Vec<P>) -> (map: Option<Self>)
        ensures
            map is Some <==> energy@.len() == width as int * height as int,
            map matches Some(m) ==> m.width == width && m.height == height && m.energy@
                == energy@ && m.wf(),
    {
        assert(width * height <= u64::MAX) by (nonlinear_arith)
            requires
                width <= u32::MAX,
                height <= u32::MAX,
        ;
        if (energy.len() as u64) == (width as u64) * (height as u64) {
            Some(TwoDimensionalMap { width, height, energy })
        } else {
            None
        }
    }

    /// Get the value at a single coordinate.
    pub fn get_pt(&self, x: u32, y: u32) -> (value: P)
        requires
            self.wf(),
            self@.contains(x as int, y as int),
        ensures
            value == self@.at(x as int, y as int),
    {
        let index = self.get_index(x, y);
        proof {
            self@.lemma_at(x as int, y as int);
        }
        self.energy[index]
    }

    /// Get a mutable reference to the value at a single coordinate.
    pub fn get_pt_mut(&mut self, x: u32, y: u32) -> (cell: &mut P)
        requires
            old(self).wf(),
            old(self)@.contains(x as int, y as int),
        ensures
            *cell == old(self)@.at(x as int, y as int),
            final(self)@ == old(self)@.with(x as int, y as int, *final(cell)),
    {
        let index = self.get_index(x, y);
        proof {
            self@.lemma_at(x as int, y as int);
        }
        &mut self.energy[index]
    }

    /// Set the value at a single coordinate.
    pub fn put_pt(&mut self, x: u32, y: u32, e: P)
        requires
            old(self).wf(),
            old(self)@.contains(x as int, y as int),
        ensures
            final(self).wf(),
            final(self)@ == old(self)@.with(x as int, y as int, e),
            final(self).width == old(self).width,
            final(self).height == old(self).height,
            forall|i: int, j: int|
                old(self)@.contains(i, j) ==> #[trigger] final(self)@.at(i, j) == if i == x && j
                    == y {
                    e
                } else {
                    old(self)@.at(i, j)
                },
    {
        proof {
            self@.lemma_with(x as int, y as int, e);
        }
        *self.get_pt_mut(x, y) = e
    }

    /// A map of the given size, every cell holding `fill`.
    pub fn filled(width: u32, height: u32, fill: P) -> (map: Self)
        requires
            width as int * height as int <= usize::MAX,
        ensures
            map.wf(),
            map.width == width,
            map.height == height,
            forall|i: int| 0 <= i < map.energy@.len() ==> #[trigger] map.energy@[i] == fill,
            forall|x: int, y: int| map@.contains(x, y) ==> #[trigger] map@.at(x, y) == fill,
    {
        let cells: usize = (width as usize) * (height as usize);
        let mut energy: Vec<P> = Vec::with_capacity(cells);
        let mut i: usize = 0;
        while i < cells
            invariant
                i <= cells,
                energy@.len() == i,
                forall|k: int| 0 <= k < i ==> energy@[k] == fill,
            decreases cells - i,
        {
            energy.push(fill);
            i += 1;
        }
        let map = TwoDimensionalMap { width, height, energy };
        proof {
            assert forall|x: int, y: int| map@.contains(x, y) implies #[trigger] map@.at(x, y)
                == fill by {
                map@.lemma_at(x, y);
            }
        }
        map
    }

    /// The map mirrored at its diagonal: what was column `x` of row `y`
    /// is column `y` of row `x`.
    pub fn transposed(&self) -> (flipped: Self)
        requires
            self.wf(),
        ensures
            flipped.wf(),
            flipped.width == self.height,
            flipped.height == self.width,
            flipped@ == self@.transposed(),
    {
        let (width, height) = (self.width, self.height);
        proof {
            self@.lemma_transposed();
            assert(self.energy@.len() == self.energy.len());
        }
        if width == 0 || height == 0 {
            let flipped = TwoDimensionalMap { width: height, height: width, energy: Vec::new() };
            proof {
                assert(width * height == 0) by (nonlinear_arith)
                    requires
                        width == 0 || height == 0,
                ;
                flipped@.lemma_equal(self@.transposed());
            }
            return flipped;
        }
        let mut flipped = Self::filled(height, width, self.get_pt(0, 0));
        let mut y: u32 = 0;
        while y < height
            invariant
                y <= height,
                width == self.width,
                height == self.height,
                self.wf(),
                flipped.wf(),
                flipped.width == height,
                flipped.height == width,
                forall|i: int, j: int|
                    0 <= i < width && 0 <= j < y ==> #[trigger] flipped@.at(j, i) == self@.at(i, j),
            decreases height - y,
        {
            let mut x: u32 = 0;
            while x < width
                invariant
                    x <= width,
                    y < height,
                    width == self.width,
                    height == self.height,
                    self.wf(),
                    flipped.wf(),
                    flipped.width == height,
                    flipped.height == width,
                    forall|i: int, j: int|
                        0 <= i < width && 0 <= j < y ==> #[trigger] flipped@.at(j, i) == self@.at(
                            i,
                            j,
                        ),
                    forall|i: int| 0 <= i < x ==> #[trigger] flipped@.at(y as int, i) == self@.at(i, y as int),
                decreases width - x,
            {
                flipped.put_pt(y, x, self.get_pt(x, y));
                x += 1;
            }
            y += 1;
        }
        proof {
            flipped@.lemma_equal(self@.transposed());
        }
        flipped
    }
}

impl<P: Default + Copy> TwoDimensionalMap<P> {
    /// A new map of the given size, every cell holding the default value
    /// of the content type.
    pub fn new(width: u32, height: u32) -> (map: Self)
        requires
            width as int * height as int <= usize::MAX,
        ensures
            map.wf(),
            map.width == width,
            map.height == height,
            forall|i: int|
                0 <= i < map.energy@.len() ==> call_ensures(
                    P::default,
                    (),
                    #[trigger] map.energy@[i],
                ),
            forall|i: int, j: int|
                0 <= i < map.energy@.len() && 0 <= j < map.energy@.len() ==> map.energy@[i]
                    == map.energy@[j],
    {
        Self::filled(width, height, P::default())
    }
}

/// The energy of a coordinate together with a back-pointer: the column
/// (or row) in the line before from which the cheapest path arrives.
#[derive(Debug, Copy, Clone)]
pub struct EnergyAndBackPointer<P> {
    pub energy: P,
    pub parent: u32,
}

/// The map that seams are read from: for each coordinate the cost of the
/// cheapest path that ends there, and where that path comes from.
pub type EnergyMap = TwoDimensionalMap<EnergyAndBackPointer<u64>>;

impl<P: Default + Copy> EnergyAndBackPointer<P> {
    /// A cell that holds the given energy and back-pointer.
    pub fn new(energy: P, parent: u32) -> (cell: Self)
        ensures
            cell.energy == energy,
            cell.parent == parent,
    {
        EnergyAndBackPointer { energy, parent }
    }
}

impl<P: Default + Copy> Default for EnergyAndBackPointer<P> {
    /// The cell of default energy that points back to column 0.
    fn default() -> (cell: Self)
        ensures
            call_ensures(P::default, (), cell.energy),
            cell.parent == 0,
    {
        EnergyAndBackPointer { energy: P::default(), parent: 0 }
    }
}

} // verus!

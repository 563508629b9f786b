//! One decoded cross-section: a grid of intensity samples.

use vstd::prelude::*;

verus! {

/// The content of a slice: `samples` holds the rows one after the other, each
/// row from its first column to its last.
pub struct Grid {
    pub width: nat,
    pub height: nat,
    pub samples: Seq<i16>,
}

impl Grid {
    /// Every cell of the grid has its sample.
    pub open spec fn filled(self) -> bool {
        self.samples.len() == self.width * self.height
    }

    /// The sample in column `x` of row `y`.
    pub open spec fn at(self, x: int, y: int) -> i16
        recommends
            0 <= x < self.width,
            0 <= y < self.height,
    {
        self.samples[y * self.width + x]
    }

    /// The two grids have as many columns and as many rows as each other.
    pub open spec fn same_shape(self, other: Grid) -> bool {
        self.width == other.width && self.height == other.height
    }
}

/// A decoded slice. It always holds `width * height` samples, in row order.
#[derive(Debug)]
pub struct DecodedSlice {
    width: usize,
    height: usize,
    samples: Vec<i16>,
}

impl View for DecodedSlice {
    type V = Grid;

    closed spec fn view(&self) -> Grid {
        Grid { width: self.width as nat, height: self.height as nat, samples: self.samples@ }
    }
}

impl DecodedSlice {
    #[verifier::type_invariant]
    spec fn every_cell_sampled(self) -> bool {
        self.samples@.len() == self.width * self.height
    }

    /// Makes a slice of `width` columns and `height` rows out of `samples`, or
    /// nothing where their number is not `width * height`.
    pub fn new(width: usize, height: usize, samples: Vec<i16>) -> (r: Option<DecodedSlice>)
        ensures
            r is Some <==> samples@.len() == width * height,
            r matches Some(s) ==> s@ == (Grid {
                width: width as nat,
                height: height as nat,
                samples: samples@,
            }) && s@.filled(),
    {
        let given = samples.len();
        match width.checked_mul(height) {
            Some(cells) => {
                if given == cells {
                    Some(DecodedSlice { width, height, samples })
                } else {
                    None
                }
            },
            None => None,
        }
    }

    /// The number of columns.
    pub fn width(&self) -> (w: usize)
        ensures
            w == self@.width,
    {
        self.width
    }

    /// The number of rows.
    pub fn height(&self) -> (h: usize)
        ensures
            h == self@.height,
    {
        self.height
    }

    /// The samples, row after row; there are `width * height` of them.
    pub fn samples(&self) -> (s: &Vec<i16>)
        ensures
            s@ == self@.samples,
            self@.filled(),
    {
        proof {
            use_type_invariant(self);
        }
        &self.samples
    }

    /// The sample in column `x` of row `y`, or nothing outside the grid.
    pub fn get(&self, x: usize, y: usize) -> (r: Option<i16>)
        ensures
            r is Some <==> x < self@.width && y < self@.height,
            r matches Some(v) ==> v == self@.at(x as int, y as int),
    {
        proof {
            use_type_invariant(self);
        }
        if x < self.width && y < self.height {
            assert(self.samples.len() <= usize::MAX);
            assert(0 <= y * self.width && y * self.width + x < self.width * self.height)
                by (nonlinear_arith)
                requires
                    0 <= x < self.width,
                    0 <= y < self.height,
            ;
            Some(self.samples[y * self.width + x])
        } else {
            None
        }
    }
}

} // verus!

//! Stacks decoded slices into one volume.
//!
//! The buffer of a volume is laid out with the column varying fastest, then
//! the row, then the slice: the sample in column `x` and row `y` of slice `z`
//! stands at position `(z * height + y) * width + x`. Every slice therefore
//! occupies one contiguous region of the buffer, and the regions follow each
//! other in slice order.

use vstd::prelude::*;
use crate::error::PipelineError;
use crate::slice::DecodedSlice;

verus! {

/// The content of a volume: `depth` slices of `width` columns and `height`
/// rows each, their samples one slice after the other.
pub struct Solid {
    pub width: nat,
    pub height: nat,
    pub depth: nat,
    pub samples: Seq<i16>,
}

impl Solid {
    /// Every cell of the volume has its sample.
    pub open spec fn filled(self) -> bool {
        self.samples.len() == self.width * self.height * self.depth
    }

    /// Where the sample in column `x` and row `y` of slice `z` stands.
    pub open spec fn position(self, x: int, y: int, z: int) -> int {
        (z * self.height + y) * self.width + x
    }

    /// The sample in column `x` and row `y` of slice `z`.
    pub open spec fn at(self, x: int, y: int, z: int) -> i16
        recommends
            0 <= x < self.width,
            0 <= y < self.height,
            0 <= z < self.depth,
    {
        self.samples[self.position(x, y, z)]
    }
}

/// All slices have the shape of the first one.
pub open spec fn uniform(slices: Seq<DecodedSlice>) -> bool {
    forall|i: int| 0 <= i < slices.len() ==> (#[trigger] slices[i])@.same_shape(slices[0]@)
}

/// Slice `index` is the first whose shape is not that of the first slice.
pub open spec fn first_mismatch(slices: Seq<DecodedSlice>, index: int) -> bool {
    &&& 0 < index < slices.len()
    &&& !slices[index]@.same_shape(slices[0]@)
    &&& forall|i: int| 0 <= i < index ==> (#[trigger] slices[i])@.same_shape(slices[0]@)
}

/// The failure `e` names the first slice whose shape is not that of the first
/// slice, and the shape that it has.
pub open spec fn shape_failure(slices: Seq<DecodedSlice>, e: PipelineError) -> bool {
    &&& e matches PipelineError::ShapeMismatch { index, width, height }
    &&& first_mismatch(slices, index as int)
    &&& width == slices[index as int]@.width
    &&& height == slices[index as int]@.height
}

/// The failure of the shape check is a function of the slices.
pub proof fn lemma_shape_failure_is_determined(
    slices: Seq<DecodedSlice>,
    a: PipelineError,
    b: PipelineError,
)
    requires
        shape_failure(slices, a),
        shape_failure(slices, b),
    ensures
        a == b,
{
}

/// The samples of all slices, one slice after the other.
pub open spec fn concatenated(slices: Seq<DecodedSlice>) -> Seq<i16>
    decreases slices.len(),
{
    if slices.len() == 0 {
        Seq::empty()
    } else {
        concatenated(slices.drop_last()) + slices.last()@.samples
    }
}

/// The volume that stacks `slices`: as deep as there are slices, as wide and
/// as high as the first of them (0 by 0 if there is none), with the samples of
/// the slices one after the other.
pub open spec fn stacked(slices: Seq<DecodedSlice>) -> Solid {
    Solid {
        width: if slices.len() == 0 { 0 } else { slices[0]@.width },
        height: if slices.len() == 0 { 0 } else { slices[0]@.height },
        depth: slices.len(),
        samples: concatenated(slices),
    }
}

/// Slices of the same content hold the same samples together.
proof fn lemma_concatenated_by_content(a: Seq<DecodedSlice>, b: Seq<DecodedSlice>)
    requires
        a.len() == b.len(),
        forall|k: int|
            #![trigger a[k]]
            #![trigger b[k]]
            0 <= k < a.len() ==> a[k]@ == b[k]@,
    ensures
        concatenated(a) == concatenated(b),
    decreases a.len(),
{
    if a.len() > 0 {
        let n = a.len() as int;
        assert forall|k: int|
            #![trigger a.drop_last()[k]]
            #![trigger b.drop_last()[k]]
            0 <= k < a.drop_last().len() implies a.drop_last()[k]@ == b.drop_last()[k]@ by {
            assert(a.drop_last()[k] == a[k]);
            assert(b.drop_last()[k] == b[k]);
        }
        lemma_concatenated_by_content(a.drop_last(), b.drop_last());
        assert(a.last() == a[n - 1]);
        assert(b.last() == b[n - 1]);
    }
}

/// Slices of the same content stack to the same volume, are uniform alike and
/// fail the shape check alike.
pub proof fn lemma_stacked_by_content(a: Seq<DecodedSlice>, b: Seq<DecodedSlice>)
    requires
        a.len() == b.len(),
        forall|k: int|
            #![trigger a[k]]
            #![trigger b[k]]
            0 <= k < a.len() ==> a[k]@ == b[k]@,
    ensures
        stacked(a) == stacked(b),
        uniform(a) == uniform(b),
        forall|e: PipelineError| #[trigger] shape_failure(a, e) == shape_failure(b, e),
{
    lemma_concatenated_by_content(a, b);
    if a.len() > 0 {
        assert(a[0]@ == b[0]@);
    }
    assert forall|index: int| first_mismatch(a, index) == first_mismatch(b, index) by {
        if 0 < index < a.len() {
            assert(a[index]@ == b[index]@);
        }
    }
    assert forall|e: PipelineError| #[trigger] shape_failure(a, e) == shape_failure(b, e) by {
        match e {
            PipelineError::ShapeMismatch { index, width, height } => {
                assert(first_mismatch(a, index as int) == first_mismatch(b, index as int));
                if first_mismatch(a, index as int) {
                    assert(a[index as int]@ == b[index as int]@);
                }
            },
            _ => {},
        }
    }
}

/// Slices of `cells` samples each hold `cells` samples per slice together.
proof fn lemma_concatenated_cells(slices: Seq<DecodedSlice>, cells: nat)
    requires
        forall|i: int| 0 <= i < slices.len() ==> (#[trigger] slices[i])@.samples.len() == cells,
    ensures
        concatenated(slices).len() == slices.len() * cells,
    decreases slices.len(),
{
    let n = slices.len();
    if n == 0 {
        assert(n * cells == 0) by (nonlinear_arith)
            requires
                n == 0,
        ;
    } else {
        let front = slices.drop_last();
        assert forall|i: int| 0 <= i < front.len() implies (#[trigger] front[i])@.samples.len()
            == cells by {
            assert(front[i] == slices[i]);
        }
        lemma_concatenated_cells(front, cells);
        assert(slices.last() == slices[n - 1]);
        assert(concatenated(slices).len() == front.len() * cells + cells);
        assert(front.len() * cells + cells == n * cells) by (nonlinear_arith)
            requires
                n == front.len() + 1,
        ;
    }
}

/// Every uniform slice holds as many samples as the first.
proof fn lemma_uniform_cells(slices: Seq<DecodedSlice>)
    requires
        slices.len() > 0,
        uniform(slices),
        forall|i: int| 0 <= i < slices.len() ==> (#[trigger] slices[i])@.filled(),
    ensures
        forall|i: int|
            0 <= i < slices.len() ==> (#[trigger] slices[i])@.samples.len() == slices[0]@.width
                * slices[0]@.height,
{
    assert forall|i: int| 0 <= i < slices.len() implies (#[trigger] slices[i])@.samples.len()
        == slices[0]@.width * slices[0]@.height by {
        assert(slices[i]@.same_shape(slices[0]@));
        assert(slices[i]@.filled());
    }
}

/// Uniform slices make up as many samples as the stacked volume has cells.
pub proof fn lemma_concatenated_len(slices: Seq<DecodedSlice>)
    requires
        uniform(slices),
        forall|i: int| 0 <= i < slices.len() ==> (#[trigger] slices[i])@.filled(),
    ensures
        stacked(slices).filled(),
{
    let solid = stacked(slices);
    if slices.len() == 0 {
        assert(solid.width * solid.height * solid.depth == 0) by (nonlinear_arith)
            requires
                solid.depth == 0,
        ;
    } else {
        let cells = slices[0]@.width * slices[0]@.height;
        lemma_uniform_cells(slices);
        lemma_concatenated_cells(slices, cells);
        assert(solid.width * solid.height * solid.depth == slices.len() * cells)
            by (nonlinear_arith)
            requires
                cells == solid.width * solid.height,
                solid.depth == slices.len(),
        ;
    }
}

/// A cell of a slice, counted from the start of the volume.
proof fn lemma_position(x: int, y: int, z: int, w: int, h: int)
    by (nonlinear_arith)
    requires
        0 <= x < w,
        0 <= y < h,
        0 <= z,
    ensures
        (z * h + y) * w + x == z * (w * h) + (y * w + x),
        0 <= y * w + x < w * h,
{
}

/// The region of slice `z` lies inside the first `n` regions.
proof fn lemma_region(z: int, n: int, cells: int, r: int)
    by (nonlinear_arith)
    requires
        0 <= z < n,
        0 <= r < cells,
    ensures
        0 <= z * cells,
        z * cells + r < n * cells,
{
}

/// Slice order is depth order: the sample in column `x` and row `y` of slice
/// `z` of the stacked volume is the sample in column `x` and row `y` of the
/// `z`-th slice.
pub proof fn lemma_stacked_sample(slices: Seq<DecodedSlice>, x: int, y: int, z: int)
    requires
        uniform(slices),
        forall|i: int| 0 <= i < slices.len() ==> (#[trigger] slices[i])@.filled(),
        0 <= z < slices.len(),
        0 <= x < slices[0]@.width,
        0 <= y < slices[0]@.height,
    ensures
        0 <= stacked(slices).position(x, y, z) < stacked(slices).samples.len(),
        stacked(slices).at(x, y, z) == slices[z]@.at(x, y),
{
    let w = slices[0]@.width;
    let h = slices[0]@.height;
    let cells = w * h;
    lemma_uniform_cells(slices);
    lemma_position(x, y, z, w as int, h as int);
    assert(slices[z]@.same_shape(slices[0]@));
    lemma_concatenated_at(slices, cells, z, y * w + x);
    assert(stacked(slices).position(x, y, z) == z * cells + (y * w + x));
}

/// Where all slices hold `cells` samples, sample `r` of slice `z` stands at
/// position `z * cells + r` of what they make up together.
proof fn lemma_concatenated_at(slices: Seq<DecodedSlice>, cells: nat, z: int, r: int)
    requires
        forall|i: int| 0 <= i < slices.len() ==> (#[trigger] slices[i])@.samples.len() == cells,
        0 <= z < slices.len(),
        0 <= r < cells,
    ensures
        0 <= z * cells + r < concatenated(slices).len(),
        concatenated(slices)[z * cells + r] == slices[z]@.samples[r],
    decreases slices.len(),
{
    let n = slices.len() as int;
    let front = slices.drop_last();
    assert forall|i: int| 0 <= i < front.len() implies (#[trigger] front[i])@.samples.len()
        == cells by {
        assert(front[i] == slices[i]);
    }
    lemma_concatenated_cells(slices, cells);
    lemma_concatenated_cells(front, cells);
    lemma_region(z, n, cells as int, r);
    assert(n * cells == cells * n && (n - 1) * cells == front.len() * cells) by (nonlinear_arith)
        requires
            front.len() == n - 1,
    ;
    assert(slices.last() == slices[n - 1]);
    let p = z * cells + r;
    if z == n - 1 {
        assert(p - (n - 1) * cells == r) by (nonlinear_arith)
            requires
                p == z * cells + r,
                z == n - 1,
        ;
        assert(concatenated(slices)[p] == slices.last()@.samples[p - concatenated(front).len()]);
    } else {
        lemma_region(z, n - 1, cells as int, r);
        lemma_concatenated_at(front, cells, z, r);
        assert(front[z] == slices[z]);
        assert(concatenated(slices)[p] == concatenated(front)[p]);
    }
}

/// A volume: `width * height * depth` samples, one slice after the other.
#[derive(Debug)]
pub struct Volume {
    width: usize,
    height: usize,
    depth: usize,
    samples: Vec<i16>,
}

impl View for Volume {
    type V = Solid;

    closed spec fn view(&self) -> Solid {
        Solid {
            width: self.width as nat,
            height: self.height as nat,
            depth: self.depth as nat,
            samples: self.samples@,
        }
    }
}

/// The flat form of a volume, with its shape, as it is handed to a renderer.
#[derive(Debug)]
pub struct VolumeBuffer {
    pub data: Vec<i16>,
    pub width: usize,
    pub height: usize,
    pub depth: usize,
}

impl View for VolumeBuffer {
    type V = Solid;

    open spec fn view(&self) -> Solid {
        Solid {
            width: self.width as nat,
            height: self.height as nat,
            depth: self.depth as nat,
            samples: self.data@,
        }
    }
}

impl Volume {
    #[verifier::type_invariant]
    spec fn every_cell_sampled(self) -> bool {
        self.samples@.len() == self.width * self.height * self.depth
    }

    /// The number of columns of each slice.
    pub fn width(&self) -> (w: usize)
        ensures
            w == self@.width,
    {
        self.width
    }

    /// The number of rows of each slice.
    pub fn height(&self) -> (h: usize)
        ensures
            h == self@.height,
    {
        self.height
    }

    /// The number of slices.
    pub fn depth(&self) -> (d: usize)
        ensures
            d == self@.depth,
    {
        self.depth
    }

    /// The sample in column `x` and row `y` of slice `z`, or nothing outside
    /// the volume.
    pub fn get(&self, x: usize, y: usize, z: usize) -> (r: Option<i16>)
        ensures
            self@.filled(),
            r is Some <==> x < self@.width && y < self@.height && z < self@.depth,
            r matches Some(v) ==> v == self@.at(x as int, y as int, z as int),
    {
        proof {
            use_type_invariant(self);
        }
        if x < self.width && y < self.height && z < self.depth {
            assert(self.samples.len() <= usize::MAX);
            proof {
                let w = self.width as int;
                let h = self.height as int;
                lemma_position(x as int, y as int, z as int, w, h);
                lemma_region(z as int, self.depth as int, w * h, y * w + x);
                assert(0 <= z * h && z * h + y < self.depth * h) by (nonlinear_arith)
                    requires
                        0 <= z < self.depth,
                        0 <= y < h,
                ;
                assert(0 <= (z * h + y) * w) by (nonlinear_arith)
                    requires
                        0 <= z * h + y,
                        0 <= w,
                ;
                assert(self.depth * h <= self.depth * (w * h) && self.depth * (w * h) == w * h
                    * self.depth) by (nonlinear_arith)
                    requires
                        0 < w,
                        0 <= h,
                        0 <= self.depth,
                ;
            }
            Some(self.samples[(z * self.height + y) * self.width + x])
        } else {
            None
        }
    }

    /// Hands the samples over as one flat buffer, with the shape beside them.
    /// No sample is copied.
    pub fn flatten(self) -> (buffer: VolumeBuffer)
        ensures
            buffer@ == self@,
            buffer@.filled(),
    {
        proof {
            use_type_invariant(&self);
        }
        VolumeBuffer {
            data: self.samples,
            width: self.width,
            height: self.height,
            depth: self.depth,
        }
    }
}

/// How many samples to reserve for a volume of this shape: all of them, or
/// none where their number is beyond what one allocation can hold.
fn reservation(width: usize, height: usize, depth: usize) -> (cells: usize)
    ensures
        cells == reserved(width, height, depth),
{
    match width.checked_mul(height) {
        Some(per_slice) => match per_slice.checked_mul(depth) {
            Some(all) => if all <= usize::MAX / 4 {
                all
            } else {
                0
            },
            None => 0,
        },
        None => {
            assert(width * height * depth == 0 || width * height * depth > usize::MAX)
                by (nonlinear_arith)
                requires
                    width * height > usize::MAX,
                    depth >= 0,
            ;
            0
        },
    }
}

/// The number of samples of a volume of this shape, where one allocation can
/// hold them with room to spare, and 0 where it cannot.
spec fn reserved(width: usize, height: usize, depth: usize) -> int {
    let cells = width * height * depth;
    if cells <= usize::MAX / 4 {
        cells
    } else {
        0
    }
}

/// Checks that every slice has the shape of the first, before any stacking.
/// The failure names the first slice that differs, and its shape.
pub fn check_uniform(slices: &Vec<DecodedSlice>) -> (r: Result<(), PipelineError>)
    ensures
        r is Ok <==> uniform(slices@),
        r matches Err(e) ==> shape_failure(slices@, e),
{
    if slices.len() == 0 {
        return Ok(());
    }
    let width = slices[0].width();
    let height = slices[0].height();
    let mut i: usize = 1;
    while i < slices.len()
        invariant
            1 <= i <= slices.len(),
            width == slices[0]@.width,
            height == slices[0]@.height,
            forall|j: int| 0 <= j < i ==> (#[trigger] slices[j])@.same_shape(slices[0]@),
        decreases slices.len() - i,
    {
        let w = slices[i].width();
        let h = slices[i].height();
        if w != width || h != height {
            return Err(PipelineError::ShapeMismatch { index: i, width: w, height: h });
        }
        i += 1;
    }
    Ok(())
}

/// Stacks uniform slices into a volume, each slice copied once into its own
/// region of the buffer.
pub fn stack(slices: &Vec<DecodedSlice>) -> (volume: Volume)
    requires
        uniform(slices@),
    ensures
        volume@ == stacked(slices@),
        volume@.filled(),
        forall|i: int| 0 <= i < slices.len() ==> (#[trigger] slices[i])@.filled(),
{
    let depth = slices.len();
    let width = if depth == 0 {
        0
    } else {
        slices[0].width()
    };
    let height = if depth == 0 {
        0
    } else {
        slices[0].height()
    };
    let mut samples: Vec<i16> = Vec::with_capacity(reservation(width, height, depth));
    let mut z: usize = 0;
    while z < depth
        invariant
            z <= depth,
            depth == slices.len(),
            samples@ == concatenated(slices@.take(z as int)),
            forall|i: int| 0 <= i < z ==> (#[trigger] slices[i])@.filled(),
        decreases depth - z,
    {
        let region = slices[z].samples();
        samples.extend_from_slice(region.as_slice());
        proof {
            let upto = slices@.take(z + 1);
            assert(upto.drop_last() == slices@.take(z as int));
            assert(upto.last() == slices@[z as int]);
            assert(samples@ == concatenated(slices@.take(z as int)) + slices[z as int]@.samples);
        }
        z += 1;
    }
    proof {
        assert(slices@.take(depth as int) == slices@);
        lemma_concatenated_len(slices@);
    }
    Volume { width, height, depth, samples }
}

/// Validates the slices, stacks them in their order and flattens the result.
///
/// It succeeds exactly when all slices have the shape of the first. The volume
/// is then as deep as there are slices, and slice `z` of it is the `z`-th of
/// them; without any slice it is 0 by 0 by 0. Otherwise the failure names the
/// first slice whose shape differs, and that shape.
pub fn assemble(slices: &Vec<DecodedSlice>) -> (r: Result<VolumeBuffer, PipelineError>)
    ensures
        r is Ok <==> uniform(slices@),
        r matches Ok(buffer) ==> buffer@ == stacked(slices@) && buffer@.filled(),
        r matches Ok(buffer) ==> forall|x: int, y: int, z: int|
            0 <= x < buffer@.width && 0 <= y < buffer@.height && 0 <= z < buffer@.depth
                ==> #[trigger] buffer@.at(x, y, z) == slices[z]@.at(x, y),
        r matches Err(e) ==> shape_failure(slices@, e),
{
    match check_uniform(slices) {
        Err(e) => Err(e),
        Ok(()) => {
            let volume = stack(slices);
            let buffer = volume.flatten();
            proof {
                assert forall|x: int, y: int, z: int|
                    0 <= x < buffer@.width && 0 <= y < buffer@.height && 0 <= z
                        < buffer@.depth implies #[trigger] buffer@.at(x, y, z) == slices[z]@.at(
                    x,
                    y,
                ) by {
                    lemma_stacked_sample(slices@, x, y, z);
                }
            }
            Ok(buffer)
        },
    }
}

} // verus!

//! Per-pixel multisampling: each base pixel holds a fixed number of color
//! samples in a flat arena, and resolve averages the samples of each pixel.

use vstd::prelude::*;
use crate::color::{average_color, average_of, lemma_average_uniform, Color};
use crate::raster::{lemma_flat_index_decompose, lemma_row_major_in_range, lemma_row_major_unique, Image};
use crate::RenderError;

verus! {

/// A multisampling buffer: `width x height` base pixels, each with exactly
/// `sample_count` color slots, stored contiguously as
/// `(y * width + x) * sample_count + slot`.
pub struct MultisampleBuffer {
    pub width: u32,
    pub height: u32,
    pub sample_count: u32,
    pub samples: Vec<Color>,
}

/// Arena slots are unique: a flat slot index determines the pixel coordinate
/// and the slot within the pixel.
pub proof fn lemma_arena_slot_unique(
    w: int, c: int, x1: int, y1: int, k1: int, x2: int, y2: int, k2: int,
)
    requires
        w >= 1,
        c >= 1,
        0 <= x1 < w,
        0 <= x2 < w,
        y1 >= 0,
        y2 >= 0,
        0 <= k1 < c,
        0 <= k2 < c,
        (y1 * w + x1) * c + k1 == (y2 * w + x2) * c + k2,
    ensures
        x1 == x2,
        y1 == y2,
        k1 == k2,
{
    let p1 = y1 * w + x1;
    let p2 = y2 * w + x2;
    assert(p1 * c + k1 == k1 + p1 * c);
    lemma_row_major_unique(c, k1, p1, k2, p2);
    lemma_row_major_unique(w, x1, y1, x2, y2);
}

impl MultisampleBuffer {
    /// Dimensions are nonzero, the arena size fits the machine, and the arena
    /// holds one slot per pixel and sample.
    pub open spec fn wf(self) -> bool {
        &&& self.width >= 1
        &&& self.height >= 1
        &&& self.sample_count >= 1
        &&& self.width * self.height <= u32::MAX
        &&& (self.width * self.height) * self.sample_count <= u32::MAX
        &&& self.samples@.len() == (self.width * self.height) * self.sample_count
    }

    /// Flat arena index of slot `k` of pixel `(x, y)`.
    pub open spec fn slot_index(self, x: int, y: int, k: int) -> int {
        (y * self.width + x) * self.sample_count + k
    }

    /// The ordered sequence of `sample_count` samples of pixel `(x, y)`.
    pub open spec fn pixel_samples(self, x: int, y: int) -> Seq<Color>
        recommends
            self.wf(),
            0 <= x < self.width,
            0 <= y < self.height,
    {
        self.samples@.subrange(self.slot_index(x, y, 0), self.slot_index(x, y, self.sample_count as int))
    }

    /// `img` is the resolved image of this buffer: it has the base
    /// dimensions and each pixel is the truncating channel-wise average of
    /// that pixel's samples.
    pub open spec fn is_resolve_of(self, img: Image) -> bool {
        &&& img.wf()
        &&& img.width == self.width
        &&& img.height == self.height
        &&& forall|x: int, y: int|
            0 <= x < self.width && 0 <= y < self.height
                ==> img.pixel_at(x, y) == average_color(self.pixel_samples(x, y))
    }

    /// A slot of an in-range pixel lies inside the arena.
    proof fn lemma_slot_in_range(self, x: int, y: int, k: int)
        requires
            self.wf(),
            0 <= x < self.width,
            0 <= y < self.height,
            0 <= k < self.sample_count,
        ensures
            0 <= self.slot_index(x, y, 0),
            self.slot_index(x, y, k) < (self.width * self.height) * self.sample_count,
            self.slot_index(x, y, 0) <= self.slot_index(x, y, k)
                < self.slot_index(x, y, self.sample_count as int),
            self.slot_index(x, y, self.sample_count as int)
                <= (self.width * self.height) * self.sample_count,
    {
        let w = self.width as int;
        let h = self.height as int;
        let c = self.sample_count as int;
        let p = y * w + x;
        lemma_row_major_in_range(w, h, x, y);
        assert(0 <= p * c && p * c + k < (w * h) * c && p * c + c <= (w * h) * c)
            by (nonlinear_arith)
            requires
                0 <= p < w * h,
                0 <= k < c,
        ;
    }

    /// The samples of an in-range pixel are exactly `sample_count` many, and
    /// slot `k` of the pixel is arena entry `slot_index(x, y, k)`.
    pub proof fn lemma_pixel_samples_len(self, x: int, y: int)
        requires
            self.wf(),
            0 <= x < self.width,
            0 <= y < self.height,
        ensures
            self.pixel_samples(x, y).len() == self.sample_count,
            forall|k: int|
                0 <= k < self.sample_count
                    ==> self.pixel_samples(x, y)[k] == self.samples@[self.slot_index(x, y, k)],
    {
        self.lemma_slot_in_range(x, y, 0);
    }

    /// Creates a buffer with every sample slot of every pixel initialized to
    /// black. Fails with [`RenderError::InvalidDimension`] exactly when one
    /// of the three arguments is zero.
    pub fn new(width: u32, height: u32, sample_count: u32) -> (result: Result<MultisampleBuffer, RenderError>)
        requires
            width * height <= u32::MAX,
            (width * height) * sample_count <= u32::MAX,
        ensures
            match result {
                Ok(buf) => {
                    &&& width >= 1 && height >= 1 && sample_count >= 1
                    &&& buf.wf()
                    &&& buf.width == width
                    &&& buf.height == height
                    &&& buf.sample_count == sample_count
                    &&& forall|i: int| 0 <= i < buf.samples@.len() ==> buf.samples@[i] == Color::black()
                },
                Err(e) => {
                    &&& width == 0 || height == 0 || sample_count == 0
                    &&& e == RenderError::InvalidDimension
                },
            },
    {
        if width == 0 || height == 0 || sample_count == 0 {
            return Err(RenderError::InvalidDimension);
        }
        let total = ((width as u64 * height as u64) * sample_count as u64) as usize;
        let mut samples: Vec<Color> = Vec::new();
        let mut i: usize = 0;
        while i < total
            invariant
                total == (width * height) * sample_count,
                0 <= i <= total,
                samples@.len() == i,
                forall|k: int| 0 <= k < i ==> samples@[k] == Color::black(),
            decreases total - i,
        {
            samples.push(Color::new(0, 0, 0));
            i = i + 1;
        }
        Ok(MultisampleBuffer { width, height, sample_count, samples })
    }

    /// Writes one sample slot. An out-of-range coordinate or slot index
    /// leaves the buffer untouched (a clipped write, not an error).
    pub fn set_sample(&mut self, x: u32, y: u32, sample_index: u32, color: Color)
        requires
            old(self).wf(),
        ensures
            final(self).wf(),
            final(self).width == old(self).width,
            final(self).height == old(self).height,
            final(self).sample_count == old(self).sample_count,
            if x < old(self).width && y < old(self).height && sample_index < old(self).sample_count {
                &&& final(self).samples@ == old(self).samples@.update(
                    old(self).slot_index(x as int, y as int, sample_index as int), color,
                )
                &&& final(self).pixel_samples(x as int, y as int) == old(self).pixel_samples(
                    x as int, y as int,
                ).update(sample_index as int, color)
                &&& forall|i: int, j: int|
                    0 <= i < old(self).width && 0 <= j < old(self).height && !(i == x && j == y)
                        ==> final(self).pixel_samples(i, j) == old(self).pixel_samples(i, j)
            } else {
                final(self).samples@ == old(self).samples@
            },
    {
        if x < self.width && y < self.height && sample_index < self.sample_count {
            proof {
                lemma_row_major_in_range(
                    self.width as int, self.height as int, x as int, y as int,
                );
                self.lemma_slot_in_range(x as int, y as int, sample_index as int);
            }
            let _n = self.samples.len();
            let pixel_index = y as u64 * self.width as u64 + x as u64;
            let idx = (pixel_index * self.sample_count as u64 + sample_index as u64) as usize;
            self.samples.set(idx, color);
            proof {
                let w = self.width as int;
                let c = self.sample_count as int;
                let sx = x as int;
                let sy = y as int;
                let sk = sample_index as int;
                let target = old(self).slot_index(sx, sy, sk);
                assert(idx == target);
                assert(self.pixel_samples(sx, sy) =~= old(self).pixel_samples(sx, sy).update(
                    sk, color,
                ));
                assert forall|i: int, j: int|
                    0 <= i < w && 0 <= j < old(self).height && !(i == sx && j == sy)
                        implies self.pixel_samples(i, j) == old(self).pixel_samples(i, j) by {
                    old(self).lemma_slot_in_range(i, j, 0);
                    assert forall|k: int| 0 <= k < c
                        implies self.pixel_samples(i, j)[k] == old(self).pixel_samples(i, j)[k] by {
                        old(self).lemma_slot_in_range(i, j, k);
                        assert(self.pixel_samples(i, j)[k] == self.samples@[old(self).slot_index(
                            i, j, k,
                        )]);
                        assert(old(self).pixel_samples(i, j)[k] == old(self).samples@[old(
                            self,
                        ).slot_index(i, j, k)]);
                        if old(self).slot_index(i, j, k) == target {
                            lemma_arena_slot_unique(w, c, i, j, k, sx, sy, sk);
                        }
                    }
                    assert(self.pixel_samples(i, j) =~= old(self).pixel_samples(i, j));
                }
            }
        }
    }

    /// Returns the ordered samples of pixel `(x, y)`, or `None` exactly when
    /// the coordinate is out of range.
    pub fn get_samples(&self, x: u32, y: u32) -> (result: Option<Vec<Color>>)
        requires
            self.wf(),
        ensures
            match result {
                Some(v) => {
                    &&& x < self.width && y < self.height
                    &&& v@ == self.pixel_samples(x as int, y as int)
                },
                None => !(x < self.width && y < self.height),
            },
    {
        if x < self.width && y < self.height {
            proof {
                lemma_row_major_in_range(
                    self.width as int, self.height as int, x as int, y as int,
                );
                self.lemma_slot_in_range(x as int, y as int, 0);
                self.lemma_slot_in_range(x as int, y as int, self.sample_count as int - 1);
            }
            let _n = self.samples.len();
            let base = ((y as u64 * self.width as u64 + x as u64) * self.sample_count as u64) as usize;
            let count = self.sample_count as usize;
            let mut v: Vec<Color> = Vec::new();
            let mut k: usize = 0;
            while k < count
                invariant
                    self.wf(),
                    x < self.width,
                    y < self.height,
                    count == self.sample_count,
                    base == self.slot_index(x as int, y as int, 0),
                    base + count <= self.samples@.len(),
                    0 <= k <= count,
                    v@.len() == k,
                    forall|i: int| 0 <= i < k ==> v@[i] == self.samples@[base + i],
                decreases count - k,
            {
                v.push(self.samples[base + k]);
                k = k + 1;
            }
            proof {
                assert(v@ =~= self.pixel_samples(x as int, y as int));
            }
            Some(v)
        } else {
            None
        }
    }

    /// Produces the resolved image: each pixel is the channel-wise
    /// truncating average of that pixel's `sample_count` samples. The buffer
    /// is not mutated and the result is a pure function of its current state.
    pub fn resolve(&self) -> (img: Image)
        requires
            self.wf(),
        ensures
            self.is_resolve_of(img),
    {
        let mut img = Image::new(self.width, self.height, Color::new(0, 0, 0));
        let mut y: u32 = 0;
        while y < self.height
            invariant
                self.wf(),
                img.wf(),
                img.width == self.width,
                img.height == self.height,
                0 <= y <= self.height,
                forall|i: int, j: int|
                    0 <= i < self.width && 0 <= j < y
                        ==> img.pixel_at(i, j) == average_color(self.pixel_samples(i, j)),
            decreases self.height - y,
        {
            let mut x: u32 = 0;
            while x < self.width
                invariant
                    self.wf(),
                    img.wf(),
                    img.width == self.width,
                    img.height == self.height,
                    0 <= y < self.height,
                    0 <= x <= self.width,
                    forall|i: int, j: int|
                        0 <= i < self.width && 0 <= j < y
                            ==> img.pixel_at(i, j) == average_color(self.pixel_samples(i, j)),
                    forall|i: int|
                        0 <= i < x ==> img.pixel_at(i, y as int) == average_color(
                            self.pixel_samples(i, y as int),
                        ),
                decreases self.width - x,
            {
                proof {
                    self.lemma_pixel_samples_len(x as int, y as int);
                }
                let samples = self.get_samples(x, y).unwrap();
                let avg = average_of(&samples);
                img.set_pixel(x, y, avg);
                x = x + 1;
            }
            y = y + 1;
        }
        img
    }
}

/// Uniform fill of one pixel resolves to the fill color: if every sample of
/// pixel `(x, y)` holds `c`, that pixel of the resolved image is `c`.
pub proof fn lemma_msaa_uniform_resolve_pixel(
    buf: MultisampleBuffer, img: Image, x: int, y: int, c: Color,
)
    requires
        buf.wf(),
        buf.is_resolve_of(img),
        0 <= x < buf.width,
        0 <= y < buf.height,
        forall|k: int| 0 <= k < buf.sample_count ==> buf.pixel_samples(x, y)[k] == c,
    ensures
        img.pixel_at(x, y) == c,
{
    buf.lemma_pixel_samples_len(x, y);
    lemma_average_uniform(buf.pixel_samples(x, y), c);
}

/// Resolving is deterministic: two images resolved from the same unmodified
/// buffer agree bit for bit.
pub proof fn lemma_msaa_resolve_deterministic(buf: MultisampleBuffer, a: Image, b: Image)
    requires
        buf.wf(),
        buf.is_resolve_of(a),
        buf.is_resolve_of(b),
    ensures
        a.width == b.width,
        a.height == b.height,
        a.pixels@ == b.pixels@,
{
    let w = buf.width as int;
    let h = buf.height as int;
    assert forall|idx: int| 0 <= idx < a.pixels@.len() implies a.pixels@[idx] == b.pixels@[idx] by {
        lemma_flat_index_decompose(idx, w, h);
        let x = idx % w;
        let y = idx / w;
        assert(a.pixel_at(x, y) == b.pixel_at(x, y));
        assert(y * w + x == idx);
    }
    assert(a.pixels@ =~= b.pixels@);
}

} // verus!

//! Full-scene supersampling: a buffer at `scale_factor` times the base
//! resolution, resolved by block-averaging each `scale x scale` block down
//! to one base pixel.

use vstd::prelude::*;
use crate::color::{average_color, lemma_average_uniform, Color};
use crate::color::average_of;
use crate::raster::{lemma_flat_index_decompose, Image};
use crate::RenderError;

verus! {

/// A supersampling buffer: writes land on a backing image at
/// `(width * scale_factor) x (height * scale_factor)` resolution, and
/// [`FSAABuffer::resolve`] averages each block down to one output pixel.
pub struct FSAABuffer {
    pub width: u32,
    pub height: u32,
    pub scale_factor: u32,
    pub buffer: Image,
}

/// In-range block coordinates map into the high-resolution grid.
pub proof fn lemma_block_coord_bound(x: int, w: int, s: int, sx: int)
    requires
        0 <= x < w,
        0 <= sx < s,
    ensures
        0 <= x * s,
        x * s + sx < w * s,
{
    assert(0 <= x * s && x * s + sx < w * s) by (nonlinear_arith)
        requires
            0 <= x < w,
            0 <= sx < s,
    ;
}

impl FSAABuffer {
    /// Dimensions are nonzero, all products fit the machine, and the backing
    /// image is exactly the high-resolution grid.
    pub open spec fn wf(self) -> bool {
        &&& self.width >= 1
        &&& self.height >= 1
        &&& self.scale_factor >= 1
        &&& self.width * self.scale_factor <= u32::MAX
        &&& self.height * self.scale_factor <= u32::MAX
        &&& (self.width * self.scale_factor) * (self.height * self.scale_factor) <= u32::MAX
        &&& self.width * self.height <= u32::MAX
        &&& self.scale_factor * self.scale_factor <= u32::MAX
        &&& self.buffer.wf()
        &&& self.buffer.width == self.width * self.scale_factor
        &&& self.buffer.height == self.height * self.scale_factor
    }

    /// The `scale x scale` block of high-resolution pixels behind base pixel
    /// `(x, y)`, in row-major order.
    pub open spec fn block_samples(self, x: int, y: int) -> Seq<Color>
        recommends
            self.wf(),
            0 <= x < self.width,
            0 <= y < self.height,
    {
        let s = self.scale_factor as int;
        Seq::new(
            (self.scale_factor * self.scale_factor) as nat,
            |k: int| self.buffer.pixel_at(x * s + k % s, y * s + k / s),
        )
    }

    /// `img` is the resolved base-resolution image of this buffer: it has the
    /// base dimensions and each pixel is the truncating channel-wise average
    /// of its block of high-resolution pixels.
    pub open spec fn is_resolve_of(self, img: Image) -> bool {
        &&& img.wf()
        &&& img.width == self.width
        &&& img.height == self.height
        &&& forall|x: int, y: int|
            0 <= x < self.width && 0 <= y < self.height
                ==> img.pixel_at(x, y) == average_color(self.block_samples(x, y))
    }

    /// Creates a buffer whose backing image is `(width * scale_factor) x
    /// (height * scale_factor)`, initialized to black. Fails with
    /// [`RenderError::InvalidDimension`] exactly when one of the three
    /// arguments is zero.
    pub fn new(width: u32, height: u32, scale_factor: u32) -> (result: Result<FSAABuffer, RenderError>)
        requires
            width * scale_factor <= u32::MAX,
            height * scale_factor <= u32::MAX,
            (width * scale_factor) * (height * scale_factor) <= u32::MAX,
        ensures
            match result {
                Ok(buf) => {
                    &&& width >= 1 && height >= 1 && scale_factor >= 1
                    &&& buf.wf()
                    &&& buf.width == width
                    &&& buf.height == height
                    &&& buf.scale_factor == scale_factor
                    &&& forall|hx: int, hy: int|
                        0 <= hx < width * scale_factor && 0 <= hy < height * scale_factor
                            ==> buf.buffer.pixel_at(hx, hy) == Color::black()
                },
                Err(e) => {
                    &&& width == 0 || height == 0 || scale_factor == 0
                    &&& e == RenderError::InvalidDimension
                },
            },
    {
        if width == 0 || height == 0 || scale_factor == 0 {
            return Err(RenderError::InvalidDimension);
        }
        let high_res_width = width * scale_factor;
        let high_res_height = height * scale_factor;
        proof {
            assert(width * height <= (width * scale_factor) * (height * scale_factor)
                && scale_factor * scale_factor <= (width * scale_factor) * (height * scale_factor))
                by (nonlinear_arith)
                requires
                    width >= 1,
                    height >= 1,
                    scale_factor >= 1,
            ;
        }
        let buffer = Image::new(high_res_width, high_res_height, Color::new(0, 0, 0));
        Ok(FSAABuffer { width, height, scale_factor, buffer })
    }

    /// Writes a high-resolution pixel. A coordinate outside the
    /// high-resolution grid leaves the buffer untouched (a clipped write,
    /// not an error).
    pub fn set_pixel(&mut self, x: u32, y: u32, color: Color)
        requires
            old(self).wf(),
        ensures
            final(self).wf(),
            final(self).width == old(self).width,
            final(self).height == old(self).height,
            final(self).scale_factor == old(self).scale_factor,
            if x < old(self).width * old(self).scale_factor
                && y < old(self).height * old(self).scale_factor {
                &&& final(self).buffer.pixel_at(x as int, y as int) == color
                &&& forall|i: int, j: int|
                    0 <= i < old(self).width * old(self).scale_factor
                        && 0 <= j < old(self).height * old(self).scale_factor
                        && !(i == x && j == y)
                        ==> final(self).buffer.pixel_at(i, j) == old(self).buffer.pixel_at(i, j)
            } else {
                final(self).buffer == old(self).buffer
            },
    {
        if x < self.width * self.scale_factor && y < self.height * self.scale_factor {
            self.buffer.set_pixel(x, y, color);
        }
    }

    /// Produces the base-resolution image: each output pixel is the
    /// channel-wise truncating average of its `scale x scale` block of
    /// high-resolution pixels. The buffer is not mutated and the result is a
    /// pure function of the buffer's current state.
    pub fn resolve(&self) -> (img: Image)
        requires
            self.wf(),
        ensures
            self.is_resolve_of(img),
    {
        let scale = self.scale_factor;
        let mut img = Image::new(self.width, self.height, Color::new(0, 0, 0));
        let mut y: u32 = 0;
        while y < self.height
            invariant
                self.wf(),
                scale == self.scale_factor,
                img.wf(),
                img.width == self.width,
                img.height == self.height,
                0 <= y <= self.height,
                forall|i: int, j: int|
                    0 <= i < self.width && 0 <= j < y
                        ==> img.pixel_at(i, j) == average_color(self.block_samples(i, j)),
            decreases self.height - y,
        {
            let mut x: u32 = 0;
            while x < self.width
                invariant
                    self.wf(),
                    scale == self.scale_factor,
                    img.wf(),
                    img.width == self.width,
                    img.height == self.height,
                    0 <= y < self.height,
                    0 <= x <= self.width,
                    forall|i: int, j: int|
                        0 <= i < self.width && 0 <= j < y
                            ==> img.pixel_at(i, j) == average_color(self.block_samples(i, j)),
                    forall|i: int|
                        0 <= i < x ==> img.pixel_at(i, y as int) == average_color(
                            self.block_samples(i, y as int),
                        ),
                decreases self.width - x,
            {
                let ghost blk = self.block_samples(x as int, y as int);
                let mut block: Vec<Color> = Vec::new();
                let mut sy: u32 = 0;
                while sy < scale
                    invariant
                        self.wf(),
                        scale == self.scale_factor,
                        0 <= x < self.width,
                        0 <= y < self.height,
                        0 <= sy <= scale,
                        blk == self.block_samples(x as int, y as int),
                        block@.len() == sy * scale,
                        block@ =~= blk.take((sy * scale) as int),
                    decreases scale - sy,
                {
                    let mut sx: u32 = 0;
                    while sx < scale
                        invariant
                            self.wf(),
                            scale == self.scale_factor,
                            0 <= x < self.width,
                            0 <= y < self.height,
                            0 <= sy < scale,
                            0 <= sx <= scale,
                            blk == self.block_samples(x as int, y as int),
                            block@.len() == sy * scale + sx,
                            block@ =~= blk.take((sy * scale + sx) as int),
                        decreases scale - sx,
                    {
                        proof {
                            let s = scale as int;
                            let k = sy * s + sx;
                            assert(k < s * s) by (nonlinear_arith)
                                requires
                                    0 <= sy < s,
                                    0 <= sx < s,
                                    k == sy * s + sx,
                            ;
                            vstd::arithmetic::div_mod::lemma_fundamental_div_mod_converse(
                                k, s, sy as int, sx as int,
                            );
                            lemma_block_coord_bound(x as int, self.width as int, s, sx as int);
                            lemma_block_coord_bound(y as int, self.height as int, s, sy as int);
                        }
                        let hx = x * scale + sx;
                        let hy = y * scale + sy;
                        let px = self.buffer.get_pixel(hx, hy);
                        block.push(px);
                        proof {
                            let s = scale as int;
                            let k = sy * s + sx;
                            assert(blk[k] == self.buffer.pixel_at(
                                x as int * s + k % s, y as int * s + k / s,
                            ));
                            assert(block@ =~= blk.take(k + 1));
                        }
                        sx = sx + 1;
                    }
                    sy = sy + 1;
                    proof {
                        assert(sy * scale == (sy - 1) * scale + scale) by (nonlinear_arith);
                    }
                }
                proof {
                    assert((scale * scale) as int == scale as int * scale as int);
                    assert(block@ =~= blk);
                    assert(scale as int * scale as int >= 1) by (nonlinear_arith)
                        requires
                            scale >= 1,
                    ;
                }
                let avg = average_of(&block);
                img.set_pixel(x, y, avg);
                x = x + 1;
            }
            y = y + 1;
        }
        img
    }
}

/// Uniform fill resolves to the fill color: if every high-resolution pixel of
/// a buffer holds `c`, every pixel of its resolved image is `c`.
pub proof fn lemma_fsaa_uniform_resolve(buf: FSAABuffer, img: Image, c: Color)
    requires
        buf.wf(),
        buf.is_resolve_of(img),
        forall|hx: int, hy: int|
            0 <= hx < buf.width * buf.scale_factor && 0 <= hy < buf.height * buf.scale_factor
                ==> buf.buffer.pixel_at(hx, hy) == c,
    ensures
        forall|x: int, y: int|
            0 <= x < buf.width && 0 <= y < buf.height ==> img.pixel_at(x, y) == c,
{
    let s = buf.scale_factor as int;
    assert forall|x: int, y: int|
        0 <= x < buf.width && 0 <= y < buf.height implies img.pixel_at(x, y) == c by {
        let blk = buf.block_samples(x, y);
        assert(s * s >= 1) by (nonlinear_arith)
            requires
                s >= 1,
        ;
        assert forall|k: int| 0 <= k < blk.len() implies blk[k] == c by {
            lemma_flat_index_decompose(k, s, s);
            lemma_block_coord_bound(x, buf.width as int, s, k % s);
            lemma_block_coord_bound(y, buf.height as int, s, k / s);
            assert(buf.buffer.pixel_at(x * s + k % s, y * s + k / s) == c);
        }
        lemma_average_uniform(blk, c);
    }
}

/// Resolving is deterministic: two images resolved from the same unmodified
/// buffer agree bit for bit.
pub proof fn lemma_fsaa_resolve_deterministic(buf: FSAABuffer, a: Image, b: Image)
    requires
        buf.wf(),
        buf.is_resolve_of(a),
        buf.is_resolve_of(b),
    ensures
        a.width == b.width,
        a.height == b.height,
        a.pixels@ == b.pixels@,
{
    let w = buf.width as int;
    let h = buf.height as int;
    assert(a.pixels@.len() == w * h);
    assert(b.pixels@.len() == w * h);
    assert forall|idx: int| 0 <= idx < a.pixels@.len() implies a.pixels@[idx] == b.pixels@[idx] by {
        lemma_flat_index_decompose(idx, w, h);
        let x = idx % w;
        let y = idx / w;
        assert(a.pixel_at(x, y) == b.pixel_at(x, y));
        assert(y * w + x == idx);
    }
    assert(a.pixels@ =~= b.pixels@);
}

} // verus!

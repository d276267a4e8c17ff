//! A width x height grid of colors, stored row-major with the origin at the
//! top left, and the side-by-side comparison compositor.

use vstd::prelude::*;
use crate::color::Color;

verus! {

/// A raster image: a `width x height` grid of [`Color`], row-major,
/// origin top-left.
#[derive(PartialEq, Eq, Debug)]
pub struct Image {
    pub width: u32,
    pub height: u32,
    pub pixels: Vec<Color>,
}

/// Row-major positions are unique: a flat index determines its coordinates.
pub proof fn lemma_row_major_unique(w: int, x1: int, y1: int, x2: int, y2: int)
    requires
        w >= 1,
        0 <= x1 < w,
        0 <= x2 < w,
        y1 >= 0,
        y2 >= 0,
        y1 * w + x1 == y2 * w + x2,
    ensures
        x1 == x2,
        y1 == y2,
{
    assert(x1 == x2 && y1 == y2) by (nonlinear_arith)
        requires
            w >= 1,
            0 <= x1 < w,
            0 <= x2 < w,
            y1 >= 0,
            y2 >= 0,
            y1 * w + x1 == y2 * w + x2,
    ;
}

/// A row-major index of an in-range coordinate lies inside the grid.
pub proof fn lemma_row_major_in_range(w: int, h: int, x: int, y: int)
    requires
        0 <= x < w,
        0 <= y < h,
    ensures
        0 <= y * w + x < w * h,
{
    assert(0 <= y * w + x < w * h) by (nonlinear_arith)
        requires
            0 <= x < w,
            0 <= y < h,
    ;
}

/// A flat index inside a `w x h` grid decomposes into in-range coordinates.
pub proof fn lemma_flat_index_decompose(idx: int, w: int, h: int)
    requires
        w >= 1,
        0 <= idx < w * h,
    ensures
        0 <= idx % w < w,
        0 <= idx / w < h,
        idx == (idx / w) * w + (idx % w),
        idx == w * (idx / w) + (idx % w),
{
    vstd::arithmetic::div_mod::lemma_fundamental_div_mod(idx, w);
    vstd::arithmetic::div_mod::lemma_mod_bound(idx, w);
    vstd::arithmetic::div_mod::lemma_div_pos_is_pos(idx, w);
    assert(idx / w < h) by (nonlinear_arith)
        requires
            w >= 1,
            0 <= idx < w * h,
            idx == w * (idx / w) + (idx % w),
            0 <= idx % w < w,
            idx / w >= 0,
    ;
    assert((idx / w) * w == w * (idx / w)) by (nonlinear_arith);
}

impl Image {
    /// The pixel grid is complete: one color per coordinate.
    pub open spec fn wf(self) -> bool {
        self.pixels@.len() == self.width * self.height
    }

    /// The color at coordinate `(x, y)`.
    pub open spec fn pixel_at(self, x: int, y: int) -> Color
        recommends
            self.wf(),
            0 <= x < self.width,
            0 <= y < self.height,
    {
        self.pixels@[y * self.width + x]
    }

    /// Builds a `width x height` image with every pixel set to `fill`.
    pub fn new(width: u32, height: u32, fill: Color) -> (img: Image)
        requires
            width * height <= u32::MAX,
        ensures
            img.wf(),
            img.width == width,
            img.height == height,
            forall|x: int, y: int|
                0 <= x < width && 0 <= y < height ==> img.pixel_at(x, y) == fill,
    {
        let total = (width as u64 * height as u64) as usize;
        let mut pixels: Vec<Color> = Vec::new();
        let mut i: usize = 0;
        while i < total
            invariant
                total == width * height,
                0 <= i <= total,
                pixels@.len() == i,
                forall|k: int| 0 <= k < i ==> pixels@[k] == fill,
            decreases total - i,
        {
            pixels.push(fill);
            i = i + 1;
        }
        let img = Image { width, height, pixels };
        proof {
            assert forall|x: int, y: int|
                0 <= x < width && 0 <= y < height implies img.pixel_at(x, y) == fill by {
                lemma_row_major_in_range(width as int, height as int, x, y);
            }
        }
        img
    }

    /// Reads the pixel at an in-range coordinate.
    pub fn get_pixel(&self, x: u32, y: u32) -> (c: Color)
        requires
            self.wf(),
            x < self.width,
            y < self.height,
        ensures
            c == self.pixel_at(x as int, y as int),
    {
        let _n = self.pixels.len();
        proof {
            lemma_row_major_in_range(self.width as int, self.height as int, x as int, y as int);
        }
        let idx = (y as u64 * self.width as u64 + x as u64) as usize;
        self.pixels[idx]
    }

    /// Overwrites the pixel at an in-range coordinate, leaving every other
    /// pixel and the dimensions unchanged.
    pub fn set_pixel(&mut self, x: u32, y: u32, color: Color)
        requires
            old(self).wf(),
            x < old(self).width,
            y < old(self).height,
        ensures
            final(self).wf(),
            final(self).width == old(self).width,
            final(self).height == old(self).height,
            final(self).pixel_at(x as int, y as int) == color,
            forall|i: int, j: int|
                0 <= i < old(self).width && 0 <= j < old(self).height && !(i == x && j == y)
                    ==> final(self).pixel_at(i, j) == old(self).pixel_at(i, j),
    {
        let _n = self.pixels.len();
        proof {
            lemma_row_major_in_range(self.width as int, self.height as int, x as int, y as int);
        }
        let idx = (y as u64 * self.width as u64 + x as u64) as usize;
        self.pixels.set(idx, color);
        proof {
            assert forall|i: int, j: int|
                0 <= i < self.width && 0 <= j < self.height && !(i == x && j == y)
                    implies self.pixel_at(i, j) == old(self).pixel_at(i, j) by {
                lemma_row_major_in_range(self.width as int, self.height as int, i, j);
                if j * self.width + i == y * self.width + x {
                    lemma_row_major_unique(self.width as int, i, j, x as int, y as int);
                }
            }
        }
    }
}

/// Composites `before` and `after` side by side: the left half is `before`,
/// the right half is `after`, and the column between them (the first column
/// of the right half) is drawn black as a separator.
pub fn create_comparison_image(before: &Image, after: &Image) -> (img: Image)
    requires
        before.wf(),
        after.wf(),
        after.width == before.width,
        after.height == before.height,
        before.width >= 1 || before.height == 0,
        2 * before.width <= u32::MAX,
        2 * (before.width * before.height) <= u32::MAX,
    ensures
        img.wf(),
        img.width == 2 * before.width,
        img.height == before.height,
        forall|x: int, y: int|
            0 <= x < 2 * before.width && 0 <= y < before.height ==> img.pixel_at(x, y) == (
                if x < before.width {
                    before.pixel_at(x, y)
                } else if x == before.width {
                    Color::black()
                } else {
                    after.pixel_at(x - before.width, y)
                }
            ),
{
    let width = before.width;
    let height = before.height;
    proof {
        assert((2 * width) * height == 2 * (width * height)) by (nonlinear_arith);
    }
    let mut comparison = Image::new(2 * width, height, Color::new(0, 0, 0));

    let mut y: u32 = 0;
    while y < height
        invariant
            before.wf(),
            width == before.width,
            height == before.height,
            2 * width <= u32::MAX,
            comparison.wf(),
            comparison.width == 2 * width,
            comparison.height == height,
            0 <= y <= height,
            forall|i: int, j: int|
                0 <= i < width && 0 <= j < y ==> comparison.pixel_at(i, j) == before.pixel_at(i, j),
        decreases height - y,
    {
        let mut x: u32 = 0;
        while x < width
            invariant
                before.wf(),
                width == before.width,
                height == before.height,
                2 * width <= u32::MAX,
                comparison.wf(),
                comparison.width == 2 * width,
                comparison.height == height,
                0 <= y < height,
                0 <= x <= width,
                forall|i: int, j: int|
                    0 <= i < width && 0 <= j < y
                        ==> comparison.pixel_at(i, j) == before.pixel_at(i, j),
                forall|i: int| 0 <= i < x ==> comparison.pixel_at(i, y as int) == before.pixel_at(i, y as int),
            decreases width - x,
        {
            let c = before.get_pixel(x, y);
            comparison.set_pixel(x, y, c);
            x = x + 1;
        }
        y = y + 1;
    }

    let mut y: u32 = 0;
    while y < height
        invariant
            before.wf(),
            after.wf(),
            width == before.width,
            height == before.height,
            after.width == width,
            after.height == height,
            2 * width <= u32::MAX,
            comparison.wf(),
            comparison.width == 2 * width,
            comparison.height == height,
            0 <= y <= height,
            forall|i: int, j: int|
                0 <= i < width && 0 <= j < height
                    ==> comparison.pixel_at(i, j) == before.pixel_at(i, j),
            forall|i: int, j: int|
                0 <= i < width && 0 <= j < y
                    ==> comparison.pixel_at(width + i, j) == after.pixel_at(i, j),
        decreases height - y,
    {
        let mut x: u32 = 0;
        while x < width
            invariant
                before.wf(),
                after.wf(),
                width == before.width,
                height == before.height,
                after.width == width,
                after.height == height,
                2 * width <= u32::MAX,
                comparison.wf(),
                comparison.width == 2 * width,
                comparison.height == height,
                0 <= y < height,
                0 <= x <= width,
                forall|i: int, j: int|
                    0 <= i < width && 0 <= j < height
                        ==> comparison.pixel_at(i, j) == before.pixel_at(i, j),
                forall|i: int, j: int|
                    0 <= i < width && 0 <= j < y
                        ==> comparison.pixel_at(width + i, j) == after.pixel_at(i, j),
                forall|i: int|
                    0 <= i < x ==> comparison.pixel_at(width + i, y as int) == after.pixel_at(i, y as int),
            decreases width - x,
        {
            let c = after.get_pixel(x, y);
            comparison.set_pixel(width + x, y, c);
            x = x + 1;
        }
        y = y + 1;
    }

    let mut y: u32 = 0;
    while y < height
        invariant
            before.wf(),
            after.wf(),
            width == before.width,
            height == before.height,
            after.width == width,
            after.height == height,
            width >= 1 || height == 0,
            2 * width <= u32::MAX,
            comparison.wf(),
            comparison.width == 2 * width,
            comparison.height == height,
            0 <= y <= height,
            forall|i: int, j: int|
                0 <= i < width && 0 <= j < height
                    ==> comparison.pixel_at(i, j) == before.pixel_at(i, j),
            forall|i: int, j: int|
                1 <= i < width && 0 <= j < height
                    ==> comparison.pixel_at(width + i, j) == after.pixel_at(i, j),
            forall|j: int| 0 <= j < y ==> comparison.pixel_at(width as int, j) == Color::black(),
        decreases height - y,
    {
        comparison.set_pixel(width, y, Color::new(0, 0, 0));
        y = y + 1;
    }

    comparison
}

} // verus!

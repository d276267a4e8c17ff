//! Drawing a centered circle, aliased and supersampled.
//!
//! The coverage test is exact: a pixel is covered when the distance from its
//! center to the canvas center is at most the radius `height / 3`, ties
//! included. With the pixel center at `(x + 1/2, y + 1/2)` and the canvas
//! center at `(width / 2, height / 2)`, squaring both sides and scaling by 36
//! turns `dist <= radius` into the integer comparison
//! `9 * ((2x + 1 - w)^2 + (2y + 1 - h)^2) <= 4 * h^2`.

use vstd::prelude::*;
use vstd::pervasive::unreached;
use crate::color::{average_color, Color};
use crate::fsaa::{lemma_block_coord_bound, FSAABuffer};
use crate::raster::{lemma_flat_index_decompose, Image};

verus! {

/// The fill color of covered pixels.
pub open spec fn circle_red() -> Color {
    Color { r: 255, g: 0, b: 0 }
}

/// The background color.
pub open spec fn circle_white() -> Color {
    Color { r: 255, g: 255, b: 255 }
}

/// Whether the center of pixel `(x, y)` of a `width x height` canvas lies
/// within distance `height / 3` of the canvas center (exact comparison,
/// ties covered).
pub open spec fn circle_covers(width: int, height: int, x: int, y: int) -> bool {
    let dx = 2 * x + 1 - width;
    let dy = 2 * y + 1 - height;
    9 * (dx * dx + dy * dy) <= 4 * (height * height)
}

/// The color of pixel `(x, y)` of the aliased circle image: red when
/// covered, white otherwise.
pub open spec fn circle_pixel(width: int, height: int, x: int, y: int) -> Color {
    if circle_covers(width, height, x, y) {
        circle_red()
    } else {
        circle_white()
    }
}

/// The block of high-resolution circle colors behind base pixel `(x, y)`
/// when the circle is drawn at `scale` times the base resolution.
pub open spec fn circle_block(width: int, height: int, scale: int, x: int, y: int) -> Seq<Color> {
    Seq::new(
        (scale * scale) as nat,
        |k: int| circle_pixel(
            width * scale,
            height * scale,
            x * scale + k % scale,
            y * scale + k / scale,
        ),
    )
}

/// Evaluates the exact coverage test for one pixel center.
fn covers(width: u32, height: u32, x: u32, y: u32) -> (b: bool)
    requires
        width <= 100_000,
        height <= 100_000,
        x < width,
        y < height,
    ensures
        b == circle_covers(width as int, height as int, x as int, y as int),
{
    let dx: i64 = 2 * (x as i64) + 1 - width as i64;
    let dy: i64 = 2 * (y as i64) + 1 - height as i64;
    proof {
        assert(dx * dx <= 200_001 * 200_001 && dx * dx >= 0) by (nonlinear_arith)
            requires
                -200_001 <= dx <= 200_001,
        ;
        assert(dy * dy <= 200_001 * 200_001 && dy * dy >= 0) by (nonlinear_arith)
            requires
                -200_001 <= dy <= 200_001,
        ;
        assert((height as i64) * (height as i64) <= 100_000 * 100_000
            && (height as i64) * (height as i64) >= 0) by (nonlinear_arith)
            requires
                0 <= height as i64 <= 100_000,
        ;
    }
    9 * (dx * dx + dy * dy) <= 4 * ((height as i64) * (height as i64))
}

/// Draws the aliased circle: a `width x height` image whose pixel `(x, y)`
/// is red exactly when its center lies within radius `height / 3` of the
/// canvas center, and white otherwise.
pub fn draw_circle_no_aa(width: u32, height: u32) -> (img: Image)
    requires
        width <= 100_000,
        height <= 100_000,
        width * height <= u32::MAX,
    ensures
        img.wf(),
        img.width == width,
        img.height == height,
        forall|x: int, y: int|
            0 <= x < width && 0 <= y < height ==> img.pixel_at(x, y) == circle_pixel(
                width as int, height as int, x, y,
            ),
{
    let mut img = Image::new(width, height, Color::new(255, 255, 255));
    let mut y: u32 = 0;
    while y < height
        invariant
            width <= 100_000,
            height <= 100_000,
            img.wf(),
            img.width == width,
            img.height == height,
            0 <= y <= height,
            forall|i: int, j: int|
                0 <= i < width && 0 <= j < y ==> img.pixel_at(i, j) == circle_pixel(
                    width as int, height as int, i, j,
                ),
        decreases height - y,
    {
        let mut x: u32 = 0;
        while x < width
            invariant
                width <= 100_000,
                height <= 100_000,
                img.wf(),
                img.width == width,
                img.height == height,
                0 <= y < height,
                0 <= x <= width,
                forall|i: int, j: int|
                    0 <= i < width && 0 <= j < y ==> img.pixel_at(i, j) == circle_pixel(
                        width as int, height as int, i, j,
                    ),
                forall|i: int|
                    0 <= i < x ==> img.pixel_at(i, y as int) == circle_pixel(
                        width as int, height as int, i, y as int,
                    ),
            decreases width - x,
        {
            if covers(width, height, x, y) {
                img.set_pixel(x, y, Color::new(255, 0, 0));
            } else {
                img.set_pixel(x, y, Color::new(255, 255, 255));
            }
            x = x + 1;
        }
        y = y + 1;
    }
    img
}

/// Draws the supersampled circle: the circle is rendered at `scale_factor`
/// times the base resolution with the same exact coverage test, and each
/// base pixel of the result is the truncating channel-wise average of its
/// block of high-resolution pixels.
pub fn draw_circle_fsaa(width: u32, height: u32, scale_factor: u32) -> (img: Image)
    requires
        1 <= width,
        1 <= height,
        1 <= scale_factor,
        width * scale_factor <= 100_000,
        height * scale_factor <= 100_000,
        (width * scale_factor) * (height * scale_factor) <= u32::MAX,
    ensures
        img.wf(),
        img.width == width,
        img.height == height,
        forall|x: int, y: int|
            0 <= x < width && 0 <= y < height ==> img.pixel_at(x, y) == average_color(
                circle_block(width as int, height as int, scale_factor as int, x, y),
            ),
{
    let mut buffer = match FSAABuffer::new(width, height, scale_factor) {
        Ok(b) => b,
        Err(_) => unreached(),
    };
    let high_res_width = width * scale_factor;
    let high_res_height = height * scale_factor;
    let mut hy: u32 = 0;
    while hy < high_res_height
        invariant
            buffer.wf(),
            buffer.width == width,
            buffer.height == height,
            buffer.scale_factor == scale_factor,
            high_res_width == width * scale_factor,
            high_res_height == height * scale_factor,
            high_res_width <= 100_000,
            high_res_height <= 100_000,
            0 <= hy <= high_res_height,
            forall|i: int, j: int|
                0 <= i < high_res_width && 0 <= j < hy ==> buffer.buffer.pixel_at(i, j)
                    == circle_pixel(high_res_width as int, high_res_height as int, i, j),
        decreases high_res_height - hy,
    {
        let mut hx: u32 = 0;
        while hx < high_res_width
            invariant
                buffer.wf(),
                buffer.width == width,
                buffer.height == height,
                buffer.scale_factor == scale_factor,
                high_res_width == width * scale_factor,
                high_res_height == height * scale_factor,
                high_res_width <= 100_000,
                high_res_height <= 100_000,
                0 <= hy < high_res_height,
                0 <= hx <= high_res_width,
                forall|i: int, j: int|
                    0 <= i < high_res_width && 0 <= j < hy ==> buffer.buffer.pixel_at(i, j)
                        == circle_pixel(high_res_width as int, high_res_height as int, i, j),
                forall|i: int|
                    0 <= i < hx ==> buffer.buffer.pixel_at(i, hy as int) == circle_pixel(
                        high_res_width as int, high_res_height as int, i, hy as int,
                    ),
            decreases high_res_width - hx,
        {
            if covers(high_res_width, high_res_height, hx, hy) {
                buffer.set_pixel(hx, hy, Color::new(255, 0, 0));
            } else {
                buffer.set_pixel(hx, hy, Color::new(255, 255, 255));
            }
            hx = hx + 1;
        }
        hy = hy + 1;
    }
    let img = buffer.resolve();
    proof {
        let w = width as int;
        let h = height as int;
        let s = scale_factor as int;
        assert forall|x: int, y: int|
            0 <= x < width && 0 <= y < height implies img.pixel_at(x, y) == average_color(
            circle_block(w, h, s, x, y),
        ) by {
            let blk = buffer.block_samples(x, y);
            let cblk = circle_block(w, h, s, x, y);
            assert forall|k: int| 0 <= k < blk.len() implies blk[k] == cblk[k] by {
                lemma_flat_index_decompose(k, s, s);
                lemma_block_coord_bound(x, w, s, k % s);
                lemma_block_coord_bound(y, h, s, k / s);
            }
            assert(blk =~= cblk);
        }
    }
    img
}

} // verus!

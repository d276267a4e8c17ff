use antialias::circle::{draw_circle_fsaa, draw_circle_no_aa};
use antialias::color::Color;

/// The exact coverage test: the center of pixel `(x, y)` lies within
/// distance `height / 3` of the canvas center, ties covered.
fn center_in_radius(width: u32, height: u32, x: u32, y: u32) -> bool {
    let dx = 2 * x as i64 + 1 - width as i64;
    let dy = 2 * y as i64 + 1 - height as i64;
    9 * (dx * dx + dy * dy) <= 4 * (height as i64 * height as i64)
}

#[test]
fn no_aa_circle_is_red_iff_center_is_within_radius() {
    let width = 800;
    let height = 600;
    let img = draw_circle_no_aa(width, height);
    assert_eq!(img.width, width);
    assert_eq!(img.height, height);
    for y in 0..height {
        for x in 0..width {
            let expected = if center_in_radius(width, height, x, y) {
                Color::new(255, 0, 0)
            } else {
                Color::new(255, 255, 255)
            };
            assert_eq!(img.get_pixel(x, y), expected);
        }
    }
}

#[test]
fn no_aa_circle_spot_values() {
    let img = draw_circle_no_aa(800, 600);
    // The canvas center is inside, the corners outside.
    assert_eq!(img.get_pixel(400, 300), Color::new(255, 0, 0));
    assert_eq!(img.get_pixel(0, 0), Color::new(255, 255, 255));
    assert_eq!(img.get_pixel(799, 599), Color::new(255, 255, 255));
    // On the center row the circle spans columns 200 to 599 exactly.
    assert_eq!(img.get_pixel(200, 300), Color::new(255, 0, 0));
    assert_eq!(img.get_pixel(199, 300), Color::new(255, 255, 255));
    assert_eq!(img.get_pixel(599, 300), Color::new(255, 0, 0));
    assert_eq!(img.get_pixel(600, 300), Color::new(255, 255, 255));
}

#[test]
fn fsaa_circle_averages_high_resolution_blocks() {
    let width = 200;
    let height = 150;
    let scale = 2;
    let img = draw_circle_fsaa(width, height, scale);
    assert_eq!(img.width, width);
    assert_eq!(img.height, height);
    for y in 0..height {
        for x in 0..width {
            let mut r_sum: u64 = 0;
            let mut g_sum: u64 = 0;
            let mut b_sum: u64 = 0;
            for sy in 0..scale {
                for sx in 0..scale {
                    let covered = center_in_radius(
                        width * scale,
                        height * scale,
                        x * scale + sx,
                        y * scale + sy,
                    );
                    if covered {
                        r_sum += 255;
                    } else {
                        r_sum += 255;
                        g_sum += 255;
                        b_sum += 255;
                    }
                }
            }
            let n = (scale * scale) as u64;
            let expected = Color::new(
                (r_sum / n) as u8,
                (g_sum / n) as u8,
                (b_sum / n) as u8,
            );
            assert_eq!(img.get_pixel(x, y), expected);
        }
    }
}

#[test]
fn fsaa_circle_blends_the_boundary() {
    // A block half inside and half outside the circle averages the two
    // colors: red (255, 0, 0) and white (255, 255, 255) give (255, 127, 127).
    let img = draw_circle_fsaa(8, 6, 2);
    assert_eq!(img.width, 8);
    assert_eq!(img.height, 6);
    // The center block lies fully inside.
    assert_eq!(img.get_pixel(4, 3), Color::new(255, 0, 0));
    // The corner block lies fully outside.
    assert_eq!(img.get_pixel(0, 0), Color::new(255, 255, 255));
}

use antialias::color::Color;
use antialias::fsaa::FSAABuffer;
use antialias::msaa::MultisampleBuffer;
use antialias::raster::create_comparison_image;
use antialias::raster::Image;
use antialias::RenderError;

#[test]
fn test_multisample_buffer_creation() {
    let buffer = MultisampleBuffer::new(10, 10, 4).unwrap();
    assert_eq!(buffer.width, 10);
    assert_eq!(buffer.height, 10);
    assert_eq!(buffer.sample_count, 4);
}

#[test]
fn test_sample_setting_and_getting() {
    let mut buffer = MultisampleBuffer::new(10, 10, 4).unwrap();
    buffer.set_sample(5, 5, 2, Color::new(255, 0, 0));

    if let Some(samples) = buffer.get_samples(5, 5) {
        assert_eq!(samples[2], Color::new(255, 0, 0));
    } else {
        panic!("Failed to get samples");
    }
}

#[test]
fn fsaa_resolve_has_base_dimensions() {
    let buffer = FSAABuffer::new(7, 5, 3).unwrap();
    let img = buffer.resolve();
    assert_eq!(img.width, 7);
    assert_eq!(img.height, 5);
    let buffer = FSAABuffer::new(1, 1, 1).unwrap();
    let img = buffer.resolve();
    assert_eq!(img.width, 1);
    assert_eq!(img.height, 1);
}

#[test]
fn fsaa_uniform_fill_resolves_to_fill() {
    for scale in [1u32, 2, 3] {
        let mut buffer = FSAABuffer::new(4, 3, scale).unwrap();
        let c = Color::new(10, 20, 30);
        for y in 0..3 * scale {
            for x in 0..4 * scale {
                buffer.set_pixel(x, y, c);
            }
        }
        let img = buffer.resolve();
        assert_eq!(img.width, 4);
        assert_eq!(img.height, 3);
        for y in 0..3 {
            for x in 0..4 {
                assert_eq!(img.get_pixel(x, y), c);
            }
        }
    }
}

#[test]
fn fsaa_block_average_truncates() {
    // One 2x2 block: two red pixels over two black ones averages to
    // (510 / 4, 0, 0) = (127, 0, 0) under truncating division.
    let mut buffer = FSAABuffer::new(1, 1, 2).unwrap();
    buffer.set_pixel(0, 0, Color::new(255, 0, 0));
    buffer.set_pixel(1, 0, Color::new(255, 0, 0));
    let img = buffer.resolve();
    assert_eq!(img.get_pixel(0, 0), Color::new(127, 0, 0));
}

#[test]
fn fsaa_out_of_range_writes_are_no_ops() {
    let mut buffer = FSAABuffer::new(3, 2, 2).unwrap();
    buffer.set_pixel(0, 0, Color::new(1, 2, 3));
    buffer.set_pixel(5, 3, Color::new(200, 200, 200));
    let baseline = buffer.resolve();
    // (width * scale, 0) is the first column past the high-resolution grid.
    buffer.set_pixel(6, 0, Color::new(99, 99, 99));
    buffer.set_pixel(0, 4, Color::new(99, 99, 99));
    buffer.set_pixel(u32::MAX, u32::MAX, Color::new(99, 99, 99));
    let img = buffer.resolve();
    assert_eq!(img, baseline);
}

#[test]
fn fsaa_resolve_is_idempotent() {
    let mut buffer = FSAABuffer::new(5, 4, 2).unwrap();
    for y in 0..8 {
        for x in 0..10 {
            buffer.set_pixel(x, y, Color::new((x * 20) as u8, (y * 25) as u8, 77));
        }
    }
    let first = buffer.resolve();
    let second = buffer.resolve();
    assert_eq!(first, second);
}

#[test]
fn fsaa_rejects_zero_dimensions() {
    assert_eq!(FSAABuffer::new(0, 5, 2).err(), Some(RenderError::InvalidDimension));
    assert_eq!(FSAABuffer::new(5, 0, 2).err(), Some(RenderError::InvalidDimension));
    assert_eq!(FSAABuffer::new(5, 5, 0).err(), Some(RenderError::InvalidDimension));
}

#[test]
fn msaa_uniform_pixel_resolves_to_fill() {
    for sample_count in [1u32, 3, 5] {
        let mut buffer = MultisampleBuffer::new(2, 2, sample_count).unwrap();
        let c = Color::new(9, 8, 7);
        for k in 0..sample_count {
            buffer.set_sample(1, 1, k, c);
        }
        let img = buffer.resolve();
        assert_eq!(img.get_pixel(1, 1), c);
        // Untouched pixels stay at the black default.
        assert_eq!(img.get_pixel(0, 0), Color::new(0, 0, 0));
    }
}

#[test]
fn msaa_resolve_truncates_average() {
    let mut buffer = MultisampleBuffer::new(1, 1, 4).unwrap();
    buffer.set_sample(0, 0, 0, Color::new(255, 0, 0));
    buffer.set_sample(0, 0, 1, Color::new(255, 0, 0));
    let img = buffer.resolve();
    assert_eq!(img.get_pixel(0, 0), Color::new(127, 0, 0));
}

#[test]
fn msaa_out_of_range_writes_are_no_ops() {
    let mut buffer = MultisampleBuffer::new(3, 2, 2).unwrap();
    buffer.set_sample(2, 1, 1, Color::new(50, 60, 70));
    let baseline = buffer.resolve();
    let samples_before = buffer.get_samples(2, 1).unwrap();
    // (width, 0) is the first coordinate past the grid.
    buffer.set_sample(3, 0, 0, Color::new(99, 99, 99));
    buffer.set_sample(0, 2, 0, Color::new(99, 99, 99));
    buffer.set_sample(0, 0, 2, Color::new(99, 99, 99));
    assert_eq!(buffer.get_samples(2, 1).unwrap(), samples_before);
    let img = buffer.resolve();
    assert_eq!(img, baseline);
}

#[test]
fn msaa_get_samples_out_of_range_is_none() {
    let buffer = MultisampleBuffer::new(10, 4, 2).unwrap();
    assert!(buffer.get_samples(10, 0).is_none());
    assert!(buffer.get_samples(0, 4).is_none());
    assert!(buffer.get_samples(9, 3).is_some());
}

#[test]
fn msaa_resolve_is_idempotent() {
    let mut buffer = MultisampleBuffer::new(4, 3, 3).unwrap();
    for y in 0..3 {
        for x in 0..4 {
            for k in 0..3 {
                buffer.set_sample(x, y, k, Color::new((x * 60) as u8, (y * 80) as u8, (k * 90) as u8));
            }
        }
    }
    let first = buffer.resolve();
    let second = buffer.resolve();
    assert_eq!(first, second);
}

#[test]
fn msaa_rejects_zero_dimensions() {
    assert_eq!(MultisampleBuffer::new(0, 5, 2).err(), Some(RenderError::InvalidDimension));
    assert_eq!(MultisampleBuffer::new(5, 0, 2).err(), Some(RenderError::InvalidDimension));
    assert_eq!(MultisampleBuffer::new(5, 5, 0).err(), Some(RenderError::InvalidDimension));
}

#[test]
fn comparison_image_places_halves_and_separator() {
    let mut before = Image::new(2, 2, Color::new(0, 0, 0));
    let mut after = Image::new(2, 2, Color::new(0, 0, 0));
    for y in 0..2 {
        for x in 0..2 {
            before.set_pixel(x, y, Color::new((10 + x) as u8, y as u8, 1));
            after.set_pixel(x, y, Color::new((20 + x) as u8, y as u8, 2));
        }
    }
    let comparison = create_comparison_image(&before, &after);
    assert_eq!(comparison.width, 4);
    assert_eq!(comparison.height, 2);
    for y in 0..2 {
        assert_eq!(comparison.get_pixel(0, y), before.get_pixel(0, y));
        assert_eq!(comparison.get_pixel(1, y), before.get_pixel(1, y));
        // The first column of the right half is the black separator.
        assert_eq!(comparison.get_pixel(2, y), Color::new(0, 0, 0));
        assert_eq!(comparison.get_pixel(3, y), after.get_pixel(1, y));
    }
}

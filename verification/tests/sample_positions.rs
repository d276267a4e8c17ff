use antialias::sample::generate_sample_positions;
use antialias::sample::SamplePosition;

/// Continuous coordinates of a sample position, as a consumer of the
/// pattern computes them.
fn to_offsets(sample_count: u32, p: &SamplePosition) -> (f32, f32) {
    match p {
        SamplePosition::Sixteenths { x, y } => (*x as f32 / 16.0, *y as f32 / 16.0),
        SamplePosition::GridCell { col, row } => {
            let step = 1.0 / (sample_count as f32).sqrt();
            (*col as f32 * step + step / 2.0, *row as f32 * step + step / 2.0)
        }
    }
}

fn offsets_for(sample_count: u32) -> Vec<(f32, f32)> {
    generate_sample_positions(sample_count)
        .iter()
        .map(|p| to_offsets(sample_count, p))
        .collect()
}

#[test]
fn one_sample_is_the_pixel_center() {
    assert_eq!(offsets_for(1), vec![(0.5, 0.5)]);
}

#[test]
fn two_samples_are_the_diagonal_pair() {
    assert_eq!(offsets_for(2), vec![(0.25, 0.25), (0.75, 0.75)]);
}

#[test]
fn four_samples_are_the_rotated_grid() {
    assert_eq!(
        offsets_for(4),
        vec![(0.375, 0.125), (0.875, 0.375), (0.125, 0.625), (0.625, 0.875)]
    );
}

#[test]
fn eight_samples_are_the_two_row_pattern() {
    assert_eq!(
        offsets_for(8),
        vec![
            (0.0625, 0.0625),
            (0.3125, 0.0625),
            (0.5625, 0.0625),
            (0.8125, 0.0625),
            (0.1875, 0.3125),
            (0.4375, 0.3125),
            (0.6875, 0.3125),
            (0.9375, 0.3125),
        ]
    );
}

#[test]
fn generated_length_equals_sample_count() {
    for n in [1u32, 2, 3, 4, 5, 8, 9, 16] {
        assert_eq!(generate_sample_positions(n).len(), n as usize);
    }
}

#[test]
fn perfect_square_fallback_is_a_regular_grid() {
    let positions = generate_sample_positions(9);
    for (i, p) in positions.iter().enumerate() {
        assert_eq!(
            *p,
            SamplePosition::GridCell { col: (i % 3) as u32, row: (i / 3) as u32 }
        );
    }
    let positions = generate_sample_positions(16);
    for (i, p) in positions.iter().enumerate() {
        assert_eq!(
            *p,
            SamplePosition::GridCell { col: (i % 4) as u32, row: (i / 4) as u32 }
        );
    }
}

#[test]
fn non_square_fallback_keeps_the_skewed_pattern() {
    // isqrt(3) == 1: one column, rows running past the unit square.
    let positions = generate_sample_positions(3);
    for (i, p) in positions.iter().enumerate() {
        assert_eq!(*p, SamplePosition::GridCell { col: 0, row: i as u32 });
    }
    // isqrt(5) == 2: two columns, the fifth sample starting a third row.
    let positions = generate_sample_positions(5);
    for (i, p) in positions.iter().enumerate() {
        assert_eq!(
            *p,
            SamplePosition::GridCell { col: (i % 2) as u32, row: (i / 2) as u32 }
        );
    }
}

#[test]
fn generation_is_deterministic() {
    for n in [1u32, 2, 3, 4, 5, 8, 9, 16] {
        assert_eq!(generate_sample_positions(n), generate_sample_positions(n));
    }
}

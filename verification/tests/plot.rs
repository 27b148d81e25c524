use std::cell::RefCell;

use plot_3d::plot::{is_finite_bits, ConstructionError, Pixel, Plot, Sample};
use plot_3d::ratio::Ratio;

fn quotient(r: Ratio) -> f64 {
    r.numerator as f64 / r.denominator as f64
}

fn sample_of(x: f64, y: f64, z: f64) -> Sample {
    Sample { x: x.to_bits(), y: y.to_bits(), z: z.to_bits() }
}

fn rotate_around_z(x: f64, y: f64, alpha: f64) -> (f64, f64) {
    (x * alpha.cos() - y * alpha.sin(), x * alpha.sin() + y * alpha.cos())
}

fn project(sample: Sample, alpha: u64, spread: u64, x_shift: u64, y_shift: u64) -> Pixel {
    let x = f64::from_bits(sample.x);
    let y_orig = f64::from_bits(sample.y);
    let z = f64::from_bits(sample.z);
    let alpha = f64::from_bits(alpha);
    let y = y_orig * alpha.cos() - z * alpha.sin();
    let x_pixel = x * f64::from_bits(spread) + f64::from_bits(x_shift);
    let y_pixel = y * f64::from_bits(spread) + f64::from_bits(y_shift);
    Pixel { x: (x_pixel as f32).to_bits(), y: (y_pixel as f32).to_bits() }
}

fn pixel_of(plot: &Plot, i: usize, j: usize, alpha: f64) -> (f32, f32) {
    let pixel = plot.get_pixel_value(i, j, alpha.to_bits(), &project);
    (f32::from_bits(pixel.x), f32::from_bits(pixel.y))
}

fn flat(samples: usize) -> Vec<Sample> {
    (0..samples).map(|k| sample_of(k as f64, 0.5, -1.0)).collect()
}

#[test]
fn finite_bits_of_ordinary_numbers() {
    assert!(is_finite_bits(0.0f64.to_bits()));
    assert!(is_finite_bits((-0.0f64).to_bits()));
    assert!(is_finite_bits(1.0f64.to_bits()));
    assert!(is_finite_bits((-1.5f64).to_bits()));
    assert!(is_finite_bits(f64::MAX.to_bits()));
    assert!(is_finite_bits(f64::MIN.to_bits()));
    assert!(is_finite_bits(f64::MIN_POSITIVE.to_bits()));
    assert!(is_finite_bits(5e-324f64.to_bits()));
    assert!(is_finite_bits(0x7fef_ffff_ffff_ffff));
}

#[test]
fn finite_bits_of_infinities_and_nans() {
    assert!(!is_finite_bits(f64::INFINITY.to_bits()));
    assert!(!is_finite_bits(f64::NEG_INFINITY.to_bits()));
    assert!(!is_finite_bits(f64::NAN.to_bits()));
    assert!(!is_finite_bits(0x7ff0_0000_0000_0000));
    assert!(!is_finite_bits(0xfff0_0000_0000_0000));
    assert!(!is_finite_bits(0x7ff0_0000_0000_0001));
    assert!(!is_finite_bits(0xffff_ffff_ffff_ffff));
}

#[test]
fn finite_bits_agree_with_the_floats_they_encode() {
    let mut bits: u64 = 0x0123_4567_89ab_cdef;
    for _ in 0..20000 {
        bits = bits.wrapping_mul(6364136223846793005).wrapping_add(1442695040888963407);
        assert_eq!(is_finite_bits(bits), f64::from_bits(bits).is_finite());
        let high = bits | 0x7ff0_0000_0000_0000;
        assert_eq!(is_finite_bits(high), f64::from_bits(high).is_finite());
    }
}

#[test]
fn sample_is_finite_only_if_every_part_is() {
    assert!(sample_of(1.0, -2.0, 3.0).is_finite());
    assert!(!sample_of(f64::NAN, -2.0, 3.0).is_finite());
    assert!(!sample_of(1.0, f64::INFINITY, 3.0).is_finite());
    assert!(!sample_of(1.0, -2.0, f64::NEG_INFINITY).is_finite());
}

#[test]
fn from_samples_keeps_the_samples_row_by_row() {
    let samples = flat(6);
    let spread = 200f64.to_bits();
    let x_shift = 400f64.to_bits();
    let y_shift = 300f64.to_bits();
    let plot = Plot::from_samples(2, 3, samples.clone(), spread, x_shift, y_shift).unwrap();
    assert_eq!(plot.rows(), 2);
    assert_eq!(plot.cols(), 3);
    assert_eq!(plot.spread(), 200f64.to_bits());
    assert_eq!(plot.x_shift(), 400f64.to_bits());
    assert_eq!(plot.y_shift(), 300f64.to_bits());
    for row in 0..2 {
        for col in 0..3 {
            assert_eq!(plot.sample(row, col), samples[row * 3 + col]);
        }
    }
}

#[test]
fn from_samples_rejects_fewer_than_two_rows_or_columns() {
    assert_eq!(
        Plot::from_samples(1, 4, flat(4), 0, 0, 0).err(),
        Some(ConstructionError::InvalidDimensions),
    );
    assert_eq!(
        Plot::from_samples(4, 1, flat(4), 0, 0, 0).err(),
        Some(ConstructionError::InvalidDimensions),
    );
    assert_eq!(
        Plot::from_samples(0, 0, flat(0), 0, 0, 0).err(),
        Some(ConstructionError::InvalidDimensions),
    );
    assert_eq!(
        Plot::from_samples(0, 2, flat(0), 0, 0, 0).err(),
        Some(ConstructionError::InvalidDimensions),
    );
}

#[test]
fn from_samples_rejects_a_wrong_number_of_samples() {
    assert_eq!(
        Plot::from_samples(2, 2, flat(3), 0, 0, 0).err(),
        Some(ConstructionError::InvalidDimensions),
    );
    assert_eq!(
        Plot::from_samples(2, 2, flat(5), 0, 0, 0).err(),
        Some(ConstructionError::InvalidDimensions),
    );
    assert_eq!(
        Plot::from_samples(3, 2, flat(4), 0, 0, 0).err(),
        Some(ConstructionError::InvalidDimensions),
    );
}

#[test]
fn from_samples_rejects_dimensions_whose_product_overflows() {
    assert_eq!(
        Plot::from_samples(usize::MAX, 2, flat(4), 0, 0, 0).err(),
        Some(ConstructionError::InvalidDimensions),
    );
    assert_eq!(
        Plot::from_samples(usize::MAX / 2 + 1, 2, flat(0), 0, 0, 0).err(),
        Some(ConstructionError::InvalidDimensions),
    );
}

#[test]
fn from_samples_names_the_first_sample_that_is_not_finite() {
    let mut samples = flat(12);
    samples[7] = sample_of(0.0, f64::NAN, 0.0);
    samples[10] = sample_of(f64::INFINITY, 0.0, 0.0);
    assert_eq!(
        Plot::from_samples(3, 4, samples.clone(), 0, 0, 0).err(),
        Some(ConstructionError::NonFiniteSample { row: 1, col: 3 }),
    );
    assert_eq!(
        Plot::from_samples(4, 3, samples.clone(), 0, 0, 0).err(),
        Some(ConstructionError::NonFiniteSample { row: 2, col: 1 }),
    );
    samples[0] = sample_of(0.0, 0.0, f64::NEG_INFINITY);
    assert_eq!(
        Plot::from_samples(2, 6, samples, 0, 0, 0).err(),
        Some(ConstructionError::NonFiniteSample { row: 0, col: 0 }),
    );
}

#[test]
fn from_samples_checks_the_dimensions_before_the_samples() {
    let mut samples = flat(5);
    samples[0] = sample_of(f64::NAN, 0.0, 0.0);
    assert_eq!(
        Plot::from_samples(2, 2, samples, 0, 0, 0).err(),
        Some(ConstructionError::InvalidDimensions),
    );
}

#[test]
fn from_samples_accepts_a_spread_that_is_not_finite() {
    let plot = Plot::from_samples(2, 2, flat(4), f64::NAN.to_bits(), 0, 0).unwrap();
    assert_eq!(plot.spread(), f64::NAN.to_bits());
}

#[test]
fn initial_plot_calls_the_function_once_for_each_point_row_by_row() {
    let calls: RefCell<Vec<(Ratio, Ratio)>> = RefCell::new(Vec::new());
    let function = |x: Ratio, y: Ratio| {
        calls.borrow_mut().push((x, y));
        sample_of(quotient(x), quotient(y), 0.0)
    };
    let plot = Plot::get_initial_plot(function, 2, 3, 0, 0, 0).unwrap();
    let minus_one = Ratio { numerator: -1, denominator: 1 };
    let zero = Ratio { numerator: 0, denominator: 1 };
    let one = Ratio { numerator: 1, denominator: 1 };
    assert_eq!(
        *calls.borrow(),
        vec![
            (minus_one, minus_one),
            (zero, minus_one),
            (one, minus_one),
            (minus_one, zero),
            (zero, zero),
            (one, zero),
        ],
    );
    assert_eq!(plot.sample(0, 0), sample_of(-1.0, -1.0, 0.0));
    assert_eq!(plot.sample(0, 2), sample_of(1.0, -1.0, 0.0));
    assert_eq!(plot.sample(1, 1), sample_of(0.0, 0.0, 0.0));
}

#[test]
fn initial_plot_does_not_call_the_function_for_invalid_dimensions() {
    let calls: RefCell<usize> = RefCell::new(0);
    let function = |x: Ratio, y: Ratio| {
        *calls.borrow_mut() += 1;
        sample_of(quotient(x), quotient(y), 0.0)
    };
    assert_eq!(
        Plot::get_initial_plot(&function, 1, 5, 0, 0, 0).err(),
        Some(ConstructionError::InvalidDimensions),
    );
    assert_eq!(
        Plot::get_initial_plot(&function, 5, 1, 0, 0, 0).err(),
        Some(ConstructionError::InvalidDimensions),
    );
    assert_eq!(
        Plot::get_initial_plot(&function, 0, 0, 0, 0, 0).err(),
        Some(ConstructionError::InvalidDimensions),
    );
    assert_eq!(
        Plot::get_initial_plot(&function, usize::MAX, 2, 0, 0, 0).err(),
        Some(ConstructionError::InvalidDimensions),
    );
    assert_eq!(*calls.borrow(), 0);
}

#[test]
fn initial_plot_reports_a_height_that_is_not_finite() {
    let function = |x: Ratio, y: Ratio| {
        let (x, y) = (quotient(x), quotient(y));
        sample_of(x, y, 1.0 / (x * x + y * y))
    };
    assert_eq!(
        Plot::get_initial_plot(function, 5, 7, 0, 0, 0).err(),
        Some(ConstructionError::NonFiniteSample { row: 2, col: 3 }),
    );
}

#[test]
fn initial_plot_of_the_rippled_surface_is_finite_and_rotated() {
    let function = |x: Ratio, y: Ratio| {
        let (x, y) = (quotient(x), quotient(y));
        let z = (10. * (x * x + y * y).sqrt()).cos() / 4.;
        let (x_prim, y_prim) = rotate_around_z(x, y, std::f64::consts::PI / 4.);
        sample_of(x_prim, y_prim, z)
    };
    let spread = 200f64.to_bits();
    let x_shift = 400f64.to_bits();
    let y_shift = 300f64.to_bits();
    let plot = Plot::get_initial_plot(function, 51, 51, spread, x_shift, y_shift).unwrap();
    assert_eq!(plot.rows(), 51);
    assert_eq!(plot.cols(), 51);
    let centre = plot.sample(25, 25);
    assert_eq!(f64::from_bits(centre.x), 0.0);
    assert_eq!(f64::from_bits(centre.y), 0.0);
    assert_eq!(f64::from_bits(centre.z), 0.25);
    let corner = plot.sample(0, 0);
    assert!((f64::from_bits(corner.x) - 0.0).abs() < 1e-12);
    assert!((f64::from_bits(corner.y) + 2f64.sqrt()).abs() < 1e-12);
    for row in 0..51 {
        for col in 0..51 {
            assert!(plot.sample(row, col).is_finite());
        }
    }
}

#[test]
fn rebuilding_gives_the_same_grid_bit_for_bit() {
    let function = |x: Ratio, y: Ratio| {
        let (x, y) = (quotient(x), quotient(y));
        let z = (10. * (x * x + y * y).sqrt()).cos() / 4.;
        let (x_prim, y_prim) = rotate_around_z(x, y, std::f64::consts::PI / 4.);
        sample_of(x_prim, y_prim, z)
    };
    let first = Plot::get_initial_plot(&function, 9, 7, 1, 2, 3).unwrap();
    let second = Plot::get_initial_plot(&function, 9, 7, 1, 2, 3).unwrap();
    assert_eq!(first.rows(), second.rows());
    assert_eq!(first.cols(), second.cols());
    for row in 0..9 {
        for col in 0..7 {
            assert_eq!(first.sample(row, col), second.sample(row, col));
        }
    }
}

#[test]
fn heights_of_a_symmetric_function_mirror_about_the_centre() {
    let function = |x: Ratio, y: Ratio| {
        let (x, y) = (quotient(x), quotient(y));
        sample_of(x, y, x * y + (x * x - 3. * y * y).cos())
    };
    for &(rows, cols) in &[(5usize, 7usize), (4, 6), (3, 4), (51, 51)] {
        let plot = Plot::get_initial_plot(&function, rows, cols, 0, 0, 0).unwrap();
        for row in 0..rows {
            for col in 0..cols {
                let (mirror_row, mirror_col) = (2 * (rows / 2), 2 * (cols / 2));
                if mirror_row - row < rows && mirror_col - col < cols {
                    let mirror = plot.sample(mirror_row - row, mirror_col - col);
                    assert_eq!(plot.sample(row, col).z, mirror.z);
                }
            }
        }
    }
}

#[test]
fn flat_surface_of_three_by_three_lands_on_forty_fifty_sixty() {
    let function = |x: Ratio, y: Ratio| {
        let (x_prim, y_prim) = rotate_around_z(quotient(x), quotient(y), 0.);
        sample_of(x_prim, y_prim, 0.)
    };
    let (spread, shift) = (10f64.to_bits(), 50f64.to_bits());
    let plot = Plot::get_initial_plot(function, 3, 3, spread, shift, shift).unwrap();
    for row in 0..3 {
        for col in 0..3 {
            let sample = plot.sample(row, col);
            assert_eq!(f64::from_bits(sample.x), col as f64 - 1.);
            assert_eq!(f64::from_bits(sample.y), row as f64 - 1.);
            assert_eq!(f64::from_bits(sample.z), 0.);
        }
    }
    assert_eq!(pixel_of(&plot, 0, 0, 0.), (40., 40.));
    assert_eq!(pixel_of(&plot, 1, 1, 0.), (50., 50.));
    assert_eq!(pixel_of(&plot, 2, 2, 0.), (60., 60.));
}

#[test]
fn pixel_value_hands_the_sample_the_angle_and_the_placement_to_the_projection() {
    let samples = flat(6);
    let plot = Plot::from_samples(2, 3, samples.clone(), 11, 22, 33).unwrap();
    let seen: RefCell<Vec<(Sample, u64, u64, u64, u64)>> = RefCell::new(Vec::new());
    let record = |sample: Sample, alpha: u64, spread: u64, x_shift: u64, y_shift: u64| {
        seen.borrow_mut().push((sample, alpha, spread, x_shift, y_shift));
        Pixel { x: 7, y: 9 }
    };
    assert_eq!(plot.get_pixel_value(1, 2, 44, &record), Pixel { x: 7, y: 9 });
    assert_eq!(plot.get_pixel_value(0, 1, 55, &record), Pixel { x: 7, y: 9 });
    assert_eq!(
        *seen.borrow(),
        vec![(samples[5], 44, 11, 22, 33), (samples[1], 55, 11, 22, 33)],
    );
}

#[test]
fn pixel_value_at_angle_zero_keeps_the_rotated_height() {
    let samples = vec![
        sample_of(0.25, -0.75, 3.5),
        sample_of(-1., 1., -2.),
        sample_of(0.5, 0.125, 1e300),
        sample_of(0., 0., 0.),
    ];
    let (one, zero) = (1f64.to_bits(), 0f64.to_bits());
    let plot = Plot::from_samples(2, 2, samples.clone(), one, zero, zero).unwrap();
    for row in 0..2 {
        for col in 0..2 {
            let sample = samples[row * 2 + col];
            let (x, y) = pixel_of(&plot, row, col, 0.);
            assert_eq!(x, f64::from_bits(sample.x) as f32);
            assert_eq!(y, f64::from_bits(sample.y) as f32);
        }
    }
}

#[test]
fn pixel_value_at_a_quarter_turn_is_minus_the_height() {
    let samples = vec![sample_of(0., 0., 1.); 4];
    let (one, zero) = (1f64.to_bits(), 0f64.to_bits());
    let plot = Plot::from_samples(2, 2, samples, one, zero, zero).unwrap();
    let (_, y) = pixel_of(&plot, 0, 0, std::f64::consts::FRAC_PI_2);
    assert_eq!(y, -1.);
}

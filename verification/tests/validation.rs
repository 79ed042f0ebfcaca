use convolve::convolution::{
    any_negative, any_non_finite, any_positive, is_correctly_dimensionsed, maximal_negative,
    minimal_positive, validate_kernel, ConvolutionError,
};

fn bits_of(values: &[f64]) -> Vec<u64> {
    values.iter().map(|x| x.to_bits()).collect()
}

#[test]
fn empty_kernel_is_not_well_shaped() {
    let r = validate_kernel(&bits_of(&[]));
    assert_eq!(r, Err(ConvolutionError::ConvolutionIsNotWellShaped));
}

#[test]
fn two_weights_are_not_well_shaped() {
    let r = validate_kernel(&bits_of(&[1.0, 2.0]));
    assert_eq!(r, Err(ConvolutionError::ConvolutionIsNotWellShaped));
}

#[test]
fn even_square_is_not_well_shaped() {
    let r = validate_kernel(&bits_of(&[0.0, 0.0, 0.0, 0.0]));
    assert_eq!(r, Err(ConvolutionError::ConvolutionIsNotWellShaped));
}

#[test]
fn nine_zeros_make_a_three_by_three_kernel() {
    let r = validate_kernel(&bits_of(&[0.0; 9]));
    assert_eq!(r, Ok(3));
}

#[test]
fn single_weight_makes_an_identity_kernel() {
    let r = validate_kernel(&bits_of(&[1.0]));
    assert_eq!(r, Ok(1));
}

#[test]
fn twenty_five_weights_make_a_five_by_five_kernel() {
    let r = validate_kernel(&bits_of(&[0.25; 25]));
    assert_eq!(r, Ok(5));
}

#[test]
fn infinite_weight_is_rejected() {
    let weights = [1.0, f64::INFINITY, 1.0, 1.0, 1.0, 1.0, 1.0, 1.0, 1.0];
    let r = validate_kernel(&bits_of(&weights));
    assert_eq!(r, Err(ConvolutionError::ConvolutionDoesNotContainNumbers));
}

#[test]
fn negative_infinity_and_nan_are_rejected() {
    let r = validate_kernel(&bits_of(&[f64::NEG_INFINITY]));
    assert_eq!(r, Err(ConvolutionError::ConvolutionDoesNotContainNumbers));
    let r = validate_kernel(&bits_of(&[f64::NAN]));
    assert_eq!(r, Err(ConvolutionError::ConvolutionDoesNotContainNumbers));
}

#[test]
fn non_finite_check_runs_before_the_shape_check() {
    // two weights: a bad shape, but the finiteness error wins
    let r = validate_kernel(&bits_of(&[1.0, f64::INFINITY]));
    assert_eq!(r, Err(ConvolutionError::ConvolutionDoesNotContainNumbers));
}

#[test]
fn shape_check_accepts_exactly_the_odd_squares() {
    assert!(!is_correctly_dimensionsed(0));
    assert!(is_correctly_dimensionsed(1));
    assert!(!is_correctly_dimensionsed(2));
    assert!(!is_correctly_dimensionsed(3));
    assert!(!is_correctly_dimensionsed(4));
    assert!(is_correctly_dimensionsed(9));
    assert!(!is_correctly_dimensionsed(16));
    assert!(is_correctly_dimensionsed(25));
    assert!(is_correctly_dimensionsed(49));
}

#[test]
fn finiteness_scan_finds_non_finite_weights() {
    assert!(!any_non_finite(&bits_of(&[0.0, -1.5, 1e300])));
    assert!(any_non_finite(&bits_of(&[0.0, f64::INFINITY])));
    assert!(any_non_finite(&bits_of(&[f64::NAN])));
}

#[test]
fn sign_scans_treat_negative_zero_as_non_negative() {
    // -0.0 < 0.0 is false, so it counts as non-negative, as in `new`
    assert!(!any_negative(&bits_of(&[-0.0, 1.0])));
    assert!(any_positive(&bits_of(&[-0.0])));
    assert!(any_negative(&bits_of(&[1.0, -2.0])));
    assert!(!any_positive(&bits_of(&[-1.0, -2.0])));
}

#[test]
fn minimal_positive_picks_the_smallest_non_negative_weight() {
    assert_eq!(minimal_positive(&bits_of(&[3.0, 1.0, 2.0])), 1);
    assert_eq!(minimal_positive(&bits_of(&[5.0, -1.0, 2.0])), 2);
    // ties between the two zeros go to the earliest index
    assert_eq!(minimal_positive(&bits_of(&[0.0, -0.0])), 0);
    assert_eq!(minimal_positive(&bits_of(&[-0.0, 0.0])), 0);
}

#[test]
fn maximal_negative_picks_the_largest_negative_weight() {
    assert_eq!(maximal_negative(&bits_of(&[-3.0, -1.0, -2.0])), 1);
    assert_eq!(maximal_negative(&bits_of(&[4.0, -2.5, -9.0])), 1);
    // ties go to the latest index
    assert_eq!(maximal_negative(&bits_of(&[-1.0, -1.0])), 1);
}

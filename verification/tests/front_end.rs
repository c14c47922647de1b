use dsppipeline::complex::Complex16;
use dsppipeline::samples::{
    baseband_from_raw, bytes_to_signed, complex_decimate, interleaved_to_complex,
    unsigned_to_signed, DECIMATION,
};

fn c(re: i16, im: i16) -> Complex16 {
    Complex16 { re, im }
}

#[test]
fn unsigned_to_signed_maps_bytes_to_three_levels() {
    assert_eq!(unsigned_to_signed(0), -1);
    assert_eq!(unsigned_to_signed(1), 0);
    assert_eq!(unsigned_to_signed(127), 0);
    assert_eq!(unsigned_to_signed(128), 0);
    assert_eq!(unsigned_to_signed(253), 0);
    assert_eq!(unsigned_to_signed(254), 1);
    assert_eq!(unsigned_to_signed(255), 1);
}

#[test]
fn unsigned_to_signed_matches_the_integer_formula() {
    for a in 0..=255u8 {
        assert_eq!(unsigned_to_signed(a), (a as i16 - 127) / 127);
    }
}

#[test]
fn bytes_to_signed_converts_each_byte() {
    assert_eq!(bytes_to_signed(&[0, 100, 255, 254, 3]), vec![-1, 0, 1, 1, 0]);
    assert_eq!(bytes_to_signed(&[]), Vec::<i16>::new());
}

#[test]
fn interleaved_pairs_take_the_second_element_as_real_part() {
    assert_eq!(interleaved_to_complex(&[1, 2, 3, 4]), vec![c(2, 1), c(4, 3)]);
}

#[test]
fn interleaved_drops_a_trailing_odd_element() {
    assert_eq!(interleaved_to_complex(&[1, 2, 3, 4, 5]), vec![c(2, 1), c(4, 3)]);
    assert_eq!(interleaved_to_complex(&[7]), Vec::<Complex16>::new());
}

#[test]
fn decimate_averages_blocks_of_ten() {
    let x = vec![c(100, -35); 10];
    assert_eq!(complex_decimate(&x), vec![c(100, -35)]);
    assert_eq!(DECIMATION, 10);
}

#[test]
fn decimate_rounds_toward_zero() {
    // Sums 25 and -25: the averages are 2 and -2, not 2 and -3.
    let mut x = vec![c(2, -2); 10];
    x[0] = c(7, -7);
    assert_eq!(complex_decimate(&x), vec![c(2, -2)]);
    // Sums 9 and -9 average to 0.
    let mut y = vec![c(1, -1); 9];
    y.push(c(0, 0));
    assert_eq!(complex_decimate(&y), vec![c(0, 0)]);
}

#[test]
fn decimate_drops_a_trailing_partial_block() {
    let mut x = vec![c(1, 1); 10];
    x.extend(vec![c(30, -30); 10]);
    x.extend(vec![c(5, 5); 5]);
    assert_eq!(complex_decimate(&x), vec![c(1, 1), c(30, -30)]);
    assert_eq!(complex_decimate(&x[..9]), Vec::<Complex16>::new());
}

#[test]
fn decimate_handles_large_sums_that_fit() {
    // Sum 3276: ten times it still fits in an i16.
    let mut x = vec![c(327, -327); 10];
    x[0] = c(333, -333);
    assert_eq!(complex_decimate(&x), vec![c(327, -327)]);
}

#[test]
fn baseband_of_full_scale_bytes() {
    let raw = vec![255u8; 20];
    assert_eq!(baseband_from_raw(&raw), vec![c(1, 1)]);
    let raw = vec![0u8; 40];
    assert_eq!(baseband_from_raw(&raw), vec![c(-1, -1), c(-1, -1)]);
}

#[test]
fn baseband_of_mid_scale_bytes_is_zero() {
    let raw = vec![128u8; 60];
    assert_eq!(baseband_from_raw(&raw), vec![c(0, 0); 3]);
}

#[test]
fn baseband_of_mixed_bytes() {
    // Odd bytes (real parts) all 255, even bytes (imaginary parts) 0 in the
    // first 12 pairs and 200 after: real sums 10, imaginary sum -10 then -4.
    let mut raw = Vec::new();
    for k in 0..20 {
        raw.push(if k < 12 { 0 } else { 200 });
        raw.push(255);
    }
    assert_eq!(baseband_from_raw(&raw), vec![c(1, -1), c(1, 0)]);
}

#[test]
fn baseband_length_is_a_twentieth() {
    assert_eq!(baseband_from_raw(&vec![0u8; 262144]).len(), 262144 / 20);
    assert_eq!(baseband_from_raw(&vec![0u8; 39]).len(), 1);
    assert_eq!(baseband_from_raw(&vec![0u8; 19]).len(), 0);
}

#[test]
fn decimate_keeps_a_constant_signal() {
    for &(re, im) in &[(0i16, 0i16), (1, -1), (-327, 327), (300, -5)] {
        let x = vec![c(re, im); 30];
        assert_eq!(complex_decimate(&x), vec![c(re, im); 3]);
    }
}

use max7219_matrix::{is_bit_set, rotate_90_clockwise};

#[test]
fn rotate_zero_matrix() {
    assert_eq!(rotate_90_clockwise([0; 8]), [0; 8]);
}

#[test]
fn rotate_single_corner_pixel() {
    assert_eq!(rotate_90_clockwise([1, 0, 0, 0, 0, 0, 0, 0]), [0, 0, 0, 0, 0, 0, 0, 1]);
}

#[test]
fn rotate_moves_pixels_clockwise() {
    // bit (row 0, column 7) goes to row 0, bit 0
    assert_eq!(rotate_90_clockwise([0x80, 0, 0, 0, 0, 0, 0, 0]), [1, 0, 0, 0, 0, 0, 0, 0]);
    // bit (row 7, column 0) goes to row 7, bit 7
    assert_eq!(rotate_90_clockwise([0, 0, 0, 0, 0, 0, 0, 1]), [0, 0, 0, 0, 0, 0, 0, 0x80]);
    // a full first row becomes a full first column
    assert_eq!(rotate_90_clockwise([0xFF, 0, 0, 0, 0, 0, 0, 0]), [1; 8]);
}

#[test]
fn rotate_four_times_is_identity() {
    let m = [0x0C, 0x1E, 0x33, 0x33, 0x3F, 0x33, 0x33, 0x00];
    let r = rotate_90_clockwise(rotate_90_clockwise(rotate_90_clockwise(rotate_90_clockwise(m))));
    assert_eq!(r, m);
    assert_ne!(rotate_90_clockwise(m), m);
}

#[test]
fn bit_test() {
    assert!(is_bit_set(0b1000_0001, 0));
    assert!(is_bit_set(0b1000_0001, 7));
    assert!(!is_bit_set(0b1000_0001, 3));
    assert!(!is_bit_set(0xFF, 8));
}

use max7219_matrix::{is_in_range, MAX7219};

const GLYPH_A: [u8; 8] = [0x0C, 0x1E, 0x33, 0x33, 0x3F, 0x33, 0x33, 0x00];
const GLYPH_B: [u8; 8] = [0x3F, 0x66, 0x66, 0x3E, 0x66, 0x66, 0x3F, 0x00];
const GLYPH_C: [u8; 8] = [0x3C, 0x66, 0x03, 0x03, 0x03, 0x66, 0x3C, 0x00];

fn font() -> [[u8; 8]; 256] {
    let mut font = [[0u8; 8]; 256];
    font[b'A' as usize] = GLYPH_A;
    font[b'B' as usize] = GLYPH_B;
    font[b'C' as usize] = GLYPH_C;
    font
}

/// The data bytes of one frame, chip by chip.
fn data(frame: &[u8]) -> Vec<u8> {
    frame.chunks(2).map(|pair| pair[1]).collect()
}

fn registers(frame: &[u8]) -> Vec<u8> {
    frame.chunks(2).map(|pair| pair[0]).collect()
}

#[test]
fn render_single_char_single_chip() {
    let mut pin = ();
    let driver = MAX7219::new(&mut pin, 1);
    let frames = driver.text_frames("A", 0, &font());
    assert_eq!(frames.len(), 8);
    for row in 0..8 {
        assert_eq!(frames[row], vec![row as u8 + 1, GLYPH_A[row]]);
    }
}

#[test]
fn render_at_zero_shows_unshifted_glyphs() {
    let mut pin = ();
    let driver = MAX7219::new(&mut pin, 3);
    let frames = driver.text_frames("ABC", 0, &font());
    for row in 0..8 {
        assert_eq!(registers(&frames[row]), vec![row as u8 + 1; 3]);
        // the first chip shows the last character
        assert_eq!(data(&frames[row]), vec![GLYPH_C[row], GLYPH_B[row], GLYPH_A[row]]);
    }
}

#[test]
fn render_shifted_right_by_one_pixel() {
    let mut pin = ();
    let driver = MAX7219::new(&mut pin, 1);
    let frames = driver.text_frames("A", 1, &font());
    let expected = [24, 60, 102, 102, 126, 102, 102, 0];
    for row in 0..8 {
        assert_eq!(frames[row], vec![row as u8 + 1, expected[row]]);
    }
}

#[test]
fn render_shifted_left_blends_next_char() {
    let mut pin = ();
    let driver = MAX7219::new(&mut pin, 1);
    let frames = driver.text_frames("AB", -1, &font());
    let expected = [134, 15, 25, 25, 31, 25, 153, 0];
    for row in 0..8 {
        assert_eq!(data(&frames[row]), vec![expected[row]]);
    }
}

#[test]
fn render_draws_remainder_past_the_end() {
    let mut pin = ();
    let driver = MAX7219::new(&mut pin, 2);
    let frames = driver.text_frames("A", 3, &font());
    let first_chip = [0, 0, 1, 1, 1, 1, 1, 0];
    let second_chip = [96, 240, 152, 152, 248, 152, 152, 0];
    for row in 0..8 {
        assert_eq!(data(&frames[row]), vec![first_chip[row], second_chip[row]]);
    }
}

#[test]
fn render_whole_character_offsets() {
    let mut pin = ();
    let driver = MAX7219::new(&mut pin, 2);
    let f = font();
    let frames = driver.text_frames("AB", 8, &f);
    for row in 0..8 {
        assert_eq!(data(&frames[row]), vec![GLYPH_A[row], 0]);
    }
    let frames = driver.text_frames("AB", -8, &f);
    for row in 0..8 {
        assert_eq!(data(&frames[row]), vec![0, GLYPH_B[row]]);
    }
}

#[test]
fn render_negative_offset_with_shift() {
    let mut pin = ();
    let driver = MAX7219::new(&mut pin, 1);
    let frames = driver.text_frames("AB", -9, &font());
    let expected = [31, 51, 51, 31, 51, 51, 31, 0];
    for row in 0..8 {
        assert_eq!(data(&frames[row]), vec![expected[row]]);
    }
}

#[test]
fn render_far_outside_uses_blank_glyph() {
    let mut pin = ();
    let driver = MAX7219::new(&mut pin, 2);
    let mut f = font();
    f[0] = [0x81; 8];
    let frames = driver.text_frames("A", 1000, &f);
    for row in 0..8 {
        assert_eq!(data(&frames[row]), vec![0x81, 0x81]);
    }
    let frames = driver.text_frames("", 0, &f);
    for row in 0..8 {
        assert_eq!(data(&frames[row]), vec![0x81, 0x81]);
    }
}

#[test]
fn get_byte_at_blends_neighbours() {
    let mut pin = ();
    let driver = MAX7219::new(&mut pin, 1);
    let f = font();
    let s = b"ABC";
    assert_eq!(driver.get_byte_at(s, 1, 0, 0, &f), GLYPH_B[0]);
    assert_eq!(driver.get_byte_at(s, 1, 3, 2, &f), (GLYPH_B[3] << 2) | (GLYPH_A[3] >> 6));
    assert_eq!(driver.get_byte_at(s, 1, 5, -3, &f), (GLYPH_B[5] >> 3) | (GLYPH_C[5] << 5));
    assert_eq!(driver.get_byte_at(s, -1, 1, -4, &f), GLYPH_A[1] << 4);
    assert_eq!(driver.get_byte_at(s, 3, 1, 4, &f), GLYPH_C[1] >> 4);
}

#[test]
fn range_check() {
    assert!(is_in_range(3, 0));
    assert!(is_in_range(3, 2));
    assert!(!is_in_range(3, 3));
    assert!(!is_in_range(3, -1));
    assert!(!is_in_range(0, 0));
}

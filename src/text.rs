use vstd::prelude::*;
use vstd::string::StringSliceAdditionalSpecFns;
use crate::chain::{is_frame, lemma_frame_push, push_pair, MAX7219};

verus! {

/// Character offset of a pixel position: the quotient of `x / 8`, rounded toward zero.
pub open spec fn char_offset(x: int) -> int {
    if x >= 0 {
        x / 8
    } else {
        -((-x) / 8)
    }
}

/// Bit shift of a pixel position: the remainder of `x / 8` that carries the sign of `x`,
/// so that `x == 8 * char_offset(x) + bit_shift(x)` and `-7 <= bit_shift(x) <= 7`.
pub open spec fn bit_shift(x: int) -> int {
    x - 8 * char_offset(x)
}

/// Index into the text of the character aligned with chip `d` of a chain of `n` chips.
pub open spec fn char_index(n: nat, d: int, x: int) -> int {
    n - d - 1 - char_offset(x)
}

/// Row `row` of the glyph of character `i` of `text`, or of the blank glyph (code 0)
/// where `i` lies outside the text.
pub open spec fn glyph_row(text: Seq<u8>, font: Seq<[u8; 8]>, i: int, row: int) -> u8 {
    if 0 <= i < text.len() {
        font[text[i] as int][row]
    } else {
        font[0][row]
    }
}

/// The byte shown when the glyph row `middle` is shifted by `shift` bits, the vacated
/// bits being filled from the neighbouring glyph rows `left` and `right`.
pub open spec fn blend(middle: u8, left: u8, right: u8, shift: int) -> u8 {
    if shift == 0 {
        middle
    } else if shift < 0 {
        (middle >> ((-shift) as u8)) | (right << ((8 + shift) as u8))
    } else {
        (middle << (shift as u8)) | (left >> ((8 - shift) as u8))
    }
}

/// The byte that chip `d` of a chain of `n` chips shows in row `row` when `text` is
/// drawn at pixel position `x`.
pub open spec fn text_byte(n: nat, text: Seq<u8>, font: Seq<[u8; 8]>, x: int, d: int, row: int) -> u8 {
    let i = char_index(n, d, x);
    blend(
        glyph_row(text, font, i, row),
        glyph_row(text, font, i - 1, row),
        glyph_row(text, font, i + 1, row),
        bit_shift(x),
    )
}

/// The pairs of the frame that draws row `row` of `text` at pixel position `x`.
pub open spec fn text_pairs(n: nat, text: Seq<u8>, font: Seq<[u8; 8]>, x: int, row: int) -> Seq<
    (u8, u8),
> {
    Seq::new(n, |d: int| ((row + 1) as u8, text_byte(n, text, font, x, d, row)))
}

/// At pixel position 0 nothing is blended: chip `d` shows, in each row, the unshifted
/// glyph row of the character aligned with it.
pub proof fn lemma_text_unshifted(n: nat, text: Seq<u8>, font: Seq<[u8; 8]>, d: int, row: int)
    ensures
        text_byte(n, text, font, 0, d, row) == glyph_row(text, font, n - d - 1, row),
{
}

pub fn is_in_range(len: i128, i: i128) -> (r: bool)
    ensures
        r == (0 <= i < len),
{
    i >= 0 && i < len
}

fn glyph_row_at(string: &[u8], i: i128, line_index: usize, font: &[[u8; 8]; 256]) -> (r: u8)
    requires
        line_index < 8,
    ensures
        r == glyph_row(string@, font@, i as int, line_index as int),
{
    if is_in_range(string.len() as i128, i) {
        font[string[i as usize] as usize][line_index]
    } else {
        font[0][line_index]
    }
}

fn split_position(x_pos: i32) -> (r: (i128, i8))
    ensures
        r.0 == char_offset(x_pos as int),
        r.1 == bit_shift(x_pos as int),
        -8 < r.1 < 8,
{
    if x_pos >= 0 {
        let u = x_pos as u32;
        ((u / 8) as i128, (u % 8) as i8)
    } else {
        let u = (-(x_pos as i64)) as u64;
        (-((u / 8) as i128), -((u % 8) as i8))
    }
}

impl<'a, CS> MAX7219<'a, CS> {
    /// gets a byte representing part of a font character shifted by some number of bits
    /// it is possible to get part of the next or previous character returned because of the
    /// position shifting
    pub fn get_byte_at(
        &self,
        string: &[u8],
        string_index: i128,
        line_index: usize,
        shift_by_num_bits: i8,
        font: &[[u8; 8]; 256],
    ) -> (r: u8)
        requires
            line_index < 8,
            -8 < shift_by_num_bits < 8,
            i128::MIN < string_index < i128::MAX,
        ensures
            r == blend(
                glyph_row(string@, font@, string_index as int, line_index as int),
                glyph_row(string@, font@, string_index - 1, line_index as int),
                glyph_row(string@, font@, string_index + 1, line_index as int),
                shift_by_num_bits as int,
            ),
    {
        let left = glyph_row_at(string, string_index - 1, line_index, font);
        let middle = glyph_row_at(string, string_index, line_index, font);
        let right = glyph_row_at(string, string_index + 1, line_index, font);
        if shift_by_num_bits == 0 {
            middle
        } else if shift_by_num_bits < 0 {
            // shift digit left
            let k = (-shift_by_num_bits) as u8;
            (middle >> k) | (right << (8 - k))
        } else {
            // shift digit right
            let k = shift_by_num_bits as u8;
            (middle << k) | (left >> (8 - k))
        }
    }

    /// The eight frames, one per row, that draw `s` at pixel position `x_pos`, which
    /// may be negative; increasing `x_pos` moves the text to the right. Characters
    /// outside the text, including the position just past its end, are drawn with the
    /// blank glyph of code 0, so a glyph that is shifted in part off its chip still shows
    /// its remainder on the neighbouring chip.
    pub fn text_frames(&self, s: &str, x_pos: i32, font: &[[u8; 8]; 256]) -> (r: Vec<Vec<u8>>)
        ensures
            r@.len() == 8,
            forall|row: int|
                0 <= row < 8 ==> is_frame(
                    #[trigger] r@[row]@,
                    text_pairs(self.devices(), s.spec_bytes(), font@, x_pos as int, row),
                ),
    {
        let string = s.as_bytes();
        let (start_string_index, shift_by_bits) = split_position(x_pos);
        let n = self.num_devices;
        let mut frames: Vec<Vec<u8>> = Vec::new();
        let mut line_index: usize = 0;
        while line_index < 8
            invariant
                line_index <= 8,
                n == self.devices(),
                string@ == s.spec_bytes(),
                start_string_index == char_offset(x_pos as int),
                shift_by_bits == bit_shift(x_pos as int),
                -8 < shift_by_bits < 8,
                frames@.len() == line_index,
                forall|row: int|
                    0 <= row < line_index ==> is_frame(
                        #[trigger] frames@[row]@,
                        text_pairs(n as nat, string@, font@, x_pos as int, row),
                    ),
            decreases 8 - line_index,
        {
            let ghost pairs = text_pairs(n as nat, string@, font@, x_pos as int, line_index as int);
            let register = line_index as u8 + 1;
            let mut frame: Vec<u8> = Vec::new();
            let mut chip_index: usize = 0;
            // the last chip receives the first pair, so the text is laid out backwards
            while chip_index < n
                invariant
                    chip_index <= n,
                    line_index < 8,
                    register == line_index + 1,
                    n == self.devices(),
                    start_string_index == char_offset(x_pos as int),
                    shift_by_bits == bit_shift(x_pos as int),
                    -8 < shift_by_bits < 8,
                    pairs == text_pairs(n as nat, string@, font@, x_pos as int, line_index as int),
                    is_frame(frame@, pairs.take(chip_index as int)),
                decreases n - chip_index,
            {
                let string_index = (n - chip_index - 1) as i128 - start_string_index;
                let val = self.get_byte_at(string, string_index, line_index, shift_by_bits, font);
                proof {
                    assert(pairs[chip_index as int] == (register, val));
                    lemma_frame_push(frame@, pairs.take(chip_index as int), register, val);
                    assert(pairs.take(chip_index as int).push((register, val)) =~= pairs.take(
                        chip_index + 1,
                    ));
                }
                push_pair(&mut frame, register, val);
                chip_index += 1;
            }
            assert(pairs.take(n as int) =~= pairs);
            frames.push(frame);
            line_index += 1;
        }
        frames
    }
}

} // verus!

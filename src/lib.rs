//! Driver logic for daisy-chained MAX7219 chips that each drive an 8x8 LED
//! dot matrix: the frames shifted out for each operation, the text compositor
//! for pixel-exact scrolling, and the rotation used to prepare glyph tables.
//!
//! A frame is the sequence of bytes shifted out while the chip-select line is
//! low: one `(register, data)` pair per chip. Raising the line latches it into
//! every chip at once.
mod chain;
mod command;
mod rotate;
mod text;

pub use chain::{
    broadcast_pairs, clear_frames_spec, device_pairs, device_slot, is_frame, line_pairs, Error,
    MAX7219, NOOP_REGISTER,
};
pub use command::Command;
pub use rotate::{
    bit_of, is_bit_set, lemma_rotate_four_times, lemma_rotate_pixels, pixel, rotate_90_clockwise,
    rotate_spec, rotated_row,
};
pub use text::{
    bit_shift, blend, char_index, char_offset, glyph_row, is_in_range, lemma_text_unshifted,
    text_byte, text_pairs,
};

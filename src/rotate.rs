use vstd::prelude::*;

verus! {

/// Bit `n` (0 = least significant) of `byte` is set.
pub open spec fn bit_of(byte: u8, n: u8) -> bool {
    (byte >> n) & 1u8 == 1u8
}

/// Pixel in row `i`, column `j` of an 8x8 matrix: bit `j` of byte `i`.
pub open spec fn pixel(m: Seq<u8>, i: int, j: int) -> bool {
    bit_of(m[i], j as u8)
}

/// Row `a` of `m` turned 90 degrees clockwise: its bit `b` is pixel `(b, 7 - a)` of `m`.
pub open spec fn rotated_row(m: Seq<u8>, a: int) -> u8 {
    let s = (7 - a) as u8;
    ((m[0] >> s) & 1u8) | (((m[1] >> s) & 1u8) << 1u8) | (((m[2] >> s) & 1u8) << 2u8) | (((m[3]
        >> s) & 1u8) << 3u8) | (((m[4] >> s) & 1u8) << 4u8) | (((m[5] >> s) & 1u8) << 5u8) | (((m[6]
        >> s) & 1u8) << 6u8) | (((m[7] >> s) & 1u8) << 7u8)
}

/// The 8x8 matrix `m` turned 90 degrees clockwise.
pub open spec fn rotate_spec(m: Seq<u8>) -> Seq<u8> {
    Seq::new(8, |a: int| rotated_row(m, a))
}

proof fn lemma_rotated_row_bits(m0: u8, m1: u8, m2: u8, m3: u8, m4: u8, m5: u8, m6: u8, m7: u8, s: u8)
    by (bit_vector)
    requires
        s < 8,
    ensures
        ({
            let r = ((m0 >> s) & 1u8) | (((m1 >> s) & 1u8) << 1u8) | (((m2 >> s) & 1u8) << 2u8)
                | (((m3 >> s) & 1u8) << 3u8) | (((m4 >> s) & 1u8) << 4u8) | (((m5 >> s) & 1u8)
                << 5u8) | (((m6 >> s) & 1u8) << 6u8) | (((m7 >> s) & 1u8) << 7u8);
            &&& ((r >> 0u8) & 1u8 == 1u8) == ((m0 >> s) & 1u8 == 1u8)
            &&& ((r >> 1u8) & 1u8 == 1u8) == ((m1 >> s) & 1u8 == 1u8)
            &&& ((r >> 2u8) & 1u8 == 1u8) == ((m2 >> s) & 1u8 == 1u8)
            &&& ((r >> 3u8) & 1u8 == 1u8) == ((m3 >> s) & 1u8 == 1u8)
            &&& ((r >> 4u8) & 1u8 == 1u8) == ((m4 >> s) & 1u8 == 1u8)
            &&& ((r >> 5u8) & 1u8 == 1u8) == ((m5 >> s) & 1u8 == 1u8)
            &&& ((r >> 6u8) & 1u8 == 1u8) == ((m6 >> s) & 1u8 == 1u8)
            &&& ((r >> 7u8) & 1u8 == 1u8) == ((m7 >> s) & 1u8 == 1u8)
        }),
{
}

/// The pixels of the rotated matrix: pixel `(a, b)` of `rotate_spec(m)` is pixel
/// `(b, 7 - a)` of `m`.
pub proof fn lemma_rotate_pixels(m: Seq<u8>, a: int, b: int)
    requires
        m.len() == 8,
        0 <= a < 8,
        0 <= b < 8,
    ensures
        pixel(rotate_spec(m), a, b) == pixel(m, b, 7 - a),
{
    lemma_rotated_row_bits(m[0], m[1], m[2], m[3], m[4], m[5], m[6], m[7], (7 - a) as u8);
}

proof fn lemma_byte_from_bits(x: u8, y: u8)
    by (bit_vector)
    requires
        ((x >> 0u8) & 1u8 == 1u8) == ((y >> 0u8) & 1u8 == 1u8),
        ((x >> 1u8) & 1u8 == 1u8) == ((y >> 1u8) & 1u8 == 1u8),
        ((x >> 2u8) & 1u8 == 1u8) == ((y >> 2u8) & 1u8 == 1u8),
        ((x >> 3u8) & 1u8 == 1u8) == ((y >> 3u8) & 1u8 == 1u8),
        ((x >> 4u8) & 1u8 == 1u8) == ((y >> 4u8) & 1u8 == 1u8),
        ((x >> 5u8) & 1u8 == 1u8) == ((y >> 5u8) & 1u8 == 1u8),
        ((x >> 6u8) & 1u8 == 1u8) == ((y >> 6u8) & 1u8 == 1u8),
        ((x >> 7u8) & 1u8 == 1u8) == ((y >> 7u8) & 1u8 == 1u8),
    ensures
        x == y,
{
}

/// Two 8x8 matrices with the same pixels are equal.
proof fn lemma_matrix_from_pixels(m: Seq<u8>, n: Seq<u8>)
    requires
        m.len() == 8,
        n.len() == 8,
        forall|i: int, j: int| 0 <= i < 8 && 0 <= j < 8 ==> pixel(m, i, j) == pixel(n, i, j),
    ensures
        m == n,
{
    assert forall|i: int| 0 <= i < 8 implies m[i] == n[i] by {
        assert(pixel(m, i, 0) == pixel(n, i, 0));
        assert(pixel(m, i, 1) == pixel(n, i, 1));
        assert(pixel(m, i, 2) == pixel(n, i, 2));
        assert(pixel(m, i, 3) == pixel(n, i, 3));
        assert(pixel(m, i, 4) == pixel(n, i, 4));
        assert(pixel(m, i, 5) == pixel(n, i, 5));
        assert(pixel(m, i, 6) == pixel(n, i, 6));
        assert(pixel(m, i, 7) == pixel(n, i, 7));
        lemma_byte_from_bits(m[i], n[i]);
    }
    assert(m =~= n);
}

/// Turning an 8x8 matrix four times by 90 degrees gives back the matrix.
pub proof fn lemma_rotate_four_times(m: Seq<u8>)
    requires
        m.len() == 8,
    ensures
        rotate_spec(rotate_spec(rotate_spec(rotate_spec(m)))) == m,
{
    let r1 = rotate_spec(m);
    let r2 = rotate_spec(r1);
    let r3 = rotate_spec(r2);
    let r4 = rotate_spec(r3);
    assert forall|i: int, j: int| 0 <= i < 8 && 0 <= j < 8 implies pixel(r4, i, j) == pixel(
        m,
        i,
        j,
    ) by {
        lemma_rotate_pixels(r3, i, j);
        lemma_rotate_pixels(r2, j, 7 - i);
        lemma_rotate_pixels(r1, 7 - i, 7 - j);
        lemma_rotate_pixels(m, 7 - j, i);
    }
    lemma_matrix_from_pixels(r4, m);
}

proof fn lemma_set_bit(x: u8, i: u8, b: u8)
    by (bit_vector)
    requires
        i < 8,
        b < 8,
    ensures
        (((x | (1u8 << i)) >> b) & 1u8 == 1u8) == (((x >> b) & 1u8 == 1u8) || b == i),
{
}

pub fn is_bit_set(byte: u8, n: u8) -> (r: bool)
    ensures
        r == (n < 8 && bit_of(byte, n)),
{
    if n < 8 {
        assert((byte & (1u8 << n) != 0u8) == ((byte >> n) & 1u8 == 1u8)) by (bit_vector)
            requires
                n < 8,
        ;
        byte & (1 << n) != 0
    } else {
        false
    }
}

/// Rotate an 8x8 matrix by 90 degrees clockwise
/// used in this project for rotating letters in a font file
pub fn rotate_90_clockwise(buffer: [u8; 8]) -> (r: [u8; 8])
    ensures
        r@ == rotate_spec(buffer@),
{
    let mut rotated: [u8; 8] = [0; 8];
    proof {
        assert forall|b: u8| b < 8 implies !bit_of(0u8, b) by {
            assert((0u8 >> b) & 1u8 == 0u8) by (bit_vector);
        }
    }
    let mut i: usize = 0;
    while i < 8
        invariant
            i <= 8,
            forall|a: int, b: int|
                0 <= a < 8 && 0 <= b < 8 ==> #[trigger] pixel(rotated@, a, b) == (b < i && pixel(
                    buffer@,
                    b,
                    7 - a,
                )),
        decreases 8 - i,
    {
        let line = buffer[i];
        let mut j: usize = 0;
        while j < 8
            invariant
                i < 8,
                j <= 8,
                line == buffer@[i as int],
                forall|a: int, b: int|
                    0 <= a < 8 && 0 <= b < 8 ==> #[trigger] pixel(rotated@, a, b) == ((b < i || (b
                        == i && 7 - a < j)) && pixel(buffer@, b, 7 - a)),
            decreases 8 - j,
        {
            if is_bit_set(line, j as u8) {
                let mask: u8 = 1 << i as u8;
                let ghost before = rotated@;
                rotated[7 - j] = rotated[7 - j] | mask;
                proof {
                    assert forall|a: int, b: int| 0 <= a < 8 && 0 <= b < 8 implies #[trigger] pixel(
                        rotated@,
                        a,
                        b,
                    ) == ((b < i || (b == i && 7 - a < j + 1)) && pixel(buffer@, b, 7 - a)) by {
                        if a == 7 - j {
                            lemma_set_bit(before[a], i as u8, b as u8);
                            assert(rotated@[a] == before[a] | mask);
                            assert(pixel(before, a, b) == ((b < i || (b == i && 7 - a < j))
                                && pixel(buffer@, b, 7 - a)));
                        } else {
                            assert(pixel(before, a, b) == pixel(rotated@, a, b));
                        }
                    }
                }
            }
            j += 1;
        }
        i += 1;
    }
    proof {
        assert forall|a: int, b: int| 0 <= a < 8 && 0 <= b < 8 implies pixel(rotated@, a, b)
            == pixel(rotate_spec(buffer@), a, b) by {
            lemma_rotate_pixels(buffer@, a, b);
        }
        lemma_matrix_from_pixels(rotated@, rotate_spec(buffer@));
    }
    rotated
}

} // verus!

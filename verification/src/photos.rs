//! Photos: the 128x128 one-bit frames the camera captures, how they are keyed in storage,
//! and the three forms they leave the badge in (a BMP, its base64 data URI, ASCII art).
//!
//! A frame is 512 words; pixel `i` (row-major, 128 to a row) is bit `i % 32` of word
//! `i / 32`, and a set bit is ink.
use vstd::prelude::*;
use crate::order::{sort_by_key, sorted_by_key, stable_rearrangement, SortKey};
use crate::text::{
    all_digits, digit_val, digits_value, parse_radix, dec_chars, lemma_num_chars, parse_bounded, push_char, push_dec, str_chars, string_of,
    parse_uint,
};

verus! {

broadcast use vstd::string::group_string_axioms;

/// Pixels to a row, and rows to a frame.
pub const PHOTO_SIDE: usize = 128;
/// Words in a frame.
pub const PHOTO_WORDS: usize = 512;

/// Pixel `i` of the frame `bits` is ink.
pub open spec fn pixel(bits: Seq<u32>, i: int) -> bool {
    (bits[i / 32] >> ((i % 32) as u32)) & 1u32 == 1u32
}

/// Whether pixel `i` of `bits` is ink.
fn pixel_at(bits: &[u32; 512], i: usize) -> (r: bool)
    requires
        i < 128 * 128,
    ensures
        r == pixel(bits@, i as int),
{
    (bits[i / 32] >> ((i % 32) as u32)) & 1u32 == 1u32
}

// ---------------------------------------------------------------------------------------
// ASCII art
// ---------------------------------------------------------------------------------------

/// The character for a cell of two pixels, one above the other: blank, a high mark for ink
/// on top, a low mark for ink below, a block for both.
pub open spec fn art_mark(top: bool, bottom: bool) -> char {
    if top && bottom {
        '#'
    } else if top {
        '"'
    } else if bottom {
        '.'
    } else {
        ' '
    }
}

/// Character `j` of the ASCII art of `bits`: 64 lines of 128 characters and a line break,
/// character `x` of line `row` standing for pixels `x` of rows `2 row` and `2 row + 1`.
pub open spec fn art_char(bits: Seq<u32>, j: int) -> char {
    let row = j / 129;
    let x = j % 129;
    if x == 128 {
        '\n'
    } else {
        art_mark(pixel(bits, x + row * 2 * 128), pixel(bits, x + (row * 2 + 1) * 128))
    }
}

/// The ASCII art of a frame.
pub open spec fn ascii_art_text(bits: Seq<u32>) -> Seq<char> {
    Seq::new(64 * 129, |j: int| art_char(bits, j))
}

/// Renders a frame as ASCII art; see `ascii_art_text`.
pub fn ascii_art(bits: &[u32; 512]) -> (r: String)
    ensures
        r@ == ascii_art_text(bits@),
        r@.len() == 64 * 129,
        forall|row: int, x: int|
            0 <= row < 64 && 0 <= x < 128 ==> #[trigger] r@[row * 129 + x] == if pixel(bits@, x + 128 * (2 * row))
                && pixel(bits@, x + 128 * (2 * row + 1)) {
                '#'
            } else if pixel(bits@, x + 128 * (2 * row)) {
                '"'
            } else if pixel(bits@, x + 128 * (2 * row + 1)) {
                '.'
            } else {
                ' '
            },
        forall|row: int| 0 <= row < 64 ==> #[trigger] r@[row * 129 + 128] == '\n',
{
    let mut out = String::new();
    let mut row: usize = 0;
    while row < 64
        invariant
            row <= 64,
            bits@.len() == 512,
            out@.len() == row * 129,
            forall|j: int| 0 <= j < out@.len() ==> out@[j] == art_char(bits@, j),
        decreases 64 - row,
    {
        let mut x: usize = 0;
        while x < 128
            invariant
                row < 64,
                x <= 128,
                bits@.len() == 512,
                out@.len() == row * 129 + x,
                forall|j: int| 0 <= j < out@.len() ==> out@[j] == art_char(bits@, j),
            decreases 128 - x,
        {
            let top = x + row * 2 * 128;
            let t = pixel_at(bits, top);
            let b = pixel_at(bits, top + 128);
            let c = if t && b {
                '#'
            } else if t {
                '"'
            } else if b {
                '.'
            } else {
                ' '
            };
            let ghost at = (row * 129 + x) as int;
            proof {
                vstd::arithmetic::div_mod::lemma_fundamental_div_mod_converse(
                    at, 129, row as int, x as int);
            }
            push_char(&mut out, c);
            x += 1;
        }
        let ghost at = (row * 129 + 128) as int;
        proof {
            vstd::arithmetic::div_mod::lemma_fundamental_div_mod_converse(at, 129, row as int, 128);
        }
        push_char(&mut out, '\n');
        row += 1;
    }
    assert(out@ =~= ascii_art_text(bits@));
    proof {
        assert forall|row: int, x: int| 0 <= row < 64 && 0 <= x < 128 implies #[trigger] out@[row * 129 + x] == if pixel(
            bits@,
            x + 128 * (2 * row),
        ) && pixel(bits@, x + 128 * (2 * row + 1)) {
            '#'
        } else if pixel(bits@, x + 128 * (2 * row)) {
            '"'
        } else if pixel(bits@, x + 128 * (2 * row + 1)) {
            '.'
        } else {
            ' '
        } by {
            lemma_ascii_art_rows(bits@, row, x);
        }
        assert forall|row: int| 0 <= row < 64 implies #[trigger] out@[row * 129 + 128] == '\n' by {
            lemma_ascii_art_rows(bits@, row, 0);
        }
    }
    out
}

// ---------------------------------------------------------------------------------------
// BMP
// ---------------------------------------------------------------------------------------

/// The 62 bytes that head a frame's BMP: the file header (size 2110, pixels at 62), a
/// 40-byte info header for 128 x -128 pixels (negative: rows run top-down) at one bit each,
/// uncompressed, 2048 bytes of pixels, two colours; then the palette, white and black.
pub open spec fn bmp_header() -> Seq<u8> {
    seq![
        0x42u8, 0x4D, 0x3E, 0x08, 0x00, 0x00, 0x00, 0x00, 0x00, 0x00, 0x3E, 0x00, 0x00, 0x00,
        0x28, 0x00, 0x00, 0x00, 0x80, 0x00, 0x00, 0x00, 0x80, 0xFF, 0xFF, 0xFF, 0x01, 0x00,
        0x01, 0x00, 0x00, 0x00, 0x00, 0x00, 0x00, 0x08, 0x00, 0x00, 0x00, 0x00, 0x00, 0x00,
        0x00, 0x00, 0x00, 0x00, 0x02, 0x00, 0x00, 0x00, 0x00, 0x00, 0x00, 0x00,
        0xFF, 0xFF, 0xFF, 0x00, 0x00, 0x00, 0x00, 0x00,
    ]
}

/// The weight of the `j`th pixel of a byte, leftmost first: the leftmost pixel is the high
/// bit.
pub open spec fn bit_weight(j: nat) -> nat
    decreases j,
{
    if j == 0 {
        128
    } else {
        bit_weight((j - 1) as nat) / 2
    }
}

/// The value of pixels `8 xb .. 8 xb + n` of row `y`, each ink pixel adding its weight.
pub open spec fn byte_sum(bits: Seq<u32>, y: int, xb: int, n: nat) -> nat
    decreases n,
{
    if n == 0 {
        0
    } else {
        byte_sum(bits, y, xb, (n - 1) as nat) + if pixel(bits, y * 128 + xb * 8 + (n - 1)) {
            bit_weight((n - 1) as nat)
        } else {
            0
        }
    }
}

/// Byte `k` of a frame's pixel rows: 16 bytes to a row, 8 pixels to a byte.
pub open spec fn bmp_pixel_byte(bits: Seq<u32>, k: int) -> u8 {
    byte_sum(bits, k / 16, k % 16, 8) as u8
}

/// A frame as a BMP file: the header, then 2048 bytes of pixel rows, top row first.
pub open spec fn bmp_bytes(bits: Seq<u32>) -> Seq<u8> {
    bmp_header() + Seq::new(2048, |k: int| bmp_pixel_byte(bits, k))
}

proof fn lemma_byte_sum_bound(bits: Seq<u32>, y: int, xb: int, n: nat)
    requires
        n <= 8,
    ensures
        byte_sum(bits, y, xb, n) + bit_weight(n) * 2 <= 256,
        n < 8 ==> bit_weight(n) >= 1,
    decreases n,
{
    reveal_with_fuel(bit_weight, 9);
    if n > 0 {
        lemma_byte_sum_bound(bits, y, xb, (n - 1) as nat);
    }
}

/// The BMP header's fields: the `BM` signature, a file size of 2110 and pixels at offset 62
/// (little-endian), a 40-byte info header for 128 pixels across and -128 down (rows run top
/// to bottom), one plane, one bit a pixel, 2048 bytes of pixels, two colours; then the
/// palette, colour 0 white and colour 1, the ink, black.
pub proof fn lemma_bmp_header_fields()
    ensures
        bmp_header().len() == 62,
        bmp_header().subrange(0, 2) == seq![0x42u8, 0x4D],
        bmp_header().subrange(2, 6) == seq![0x3Eu8, 0x08, 0x00, 0x00],
        bmp_header().subrange(10, 14) == seq![0x3Eu8, 0x00, 0x00, 0x00],
        bmp_header().subrange(14, 18) == seq![0x28u8, 0x00, 0x00, 0x00],
        bmp_header().subrange(18, 22) == seq![0x80u8, 0x00, 0x00, 0x00],
        bmp_header().subrange(22, 26) == seq![0x80u8, 0xFF, 0xFF, 0xFF],
        bmp_header().subrange(26, 28) == seq![0x01u8, 0x00],
        bmp_header().subrange(28, 30) == seq![0x01u8, 0x00],
        bmp_header().subrange(54, 58) == seq![0xFFu8, 0xFF, 0xFF, 0x00],
        bmp_header().subrange(58, 62) == seq![0x00u8, 0x00, 0x00, 0x00],
{
    assert(bmp_header().subrange(0, 2) =~= seq![0x42u8, 0x4D]);
    assert(bmp_header().subrange(2, 6) =~= seq![0x3Eu8, 0x08, 0x00, 0x00]);
    assert(bmp_header().subrange(10, 14) =~= seq![0x3Eu8, 0x00, 0x00, 0x00]);
    assert(bmp_header().subrange(14, 18) =~= seq![0x28u8, 0x00, 0x00, 0x00]);
    assert(bmp_header().subrange(18, 22) =~= seq![0x80u8, 0x00, 0x00, 0x00]);
    assert(bmp_header().subrange(22, 26) =~= seq![0x80u8, 0xFF, 0xFF, 0xFF]);
    assert(bmp_header().subrange(26, 28) =~= seq![0x01u8, 0x00]);
    assert(bmp_header().subrange(28, 30) =~= seq![0x01u8, 0x00]);
    assert(bmp_header().subrange(54, 58) =~= seq![0xFFu8, 0xFF, 0xFF, 0x00]);
    assert(bmp_header().subrange(58, 62) =~= seq![0x00u8, 0x00, 0x00, 0x00]);
}

/// Character `x` of line `r` of a frame's ASCII art stands for pixel `x` of rows `2 r` (on
/// top) and `2 r + 1` (below): `#` for ink in both, `"` for ink on top only, `.` for ink
/// below only, a space for none; each of the 64 lines ends in a line break. So every pixel
/// row shows in exactly one line, row `y` in line `y / 2`.
pub proof fn lemma_ascii_art_rows(bits: Seq<u32>, r: int, x: int)
    requires
        0 <= r < 64,
        0 <= x < 128,
    ensures
        ascii_art_text(bits).len() == 64 * 129,
        ascii_art_text(bits)[r * 129 + 128] == '\n',
        ({
            let top = pixel(bits, x + 128 * (2 * r));
            let bottom = pixel(bits, x + 128 * (2 * r + 1));
            ascii_art_text(bits)[r * 129 + x] == if top && bottom {
                '#'
            } else if top {
                '"'
            } else if bottom {
                '.'
            } else {
                ' '
            }
        }),
{
    vstd::arithmetic::div_mod::lemma_fundamental_div_mod_converse(r * 129 + x, 129, r, x);
    vstd::arithmetic::div_mod::lemma_fundamental_div_mod_converse(r * 129 + 128, 129, r, 128);
    assert(x + r * 2 * 128 == x + 128 * (2 * r));
    assert(x + (r * 2 + 1) * 128 == x + 128 * (2 * r + 1));
}

/// Wraps a frame in a one-bit BMP; see `bmp_bytes`. The file is 2110 bytes: a 62-byte
/// header (`BM`, the file size, pixels at 62, 128 by -128 so the top row comes first, one
/// bit a pixel), then the rows; pixel `(x, y)` is ink exactly when bit `0x80 >> (x % 8)` of
/// byte `62 + 16 y + x / 8` is set.
pub fn photo_to_bmp(bits: &[u32; 512]) -> (r: Vec<u8>)
    ensures
        r@ == bmp_bytes(bits@),
        r@.len() == 2110,
        r@.take(62) == bmp_header(),
        r@.subrange(0, 2) == seq![0x42u8, 0x4D],
        r@.subrange(2, 6) == seq![0x3Eu8, 0x08, 0x00, 0x00],
        r@.subrange(10, 14) == seq![0x3Eu8, 0x00, 0x00, 0x00],
        r@.subrange(18, 22) == seq![0x80u8, 0x00, 0x00, 0x00],
        r@.subrange(22, 26) == seq![0x80u8, 0xFF, 0xFF, 0xFF],
        r@.subrange(28, 30) == seq![0x01u8, 0x00],
        r@.subrange(54, 62) == seq![0xFFu8, 0xFF, 0xFF, 0x00, 0x00, 0x00, 0x00, 0x00],
        forall|x: int, y: int|
            0 <= x < 128 && 0 <= y < 128 ==> (#[trigger] pixel(bits@, x + 128 * y) <==> (r@[62 + 16 * y + x / 8]
                & (0x80u8 >> ((x % 8) as u8))) != 0u8),
{
    let header: [u8; 62] = [
        0x42, 0x4D, 0x3E, 0x08, 0x00, 0x00, 0x00, 0x00, 0x00, 0x00, 0x3E, 0x00, 0x00, 0x00,
        0x28, 0x00, 0x00, 0x00, 0x80, 0x00, 0x00, 0x00, 0x80, 0xFF, 0xFF, 0xFF, 0x01, 0x00,
        0x01, 0x00, 0x00, 0x00, 0x00, 0x00, 0x00, 0x08, 0x00, 0x00, 0x00, 0x00, 0x00, 0x00,
        0x00, 0x00, 0x00, 0x00, 0x02, 0x00, 0x00, 0x00, 0x00, 0x00, 0x00, 0x00,
        0xFF, 0xFF, 0xFF, 0x00, 0x00, 0x00, 0x00, 0x00,
    ];
    let mut b: Vec<u8> = Vec::new();
    let mut i: usize = 0;
    while i < 62
        invariant
            i <= 62,
            header@ == bmp_header(),
            b@ == bmp_header().take(i as int),
        decreases 62 - i,
    {
        b.push(header[i]);
        assert(bmp_header().take(i + 1) =~= bmp_header().take(i as int).push(header@[i as int]));
        i += 1;
    }
    let mut k: usize = 0;
    while k < 2048
        invariant
            k <= 2048,
            bits@.len() == 512,
            b@.len() == 62 + k,
            b@.take(62) == bmp_header(),
            forall|m: int| 0 <= m < k ==> b@[62 + m] == bmp_pixel_byte(bits@, m),
        decreases 2048 - k,
    {
        let y = k / 16;
        let xb = k % 16;
        let mut v: u32 = 0;
        let mut w: u32 = 128;
        let mut j: usize = 0;
        while j < 8
            invariant
                j <= 8,
                k < 2048,
                y == k / 16,
                xb == k % 16,
                bits@.len() == 512,
                v == byte_sum(bits@, y as int, xb as int, j as nat),
                w == bit_weight(j as nat),
                v + w * 2 <= 256,
            decreases 8 - j,
        {
            proof {
                lemma_byte_sum_bound(bits@, y as int, xb as int, (j + 1) as nat);
            }
            if pixel_at(bits, y * 128 + xb * 8 + j) {
                v = v + w;
            }
            w = w / 2;
            j += 1;
        }
        let ghost before = b@;
        b.push(v as u8);
        assert(b@.take(62) =~= before.take(62));
        k += 1;
    }
    assert(b@ =~= bmp_bytes(bits@));
    proof {
        lemma_bmp_header_fields();
        assert(b@.take(62) == bmp_header());
        assert(b@.subrange(0, 2) =~= bmp_header().subrange(0, 2));
        assert(b@.subrange(2, 6) =~= bmp_header().subrange(2, 6));
        assert(b@.subrange(10, 14) =~= bmp_header().subrange(10, 14));
        assert(b@.subrange(18, 22) =~= bmp_header().subrange(18, 22));
        assert(b@.subrange(22, 26) =~= bmp_header().subrange(22, 26));
        assert(b@.subrange(28, 30) =~= bmp_header().subrange(28, 30));
        assert(b@.subrange(54, 62) =~= bmp_header().subrange(54, 58) + bmp_header().subrange(58, 62));
        assert forall|x: int, y: int| 0 <= x < 128 && 0 <= y < 128 implies (#[trigger] pixel(bits@, x + 128 * y)
            <==> (b@[62 + 16 * y + x / 8] & (0x80u8 >> ((x % 8) as u8))) != 0u8) by {
            lemma_bmp_pixel_bit(bits@, x, y);
        }
    }
    b
}

/// 1 for ink, 0 for paper.
pub open spec fn ink(bits: Seq<u32>, i: int) -> u8 {
    if pixel(bits, i) {
        1
    } else {
        0
    }
}

/// In a byte whose bits, high first, are `a0..a7` (each 0 or 1), the bit under the mask
/// `0x80 >> j` is set exactly when `a_j` is 1.
proof fn lemma_byte_bits(a0: u8, a1: u8, a2: u8, a3: u8, a4: u8, a5: u8, a6: u8, a7: u8, j: u8)
    by (bit_vector)
    requires
        a0 <= 1, a1 <= 1, a2 <= 1, a3 <= 1, a4 <= 1, a5 <= 1, a6 <= 1, a7 <= 1,
        j < 8,
    ensures
        ((((a0 * 128 + a1 * 64 + a2 * 32 + a3 * 16 + a4 * 8 + a5 * 4 + a6 * 2 + a7) as u8) & (0x80u8
            >> j)) != 0u8) == (
            if j == 0 { a0 == 1 } else if j == 1 { a1 == 1 } else if j == 2 { a2 == 1 }
            else if j == 3 { a3 == 1 } else if j == 4 { a4 == 1 } else if j == 5 { a5 == 1 }
            else if j == 6 { a6 == 1 } else { a7 == 1 }),
{
}

/// In the BMP of a frame, pixel `(x, y)` is ink exactly when its bit is set: bit `x % 8`,
/// counted from the high end, of byte `62 + 16 y + x / 8`.
#[verifier::spinoff_prover]
#[verifier::rlimit(50)]
pub proof fn lemma_bmp_pixel_bit(bits: Seq<u32>, x: int, y: int)
    requires
        bits.len() == 512,
        0 <= x < 128,
        0 <= y < 128,
    ensures
        pixel(bits, x + 128 * y) <==> (bmp_bytes(bits)[62 + 16 * y + x / 8] & (0x80u8 >> ((x % 8) as u8)))
            != 0u8,
{
    let k = 16 * y + x / 8;
    let xb = x / 8;
    assert(k / 16 == y && k % 16 == xb);
    assert(0 <= k < 2048);
    let base = y * 128 + xb * 8;
    assert(x + 128 * y == base + x % 8);
    reveal_with_fuel(byte_sum, 9);
    reveal_with_fuel(bit_weight, 9);
    let a0 = ink(bits, base);
    let a1 = ink(bits, base + 1);
    let a2 = ink(bits, base + 2);
    let a3 = ink(bits, base + 3);
    let a4 = ink(bits, base + 4);
    let a5 = ink(bits, base + 5);
    let a6 = ink(bits, base + 6);
    let a7 = ink(bits, base + 7);
    let v = byte_sum(bits, y, xb, 8);
    assert(v == a0 * 128 + a1 * 64 + a2 * 32 + a3 * 16 + a4 * 8 + a5 * 4 + a6 * 2 + a7);
    assert(bmp_bytes(bits)[62 + k] == bmp_pixel_byte(bits, k));
    assert(bmp_pixel_byte(bits, k) == (a0 * 128 + a1 * 64 + a2 * 32 + a3 * 16 + a4 * 8 + a5 * 4 + a6 * 2
        + a7) as u8);
    lemma_byte_bits(a0, a1, a2, a3, a4, a5, a6, a7, (x % 8) as u8);
}

// ---------------------------------------------------------------------------------------
// base64
// ---------------------------------------------------------------------------------------

/// The base64 character for the six-bit value `v`.
pub open spec fn b64_char(v: nat) -> char {
    if v < 26 {
        ((v + 65) as u32) as char
    } else if v < 52 {
        ((v - 26 + 97) as u32) as char
    } else if v < 62 {
        ((v - 52 + 48) as u32) as char
    } else if v == 62 {
        '+'
    } else {
        '/'
    }
}

/// Standard base64 of `d`, with `=` padding: each three bytes become four characters, six
/// bits each, high bits first; a final one or two bytes become two or three characters and
/// padding.
pub open spec fn base64_text(d: Seq<u8>) -> Seq<char>
    decreases d.len(),
{
    if d.len() == 0 {
        Seq::empty()
    } else {
        let a = d[0] as nat;
        let b: nat = if d.len() > 1 {
            d[1] as nat
        } else {
            0
        };
        let c: nat = if d.len() > 2 {
            d[2] as nat
        } else {
            0
        };
        let quad = seq![
            b64_char(a / 4),
            b64_char((a % 4) * 16 + b / 16),
            if d.len() > 1 {
                b64_char((b % 16) * 4 + c / 64)
            } else {
                '='
            },
            if d.len() > 2 {
                b64_char(c % 64)
            } else {
                '='
            },
        ];
        if d.len() <= 3 {
            quad
        } else {
            quad + base64_text(d.skip(3))
        }
    }
}

/// The base64 character for `v`; see `b64_char`.
fn b64_digit(v: u8) -> (c: char)
    requires
        v < 64,
    ensures
        c == b64_char(v as nat),
{
    if v < 26 {
        (v + 65) as char
    } else if v < 52 {
        (v - 26 + 97) as char
    } else if v < 62 {
        (v - 52 + 48) as char
    } else if v == 62 {
        '+'
    } else {
        '/'
    }
}

/// Standard base64 of `data`; see `base64_text`.
pub fn base64(data: &[u8]) -> (r: String)
    ensures
        r@ == base64_text(data@),
{
    let n = data.len();
    let mut out = String::new();
    let mut i: usize = 0;
    proof {
        assert(data@.skip(0) =~= data@);
    }
    while i < n
        invariant
            n == data@.len(),
            i <= n,
            base64_text(data@) == out@ + base64_text(data@.skip(i as int)),
        decreases n - i,
    {
        let ghost d = data@.skip(i as int);
        let a = data[i];
        let b = if n - i > 1 {
            data[i + 1]
        } else {
            0
        };
        let c = if n - i > 2 {
            data[i + 2]
        } else {
            0
        };
        let ghost before = out@;
        push_char(&mut out, b64_digit(a / 4));
        push_char(&mut out, b64_digit((a % 4) * 16 + b / 16));
        push_char(
            &mut out,
            if n - i > 1 {
                b64_digit((b % 16) * 4 + c / 64)
            } else {
                '='
            },
        );
        push_char(
            &mut out,
            if n - i > 2 {
                b64_digit(c % 64)
            } else {
                '='
            },
        );
        proof {
            assert(d[0] == a);
            if d.len() > 1 {
                assert(d[1] == b);
            }
            if d.len() > 2 {
                assert(d[2] == c);
            }
            if d.len() > 3 {
                assert(d.skip(3) =~= data@.skip(i + 3));
            } else {
                assert(data@.skip(n as int) =~= Seq::<u8>::empty());
            }
        }
        if n - i <= 3 {
            i = n;
        } else {
            i = i + 3;
        }
        proof {
            if i == n {
                assert(data@.skip(i as int) =~= Seq::<u8>::empty());
            }
            assert(out@ =~= before + out@.subrange(before.len() as int, out@.len() as int));
        }
    }
    assert(data@.skip(n as int) =~= Seq::<u8>::empty());
    assert(out@ + Seq::<char>::empty() =~= out@);
    out
}

/// Base64 makes four characters of every three bytes, or of the one or two left over.
pub proof fn lemma_base64_length(d: Seq<u8>)
    ensures
        base64_text(d).len() == 4 * ((d.len() + 2) / 3),
    decreases d.len(),
{
    if d.len() > 3 {
        lemma_base64_length(d.skip(3));
    }
}

/// The text a photo is exported as: its ASCII art, or a data URI of its BMP in base64 with a
/// line break.
pub open spec fn export_text(bits: Seq<u32>, as_art: bool) -> Seq<char> {
    if as_art {
        ascii_art_text(bits)
    } else {
        "data:image/bmp;base64,"@ + base64_text(bmp_bytes(bits)) + seq!['\n']
    }
}

/// The text a photo is exported as; see `export_text`.
pub fn photo_export_text(bits: &[u32; 512], as_art: bool) -> (r: String)
    ensures
        r@ == export_text(bits@, as_art),
{
    if as_art {
        ascii_art(bits)
    } else {
        let mut s = string_of("data:image/bmp;base64,");
        let bmp = photo_to_bmp(bits);
        let enc = base64(bmp.as_slice());
        s.append(enc.as_str());
        push_char(&mut s, '\n');
        s
    }
}

// ---------------------------------------------------------------------------------------
// Keys
// ---------------------------------------------------------------------------------------

/// The number in a photo key `photo_N`: `N` read as a decimal `u32` (an optional `+`, then
/// digits), or none when the key has another form.
pub open spec fn photo_number_of(k: Seq<char>) -> Option<u32> {
    if k.len() >= 6 && k.take(6) == "photo_"@ {
        match parse_bounded(k.skip(6), 10, u32::MAX as nat) {
            Some(v) => Some(v as u32),
            None => None,
        }
    } else {
        None
    }
}

/// The number in a photo key; see `photo_number_of`.
pub fn photo_number(k: &str) -> (r: Option<u32>)
    ensures
        r == photo_number_of(k@),
{
    let cs = str_chars(k);
    let n = cs.len();
    if n < 6 {
        return None;
    }
    proof {
        reveal_strlit("photo_");
    }
    if !(cs[0] == 'p' && cs[1] == 'h' && cs[2] == 'o' && cs[3] == 't' && cs[4] == 'o' && cs[5]
        == '_') {
        assert(k@.take(6) != "photo_"@) by {
            if k@.take(6) == "photo_"@ {
                assert(k@.take(6)[0] == 'p' && k@.take(6)[1] == 'h' && k@.take(6)[2] == 'o');
                assert(k@.take(6)[3] == 't' && k@.take(6)[4] == 'o' && k@.take(6)[5] == '_');
            }
        }
        return None;
    }
    assert(k@.take(6) =~= "photo_"@);
    assert(cs@.subrange(6, n as int) =~= k@.skip(6));
    match parse_uint(&cs, 6, n, 10, u32::MAX as u64) {
        Some(v) => Some(v as u32),
        None => None,
    }
}

impl SortKey for String {
    open spec fn sort_key(&self) -> Seq<char> {
        self@
    }

    fn key_text(&self) -> (r: &String) {
        self
    }
}

/// The photo keys in text order, which for `photo_` keys of four digits or fewer is the order
/// they were taken in. The keys are the same ones, each as many times.
pub fn sort_photo_keys(keys: Vec<String>) -> (r: Vec<String>)
    ensures
        r@.to_multiset() == keys@.to_multiset(),
        sorted_by_key(r@),
        exists|idx: Seq<int>| stable_rearrangement(keys@, r@, idx),
{
    sort_by_key(keys)
}

/// The highest number among the photo keys `keys`, if any key is a photo key.
pub open spec fn max_photo_number(keys: Seq<Seq<char>>) -> Option<u32>
    decreases keys.len(),
{
    if keys.len() == 0 {
        None
    } else {
        let rest = max_photo_number(keys.drop_last());
        match photo_number_of(keys.last()) {
            None => rest,
            Some(v) => match rest {
                None => Some(v),
                Some(m) => Some(if v > m { v } else { m }),
            },
        }
    }
}

/// The views of a list of strings.
pub open spec fn views(v: Seq<String>) -> Seq<Seq<char>> {
    Seq::new(v.len(), |i: int| v[i]@)
}

/// The key of photo number `n`: `photo_` and `n` in decimal, zero-padded to four digits.
pub open spec fn photo_key_text(n: u32) -> Seq<char> {
    let d = dec_chars(n as nat);
    "photo_"@ + Seq::new(if d.len() < 4 { (4 - d.len()) as nat } else { 0 }, |i: int| '0') + d
}

/// The key the next photo is stored under, given the keys stored: one past the highest photo
/// number, or `photo_0000` for the first. `None` when `cap` photos are already stored.
pub open spec fn next_photo_key_text(keys: Seq<Seq<char>>, cap: nat) -> Option<Seq<char>> {
    if keys.len() >= cap {
        None
    } else {
        match max_photo_number(keys) {
            None => Some(photo_key_text(0)),
            Some(m) => Some(photo_key_text((m + 1) as u32)),
        }
    }
}

/// The key for the next photo; see `next_photo_key_text`. No stored key may hold the largest
/// number a key can hold, as the next would not fit.
pub fn next_photo_key(keys: &Vec<String>, cap: usize) -> (r: Option<String>)
    requires
        max_photo_number(views(keys@)) != Some(u32::MAX),
    ensures
        match next_photo_key_text(views(keys@), cap as nat) {
            Some(t) => r matches Some(k) && k@ == t,
            None => r is None,
        },
        r matches Some(k) ==> forall|i: int| 0 <= i < keys@.len() ==> #[trigger] keys@[i]@ != k@,
        r matches Some(k) ==> (photo_number_of(k@) matches Some(n) && forall|i: int|
            0 <= i < keys@.len() && #[trigger] photo_number_of(keys@[i]@) is Some ==> photo_number_of(keys@[i]@)->Some_0 < n),
{
    if keys.len() >= cap {
        return None;
    }
    let mut best: Option<u32> = None;
    let mut i: usize = 0;
    while i < keys.len()
        invariant
            i <= keys@.len(),
            best == max_photo_number(views(keys@).take(i as int)),
        decreases keys@.len() - i,
    {
        let ghost pre = views(keys@).take(i as int);
        assert(views(keys@).take(i + 1).drop_last() =~= pre);
        assert(views(keys@).take(i + 1).last() == keys@[i as int]@);
        match photo_number(keys[i].as_str()) {
            None => {},
            Some(v) => {
                best = match best {
                    None => Some(v),
                    Some(m) => Some(if v > m { v } else { m }),
                };
            },
        }
        i += 1;
    }
    assert(views(keys@).take(keys@.len() as int) =~= views(keys@));
    let next: u32 = match best {
        None => 0,
        Some(m) => m + 1,
    };
    proof {
        let ks = views(keys@);
        lemma_photo_key_number(next);
        assert forall|i: int| 0 <= i < keys@.len() && #[trigger] photo_number_of(keys@[i]@) is Some implies photo_number_of(
            keys@[i]@,
        )->Some_0 < next by {
            assert(ks[i] == keys@[i]@);
            lemma_next_photo_key_is_new(ks, cap as nat, i);
        }
        assert forall|i: int| 0 <= i < keys@.len() implies #[trigger] keys@[i]@ != photo_key_text(next) by {
            if keys@[i]@ == photo_key_text(next) {
                assert(photo_number_of(keys@[i]@) == Some(next));
            }
        }
    }
    Some(photo_key(next))
}

/// The key of photo number `n`; see `photo_key_text`.
pub fn photo_key(n: u32) -> (r: String)
    ensures
        r@ == photo_key_text(n),
{
    let mut digits = String::new();
    push_dec(&mut digits, n as u64);
    assert(digits@ =~= dec_chars(n as nat));
    let len = digits.as_str().unicode_len();
    let mut s = string_of("photo_");
    let pad = if len < 4 {
        4 - len
    } else {
        0
    };
    let mut i: usize = 0;
    while i < pad
        invariant
            i <= pad,
            s@ == "photo_"@ + Seq::new(i as nat, |j: int| '0'),
        decreases pad - i,
    {
        push_char(&mut s, '0');
        assert(s@ =~= "photo_"@ + Seq::new((i + 1) as nat, |j: int| '0'));
        i += 1;
    }
    s.append(digits.as_str());
    s
}

/// Leading zeros do not change the value digits spell.
proof fn lemma_leading_zeros(z: nat, d: Seq<char>)
    ensures
        digits_value(Seq::new(z, |i: int| '0') + d, 10) == digits_value(d, 10),
        all_digits(d, 10) ==> all_digits(Seq::new(z, |i: int| '0') + d, 10),
    decreases d.len(),
{
    let zs = Seq::new(z, |i: int| '0');
    if d.len() == 0 {
        assert(zs + d =~= zs);
        lemma_zeros_value(z);
    } else {
        lemma_leading_zeros(z, d.drop_last());
        assert((zs + d).drop_last() =~= zs + d.drop_last());
        assert((zs + d).last() == d.last());
    }
    if all_digits(d, 10) {
        assert forall|i: int| 0 <= i < (zs + d).len() implies #[trigger] digit_val((zs + d)[i], 10) is Some by {
            if i >= z {
                assert((zs + d)[i] == d[i - z]);
            }
        }
    }
}

proof fn lemma_zeros_value(z: nat)
    ensures
        digits_value(Seq::new(z, |i: int| '0'), 10) == 0,
    decreases z,
{
    if z > 0 {
        lemma_zeros_value((z - 1) as nat);
        assert(Seq::new(z, |i: int| '0').drop_last() =~= Seq::new((z - 1) as nat, |i: int| '0'));
    }
}

/// The key of photo number `n` reads back as `n`.
pub proof fn lemma_photo_key_number(n: u32)
    ensures
        photo_number_of(photo_key_text(n)) == Some(n),
{
    reveal_strlit("photo_");
    let d = dec_chars(n as nat);
    lemma_num_chars(n as nat, 10);
    let z: nat = if d.len() < 4 { (4 - d.len()) as nat } else { 0 };
    let zs = Seq::new(z, |i: int| '0');
    let k = photo_key_text(n);
    assert(k == "photo_"@ + zs + d);
    assert(k.take(6) =~= "photo_"@);
    assert(k.skip(6) =~= zs + d);
    lemma_leading_zeros(z, d);
    assert((zs + d)[0] != '+') by {
        if z > 0 {
            assert((zs + d)[0] == '0');
        } else {
            assert((zs + d)[0] == d[0]);
        }
    }
    assert(parse_radix(zs + d, 10) == Some(n as nat));
}

/// Saving a photo with bytes `bytes` into the photo dictionary `d`, whose listed keys are
/// `keys`: stored under the next photo key, or nothing when `cap` photos are stored.
pub open spec fn photo_save(d: Map<Seq<char>, Seq<u8>>, keys: Seq<Seq<char>>, bytes: Seq<u8>, cap: nat) -> Option<
    (Seq<char>, Map<Seq<char>, Seq<u8>>),
> {
    match next_photo_key_text(keys, cap) {
        Some(k) => Some((k, d.insert(k, bytes))),
        None => None,
    }
}

/// A photo saved into a dictionary whose keys are all listed gets a key that no stored entry
/// has, numbered above every stored photo; every stored entry stays as it was; and nothing is
/// saved once `cap` photos are listed.
pub proof fn lemma_photo_save_is_fresh(d: Map<Seq<char>, Seq<u8>>, keys: Seq<Seq<char>>, bytes: Seq<u8>, cap: nat)
    requires
        forall|k: Seq<char>| #[trigger] d.dom().contains(k) ==> keys.contains(k),
        max_photo_number(keys) != Some(u32::MAX),
    ensures
        keys.len() >= cap ==> photo_save(d, keys, bytes, cap) is None,
        photo_save(d, keys, bytes, cap) matches Some((k, d2)) ==> {
            &&& !d.dom().contains(k)
            &&& photo_number_of(k) matches Some(n) && forall|i: int|
                0 <= i < keys.len() && #[trigger] photo_number_of(keys[i]) is Some ==> photo_number_of(keys[i])->Some_0 < n
            &&& d2.dom().contains(k) && d2[k] == bytes
            &&& forall|k0: Seq<char>| #[trigger] d.dom().contains(k0) ==> d2.dom().contains(k0) && d2[k0] == d[k0]
        },
{
    if let Some(k) = next_photo_key_text(keys, cap) {
        let n: u32 = match max_photo_number(keys) {
            None => 0,
            Some(m) => (m + 1) as u32,
        };
        assert(k == photo_key_text(n));
        lemma_photo_key_number(n);
        assert forall|i: int| 0 <= i < keys.len() && #[trigger] photo_number_of(keys[i]) is Some implies photo_number_of(keys[i])->Some_0 < n by {
            lemma_next_photo_key_is_new(keys, cap, i);
        }
        if d.dom().contains(k) {
            assert(keys.contains(k));
            let i = choose|i: int| 0 <= i < keys.len() && keys[i] == k;
            assert(photo_number_of(keys[i]) == Some(n));
        }
    }
}

/// The next photo key is new: it is a photo key whose number is above that of every photo
/// key stored, so it cannot overwrite a stored photo, even after deletions.
pub proof fn lemma_next_photo_key_is_new(keys: Seq<Seq<char>>, cap: nat, i: int)
    requires
        max_photo_number(keys) != Some(u32::MAX),
        next_photo_key_text(keys, cap) is Some,
        0 <= i < keys.len(),
        photo_number_of(keys[i]) is Some,
    ensures
        max_photo_number(keys) matches Some(m) && photo_number_of(keys[i]).unwrap() <= m,
        max_photo_number(keys) matches Some(m) && next_photo_key_text(keys, cap) == Some(
            photo_key_text((m + 1) as u32),
        ),
    decreases keys.len(),
{
    if i < keys.len() - 1 {
        assert(keys.drop_last()[i] == keys[i]);
        lemma_max_photo_number_bound(keys.drop_last(), i);
    }
}

proof fn lemma_max_photo_number_bound(keys: Seq<Seq<char>>, i: int)
    requires
        0 <= i < keys.len(),
        photo_number_of(keys[i]) is Some,
    ensures
        max_photo_number(keys) matches Some(m) && photo_number_of(keys[i]).unwrap() <= m,
    decreases keys.len(),
{
    if i < keys.len() - 1 {
        assert(keys.drop_last()[i] == keys[i]);
        lemma_max_photo_number_bound(keys.drop_last(), i);
    }
}

// ---------------------------------------------------------------------------------------
// Sending text out
// ---------------------------------------------------------------------------------------

/// Bytes typed to the host per call, so the USB server stays responsive between calls.
pub const TYPE_CHUNK: usize = 64;
/// Bytes sent down the serial port per call: one buffer of the USB serial driver.
pub const SERIAL_CHUNK: usize = 3840;

/// The end of the next chunk of a `len`-byte text after `sent` bytes went out.
pub fn chunk_end(sent: usize, len: usize, chunk: usize) -> (r: usize)
    requires
        sent <= len,
    ensures
        r == if sent + chunk < len {
            sent + chunk
        } else {
            len as int
        },
{
    if len - sent > chunk {
        sent + chunk
    } else {
        len
    }
}

/// What the badge says after typing `typed` of `total` characters to the host.
pub open spec fn typed_notice_text(typed: nat, total: nat) -> Seq<char> {
    if typed >= total {
        "TYPED TO HOST"@
    } else {
        "TYPED "@ + dec_chars(typed) + " OF "@ + dec_chars(total)
    }
}

/// What the badge says after typing; see `typed_notice_text`.
pub fn typed_notice(typed: usize, total: usize) -> (r: String)
    ensures
        r@ == typed_notice_text(typed as nat, total as nat),
{
    if typed >= total {
        string_of("TYPED TO HOST")
    } else {
        let mut s = string_of("TYPED ");
        push_dec(&mut s, typed as u64);
        s.append(" OF ");
        push_dec(&mut s, total as u64);
        s
    }
}

// ---------------------------------------------------------------------------------------
// The photo grid
// ---------------------------------------------------------------------------------------

/// Side of a thumbnail cell, in pixels.
pub const GRID_CELL: usize = 54;
/// Gap between thumbnails.
pub const GRID_GAP: usize = 4;
/// Distance from one thumbnail to the next.
pub const GRID_PITCH: usize = 58;
/// Left edge of the grid, which is centred.
pub const GRID_X0: usize = 8;
/// Top edge of the grid, one pixel down so the focus brackets above it are not clipped.
pub const GRID_Y0: usize = 1;
/// Thumbnails on a page: two rows of two.
pub const GRID_SLOTS: usize = 4;

/// The top-left corner of thumbnail `slot` (0 to 3, row by row).
pub open spec fn slot_origin(slot: int) -> (int, int) {
    (GRID_X0 + (slot % 2) * GRID_PITCH, GRID_Y0 + (slot / 2) * GRID_PITCH)
}

/// The thumbnail slot whose cell holds frame pixel `p`, if one does.
pub open spec fn slot_at(p: int) -> Option<int> {
    let x = p % 128;
    let y = p / 128;
    if exists|s: int| 0 <= s < 4 && #[trigger] in_cell(s, x, y) {
        Some(choose|s: int| 0 <= s < 4 && #[trigger] in_cell(s, x, y))
    } else {
        None
    }
}

/// Pixel `(x, y)` lies in thumbnail `slot`'s cell.
pub open spec fn in_cell(slot: int, x: int, y: int) -> bool {
    let (ox, oy) = slot_origin(slot);
    ox <= x < ox + GRID_CELL && oy <= y < oy + GRID_CELL
}

/// The source pixel that thumbnail pixel `(dx, dy)` shows: nearest neighbour, scaling 128
/// down to 54.
pub open spec fn thumb_source(dx: int, dy: int) -> int {
    (dx * 128 / 54) + (dy * 128 / 54) * 128
}

/// Pixel `p` of the grid frame of the photos `slots`: inside the cell of a slot that holds a
/// photo, that photo's pixel; anywhere else, set (the background).
pub open spec fn grid_pixel(slots: Seq<Option<[u32; 512]>>, p: int) -> bool {
    match slot_at(p) {
        Some(s) => match slots[s] {
            Some(src) => {
                let (ox, oy) = slot_origin(s);
                pixel(src@, thumb_source(p % 128 - ox, p / 128 - oy))
            },
            None => true,
        },
        None => true,
    }
}

/// Bit `j` of `w` once bit `k` is set or cleared.
proof fn lemma_write_bit(w: u32, k: u32, j: u32)
    requires
        k < 32,
        j < 32,
    ensures
        ((w | (1u32 << k)) >> j) & 1u32 == if j == k { 1u32 } else { (w >> j) & 1u32 },
        ((w & !(1u32 << k)) >> j) & 1u32 == if j == k { 0u32 } else { (w >> j) & 1u32 },
{
    assert(((w | (1u32 << k)) >> j) & 1u32 == if j == k { 1u32 } else { (w >> j) & 1u32 })
        by (bit_vector)
        requires
            k < 32,
            j < 32,
    ;
    assert(((w & !(1u32 << k)) >> j) & 1u32 == if j == k { 0u32 } else { (w >> j) & 1u32 })
        by (bit_vector)
        requires
            k < 32,
            j < 32,
    ;
}

/// Every bit of an all-ones word is set.
proof fn lemma_ones_bit(j: u32)
    requires
        j < 32,
    ensures
        (u32::MAX >> j) & 1u32 == 1u32,
{
    assert((0xFFFF_FFFFu32 >> j) & 1u32 == 1u32) by (bit_vector)
        requires
            j < 32,
    ;
}

/// The cells do not overlap: a pixel lies in at most one.
proof fn lemma_cells_disjoint(s: int, t: int, x: int, y: int)
    requires
        0 <= s < 4,
        0 <= t < 4,
        in_cell(s, x, y),
        in_cell(t, x, y),
    ensures
        s == t,
{
}

/// Pixel `p` lies in slot `s`'s cell, at `(dx, dy)` within it.
proof fn lemma_slot_at(s: int, dx: int, dy: int)
    requires
        0 <= s < 4,
        0 <= dx < 54,
        0 <= dy < 54,
    ensures
        ({
            let (ox, oy) = slot_origin(s);
            let p = (ox + dx) + (oy + dy) * 128;
            &&& 0 <= p < 128 * 128
            &&& p % 128 == ox + dx
            &&& p / 128 == oy + dy
            &&& slot_at(p) == Some(s)
        }),
{
    let (ox, oy) = slot_origin(s);
    let p = (ox + dx) + (oy + dy) * 128;
    vstd::arithmetic::div_mod::lemma_fundamental_div_mod_converse(p, 128, oy + dy, ox + dx);
    let x = p % 128;
    let y = p / 128;
    assert(in_cell(s, x, y));
    let c = choose|t: int| 0 <= t < 4 && #[trigger] in_cell(t, x, y);
    lemma_cells_disjoint(s, c, x, y);
}

/// How far the composing has got: slot `slot`, row `dy`, column `dx` of its cell is next.
pub open spec fn done_before(p: int, slot: int, dy: int, dx: int) -> bool {
    match slot_at(p) {
        Some(s) => {
            let (ox, oy) = slot_origin(s);
            let py = p / 128 - oy;
            let px = p % 128 - ox;
            s < slot || (s == slot && (py < dy || (py == dy && px < dx)))
        },
        None => false,
    }
}

/// The frame so far: pixels already composed show the grid, the rest are still set.
pub open spec fn partial_grid(
    slots: Seq<Option<[u32; 512]>>,
    frame: Seq<u32>,
    slot: int,
    dy: int,
    dx: int,
) -> bool {
    forall|p: int|
        0 <= p < 128 * 128 ==> #[trigger] pixel(frame, p) == if done_before(p, slot, dy, dx)
            && slots[slot_at(p).unwrap()] is Some {
            grid_pixel(slots, p)
        } else {
            true
        }
}

/// Composes up to four photos into one frame of thumbnails, two rows of two; see
/// `grid_pixel`. A slot that is `None` (past the end of the list, or unreadable) is left as
/// background.
#[verifier::rlimit(60)]
pub fn compose_grid(slots: &[Option<[u32; 512]>; 4]) -> (r: [u32; 512])
    ensures
        forall|p: int| 0 <= p < 128 * 128 ==> #[trigger] pixel(r@, p) == grid_pixel(slots@, p),
{
    let mut frame = [u32::MAX; 512];
    proof {
        assert forall|p: int| 0 <= p < 128 * 128 implies #[trigger] pixel(frame@, p) == true by {
            lemma_ones_bit((p % 32) as u32);
        }
    }
    let mut slot: usize = 0;
    while slot < 4
        invariant
            slot <= 4,
            frame@.len() == 512,
            partial_grid(slots@, frame@, slot as int, 0, 0),
        decreases 4 - slot,
    {
        match &slots[slot] {
            None => {
                proof {
                    assert forall|p: int| 0 <= p < 128 * 128 implies #[trigger] pixel(frame@, p) == if done_before(p, slot + 1, 0, 0) && slots@[slot_at(p).unwrap()] is Some {
                        grid_pixel(slots@, p)
                    } else {
                        true
                    } by {
                        assert(pixel(frame@, p) == if done_before(p, slot as int, 0, 0) && slots@[slot_at(p).unwrap()] is Some {
                            grid_pixel(slots@, p)
                        } else {
                            true
                        });
                    }
                }
            },
            Some(src) => {
                let ox = GRID_X0 + (slot % 2) * GRID_PITCH;
                let oy = GRID_Y0 + (slot / 2) * GRID_PITCH;
                let mut dy: usize = 0;
                while dy < GRID_CELL
                    invariant
                        slot < 4,
                        dy <= GRID_CELL,
                        frame@.len() == 512,
                        slots@[slot as int] == Some(*src),
                        (ox as int, oy as int) == slot_origin(slot as int),
                        partial_grid(slots@, frame@, slot as int, dy as int, 0),
                    decreases GRID_CELL - dy,
                {
                    let sy = dy * 128 / GRID_CELL;
                    let mut dx: usize = 0;
                    while dx < GRID_CELL
                        invariant
                            slot < 4,
                            dy < GRID_CELL,
                            dx <= GRID_CELL,
                            sy == dy * 128 / 54,
                            frame@.len() == 512,
                            slots@[slot as int] == Some(*src),
                            (ox as int, oy as int) == slot_origin(slot as int),
                            partial_grid(slots@, frame@, slot as int, dy as int, dx as int),
                        decreases GRID_CELL - dx,
                    {
                        let sx = dx * 128 / GRID_CELL;
                        let si = sx + sy * 128;
                        let di = (ox + dx) + (oy + dy) * 128;
                        proof {
                            lemma_slot_at(slot as int, dx as int, dy as int);
                        }
                        let ink = pixel_at(src, si);
                        let w = frame[di / 32];
                        let bit = (di % 32) as u32;
                        let nw = if ink {
                            w | (1u32 << bit)
                        } else {
                            w & !(1u32 << bit)
                        };
                        let ghost old_frame = frame@;
                        frame[di / 32] = nw;
                        proof {
                            assert forall|p: int| 0 <= p < 128 * 128 implies #[trigger] pixel(frame@, p) == if done_before(p, slot as int, dy as int, dx + 1) && slots@[slot_at(p).unwrap()] is Some {
                                grid_pixel(slots@, p)
                            } else {
                                true
                            } by {
                                assert(pixel(old_frame, p) == if done_before(p, slot as int, dy as int, dx as int) && slots@[slot_at(p).unwrap()] is Some {
                                    grid_pixel(slots@, p)
                                } else {
                                    true
                                });
                                lemma_write_bit(w, bit, (p % 32) as u32);
                                if p / 32 == di / 32 {
                                    if p == di as int {
                                    } else {
                                        assert(p % 32 != di % 32) by {
                                            vstd::arithmetic::div_mod::lemma_fundamental_div_mod(p, 32);
                                            vstd::arithmetic::div_mod::lemma_fundamental_div_mod(di as int, 32);
                                        }
                                    }
                                }
                            }
                        }
                        dx += 1;
                    }
                    proof {
                        assert forall|p: int| 0 <= p < 128 * 128 implies #[trigger] pixel(frame@, p) == if done_before(p, slot as int, dy + 1, 0) && slots@[slot_at(p).unwrap()] is Some {
                            grid_pixel(slots@, p)
                        } else {
                            true
                        } by {
                            assert(pixel(frame@, p) == if done_before(p, slot as int, dy as int, 54) && slots@[slot_at(p).unwrap()] is Some {
                                grid_pixel(slots@, p)
                            } else {
                                true
                            });
                        }
                    }
                    dy += 1;
                }
                proof {
                    assert forall|p: int| 0 <= p < 128 * 128 implies #[trigger] pixel(frame@, p) == if done_before(p, slot + 1, 0, 0) && slots@[slot_at(p).unwrap()] is Some {
                        grid_pixel(slots@, p)
                    } else {
                        true
                    } by {
                        assert(pixel(frame@, p) == if done_before(p, slot as int, 54, 0) && slots@[slot_at(p).unwrap()] is Some {
                            grid_pixel(slots@, p)
                        } else {
                            true
                        });
                    }
                }
            },
        }
        slot += 1;
    }
    proof {
        assert forall|p: int| 0 <= p < 128 * 128 implies #[trigger] pixel(frame@, p) == grid_pixel(slots@, p) by {
            assert(pixel(frame@, p) == if done_before(p, 4, 0, 0) && slots@[slot_at(p).unwrap()] is Some {
                grid_pixel(slots@, p)
            } else {
                true
            });
        }
    }
    frame
}

/// The first photo of the page that the cursor is on.
pub fn grid_page_first(cursor: usize) -> (r: usize)
    ensures
        r == cursor / GRID_SLOTS * GRID_SLOTS,
        r <= cursor < r + GRID_SLOTS,
{
    cursor / GRID_SLOTS * GRID_SLOTS
}

/// The top-left corner of the thumbnail under the cursor, where its focus brackets go.
pub fn grid_focus_origin(cursor: usize) -> (r: (usize, usize))
    ensures
        r.0 as int == slot_origin((cursor % GRID_SLOTS) as int).0,
        r.1 as int == slot_origin((cursor % GRID_SLOTS) as int).1,
{
    let slot = cursor % GRID_SLOTS;
    (GRID_X0 + (slot % 2) * GRID_PITCH, GRID_Y0 + (slot / 2) * GRID_PITCH)
}

} // verus!

//! Bech32 codec: the address encoding used for relay addresses.
//!
//! A bech32 string is `hrp` + `'1'` + data part, where the data part maps the
//! payload bytes, regrouped into 5-bit values, through a 32-character
//! alphabet, followed by six checksum characters. The decoder accepts exactly
//! the canonical encodings this encoder produces: lowercase strings with the
//! canonical checksum and zero padding bits.

use vstd::prelude::*;

verus! {

/// How a bech32 string can fail to decode.
#[derive(Clone, Copy, Debug, PartialEq, Eq, Structural)]
pub enum CodingError {
    InvalidChar,
    InvalidLength,
    InvalidChecksum,
    InvalidPadding,
    MixedCase,
}

/// The bech32 alphabet: the character for a 5-bit value.
pub open spec fn bech32_char(v: u8) -> char {
    match v {
        0 => 'q',
        1 => 'p',
        2 => 'z',
        3 => 'r',
        4 => 'y',
        5 => '9',
        6 => 'x',
        7 => '8',
        8 => 'g',
        9 => 'f',
        10 => '2',
        11 => 't',
        12 => 'v',
        13 => 'd',
        14 => 'w',
        15 => '0',
        16 => 's',
        17 => '3',
        18 => 'j',
        19 => 'n',
        20 => '5',
        21 => '4',
        22 => 'k',
        23 => 'h',
        24 => 'c',
        25 => 'e',
        26 => '6',
        27 => 'm',
        28 => 'u',
        29 => 'a',
        30 => '7',
        _ => 'l',
    }
}

/// The 5-bit value of an alphabet character; -1 when outside the alphabet.
pub open spec fn bech32_val(c: char) -> int {
    match c {
        'q' => 0,
        'p' => 1,
        'z' => 2,
        'r' => 3,
        'y' => 4,
        '9' => 5,
        'x' => 6,
        '8' => 7,
        'g' => 8,
        'f' => 9,
        '2' => 10,
        't' => 11,
        'v' => 12,
        'd' => 13,
        'w' => 14,
        '0' => 15,
        's' => 16,
        '3' => 17,
        'j' => 18,
        'n' => 19,
        '5' => 20,
        '4' => 21,
        'k' => 22,
        'h' => 23,
        'c' => 24,
        'e' => 25,
        '6' => 26,
        'm' => 27,
        'u' => 28,
        'a' => 29,
        '7' => 30,
        'l' => 31,
        _ => -1,
    }
}

pub open spec fn is_bech32_char(c: char) -> bool {
    bech32_val(c) >= 0
}

pub open spec fn is_upper(c: char) -> bool {
    65 <= (c as u32) <= 90
}

/// A usable human-readable part: non-empty, printable ASCII, no uppercase.
pub open spec fn valid_hrp(hrp: Seq<char>) -> bool {
    1 <= hrp.len() <= 83 && forall|i: int|
        0 <= i < hrp.len() ==> 33 <= (#[trigger] hrp[i]) as u32 <= 126 && !is_upper(hrp[i])
}

/// Bit `i` (big-endian, bit 0 is the high bit of byte 0) of a byte
/// sequence; 0 beyond the end.
pub open spec fn bit_at(data: Seq<u8>, i: int) -> u8 {
    if 0 <= i < 8 * data.len() {
        (data[i / 8] >> ((7 - (i % 8)) as u8)) & 1
    } else {
        0
    }
}

/// How many 5-bit groups an `n`-byte payload regroups into (zero-padded).
pub open spec fn fives_len(n: int) -> int {
    (8 * n + 4) / 5
}

/// The `j`-th 5-bit group of the payload's bit stream.
pub open spec fn five_at(data: Seq<u8>, j: int) -> u8 {
    (16 * bit_at(data, 5 * j) + 8 * bit_at(data, 5 * j + 1) + 4 * bit_at(data, 5 * j + 2) + 2
        * bit_at(data, 5 * j + 3) + bit_at(data, 5 * j + 4)) as u8
}

/// The payload bytes regrouped into 5-bit values, zero-padded at the end.
pub open spec fn fives_of_bytes(data: Seq<u8>) -> Seq<u8> {
    Seq::new(fives_len(data.len() as int) as nat, |j: int| five_at(data, j))
}

/// Bit `i` of the bit stream of a sequence of 5-bit values; 0 beyond the end.
pub open spec fn fbit_at(fives: Seq<u8>, i: int) -> u8 {
    if 0 <= i < 5 * fives.len() {
        (fives[i / 5] >> ((4 - (i % 5)) as u8)) & 1
    } else {
        0
    }
}

/// The `i`-th byte read back from a stream of 5-bit values.
pub open spec fn byte_from_fives(fives: Seq<u8>, i: int) -> u8 {
    (128 * fbit_at(fives, 8 * i) + 64 * fbit_at(fives, 8 * i + 1) + 32 * fbit_at(fives, 8 * i + 2)
        + 16 * fbit_at(fives, 8 * i + 3) + 8 * fbit_at(fives, 8 * i + 4) + 4 * fbit_at(
        fives,
        8 * i + 5,
    ) + 2 * fbit_at(fives, 8 * i + 6) + fbit_at(fives, 8 * i + 7)) as u8
}

/// The bytes read back from a stream of 5-bit values (partial trailing byte
/// dropped).
pub open spec fn bytes_of_fives(fives: Seq<u8>) -> Seq<u8> {
    Seq::new((5 * fives.len() / 8) as nat, |i: int| byte_from_fives(fives, i))
}

/// One step of the bech32 checksum polynomial.
pub open spec fn polymod_step(chk: u32, v: u8) -> u32 {
    let b = chk >> 25;
    let c0 = ((chk & 0x1ffffff) << 5) ^ (v as u32);
    let c1 = if b & 1 == 1 {
        c0 ^ 0x3b6a57b2
    } else {
        c0
    };
    let c2 = if b & 2 == 2 {
        c1 ^ 0x26508e6d
    } else {
        c1
    };
    let c3 = if b & 4 == 4 {
        c2 ^ 0x1ea119fa
    } else {
        c2
    };
    let c4 = if b & 8 == 8 {
        c3 ^ 0x3d4233dd
    } else {
        c3
    };
    if b & 16 == 16 {
        c4 ^ 0x2a1462b3
    } else {
        c4
    }
}

/// The bech32 checksum polynomial over a value sequence, left to right.
pub open spec fn polymod(vals: Seq<u8>, init: u32) -> u32
    decreases vals.len(),
{
    if vals.len() == 0 {
        init
    } else {
        polymod_step(polymod(vals.drop_last(), init), vals.last())
    }
}

/// The human-readable part expanded for the checksum: the high bits of each
/// character, a zero, then the low 5 bits of each character.
pub open spec fn hrp_expand(hrp: Seq<char>) -> Seq<u8> {
    Seq::new(hrp.len(), |i: int| (((hrp[i] as u32) >> 5) & 7) as u8) + seq![0u8] + Seq::new(
        hrp.len(),
        |i: int| ((hrp[i] as u32) & 31) as u8,
    )
}

/// The six checksum values for a human-readable part and a data part.
pub open spec fn checksum_of(hrp: Seq<char>, data5: Seq<u8>) -> Seq<u8> {
    let pm = polymod(hrp_expand(hrp) + data5 + seq![0u8, 0u8, 0u8, 0u8, 0u8, 0u8], 1) ^ 1;
    Seq::new(6, |i: int| ((pm >> ((5 * (5 - i)) as u32)) & 31) as u8)
}

/// A sequence of 5-bit values rendered in the bech32 alphabet.
pub open spec fn charmap(vals: Seq<u8>) -> Seq<char> {
    Seq::new(vals.len(), |i: int| bech32_char(vals[i]))
}

/// The canonical bech32 string for a human-readable part and payload bytes.
pub open spec fn spec_bech32_str(hrp: Seq<char>, data: Seq<u8>) -> Seq<char> {
    hrp + seq!['1'] + charmap(fives_of_bytes(data)) + charmap(
        checksum_of(hrp, fives_of_bytes(data)),
    )
}

/// A decoded (or to-be-encoded) bech32 value: human-readable part and
/// payload bytes.
#[derive(Clone, Debug)]
pub struct Bech32 {
    pub hrp: String,
    pub data: Vec<u8>,
}

// ------------------------------------------------------------------
// small bit lemmas
// ------------------------------------------------------------------

proof fn lemma_shift_bit_le(x: u8, s: u8)
    ensures
        (x >> s) & 1 <= 1,
{
    assert((x >> s) & 1 <= 1) by (bit_vector);
}

pub proof fn lemma_bit_at_le(data: Seq<u8>, i: int)
    ensures
        bit_at(data, i) <= 1,
{
    if 0 <= i < 8 * data.len() {
        lemma_shift_bit_le(data[i / 8], (7 - (i % 8)) as u8);
    }
}

pub proof fn lemma_fbit_at_le(fives: Seq<u8>, i: int)
    ensures
        fbit_at(fives, i) <= 1,
{
    if 0 <= i < 5 * fives.len() {
        lemma_shift_bit_le(fives[i / 5], (4 - (i % 5)) as u8);
    }
}

pub proof fn lemma_five_at_lt(data: Seq<u8>, j: int)
    ensures
        five_at(data, j) < 32,
{
    lemma_bit_at_le(data, 5 * j);
    lemma_bit_at_le(data, 5 * j + 1);
    lemma_bit_at_le(data, 5 * j + 2);
    lemma_bit_at_le(data, 5 * j + 3);
    lemma_bit_at_le(data, 5 * j + 4);
}

/// Extracting bit `4 - r` of a 5-bit value built from bits b0..b4 gives back
/// the chosen bit.
proof fn lemma_five_extract(b0: u8, b1: u8, b2: u8, b3: u8, b4: u8, r: int)
    requires
        b0 <= 1 && b1 <= 1 && b2 <= 1 && b3 <= 1 && b4 <= 1,
        0 <= r < 5,
    ensures
        ((16 * b0 + 8 * b1 + 4 * b2 + 2 * b3 + b4) as u8 >> ((4 - r) as u8)) & 1 == (if r == 0 {
            b0
        } else if r == 1 {
            b1
        } else if r == 2 {
            b2
        } else if r == 3 {
            b3
        } else {
            b4
        }),
{
    let v: u8 = (16 * b0 + 8 * b1 + 4 * b2 + 2 * b3 + b4) as u8;
    assert(b0 <= 1 && b1 <= 1 && b2 <= 1 && b3 <= 1 && b4 <= 1 && v == (16 * b0 + 8 * b1 + 4 * b2
        + 2 * b3 + b4) as u8 ==> ((v >> 4u8) & 1 == b0 && (v >> 3u8) & 1 == b1 && (v >> 2u8) & 1
        == b2 && (v >> 1u8) & 1 == b3 && (v >> 0u8) & 1 == b4)) by (bit_vector);
}

/// Extracting bit `7 - r` of a byte built from bits c0..c7 gives back the
/// chosen bit.
proof fn lemma_byte_extract(c0: u8, c1: u8, c2: u8, c3: u8, c4: u8, c5: u8, c6: u8, c7: u8, r: int)
    requires
        c0 <= 1 && c1 <= 1 && c2 <= 1 && c3 <= 1 && c4 <= 1 && c5 <= 1 && c6 <= 1 && c7 <= 1,
        0 <= r < 8,
    ensures
        ((128 * c0 + 64 * c1 + 32 * c2 + 16 * c3 + 8 * c4 + 4 * c5 + 2 * c6 + c7) as u8 >> ((7
            - r) as u8)) & 1 == (if r == 0 {
            c0
        } else if r == 1 {
            c1
        } else if r == 2 {
            c2
        } else if r == 3 {
            c3
        } else if r == 4 {
            c4
        } else if r == 5 {
            c5
        } else if r == 6 {
            c6
        } else {
            c7
        }),
{
    let v: u8 = (128 * c0 + 64 * c1 + 32 * c2 + 16 * c3 + 8 * c4 + 4 * c5 + 2 * c6 + c7) as u8;
    assert(c0 <= 1 && c1 <= 1 && c2 <= 1 && c3 <= 1 && c4 <= 1 && c5 <= 1 && c6 <= 1 && c7 <= 1
        && v == (128 * c0 + 64 * c1 + 32 * c2 + 16 * c3 + 8 * c4 + 4 * c5 + 2 * c6 + c7) as u8
        ==> ((v >> 7u8) & 1 == c0 && (v >> 6u8) & 1 == c1 && (v >> 5u8) & 1 == c2 && (v >> 4u8)
        & 1 == c3 && (v >> 3u8) & 1 == c4 && (v >> 2u8) & 1 == c5 && (v >> 1u8) & 1 == c6 && (v
        >> 0u8) & 1 == c7)) by (bit_vector);
}

/// Rebuilding a byte from its eight bits gives the byte back.
proof fn lemma_byte_rebuild(b: u8)
    ensures
        128 * ((b >> 7u8) & 1) + 64 * ((b >> 6u8) & 1) + 32 * ((b >> 5u8) & 1) + 16 * ((b >> 4u8)
            & 1) + 8 * ((b >> 3u8) & 1) + 4 * ((b >> 2u8) & 1) + 2 * ((b >> 1u8) & 1) + ((b
            >> 0u8) & 1) == b,
{
    assert(128 * ((b >> 7u8) & 1) + 64 * ((b >> 6u8) & 1) + 32 * ((b >> 5u8) & 1) + 16 * ((b
        >> 4u8) & 1) + 8 * ((b >> 3u8) & 1) + 4 * ((b >> 2u8) & 1) + 2 * ((b >> 1u8) & 1) + ((b
        >> 0u8) & 1) == b) by (bit_vector);
}

/// Rebuilding a 5-bit value from its five bits gives the value back.
proof fn lemma_five_rebuild(v: u8)
    requires
        v < 32,
    ensures
        16 * ((v >> 4u8) & 1) + 8 * ((v >> 3u8) & 1) + 4 * ((v >> 2u8) & 1) + 2 * ((v >> 1u8) & 1)
            + ((v >> 0u8) & 1) == v,
{
    assert(v < 32 ==> 16 * ((v >> 4u8) & 1) + 8 * ((v >> 3u8) & 1) + 4 * ((v >> 2u8) & 1) + 2 * ((v
        >> 1u8) & 1) + ((v >> 0u8) & 1) == v) by (bit_vector);
}

/// The bit stream of the 5-bit regrouping equals the payload's bit stream
/// (with zero padding past the end).
pub proof fn lemma_fives_bits(data: Seq<u8>, k: int)
    requires
        0 <= k < 5 * fives_len(data.len() as int),
    ensures
        fbit_at(fives_of_bytes(data), k) == bit_at(data, k),
{
    let f = fives_of_bytes(data);
    let j = k / 5;
    let r = k % 5;
    assert(0 <= r < 5 && k == 5 * j + r);
    assert(f[j] == five_at(data, j));
    lemma_bit_at_le(data, 5 * j);
    lemma_bit_at_le(data, 5 * j + 1);
    lemma_bit_at_le(data, 5 * j + 2);
    lemma_bit_at_le(data, 5 * j + 3);
    lemma_bit_at_le(data, 5 * j + 4);
    lemma_five_extract(
        bit_at(data, 5 * j),
        bit_at(data, 5 * j + 1),
        bit_at(data, 5 * j + 2),
        bit_at(data, 5 * j + 3),
        bit_at(data, 5 * j + 4),
        r,
    );
}

/// Reading the bytes back from the 5-bit regrouping gives the payload back.
pub proof fn lemma_bytes_round_trip(data: Seq<u8>, i: int)
    requires
        0 <= i < data.len(),
    ensures
        byte_from_fives(fives_of_bytes(data), i) == data[i],
{
    let f = fives_of_bytes(data);
    let b = data[i];
    assert(5 * fives_len(data.len() as int) >= 8 * data.len());
    lemma_fives_bits(data, 8 * i);
    lemma_fives_bits(data, 8 * i + 1);
    lemma_fives_bits(data, 8 * i + 2);
    lemma_fives_bits(data, 8 * i + 3);
    lemma_fives_bits(data, 8 * i + 4);
    lemma_fives_bits(data, 8 * i + 5);
    lemma_fives_bits(data, 8 * i + 6);
    lemma_fives_bits(data, 8 * i + 7);
    assert((8 * i) / 8 == i && (8 * i) % 8 == 0);
    assert((8 * i + 1) / 8 == i && (8 * i + 1) % 8 == 1);
    assert((8 * i + 2) / 8 == i && (8 * i + 2) % 8 == 2);
    assert((8 * i + 3) / 8 == i && (8 * i + 3) % 8 == 3);
    assert((8 * i + 4) / 8 == i && (8 * i + 4) % 8 == 4);
    assert((8 * i + 5) / 8 == i && (8 * i + 5) % 8 == 5);
    assert((8 * i + 6) / 8 == i && (8 * i + 6) % 8 == 6);
    assert((8 * i + 7) / 8 == i && (8 * i + 7) % 8 == 7);
    assert(bit_at(data, 8 * i) == (b >> 7u8) & 1);
    assert(bit_at(data, 8 * i + 1) == (b >> 6u8) & 1);
    assert(bit_at(data, 8 * i + 2) == (b >> 5u8) & 1);
    assert(bit_at(data, 8 * i + 3) == (b >> 4u8) & 1);
    assert(bit_at(data, 8 * i + 4) == (b >> 3u8) & 1);
    assert(bit_at(data, 8 * i + 5) == (b >> 2u8) & 1);
    assert(bit_at(data, 8 * i + 6) == (b >> 1u8) & 1);
    assert(bit_at(data, 8 * i + 7) == (b >> 0u8) & 1);
    lemma_byte_rebuild(b);
}

/// Padding bits past the payload's bit stream are zero.
pub proof fn lemma_pad_bits_zero(data: Seq<u8>, k: int)
    requires
        8 * data.len() <= k,
    ensures
        fbit_at(fives_of_bytes(data), k) == 0,
{
    if k < 5 * fives_len(data.len() as int) {
        lemma_fives_bits(data, k);
    }
}

/// `bech32_char` and `bech32_val` are mutually inverse below 32.
pub proof fn lemma_bech32_char_val(v: u8)
    requires
        v < 32,
    ensures
        bech32_val(bech32_char(v)) == v as int,
{
}

pub proof fn lemma_bech32_val_char(c: char)
    requires
        bech32_val(c) >= 0,
    ensures
        bech32_char(bech32_val(c) as u8) == c,
{
}

/// Alphabet characters are never the separator and never uppercase.
pub proof fn lemma_bech32_char_class(v: u8)
    requires
        v < 32,
    ensures
        bech32_char(v) != '1',
        !is_upper(bech32_char(v)),
{
}

/// Bit `k` of the bytes read back from a stream of 5-bit values equals bit
/// `k` of that stream.
pub proof fn lemma_bytes_bits(f: Seq<u8>, k: int)
    requires
        forall|i: int| 0 <= i < f.len() ==> #[trigger] f[i] < 32,
        0 <= k < 8 * (5 * f.len() / 8),
    ensures
        bit_at(bytes_of_fives(f), k) == fbit_at(f, k),
{
    let bs = bytes_of_fives(f);
    let i = k / 8;
    let r = k % 8;
    assert(0 <= r < 8 && k == 8 * i + r);
    assert(bs[i] == byte_from_fives(f, i));
    lemma_fbit_at_le(f, 8 * i);
    lemma_fbit_at_le(f, 8 * i + 1);
    lemma_fbit_at_le(f, 8 * i + 2);
    lemma_fbit_at_le(f, 8 * i + 3);
    lemma_fbit_at_le(f, 8 * i + 4);
    lemma_fbit_at_le(f, 8 * i + 5);
    lemma_fbit_at_le(f, 8 * i + 6);
    lemma_fbit_at_le(f, 8 * i + 7);
    lemma_byte_extract(
        fbit_at(f, 8 * i),
        fbit_at(f, 8 * i + 1),
        fbit_at(f, 8 * i + 2),
        fbit_at(f, 8 * i + 3),
        fbit_at(f, 8 * i + 4),
        fbit_at(f, 8 * i + 5),
        fbit_at(f, 8 * i + 6),
        fbit_at(f, 8 * i + 7),
        r,
    );
}

/// Regrouping the bytes read back from a valid 5-bit stream gives the
/// stream back: the stream's padding must be shorter than a group and all
/// padding bits zero.
pub proof fn lemma_fives_round_trip(f: Seq<u8>, j: int)
    requires
        forall|i: int| 0 <= i < f.len() ==> #[trigger] f[i] < 32,
        5 * f.len() - 8 * (5 * f.len() / 8) < 5,
        forall|k: int| 8 * (5 * f.len() / 8) <= k < 5 * f.len() ==> #[trigger] fbit_at(f, k) == 0,
        0 <= j < f.len(),
    ensures
        five_at(bytes_of_fives(f), j) == f[j],
{
    let bs = bytes_of_fives(f);
    if 5 * j < 8 * bs.len() {
        lemma_bytes_bits(f, 5 * j);
    }
    if 5 * j + 1 < 8 * bs.len() {
        lemma_bytes_bits(f, 5 * j + 1);
    }
    if 5 * j + 2 < 8 * bs.len() {
        lemma_bytes_bits(f, 5 * j + 2);
    }
    if 5 * j + 3 < 8 * bs.len() {
        lemma_bytes_bits(f, 5 * j + 3);
    }
    if 5 * j + 4 < 8 * bs.len() {
        lemma_bytes_bits(f, 5 * j + 4);
    }
    assert(bit_at(bs, 5 * j) == fbit_at(f, 5 * j));
    assert(bit_at(bs, 5 * j + 1) == fbit_at(f, 5 * j + 1));
    assert(bit_at(bs, 5 * j + 2) == fbit_at(f, 5 * j + 2));
    assert(bit_at(bs, 5 * j + 3) == fbit_at(f, 5 * j + 3));
    assert(bit_at(bs, 5 * j + 4) == fbit_at(f, 5 * j + 4));
    assert((5 * j) / 5 == j && (5 * j) % 5 == 0);
    assert((5 * j + 1) / 5 == j && (5 * j + 1) % 5 == 1);
    assert((5 * j + 2) / 5 == j && (5 * j + 2) % 5 == 2);
    assert((5 * j + 3) / 5 == j && (5 * j + 3) % 5 == 3);
    assert((5 * j + 4) / 5 == j && (5 * j + 4) % 5 == 4);
    assert(fbit_at(f, 5 * j) == (f[j] >> 4u8) & 1);
    assert(fbit_at(f, 5 * j + 1) == (f[j] >> 3u8) & 1);
    assert(fbit_at(f, 5 * j + 2) == (f[j] >> 2u8) & 1);
    assert(fbit_at(f, 5 * j + 3) == (f[j] >> 1u8) & 1);
    assert(fbit_at(f, 5 * j + 4) == (f[j] >> 0u8) & 1);
    lemma_five_rebuild(f[j]);
}

/// Everything a decoder learns about the canonical string of a
/// human-readable part and payload.
pub proof fn lemma_canonical_shape(h: Seq<char>, d: Seq<u8>)
    requires
        valid_hrp(h),
        d.len() <= 4096,
    ensures
        ({
            let se = spec_bech32_str(h, d);
            let f = fives_of_bytes(d);
            let cs = checksum_of(h, f);
            &&& se.len() == h.len() + 7 + f.len()
            &&& f.len() == fives_len(d.len() as int)
            &&& f.len() <= 6554
            &&& forall|j: int| 0 <= j < h.len() ==> #[trigger] se[j] == h[j]
            &&& se[h.len() as int] == '1'
            &&& forall|k: int|
                0 <= k < f.len() + 6 ==> #[trigger] se[h.len() + 1 + k] == bech32_char(
                    (f + cs)[k],
                )
            &&& forall|k: int| 0 <= k < f.len() + 6 ==> #[trigger] (f + cs)[k] < 32
            &&& forall|j: int|
                h.len() < j < se.len() ==> (#[trigger] se[j]) != '1' && !is_upper(se[j])
                    && is_bech32_char(se[j])
        }),
{
    let se = spec_bech32_str(h, d);
    let f = fives_of_bytes(d);
    let cs = checksum_of(h, f);
    assert(f.len() == fives_len(d.len() as int));
    assert forall|k: int| 0 <= k < f.len() + 6 implies #[trigger] (f + cs)[k] < 32 by {
        if k < f.len() {
            lemma_five_at_lt(d, k);
        } else {
            let pm = polymod(hrp_expand(h) + f + seq![0u8, 0u8, 0u8, 0u8, 0u8, 0u8], 1) ^ 1;
            let i = k - f.len();
            assert(cs[i] == ((pm >> ((5 * (5 - i)) as u32)) & 31) as u8);
            let x = pm >> ((5 * (5 - i)) as u32);
            assert((x & 31) < 32) by (bit_vector);
        }
    }
    assert forall|k: int| 0 <= k < f.len() + 6 implies #[trigger] se[h.len() + 1 + k]
        == bech32_char((f + cs)[k]) by {
        if k < f.len() {
            assert(se[h.len() + 1 + k] == charmap(f)[k]);
        } else {
            assert(se[h.len() + 1 + k] == charmap(cs)[k - f.len()]);
        }
    }
    assert forall|j: int| h.len() < j < se.len() implies (#[trigger] se[j]) != '1' && !is_upper(
        se[j],
    ) && is_bech32_char(se[j]) by {
        let k = j - h.len() - 1;
        assert(se[h.len() + 1 + k] == bech32_char((f + cs)[k]));
        lemma_bech32_char_class((f + cs)[k]);
        lemma_bech32_char_val((f + cs)[k]);
    }
}

// ------------------------------------------------------------------
// exec helpers
// ------------------------------------------------------------------

/// Exec mirror of `bech32_char`.
pub fn bech32_char_exec(v: u8) -> (c: char)
    requires
        v < 32,
    ensures
        c == bech32_char(v),
{
    match v {
        0 => 'q',
        1 => 'p',
        2 => 'z',
        3 => 'r',
        4 => 'y',
        5 => '9',
        6 => 'x',
        7 => '8',
        8 => 'g',
        9 => 'f',
        10 => '2',
        11 => 't',
        12 => 'v',
        13 => 'd',
        14 => 'w',
        15 => '0',
        16 => 's',
        17 => '3',
        18 => 'j',
        19 => 'n',
        20 => '5',
        21 => '4',
        22 => 'k',
        23 => 'h',
        24 => 'c',
        25 => 'e',
        26 => '6',
        27 => 'm',
        28 => 'u',
        29 => 'a',
        30 => '7',
        _ => 'l',
    }
}

/// Exec mirror of `bech32_val`: `None` outside the alphabet.
pub fn bech32_val_exec(c: char) -> (r: Option<u8>)
    ensures
        match r {
            Some(v) => bech32_val(c) == v && v < 32,
            None => bech32_val(c) == -1,
        },
{
    match c {
        'q' => Some(0),
        'p' => Some(1),
        'z' => Some(2),
        'r' => Some(3),
        'y' => Some(4),
        '9' => Some(5),
        'x' => Some(6),
        '8' => Some(7),
        'g' => Some(8),
        'f' => Some(9),
        '2' => Some(10),
        't' => Some(11),
        'v' => Some(12),
        'd' => Some(13),
        'w' => Some(14),
        '0' => Some(15),
        's' => Some(16),
        '3' => Some(17),
        'j' => Some(18),
        'n' => Some(19),
        '5' => Some(20),
        '4' => Some(21),
        'k' => Some(22),
        'h' => Some(23),
        'c' => Some(24),
        'e' => Some(25),
        '6' => Some(26),
        'm' => Some(27),
        'u' => Some(28),
        'a' => Some(29),
        '7' => Some(30),
        'l' => Some(31),
        _ => None,
    }
}

/// Exec mirror of `polymod_step`.
fn polymod_step_exec(chk: u32, v: u8) -> (r: u32)
    requires
        v < 32,
    ensures
        r == polymod_step(chk, v),
{
    let b = chk >> 25;
    let mut c: u32 = ((chk & 0x1ffffff) << 5) ^ (v as u32);
    if b & 1 == 1 {
        c = c ^ 0x3b6a57b2;
    }
    if b & 2 == 2 {
        c = c ^ 0x26508e6d;
    }
    if b & 4 == 4 {
        c = c ^ 0x1ea119fa;
    }
    if b & 8 == 8 {
        c = c ^ 0x3d4233dd;
    }
    if b & 16 == 16 {
        c = c ^ 0x2a1462b3;
    }
    c
}

/// Compute `polymod` over a value vector.
fn polymod_exec(vals: &Vec<u8>, init: u32) -> (r: u32)
    requires
        forall|i: int| 0 <= i < vals@.len() ==> #[trigger] vals@[i] < 32,
    ensures
        r == polymod(vals@, init),
{
    let mut chk = init;
    let mut i: usize = 0;
    while i < vals.len()
        invariant
            i <= vals@.len(),
            chk == polymod(vals@.take(i as int), init),
            forall|k: int| 0 <= k < vals@.len() ==> #[trigger] vals@[k] < 32,
        decreases vals@.len() - i,
    {
        proof {
            assert(vals@.take(i + 1 as int).drop_last() =~= vals@.take(i as int));
        }
        chk = polymod_step_exec(chk, vals[i]);
        i += 1;
    }
    proof {
        assert(vals@.take(vals@.len() as int) =~= vals@);
    }
    chk
}

/// The expanded human-readable part, as a vector of checksum values.
fn hrp_expand_exec(hrp: &str) -> (r: Vec<u8>)
    requires
        valid_hrp(hrp@),
    ensures
        r@ == hrp_expand(hrp@),
        forall|i: int| 0 <= i < r@.len() ==> #[trigger] r@[i] < 32,
{
    let n = hrp.unicode_len();
    let mut out: Vec<u8> = Vec::new();
    let mut i: usize = 0;
    while i < n
        invariant
            valid_hrp(hrp@),
            i <= n == hrp@.len(),
            out@ =~= Seq::new(i as nat, |k: int| ((((hrp@[k]) as u32) >> 5) & 7) as u8),
        decreases n - i,
    {
        let c = hrp.get_char(i);
        let u = c as u32;
        out.push(((u >> 5) & 7) as u8);
        proof {
            assert(((u >> 5) & 7) < 32) by (bit_vector);
        }
        i += 1;
    }
    out.push(0);
    let ghost mid = out@;
    let mut i: usize = 0;
    while i < n
        invariant
            valid_hrp(hrp@),
            i <= n == hrp@.len(),
            mid == Seq::new(n as nat, |k: int| ((((hrp@[k]) as u32) >> 5) & 7) as u8).push(0u8),
            out@ =~= mid + Seq::new(i as nat, |k: int| (((hrp@[k]) as u32) & 31) as u8),
        decreases n - i,
    {
        let c = hrp.get_char(i);
        let u = c as u32;
        out.push((u & 31) as u8);
        proof {
            assert((u & 31) < 32) by (bit_vector);
        }
        i += 1;
    }
    proof {
        assert(out@ =~= hrp_expand(hrp@));
        assert forall|i: int| 0 <= i < out@.len() implies #[trigger] out@[i] < 32 by {
            let hi = Seq::new(hrp@.len(), |k: int| ((((hrp@[k]) as u32) >> 5) & 7) as u8);
            if i < hrp@.len() {
                assert(out@[i] == hi[i]);
                assert((((((hrp@[i]) as u32) >> 5) & 7) as u8) < 32) by {
                    let u = (hrp@[i]) as u32;
                    assert(((u >> 5) & 7) < 32) by (bit_vector);
                }
            } else if i == hrp@.len() {
                assert(out@[i] == 0);
            } else {
                let u = (hrp@[i - hrp@.len() - 1]) as u32;
                assert(((u & 31)) < 32) by (bit_vector);
            }
        }
    }
    out
}

/// The six checksum values for the given human-readable part and data part.
fn checksum_exec(hrp: &str, data5: &Vec<u8>) -> (r: Vec<u8>)
    requires
        valid_hrp(hrp@),
        forall|i: int| 0 <= i < data5@.len() ==> #[trigger] data5@[i] < 32,
        data5@.len() <= 100000,
    ensures
        r@ == checksum_of(hrp@, data5@),
        forall|i: int| 0 <= i < r@.len() ==> #[trigger] r@[i] < 32,
{
    let mut vals = hrp_expand_exec(hrp);
    let ghost expanded = vals@;
    let mut i: usize = 0;
    while i < data5.len()
        invariant
            i <= data5@.len(),
            vals@ =~= expanded + data5@.take(i as int),
            forall|k: int| 0 <= k < data5@.len() ==> #[trigger] data5@[k] < 32,
            forall|k: int| 0 <= k < expanded.len() ==> #[trigger] expanded[k] < 32,
            forall|k: int| 0 <= k < vals@.len() ==> #[trigger] vals@[k] < 32,
        decreases data5@.len() - i,
    {
        vals.push(data5[i]);
        i += 1;
    }
    proof {
        assert(vals@ =~= expanded + data5@);
    }
    let mut i: usize = 0;
    while i < 6
        invariant
            i <= 6,
            vals@ =~= expanded + data5@ + Seq::new(i as nat, |k: int| 0u8),
            forall|k: int| 0 <= k < vals@.len() ==> #[trigger] vals@[k] < 32,
        decreases 6 - i,
    {
        vals.push(0);
        i += 1;
    }
    proof {
        assert(Seq::new(6 as nat, |k: int| 0u8) =~= seq![0u8, 0u8, 0u8, 0u8, 0u8, 0u8]);
        assert(vals@ =~= hrp_expand(hrp@) + data5@ + seq![0u8, 0u8, 0u8, 0u8, 0u8, 0u8]);
    }
    let pm = polymod_exec(&vals, 1) ^ 1;
    let mut cs: Vec<u8> = Vec::new();
    let mut i: usize = 0;
    while i < 6
        invariant
            i <= 6,
            pm == polymod(hrp_expand(hrp@) + data5@ + seq![0u8, 0u8, 0u8, 0u8, 0u8, 0u8], 1) ^ 1,
            cs@ =~= Seq::new(i as nat, |k: int| ((pm >> ((5 * (5 - k)) as u32)) & 31) as u8),
        decreases 6 - i,
    {
        let sh: u32 = 5 * (5 - (i as u32));
        cs.push(((pm >> sh) & 31) as u8);
        proof {
            assert(((pm >> sh) & 31) < 32) by (bit_vector);
        }
        i += 1;
    }
    proof {
        assert(cs@ =~= checksum_of(hrp@, data5@));
        assert forall|k: int| 0 <= k < cs@.len() implies #[trigger] cs@[k] < 32 by {
            let x = (pm >> ((5 * (5 - k)) as u32));
            assert((x & 31) < 32) by (bit_vector);
        }
    }
    cs
}

/// The payload bytes regrouped into 5-bit values with zero padding.
fn fives_exec(data: &Vec<u8>) -> (r: Vec<u8>)
    requires
        data@.len() <= 4096,
    ensures
        r@ == fives_of_bytes(data@),
        forall|i: int| 0 <= i < r@.len() ==> #[trigger] r@[i] < 32,
{
    let n = data.len();
    let mut bits: Vec<u8> = Vec::new();
    let mut i: usize = 0;
    while i < n
        invariant
            i <= n == data@.len(),
            n <= 4096,
            bits@.len() == 8 * i,
            forall|k: int| 0 <= k < bits@.len() ==> #[trigger] bits@[k] == bit_at(data@, k),
        decreases n - i,
    {
        let b = data[i];
        let mut j: usize = 0;
        while j < 8
            invariant
                i < n == data@.len(),
                n <= 4096,
                j <= 8,
                b == data@[i as int],
                bits@.len() == 8 * i + j,
                forall|k: int| 0 <= k < bits@.len() ==> #[trigger] bits@[k] == bit_at(data@, k),
            decreases 8 - j,
        {
            let sh: u8 = (7 - j) as u8;
            bits.push((b >> sh) & 1);
            proof {
                let k = 8 * (i as int) + (j as int);
                assert(k / 8 == i && k % 8 == j);
            }
            j += 1;
        }
        i += 1;
    }
    // pad with zero bits to a multiple of five
    let fl = (8 * n + 4) / 5;
    let target = 5 * fl;
    while bits.len() < target
        invariant
            n <= 4096,
            n == data@.len(),
            fl == fives_len(n as int),
            target == 5 * fl,
            8 * n <= bits@.len() <= target,
            forall|k: int| 0 <= k < bits@.len() ==> #[trigger] bits@[k] == bit_at(data@, k),
        decreases target - bits.len(),
    {
        bits.push(0);
        proof {
            lemma_bit_at_le(data@, bits@.len() - 1);
        }
    }
    // group into fives
    let mut out: Vec<u8> = Vec::new();
    let mut j: usize = 0;
    while j < fl
        invariant
            n == data@.len(),
            n <= 4096,
            fl == fives_len(n as int),
            bits@.len() == 5 * fl,
            forall|k: int| 0 <= k < bits@.len() ==> #[trigger] bits@[k] == bit_at(data@, k),
            j <= fl,
            out@ =~= Seq::new(j as nat, |t: int| five_at(data@, t)),
            forall|t: int| 0 <= t < out@.len() ==> #[trigger] out@[t] < 32,
        decreases fl - j,
    {
        proof {
            lemma_bit_at_le(data@, 5 * (j as int));
            lemma_bit_at_le(data@, 5 * (j as int) + 1);
            lemma_bit_at_le(data@, 5 * (j as int) + 2);
            lemma_bit_at_le(data@, 5 * (j as int) + 3);
            lemma_bit_at_le(data@, 5 * (j as int) + 4);
        }
        let v: u8 = 16 * bits[5 * j] + 8 * bits[5 * j + 1] + 4 * bits[5 * j + 2] + 2 * bits[5 * j
            + 3] + bits[5 * j + 4];
        out.push(v);
        j += 1;
    }
    proof {
        assert(out@ =~= fives_of_bytes(data@));
    }
    out
}

impl Bech32 {
    /// A value the encoder accepts: a usable human-readable part and a
    /// payload that keeps all index arithmetic inside machine bounds.
    pub open spec fn wf(&self) -> bool {
        valid_hrp(self.hrp@) && self.data@.len() <= 4096
    }

    /// Encode to the canonical bech32 string.
    pub fn encode(&self) -> (r: String)
        requires
            self.wf(),
        ensures
            r@ == spec_bech32_str(self.hrp@, self.data@),
    {
        let data5 = fives_exec(&self.data);
        let cs = checksum_exec(self.hrp.as_str(), &data5);
        let mut s = String::new();
        let hrp = self.hrp.as_str();
        let n = hrp.unicode_len();
        let mut i: usize = 0;
        while i < n
            invariant
                i <= n == hrp@.len(),
                s@ =~= hrp@.take(i as int),
            decreases n - i,
        {
            let c = hrp.get_char(i);
            crate::utils::push_char(&mut s, c);
            i += 1;
        }
        proof {
            assert(s@ =~= hrp@);
        }
        crate::utils::push_char(&mut s, '1');
        let mut i: usize = 0;
        while i < data5.len()
            invariant
                i <= data5@.len(),
                data5@ == fives_of_bytes(self.data@),
                forall|k: int| 0 <= k < data5@.len() ==> #[trigger] data5@[k] < 32,
                s@ =~= hrp@ + seq!['1'] + charmap(data5@.take(i as int)),
            decreases data5@.len() - i,
        {
            let c = bech32_char_exec(data5[i]);
            crate::utils::push_char(&mut s, c);
            proof {
                assert(charmap(data5@.take(i + 1 as int)) =~= charmap(data5@.take(i as int)).push(
                    bech32_char(data5@[i as int]),
                ));
            }
            i += 1;
        }
        proof {
            assert(data5@.take(data5@.len() as int) =~= data5@);
        }
        let mut i: usize = 0;
        while i < cs.len()
            invariant
                i <= cs@.len(),
                data5@ == fives_of_bytes(self.data@),
                cs@ == checksum_of(self.hrp@, data5@),
                forall|k: int| 0 <= k < cs@.len() ==> #[trigger] cs@[k] < 32,
                s@ =~= hrp@ + seq!['1'] + charmap(data5@) + charmap(cs@.take(i as int)),
            decreases cs@.len() - i,
        {
            let c = bech32_char_exec(cs[i]);
            crate::utils::push_char(&mut s, c);
            proof {
                assert(charmap(cs@.take(i + 1 as int)) =~= charmap(cs@.take(i as int)).push(
                    bech32_char(cs@[i as int]),
                ));
            }
            i += 1;
        }
        proof {
            assert(cs@.take(cs@.len() as int) =~= cs@);
            assert(s@ =~= spec_bech32_str(self.hrp@, self.data@));
        }
        s
    }
}

/// No pair of a usable human-readable part and a small payload encodes
/// canonically to `s`.
pub open spec fn no_canonical(s: Seq<char>) -> bool {
    forall|h: Seq<char>, d: Seq<u8>|
        !(valid_hrp(h) && d.len() <= 4096 && s == #[trigger] spec_bech32_str(h, d))
}

/// `p` is the position of the last separator character in `s`.
pub open spec fn sep_ok(s: Seq<char>, p: int) -> bool {
    &&& 0 <= p < s.len()
    &&& s[p] == '1'
    &&& forall|j: int| p < j < s.len() ==> #[trigger] s[j] != '1'
}

/// In a canonical string the last separator character sits exactly at the
/// end of the human-readable part.
proof fn lemma_sep_is_hrp_len(s: Seq<char>, h: Seq<char>, d: Seq<u8>, p: int)
    requires
        valid_hrp(h),
        d.len() <= 4096,
        s == spec_bech32_str(h, d),
        sep_ok(s, p),
    ensures
        p == h.len(),
{
    lemma_canonical_shape(h, d);
    if h.len() < p {
        assert(s[p] != '1');
    } else if h.len() > p {
        assert(s[h.len() as int] == '1');
        assert(h.len() < s.len());
        assert(s[h.len() as int] != '1');
    }
}

/// Bit `k` of a stored 5-bit group vector.
fn fbit_exec(f: &Vec<u8>, k: usize) -> (r: u8)
    requires
        k < 5 * f@.len(),
        f@.len() <= 100000,
    ensures
        r == fbit_at(f@, k as int),
{
    let sh: u8 = (4 - (k % 5)) as u8;
    (f[k / 5] >> sh) & 1
}

/// Read and validate the human-readable part before the separator.
fn read_hrp(s: &str, p: usize) -> (r: Result<String, CodingError>)
    requires
        sep_ok(s@, p as int),
        1 <= p <= 83,
    ensures
        match r {
            Ok(h) => h@ == s@.take(p as int) && valid_hrp(h@),
            Err(_) => no_canonical(s@),
        },
{
    let mut hrp_s = String::new();
    let mut i: usize = 0;
    while i < p
        invariant
            sep_ok(s@, p as int),
            i <= p < s@.len(),
            hrp_s@ =~= s@.take(i as int),
            forall|j: int|
                0 <= j < i ==> 33 <= ((#[trigger] s@[j]) as u32) <= 126 && !is_upper(s@[j]),
        decreases p - i,
    {
        let c = s.get_char(i);
        let u = c as u32;
        if u < 33 || u > 126 || (65 <= u && u <= 90) {
            proof {
                assert forall|h: Seq<char>, d: Seq<u8>|
                    !(valid_hrp(h) && d.len() <= 4096 && s@ == #[trigger] spec_bech32_str(
                        h,
                        d,
                    )) by {
                    if valid_hrp(h) && d.len() <= 4096 && s@ == spec_bech32_str(h, d) {
                        lemma_sep_is_hrp_len(s@, h, d, p as int);
                        lemma_canonical_shape(h, d);
                        assert(s@[i as int] == h[i as int]);
                    }
                }
            }
            if 65 <= u && u <= 90 {
                return Err(CodingError::MixedCase);
            }
            return Err(CodingError::InvalidChar);
        }
        crate::utils::push_char(&mut hrp_s, c);
        i += 1;
    }
    proof {
        assert(hrp_s@ =~= s@.take(p as int));
    }
    Ok(hrp_s)
}

/// Read the data-part characters after the separator as alphabet values.
fn read_vals(s: &str, p: usize) -> (r: Result<Vec<u8>, CodingError>)
    requires
        sep_ok(s@, p as int),
    ensures
        match r {
            Ok(v) => v@.len() == s@.len() - p - 1 && forall|t: int|
                0 <= t < v@.len() ==> (#[trigger] v@[t]) < 32 && v@[t] == bech32_val(
                    s@[p + 1 + t],
                ),
            Err(_) => no_canonical(s@),
        },
{
    let n = s.unicode_len();
    let mut vals: Vec<u8> = Vec::new();
    let mut i: usize = p + 1;
    while i < n
        invariant
            sep_ok(s@, p as int),
            p + 1 <= i <= n == s@.len(),
            vals@.len() == i - p - 1,
            forall|t: int|
                0 <= t < vals@.len() ==> (#[trigger] vals@[t]) < 32 && vals@[t] == bech32_val(
                    s@[p + 1 + t],
                ),
        decreases n - i,
    {
        let c = s.get_char(i);
        match bech32_val_exec(c) {
            Some(v) => {
                vals.push(v);
            },
            None => {
                proof {
                    assert forall|h: Seq<char>, d: Seq<u8>|
                        !(valid_hrp(h) && d.len() <= 4096 && s@ == #[trigger] spec_bech32_str(
                            h,
                            d,
                        )) by {
                        if valid_hrp(h) && d.len() <= 4096 && s@ == spec_bech32_str(h, d) {
                            lemma_sep_is_hrp_len(s@, h, d, p as int);
                            lemma_canonical_shape(h, d);
                            assert(is_bech32_char(s@[i as int]));
                        }
                    }
                }
                let u = c as u32;
                if 65 <= u && u <= 90 {
                    return Err(CodingError::MixedCase);
                }
                return Err(CodingError::InvalidChar);
            },
        }
        i += 1;
    }
    Ok(vals)
}

/// Split the data-part values and require the trailing six to be the
/// canonical checksum of the leading groups.
fn split_checksum(s: &str, p: usize, hrp_s: &String, vals: &Vec<u8>) -> (r: Result<
    Vec<u8>,
    CodingError,
>)
    requires
        sep_ok(s@, p as int),
        hrp_s@ == s@.take(p as int),
        valid_hrp(hrp_s@),
        vals@.len() == s@.len() - p - 1,
        6 <= vals@.len() <= 8192,
        forall|t: int|
            0 <= t < vals@.len() ==> (#[trigger] vals@[t]) < 32 && vals@[t] == bech32_val(
                s@[p + 1 + t],
            ),
    ensures
        match r {
            Ok(data5) => {
                &&& data5@ == vals@.take(vals@.len() - 6)
                &&& forall|t: int|
                    0 <= t < 6 ==> #[trigger] vals@[vals@.len() - 6 + t] == checksum_of(
                        hrp_s@,
                        data5@,
                    )[t]
            },
            Err(_) => no_canonical(s@),
        },
{
    let m5 = vals.len();
    let m5d = m5 - 6;
    let mut data5: Vec<u8> = Vec::new();
    let mut k: usize = 0;
    while k < m5d
        invariant
            k <= m5d <= vals@.len(),
            data5@ =~= vals@.take(k as int),
            forall|t: int| 0 <= t < vals@.len() ==> (#[trigger] vals@[t]) < 32,
        decreases m5d - k,
    {
        data5.push(vals[k]);
        k += 1;
    }
    proof {
        assert(data5@ =~= vals@.take(m5d as int));
        assert forall|t: int| 0 <= t < data5@.len() implies (#[trigger] data5@[t]) < 32 by {
            assert(data5@[t] == vals@[t]);
        }
    }
    let computed = checksum_exec(hrp_s.as_str(), &data5);
    let mut k: usize = 0;
    while k < 6
        invariant
            k <= 6,
            m5 == vals@.len(),
            m5d == m5 - 6,
            computed@.len() == 6,
            sep_ok(s@, p as int),
            hrp_s@ == s@.take(p as int),
            valid_hrp(hrp_s@),
            vals@.len() == s@.len() - p - 1,
            6 <= vals@.len() <= 8192,
            data5@ == vals@.take(m5d as int),
            computed@ == checksum_of(hrp_s@, data5@),
            forall|t: int|
                0 <= t < vals@.len() ==> (#[trigger] vals@[t]) < 32 && vals@[t] == bech32_val(
                    s@[p + 1 + t],
                ),
            forall|t: int| 0 <= t < k ==> #[trigger] vals@[m5d + t] == computed@[t],
        decreases 6 - k,
    {
        if vals[m5d + k] != computed[k] {
            proof {
                assert forall|h: Seq<char>, d: Seq<u8>|
                    !(valid_hrp(h) && d.len() <= 4096 && s@ == #[trigger] spec_bech32_str(
                        h,
                        d,
                    )) by {
                    if valid_hrp(h) && d.len() <= 4096 && s@ == spec_bech32_str(h, d) {
                        lemma_sep_is_hrp_len(s@, h, d, p as int);
                        lemma_canonical_shape(h, d);
                        let f = fives_of_bytes(d);
                        let cs = checksum_of(h, f);
                        assert(vals@.len() == f.len() + 6);
                        assert forall|t: int| 0 <= t < vals@.len() implies #[trigger] vals@[t] == (
                        f + cs)[t] by {
                            assert(s@[p + 1 + t] == bech32_char((f + cs)[t]));
                            lemma_bech32_char_val((f + cs)[t]);
                        }
                        assert(hrp_s@ =~= h);
                        assert(data5@ =~= f);
                        assert(vals@[m5d + (k as int)] == cs[k as int]);
                        assert(computed@[k as int] == cs[k as int]);
                    }
                }
            }
            return Err(CodingError::InvalidChecksum);
        }
        k += 1;
    }
    Ok(data5)
}

/// Reject a data part whose padding is a full group or has a set bit.
fn check_padding(s: &str, p: usize, data5: &Vec<u8>) -> (r: Result<usize, CodingError>)
    requires
        sep_ok(s@, p as int),
        data5@.len() + 6 == s@.len() - p - 1,
        data5@.len() <= 8192,
        forall|t: int|
            0 <= t < data5@.len() ==> (#[trigger] data5@[t]) < 32 && data5@[t] == bech32_val(
                s@[p + 1 + t],
            ),
    ensures
        match r {
            Ok(nb) => {
                &&& nb == 5 * data5@.len() / 8
                &&& 5 * data5@.len() - 8 * (nb as int) < 5
                &&& forall|t: int|
                    8 * nb <= t < 5 * data5@.len() ==> #[trigger] fbit_at(data5@, t) == 0
            },
            Err(_) => no_canonical(s@),
        },
{
    let m5d = data5.len();
    let nb = 5 * m5d / 8;
    let pad = 5 * m5d - 8 * nb;
    if pad >= 5 {
        proof {
            assert forall|h: Seq<char>, d: Seq<u8>|
                !(valid_hrp(h) && d.len() <= 4096 && s@ == #[trigger] spec_bech32_str(h, d)) by {
                if valid_hrp(h) && d.len() <= 4096 && s@ == spec_bech32_str(h, d) {
                    lemma_sep_is_hrp_len(s@, h, d, p as int);
                    lemma_canonical_shape(h, d);
                    let dn = d.len() as int;
                    assert(m5d == fives_len(dn));
                    assert(8 * dn <= 5 * fives_len(dn) <= 8 * dn + 4);
                    assert(5 * (m5d as int) / 8 == dn);
                }
            }
        }
        return Err(CodingError::InvalidPadding);
    }
    let mut k: usize = 8 * nb;
    while k < 5 * m5d
        invariant
            8 * nb <= k <= 5 * m5d,
            m5d == data5@.len() <= 8192,
            nb == 5 * m5d / 8,
            sep_ok(s@, p as int),
            data5@.len() + 6 == s@.len() - p - 1,
            forall|t: int|
                0 <= t < data5@.len() ==> (#[trigger] data5@[t]) < 32 && data5@[t] == bech32_val(
                    s@[p + 1 + t],
                ),
            forall|t: int| 8 * nb <= t < k ==> #[trigger] fbit_at(data5@, t) == 0,
        decreases 5 * m5d - k,
    {
        if fbit_exec(data5, k) != 0 {
            proof {
                assert forall|h: Seq<char>, d: Seq<u8>|
                    !(valid_hrp(h) && d.len() <= 4096 && s@ == #[trigger] spec_bech32_str(
                        h,
                        d,
                    )) by {
                    if valid_hrp(h) && d.len() <= 4096 && s@ == spec_bech32_str(h, d) {
                        lemma_sep_is_hrp_len(s@, h, d, p as int);
                        lemma_canonical_shape(h, d);
                        let f = fives_of_bytes(d);
                        let cs = checksum_of(h, f);
                        assert(data5@.len() == f.len());
                        assert forall|t: int| 0 <= t < data5@.len() implies #[trigger] data5@[t]
                            == f[t] by {
                            assert(s@[p + 1 + t] == bech32_char((f + cs)[t]));
                            lemma_bech32_char_val((f + cs)[t]);
                        }
                        assert(data5@ =~= f);
                        let dn = d.len() as int;
                        assert(8 * dn <= 5 * fives_len(dn) <= 8 * dn + 4);
                        assert(5 * (m5d as int) / 8 == dn);
                        lemma_pad_bits_zero(d, k as int);
                    }
                }
            }
            return Err(CodingError::InvalidPadding);
        }
        k += 1;
    }
    Ok(nb)
}

/// Read the payload bytes back from the 5-bit groups.
fn rebuild_bytes(data5: &Vec<u8>, nb: usize) -> (r: Vec<u8>)
    requires
        nb == 5 * data5@.len() / 8,
        data5@.len() <= 8192,
        5 * data5@.len() - 8 * (nb as int) < 5,
        forall|t: int| 0 <= t < data5@.len() ==> (#[trigger] data5@[t]) < 32,
        forall|t: int| 8 * nb <= t < 5 * data5@.len() ==> #[trigger] fbit_at(data5@, t) == 0,
    ensures
        r@.len() == nb,
        fives_of_bytes(r@) == data5@,
        r@ == bytes_of_fives(data5@),
{
    let m5d = data5.len();
    let mut data: Vec<u8> = Vec::new();
    let mut i: usize = 0;
    while i < nb
        invariant
            i <= nb,
            m5d == data5@.len() <= 8192,
            nb == 5 * m5d / 8,
            data@.len() == i,
            forall|t: int| 0 <= t < i ==> #[trigger] data@[t] == byte_from_fives(data5@, t),
        decreases nb - i,
    {
        proof {
            lemma_fbit_at_le(data5@, 8 * (i as int));
            lemma_fbit_at_le(data5@, 8 * (i as int) + 1);
            lemma_fbit_at_le(data5@, 8 * (i as int) + 2);
            lemma_fbit_at_le(data5@, 8 * (i as int) + 3);
            lemma_fbit_at_le(data5@, 8 * (i as int) + 4);
            lemma_fbit_at_le(data5@, 8 * (i as int) + 5);
            lemma_fbit_at_le(data5@, 8 * (i as int) + 6);
            lemma_fbit_at_le(data5@, 8 * (i as int) + 7);
        }
        let b: u8 = 128 * fbit_exec(data5, 8 * i) + 64 * fbit_exec(data5, 8 * i + 1) + 32
            * fbit_exec(data5, 8 * i + 2) + 16 * fbit_exec(data5, 8 * i + 3) + 8 * fbit_exec(
            data5,
            8 * i + 4,
        ) + 4 * fbit_exec(data5, 8 * i + 5) + 2 * fbit_exec(data5, 8 * i + 6) + fbit_exec(
            data5,
            8 * i + 7,
        );
        data.push(b);
        i += 1;
    }
    proof {
        assert(data@ =~= bytes_of_fives(data5@));
        assert(fives_len(nb as int) == m5d as int);
        assert forall|j: int| 0 <= j < m5d implies #[trigger] five_at(data@, j) == data5@[j] by {
            lemma_fives_round_trip(data5@, j);
        }
        assert(fives_of_bytes(data@) =~= data5@);
    }
    data
}

impl Bech32 {
    /// Decode a bech32 string. Accepts exactly the canonical lowercase
    /// encodings that `encode` produces (for payloads up to 4096 bytes).
    pub fn decode(s: &str) -> (r: Result<Bech32, CodingError>)
        ensures
            match r {
                Ok(b) => valid_hrp(b.hrp@) && b.data@.len() <= 4096 && s@ == spec_bech32_str(
                    b.hrp@,
                    b.data@,
                ),
                Err(_) => no_canonical(s@),
            },
    {
        let n = s.unicode_len();
        // find the last separator
        let mut sep: Option<usize> = None;
        let mut i: usize = 0;
        while i < n
            invariant
                i <= n == s@.len(),
                match sep {
                    Some(p) => p < i && s@[p as int] == '1' && forall|j: int|
                        p < j < i ==> #[trigger] s@[j] != '1',
                    None => forall|j: int| 0 <= j < i ==> #[trigger] s@[j] != '1',
                },
            decreases n - i,
        {
            if s.get_char(i) == '1' {
                sep = Some(i);
            }
            i += 1;
        }
        let p = match sep {
            None => {
                proof {
                    assert forall|h: Seq<char>, d: Seq<u8>|
                        !(valid_hrp(h) && d.len() <= 4096 && s@ == #[trigger] spec_bech32_str(
                            h,
                            d,
                        )) by {
                        if valid_hrp(h) && d.len() <= 4096 && s@ == spec_bech32_str(h, d) {
                            lemma_canonical_shape(h, d);
                            assert(s@[h.len() as int] == '1');
                        }
                    }
                }
                return Err(CodingError::InvalidLength);
            },
            Some(p) => p,
        };
        if p == 0 || p > 83 || n < p + 7 || n - p - 1 > 6560 {
            proof {
                assert forall|h: Seq<char>, d: Seq<u8>|
                    !(valid_hrp(h) && d.len() <= 4096 && s@ == #[trigger] spec_bech32_str(
                        h,
                        d,
                    )) by {
                    if valid_hrp(h) && d.len() <= 4096 && s@ == spec_bech32_str(h, d) {
                        lemma_sep_is_hrp_len(s@, h, d, p as int);
                        lemma_canonical_shape(h, d);
                    }
                }
            }
            return Err(CodingError::InvalidLength);
        }
        let hrp_s = match read_hrp(s, p) {
            Ok(h) => h,
            Err(e) => {
                return Err(e);
            },
        };
        let vals = match read_vals(s, p) {
            Ok(v) => v,
            Err(e) => {
                return Err(e);
            },
        };
        let data5 = match split_checksum(s, p, &hrp_s, &vals) {
            Ok(d) => d,
            Err(e) => {
                return Err(e);
            },
        };
        proof {
            assert forall|t: int| 0 <= t < data5@.len() implies (#[trigger] data5@[t]) < 32
                && data5@[t] == bech32_val(s@[p + 1 + t]) by {
                assert(data5@[t] == vals@[t]);
            }
        }
        let nb = match check_padding(s, p, &data5) {
            Ok(nb) => nb,
            Err(e) => {
                return Err(e);
            },
        };
        let data = rebuild_bytes(&data5, nb);
        proof {
            let m5d = data5@.len();
            let computed = checksum_of(hrp_s@, data5@);
            let whole = hrp_s@ + seq!['1'] + charmap(data5@) + charmap(computed);
            assert(computed.len() == 6);
            assert forall|j: int| 0 <= j < s@.len() implies s@[j] == #[trigger] whole[j] by {
                if j < p {
                    assert(whole[j] == hrp_s@[j]);
                    assert(hrp_s@[j] == s@.take(p as int)[j]);
                } else if j == p {
                    assert(whole[j] == '1');
                } else {
                    let t = j - p - 1;
                    assert(vals@[t] == bech32_val(s@[p + 1 + t]));
                    lemma_bech32_val_char(s@[j]);
                    if t < m5d {
                        assert(whole[j] == bech32_char(data5@[t]));
                        assert(data5@[t] == vals@[t]);
                    } else {
                        assert(whole[j] == bech32_char(computed[t - m5d]));
                        assert(vals@[m5d + (t - m5d)] == computed[t - m5d]);
                    }
                }
            }
            assert(s@ =~= whole);
            assert(checksum_of(hrp_s@, fives_of_bytes(data@)) == computed);
            assert(s@ =~= spec_bech32_str(hrp_s@, data@));
        }
        Ok(Bech32 { hrp: hrp_s, data })
    }
}

/// The 5-bit group count grows strictly with the payload length.
proof fn lemma_fives_len_strict(n1: int, n2: int)
    requires
        0 <= n1 < n2,
    ensures
        fives_len(n1) < fives_len(n2),
{
    assert(8 * n1 + 4 + 5 <= 8 * n2 + 4);
    assert((8 * n1 + 4 + 5) / 5 == (8 * n1 + 4) / 5 + 1);
}

/// A canonical bech32 string determines its human-readable part and payload.
pub proof fn lemma_bech32_str_injective(h1: Seq<char>, d1: Seq<u8>, h2: Seq<char>, d2: Seq<u8>)
    requires
        valid_hrp(h1),
        valid_hrp(h2),
        d1.len() <= 4096,
        d2.len() <= 4096,
        spec_bech32_str(h1, d1) == spec_bech32_str(h2, d2),
    ensures
        h1 == h2,
        d1 == d2,
{
    let s = spec_bech32_str(h1, d1);
    lemma_canonical_shape(h1, d1);
    lemma_canonical_shape(h2, d2);
    let f1 = fives_of_bytes(d1);
    let f2 = fives_of_bytes(d2);
    // the separator position fixes the human-readable part
    if h1.len() < h2.len() {
        assert(s[h2.len() as int] == '1');
        assert(s[h2.len() as int] != '1');
    } else if h2.len() < h1.len() {
        assert(s[h1.len() as int] == '1');
        assert(s[h1.len() as int] != '1');
    }
    assert forall|j: int| 0 <= j < h1.len() implies h1[j] == h2[j] by {
        assert(spec_bech32_str(h1, d1)[j] == h1[j]);
        assert(spec_bech32_str(h2, d2)[j] == h2[j]);
    }
    assert(h1 =~= h2);
    assert(f1.len() == f2.len());
    // equal data-part characters mean equal 5-bit groups
    let cs1 = checksum_of(h1, f1);
    let cs2 = checksum_of(h2, f2);
    assert forall|k: int| 0 <= k < f1.len() implies f1[k] == f2[k] by {
        assert(s[h1.len() + 1 + k] == bech32_char((f1 + cs1)[k]));
        assert(s[h2.len() + 1 + k] == bech32_char((f2 + cs2)[k]));
        lemma_bech32_char_val((f1 + cs1)[k]);
        lemma_bech32_char_val((f2 + cs2)[k]);
    }
    assert(f1 =~= f2);
    // the group count fixes the payload length, the groups fix its bytes
    if d1.len() < d2.len() {
        lemma_fives_len_strict(d1.len() as int, d2.len() as int);
    } else if d2.len() < d1.len() {
        lemma_fives_len_strict(d2.len() as int, d1.len() as int);
    }
    assert(d1.len() == d2.len());
    assert forall|i: int| 0 <= i < d1.len() implies d1[i] == d2[i] by {
        lemma_bytes_round_trip(d1, i);
        lemma_bytes_round_trip(d2, i);
    }
    assert(d1 =~= d2);
}

/// Whether some usable human-readable part and small payload encode
/// canonically to `s`.
pub open spec fn is_canonical(s: Seq<char>) -> bool {
    exists|h: Seq<char>, d: Seq<u8>|
        valid_hrp(h) && d.len() <= 4096 && s == #[trigger] spec_bech32_str(h, d)
}

/// The decode of a canonical string: the unique human-readable part and
/// payload that encode to it (meaningful only when `is_canonical(s)`).
pub open spec fn bech32_decode_of(s: Seq<char>) -> (Seq<char>, Seq<u8>) {
    choose|h: Seq<char>, d: Seq<u8>|
        valid_hrp(h) && d.len() <= 4096 && s == #[trigger] spec_bech32_str(h, d)
}

/// What `bech32_decode_of` gives on a string known to be one encoding.
pub proof fn lemma_decode_of_canonical(s: Seq<char>, h: Seq<char>, d: Seq<u8>)
    requires
        valid_hrp(h),
        d.len() <= 4096,
        s == spec_bech32_str(h, d),
    ensures
        is_canonical(s),
        bech32_decode_of(s) == (h, d),
{
    assert(valid_hrp(h) && d.len() <= 4096 && s == spec_bech32_str(h, d));
    let (h2, d2) = bech32_decode_of(s);
    assert(valid_hrp(h2) && d2.len() <= 4096 && s == spec_bech32_str(h2, d2));
    lemma_bech32_str_injective(h, d, h2, d2);
}

} // verus!

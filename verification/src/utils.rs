//! Hex encoding/decoding and decimal string helpers, fully verified.

use vstd::prelude::*;
use crate::error::ErrorKind;

verus! {

/// The lowercase hex digit character for a value below 16.
pub open spec fn hex_char_of(v: u8) -> char {
    match v {
        0 => '0',
        1 => '1',
        2 => '2',
        3 => '3',
        4 => '4',
        5 => '5',
        6 => '6',
        7 => '7',
        8 => '8',
        9 => '9',
        10 => 'a',
        11 => 'b',
        12 => 'c',
        13 => 'd',
        14 => 'e',
        _ => 'f',
    }
}

/// The value of a hex digit character; -1 when the character is none.
pub open spec fn hex_val(c: char) -> int {
    match c {
        '0' => 0,
        '1' => 1,
        '2' => 2,
        '3' => 3,
        '4' => 4,
        '5' => 5,
        '6' => 6,
        '7' => 7,
        '8' => 8,
        '9' => 9,
        'a' => 10,
        'b' => 11,
        'c' => 12,
        'd' => 13,
        'e' => 14,
        'f' => 15,
        'A' => 10,
        'B' => 11,
        'C' => 12,
        'D' => 13,
        'E' => 14,
        'F' => 15,
        _ => -1,
    }
}

pub open spec fn is_hex_digit(c: char) -> bool {
    hex_val(c) >= 0
}

pub open spec fn is_dec_digit(c: char) -> bool {
    0 <= hex_val(c) < 10
}

/// Whitespace that a hex string may carry between digits.
pub open spec fn is_hex_ws(c: char) -> bool {
    c == ' ' || c == '\r' || c == '\n' || c == '\t'
}

/// Every character is a hex digit or ignorable whitespace.
pub open spec fn hex_wf(s: Seq<char>) -> bool {
    forall|j: int| 0 <= j < s.len() ==> is_hex_digit(#[trigger] s[j]) || is_hex_ws(s[j])
}

/// The subsequence of hex digit characters of `s`, in order.
pub open spec fn hex_digits_of(s: Seq<char>) -> Seq<char>
    decreases s.len(),
{
    if s.len() == 0 {
        Seq::empty()
    } else if is_hex_digit(s.last()) {
        hex_digits_of(s.drop_last()).push(s.last())
    } else {
        hex_digits_of(s.drop_last())
    }
}

/// The bytes read from an even-length sequence of hex digits.
pub open spec fn bytes_of_hex_digits(d: Seq<char>) -> Seq<u8>
    recommends d.len() % 2 == 0,
{
    Seq::new(d.len() / 2, |i: int| (hex_val(d[2 * i]) * 16 + hex_val(d[2 * i + 1])) as u8)
}

/// The lowercase hex rendering of a byte sequence.
pub open spec fn hex_of(bytes: Seq<u8>) -> Seq<char> {
    Seq::new(
        bytes.len() * 2,
        |i: int|
            if i % 2 == 0 {
                hex_char_of(bytes[i / 2] >> 4)
            } else {
                hex_char_of(bytes[i / 2] & 15)
            },
    )
}

/// A hex string parses: only digits and whitespace, evenly many digits.
pub open spec fn hex_parse_ok(s: Seq<char>) -> bool {
    hex_wf(s) && hex_digits_of(s).len() % 2 == 0
}

/// The bytes a well-formed hex string denotes.
pub open spec fn hex_bytes(s: Seq<char>) -> Seq<u8> {
    bytes_of_hex_digits(hex_digits_of(s))
}

/// Relies on `String::push`: appends one character to the string.
#[verifier::external_body]
pub fn push_char(s: &mut String, c: char)
    ensures
        final(s)@ == old(s)@.push(c),
{
    s.push(c);
}

/// Exec mirror of `hex_char_of`.
pub fn hex_char_exec(v: u8) -> (c: char)
    requires
        v < 16,
    ensures
        c == hex_char_of(v),
{
    match v {
        0 => '0',
        1 => '1',
        2 => '2',
        3 => '3',
        4 => '4',
        5 => '5',
        6 => '6',
        7 => '7',
        8 => '8',
        9 => '9',
        10 => 'a',
        11 => 'b',
        12 => 'c',
        13 => 'd',
        14 => 'e',
        _ => 'f',
    }
}

/// Exec mirror of `hex_val`: `None` when the character is no hex digit.
pub fn hex_val_exec(c: char) -> (r: Option<u8>)
    ensures
        match r {
            Some(v) => hex_val(c) == v && v < 16,
            None => hex_val(c) == -1,
        },
{
    match c {
        '0' => Some(0),
        '1' => Some(1),
        '2' => Some(2),
        '3' => Some(3),
        '4' => Some(4),
        '5' => Some(5),
        '6' => Some(6),
        '7' => Some(7),
        '8' => Some(8),
        '9' => Some(9),
        'a' => Some(10),
        'b' => Some(11),
        'c' => Some(12),
        'd' => Some(13),
        'e' => Some(14),
        'f' => Some(15),
        'A' => Some(10),
        'B' => Some(11),
        'C' => Some(12),
        'D' => Some(13),
        'E' => Some(14),
        'F' => Some(15),
        _ => None,
    }
}

/// Encode the provided bytes into a lowercase hex string.
pub fn to_hex(bytes: Vec<u8>) -> (r: String)
    ensures
        r@ == hex_of(bytes@),
{
    let mut s = String::new();
    let mut i: usize = 0;
    while i < bytes.len()
        invariant
            i <= bytes.len(),
            s@ == hex_of(bytes@.take(i as int)),
        decreases bytes.len() - i,
    {
        let b = bytes[i];
        proof {
            assert(b >> 4 < 16) by (bit_vector);
            assert(b & 15 < 16) by (bit_vector);
        }
        let c1 = hex_char_exec(b >> 4);
        let c2 = hex_char_exec(b & 15);
        push_char(&mut s, c1);
        push_char(&mut s, c2);
        proof {
            let pre = bytes@.take(i as int);
            let post = bytes@.take(i + 1 as int);
            assert(post.drop_last() =~= pre);
            assert forall|j: int| 0 <= j < post.len() * 2 implies hex_of(post)[j] == hex_of(
                pre,
            ).push(c1).push(c2)[j] by {
                if j < pre.len() * 2 {
                    assert(post[j / 2] == pre[j / 2]);
                } else {
                    assert(j / 2 == i);
                    assert(post[i as int] == b);
                }
            }
            assert(s@ =~= hex_of(post));
        }
        i += 1;
    }
    proof {
        assert(bytes@.take(bytes@.len() as int) =~= bytes@);
    }
    s
}

/// Decode a hex string into bytes (no '0x' prefix). Whitespace between
/// digits is ignored; any other non-digit character, or an odd number of
/// digits, is an error.
pub fn from_hex(hex_str: String) -> (r: Result<Vec<u8>, ErrorKind>)
    ensures
        match r {
            Ok(v) => hex_wf(hex_str@) && hex_digits_of(hex_str@).len() % 2 == 0 && v@
                == bytes_of_hex_digits(hex_digits_of(hex_str@)),
            Err(e) => (!hex_wf(hex_str@) || hex_digits_of(hex_str@).len() % 2 != 0) && e
                == ErrorKind::NumberParsingError,
        },
{
    let s = hex_str.as_str();
    let n = s.unicode_len();
    let mut out: Vec<u8> = Vec::new();
    let mut pending: Option<u8> = None;
    let mut i: usize = 0;
    while i < n
        invariant
            i <= n,
            n == s@.len(),
            s@ == hex_str@,
            hex_wf(s@.take(i as int)),
            match pending {
                None => hex_digits_of(s@.take(i as int)).len() % 2 == 0 && out@
                    == bytes_of_hex_digits(hex_digits_of(s@.take(i as int))),
                Some(h) => {
                    let d = hex_digits_of(s@.take(i as int));
                    d.len() % 2 == 1 && h == hex_val(d.last()) && h < 16 && out@
                        == bytes_of_hex_digits(d.drop_last())
                },
            },
        decreases n - i,
    {
        let c = s.get_char(i);
        proof {
            assert(s@.take(i + 1 as int).drop_last() =~= s@.take(i as int));
            assert(s@.take(i + 1 as int).last() == s@[i as int]);
        }
        match hex_val_exec(c) {
            None => {
                if c == ' ' || c == '\r' || c == '\n' || c == '\t' {
                    // ignorable whitespace
                } else {
                    proof {
                        assert(!is_hex_digit(s@[i as int]) && !is_hex_ws(s@[i as int]));
                        assert(!hex_wf(hex_str@));
                    }
                    return Err(ErrorKind::NumberParsingError);
                }
            },
            Some(hv) => {
                match pending {
                    None => {
                        pending = Some(hv);
                    },
                    Some(h) => {
                        out.push(h * 16 + hv);
                        pending = None;
                        proof {
                            let d1 = hex_digits_of(s@.take(i as int));
                            let d0 = d1.drop_last();
                            let d2 = hex_digits_of(s@.take(i + 1 as int));
                            assert(d2 =~= d0.push(d1.last()).push(s@[i as int])) by {
                                assert(d1 =~= d0.push(d1.last()));
                            }
                            assert forall|k: int| 0 <= k < d2.len() / 2 implies bytes_of_hex_digits(
                                d2,
                            )[k] == bytes_of_hex_digits(d0).push((h * 16 + hv) as u8)[k] by {
                                if k < d0.len() / 2 {
                                    assert(d2[2 * k] == d0[2 * k]);
                                    assert(d2[2 * k + 1] == d0[2 * k + 1]);
                                } else {
                                    assert(2 * k == d0.len());
                                    assert(2 * k + 1 == d0.len() + 1);
                                }
                            }
                            assert(out@ =~= bytes_of_hex_digits(d2));
                        }
                    },
                }
            },
        }
        i += 1;
    }
    proof {
        assert(s@.take(n as int) =~= hex_str@);
    }
    match pending {
        None => Ok(out),
        Some(_) => Err(ErrorKind::NumberParsingError),
    }
}

/// The input as an owned string.
pub fn owned_str(s: &str) -> (r: String)
    ensures
        r@ == s@,
{
    s.to_owned()
}

/// Relies on `String::from_utf8`: succeeds exactly on valid UTF-8 and
/// decodes it.
#[verifier::external_body]
pub fn bytes_to_string(v: &Vec<u8>) -> (r: Option<String>)
    ensures
        r is Some <==> vstd::utf8::valid_utf8(v@),
        match r {
            Some(s) => s@ == vstd::utf8::decode_utf8(v@),
            None => true,
        },
{
    match String::from_utf8(v.clone()) {
        Ok(s) => Some(s),
        Err(_) => None,
    }
}

/// Whether two strings hold the same characters.
pub fn str_eq(a: &str, b: &str) -> (r: bool)
    ensures
        r == (a@ == b@),
{
    let n = a.unicode_len();
    if n != b.unicode_len() {
        proof {
            assert(a@ != b@);
        }
        return false;
    }
    let mut i: usize = 0;
    while i < n
        invariant
            i <= n == a@.len() == b@.len(),
            forall|j: int| 0 <= j < i ==> #[trigger] a@[j] == b@[j],
        decreases n - i,
    {
        if a.get_char(i) != b.get_char(i) {
            proof {
                assert(a@[i as int] != b@[i as int]);
            }
            return false;
        }
        i += 1;
    }
    proof {
        assert(a@ =~= b@);
    }
    true
}

/// Whether two byte vectors hold the same bytes.
pub fn bytes_eq(a: &Vec<u8>, b: &Vec<u8>) -> (r: bool)
    ensures
        r == (a@ == b@),
{
    let n = a.len();
    if n != b.len() {
        proof {
            assert(a@ != b@);
        }
        return false;
    }
    let mut i: usize = 0;
    while i < n
        invariant
            i <= n == a@.len() == b@.len(),
            forall|j: int| 0 <= j < i ==> #[trigger] a@[j] == b@[j],
        decreases n - i,
    {
        if a[i] != b[i] {
            proof {
                assert(a@[i as int] != b@[i as int]);
            }
            return false;
        }
        i += 1;
    }
    proof {
        assert(a@ =~= b@);
    }
    true
}

/// An element-wise copy of a byte vector.
pub fn copy_bytes(v: &Vec<u8>) -> (r: Vec<u8>)
    ensures
        r@ == v@,
{
    let mut out: Vec<u8> = Vec::new();
    let mut i: usize = 0;
    while i < v.len()
        invariant
            i <= v@.len(),
            out@ =~= v@.take(i as int),
        decreases v@.len() - i,
    {
        out.push(v[i]);
        i += 1;
    }
    proof {
        assert(out@ =~= v@);
    }
    out
}

/// The decimal rendering of a non-negative integer.
pub open spec fn dec_str_of(n: int) -> Seq<char>
    recommends
        n >= 0,
    decreases n,
{
    if n < 10 {
        seq![hex_char_of(n as u8)]
    } else {
        dec_str_of(n / 10).push(hex_char_of((n % 10) as u8))
    }
}

/// The value of a decimal digit string (0 for the empty string).
pub open spec fn dec_val(s: Seq<char>) -> int
    decreases s.len(),
{
    if s.len() == 0 {
        0
    } else {
        dec_val(s.drop_last()) * 10 + hex_val(s.last())
    }
}

pub open spec fn all_dec_digits(s: Seq<char>) -> bool {
    forall|j: int| 0 <= j < s.len() ==> is_dec_digit(#[trigger] s[j])
}

/// Render an integer in decimal.
pub fn dec_string(n: u64) -> (r: String)
    ensures
        r@ == dec_str_of(n as int),
    decreases n,
{
    if n < 10 {
        let mut s = String::new();
        push_char(&mut s, hex_char_exec(n as u8));
        proof {
            assert(s@ =~= seq![hex_char_of(n as u8)]);
        }
        s
    } else {
        let mut s = dec_string(n / 10);
        push_char(&mut s, hex_char_exec((n % 10) as u8));
        s
    }
}

/// The value of a decimal string never shrinks as the string is extended
/// by further digits.
proof fn lemma_dec_val_prefix(s: Seq<char>, i: int)
    requires
        0 <= i <= s.len(),
        all_dec_digits(s),
    ensures
        0 <= dec_val(s.take(i)) <= dec_val(s),
    decreases s.len() - i,
{
    if i < s.len() {
        lemma_dec_val_prefix(s, i + 1);
        assert(s.take(i + 1).drop_last() =~= s.take(i));
        assert(s.take(i + 1).last() == s[i]);
    } else {
        assert(s.take(i) =~= s);
        lemma_dec_val_nonneg(s);
    }
}

proof fn lemma_dec_val_nonneg(s: Seq<char>)
    requires
        all_dec_digits(s),
    ensures
        dec_val(s) >= 0,
    decreases s.len(),
{
    if s.len() > 0 {
        assert(all_dec_digits(s.drop_last())) by {
            assert(forall|j: int|
                0 <= j < s.len() - 1 ==> #[trigger] s.drop_last()[j] == s[j]);
        }
        lemma_dec_val_nonneg(s.drop_last());
    }
}

/// Parse a decimal string into a u16; `None` when the string is empty,
/// holds a non-digit, or exceeds 65535.
pub fn parse_u16(s: &str) -> (r: Option<u16>)
    ensures
        match r {
            Some(v) => s@.len() > 0 && all_dec_digits(s@) && dec_val(s@) == v as int,
            None => !(s@.len() > 0 && all_dec_digits(s@) && dec_val(s@) <= 65535),
        },
{
    let n = s.unicode_len();
    if n == 0 {
        return None;
    }
    let mut acc: u32 = 0;
    let mut i: usize = 0;
    while i < n
        invariant
            0 < n == s@.len(),
            i <= n,
            all_dec_digits(s@.take(i as int)),
            acc == dec_val(s@.take(i as int)),
            acc <= 65535,
        decreases n - i,
    {
        let c = s.get_char(i);
        proof {
            assert(s@.take(i + 1 as int).drop_last() =~= s@.take(i as int));
            assert(s@.take(i + 1 as int).last() == s@[i as int]);
        }
        let v = match hex_val_exec(c) {
            Some(v) if v < 10 => v,
            _ => {
                proof {
                    assert(!is_dec_digit(s@[i as int]));
                }
                return None;
            },
        };
        let next = acc * 10 + (v as u32);
        if next > 65535 {
            proof {
                if all_dec_digits(s@) {
                    lemma_dec_val_prefix(s@, i + 1);
                }
            }
            return None;
        }
        acc = next;
        i += 1;
    }
    proof {
        assert(s@.take(n as int) =~= s@);
    }
    Some(acc as u16)
}

/// Rendering an integer in decimal and reading it back is the identity;
/// the rendering is non-empty and all digits.
/// `hex_char_of` and `hex_val` are mutually inverse below 16.
pub proof fn lemma_hex_char_val(v: u8)
    requires
        v < 16,
    ensures
        hex_val(hex_char_of(v)) == v as int,
{
}

pub proof fn lemma_dec_round_trip(n: int)
    requires
        n >= 0,
    ensures
        dec_val(dec_str_of(n)) == n,
        all_dec_digits(dec_str_of(n)),
        dec_str_of(n).len() >= 1,
    decreases n,
{
    if n < 10 {
        lemma_hex_char_val(n as u8);
        assert(dec_str_of(n).drop_last() =~= Seq::<char>::empty());
        assert(dec_str_of(n).last() == hex_char_of(n as u8));
        assert(dec_val(Seq::<char>::empty()) == 0);
        assert(dec_val(dec_str_of(n)) == dec_val(dec_str_of(n).drop_last()) * 10 + hex_val(
            dec_str_of(n).last(),
        ));
        assert(dec_val(dec_str_of(n)) == n);
    } else {
        lemma_hex_char_val((n % 10) as u8);
        lemma_dec_round_trip(n / 10);
        assert(dec_str_of(n).drop_last() =~= dec_str_of(n / 10));
        assert(dec_str_of(n).last() == hex_char_of((n % 10) as u8));
        assert(dec_val(dec_str_of(n)) == dec_val(dec_str_of(n / 10)) * 10 + hex_val(
            hex_char_of((n % 10) as u8),
        ));
        assert(dec_val(dec_str_of(n)) == (n / 10) * 10 + (n % 10));
        assert(dec_val(dec_str_of(n)) == n);
        assert forall|j: int| 0 <= j < dec_str_of(n).len() implies is_dec_digit(
            #[trigger] dec_str_of(n)[j],
        ) by {
            if j < dec_str_of(n).len() - 1 {
                assert(dec_str_of(n)[j] == dec_str_of(n / 10)[j]);
            }
        }
    }
}

} // verus!

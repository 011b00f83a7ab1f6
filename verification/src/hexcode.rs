//! Hexadecimal spelling of bytes, and reading a 32-byte particle back from
//! its hex.

use vstd::prelude::*;
use crate::text::{chars_of, is_digit, push_char};

verus! {

/// The lower-case hexadecimal digit for a value below sixteen.
pub open spec fn hex_digit(v: int) -> char {
    if v < 10 {
        (v + 48) as char
    } else {
        (v - 10 + 97) as char
    }
}

/// Two lower-case hex digits per byte, most significant digit first.
pub open spec fn hex_spec(b: Seq<u8>) -> Seq<char> {
    Seq::new(
        2 * b.len(),
        |i: int|
            if i % 2 == 0 {
                hex_digit(b[i / 2] as int / 16)
            } else {
                hex_digit(b[i / 2] as int % 16)
            },
    )
}

pub open spec fn is_hex_char(c: char) -> bool {
    ||| is_digit(c)
    ||| 'a' <= c && c <= 'f'
    ||| 'A' <= c && c <= 'F'
}

/// The value of a hex digit of either case.
pub open spec fn hex_val(c: char) -> int {
    if is_digit(c) {
        c as int - 48
    } else if 'a' <= c && c <= 'f' {
        c as int - 97 + 10
    } else {
        c as int - 65 + 10
    }
}

pub open spec fn all_hex(t: Seq<char>) -> bool {
    forall|k: int| 0 <= k < t.len() ==> is_hex_char(#[trigger] t[k])
}

/// The text after a leading `0x`, if there is one.
pub open spec fn hex_body(s: Seq<char>) -> Seq<char> {
    if s.len() >= 2 && s[0] == '0' && s[1] == 'x' {
        s.skip(2)
    } else {
        s
    }
}

/// The hex digits `t`, left-padded with `0` to sixty-four digits.
pub open spec fn padded64(t: Seq<char>) -> Seq<char> {
    Seq::new((64 - t.len()) as nat, |i: int| '0') + t
}

/// The 32 bytes that sixty-four hex digits spell, two digits per byte.
pub open spec fn bytes_of_hex64(p: Seq<char>) -> Seq<u8> {
    Seq::new(32, |i: int| (hex_val(p[2 * i]) * 16 + hex_val(p[2 * i + 1])) as u8)
}

/// A particle written in hex: an optional `0x`, then one to sixty-four hex
/// digits of either case, read as a big-endian number of 32 bytes.
pub open spec fn parse_hex32_spec(s: Seq<char>) -> Option<Seq<u8>> {
    let t = hex_body(s);
    if 0 < t.len() <= 64 && all_hex(t) {
        Some(bytes_of_hex64(padded64(t)))
    } else {
        None
    }
}

pub fn is_hex_digit(c: char) -> (r: bool)
    ensures
        r == is_hex_char(c),
{
    ('0' <= c && c <= '9') || ('a' <= c && c <= 'f') || ('A' <= c && c <= 'F')
}

pub fn hex_value(c: char) -> (r: u8)
    requires
        is_hex_char(c),
    ensures
        r as int == hex_val(c),
        r < 16,
{
    if '0' <= c && c <= '9' {
        (c as u32 - 48) as u8
    } else if 'a' <= c && c <= 'f' {
        (c as u32 - 97 + 10) as u8
    } else {
        (c as u32 - 65 + 10) as u8
    }
}

pub fn hex_char(v: u8) -> (c: char)
    requires
        v < 16,
    ensures
        c == hex_digit(v as int),
{
    if v < 10 {
        (v + 48) as char
    } else {
        (v - 10 + 97) as char
    }
}

/// Lower-case hex of `bytes`, two digits per byte.
pub fn hex(bytes: &[u8]) -> (r: String)
    ensures
        r@ == hex_spec(bytes@),
{
    let mut out = String::new();
    let mut i: usize = 0;
    while i < bytes.len()
        invariant
            i <= bytes@.len(),
            out@ == hex_spec(bytes@.subrange(0, i as int)),
        decreases bytes@.len() - i,
    {
        let b = bytes[i];
        let ghost before = out@;
        push_char(&mut out, hex_char(b / 16));
        push_char(&mut out, hex_char(b % 16));
        i += 1;
        assert(out@ =~= hex_spec(bytes@.subrange(0, i as int))) by {
            assert(before =~= hex_spec(bytes@.subrange(0, i - 1)));
            assert forall|k: int| 0 <= k < out@.len() implies out@[k] == hex_spec(
                bytes@.subrange(0, i as int),
            )[k] by {
                if k < 2 * (i - 1) {
                    assert(out@[k] == before[k]);
                }
            }
        }
    }
    assert(bytes@.subrange(0, bytes@.len() as int) =~= bytes@);
    out
}

/// The hex digit at position `j` of the window `[lo, hi)` left-padded with
/// `0` to sixty-four digits.
fn padded_digit(cs: &Vec<char>, lo: usize, hi: usize, j: usize) -> (c: char)
    requires
        lo <= hi <= cs@.len(),
        hi - lo <= 64,
        j < 64,
    ensures
        c == padded64(cs@.subrange(lo as int, hi as int))[j as int],
{
    let pad = 64 - (hi - lo);
    if j < pad {
        '0'
    } else {
        cs[lo + (j - pad)]
    }
}

/// Reads a particle written in hex (see `parse_hex32_spec`).
pub fn parse_hex32(s: &str) -> (r: Option<[u8; 32]>)
    ensures
        match r {
            Some(p) => parse_hex32_spec(s@) == Some(p@),
            None => parse_hex32_spec(s@) is None,
        },
{
    let cs = chars_of(s);
    let n = cs.len();
    let lo: usize = if n >= 2 && cs[0] == '0' && cs[1] == 'x' {
        2
    } else {
        0
    };
    let ghost t = cs@.subrange(lo as int, n as int);
    assert(t =~= hex_body(s@));
    if lo == n || n - lo > 64 {
        return None;
    }
    let mut k = lo;
    while k < n
        invariant
            lo <= k <= n == cs@.len(),
            t == cs@.subrange(lo as int, n as int),
            t == hex_body(s@),
            forall|m: int| 0 <= m < k - lo ==> is_hex_char(#[trigger] t[m]),
        decreases n - k,
    {
        if !is_hex_digit(cs[k]) {
            assert(!is_hex_char(t[k - lo]));
            return None;
        }
        k += 1;
    }
    assert(all_hex(t));
    let ghost p = padded64(t);
    assert forall|m: int| 0 <= m < 64 implies is_hex_char(#[trigger] p[m]) by {
        if m >= 64 - t.len() {
            assert(p[m] == t[m - (64 - t.len())]);
        }
    }
    let mut out = [0u8; 32];
    let mut i: usize = 0;
    while i < 32
        invariant
            i <= 32,
            lo < n <= cs@.len(),
            n - lo <= 64,
            t == cs@.subrange(lo as int, n as int),
            p == padded64(t),
            forall|m: int| 0 <= m < 64 ==> is_hex_char(#[trigger] p[m]),
            forall|m: int| 0 <= m < i ==> out@[m] == bytes_of_hex64(p)[m],
        decreases 32 - i,
    {
        let hi_digit = hex_value(padded_digit(&cs, lo, n, 2 * i));
        let lo_digit = hex_value(padded_digit(&cs, lo, n, 2 * i + 1));
        out[i] = hi_digit * 16 + lo_digit;
        i += 1;
    }
    assert(out@ =~= bytes_of_hex64(p));
    Some(out)
}

pub proof fn lemma_hex_digit_roundtrip(v: int)
    requires
        0 <= v < 16,
    ensures
        is_hex_char(hex_digit(v)),
        hex_val(hex_digit(v)) == v,
{
}

/// Writing 32 bytes in hex and reading them back as a particle gives the
/// same bytes, with or without a `0x` in front.
pub proof fn law_hex_roundtrip(b: Seq<u8>)
    requires
        b.len() == 32,
    ensures
        parse_hex32_spec(hex_spec(b)) == Some(b),
        parse_hex32_spec(seq!['0', 'x'] + hex_spec(b)) == Some(b),
{
    let h = hex_spec(b);
    assert forall|k: int| 0 <= k < h.len() implies is_hex_char(#[trigger] h[k]) by {
        if k % 2 == 0 {
            lemma_hex_digit_roundtrip(b[k / 2] as int / 16);
        } else {
            lemma_hex_digit_roundtrip(b[k / 2] as int % 16);
        }
    }
    assert(h[1] != 'x') by {
        lemma_hex_digit_roundtrip(b[0] as int % 16);
    }
    assert(hex_body(h) == h);
    assert(padded64(h) =~= h);
    assert forall|i: int| 0 <= i < 32 implies #[trigger] bytes_of_hex64(h)[i] == b[i] by {
        lemma_hex_digit_roundtrip(b[i] as int / 16);
        lemma_hex_digit_roundtrip(b[i] as int % 16);
        assert(h[2 * i] == hex_digit(b[i] as int / 16));
        assert(h[2 * i + 1] == hex_digit(b[i] as int % 16));
    }
    assert(bytes_of_hex64(h) =~= b);
    let x = seq!['0', 'x'] + h;
    assert(hex_body(x) =~= h);
}

/// The hex of `n` bytes is `2 n` lower-case hex digits.
pub proof fn law_hex_shape(b: Seq<u8>)
    ensures
        hex_spec(b).len() == 2 * b.len(),
        forall|k: int|
            0 <= k < hex_spec(b).len() ==> {
                let c = #[trigger] hex_spec(b)[k];
                is_digit(c) || ('a' <= c && c <= 'f')
            },
{
    assert forall|k: int| 0 <= k < hex_spec(b).len() implies {
        let c = #[trigger] hex_spec(b)[k];
        is_digit(c) || ('a' <= c && c <= 'f')
    } by {
        if k % 2 == 0 {
            lemma_hex_digit_roundtrip(b[k / 2] as int / 16);
        } else {
            lemma_hex_digit_roundtrip(b[k / 2] as int % 16);
        }
    }
}

} // verus!

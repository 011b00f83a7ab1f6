//! The framing of a signal log, checked before the log is handed to the
//! frame decoder. A frame is `0x1F | sigil | render | length | payload`,
//! the length in unsigned LEB128. The decoder scans for the marker, reads
//! the length, and adds it to the payload's start; a length close to 2^64
//! makes that sum overflow. A log is well framed when the scan that the
//! decoder makes never meets such a length.

use vstd::prelude::*;

verus! {

/// The frame marker, ASCII unit separator.
pub open spec fn marker() -> u8 {
    0x1f
}

/// Index of the first marker in `b` at or after `i`, or the length of `b`.
pub open spec fn find_marker(b: Seq<u8>, i: int) -> int
    decreases b.len() - i,
{
    if i >= b.len() {
        b.len() as int
    } else if b[i] == marker() {
        i
    } else {
        find_marker(b, i + 1)
    }
}

pub proof fn lemma_find_marker(b: Seq<u8>, i: int)
    requires
        0 <= i <= b.len(),
    ensures
        i <= find_marker(b, i) <= b.len(),
    decreases b.len() - i,
{
    if i < b.len() && b[i] != marker() {
        lemma_find_marker(b, i + 1);
    }
}

pub open spec fn pow128(k: nat) -> nat
    decreases k,
{
    if k == 0 {
        1
    } else {
        128 * pow128((k - 1) as nat)
    }
}

/// The LEB128 number at `i`, as the tape reader reads it, having read `k`
/// groups of seven bits that add up to `acc`: at most ten bytes, the last
/// one without its high bit. Gives the sum of the groups and the index
/// after the number; `None` when the bytes run out or a tenth byte still
/// has its high bit.
pub open spec fn leb_from(b: Seq<u8>, i: int, k: nat, acc: nat) -> Option<(nat, int)>
    decreases b.len() - i,
{
    if i < 0 || i >= b.len() {
        None
    } else {
        let sum = acc + (b[i] % 128) as nat * pow128(k);
        if b[i] < 128 {
            Some((sum, i + 1))
        } else if k + 1 >= 10 {
            None
        } else {
            leb_from(b, i + 1, k + 1, sum)
        }
    }
}

pub proof fn lemma_leb_next(b: Seq<u8>, i: int, k: nat, acc: nat)
    ensures
        leb_from(b, i, k, acc) matches Some((v, next)) ==> i < next <= b.len(),
    decreases b.len() - i,
{
    if 0 <= i < b.len() && b[i] >= 128 && k + 1 < 10 {
        lemma_leb_next(b, i + 1, k + 1, acc + (b[i] % 128) as nat * pow128(k));
    }
}

/// The length the reader takes from a LEB128 sum: its low 64 bits.
pub open spec fn low64(v: nat) -> nat {
    v % 0x1_0000_0000_0000_0000
}

/// Whether the decoder's scan of `b` from `pos` stays clear of an overflowing
/// frame end. The scan skips to the next
/// marker; it stops where fewer than four bytes remain, where the length
/// does not decode, or where the frame runs past the end of the bytes.
pub open spec fn scan_ok(b: Seq<u8>, pos: int) -> bool
    decreases b.len() - pos,
{
    if pos < 0 || pos >= b.len() {
        true
    } else {
        let m = find_marker(b, pos);
        if m >= b.len() || b.len() - m < 4 {
            true
        } else {
            match leb_from(b, m + 3, 0, 0) {
                None => true,
                Some((raw, start)) => {
                    let end = start + low64(raw);
                    if end > usize::MAX {
                        false
                    } else if end > b.len() {
                        true
                    } else {
                        proof {
                            lemma_find_marker(b, pos);
                            lemma_leb_next(b, m + 3, 0, 0);
                        }
                        scan_ok(b, end)
                    }
                },
            }
        }
    }
}

/// A log that the frame decoder reads without overflow.
pub open spec fn well_framed_spec(b: Seq<u8>) -> bool {
    scan_ok(b, 0)
}

proof fn lemma_pow128_bound(k: nat)
    requires
        k <= 9,
    ensures
        pow128(k) <= 0x8000_0000_0000_0000,
    decreases 9 - k,
{
    if k < 9 {
        lemma_pow128_bound(k + 1);
    } else {
        assert(pow128(9) == 0x8000_0000_0000_0000) by {
            reveal_with_fuel(pow128, 10);
        }
    }
}

/// The LEB128 number at `i` (see `leb_from`).
fn read_leb(b: &[u8], i: usize) -> (r: Option<(u128, usize)>)
    ensures
        match r {
            Some((v, next)) => leb_from(b@, i as int, 0, 0) == Some((v as nat, next as int)),
            None => leb_from(b@, i as int, 0, 0) is None,
        },
{
    let n = b.len();
    let mut j = i;
    let mut k: usize = 0;
    let mut acc: u128 = 0;
    let mut mult: u128 = 1;
    while j < n
        invariant
            n == b@.len(),
            k <= 9,
            mult == pow128(k as nat),
            acc < mult,
            leb_from(b@, i as int, 0, 0) == leb_from(b@, j as int, k as nat, acc as nat),
        decreases n - j,
    {
        proof {
            lemma_pow128_bound(k as nat);
        }
        let byte = b[j];
        let low = (byte % 128) as u128;
        assert(acc + low * mult < 128 * mult) by (nonlinear_arith)
            requires
                acc < mult,
                low < 128,
        ;
        let sum = acc + low * mult;
        if byte < 128 {
            return Some((sum, j + 1));
        }
        if k + 1 >= 10 {
            return None;
        }
        acc = sum;
        mult = mult * 128;
        k += 1;
        j += 1;
    }
    None
}

/// Checks `well_framed_spec`.
pub fn well_framed(b: &[u8]) -> (r: bool)
    ensures
        r == well_framed_spec(b@),
{
    let n = b.len();
    let mut pos: usize = 0;
    while pos < n
        invariant
            pos <= n == b@.len(),
            well_framed_spec(b@) == scan_ok(b@, pos as int),
        decreases n - pos,
    {
        let mut m = pos;
        while m < n && b[m] != 0x1f
            invariant
                pos <= m <= n == b@.len(),
                find_marker(b@, pos as int) == find_marker(b@, m as int),
            decreases n - m,
        {
            m += 1;
        }
        if m == n || n - m < 4 {
            return true;
        }
        match read_leb(b, m + 3) {
            None => {
                return true;
            },
            Some((raw, start)) => {
                proof {
                    lemma_leb_next(b@, m + 3, 0, 0);
                }
                let v: u128 = raw % 0x1_0000_0000_0000_0000u128;
                if start as u128 + v > usize::MAX as u128 {
                    return false;
                }
                let end = start + v as usize;
                if end > n {
                    return true;
                }
                pos = end;
            },
        }
    }
    true
}

} // verus!

//! Character-level text handling shared by the wire parsers: whitespace
//! trimming, searching, line splitting, decimal numbers and building strings.
//!
//! Text is modelled as `Seq<char>`; executable code works on a `Vec<char>`
//! holding the characters of the input and on half-open windows `[lo, hi)`
//! into it.

use vstd::prelude::*;

verus! {

// ── whitespace and trimming ─────────────────────────────────────────────────

/// The characters with the Unicode `White_Space` property, which is what
/// `char::is_whitespace` (and so `str::trim`) recognises.
pub open spec fn is_ws(c: char) -> bool {
    ||| '\t' <= c && c <= '\r'
    ||| c == ' '
    ||| c == '\u{85}'
    ||| c == '\u{a0}'
    ||| c == '\u{1680}'
    ||| '\u{2000}' <= c && c <= '\u{200a}'
    ||| c == '\u{2028}'
    ||| c == '\u{2029}'
    ||| c == '\u{202f}'
    ||| c == '\u{205f}'
    ||| c == '\u{3000}'
}

/// The text without its leading whitespace.
pub open spec fn trim_start(s: Seq<char>) -> Seq<char>
    decreases s.len(),
{
    if s.len() > 0 && is_ws(s[0]) {
        trim_start(s.drop_first())
    } else {
        s
    }
}

/// The text without its trailing whitespace.
pub open spec fn trim_end(s: Seq<char>) -> Seq<char>
    decreases s.len(),
{
    if s.len() > 0 && is_ws(s.last()) {
        trim_end(s.drop_last())
    } else {
        s
    }
}

/// The text without leading and trailing whitespace.
pub open spec fn trim(s: Seq<char>) -> Seq<char> {
    trim_end(trim_start(s))
}

pub fn is_whitespace(c: char) -> (r: bool)
    ensures
        r == is_ws(c),
{
    ('\t' <= c && c <= '\r') || c == ' ' || c == '\u{85}' || c == '\u{a0}' || c == '\u{1680}'
        || ('\u{2000}' <= c && c <= '\u{200a}') || c == '\u{2028}' || c == '\u{2029}' || c
        == '\u{202f}' || c == '\u{205f}' || c == '\u{3000}'
}

/// Start of the window `[lo, hi)` once its leading whitespace is dropped.
pub fn skip_ws(cs: &Vec<char>, lo: usize, hi: usize) -> (r: usize)
    requires
        lo <= hi <= cs@.len(),
    ensures
        lo <= r <= hi,
        cs@.subrange(r as int, hi as int) == trim_start(cs@.subrange(lo as int, hi as int)),
{
    let mut i = lo;
    while i < hi && is_whitespace(cs[i])
        invariant
            lo <= i <= hi <= cs@.len(),
            trim_start(cs@.subrange(i as int, hi as int)) == trim_start(
                cs@.subrange(lo as int, hi as int),
            ),
        decreases hi - i,
    {
        assert(cs@.subrange(i as int, hi as int).drop_first() =~= cs@.subrange(
            i + 1,
            hi as int,
        ));
        i += 1;
    }
    i
}

/// End of the window `[lo, hi)` once its trailing whitespace is dropped.
pub fn trim_end_at(cs: &Vec<char>, lo: usize, hi: usize) -> (r: usize)
    requires
        lo <= hi <= cs@.len(),
    ensures
        lo <= r <= hi,
        cs@.subrange(lo as int, r as int) == trim_end(cs@.subrange(lo as int, hi as int)),
{
    let mut j = hi;
    while j > lo && is_whitespace(cs[j - 1])
        invariant
            lo <= j <= hi <= cs@.len(),
            trim_end(cs@.subrange(lo as int, j as int)) == trim_end(
                cs@.subrange(lo as int, hi as int),
            ),
        decreases j - lo,
    {
        assert(cs@.subrange(lo as int, j as int).drop_last() =~= cs@.subrange(
            lo as int,
            j - 1,
        ));
        j -= 1;
    }
    j
}

/// The window `[lo, hi)` with whitespace dropped at both ends.
pub fn trim_window(cs: &Vec<char>, lo: usize, hi: usize) -> (r: (usize, usize))
    requires
        lo <= hi <= cs@.len(),
    ensures
        lo <= r.0 <= r.1 <= hi,
        cs@.subrange(r.0 as int, r.1 as int) == trim(cs@.subrange(lo as int, hi as int)),
{
    let a = skip_ws(cs, lo, hi);
    let b = trim_end_at(cs, a, hi);
    (a, b)
}

// ── characters of a str, comparing against literals ─────────────────────────

/// The characters of `s`, in order.
pub fn chars_of(s: &str) -> (v: Vec<char>)
    ensures
        v@ == s@,
{
    let n = s.unicode_len();
    let mut v: Vec<char> = Vec::new();
    let mut i: usize = 0;
    while i < n
        invariant
            n == s@.len(),
            i <= n,
            v@ == s@.subrange(0, i as int),
        decreases n - i,
    {
        v.push(s.get_char(i));
        i += 1;
        assert(v@ =~= s@.subrange(0, i as int));
    }
    assert(v@ =~= s@);
    v
}

/// Whether the window `[lo, hi)` of `cs` spells exactly `lit`.
pub fn window_is(cs: &Vec<char>, lo: usize, hi: usize, lit: &str) -> (r: bool)
    requires
        lo <= hi <= cs@.len(),
    ensures
        r == (cs@.subrange(lo as int, hi as int) == lit@),
{
    let n = lit.unicode_len();
    if hi - lo != n {
        return false;
    }
    let mut i: usize = 0;
    while i < n
        invariant
            n == lit@.len(),
            hi - lo == n,
            lo <= hi <= cs@.len(),
            i <= n,
            forall|k: int| 0 <= k < i ==> cs@[lo + k] == lit@[k],
        decreases n - i,
    {
        if cs[lo + i] != lit.get_char(i) {
            assert(cs@.subrange(lo as int, hi as int)[i as int] != lit@[i as int]);
            return false;
        }
        i += 1;
    }
    assert(cs@.subrange(lo as int, hi as int) =~= lit@);
    true
}

/// Whether the window `[lo, hi)` of `cs` begins with `lit`.
pub fn window_starts_with(cs: &Vec<char>, lo: usize, hi: usize, lit: &str) -> (r: bool)
    requires
        lo <= hi <= cs@.len(),
    ensures
        r == lit@.is_prefix_of(cs@.subrange(lo as int, hi as int)),
{
    let n = lit.unicode_len();
    if hi - lo < n {
        return false;
    }
    let r = window_is(cs, lo, lo + n, lit);
    assert(cs@.subrange(lo as int, hi as int).subrange(0, n as int) =~= cs@.subrange(
        lo as int,
        lo + n,
    ));
    r
}

/// Whether two strs hold the same text.
pub fn same_text(a: &str, b: &str) -> (r: bool)
    ensures
        r == (a@ == b@),
{
    let cs = chars_of(a);
    assert(cs@.subrange(0, cs@.len() as int) =~= a@);
    window_is(&cs, 0, cs.len(), b)
}

// ── searching ───────────────────────────────────────────────────────────────

/// Index of the first `c` in `s` at or after `i`, or the length of `s`.
pub open spec fn find_char(s: Seq<char>, c: char, i: int) -> int
    decreases s.len() - i,
{
    if i >= s.len() {
        s.len() as int
    } else if s[i] == c {
        i
    } else {
        find_char(s, c, i + 1)
    }
}

/// Position, counted from `lo`, of the first `c` in the window `[lo, hi)`,
/// or the window's length.
pub fn find_in_window(cs: &Vec<char>, lo: usize, hi: usize, c: char) -> (r: usize)
    requires
        lo <= hi <= cs@.len(),
    ensures
        lo <= r <= hi,
        r - lo == find_char(cs@.subrange(lo as int, hi as int), c, 0),
{
    let ghost w = cs@.subrange(lo as int, hi as int);
    let mut i = lo;
    while i < hi && cs[i] != c
        invariant
            lo <= i <= hi <= cs@.len(),
            w == cs@.subrange(lo as int, hi as int),
            find_char(w, c, 0) == find_char(w, c, i - lo),
        decreases hi - i,
    {
        i += 1;
    }
    i
}

/// Index of the first occurrence of `p` in `s` at or after `i`.
pub open spec fn find_seq(s: Seq<char>, p: Seq<char>, i: int) -> Option<int>
    decreases s.len() + 1 - i,
{
    if i < 0 || i + p.len() > s.len() {
        None
    } else if s.subrange(i, i + p.len()) == p {
        Some(i)
    } else {
        find_seq(s, p, i + 1)
    }
}

/// Whether `p` stands in `cs` at `lo`.
fn pattern_at(cs: &Vec<char>, lo: usize, p: &Vec<char>) -> (r: bool)
    requires
        lo + p@.len() <= cs@.len(),
    ensures
        r == (cs@.subrange(lo as int, lo + p@.len()) == p@),
{
    let m = p.len();
    let mut k: usize = 0;
    while k < m
        invariant
            m == p@.len(),
            lo + m <= cs.len(),
            k <= m,
            forall|j: int| 0 <= j < k ==> cs@[lo + j] == p@[j],
        decreases m - k,
    {
        if cs[lo + k] != p[k] {
            assert(cs@.subrange(lo as int, lo + m)[k as int] != p@[k as int]);
            return false;
        }
        k += 1;
    }
    assert(cs@.subrange(lo as int, lo + m) =~= p@);
    true
}

/// The first occurrence of `p` in `cs` (what `str::find` gives).
pub fn find_pattern(cs: &Vec<char>, p: &Vec<char>) -> (r: Option<usize>)
    ensures
        match r {
            Some(i) => find_seq(cs@, p@, 0) == Some(i as int) && i + p@.len() <= cs@.len(),
            None => find_seq(cs@, p@, 0) is None,
        },
{
    let n = cs.len();
    let m = p.len();
    if m > n {
        return None;
    }
    if m == 0 {
        assert(cs@.subrange(0, 0) =~= p@);
        return Some(0);
    }
    let mut i: usize = 0;
    while i <= n - m
        invariant
            n == cs@.len(),
            m == p@.len(),
            1 <= m <= n,
            i <= n - m + 1,
            find_seq(cs@, p@, 0) == find_seq(cs@, p@, i as int),
        decreases n - m + 1 - i,
    {
        if pattern_at(cs, i, p) {
            return Some(i);
        }
        i += 1;
    }
    None
}

// ── lines ───────────────────────────────────────────────────────────────────

/// The pieces of `s` between line feeds, scanning from `i` inside the piece
/// that began at `start`.
pub open spec fn pieces_from(s: Seq<char>, start: int, i: int) -> Seq<Seq<char>>
    decreases s.len() - i,
{
    if i >= s.len() {
        seq![s.subrange(start, s.len() as int)]
    } else if s[i] == '\n' {
        seq![s.subrange(start, i)] + pieces_from(s, i + 1, i + 1)
    } else {
        pieces_from(s, start, i + 1)
    }
}

/// The lines of `s`: the pieces between line feeds, in order. A `\r` before a
/// line feed stays in its line and a text that ends in a line feed has an
/// empty last line; every reader in this crate trims its lines and passes
/// over empty ones, so they read the lines as `str::lines` yields them.
pub open spec fn lines(s: Seq<char>) -> Seq<Seq<char>> {
    pieces_from(s, 0, 0)
}

// ── decimal numbers ─────────────────────────────────────────────────────────

pub open spec fn is_digit(c: char) -> bool {
    '0' <= c && c <= '9'
}

pub open spec fn all_digits(d: Seq<char>) -> bool {
    forall|k: int| 0 <= k < d.len() ==> is_digit(#[trigger] d[k])
}

/// The number that a string of decimal digits spells.
pub open spec fn digits_value(d: Seq<char>) -> nat
    decreases d.len(),
{
    if d.len() == 0 {
        0
    } else {
        digits_value(d.drop_last()) * 10 + (d.last() as int - 48) as nat
    }
}

/// The digits of an unsigned number: the text after one leading `+`.
pub open spec fn unsigned_digits(s: Seq<char>) -> Seq<char> {
    if s.len() > 0 && s[0] == '+' {
        s.drop_first()
    } else {
        s
    }
}

/// What `str::parse::<u64>` gives: an optional `+`, then one or more ASCII
/// digits whose value fits in a `u64`.
pub open spec fn parse_u64_spec(s: Seq<char>) -> Option<u64> {
    let d = unsigned_digits(s);
    if d.len() > 0 && all_digits(d) && digits_value(d) <= u64::MAX {
        Some(digits_value(d) as u64)
    } else {
        None
    }
}

/// What `str::parse::<i8>` gives: an optional sign, then one or more ASCII
/// digits whose signed value lies in `-128..=127`.
pub open spec fn parse_i8_spec(s: Seq<char>) -> Option<i8> {
    if s.len() > 1 && s[0] == '-' {
        let d = s.drop_first();
        if all_digits(d) && digits_value(d) <= 128 {
            Some((0 - digits_value(d)) as i8)
        } else {
            None
        }
    } else {
        let d = unsigned_digits(s);
        if d.len() > 0 && all_digits(d) && digits_value(d) <= 127 {
            Some(digits_value(d) as i8)
        } else {
            None
        }
    }
}

/// The text, or `default` when there is none.
pub open spec fn text_or(o: Option<Seq<char>>, default: Seq<char>) -> Seq<char> {
    match o {
        Some(v) => v,
        None => default,
    }
}

/// `parse_u64_spec`, with zero when the text is no such number.
pub open spec fn u64_or_zero(s: Seq<char>) -> u64 {
    match parse_u64_spec(s) {
        Some(n) => n,
        None => 0,
    }
}

pub proof fn lemma_digits_step(d: Seq<char>, i: int)
    requires
        0 <= i < d.len(),
    ensures
        digits_value(d.take(i + 1)) == digits_value(d.take(i)) * 10 + (d[i] as int - 48) as nat,
{
    assert(d.take(i + 1).drop_last() =~= d.take(i));
}

pub proof fn lemma_digits_prefix_le(d: Seq<char>, k: int)
    requires
        0 <= k <= d.len(),
    ensures
        digits_value(d.take(k)) <= digits_value(d),
    decreases d.len(),
{
    if k < d.len() {
        assert(d.drop_last().take(k) =~= d.take(k));
        lemma_digits_prefix_le(d.drop_last(), k);
    } else {
        assert(d.take(k) =~= d);
    }
}

/// The value of the digits in the window `[lo, hi)` when they are all ASCII
/// digits and their value is at most `limit`; `None` otherwise.
pub fn digits_in_window(cs: &Vec<char>, lo: usize, hi: usize, limit: u64) -> (r: Option<u64>)
    requires
        lo <= hi <= cs@.len(),
    ensures
        ({
            let d = cs@.subrange(lo as int, hi as int);
            match r {
                Some(v) => all_digits(d) && digits_value(d) <= limit && v == digits_value(d),
                None => !(all_digits(d) && digits_value(d) <= limit),
            }
        }),
{
    let ghost d = cs@.subrange(lo as int, hi as int);
    let mut acc: u64 = 0;
    let mut i = lo;
    while i < hi
        invariant
            lo <= i <= hi <= cs@.len(),
            d == cs@.subrange(lo as int, hi as int),
            all_digits(d.take(i - lo)),
            acc == digits_value(d.take(i - lo)),
            acc <= limit,
        decreases hi - i,
    {
        let c = cs[i];
        proof {
            lemma_digits_step(d, i - lo);
        }
        if !('0' <= c && c <= '9') {
            assert(!is_digit(d[i - lo]));
            return None;
        }
        let digit = (c as u32 - 48) as u64;
        let next: u128 = acc as u128 * 10 + digit as u128;
        assert(d.take(i - lo + 1) =~= d.take(i - lo).push(d[i - lo]));
        if next > limit as u128 {
            proof {
                if all_digits(d) {
                    lemma_digits_prefix_le(d, i - lo + 1);
                }
            }
            return None;
        }
        acc = next as u64;
        i += 1;
    }
    assert(d.take(hi - lo) =~= d);
    Some(acc)
}

/// `str::parse::<u64>` on the window `[lo, hi)`.
pub fn parse_u64_window(cs: &Vec<char>, lo: usize, hi: usize) -> (r: Option<u64>)
    requires
        lo <= hi <= cs@.len(),
    ensures
        r == parse_u64_spec(cs@.subrange(lo as int, hi as int)),
{
    let ghost s = cs@.subrange(lo as int, hi as int);
    let start = if lo < hi && cs[lo] == '+' {
        lo + 1
    } else {
        lo
    };
    assert(cs@.subrange(start as int, hi as int) =~= unsigned_digits(s));
    if start == hi {
        return None;
    }
    digits_in_window(cs, start, hi, u64::MAX)
}

/// `str::parse::<i8>` on the window `[lo, hi)`.
pub fn parse_i8_window(cs: &Vec<char>, lo: usize, hi: usize) -> (r: Option<i8>)
    requires
        lo <= hi <= cs@.len(),
    ensures
        r == parse_i8_spec(cs@.subrange(lo as int, hi as int)),
{
    let ghost s = cs@.subrange(lo as int, hi as int);
    if hi - lo > 1 && cs[lo] == '-' {
        assert(cs@.subrange(lo + 1, hi as int) =~= s.drop_first());
        match digits_in_window(cs, lo + 1, hi, 128) {
            Some(v) => {
                let r: i8 = if v == 128 {
                    -128
                } else {
                    -(v as i8)
                };
                Some(r)
            },
            None => None,
        }
    } else {
        let start = if lo < hi && cs[lo] == '+' {
            lo + 1
        } else {
            lo
        };
        assert(cs@.subrange(start as int, hi as int) =~= unsigned_digits(s));
        if start == hi {
            return None;
        }
        match digits_in_window(cs, start, hi, 127) {
            Some(v) => Some(v as i8),
            None => None,
        }
    }
}

/// `str::parse::<u64>` on a whole str.
pub fn parse_u64(s: &str) -> (r: Option<u64>)
    ensures
        r == parse_u64_spec(s@),
{
    let cs = chars_of(s);
    assert(cs@.subrange(0, cs@.len() as int) =~= s@);
    parse_u64_window(&cs, 0, cs.len())
}

/// `str::parse::<i8>` on a whole str.
pub fn parse_i8(s: &str) -> (r: Option<i8>)
    ensures
        r == parse_i8_spec(s@),
{
    let cs = chars_of(s);
    assert(cs@.subrange(0, cs@.len() as int) =~= s@);
    parse_i8_window(&cs, 0, cs.len())
}

/// The decimal digit for a value below ten.
pub open spec fn digit_char(v: nat) -> char {
    (v + 48) as char
}

/// The decimal spelling of `n`, without leading zeros.
pub open spec fn decimal(n: nat) -> Seq<char>
    decreases n,
{
    if n < 10 {
        seq![digit_char(n)]
    } else {
        decimal(n / 10).push(digit_char(n % 10))
    }
}

// ── building strings ────────────────────────────────────────────────────────

/// `String::push`: appends one character.
#[verifier::external_body]
pub(crate) fn push_char(s: &mut String, c: char)
    ensures
        final(s)@ == old(s)@.push(c),
{
    s.push(c);
}

/// Appends the window `[lo, hi)` of `cs` to `out`.
pub fn push_window(out: &mut String, cs: &Vec<char>, lo: usize, hi: usize)
    requires
        lo <= hi <= cs@.len(),
    ensures
        final(out)@ == old(out)@ + cs@.subrange(lo as int, hi as int),
{
    let ghost start = out@;
    let mut i = lo;
    while i < hi
        invariant
            lo <= i <= hi <= cs@.len(),
            out@ == start + cs@.subrange(lo as int, i as int),
        decreases hi - i,
    {
        push_char(out, cs[i]);
        i += 1;
        assert(out@ =~= start + cs@.subrange(lo as int, i as int));
    }
}

/// A new string holding the window `[lo, hi)` of `cs`.
pub fn string_of(cs: &Vec<char>, lo: usize, hi: usize) -> (r: String)
    requires
        lo <= hi <= cs@.len(),
    ensures
        r@ == cs@.subrange(lo as int, hi as int),
{
    let mut out = String::new();
    push_window(&mut out, cs, lo, hi);
    assert(out@ =~= cs@.subrange(lo as int, hi as int));
    out
}

/// Appends the decimal spelling of `n` to `out`.
pub fn push_decimal(out: &mut String, n: u64)
    ensures
        final(out)@ == old(out)@ + decimal(n as nat),
    decreases n,
{
    let ghost start = out@;
    if n >= 10 {
        push_decimal(out, n / 10);
    }
    let d: u64 = n % 10;
    let c = ((d as u8) + 48) as char;
    assert(c == digit_char((n % 10) as nat));
    push_char(out, c);
    proof {
        if n < 10 {
            assert(n % 10 == n);
        }
    }
    assert(out@ =~= start + decimal(n as nat));
}

} // verus!

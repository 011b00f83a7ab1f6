//! The status wire of a peer. The native form is a cybermark particle:
//! `key: value` frontmatter lines between `---` fences. Peers still on soft3
//! before 0.7 answer in JSON, of which a few known fields are read by plain
//! string search.

use vstd::prelude::*;
use crate::text::{
    chars_of, decimal, find_char, find_in_window, find_pattern, find_seq, is_digit, is_ws, lines,
    parse_u64_window, pieces_from, push_decimal, skip_ws, string_of, trim, trim_start,
    text_or, trim_window, u64_or_zero, window_is, window_starts_with,
};

verus! {

/// The chain this node serves.
pub const CHAIN_ID: &'static str = "spacepussy-test";

/// What a peer reports about itself.
pub struct Status {
    pub chain_id: String,
    pub moniker: String,
    pub engine: String,
    pub latest_height: u64,
    pub bbg_root: String,
    pub signals: u64,
    pub particles: u64,
    pub axons: u64,
    pub catching_up: bool,
}

/// A `Status` with its strings as character sequences.
pub struct StatusView {
    pub chain_id: Seq<char>,
    pub moniker: Seq<char>,
    pub engine: Seq<char>,
    pub latest_height: u64,
    pub bbg_root: Seq<char>,
    pub signals: u64,
    pub particles: u64,
    pub axons: u64,
    pub catching_up: bool,
}

impl View for Status {
    type V = StatusView;

    open spec fn view(&self) -> StatusView {
        StatusView {
            chain_id: self.chain_id@,
            moniker: self.moniker@,
            engine: self.engine@,
            latest_height: self.latest_height,
            bbg_root: self.bbg_root@,
            signals: self.signals,
            particles: self.particles,
            axons: self.axons,
            catching_up: self.catching_up,
        }
    }
}

/// The status with every string empty, every count zero and not catching up.
pub open spec fn empty_status() -> StatusView {
    StatusView {
        chain_id: Seq::empty(),
        moniker: Seq::empty(),
        engine: Seq::empty(),
        latest_height: 0,
        bbg_root: Seq::empty(),
        signals: 0,
        particles: 0,
        axons: 0,
        catching_up: false,
    }
}

impl Status {
    pub fn empty() -> (s: Self)
        ensures
            s@ == empty_status(),
    {
        Status {
            chain_id: String::new(),
            moniker: String::new(),
            engine: String::new(),
            latest_height: 0,
            bbg_root: String::new(),
            signals: 0,
            particles: 0,
            axons: 0,
            catching_up: false,
        }
    }
}

// ── cybermark ───────────────────────────────────────────────────────────────

/// The frontmatter keys that a status particle may carry.
pub open spec fn is_known_key(k: Seq<char>) -> bool {
    ||| k == "chain"@
    ||| k == "moniker"@
    ||| k == "engine"@
    ||| k == "height"@
    ||| k == "bbg-root"@
    ||| k == "signals"@
    ||| k == "particles"@
    ||| k == "axons"@
    ||| k == "catching-up"@
}

/// The status after a frontmatter line `k: v`. Counts that are not numbers
/// read as zero; `catching-up` holds when the value is `true`.
pub open spec fn set_field(st: StatusView, k: Seq<char>, v: Seq<char>) -> StatusView {
    if k == "chain"@ {
        StatusView { chain_id: v, ..st }
    } else if k == "moniker"@ {
        StatusView { moniker: v, ..st }
    } else if k == "engine"@ {
        StatusView { engine: v, ..st }
    } else if k == "height"@ {
        StatusView { latest_height: u64_or_zero(v), ..st }
    } else if k == "bbg-root"@ {
        StatusView { bbg_root: v, ..st }
    } else if k == "signals"@ {
        StatusView { signals: u64_or_zero(v), ..st }
    } else if k == "particles"@ {
        StatusView { particles: u64_or_zero(v), ..st }
    } else if k == "axons"@ {
        StatusView { axons: u64_or_zero(v), ..st }
    } else if k == "catching-up"@ {
        StatusView { catching_up: v == "true"@, ..st }
    } else {
        st
    }
}

/// Where a reading of the frontmatter stands: the status so far, whether
/// the opening fence was seen, whether the closing one was, and whether
/// any known key was read.
pub struct FrontState {
    pub status: StatusView,
    pub inside: bool,
    pub closed: bool,
    pub known: bool,
}

pub open spec fn front_start() -> FrontState {
    FrontState { status: empty_status(), inside: false, closed: false, known: false }
}

/// One line of a cybermark particle. After the closing fence nothing
/// changes; lines before the opening fence are passed over; inside, a line
/// with a `:` splits at its first `:` into a trimmed key and value.
pub open spec fn front_step(fs: FrontState, line: Seq<char>) -> FrontState {
    let t = trim(line);
    if fs.closed {
        fs
    } else if t == "---"@ {
        if fs.inside {
            FrontState { closed: true, ..fs }
        } else {
            FrontState { inside: true, ..fs }
        }
    } else if !fs.inside {
        fs
    } else {
        let c = find_char(t, ':', 0);
        if c >= t.len() {
            fs
        } else {
            let k = trim(t.take(c));
            let v = trim(t.skip(c + 1));
            if is_known_key(k) {
                FrontState { status: set_field(fs.status, k, v), known: true, ..fs }
            } else {
                fs
            }
        }
    }
}

pub open spec fn front_fold(ls: Seq<Seq<char>>, fs: FrontState) -> FrontState
    decreases ls.len(),
{
    if ls.len() == 0 {
        fs
    } else {
        front_fold(ls.drop_first(), front_step(fs, ls[0]))
    }
}

/// A cybermark status: the fields read from the frontmatter, when at least
/// one known key was there.
pub open spec fn parse_cybermark_spec(body: Seq<char>) -> Option<StatusView> {
    let fs = front_fold(lines(body), front_start());
    if fs.known {
        Some(fs.status)
    } else {
        None
    }
}

struct Front {
    status: Status,
    inside: bool,
    closed: bool,
    known: bool,
}

impl View for Front {
    type V = FrontState;

    closed spec fn view(&self) -> FrontState {
        FrontState {
            status: self.status@,
            inside: self.inside,
            closed: self.closed,
            known: self.known,
        }
    }
}

/// Sets the field named by the key window from the value window; tells
/// whether the key is a known one.
fn apply_field(st: &mut Status, cs: &Vec<char>, ka: usize, kb: usize, va: usize, vb: usize) -> (known:
    bool)
    requires
        ka <= kb <= cs@.len(),
        va <= vb <= cs@.len(),
    ensures
        known == is_known_key(cs@.subrange(ka as int, kb as int)),
        final(st)@ == set_field(
            old(st)@,
            cs@.subrange(ka as int, kb as int),
            cs@.subrange(va as int, vb as int),
        ),
{
    if window_is(cs, ka, kb, "chain") {
        st.chain_id = string_of(cs, va, vb);
    } else if window_is(cs, ka, kb, "moniker") {
        st.moniker = string_of(cs, va, vb);
    } else if window_is(cs, ka, kb, "engine") {
        st.engine = string_of(cs, va, vb);
    } else if window_is(cs, ka, kb, "height") {
        st.latest_height = number_or_zero(cs, va, vb);
    } else if window_is(cs, ka, kb, "bbg-root") {
        st.bbg_root = string_of(cs, va, vb);
    } else if window_is(cs, ka, kb, "signals") {
        st.signals = number_or_zero(cs, va, vb);
    } else if window_is(cs, ka, kb, "particles") {
        st.particles = number_or_zero(cs, va, vb);
    } else if window_is(cs, ka, kb, "axons") {
        st.axons = number_or_zero(cs, va, vb);
    } else if window_is(cs, ka, kb, "catching-up") {
        st.catching_up = window_is(cs, va, vb, "true");
    } else {
        return false;
    }
    true
}

fn number_or_zero(cs: &Vec<char>, lo: usize, hi: usize) -> (n: u64)
    requires
        lo <= hi <= cs@.len(),
    ensures
        n == u64_or_zero(cs@.subrange(lo as int, hi as int)),
{
    match parse_u64_window(cs, lo, hi) {
        Some(n) => n,
        None => 0,
    }
}

/// Reads one line, the window `[lo, hi)`, into the frontmatter state.
fn front_line(fr: &mut Front, cs: &Vec<char>, lo: usize, hi: usize)
    requires
        lo <= hi <= cs@.len(),
    ensures
        final(fr)@ == front_step(old(fr)@, cs@.subrange(lo as int, hi as int)),
{
    if fr.closed {
        return;
    }
    let (a, b) = trim_window(cs, lo, hi);
    let ghost t = cs@.subrange(a as int, b as int);
    if window_is(cs, a, b, "---") {
        if fr.inside {
            fr.closed = true;
        } else {
            fr.inside = true;
        }
        return;
    }
    if !fr.inside {
        return;
    }
    let c = find_in_window(cs, a, b, ':');
    if c == b {
        return;
    }
    assert(t.take(c - a) =~= cs@.subrange(a as int, c as int));
    assert(t.skip(c - a + 1) =~= cs@.subrange(c + 1, b as int));
    let (ka, kb) = trim_window(cs, a, c);
    let (va, vb) = trim_window(cs, c + 1, b);
    if apply_field(&mut fr.status, cs, ka, kb, va, vb) {
        fr.known = true;
    }
}

proof fn lemma_fold_cons(x: Seq<char>, rest: Seq<Seq<char>>, fs: FrontState)
    ensures
        front_fold(seq![x] + rest, fs) == front_fold(rest, front_step(fs, x)),
{
    let l = seq![x] + rest;
    assert(l[0] == x);
    assert(l.drop_first() =~= rest);
}

/// Reads a status particle (see `parse_cybermark_spec`).
pub fn parse_cybermark(body: &str) -> (r: Option<Status>)
    ensures
        match r {
            Some(s) => parse_cybermark_spec(body@) == Some(s@),
            None => parse_cybermark_spec(body@) is None,
        },
{
    let cs = chars_of(body);
    let n = cs.len();
    let mut fr = Front { status: Status::empty(), inside: false, closed: false, known: false };
    let mut start: usize = 0;
    let mut i: usize = 0;
    while i < n
        invariant
            start <= i <= n == cs@.len(),
            cs@ == body@,
            front_fold(lines(body@), front_start()) == front_fold(
                pieces_from(cs@, start as int, i as int),
                fr@,
            ),
        decreases n - i,
    {
        if cs[i] == '\n' {
            proof {
                lemma_fold_cons(
                    cs@.subrange(start as int, i as int),
                    pieces_from(cs@, i + 1, i + 1),
                    fr@,
                );
            }
            front_line(&mut fr, &cs, start, i);
            start = i + 1;
        }
        i += 1;
    }
    proof {
        lemma_fold_cons(cs@.subrange(start as int, n as int), Seq::empty(), fr@);
        assert(seq![cs@.subrange(start as int, n as int)] + Seq::<Seq<char>>::empty() =~= seq![
            cs@.subrange(start as int, n as int),
        ]);
    }
    front_line(&mut fr, &cs, start, n);
    if fr.known {
        Some(fr.status)
    } else {
        None
    }
}

/// Once the closing fence is read, the rest of the text changes nothing.
pub proof fn law_frontmatter_closed(ls: Seq<Seq<char>>, fs: FrontState)
    requires
        fs.closed,
    ensures
        front_fold(ls, fs) == fs,
    decreases ls.len(),
{
    if ls.len() > 0 {
        law_frontmatter_closed(ls.drop_first(), fs);
    }
}

/// Text before the opening fence is never read as a field.
pub proof fn law_frontmatter_before_fence(ls: Seq<Seq<char>>)
    requires
        forall|k: int| 0 <= k < ls.len() ==> trim(#[trigger] ls[k]) != "---"@,
    ensures
        front_fold(ls, front_start()) == front_start(),
    decreases ls.len(),
{
    if ls.len() > 0 {
        assert forall|k: int| 0 <= k < ls.drop_first().len() implies trim(
            #[trigger] ls.drop_first()[k],
        ) != "---"@ by {
            assert(ls.drop_first()[k] == ls[k + 1]);
        }
        assert(trim(ls[0]) != "---"@);
        law_frontmatter_before_fence(ls.drop_first());
    }
}

proof fn lemma_pieces_nonempty(s: Seq<char>, st: int, i: int)
    ensures
        pieces_from(s, st, i).len() >= 1,
    decreases s.len() - i,
{
    if i < s.len() {
        if s[i] == '\n' {
            lemma_pieces_nonempty(s, i + 1, i + 1);
        } else {
            lemma_pieces_nonempty(s, st, i + 1);
        }
    }
}

proof fn lemma_pieces_shift(a: Seq<char>, b: Seq<char>, st: int, i: int)
    requires
        0 <= st <= i <= b.len(),
    ensures
        pieces_from(a + b, a.len() + st, a.len() + i) == pieces_from(b, st, i),
    decreases b.len() - i,
{
    let ab = a + b;
    if i >= b.len() {
        assert(ab.subrange(a.len() + st, ab.len() as int) =~= b.subrange(st, b.len() as int));
    } else {
        assert(ab[a.len() + i] == b[i]);
        if b[i] == '\n' {
            assert(ab.subrange(a.len() + st, a.len() + i) =~= b.subrange(st, i));
            lemma_pieces_shift(a, b, i + 1, i + 1);
        } else {
            lemma_pieces_shift(a, b, st, i + 1);
        }
    }
}

proof fn lemma_pieces_split(a: Seq<char>, b: Seq<char>, st: int, i: int)
    requires
        a.len() > 0,
        a.last() == '\n',
        0 <= st <= i < a.len(),
    ensures
        pieces_from(a + b, st, i) == pieces_from(a, st, i).drop_last() + pieces_from(b, 0, 0),
    decreases a.len() - i,
{
    let ab = a + b;
    assert(ab[i] == a[i]);
    if a[i] == '\n' {
        assert(ab.subrange(st, i) =~= a.subrange(st, i));
        let x = seq![a.subrange(st, i)];
        if i + 1 == a.len() {
            lemma_pieces_shift(a, b, 0, 0);
            assert(pieces_from(a, i + 1, i + 1) == seq![a.subrange(i + 1, a.len() as int)]);
            assert((x + pieces_from(a, i + 1, i + 1)).drop_last() =~= x);
        } else {
            lemma_pieces_split(a, b, i + 1, i + 1);
            lemma_pieces_nonempty(a, i + 1, i + 1);
            assert((x + pieces_from(a, i + 1, i + 1)).drop_last() =~= x + pieces_from(
                a,
                i + 1,
                i + 1,
            ).drop_last());
            assert(x + (pieces_from(a, i + 1, i + 1).drop_last() + pieces_from(b, 0, 0)) =~= (x
                + pieces_from(a, i + 1, i + 1).drop_last()) + pieces_from(b, 0, 0));
        }
    } else {
        lemma_pieces_split(a, b, st, i + 1);
    }
}

proof fn lemma_fold_concat(l1: Seq<Seq<char>>, l2: Seq<Seq<char>>, fs: FrontState)
    ensures
        front_fold(l1 + l2, fs) == front_fold(l2, front_fold(l1, fs)),
    decreases l1.len(),
{
    if l1.len() == 0 {
        assert(l1 + l2 =~= l2);
    } else {
        assert((l1 + l2)[0] == l1[0]);
        assert((l1 + l2).drop_first() =~= l1.drop_first() + l2);
        lemma_fold_concat(l1.drop_first(), l2, front_step(fs, l1[0]));
    }
}

proof fn lemma_fold_inside(ls: Seq<Seq<char>>, fs: FrontState)
    requires
        fs.inside,
        !fs.closed,
        forall|k: int| 0 <= k < ls.len() ==> trim(#[trigger] ls[k]) != "---"@,
    ensures
        front_fold(ls, fs).inside,
        !front_fold(ls, fs).closed,
    decreases ls.len(),
{
    if ls.len() > 0 {
        assert(trim(ls[0]) != "---"@);
        assert forall|k: int| 0 <= k < ls.drop_first().len() implies trim(
            #[trigger] ls.drop_first()[k],
        ) != "---"@ by {
            assert(ls.drop_first()[k] == ls[k + 1]);
        }
        lemma_fold_inside(ls.drop_first(), front_step(fs, ls[0]));
    }
}

/// A fence on a line of its own.
pub open spec fn fence_line() -> Seq<char> {
    seq!['-', '-', '-', '\n']
}

proof fn lemma_fence_lines(y: Seq<char>)
    ensures
        lines(fence_line() + y) == seq!["---"@] + lines(y),
        trim("---"@) == "---"@,
{
    reveal_strlit("---");
    let a = fence_line();
    let t = seq!['-', '-', '-'];
    assert(t =~= "---"@);
    lemma_pieces_split(a, y, 0, 0);
    assert(pieces_from(a, 4, 4) == seq![a.subrange(4, 4)]);
    assert(a.subrange(0, 3) =~= t);
    assert(pieces_from(a, 0, 3) == seq![a.subrange(0, 3)] + pieces_from(a, 4, 4));
    assert(pieces_from(a, 0, 2) == pieces_from(a, 0, 3));
    assert(pieces_from(a, 0, 1) == pieces_from(a, 0, 2));
    assert(pieces_from(a, 0, 0) == pieces_from(a, 0, 1));
    assert((seq![t] + seq![a.subrange(4, 4)]).drop_last() =~= seq![t]);
    assert(trim_start(t) == t);
    assert(trim(t) == t);
}

/// The lines of `f` before its final line feed.
pub open spec fn lines_before_end(f: Seq<char>) -> Seq<Seq<char>> {
    if f.len() == 0 {
        Seq::empty()
    } else {
        lines(f).drop_last()
    }
}

proof fn lemma_lines_prefix(f: Seq<char>, y: Seq<char>)
    requires
        f.len() == 0 || f.last() == '\n',
    ensures
        lines(f + y) == lines_before_end(f) + lines(y),
{
    if f.len() == 0 {
        assert(f + y =~= y);
        assert(Seq::<Seq<char>>::empty() + lines(y) =~= lines(y));
    } else {
        lemma_pieces_split(f, y, 0, 0);
    }
}

/// Reading the frontmatter of `--- / f / --- / x`: the fields come from
/// the lines of `f` alone and the reading is closed.
proof fn lemma_fenced_body(f: Seq<char>, x: Seq<char>)
    requires
        f.len() == 0 || f.last() == '\n',
        forall|k: int| 0 <= k < lines(f).len() ==> trim(#[trigger] lines(f)[k]) != "---"@,
    ensures
        front_fold(lines(fence_line() + f + fence_line() + x), front_start()) == front_fold(
            seq!["---"@] + lines_before_end(f) + seq!["---"@],
            front_start(),
        ),
        front_fold(seq!["---"@] + lines_before_end(f) + seq!["---"@], front_start()).closed,
{
    let fl = lines_before_end(f);
    let fence = seq!["---"@];
    assert(fence_line() + f + fence_line() + x =~= fence_line() + (f + (fence_line() + x)));
    lemma_fence_lines(f + (fence_line() + x));
    lemma_lines_prefix(f, fence_line() + x);
    lemma_fence_lines(x);
    let pre = fence + fl + fence;
    assert(lines(fence_line() + f + fence_line() + x) =~= pre + lines(x));
    lemma_fold_concat(pre, lines(x), front_start());
    // the opening fence, the lines of f, the closing fence
    let s1 = front_step(front_start(), "---"@);
    assert(front_fold(fence, front_start()) == front_fold(Seq::<Seq<char>>::empty(), s1)) by {
        assert(fence.drop_first() =~= Seq::<Seq<char>>::empty());
    }
    assert(s1.inside && !s1.closed);
    assert forall|k: int| 0 <= k < fl.len() implies trim(#[trigger] fl[k]) != "---"@ by {
        if f.len() > 0 {
            lemma_pieces_nonempty(f, 0, 0);
            assert(fl[k] == lines(f)[k]);
        }
    }
    lemma_fold_inside(fl, s1);
    lemma_fold_concat(fence, fl, front_start());
    lemma_fold_concat(fence + fl, fence, front_start());
    let s2 = front_fold(fl, s1);
    assert(front_fold(fence, s2) == front_fold(Seq::<Seq<char>>::empty(), front_step(s2, "---"@)))
        by {
        assert(fence.drop_first() =~= Seq::<Seq<char>>::empty());
    }
    law_frontmatter_closed(lines(x), front_fold(pre, front_start()));
}

/// Whatever follows the closing fence of a status particle never changes
/// what it reads: for frontmatter lines `f` (ending in a line feed, none of
/// them a fence), `---\n f ---\n x` reads as `---\n f ---\n`.
pub proof fn law_cybermark_ignores_rest(f: Seq<char>, x: Seq<char>)
    requires
        f.len() == 0 || f.last() == '\n',
        forall|k: int| 0 <= k < lines(f).len() ==> trim(#[trigger] lines(f)[k]) != "---"@,
    ensures
        parse_cybermark_spec(fence_line() + f + fence_line() + x) == parse_cybermark_spec(
            fence_line() + f + fence_line(),
        ),
{
    lemma_fenced_body(f, x);
    lemma_fenced_body(f, Seq::empty());
    assert(fence_line() + f + fence_line() + Seq::<char>::empty() =~= fence_line() + f
        + fence_line());
}

proof fn lemma_find_char_at(s: Seq<char>, c: char, i: int, j: int)
    requires
        0 <= i <= j < s.len(),
        s[j] == c,
        forall|k: int| i <= k < j ==> s[k] != c,
    ensures
        find_char(s, c, i) == j,
    decreases j - i,
{
    if i < j {
        lemma_find_char_at(s, c, i + 1, j);
    }
}

proof fn lemma_pieces_to_newline(s: Seq<char>, st: int, i: int, j: int)
    requires
        0 <= st <= i <= j < s.len(),
        s[j] == '\n',
        forall|k: int| i <= k < j ==> s[k] != '\n',
    ensures
        pieces_from(s, st, i) == seq![s.subrange(st, j)] + pieces_from(s, j + 1, j + 1),
    decreases j - i,
{
    if i < j {
        lemma_pieces_to_newline(s, st, i + 1, j);
    }
}

/// The value of a `catching-up` line decides the status: a particle whose
/// only field line is `catching-up: v` reads as the empty status except
/// that the peer is catching up exactly when `v` is `true`; `false`, or any
/// other value, reads as not catching up.
pub proof fn law_catching_up(v: Seq<char>)
    requires
        v.len() > 0,
        !is_ws(v[0]),
        !is_ws(v.last()),
        forall|k: int| 0 <= k < v.len() ==> v[k] != '\n',
    ensures
        parse_cybermark_spec(fence_line() + ("catching-up: "@ + v + seq!['\n']) + fence_line())
            == Some(StatusView { catching_up: v == "true"@, ..empty_status() }),
{
    reveal_strlit("catching-up: ");
    reveal_strlit("catching-up");
    reveal_strlit("---");
    reveal_strlit("chain");
    reveal_strlit("moniker");
    reveal_strlit("engine");
    reveal_strlit("height");
    reveal_strlit("bbg-root");
    reveal_strlit("signals");
    reveal_strlit("particles");
    reveal_strlit("axons");
    let key = "catching-up"@;
    let line = "catching-up: "@ + v;
    let f = line + seq!['\n'];
    let n = line.len() as int;
    // the lines of f: the field line, then the empty rest
    assert(f[n] == '\n');
    assert forall|k: int| 0 <= k < n implies f[k] != '\n' by {
        if k >= 13 {
            assert(f[k] == v[k - 13]);
        }
    }
    lemma_pieces_to_newline(f, 0, 0, n);
    assert(f.subrange(0, n) =~= line);
    assert(pieces_from(f, n + 1, n + 1) == seq![f.subrange(n + 1, n + 1)]);
    let empty = f.subrange(n + 1, n + 1);
    assert(empty =~= Seq::<char>::empty());
    assert(lines(f) =~= seq![line, empty]);
    // the field line trims to itself; the empty line to nothing
    assert(line[0] == 'c');
    assert(line.last() == v.last());
    assert(trim_start(line) == line);
    assert(trim(line) == line);
    assert(trim(empty) =~= empty);
    assert(line.len() != 3);
    assert forall|k: int| 0 <= k < lines(f).len() implies trim(#[trigger] lines(f)[k]) != "---"@
        by {
        if k == 0 {
            assert(lines(f)[k] == line);
        } else {
            assert(lines(f)[k] == empty);
        }
    }
    lemma_fenced_body(f, Seq::empty());
    assert(fence_line() + f + fence_line() + Seq::<char>::empty() =~= fence_line() + f
        + fence_line());
    assert(lines_before_end(f) =~= seq![line]);
    let pre = seq!["---"@] + seq![line] + seq!["---"@];
    assert(pre =~= seq!["---"@, line, "---"@]);
    // the frontmatter: opening fence, the field line, closing fence
    let s1 = front_step(front_start(), "---"@);
    lemma_fence_lines(Seq::empty());
    assert(s1.inside && !s1.closed && s1.status == empty_status() && !s1.known);
    assert(line != "---"@);
    lemma_find_char_at(line, ':', 0, 11);
    assert(line.take(11) =~= key);
    assert(trim_start(key) == key);
    assert(trim(key) == key);
    assert(line.skip(12) =~= seq![' '] + v);
    assert((seq![' '] + v).drop_first() =~= v);
    assert(trim_start(seq![' '] + v) == trim_start(v));
    assert(trim_start(v) == v);
    assert(trim(line.skip(12)) == v);
    assert(key.len() == 11);
    assert(is_known_key(key));
    let st = StatusView { catching_up: v == "true"@, ..empty_status() };
    assert(set_field(empty_status(), key, v) == st);
    let s2 = front_step(s1, line);
    assert(s2 == FrontState { status: st, known: true, ..s1 });
    let s3 = front_step(s2, "---"@);
    assert(s3 == FrontState { closed: true, ..s2 });
    assert(front_fold(pre, front_start()) == s3) by {
        lemma_fold_cons("---"@, seq![line, "---"@], front_start());
        assert(seq!["---"@] + seq![line, "---"@] =~= pre);
        lemma_fold_cons(line, seq!["---"@], s1);
        assert(seq![line] + seq!["---"@] =~= seq![line, "---"@]);
        lemma_fold_cons("---"@, Seq::<Seq<char>>::empty(), s2);
        assert(seq!["---"@] + Seq::<Seq<char>>::empty() =~= seq!["---"@]);
    }
}

/// A JSON status is always read: any text that starts, after whitespace,
/// with `{` gives a status, whatever fields it lacks.
pub proof fn law_json_always_reads(body: Seq<char>)
    requires
        trim_start(body).len() > 0,
        trim_start(body)[0] == '{',
    ensures
        parse_legacy_json_spec(body) is Some,
        !"---"@.is_prefix_of(trim_start(body)) ==> parse_status_spec(body) is Some,
{
}

// ── legacy JSON ─────────────────────────────────────────────────────────────

/// A JSON key as it stands in the text: between double quotes.
pub open spec fn quoted(key: Seq<char>) -> Seq<char> {
    seq!['"'] + key + seq!['"']
}

/// ASCII letters and digits, and `.`: what an unquoted value is made of.
pub open spec fn is_bare_char(c: char) -> bool {
    ||| is_digit(c)
    ||| 'a' <= c && c <= 'z'
    ||| 'A' <= c && c <= 'Z'
    ||| c == '.'
}

/// Index of the first character at or after `i` that is not bare, or the
/// length of `s`.
pub open spec fn bare_end(s: Seq<char>, i: int) -> int
    decreases s.len() - i,
{
    if i >= s.len() {
        s.len() as int
    } else if !is_bare_char(s[i]) {
        i
    } else {
        bare_end(s, i + 1)
    }
}

/// The value that follows a key: after optional whitespace a `:`, after
/// more optional whitespace either a quoted string (up to the next `"`) or
/// the run of bare characters that starts there.
pub open spec fn json_value(after: Seq<char>) -> Option<Seq<char>> {
    let r0 = trim_start(after);
    if r0.len() == 0 || r0[0] != ':' {
        None
    } else {
        let rest = trim_start(r0.drop_first());
        if rest.len() > 0 && rest[0] == '"' {
            let r = rest.drop_first();
            let q = find_char(r, '"', 0);
            if q < r.len() {
                Some(r.take(q))
            } else {
                None
            }
        } else {
            Some(rest.take(bare_end(rest, 0)))
        }
    }
}

/// The value of `key` at its first quoted occurrence in `body`.
pub open spec fn json_field(body: Seq<char>, key: Seq<char>) -> Option<Seq<char>> {
    match find_seq(body, quoted(key), 0) {
        Some(at) => json_value(body.skip(at + quoted(key).len())),
        None => None,
    }
}

/// The number under `key`, or zero where there is none.
pub open spec fn json_num(body: Seq<char>, key: Seq<char>) -> u64 {
    match json_field(body, key) {
        Some(v) => u64_or_zero(v),
        None => 0,
    }
}

/// A status in the JSON of soft3 before 0.7: any text that starts, after
/// whitespace, with `{`, read field by field.
pub open spec fn parse_legacy_json_spec(body: Seq<char>) -> Option<StatusView> {
    let t = trim_start(body);
    if t.len() == 0 || t[0] != '{' {
        None
    } else {
        Some(
            StatusView {
                chain_id: text_or(json_field(body, "network"@), CHAIN_ID@),
                moniker: text_or(json_field(body, "moniker"@), Seq::empty()),
                engine: text_or(
                    json_field(body, "engine"@),
                    text_or(json_field(body, "protocol"@), Seq::empty()),
                ),
                latest_height: json_num(body, "latest_block_height"@),
                bbg_root: text_or(json_field(body, "bbg_root"@), Seq::empty()),
                signals: json_num(body, "signals"@),
                particles: json_num(body, "particles"@),
                axons: json_num(body, "axons"@),
                catching_up: json_field(body, "catching_up"@) == Some("true"@),
            },
        )
    }
}

fn is_bare(c: char) -> (r: bool)
    ensures
        r == is_bare_char(c),
{
    ('0' <= c && c <= '9') || ('a' <= c && c <= 'z') || ('A' <= c && c <= 'Z') || c == '.'
}

/// `json_value` of the text from `from` to the end, as a window.
fn json_value_window(cs: &Vec<char>, from: usize) -> (r: Option<(usize, usize)>)
    requires
        from <= cs@.len(),
    ensures
        match r {
            Some((a, b)) => a <= b <= cs@.len() && json_value(
                cs@.subrange(from as int, cs@.len() as int),
            ) == Some(cs@.subrange(a as int, b as int)),
            None => json_value(cs@.subrange(from as int, cs@.len() as int)) is None,
        },
{
    let n = cs.len();
    let r0 = skip_ws(cs, from, n);
    if r0 == n || cs[r0] != ':' {
        return None;
    }
    assert(cs@.subrange(r0 as int, n as int).drop_first() =~= cs@.subrange(r0 + 1, n as int));
    let r = skip_ws(cs, r0 + 1, n);
    let ghost rest = cs@.subrange(r as int, n as int);
    if r < n && cs[r] == '"' {
        assert(rest.drop_first() =~= cs@.subrange(r + 1, n as int));
        let q = find_in_window(cs, r + 1, n, '"');
        if q < n {
            assert(rest.drop_first().take(q - (r + 1)) =~= cs@.subrange(r + 1, q as int));
            Some((r + 1, q))
        } else {
            None
        }
    } else {
        let mut e = r;
        while e < n && is_bare(cs[e])
            invariant
                r <= e <= n == cs@.len(),
                rest == cs@.subrange(r as int, n as int),
                bare_end(rest, 0) == bare_end(rest, e - r),
            decreases n - e,
        {
            e += 1;
        }
        assert(rest.take(e - r) =~= cs@.subrange(r as int, e as int));
        Some((r, e))
    }
}

/// `json_field` as a window of `cs`.
fn json_field_window(cs: &Vec<char>, key: &str) -> (r: Option<(usize, usize)>)
    ensures
        match r {
            Some((a, b)) => a <= b <= cs@.len() && json_field(cs@, key@) == Some(
                cs@.subrange(a as int, b as int),
            ),
            None => json_field(cs@, key@) is None,
        },
{
    let mut p: Vec<char> = Vec::new();
    p.push('"');
    let k = chars_of(key);
    let mut i: usize = 0;
    while i < k.len()
        invariant
            i <= k@.len(),
            k@ == key@,
            p@ == seq!['"'] + k@.subrange(0, i as int),
        decreases k@.len() - i,
    {
        p.push(k[i]);
        i += 1;
        assert(p@ =~= seq!['"'] + k@.subrange(0, i as int));
    }
    p.push('"');
    assert(p@ =~= quoted(key@));
    let n = cs.len();
    let found = find_pattern(cs, &p);
    match found {
        Some(at) => {
            assert(at + p@.len() <= n);
            assert(cs@.skip(at + p@.len()) =~= cs@.subrange(at + p@.len(), cs@.len() as int));
            json_value_window(cs, at + p.len())
        },
        None => None,
    }
}

fn json_text(cs: &Vec<char>, key: &str) -> (r: Option<String>)
    ensures
        match r {
            Some(t) => json_field(cs@, key@) == Some(t@),
            None => json_field(cs@, key@) is None,
        },
{
    match json_field_window(cs, key) {
        Some((a, b)) => Some(string_of(cs, a, b)),
        None => None,
    }
}

fn json_number(cs: &Vec<char>, key: &str) -> (n: u64)
    ensures
        n == json_num(cs@, key@),
{
    match json_field_window(cs, key) {
        Some((a, b)) => number_or_zero(cs, a, b),
        None => 0,
    }
}

/// Reads a JSON status (see `parse_legacy_json_spec`).
pub fn parse_legacy_json(body: &str) -> (r: Option<Status>)
    ensures
        match r {
            Some(s) => parse_legacy_json_spec(body@) == Some(s@),
            None => parse_legacy_json_spec(body@) is None,
        },
{
    let cs = chars_of(body);
    let n = cs.len();
    let t = skip_ws(&cs, 0, n);
    assert(cs@.subrange(0, n as int) =~= body@);
    if t == n || cs[t] != '{' {
        return None;
    }
    let mut s = Status::empty();
    s.chain_id = match json_text(&cs, "network") {
        Some(v) => v,
        None => CHAIN_ID.to_owned(),
    };
    s.moniker = match json_text(&cs, "moniker") {
        Some(v) => v,
        None => String::new(),
    };
    s.engine = match json_text(&cs, "engine") {
        Some(v) => v,
        None => match json_text(&cs, "protocol") {
            Some(v) => v,
            None => String::new(),
        },
    };
    s.latest_height = json_number(&cs, "latest_block_height");
    s.bbg_root = match json_text(&cs, "bbg_root") {
        Some(v) => v,
        None => String::new(),
    };
    s.signals = json_number(&cs, "signals");
    s.particles = json_number(&cs, "particles");
    s.axons = json_number(&cs, "axons");
    s.catching_up = match json_field_window(&cs, "catching_up") {
        Some((a, b)) => window_is(&cs, a, b, "true"),
        None => false,
    };
    Some(s)
}

// ── dispatch and probe ──────────────────────────────────────────────────────

/// A status in either form: a cybermark particle when the text starts,
/// after whitespace, with `---`, JSON otherwise.
pub open spec fn parse_status_spec(body: Seq<char>) -> Option<StatusView> {
    if "---"@.is_prefix_of(trim_start(body)) {
        parse_cybermark_spec(body)
    } else {
        parse_legacy_json_spec(body)
    }
}

pub fn parse_status(body: &str) -> (r: Option<Status>)
    ensures
        match r {
            Some(s) => parse_status_spec(body@) == Some(s@),
            None => parse_status_spec(body@) is None,
        },
{
    let cs = chars_of(body);
    let n = cs.len();
    let t = skip_ws(&cs, 0, n);
    assert(cs@.subrange(0, n as int) =~= body@);
    if window_starts_with(&cs, t, n, "---") {
        parse_cybermark(body)
    } else {
        parse_legacy_json(body)
    }
}

/// The status endpoint under a base URL.
pub open spec fn status_url_spec(base: Seq<char>) -> Seq<char> {
    base + "/status"@
}

pub fn status_url(base: &str) -> (r: String)
    ensures
        r@ == status_url_spec(base@),
{
    let mut u = base.to_owned();
    u.append("/status");
    u
}

/// The message for a server error from the status endpoint.
pub open spec fn http_error_message(code: u16, url: Seq<char>) -> Seq<char> {
    "http "@ + decimal(code as nat) + " from "@ + url
}

/// The message for a status that neither form reads.
pub open spec fn unparsed_message(url: Seq<char>) -> Seq<char> {
    "unparsed status from "@ + url
}

/// Reads the peer's answer to a request for `status_url(base)`: a transport
/// error is passed on, a code of 500 or above is an error, and any other
/// answer must parse as a status.
pub fn probe(base: &str, reply: Result<(u16, String), String>) -> (r: Result<Status, String>)
    ensures
        match reply {
            Err(e) => r matches Err(m) && m@ == e@,
            Ok((code, body)) => if code >= 500 {
                r matches Err(m) && m@ == http_error_message(code, status_url_spec(base@))
            } else {
                match parse_status_spec(body@) {
                    Some(v) => r matches Ok(st) && st@ == v,
                    None => r matches Err(m) && m@ == unparsed_message(status_url_spec(base@)),
                }
            },
        },
{
    let url = status_url(base);
    match reply {
        Err(e) => Err(e),
        Ok((code, body)) => {
            if code >= 500 {
                let mut m = String::new();
                m.append("http ");
                push_decimal(&mut m, code as u64);
                m.append(" from ");
                m.append(url.as_str());
                assert(m@ =~= http_error_message(code, url@));
                return Err(m);
            }
            match parse_status(body.as_str()) {
                Some(st) => Ok(st),
                None => {
                    let mut m = String::new();
                    m.append("unparsed status from ");
                    m.append(url.as_str());
                    assert(m@ =~= unparsed_message(url@));
                    Err(m)
                },
            }
        },
    }
}

} // verus!

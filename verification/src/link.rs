//! `cyber link`: the signal frame that casts one cyberlink, and the lines of
//! the peer's receipt that are shown.

use vstd::prelude::*;
use cybergraph::{CyberlinkRecord, Signal};
use foculus::BoxMoveRecord;
use crate::args::{LinkRequest, LinkRequestView};
use crate::cell::{next_pos, next_pos_spec};
use crate::identity::{key32, key32_spec};
use crate::text::{chars_of, lines, pieces_from, push_window, trim, trim_window, window_is};

verus! {

/// One cyberlink of a signal.
pub struct LinkRecord {
    pub neuron: [u8; 32],
    pub from: [u8; 32],
    pub to: [u8; 32],
    pub token: [u8; 32],
    pub amount: u64,
    pub valence: i8,
    pub height: u64,
}

pub struct LinkView {
    pub neuron: Seq<u8>,
    pub from: Seq<u8>,
    pub to: Seq<u8>,
    pub token: Seq<u8>,
    pub amount: u64,
    pub valence: i8,
    pub height: u64,
}

impl View for LinkRecord {
    type V = LinkView;

    open spec fn view(&self) -> LinkView {
        LinkView {
            neuron: self.neuron@,
            from: self.from@,
            to: self.to@,
            token: self.token@,
            amount: self.amount,
            valence: self.valence,
            height: self.height,
        }
    }
}

/// A box move of a signal: a spent nullifier and, optionally, a new
/// commitment point with its value.
pub struct MoveRecord {
    pub nullifier: [u8; 32],
    pub commitment: Option<([u8; 32], u64)>,
}

pub struct MoveView {
    pub nullifier: Seq<u8>,
    pub commitment: Option<(Seq<u8>, u64)>,
}

impl View for MoveRecord {
    type V = MoveView;

    open spec fn view(&self) -> MoveView {
        MoveView {
            nullifier: self.nullifier@,
            commitment: match self.commitment {
                Some((p, v)) => Some((p@, v)),
                None => None,
            },
        }
    }
}

/// `n` in `k` bytes, least significant first.
pub open spec fn le_bytes(n: nat, k: nat) -> Seq<u8>
    decreases k,
{
    if k == 0 {
        Seq::empty()
    } else {
        seq![(n % 256) as u8] + le_bytes(n / 256, (k - 1) as nat)
    }
}

/// `n` in unsigned LEB128: seven bits a byte, least significant first, the
/// high bit set on every byte but the last.
pub open spec fn leb128(n: nat) -> Seq<u8>
    decreases n,
{
    if n < 128 {
        seq![n as u8]
    } else {
        seq![(n % 128 + 128) as u8] + leb128(n / 128)
    }
}

pub open spec fn link_bytes(l: LinkView) -> Seq<u8> {
    l.neuron + l.from + l.to + l.token + le_bytes(l.amount as nat, 8) + seq![l.valence as u8]
        + le_bytes(l.height as nat, 8)
}

pub open spec fn links_bytes(ls: Seq<LinkView>) -> Seq<u8>
    decreases ls.len(),
{
    if ls.len() == 0 {
        Seq::empty()
    } else {
        links_bytes(ls.drop_last()) + link_bytes(ls.last())
    }
}

pub open spec fn move_bytes(m: MoveView) -> Seq<u8> {
    m.nullifier + match m.commitment {
        Some((p, v)) => seq![1u8] + p + le_bytes(v as nat, 8),
        None => seq![0u8],
    }
}

pub open spec fn moves_bytes(ms: Seq<MoveView>) -> Seq<u8>
    decreases ms.len(),
{
    if ms.len() == 0 {
        Seq::empty()
    } else {
        moves_bytes(ms.drop_last()) + move_bytes(ms.last())
    }
}

/// The payload of a signal frame: the neuron, the step, the previous hash,
/// the height, the links (their count in four bytes, then each link's
/// fields), and the box moves (likewise); integers little-endian.
pub open spec fn signal_payload(
    neuron: Seq<u8>,
    prev: Seq<u8>,
    step: u64,
    height: u64,
    links: Seq<LinkView>,
    moves: Seq<MoveView>,
) -> Seq<u8> {
    neuron + le_bytes(step as nat, 8) + prev + le_bytes(height as nat, 8) + le_bytes(
        links.len() % 0x1_0000_0000,
        4,
    ) + links_bytes(links) + le_bytes(moves.len() % 0x1_0000_0000, 4) + moves_bytes(moves)
}

/// A signal frame: the marker `0x1F`, the sigil `!`, the render `b`, the
/// payload's length in LEB128, then the payload. The network, the balance
/// deltas and the proof of a signal are not part of its frame.
pub open spec fn signal_frame(
    neuron: Seq<u8>,
    prev: Seq<u8>,
    step: u64,
    height: u64,
    links: Seq<LinkView>,
    moves: Seq<MoveView>,
) -> Seq<u8> {
    let p = signal_payload(neuron, prev, step, height, links, moves);
    seq![0x1fu8, 0x21u8, 0x62u8] + leb128(p.len()) + p
}

pub open spec fn link_views(ls: Seq<LinkRecord>) -> Seq<LinkView> {
    ls.map_values(|l: LinkRecord| l@)
}

pub open spec fn move_views(ms: Seq<MoveRecord>) -> Seq<MoveView> {
    ms.map_values(|m: MoveRecord| m@)
}

/// Builds a `Signal` from its fields (with no proof, which the frame does
/// not carry) and calls `foculus::encode_signal_frame`; trusted to return
/// the frame that `signal_frame` spells out.
#[verifier::external_body]
fn encode_signal(neuron: [u8; 32], network: [u8; 32], links: &[LinkRecord], delta_pi: &[([u8; 32], u64)], moves: &[MoveRecord], prev: [u8; 32], step: u64, height: u64) -> (r: Vec<u8>)
    ensures
        r@ == signal_frame(neuron@, prev@, step, height, link_views(links@), move_views(moves@)),
{
    let links = links.iter().map(|l| CyberlinkRecord { neuron: l.neuron, from: l.from, to: l.to, token: l.token, amount: l.amount, valence: l.valence, height: l.height }).collect();
    let box_moves = moves.iter().map(|m| BoxMoveRecord { nullifier: m.nullifier, commitment: m.commitment }).collect();
    let s = Signal { neuron, network, links, delta_pi: delta_pi.to_vec(), box_moves, prev, step, height, proof: None };
    foculus::encode_signal_frame(&s)
}

pub open spec fn zero32() -> Seq<u8> {
    Seq::new(32, |i: int| 0u8)
}

/// The frame of a link from `from` to `to` cast by `neuron` at chain
/// position `step` after `prev`: one link with the zero token, not yet at
/// any height, and no box moves.
pub open spec fn link_frame_spec(
    neuron: Seq<u8>,
    from: Seq<u8>,
    to: Seq<u8>,
    amount: u64,
    valence: i8,
    step: u64,
    prev: Seq<u8>,
) -> Seq<u8> {
    signal_frame(
        neuron,
        prev,
        step,
        0,
        seq![LinkView { neuron, from, to, token: zero32(), amount, valence, height: 0 }],
        Seq::empty(),
    )
}

proof fn lemma_le_bytes_len(n: nat, k: nat)
    ensures
        le_bytes(n, k).len() == k,
    decreases k,
{
    if k > 0 {
        lemma_le_bytes_len(n / 256, (k - 1) as nat);
    }
}

/// Where each field of a cast link stands in its frame: after the marker,
/// the sigil `!`, the render `b` and the two-byte payload length come the
/// signal's neuron, step and previous hash; then, after the height and the
/// link count of 1, the link's neuron, its source `from`, its target `to`,
/// the zero token, the amount and the valence.
pub proof fn law_link_frame_fields(
    neuron: Seq<u8>,
    from: Seq<u8>,
    to: Seq<u8>,
    amount: u64,
    valence: i8,
    step: u64,
    prev: Seq<u8>,
)
    requires
        neuron.len() == 32,
        from.len() == 32,
        to.len() == 32,
        prev.len() == 32,
    ensures
        ({
            let f = link_frame_spec(neuron, from, to, amount, valence, step, prev);
            &&& f.len() == 238
            &&& f.subrange(0, 5) == seq![0x1fu8, 0x21u8, 0x62u8, 233u8, 1u8]
            &&& f.subrange(5, 37) == neuron
            &&& f.subrange(37, 45) == le_bytes(step as nat, 8)
            &&& f.subrange(45, 77) == prev
            &&& f.subrange(85, 89) == le_bytes(1, 4)
            &&& f.subrange(89, 121) == neuron
            &&& f.subrange(121, 153) == from
            &&& f.subrange(153, 185) == to
            &&& f.subrange(185, 217) == zero32()
            &&& f.subrange(217, 225) == le_bytes(amount as nat, 8)
            &&& f[225] == valence as u8
            &&& f.subrange(234, 238) == le_bytes(0, 4)
        }),
{
    let l = LinkView { neuron, from, to, token: zero32(), amount, valence, height: 0 };
    let ls = seq![l];
    assert(ls.drop_last() =~= Seq::<LinkView>::empty());
    assert(links_bytes(ls) == links_bytes(Seq::<LinkView>::empty()) + link_bytes(l));
    assert(links_bytes(ls) =~= link_bytes(l));
    assert(moves_bytes(Seq::<MoveView>::empty()) =~= Seq::<u8>::empty());
    lemma_le_bytes_len(step as nat, 8);
    lemma_le_bytes_len(0, 8);
    lemma_le_bytes_len(1, 4);
    lemma_le_bytes_len(0, 4);
    lemma_le_bytes_len(amount as nat, 8);
    let lb = link_bytes(l);
    assert(lb.len() == 145);
    let p = signal_payload(neuron, prev, step, 0, ls, Seq::empty());
    let flat = neuron + le_bytes(step as nat, 8) + prev + le_bytes(0, 8) + le_bytes(1, 4) + lb
        + le_bytes(0, 4);
    assert(p =~= flat);
    assert(p.len() == 233);
    assert(leb128(1) == seq![1u8]);
    assert(leb128(233) =~= seq![233u8, 1u8]);
    let f = link_frame_spec(neuron, from, to, amount, valence, step, prev);
    assert(f =~= seq![0x1fu8, 0x21u8, 0x62u8, 233u8, 1u8] + flat);
    assert(f.subrange(0, 5) =~= seq![0x1fu8, 0x21u8, 0x62u8, 233u8, 1u8]);
    assert(f.subrange(5, 37) =~= neuron);
    assert(f.subrange(37, 45) =~= le_bytes(step as nat, 8));
    assert(f.subrange(45, 77) =~= prev);
    assert(f.subrange(85, 89) =~= le_bytes(1, 4));
    assert(f.subrange(89, 121) =~= neuron);
    assert(f.subrange(121, 153) =~= from);
    assert(f.subrange(153, 185) =~= to);
    assert(f.subrange(185, 217) =~= zero32());
    assert(f.subrange(217, 225) =~= le_bytes(amount as nat, 8));
    assert(f.subrange(234, 238) =~= le_bytes(0, 4));
}

/// The frame `cyber link` sends (see `link_frame_spec`). The signal goes to
/// the neuron's own network (the zero particle) and moves no balance
/// deltas; neither is part of the frame.
pub fn link_frame(
    neuron: [u8; 32],
    from: [u8; 32],
    to: [u8; 32],
    amount: u64,
    valence: i8,
    step: u64,
    prev: [u8; 32],
) -> (r: Vec<u8>)
    ensures
        r@ == link_frame_spec(neuron@, from@, to@, amount, valence, step, prev@),
{
    let zero = [0u8; 32];
    assert(zero@ =~= zero32());
    let mut links: Vec<LinkRecord> = Vec::new();
    links.push(LinkRecord { neuron, from, to, token: zero, amount, valence, height: 0 });
    let delta_pi: Vec<([u8; 32], u64)> = Vec::new();
    let moves: Vec<MoveRecord> = Vec::new();
    let r = encode_signal(neuron, zero, links.as_slice(), delta_pi.as_slice(), moves.as_slice(), prev, step, 0);
    assert(link_views(links@) =~= seq![
        LinkView { neuron: neuron@, from: from@, to: to@, token: zero32(), amount, valence, height: 0 },
    ]);
    assert(move_views(moves@) =~= Seq::<MoveView>::empty());
    r
}

/// The frame that `cyber link` sends for a request against the local cell:
/// the three labels read as keys, the next position in the neuron's chain.
/// `None` when the chain's last signal is missing.
pub open spec fn cast_frame_spec(g: cybergraph::Cybergraph, q: LinkRequestView) -> Option<Seq<u8>> {
    let n = key32_spec(q.neuron);
    match next_pos_spec(g, n) {
        Some((step, prev)) => Some(
            link_frame_spec(
                n,
                key32_spec(q.from),
                key32_spec(q.to),
                q.amount,
                q.valence,
                step,
                prev,
            ),
        ),
        None => None,
    }
}

pub fn cast_frame(g: &cybergraph::Cybergraph, q: &LinkRequest) -> (r: Option<Vec<u8>>)
    ensures
        match r {
            Some(f) => cast_frame_spec(*g, q@) == Some(f@),
            None => cast_frame_spec(*g, q@) is None,
        },
{
    let n = match key32(q.neuron.as_str()) {
        Ok(k) => k,
        Err(_) => {
            return None;
        },
    };
    let f = match key32(q.from.as_str()) {
        Ok(k) => k,
        Err(_) => {
            return None;
        },
    };
    let t = match key32(q.to.as_str()) {
        Ok(k) => k,
        Err(_) => {
            return None;
        },
    };
    match next_pos(g, &n) {
        Some((step, prev)) => Some(link_frame(n, f, t, q.amount, q.valence, step, prev)),
        None => None,
    }
}

// ── the receipt ─────────────────────────────────────────────────────────────

/// The trimmed lines that are neither empty nor a `---` fence, in order.
pub open spec fn shown_lines(ls: Seq<Seq<char>>) -> Seq<Seq<char>>
    decreases ls.len(),
{
    if ls.len() == 0 {
        Seq::empty()
    } else {
        let t = trim(ls[0]);
        let rest = shown_lines(ls.drop_first());
        if t != "---"@ && t.len() > 0 {
            seq![t] + rest
        } else {
            rest
        }
    }
}

/// Every line shown of a receipt is trimmed, not empty, and not a fence.
pub proof fn law_shown_lines(ls: Seq<Seq<char>>)
    ensures
        forall|k: int|
            0 <= k < shown_lines(ls).len() ==> {
                let l = #[trigger] shown_lines(ls)[k];
                l.len() > 0 && l != "---"@ && exists|j: int| 0 <= j < ls.len() && l == trim(ls[j])
            },
    decreases ls.len(),
{
    if ls.len() > 0 {
        law_shown_lines(ls.drop_first());
        let rest = shown_lines(ls.drop_first());
        let t = trim(ls[0]);
        assert forall|k: int| 0 <= k < shown_lines(ls).len() implies {
            let l = #[trigger] shown_lines(ls)[k];
            l.len() > 0 && l != "---"@ && exists|j: int| 0 <= j < ls.len() && l == trim(ls[j])
        } by {
            if t != "---"@ && t.len() > 0 {
                if k == 0 {
                    assert(shown_lines(ls)[k] == trim(ls[0]));
                } else {
                    assert(shown_lines(ls)[k] == rest[k - 1]);
                    let l = rest[k - 1];
                    let j = choose|j: int| 0 <= j < ls.drop_first().len() && l == trim(ls.drop_first()[j]);
                    assert(ls.drop_first()[j] == ls[j + 1]);
                }
            } else {
                let l = rest[k];
                let j = choose|j: int| 0 <= j < ls.drop_first().len() && l == trim(ls.drop_first()[j]);
                assert(ls.drop_first()[j] == ls[j + 1]);
            }
        }
    }
}

pub open spec fn receipt_lines_spec(receipt: Seq<char>) -> Seq<Seq<char>> {
    shown_lines(lines(receipt))
}

pub open spec fn string_texts(v: Seq<String>) -> Seq<Seq<char>> {
    v.map_values(|s: String| s@)
}

proof fn lemma_shown_cons(x: Seq<char>, rest: Seq<Seq<char>>)
    ensures
        shown_lines(seq![x] + rest) == (if trim(x) != "---"@ && trim(x).len() > 0 {
            seq![trim(x)] + shown_lines(rest)
        } else {
            shown_lines(rest)
        }),
{
    let l = seq![x] + rest;
    assert(l[0] == x);
    assert(l.drop_first() =~= rest);
}

/// Appends the line `[lo, hi)` to `out` when it is shown.
fn keep_line(out: &mut Vec<String>, cs: &Vec<char>, lo: usize, hi: usize)
    requires
        lo <= hi <= cs@.len(),
    ensures
        ({
            let t = trim(cs@.subrange(lo as int, hi as int));
            string_texts(final(out)@) == string_texts(old(out)@) + (if t != "---"@ && t.len() > 0 {
                seq![t]
            } else {
                Seq::empty()
            })
        }),
{
    let (a, b) = trim_window(cs, lo, hi);
    if a < b && !window_is(cs, a, b, "---") {
        let mut line = String::new();
        push_window(&mut line, cs, a, b);
        let ghost before = out@;
        out.push(line);
        assert(string_texts(out@) =~= string_texts(before) + seq![
            cs@.subrange(a as int, b as int),
        ]);
    } else {
        assert(string_texts(out@) + Seq::<Seq<char>>::empty() =~= string_texts(out@));
    }
}

/// The lines of the peer's receipt that `cyber link` prints.
pub fn receipt_lines(receipt: &str) -> (r: Vec<String>)
    ensures
        string_texts(r@) == receipt_lines_spec(receipt@),
{
    let cs = chars_of(receipt);
    let n = cs.len();
    let mut out: Vec<String> = Vec::new();
    let mut start: usize = 0;
    let mut i: usize = 0;
    while i < n
        invariant
            start <= i <= n == cs@.len(),
            cs@ == receipt@,
            receipt_lines_spec(receipt@) == string_texts(out@) + shown_lines(
                pieces_from(cs@, start as int, i as int),
            ),
        decreases n - i,
    {
        if cs[i] == '\n' {
            proof {
                lemma_shown_cons(
                    cs@.subrange(start as int, i as int),
                    pieces_from(cs@, i + 1, i + 1),
                );
            }
            let ghost before = string_texts(out@);
            keep_line(&mut out, &cs, start, i);
            proof {
                let rest = shown_lines(pieces_from(cs@, i + 1, i + 1));
                let h = string_texts(out@).skip(before.len() as int);
                assert(string_texts(out@) =~= before + h);
                assert(before + (h + rest) =~= (before + h) + rest);
            }
            start = i + 1;
        }
        i += 1;
    }
    proof {
        lemma_shown_cons(cs@.subrange(start as int, n as int), Seq::empty());
        assert(seq![cs@.subrange(start as int, n as int)] + Seq::<Seq<char>>::empty() =~= seq![
            cs@.subrange(start as int, n as int),
        ]);
    }
    let ghost before = string_texts(out@);
    keep_line(&mut out, &cs, start, n);
    proof {
        assert(shown_lines(Seq::<Seq<char>>::empty()) =~= Seq::<Seq<char>>::empty());
        assert(string_texts(out@) =~= before + string_texts(out@).skip(before.len() as int));
    }
    out
}

} // verus!

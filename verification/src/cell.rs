//! The local cell: a cybergraph rebuilt by replaying the signal log. The
//! canon is one signal, one block: every signal that the graph accepts is
//! followed by a finalize, exactly as the node orders its own live blocks;
//! intents are applied as they come; frames the graph refuses change only
//! what `Cybergraph::link` itself changes.

use vstd::prelude::*;
use cybergraph::{Cybergraph, IntentRecord, Signal};
use crate::framing::well_framed_spec;
use crate::hexcode::{hex, hex_spec};

verus! {

#[verifier::external_type_specification]
#[verifier::external_body]
pub struct ExCybergraph(Cybergraph);

#[verifier::external_type_specification]
#[verifier::external_body]
pub struct ExSignal(Signal);

#[verifier::external_type_specification]
#[verifier::external_body]
pub struct ExIntentRecord(IntentRecord);

/// One decoded frame of the log.
pub enum Frame {
    Signal(Signal),
    Intent(IntentRecord),
}

/// The frames that `foculus::decode_events` finds in a byte stream, in wire
/// order.
pub uninterp spec fn decoded_events(bytes: Seq<u8>) -> Seq<Frame>;

/// Calls `foculus::decode_events` and moves each `CyberFrame` into a
/// `Frame`. Trusted to return the frames that the decoder yields for
/// `bytes`, in order, and none for no bytes; what the decoder accepts is
/// not modelled here. Only well-framed bytes are handed over: on others the
/// decoder's frame-end sum can overflow.
#[verifier::external_body]
pub(crate) fn decode_frames(bytes: &[u8]) -> (r: Vec<Frame>)
    requires
        well_framed_spec(bytes@),
    ensures
        r@ == decoded_events(bytes@),
        bytes@.len() == 0 ==> r@.len() == 0,
{
    foculus::decode_events(bytes).into_iter().map(
        |f| match f {
            foculus::CyberFrame::Signal(s) => Frame::Signal(s),
            foculus::CyberFrame::Intent(i) => Frame::Intent(i),
        },
    ).collect()
}

/// What `Cybergraph::link` does to a graph: whether it accepts the signal,
/// and the graph afterwards.
pub uninterp spec fn linked(g: Cybergraph, s: Signal) -> (bool, Cybergraph);

/// The sum of the public balances in the graph's store.
pub uninterp spec fn balance_total(g: Cybergraph) -> nat;

/// The amounts of the signal's links, in order.
pub uninterp spec fn link_amounts(s: Signal) -> Seq<u64>;

/// Reads the `amount` of each of the signal's links.
#[verifier::external_body]
fn signal_amounts(s: &Signal) -> (r: Vec<u64>)
    ensures
        r@ == link_amounts(*s),
{
    s.links.iter().map(|l| l.amount).collect()
}

/// The sum of a list of amounts.
pub open spec fn amount_sum(a: Seq<u64>) -> nat
    decreases a.len(),
{
    if a.len() == 0 {
        0
    } else {
        amount_sum(a.drop_last()) + a.last() as nat
    }
}

/// Calls `Cybergraph::link`; trusted to report acceptance and leave the
/// graph as `linked` says, at the same block height (only a finalize moves
/// it). An accepted link adds its amount to one public balance and takes at
/// most as much from another, so the balances' sum grows by at most the
/// signal's amounts; the `requires` keeps every balance within a `u64`,
/// where the store adds with a plain `+=`. The chain, network and
/// double-spend rules are not modelled here.
#[verifier::external_body]
fn graph_link(g: &mut Cybergraph, s: Signal) -> (ok: bool)
    requires
        balance_total(*old(g)) + amount_sum(link_amounts(s)) <= u64::MAX,
    ensures
        (ok, *final(g)) == linked(*old(g), s),
        height_of(*final(g)) == height_of(*old(g)),
        balance_total(*final(g)) <= balance_total(*old(g)) + amount_sum(link_amounts(s)),
{
    g.link(s).is_ok()
}

/// The graph after `Bbg::finalize_block` closes a block.
pub uninterp spec fn finalized(g: Cybergraph) -> Cybergraph;

/// Calls `Bbg::finalize_block` on the graph's store, which raises the block
/// height by one (below the largest height, where the raise would overflow).
#[verifier::external_body]
fn graph_finalize_block(g: &mut Cybergraph)
    requires
        height_of(*old(g)) < u64::MAX,
    ensures
        *final(g) == finalized(*old(g)),
        height_of(*final(g)) == height_of(*old(g)) + 1,
        balance_total(*final(g)) == balance_total(*old(g)),
{
    g.bbg.finalize_block();
}

/// The graph after `Bbg::apply_intent` records an intent.
pub uninterp spec fn intent_applied(g: Cybergraph, i: IntentRecord) -> Cybergraph;

/// Calls `Bbg::apply_intent` on the graph's store; the key it returns is
/// not used. The block height and the balances stay.
#[verifier::external_body]
fn graph_apply_intent(g: &mut Cybergraph, i: &IntentRecord)
    ensures
        *final(g) == intent_applied(*old(g), *i),
        height_of(*final(g)) == height_of(*old(g)),
        balance_total(*final(g)) == balance_total(*old(g)),
{
    let _ = g.bbg.apply_intent(i);
}

/// Calls `Cybergraph::new`: a graph at height 0, with no particles, no
/// axons, no balances and no neuron chains.
#[verifier::external_body]
fn new_graph() -> (r: Cybergraph)
    ensures
        height_of(r) == 0,
        balance_total(r) == 0,
        particle_count(r) == 0,
        axon_count(r) == 0,
        forall|n: Seq<u8>| #[trigger] chain_len(r, n) is None,
{
    Cybergraph::new()
}

/// One frame of the replay: a signal the graph accepts is followed by a
/// finalize and counted; a refused signal is not; an intent is applied.
pub open spec fn replay_step(st: (Cybergraph, nat), f: Frame) -> (Cybergraph, nat) {
    match f {
        Frame::Signal(s) => {
            let (ok, g) = linked(st.0, s);
            if ok {
                (finalized(g), st.1 + 1)
            } else {
                (g, st.1)
            }
        },
        Frame::Intent(i) => (intent_applied(st.0, i), st.1),
    }
}

/// The replay of `frames`, in order, from graph `g`: the graph and the
/// number of signals that it accepted.
pub open spec fn replay_fold(frames: Seq<Frame>, g: Cybergraph) -> (Cybergraph, nat)
    decreases frames.len(),
{
    if frames.len() == 0 {
        (g, 0)
    } else {
        replay_step(replay_fold(frames.drop_last(), g), frames.last())
    }
}

/// The amounts that a frame's links carry: those of a signal, none for an
/// intent.
pub open spec fn frame_amount(f: Frame) -> nat {
    match f {
        Frame::Signal(s) => amount_sum(link_amounts(s)),
        Frame::Intent(_) => 0,
    }
}

/// The amounts that all the frames' links carry.
pub open spec fn frames_amount(fs: Seq<Frame>) -> nat
    decreases fs.len(),
{
    if fs.len() == 0 {
        0
    } else {
        frames_amount(fs.drop_last()) + frame_amount(fs.last())
    }
}

proof fn lemma_frames_amount_prefix(fs: Seq<Frame>, k: int)
    requires
        0 <= k <= fs.len(),
    ensures
        frames_amount(fs.take(k)) <= frames_amount(fs),
    decreases fs.len(),
{
    if k < fs.len() {
        assert(fs.drop_last().take(k) =~= fs.take(k));
        lemma_frames_amount_prefix(fs.drop_last(), k);
    } else {
        assert(fs.take(k) =~= fs);
    }
}

proof fn lemma_amount_sum_prefix(a: Seq<u64>, k: int)
    requires
        0 <= k <= a.len(),
    ensures
        amount_sum(a.take(k)) <= amount_sum(a),
    decreases a.len(),
{
    if k < a.len() {
        assert(a.drop_last().take(k) =~= a.take(k));
        lemma_amount_sum_prefix(a.drop_last(), k);
    } else {
        assert(a.take(k) =~= a);
    }
}

/// The sum of `a`, or a number above `u64::MAX` once the sum passes it.
fn amount_total(a: &Vec<u64>) -> (r: u128)
    ensures
        r <= u64::MAX ==> r == amount_sum(a@),
        r > u64::MAX ==> amount_sum(a@) > u64::MAX,
{
    let mut acc: u128 = 0;
    let mut i: usize = 0;
    while i < a.len()
        invariant
            i <= a@.len(),
            acc == amount_sum(a@.take(i as int)),
            acc <= u64::MAX,
        decreases a@.len() - i,
    {
        assert(a@.take(i + 1).drop_last() =~= a@.take(i as int));
        acc = acc + a[i] as u128;
        i += 1;
        if acc > u64::MAX as u128 {
            proof {
                lemma_amount_sum_prefix(a@, i as int);
            }
            return acc;
        }
    }
    assert(a@.take(a@.len() as int) =~= a@);
    acc
}

/// Replays `frames` into `g` (see `replay_fold`).
pub fn replay_frames(g: Cybergraph, frames: Vec<Frame>) -> (r: (Cybergraph, u64))
    requires
        height_of(g) + frames@.len() <= u64::MAX,
        balance_total(g) + frames_amount(frames@) <= u64::MAX,
    ensures
        (r.0, r.1 as nat) == replay_fold(frames@, g),
        height_of(r.0) == height_of(g) + r.1,
{
    let ghost all = frames@;
    let ghost g0 = g;
    let n = frames.len();
    // Move the frames into `rev` last first, so that popping `rev` yields
    // them in wire order.
    let mut frames = frames;
    let mut rev: Vec<Frame> = Vec::new();
    while frames.len() > 0
        invariant
            n == all.len(),
            frames@ == all.subrange(0, frames@.len() as int),
            rev@.len() + frames@.len() == n,
            forall|j: int| 0 <= j < rev@.len() ==> #[trigger] rev@[j] == all[n - 1 - j],
        decreases frames@.len(),
    {
        let f = frames.pop().unwrap();
        rev.push(f);
        assert(frames@ =~= all.subrange(0, frames@.len() as int));
    }
    let mut g = g;
    let mut count: u64 = 0;
    let mut k: usize = 0;
    while k < n
        invariant
            n == all.len(),
            k <= n,
            rev@.len() == n - k,
            forall|j: int| 0 <= j < rev@.len() ==> #[trigger] rev@[j] == all[n - 1 - j],
            count <= k,
            height_of(g0) + n <= u64::MAX,
            height_of(g) == height_of(g0) + count,
            balance_total(g0) + frames_amount(all) <= u64::MAX,
            balance_total(g) <= balance_total(g0) + frames_amount(all.take(k as int)),
            (g, count as nat) == replay_fold(all.take(k as int), g0),
        decreases n - k,
    {
        let f = rev.pop().unwrap();
        assert(f == all[k as int]);
        assert(all.take(k + 1).drop_last() =~= all.take(k as int));
        proof {
            lemma_frames_amount_prefix(all, k + 1);
        }
        match f {
            Frame::Signal(s) => {
                if graph_link(&mut g, s) {
                    graph_finalize_block(&mut g);
                    count += 1;
                }
            },
            Frame::Intent(i) => {
                graph_apply_intent(&mut g, &i);
            },
        }
        k += 1;
    }
    assert(all.take(n as int) =~= all);
    (g, count)
}

/// A graph as `Cybergraph::new` leaves it: height 0, no particles, no axons,
/// no neuron chains.
pub open spec fn is_fresh(g: Cybergraph) -> bool {
    &&& height_of(g) == 0
    &&& particle_count(g) == 0
    &&& axon_count(g) == 0
    &&& forall|n: Seq<u8>| #[trigger] chain_len(g, n) is None
}

/// Replays a well-framed signal log into a new graph, when its links carry
/// no more than `u64::MAX` in all, so that no public balance can overflow
/// the store's arithmetic; `None` otherwise. The result is the replay of the
/// log's frames from a fresh graph, its height is the number of signals it
/// accepted, and an empty log leaves the fresh graph with no signals.
pub fn replay_log(bytes: &[u8]) -> (r: Option<(Cybergraph, u64)>)
    requires
        well_framed_spec(bytes@),
    ensures
        r is None <==> frames_amount(decoded_events(bytes@)) > u64::MAX,
        r matches Some(r) ==> {
            &&& exists|g0: Cybergraph|
                is_fresh(g0) && (r.0, r.1 as nat) == replay_fold(decoded_events(bytes@), g0)
            &&& height_of(r.0) == r.1
            &&& r.1 <= decoded_events(bytes@).len()
            &&& bytes@.len() == 0 ==> r.1 == 0 && is_fresh(r.0)
        },
{
    let g = new_graph();
    let frames = decode_frames(bytes);
    let ghost all = frames@;
    let mut total: u128 = 0;
    let mut k: usize = 0;
    while k < frames.len()
        invariant
            k <= all.len(),
            frames@ == all,
            all == decoded_events(bytes@),
            total == frames_amount(all.take(k as int)),
            total <= u64::MAX,
        decreases all.len() - k,
    {
        assert(all.take(k + 1).drop_last() =~= all.take(k as int));
        assert(all.take(k + 1).last() == all[k as int]);
        match &frames[k] {
            Frame::Signal(s) => {
                let t = amount_total(&signal_amounts(s));
                if t > u64::MAX as u128 || total + t > u64::MAX as u128 {
                    proof {
                        lemma_frames_amount_prefix(all, k + 1);
                    }
                    return None;
                }
                total = total + t;
            },
            Frame::Intent(_) => {},
        }
        k += 1;
    }
    assert(all.take(all.len() as int) =~= all);
    let ghost g0 = g;
    let count = frames.len();
    assert(frames@.len() == count);
    let r = replay_frames(g, frames);
    assert(is_fresh(g0));
    assert((r.0, r.1 as nat) == replay_fold(decoded_events(bytes@), g0));
    proof {
        law_replay_count_bounded(decoded_events(bytes@), g0);
    }
    Some(r)
}

/// An intent frame changes the graph exactly as `Bbg::apply_intent` does
/// and counts no signal, wherever it stands in the log.
pub proof fn law_replay_intent(fs: Seq<Frame>, g: Cybergraph, i: IntentRecord)
    ensures
        replay_fold(fs.push(Frame::Intent(i)), g) == (
            intent_applied(replay_fold(fs, g).0, i),
            replay_fold(fs, g).1,
        ),
        replay_fold(seq![Frame::Intent(i)], g) == (intent_applied(g, i), 0nat),
{
    assert(fs.push(Frame::Intent(i)).drop_last() =~= fs);
    let one = seq![Frame::Intent(i)];
    assert(one.drop_last() =~= Seq::<Frame>::empty());
    assert(one.last() == Frame::Intent(i));
    assert(replay_fold(Seq::<Frame>::empty(), g) == (g, 0nat));
    assert(replay_fold(one, g) == replay_step(replay_fold(one.drop_last(), g), one.last()));
}

/// A signal frame is handed to `Cybergraph::link`; when the graph accepts
/// it, one block is finalized and one signal counted, otherwise the graph
/// is what `link` left and nothing is counted.
pub proof fn law_replay_signal(fs: Seq<Frame>, g: Cybergraph, s: Signal)
    ensures
        ({
            let before = replay_fold(fs, g);
            let (ok, after) = linked(before.0, s);
            replay_fold(fs.push(Frame::Signal(s)), g) == if ok {
                (finalized(after), before.1 + 1)
            } else {
                (after, before.1)
            }
        }),
{
    assert(fs.push(Frame::Signal(s)).drop_last() =~= fs);
}

/// Replaying a sequence of frames in two parts, the second from the graph
/// the first left, is replaying them all at once: the graphs agree and the
/// counts add up.
pub proof fn law_replay_append(a: Seq<Frame>, b: Seq<Frame>, g: Cybergraph)
    ensures
        replay_fold(a + b, g) == ({
            let first = replay_fold(a, g);
            let second = replay_fold(b, first.0);
            (second.0, first.1 + second.1)
        }),
    decreases b.len(),
{
    if b.len() == 0 {
        assert(a + b =~= a);
    } else {
        assert((a + b).drop_last() =~= a + b.drop_last());
        assert((a + b).last() == b.last());
        law_replay_append(a, b.drop_last(), g);
    }
}

/// The replay counts at most one signal per frame.
pub proof fn law_replay_count_bounded(frames: Seq<Frame>, g: Cybergraph)
    ensures
        replay_fold(frames, g).1 <= frames.len(),
    decreases frames.len(),
{
    if frames.len() > 0 {
        law_replay_count_bounded(frames.drop_last(), g);
    }
}

// ── what the cell shows ─────────────────────────────────────────────────────

/// The block height of the graph's store.
pub uninterp spec fn height_of(g: Cybergraph) -> u64;

/// The number of particles in the graph's store.
pub uninterp spec fn particle_count(g: Cybergraph) -> usize;

/// The number of particles with outgoing axons in the graph's store.
pub uninterp spec fn axon_count(g: Cybergraph) -> usize;

/// The root of the graph's authenticated state.
pub uninterp spec fn root_of(g: Cybergraph) -> Seq<u8>;

/// Reads `bbg.state.height`.
#[verifier::external_body]
fn graph_height(g: &Cybergraph) -> (r: u64)
    ensures
        r == height_of(*g),
{
    g.bbg.state.height
}

/// Reads `bbg.state.particles.len()`.
#[verifier::external_body]
fn graph_particles(g: &Cybergraph) -> (r: usize)
    ensures
        r == particle_count(*g),
{
    g.bbg.state.particles.len()
}

/// Reads `bbg.state.axons_out.len()`.
#[verifier::external_body]
fn graph_axons(g: &Cybergraph) -> (r: usize)
    ensures
        r == axon_count(*g),
{
    g.bbg.state.axons_out.len()
}

/// Calls `BbgState::root`.
#[verifier::external_body]
fn graph_root(g: &Cybergraph) -> (r: [u8; 32])
    ensures
        r@ == root_of(*g),
{
    g.bbg.state.root()
}

/// What `cyber status` and `cyber sync` print of the cell.
pub struct CellSummary {
    pub height: u64,
    pub signals: u64,
    pub particles: usize,
    pub axons: usize,
    /// The root in lower-case hex.
    pub root: String,
}

pub fn cell_summary(g: &Cybergraph, signals: u64) -> (r: CellSummary)
    ensures
        r.height == height_of(*g),
        r.signals == signals,
        r.particles == particle_count(*g),
        r.axons == axon_count(*g),
        r.root@ == hex_spec(root_of(*g)),
{
    let root = graph_root(g);
    CellSummary {
        height: graph_height(g),
        signals,
        particles: graph_particles(g),
        axons: graph_axons(g),
        root: hex(&root),
    }
}

// ── the neuron's chain ──────────────────────────────────────────────────────

/// The number of signals in the chain of `neuron`, if it has a chain.
pub uninterp spec fn chain_len(g: Cybergraph, neuron: Seq<u8>) -> Option<usize>;

/// The hash of the signal at `step` in the chain of `neuron`, if there is one.
pub uninterp spec fn entry_hash(g: Cybergraph, neuron: Seq<u8>, step: u64) -> Option<Seq<u8>>;

/// Reads `chains[neuron].entries.len()`.
#[verifier::external_body]
fn chain_length(g: &Cybergraph, neuron: &[u8; 32]) -> (r: Option<usize>)
    ensures
        r == chain_len(*g, neuron@),
{
    g.chains.get(neuron).map(|c| c.entries.len())
}

/// Calls `Signal::hash` on `chains[neuron].entries[step]`.
#[verifier::external_body]
fn chain_entry_hash(g: &Cybergraph, neuron: &[u8; 32], step: u64) -> (r: Option<[u8; 32]>)
    ensures
        match r {
            Some(h) => entry_hash(*g, neuron@, step) == Some(h@),
            None => entry_hash(*g, neuron@, step) is None,
        },
{
    g.chains.get(neuron).and_then(|c| c.entries.get(&step)).map(|s| s.hash())
}

/// Where the next signal of `neuron` goes: step 0 after the zero particle
/// when its chain is missing or empty, else the chain's length after the
/// hash of its last signal. `None` when that last signal is not at the
/// step the length implies.
pub open spec fn next_pos_spec(g: Cybergraph, neuron: Seq<u8>) -> Option<(u64, Seq<u8>)> {
    match chain_len(g, neuron) {
        Some(n) if n > 0 => match entry_hash(g, neuron, (n - 1) as u64) {
            Some(h) => Some((n as u64, h)),
            None => None,
        },
        _ => Some((0, Seq::new(32, |i: int| 0u8))),
    }
}

pub fn next_pos(cg: &Cybergraph, neuron: &[u8; 32]) -> (r: Option<(u64, [u8; 32])>)
    ensures
        match r {
            Some((step, prev)) => next_pos_spec(*cg, neuron@) == Some((step, prev@)),
            None => next_pos_spec(*cg, neuron@) is None,
        },
{
    match chain_length(cg, neuron) {
        Some(n) => {
            if n > 0 {
                let step = n as u64;
                match chain_entry_hash(cg, neuron, step - 1) {
                    Some(h) => Some((step, h)),
                    None => None,
                }
            } else {
                let z = [0u8; 32];
                assert(z@ =~= Seq::new(32, |i: int| 0u8));
                Some((0, z))
            }
        },
        None => {
            let z = [0u8; 32];
            assert(z@ =~= Seq::new(32, |i: int| 0u8));
            Some((0, z))
        },
    }
}

} // verus!

//! `cyber sync`: the endpoints it uses, what it does with the bytes the
//! peer serves, and its verdict. The root is recomputed locally from the
//! replayed log; the peer's word is only compared against it.

use vstd::prelude::*;
use crate::cell::decoded_events;
use crate::framing::well_framed_spec;
use crate::text::{chars_of, decimal, push_decimal, same_text, string_of};

verus! {

/// The text without its trailing `/` characters.
pub open spec fn trim_slashes(s: Seq<char>) -> Seq<char>
    decreases s.len(),
{
    if s.len() > 0 && s.last() == '/' {
        trim_slashes(s.drop_last())
    } else {
        s
    }
}

/// The base URL of an RPC endpoint: `str::trim_end_matches('/')`.
pub fn base_url(rpc: &str) -> (r: String)
    ensures
        r@ == trim_slashes(rpc@),
{
    let cs = chars_of(rpc);
    let mut j = cs.len();
    assert(cs@.subrange(0, j as int) =~= rpc@);
    while j > 0 && cs[j - 1] == '/'
        invariant
            j <= cs@.len(),
            cs@ == rpc@,
            trim_slashes(cs@.subrange(0, j as int)) == trim_slashes(rpc@),
        decreases j,
    {
        assert(cs@.subrange(0, j as int).drop_last() =~= cs@.subrange(0, j - 1));
        j -= 1;
    }
    let r = string_of(&cs, 0, j);
    r
}

/// Trimming the slashes of a base URL twice is trimming them once.
pub proof fn law_base_url_idempotent(s: Seq<char>)
    ensures
        trim_slashes(trim_slashes(s)) == trim_slashes(s),
        trim_slashes(s).len() == 0 || trim_slashes(s).last() != '/',
    decreases s.len(),
{
    if s.len() > 0 && s.last() == '/' {
        law_base_url_idempotent(s.drop_last());
    }
}

/// The log endpoint, asking for the bytes after the first `from`.
pub open spec fn log_url_spec(base: Seq<char>, from: u64) -> Seq<char> {
    base + "/log?from="@ + decimal(from as nat)
}

pub fn log_url(base: &str, from: u64) -> (r: String)
    ensures
        r@ == log_url_spec(base@, from),
{
    let mut u = base.to_owned();
    u.append("/log?from=");
    push_decimal(&mut u, from);
    u
}

/// The endpoint that takes a signal frame.
pub open spec fn frame_url_spec(base: Seq<char>) -> Seq<char> {
    base + "/v1/frame"@
}

pub fn frame_url(base: &str) -> (r: String)
    ensures
        r@ == frame_url_spec(base@),
{
    let mut u = base.to_owned();
    u.append("/v1/frame");
    u
}

/// What became of the bytes pulled from the peer's log.
#[derive(Clone, Copy, Debug, PartialEq, Eq)]
pub enum Pull {
    /// The peer had nothing past what the cell holds.
    NothingNew,
    /// Bytes came but no frame decodes from them; they are not kept.
    Undecodable,
    /// This many frames decode; the bytes are appended to the log.
    Frames(usize),
}

pub open spec fn pull_spec(len: nat, frames: nat) -> Pull {
    if len == 0 {
        Pull::NothingNew
    } else if frames == 0 {
        Pull::Undecodable
    } else {
        Pull::Frames(frames as usize)
    }
}

/// Sorts well-framed pulled bytes by the frames that decode from them.
pub fn pull_outcome(bytes: &[u8]) -> (r: Pull)
    requires
        well_framed_spec(bytes@),
    ensures
        r == pull_spec(bytes@.len(), decoded_events(bytes@).len()),
{
    if bytes.len() == 0 {
        return Pull::NothingNew;
    }
    let frames = crate::cell::decode_frames(bytes).len();
    if frames == 0 {
        Pull::Undecodable
    } else {
        Pull::Frames(frames)
    }
}

/// The verdict of a sync.
#[derive(Clone, Copy, Debug, PartialEq, Eq)]
pub enum Verdict {
    /// The peer serves no log; its root is shown but nothing is checked.
    NotReplicated,
    /// The locally recomputed root stands: the peer claims none or the same.
    Verified,
    /// The replay disagrees with the peer's claimed root.
    Disagrees,
}

pub open spec fn verdict_spec(replicated: bool, local_root: Seq<char>, peer_root: Seq<char>) -> Verdict {
    if !replicated {
        Verdict::NotReplicated
    } else if peer_root.len() == 0 || local_root == peer_root {
        Verdict::Verified
    } else {
        Verdict::Disagrees
    }
}

pub fn sync_verdict(replicated: bool, local_root: &str, peer_root: &str) -> (v: Verdict)
    ensures
        v == verdict_spec(replicated, local_root@, peer_root@),
{
    if !replicated {
        Verdict::NotReplicated
    } else if peer_root.unicode_len() == 0 || same_text(local_root, peer_root) {
        Verdict::Verified
    } else {
        Verdict::Disagrees
    }
}

/// A sync that replicated nothing never claims a verification, whatever the
/// roots; a replicated sync verifies exactly when the peer's claimed root is
/// empty or is the locally recomputed one, so a peer can never make a replay
/// that disagrees with it pass.
pub proof fn law_verified_iff_roots_agree(local_root: Seq<char>, peer_root: Seq<char>)
    ensures
        verdict_spec(false, local_root, peer_root) == Verdict::NotReplicated,
        verdict_spec(true, local_root, peer_root) == Verdict::Verified <==> (peer_root.len() == 0
            || local_root == peer_root),
        peer_root.len() > 0 && local_root != peer_root ==> verdict_spec(true, local_root, peer_root)
            == Verdict::Disagrees,
{
}

} // verus!

//! Identity keys: the node reads a neuron or particle label either as a hex
//! particle or, failing that, as the Hemera hash of the label's bytes.

use vstd::prelude::*;
use crate::hexcode::{hex_spec, law_hex_roundtrip, parse_hex32, parse_hex32_spec};

verus! {

/// What `cyber_hemera::hash` returns for the given input bytes: the 32 bytes
/// of the Poseidon2 digest.
pub uninterp spec fn hemera_hash(input: Seq<u8>) -> Seq<u8>;

/// Calls `cyber_hemera::hash` and copies out the 32 digest bytes. Trusted to
/// return exactly the digest of `input`; the hash function itself is not
/// modelled here.
#[verifier::external_body]
fn hemera_digest(input: &[u8]) -> (r: [u8; 32])
    ensures
        r@ == hemera_hash(input@),
{
    *cyber_hemera::hash(input).as_bytes()
}

/// The key that a label names: the particle it spells in hex, else the
/// Hemera hash of its UTF-8 bytes.
pub open spec fn key32_spec(s: Seq<char>) -> Seq<u8> {
    match parse_hex32_spec(s) {
        Some(p) => p,
        None => hemera_hash(vstd::utf8::encode_utf8(s)),
    }
}

/// The 32-byte key for a label (see `key32_spec`); it never fails.
pub fn key32(s: &str) -> (r: Result<[u8; 32], String>)
    ensures
        r matches Ok(k) && k@ == key32_spec(s@),
{
    if let Some(p) = parse_hex32(s) {
        return Ok(p);
    }
    Ok(hemera_digest(s.as_bytes()))
}

/// A particle printed in hex names itself: reading the hex back as a label
/// gives the particle, not a hash.
pub proof fn law_key_of_hex(p: Seq<u8>)
    requires
        p.len() == 32,
    ensures
        key32_spec(hex_spec(p)) == p,
{
    law_hex_roundtrip(p);
}

} // verus!

//! Derivation of the `Sec-WebSocket-Accept` value from a client's
//! `Sec-WebSocket-Key`: the key, the fixed RFC 6455 GUID appended,
//! hashed with SHA-1 and encoded as standard base64 with padding.

use vstd::prelude::*;

use rustc_serialize::base64::ToBase64;
use sha1::Digest;

verus! {

/// The 20-byte SHA-1 digest of a byte sequence.  The function itself
/// is left unstated; the `sha1` crate computes it.
pub uninterp spec fn sha1_of(data: Seq<u8>) -> Seq<u8>;

/// The standard, padded base64 rendering of a byte sequence.  The
/// function itself is left unstated; the `rustc-serialize` crate
/// computes it.
pub uninterp spec fn base64_of(data: Seq<u8>) -> Seq<u8>;

/// Relies on `sha1::Sha1` (through the `Digest` trait): the digest is a
/// function of the input bytes alone and is 20 bytes long.
#[verifier::external_body]
fn sha1_digest(data: &Vec<u8>) -> (r: Vec<u8>)
    ensures
        r@ == sha1_of(data@),
        r@.len() == 20,
{
    let mut h = sha1::Sha1::new();
    h.update(data.as_slice());
    h.finalize().to_vec()
}

/// Relies on `rustc_serialize::base64::ToBase64` with the `STANDARD`
/// config: the rendering is a function of the input bytes alone.
#[verifier::external_body]
fn base64_encode(data: &Vec<u8>) -> (r: Vec<u8>)
    ensures
        r@ == base64_of(data@),
{
    data.as_slice().to_base64(rustc_serialize::base64::STANDARD).into_bytes()
}

/// The fixed GUID of RFC 6455, `258EAFA5-E914-47DA-95CA-C5AB0DC85B11`,
/// as ASCII bytes.
pub open spec fn guid() -> Seq<u8> {
    seq![50u8, 53, 56, 69, 65, 70, 65, 53, 45, 69, 57, 49, 52, 45, 52, 55, 68, 65, 45, 57, 53, 67,
        65, 45, 67, 53, 65, 66, 48, 68, 67, 56, 53, 66, 49, 49]
}

/// Builds the GUID as a byte vector.
pub fn guid_bytes() -> (r: Vec<u8>)
    ensures
        r@ == guid(),
{
    let mut v: Vec<u8> = Vec::new();
    v.push(50);
    v.push(53);
    v.push(56);
    v.push(69);
    v.push(65);
    v.push(70);
    v.push(65);
    v.push(53);
    v.push(45);
    v.push(69);
    v.push(57);
    v.push(49);
    v.push(52);
    v.push(45);
    v.push(52);
    v.push(55);
    v.push(68);
    v.push(65);
    v.push(45);
    v.push(57);
    v.push(53);
    v.push(67);
    v.push(65);
    v.push(45);
    v.push(67);
    v.push(53);
    v.push(65);
    v.push(66);
    v.push(48);
    v.push(68);
    v.push(67);
    v.push(56);
    v.push(53);
    v.push(66);
    v.push(49);
    v.push(49);
    proof {
        assert(v@ =~= guid());
    }
    v
}

/// The accept value a server owes for a given client key.
pub open spec fn accept_key_spec(key: Seq<u8>) -> Seq<u8> {
    base64_of(sha1_of(key + guid()))
}

/// Computes the `Sec-WebSocket-Accept` value for a client key: base64
/// of the SHA-1 digest of the key with the GUID appended.
pub fn accept_key(key: &Vec<u8>) -> (r: Vec<u8>)
    ensures
        r@ == accept_key_spec(key@),
{
    let mut input = crate::bytes::vec_copy(key);
    let mut g = guid_bytes();
    input.append(&mut g);
    let digest = sha1_digest(&input);
    base64_encode(&digest)
}

/// The accept value is deterministic: it depends on the client key
/// alone, so equal keys are owed equal accept values.
pub proof fn lemma_accept_key_deterministic(k1: Seq<u8>, k2: Seq<u8>)
    requires
        k1 == k2,
    ensures
        accept_key_spec(k1) == accept_key_spec(k2),
{
}

} // verus!

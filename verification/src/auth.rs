//! Signature verification for command envelopes: ECDSA P-384 over the
//! canonical command text with the decimal timestamp appended, and the
//! freshness window on that timestamp.

use vstd::prelude::*;
use crate::command::{ProxyCommand, spec_signed_message, serialize_signed_message, spec_sig_bytes};

verus! {

/// Whether some bytes are a valid SEC1 encoding of a P-384 public key. The
/// name stands for what `p384::ecdsa::VerifyingKey::from_sec1_bytes`
/// accepts, which depends on the bytes alone.
pub uninterp spec fn p384_key_valid(key_bytes: Seq<u8>) -> bool;

/// Whether a raw 96-byte ECDSA P-384 signature over a message verifies
/// under a SEC1-encoded public key. The name stands for the outcome of
/// p384's ECDSA verification (SHA-384), which depends on the key bytes, the
/// message and the signature bytes alone; it is false whenever the key or
/// signature bytes are malformed.
pub uninterp spec fn p384_verify_ok(key_bytes: Seq<u8>, message: Seq<char>, signature: Seq<u8>) -> bool;

/// Relies on `p384::ecdsa::VerifyingKey::from_sec1_bytes`: whether it
/// accepts the bytes is a function of the bytes alone.
#[verifier::external_body]
pub(crate) fn p384_key_parses(key_bytes: &Vec<u8>) -> (r: bool)
    ensures
        r == p384_key_valid(key_bytes@),
{
    p384::ecdsa::VerifyingKey::from_sec1_bytes(key_bytes.as_slice()).is_ok()
}

/// Relies on `p384::ecdsa::VerifyingKey::from_sec1_bytes`,
/// `p384::ecdsa::Signature::from_slice` and the `Verifier` impl of
/// `p384::ecdsa::VerifyingKey` (ECDSA over SHA-384): the outcome is a
/// function of the key bytes, the message and the signature bytes alone,
/// and a malformed key or signature never verifies.
#[verifier::external_body]
pub(crate) fn p384_verify(key_bytes: &Vec<u8>, message: &str, signature: &Vec<u8>) -> (r: bool)
    ensures
        r == p384_verify_ok(key_bytes@, message@, signature@),
{
    let key = match p384::ecdsa::VerifyingKey::from_sec1_bytes(key_bytes.as_slice()) {
        Ok(k) => k,
        Err(_) => return false,
    };
    let sig = match p384::ecdsa::Signature::from_slice(signature.as_slice()) {
        Ok(sg) => sg,
        Err(_) => return false,
    };
    p384::ecdsa::signature::Verifier::verify(&key, message.as_bytes(), &sig).is_ok()
}

/// The freshness window: a timestamp is fresh at `now` when it is at most
/// 30 seconds in the future and at most 60 seconds old.
pub open spec fn spec_fresh(timestamp: u64, now: u64) -> bool {
    timestamp as int <= now as int + 30 && now as int <= timestamp as int + 60
}

/// The whole verification rule, at a given time: without a configured key
/// everything is accepted; with one, the envelope must carry a signature
/// and a timestamp, the signature must verify over the signed surface, and
/// the timestamp must be fresh.
pub open spec fn spec_verify_at(pc: ProxyCommand, key: Option<Seq<u8>>, now: u64) -> bool {
    match key {
        None => true,
        Some(k) => match (pc.signature, pc.timestamp) {
            (Some(sig), Some(ts)) => p384_verify_ok(
                k,
                spec_signed_message(pc.command, ts),
                sig@,
            ) && spec_fresh(ts, now),
            _ => false,
        },
    }
}

impl ProxyCommand {
    /// Verify this envelope against an optional configured key, with `now`
    /// in unix seconds supplied by the caller.
    pub fn verify_signature_at(&self, verifying_key: &Option<Vec<u8>>, now: u64) -> (r: bool)
        ensures
            r == spec_verify_at(*self, spec_sig_bytes(*verifying_key), now),
    {
        match verifying_key {
            None => true,
            Some(key) => match (&self.signature, &self.timestamp) {
                (Some(sig), Some(ts)) => {
                    let message = serialize_signed_message(&self.command, *ts);
                    if !p384_verify(key, message.as_str(), sig) {
                        false
                    } else {
                        let not_future = *ts <= now || *ts - now <= 30;
                        let not_old = now <= *ts || now - *ts <= 60;
                        not_future && not_old
                    }
                },
                _ => false,
            },
        }
    }
}

/// With a configured key and a fresh timestamp, acceptance is exactly the
/// ECDSA verdict over the signed surface: an envelope whose signature was
/// made with the matching signing key over the canonical command text plus
/// the decimal timestamp verifies, and any envelope whose signature bytes do
/// not verify over that exact surface is rejected.
pub proof fn lemma_verification_is_the_ecdsa_verdict(pc: ProxyCommand, key: Seq<u8>, now: u64)
    requires
        pc.timestamp is Some,
        pc.signature is Some,
        spec_fresh(pc.timestamp->Some_0, now),
    ensures
        spec_verify_at(pc, Some(key), now) == p384_verify_ok(
            key,
            spec_signed_message(pc.command, pc.timestamp->Some_0),
            pc.signature->Some_0@,
        ),
{
}

/// Freshness law: a timestamp more than 30 seconds in the future or more
/// than 60 seconds old is rejected at `now`, whatever the key and however
/// valid the signature.
pub proof fn lemma_stale_rejected(pc: ProxyCommand, key: Seq<u8>, now: u64)
    requires
        pc.timestamp is Some,
        pc.timestamp->Some_0 as int > now as int + 30 || (pc.timestamp->Some_0 as int) + 60 < (
        now as int),
    ensures
        !spec_verify_at(pc, Some(key), now),
{
}

} // verus!

//! The address-derivation collaborator: an outside one-way function from a
//! candidate's fixed-width hex encoding to a public address string. The scan
//! engine never looks inside it; it only compares its output to the target.

use vstd::prelude::*;
use crate::hexfmt::key_hex_spec;

verus! {

/// The address the outside derivation collaborator yields for a fixed-width
/// hex encoding, `None` where it rejects the encoding as malformed or out of
/// its scalar domain. The outcome depends on the encoding alone.
pub uninterp spec fn derived_address(encoding: Seq<char>) -> Option<Seq<char>>;

/// Whether scalar `k`'s fixed-width encoding derives exactly the target
/// address: the success condition of the whole scan.
#[verifier::opaque]
pub open spec fn key_matches(k: u128, target: Seq<char>) -> bool {
    derived_address(key_hex_spec(k)) == Some(target)
}

/// No scalar in the inclusive span `[lo, hi]` derives the target address.
pub open spec fn no_match_between(lo: int, hi: int, target: Seq<char>) -> bool {
    forall|k: u128| lo <= k <= hi ==> !(#[trigger] key_matches(k, target))
}

/// Relies on `hex::decode`, `bitcoin::PrivateKey::from_slice`,
/// `bitcoin::PublicKey::from_private_key`, `bitcoin::Address::p2pkh` and the
/// address's display form: together they map a hex-encoded secp256k1 scalar
/// to its compressed-key mainnet P2PKH address string, rejecting a malformed
/// encoding or an out-of-domain scalar. Each step is a deterministic
/// function of the encoding alone, so the whole call is named by
/// `derived_address`; a rejection is reported as `None`.
#[verifier::external_body]
pub fn derive_address(encoding: &str) -> (r: Option<String>)
    ensures
        match r {
            Some(a) => derived_address(encoding@) == Some(a@),
            None => derived_address(encoding@) is None,
        },
{
    let bytes = match hex::decode(encoding) {
        Ok(b) => b,
        Err(_) => return None,
    };
    let sk = match bitcoin::PrivateKey::from_slice(&bytes, bitcoin::Network::Bitcoin) {
        Ok(k) => k,
        Err(_) => return None,
    };
    let secp = secp256k1::Secp256k1::new();
    let pk = bitcoin::PublicKey::from_private_key(&secp, &sk);
    Some(bitcoin::Address::p2pkh(&pk, bitcoin::Network::Bitcoin).to_string())
}

/// Whether one derivation outcome hits the target address: a rejected
/// encoding is a non-match, never an error.
pub fn outcome_hits(outcome: &Option<String>, target: &str) -> (r: bool)
    ensures
        r == match outcome {
            Some(a) => a@ == target@,
            None => false,
        },
{
    match outcome {
        Some(a) => {
            let t = target.to_owned();
            *a == t
        },
        None => false,
    }
}

/// Derives one candidate scalar's address and compares it to the target.
pub fn candidate_matches(k: u128, target: &str) -> (r: bool)
    ensures
        r == key_matches(k, target@),
{
    proof {
        reveal(key_matches);
    }
    let enc = crate::hexfmt::key_hex(k);
    let outcome = derive_address(enc.as_str());
    outcome_hits(&outcome, target)
}

} // verus!

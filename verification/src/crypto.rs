//! Secret derivation and the encrypted challenge.
//!
//! A ticket's secret is derived deterministically from the event's entropy
//! seed and the ticket id, so the contract can reproduce it while third
//! parties lacking the entropy cannot predict it. The same entropy value
//! also seeds the pseudo-random generator that pads the RSA encryption of
//! the secret — reusing it this way undermines the semantic security of the
//! encryption; the flaw is part of the protocol as specified and is kept
//! deliberately rather than silently repaired.

use vstd::prelude::*;

use rand::SeedableRng;
use rand_chacha::ChaChaRng;
use rsa::pkcs8::DecodePublicKey;
use rsa::{Pkcs1v15Encrypt, RsaPublicKey};

use crate::codec::be_bytes_16;

verus! {

/// The per-ticket secret: the event entropy mixed with the ticket id,
/// nudged away from zero because a stored secret of zero means "no secret".
pub open spec fn spec_derive_secret(entropy: u128, ticket_id: u128) -> u128 {
    let mixed = entropy ^ ((ticket_id << 64u128) | (ticket_id >> 64u128));
    if mixed == 0 {
        1u128
    } else {
        mixed
    }
}

pub fn derive_secret(entropy: u128, ticket_id: u128) -> (r: u128)
    ensures
        r == spec_derive_secret(entropy, ticket_id),
        r != 0,
{
    let rotated = (ticket_id << 64u128) | (ticket_id >> 64u128);
    let mixed = entropy ^ rotated;
    if mixed == 0 {
        1
    } else {
        mixed
    }
}

/// The 32-byte generator seed an event's entropy expands to: the big-endian
/// form of the entropy, twice.
pub open spec fn seed_of(entropy: u128) -> Seq<u8> {
    be_bytes_16(entropy) + be_bytes_16(entropy)
}

pub fn make_seed(entropy: u128) -> (r: Vec<u8>)
    ensures
        r@ == seed_of(entropy),
        r@.len() == 32,
{
    let mut r = crate::codec::u128_to_be_bytes(entropy);
    let mut second = crate::codec::u128_to_be_bytes(entropy);
    r.append(&mut second);
    r
}

/// What encrypting a message under a PEM-armored RSA public key with
/// PKCS#1 v1.5 padding yields when every padding byte is drawn from a
/// generator with the given 32-byte seed; `None` when the key text cannot
/// be used.
pub uninterp spec fn encrypted_challenge(seed: Seq<u8>, pem: Seq<u8>, msg: Seq<u8>) -> Option<
    Seq<u8>,
>;

/// Relies on `rsa`'s `RsaPublicKey::from_public_key_pem` and
/// `RsaPublicKey::encrypt` with `Pkcs1v15Encrypt` padding, with the padding
/// bytes drawn from `rand_chacha`'s `ChaChaRng` seeded through `rand`'s
/// `SeedableRng::from_seed`. Every step is a deterministic function of the
/// seed bytes, the key text and the message, so the outcome is the value
/// named by [`encrypted_challenge`]; `None` comes exactly when the key text
/// is unusable (not UTF-8, not a PEM RSA public key) or the message cannot
/// be padded into the key's modulus.
#[verifier::external_body]
pub(crate) fn encrypt_challenge(seed: &Vec<u8>, pem: &Vec<u8>, msg: &Vec<u8>) -> (r: Option<
    Vec<u8>,
>)
    requires
        seed@.len() == 32,
    ensures
        match r {
            Some(c) => encrypted_challenge(seed@, pem@, msg@) == Some(c@),
            None => encrypted_challenge(seed@, pem@, msg@) is None,
        },
{
    let mut arr = [0u8; 32];
    arr.copy_from_slice(seed.as_slice());
    let mut rng = ChaChaRng::from_seed(arr);
    let text = match core::str::from_utf8(pem.as_slice()) {
        Ok(t) => t,
        Err(_) => return None,
    };
    let key = match RsaPublicKey::from_public_key_pem(text) {
        Ok(k) => k,
        Err(_) => return None,
    };
    key.encrypt(&mut rng, Pkcs1v15Encrypt, msg.as_slice()).ok()
}

} // verus!

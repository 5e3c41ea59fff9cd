use vstd::prelude::*;

use crate::b64::{b64_encode, b64_of};
use crate::errors::StoreError;
use rand::rngs::OsRng;
use rand::RngCore;
use vstd::utf8::encode_utf8;

verus! {

/// The 32-byte key that Argon2 (default parameters) derives from a master
/// password and a salt.  Fixed parameters keep it one mathematical function
/// of its two arguments, so a store's entries stay decryptable for as long
/// as the store lives.
pub uninterp spec fn argon2_key(password: Seq<u8>, salt: Seq<u8>) -> Seq<u8>;

/// Relies on rand's `OsRng::fill_bytes` for cryptographically secure random
/// bytes.  Nothing can be promised of random contents beyond the length.
#[verifier::external_body]
fn random_bytes(n: usize) -> (r: Vec<u8>)
    ensures
        r@.len() == n,
{
    let mut v = vec![0u8; n];
    OsRng.fill_bytes(&mut v);
    v
}

/// Relies on argon2's `Argon2::default().hash_password_into`, which fills the
/// 32-byte output deterministically from password and salt, and rejects its
/// inputs exactly when the salt is shorter than 8 or longer than 0xFFFFFFFF
/// bytes, or the password is longer than 0xFFFFFFFF bytes.
#[verifier::external_body]
fn argon2_derive(password: &[u8], salt: &[u8]) -> (r: Option<[u8; 32]>)
    ensures
        r matches Some(k) ==> k@ == argon2_key(password@, salt@),
        r is Some <==> (8 <= salt@.len() <= 0xFFFFFFFFu64 && password@.len()
            <= 0xFFFFFFFFu64),
{
    let mut out = [0u8; 32];
    match argon2::Argon2::default().hash_password_into(password, salt, &mut out) {
        Ok(()) => Some(out),
        Err(_) => None,
    }
}

/// A fresh store salt: 32 random bytes, base64-encoded for the store's
/// metadata.
pub fn generate_salt() -> (r: String)
    ensures
        exists|b: Seq<u8>| b.len() == 32 && r@ == b64_of(b),
        r@.len() == 44,
{
    let bytes = random_bytes(32);
    let encoded = b64_encode(bytes.as_slice());
    proof {
        assert(bytes@.len() == 32 && encoded@ == b64_of(bytes@));
    }
    encoded
}

/// Derives the 32-byte symmetric key for a store from the master password
/// and the store's decoded salt.  Deterministic: the same password and salt
/// always yield the same key.
pub fn hash_password(master_password: &str, salt: Vec<u8>) -> (r: Result<
    [u8; 32],
    StoreError,
>)
    ensures
        r matches Ok(k) ==> k@ == argon2_key(encode_utf8(master_password@), salt@),
        r is Ok <==> (8 <= salt@.len() <= 0xFFFFFFFFu64 && encode_utf8(
            master_password@,
        ).len() <= 0xFFFFFFFFu64),
        r is Err ==> r == Err::<[u8; 32], StoreError>(StoreError::KeyDerivation),
{
    match argon2_derive(master_password.as_bytes(), salt.as_slice()) {
        Some(k) => Ok(k),
        None => Err(StoreError::KeyDerivation),
    }
}

/// Law: key derivation is deterministic.  Two derivations from the same
/// master password and the same salt yield the same key.
pub proof fn lemma_derivation_deterministic(
    password: Seq<u8>,
    salt: Seq<u8>,
    k1: Seq<u8>,
    k2: Seq<u8>,
)
    requires
        k1 == argon2_key(password, salt),
        k2 == argon2_key(password, salt),
    ensures
        k1 == k2,
{
}

} // verus!

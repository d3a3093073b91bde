//! Hashing, Ed25519 signing and verification, randomness and the clock.

use sha2::Digest;
use vstd::prelude::*;

verus! {

/// The SHA-256 digest of a byte string.
pub uninterp spec fn sha256_of(data: Seq<u8>) -> Seq<u8>;

/// The Ed25519 public key that belongs to a 32-byte secret key.
pub uninterp spec fn public_key_of(secret: Seq<u8>) -> Seq<u8>;

/// The Ed25519 signature that a secret key makes over a message, in its
/// upper-case hexadecimal form.
pub uninterp spec fn signature_of(secret: Seq<u8>, message: Seq<u8>) -> Seq<char>;

/// Whether `signature` (hexadecimal) is a valid Ed25519 signature over
/// `message` under the 32-byte public key `public`.
pub uninterp spec fn signature_valid(public: Seq<u8>, message: Seq<u8>, signature: Seq<char>) -> bool;

/// Relies on `sha2::Sha256::digest`: the SHA-256 digest of `data`.
#[verifier::external_body]
pub fn sha256(data: &[u8]) -> (r: [u8; 32])
    ensures
        r@ == sha256_of(data@),
{
    sha2::Sha256::digest(data).into()
}

/// Relies on `iroh_base::SecretKey::public`: the public key of a secret key.
#[verifier::external_body]
pub(crate) fn derive_public_key(secret: &[u8; 32]) -> (r: [u8; 32])
    ensures
        r@ == public_key_of(secret@),
{
    *iroh_base::SecretKey::from_bytes(secret).public().as_bytes()
}

/// Relies on `iroh_base::SecretKey::sign`: Ed25519 signing is deterministic,
/// and a signature made with a secret key verifies under its public key.
#[verifier::external_body]
pub(crate) fn sign_message(secret: &[u8; 32], message: &[u8]) -> (r: String)
    ensures
        r@ == signature_of(secret@, message@),
        signature_valid(public_key_of(secret@), message@, r@),
{
    iroh_base::SecretKey::from_bytes(secret).sign(message).to_string()
}

/// Relies on `iroh_base::PublicKey::verify`: true exactly when the key is a
/// valid curve point, the text parses as a signature and the signature
/// verifies.
#[verifier::external_body]
pub(crate) fn verify_message(public: &[u8; 32], message: &[u8], signature: &str) -> (r: bool)
    ensures
        r == signature_valid(public@, message@, signature@),
{
    let key = match iroh_base::PublicKey::from_bytes(public) {
        Ok(key) => key,
        Err(_) => return false,
    };
    let signature: ed25519::Signature = match signature.parse() {
        Ok(signature) => signature,
        Err(_) => return false,
    };
    key.verify(message, &signature).is_ok()
}

/// Relies on `rand::fill`: 32 bytes from the thread's cryptographic
/// generator.
#[verifier::external_body]
pub(crate) fn random_secret() -> (r: [u8; 32]) {
    let mut secret = [0u8; 32];
    rand::fill(&mut secret[..]);
    secret
}

/// Relies on `rand::random`: a uniformly drawn 128-bit value.
#[verifier::external_body]
pub(crate) fn random_u128() -> (r: u128) {
    rand::random::<u128>()
}

/// Relies on `std::time::SystemTime::now`: whole seconds since the Unix
/// epoch, or `None` when the clock reads earlier than the epoch.
#[verifier::external_body]
pub(crate) fn system_seconds() -> (r: Option<u64>) {
    std::time::SystemTime::now().duration_since(std::time::UNIX_EPOCH).ok().map(|d| d.as_secs())
}

/// The current time in whole seconds since the Unix epoch; 0 when the clock
/// reads earlier than the epoch.
pub fn get_epoch() -> (r: u64) {
    match system_seconds() {
        Some(s) => s,
        None => 0,
    }
}

} // verus!

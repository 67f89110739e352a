//! One-way credential hashing and verification, at a fixed conservative
//! work factor.
//!
//! The digest of a secret is self-salted and irreversible; checking a
//! secret against a digest recomputes under the digest's own salt and
//! compares in constant time. A malformed digest surfaces as an internal
//! error, never as a wrong password.

use vstd::prelude::*;

use crate::errors::CustomError;

verus! {

/// The fixed bcrypt work factor for new digests.
pub const HASH_COST: u32 = 8;

/// What checking a secret against a digest yields: `Some(true)` when the
/// digest was computed from the secret, `Some(false)` when it is a
/// well-formed digest of another secret, `None` when the digest itself is
/// malformed. A function of the two texts alone: the salt and cost are
/// read from the digest.
pub uninterp spec fn bcrypt_check(secret: Seq<char>, digest: Seq<char>) -> Option<bool>;

/// The outcome [`verify_password`] owes for a secret and a digest.
pub open spec fn verify_outcome(secret: Seq<char>, digest: Seq<char>) -> Result<
    bool,
    CustomError,
> {
    match bcrypt_check(secret, digest) {
        Some(b) => Ok(b),
        None => Err(CustomError::InternalError),
    }
}

/// Relies on `bcrypt::hash`: the digest it returns under fresh random salt
/// verifies against the secret it was computed from, by `bcrypt::verify`'s
/// own recompute-and-compare. Randomness may fail, so success is not owed.
#[verifier::external_body]
fn bcrypt_hash(secret: &str) -> (r: Option<String>)
    ensures
        r matches Some(h) ==> bcrypt_check(secret@, h@) == Some(true),
{
    bcrypt::hash(secret, HASH_COST).ok()
}

/// Relies on `bcrypt::verify`: it parses the digest, recomputes the hash
/// of the secret under the digest's salt and cost, and compares; its
/// outcome is a function of secret and digest alone, and it errs exactly
/// on a digest it cannot parse.
#[verifier::external_body]
fn bcrypt_verify(secret: &str, digest: &str) -> (r: Option<bool>)
    ensures
        r == bcrypt_check(secret@, digest@),
{
    bcrypt::verify(secret, digest).ok()
}

/// Hashes a secret into a self-salted, irreversible digest. The digest
/// returned verifies against the secret; only a randomness failure in the
/// salt is reported as an internal error.
pub fn hash_password(password: &str) -> (r: Result<String, CustomError>)
    ensures
        match r {
            Ok(h) => bcrypt_check(password@, h@) == Some(true),
            Err(e) => e == CustomError::InternalError,
        },
{
    match bcrypt_hash(password) {
        Some(h) => Ok(h),
        None => Err(CustomError::InternalError),
    }
}

/// Checks a secret against a stored digest: `Ok(true)` exactly when the
/// digest was computed from the secret, `Ok(false)` for a well-formed
/// digest of another secret, and an internal error for a malformed digest.
pub fn verify_password(password: &str, hashed: &str) -> (r: Result<bool, CustomError>)
    ensures
        r == verify_outcome(password@, hashed@),
{
    match bcrypt_verify(password, hashed) {
        Some(b) => Ok(b),
        None => Err(CustomError::InternalError),
    }
}

/// A secret always verifies against a digest hashed from it: whenever
/// hashing a secret yielded a digest, checking that same secret against
/// that digest returns `Ok(true)`.
pub proof fn lemma_hash_then_verify(secret: Seq<char>, digest: Seq<char>)
    requires
        bcrypt_check(secret, digest) == Some(true),
    ensures
        verify_outcome(secret, digest) == Ok::<bool, CustomError>(true),
{
}

} // verus!

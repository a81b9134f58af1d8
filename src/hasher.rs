//! Password hasher: a fresh random salt per credential and a SHA-256 digest
//! of the salt followed by the password, checked in constant time.
use vstd::prelude::*;

use crate::seqs::{concat, slice_to_vec};

verus! {

/// Length of a salt in bytes.
pub const SALT_SIZE: usize = 16;

/// Length of a SHA-256 digest in bytes.
pub const DIGEST_SIZE: usize = 32;

/// Length of a stored credential: the salt followed by the digest.
pub const SALTED_SIZE: usize = 48;

#[verifier::external_type_specification]
#[verifier::external_body]
pub struct ExErrorStack(openssl::error::ErrorStack);

/// The SHA-256 digest of `data`.
pub uninterp spec fn sha256_of(data: Seq<u8>) -> Seq<u8>;

/// Relies on openssl::hash::hash with MessageDigest::sha256: when it
/// succeeds it returns the SHA-256 digest of `data`, which is 32 bytes long
/// and depends on `data` alone.
#[verifier::external_body]
fn sha256(data: &[u8]) -> (r: Result<Vec<u8>, openssl::error::ErrorStack>)
    ensures
        r is Ok ==> r->Ok_0@ == sha256_of(data@) && r->Ok_0@.len() == DIGEST_SIZE,
{
    match openssl::hash::hash(openssl::hash::MessageDigest::sha256(), data) {
        Ok(d) => Ok(d.to_vec()),
        Err(e) => Err(e),
    }
}

/// Relies on openssl::rand::rand_bytes: it overwrites the buffer with bytes
/// from OpenSSL's CSPRNG and keeps its length; it panics on a buffer longer
/// than `i32::MAX`.
#[verifier::external_body]
pub(crate) fn fill_random(buf: &mut Vec<u8>) -> (r: Result<(), openssl::error::ErrorStack>)
    requires
        old(buf)@.len() <= i32::MAX,
    ensures
        final(buf)@.len() == old(buf)@.len(),
{
    openssl::rand::rand_bytes(buf.as_mut_slice())
}

/// Relies on openssl::memcmp::eq: a comparison whose running time does not
/// depend on the contents, true exactly when the two slices are equal; it
/// panics when their lengths differ.
pub assume_specification[ openssl::memcmp::eq ](a: &[u8], b: &[u8]) -> (r: bool)
    requires
        a@.len() == b@.len(),
    ensures
        r == (a@ == b@),
;

/// Failure of the hasher that has nothing to do with the caller's input.
#[derive(Clone, Copy, Debug, PartialEq, Eq)]
pub enum CryptoError {
    /// The random source or the digest failed, or a stored digest has the
    /// wrong length.
    InternalError,
}

/// A salted password digest.
#[derive(Clone, Debug, PartialEq, Eq)]
pub struct Credential {
    pub salt: Vec<u8>,
    pub digest: Vec<u8>,
}

/// The digest that a password with this salt must have.
pub open spec fn digest_of(salt: Seq<u8>, password: Seq<u8>) -> Seq<u8> {
    sha256_of(salt + password)
}

/// `c` is a well-formed credential for `password`.
pub open spec fn hashes(c: Credential, password: Seq<u8>) -> bool {
    &&& c.salt@.len() == SALT_SIZE
    &&& c.digest@.len() == DIGEST_SIZE
    &&& c.digest@ == digest_of(c.salt@, password)
}

/// What checking `password` against a stored salt and digest yields: an
/// internal error for a salt or a digest of the wrong length, otherwise
/// whether the recomputed digest equals the stored one.
pub open spec fn verify_outcome(salt: Seq<u8>, password: Seq<u8>, digest: Seq<u8>) -> Result<
    bool,
    CryptoError,
> {
    if salt.len() != SALT_SIZE || digest.len() != DIGEST_SIZE {
        Err(CryptoError::InternalError)
    } else {
        Ok(digest == digest_of(salt, password))
    }
}

/// Compares a freshly computed digest with a stored one in constant time.
/// A stored digest of the wrong length is an internal error, never an
/// out-of-bounds access.
pub fn check_digest(computed: &[u8], stored: &[u8]) -> (r: Result<bool, CryptoError>)
    ensures
        r == (if computed@.len() == DIGEST_SIZE && stored@.len() == DIGEST_SIZE {
            Ok::<bool, CryptoError>(computed@ == stored@)
        } else {
            Err(CryptoError::InternalError)
        }),
{
    if computed.len() != DIGEST_SIZE || stored.len() != DIGEST_SIZE {
        return Err(CryptoError::InternalError);
    }
    Ok(openssl::memcmp::eq(computed, stored))
}

/// Draws a fresh salt and digests it with the password.
pub fn hash_password(password: &[u8]) -> (r: Result<Credential, CryptoError>)
    ensures
        r is Ok ==> hashes(r->Ok_0, password@),
{
    let mut salt: Vec<u8> = vec![0u8; SALT_SIZE];
    if fill_random(&mut salt).is_err() {
        return Err(CryptoError::InternalError);
    }
    let salted = concat(salt.as_slice(), password);
    match sha256(salted.as_slice()) {
        Ok(digest) => Ok(Credential { salt, digest }),
        Err(_) => Err(CryptoError::InternalError),
    }
}

/// Checks `password` against a stored salt and digest. A salt or digest of
/// the wrong length is an internal error, never an out-of-bounds access.
pub fn verify_password(salt: &[u8], password: &[u8], digest: &[u8]) -> (r: Result<
    bool,
    CryptoError,
>)
    ensures
        r is Ok ==> r == verify_outcome(salt@, password@, digest@),
        salt@.len() != SALT_SIZE || digest@.len() != DIGEST_SIZE ==> r == verify_outcome(
            salt@,
            password@,
            digest@,
        ),
{
    if salt.len() != SALT_SIZE || digest.len() != DIGEST_SIZE {
        return Err(CryptoError::InternalError);
    }
    let salted = concat(salt, password);
    match sha256(salted.as_slice()) {
        Ok(computed) => check_digest(computed.as_slice(), digest),
        Err(_) => Err(CryptoError::InternalError),
    }
}

impl Credential {
    /// The stored form: the salt followed by the digest.
    pub fn to_bytes(&self) -> (r: Vec<u8>)
        ensures
            r@ == self.salt@ + self.digest@,
    {
        concat(self.salt.as_slice(), self.digest.as_slice())
    }

    /// Splits a stored credential back into salt and digest; anything but
    /// exactly a salt and a digest is an internal error.
    pub fn from_bytes(stored: &[u8]) -> (r: Result<Credential, CryptoError>)
        ensures
            stored@.len() != SALTED_SIZE <==> r is Err,
            r is Ok ==> r->Ok_0.salt@ + r->Ok_0.digest@ == stored@ && r->Ok_0.salt@.len()
                == SALT_SIZE && r->Ok_0.digest@.len() == DIGEST_SIZE,
    {
        if stored.len() != SALTED_SIZE {
            return Err(CryptoError::InternalError);
        }
        let salt = slice_to_vec(stored, 0, SALT_SIZE);
        let digest = slice_to_vec(stored, SALT_SIZE, SALTED_SIZE);
        assert(salt@ + digest@ =~= stored@);
        Ok(Credential { salt, digest })
    }
}

/// A credential made from a password verifies that same password.
pub proof fn lemma_hash_then_verify(c: Credential, password: Seq<u8>)
    requires
        hashes(c, password),
    ensures
        verify_outcome(c.salt@, password, c.digest@) == Ok::<bool, CryptoError>(true),
{
}

} // verus!

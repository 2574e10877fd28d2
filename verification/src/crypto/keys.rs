//! Random key material and its erasure.

use crate::bytes;
use crate::crypto::CryptoError;
use ring::error::Unspecified;
use ring::rand::{SecureRandom, SystemRandom};
use vstd::prelude::*;
use zeroize::Zeroize;

verus! {

/// Draws `n` bytes with `ring`'s `SystemRandom::fill`.
///
/// Trusted: a draw that succeeds has the length asked for. Nothing is said of
/// the bytes, nor of when a draw fails: both are the operating system's.
#[verifier::external_body]
pub(crate) fn draw(n: usize) -> (r: Result<Vec<u8>, Unspecified>)
    ensures
        r matches Ok(v) ==> v@.len() == n,
{
    let mut out = vec![0u8; n];
    SystemRandom::new().fill(&mut out)?;
    Ok(out)
}

/// Overwrites `key` with `zeroize`'s `Zeroize::zeroize` for byte arrays.
///
/// Trusted: every byte is zero afterwards. That no copy of the key is left
/// elsewhere in memory is left unsaid.
#[verifier::external_body]
pub(crate) fn zeroize_key(key: &mut [u8; 32])
    ensures
        final(key)@ == bytes::zero_bytes(32),
    opens_invariants none
    no_unwind
{
    key.zeroize();
}

/// Generate a fresh random 32-byte key using the OS CSPRNG.
pub fn random_key() -> (r: Result<[u8; 32], CryptoError>)
    ensures
        r matches Err(e) ==> e == CryptoError::NoEntropy,
{
    key_from_draw(draw(32))
}

/// The key that a draw of 32 bytes gives: those bytes.
pub fn key_from_draw(drawn: Result<Vec<u8>, Unspecified>) -> (r: Result<[u8; 32], CryptoError>)
    requires
        drawn matches Ok(v) ==> v@.len() == 32,
    ensures
        match drawn {
            Ok(v) => r matches Ok(key) && key@ == v@,
            Err(_) => r == Err::<[u8; 32], CryptoError>(CryptoError::NoEntropy),
        },
{
    match drawn {
        Ok(v) => {
            assert(v@.subrange(0, 32) =~= v@);
            Ok(bytes::take_32(v.as_slice(), 0))
        },
        Err(_) => Err(CryptoError::NoEntropy),
    }
}

/// A 32-byte secret that can be wiped.
pub struct SensitiveKey(pub [u8; 32]);

impl SensitiveKey {
    /// A fresh random secret.
    pub fn new() -> (r: Result<Self, CryptoError>)
        ensures
            r matches Err(e) ==> e == CryptoError::NoEntropy,
    {
        SensitiveKey::from_draw(draw(32))
    }

    /// The secret that a draw of 32 bytes gives: those bytes.
    pub fn from_draw(drawn: Result<Vec<u8>, Unspecified>) -> (r: Result<Self, CryptoError>)
        requires
            drawn matches Ok(v) ==> v@.len() == 32,
        ensures
            match drawn {
                Ok(v) => r matches Ok(secret) && secret.0@ == v@,
                Err(_) => r == Err::<SensitiveKey, CryptoError>(CryptoError::NoEntropy),
            },
    {
        match key_from_draw(drawn) {
            Ok(key) => Ok(SensitiveKey(key)),
            Err(e) => Err(e),
        }
    }

    pub fn from_bytes(bytes: &[u8; 32]) -> (r: Self)
        ensures
            r.0@ == bytes@,
    {
        SensitiveKey(*bytes)
    }

    pub fn as_bytes(&self) -> (r: &[u8; 32])
        ensures
            r@ == self.0@,
    {
        &self.0
    }

    pub fn wipe(&mut self)
        ensures
            final(self).0@ == bytes::zero_bytes(32),
    {
        zeroize_key(&mut self.0);
    }
}

impl Drop for SensitiveKey {
    /// The secret is wiped when it goes out of scope.
    fn drop(&mut self)
        ensures
            final(self).0@ == bytes::zero_bytes(32),
        opens_invariants none
        no_unwind
    {
        zeroize_key(&mut self.0);
    }
}

} // verus!

//! Hybrid key exchange: X25519 and Kyber512.

use pqcrypto_kyber::kyber512;
use pqcrypto_traits::kem::{Ciphertext, PublicKey, SecretKey, SharedSecret};
use vstd::prelude::*;

verus! {

pub const KYBER_PUBLIC_LEN: usize = 800;

pub const KYBER_SECRET_LEN: usize = 1632;

pub const KYBER_CIPHERTEXT_LEN: usize = 768;

/// The point of X25519 whose multiples are the public keys.
pub const BASEPOINT: [u8; 32] = [
    9u8, 0u8, 0u8, 0u8, 0u8, 0u8, 0u8, 0u8, 0u8, 0u8, 0u8, 0u8, 0u8, 0u8, 0u8, 0u8,
    0u8, 0u8, 0u8, 0u8, 0u8, 0u8, 0u8, 0u8, 0u8, 0u8, 0u8, 0u8, 0u8, 0u8, 0u8, 0u8,
];

/// X25519: the multiple of `point` by the clamped `scalar`.
pub uninterp spec fn x25519_product(scalar: Seq<u8>, point: Seq<u8>) -> Seq<u8>;

/// Kyber512: the shared secret in `ciphertext` for the secret key `secret_key`.
pub uninterp spec fn kyber512_shared(ciphertext: Seq<u8>, secret_key: Seq<u8>) -> Seq<u8>;

/// Multiplies with `x25519_dalek::x25519`.
///
/// Trusted: the product depends on scalar and point alone, and multiplying a
/// multiple of the base point by another scalar gives the same in either order.
#[verifier::external_body]
fn x25519(scalar: &[u8; 32], point: &[u8; 32]) -> (r: [u8; 32])
    ensures
        r@ == x25519_product(scalar@, point@),
        point@ == BASEPOINT@ ==> forall|other: Seq<u8>|
            other.len() == 32 ==> #[trigger] x25519_product(other, r@) == x25519_product(
                scalar@,
                x25519_product(other, BASEPOINT@),
            ),
{
    x25519_dalek::x25519(*scalar, *point)
}

/// Draws a key pair with `kyber512::keypair` of `pqcrypto_kyber`; the public key comes first.
///
/// Trusted: both keys have their lengths. Their bytes are random.
#[verifier::external_body]
pub(crate) fn kyber512_keypair() -> (r: (Vec<u8>, Vec<u8>))
    ensures
        r.0@.len() == KYBER_PUBLIC_LEN,
        r.1@.len() == KYBER_SECRET_LEN,
{
    let (public_key, secret_key) = kyber512::keypair();
    (public_key.as_bytes().to_vec(), secret_key.as_bytes().to_vec())
}

/// Opens a ciphertext with `kyber512::decapsulate` of `pqcrypto_kyber`.
///
/// Trusted: the shared secret has 32 bytes and depends on ciphertext and secret key alone.
#[verifier::external_body]
fn kyber512_decapsulate(ciphertext: &[u8], secret_key: &[u8]) -> (r: Vec<u8>)
    requires
        ciphertext@.len() == KYBER_CIPHERTEXT_LEN,
        secret_key@.len() == KYBER_SECRET_LEN,
    ensures
        r@ == kyber512_shared(ciphertext@, secret_key@),
        r@.len() == 32,
{
    let ciphertext = kyber512::Ciphertext::from_bytes(ciphertext).unwrap();
    let secret_key = kyber512::SecretKey::from_bytes(secret_key).unwrap();
    kyber512::decapsulate(&ciphertext, &secret_key).as_bytes().to_vec()
}

/// The X25519 public key of `secret`. Both sides of an exchange reach the same
/// product: another secret times this key is this secret times the other's key.
pub fn x25519_public(secret: &[u8; 32]) -> (r: [u8; 32])
    ensures
        r@ == x25519_product(secret@, BASEPOINT@),
        forall|other: Seq<u8>|
            other.len() == 32 ==> #[trigger] x25519_product(other, r@) == x25519_product(
                secret@,
                x25519_product(other, BASEPOINT@),
            ),
{
    let base = BASEPOINT;
    x25519(secret, &base)
}

/// Combined X25519 + Kyber512 shared secret.
pub struct HybridSharedSecret {
    pub x25519_secret: [u8; 32],
    pub kyber_secret: Vec<u8>,
}

/// Puts the two halves of a hybrid secret together.
pub fn combine_secrets(x_shared: &[u8; 32], kyber_shared: &[u8]) -> (r: [u8; 64])
    requires
        kyber_shared@.len() == 32,
    ensures
        r@ == x_shared@ + kyber_shared@,
{
    let mut combined = [0u8; 64];
    let mut i: usize = 0;
    while i < 32
        invariant
            i <= 32,
            kyber_shared@.len() == 32,
            forall|j: int| 0 <= j < i ==> combined@[j] == x_shared@[j],
            forall|j: int| 0 <= j < i ==> combined@[32 + j] == kyber_shared@[j],
        decreases 32 - i,
    {
        combined[i] = x_shared[i];
        combined[32 + i] = kyber_shared[i];
        i += 1;
    }
    assert forall|j: int| 0 <= j < 64 implies combined@[j] == (x_shared@ + kyber_shared@)[j] by {
        if j >= 32 {
            assert(combined@[32 + (j - 32)] == kyber_shared@[j - 32]);
        }
    }
    assert(combined@ =~= x_shared@ + kyber_shared@);
    combined
}

/// Complete a hybrid key exchange:
/// 1. X25519 ECDH (classical)
/// 2. Kyber512 decapsulation (post-quantum)
/// Returns a combined 64-byte shared secret.
pub fn hybrid_ecdh(
    x_secret: &[u8; 32],
    x_peer_pub: &[u8; 32],
    kyber_sk: &[u8],
    kyber_ct: &[u8],
) -> (r: [u8; 64])
    requires
        kyber_sk@.len() == KYBER_SECRET_LEN,
        kyber_ct@.len() == KYBER_CIPHERTEXT_LEN,
    ensures
        r@ == x25519_product(x_secret@, x_peer_pub@) + kyber512_shared(kyber_ct@, kyber_sk@),
{
    let x_shared = x25519(x_secret, x_peer_pub);
    let kyber_shared = kyber512_decapsulate(kyber_ct, kyber_sk);
    combine_secrets(&x_shared, kyber_shared.as_slice())
}

} // verus!

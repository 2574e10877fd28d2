//! Cryptographic building blocks: hashing, Merkle trees, authenticated
//! encryption, erasure coding, secret sharing, identities and key exchange.

pub mod aead;
pub mod erasure;
pub mod exchange;
pub mod gf256_shamir;
pub mod hash;
pub mod identity;
pub mod keys;
pub mod merkle;

pub use aead::{decrypt_message, encrypt_message, nonce_from_counter};
pub use erasure::{
    rs_encode, rs_encode_n, rs_reconstruct, rs_reconstruct_n, ErasureError, REED_DATA_SHARDS,
    REED_PARITY_SHARDS,
};
pub use exchange::{hybrid_ecdh, HybridSharedSecret};
pub use gf256_shamir::{shamir_join, shamir_split, SHAMIR_THRESHOLD, SHAMIR_TOTAL};
pub use hash::blake3_hash;
pub use identity::{
    PeerIdentity, HANDSHAKE_BLOB_LEN, HANDSHAKE_SHARD_LEN, MAGIC_HEADER,
};
pub use keys::{random_key, SensitiveKey};
pub use merkle::{merkle_proof, merkle_root, verify_merkle_proof, MerkleProof};

use vstd::prelude::*;

verus! {

/// Why a cryptographic operation gave no result.
#[derive(Clone, Copy, PartialEq, Eq, Debug)]
pub enum CryptoError {
    /// The system's random number generator failed.
    NoEntropy,
    /// The data was not sealed under the given key and nonce.
    Unauthentic,
    /// The message is longer than one key and nonce can seal.
    TooLong,
}

} // verus!

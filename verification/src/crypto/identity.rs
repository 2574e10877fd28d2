//! Peer identities and the handshake blob that attests to one.

use crate::bytes;
use crate::crypto::exchange;
use crate::crypto::exchange::{kyber512_keypair, x25519_public};
use crate::text;
use crate::text::to_hex;
use ed25519_dalek::{Signature, Signer, SigningKey, Verifier, VerifyingKey};
use vstd::prelude::*;

verus! {

pub const HANDSHAKE_BLOB_LEN: usize = 960;

pub const HANDSHAKE_SHARD_LEN: usize = 480;

/// The bytes of `GHOST_HANDSHAKE_`, with which every handshake blob begins.
pub const MAGIC_HEADER: [u8; 16] = [
    71u8,
    72u8,
    79u8,
    83u8,
    84u8,
    95u8,
    72u8,
    65u8,
    78u8,
    68u8,
    83u8,
    72u8,
    65u8,
    75u8,
    69u8,
    95u8,
];

/// The Ed25519 verifying key of the secret `seed`.
pub uninterp spec fn ed25519_public(seed: Seq<u8>) -> Seq<u8>;

/// The Ed25519 signature of `message` under the secret `seed`.
pub uninterp spec fn ed25519_signature(seed: Seq<u8>, message: Seq<u8>) -> Seq<u8>;

/// Whether 32 bytes encode an Ed25519 verifying key.
pub uninterp spec fn ed25519_is_key(key: Seq<u8>) -> bool;

/// Whether `signature` is a valid Ed25519 signature of `message` for the verifying key `key`.
pub uninterp spec fn ed25519_accepts(key: Seq<u8>, message: Seq<u8>, signature: Seq<u8>) -> bool;

/// The verifying key of `seed`, by `SigningKey::from_bytes` and
/// `SigningKey::verifying_key` of `ed25519_dalek`.
///
/// Trusted: the key depends on the seed alone and is one that `is_verifying_key` accepts.
#[verifier::external_body]
fn verifying_key(seed: &[u8; 32]) -> (r: [u8; 32])
    ensures
        r@ == ed25519_public(seed@),
        ed25519_is_key(r@),
{
    SigningKey::from_bytes(seed).verifying_key().to_bytes()
}

/// Signs `message`, by `Signer::sign` for `SigningKey` of `ed25519_dalek`.
///
/// Trusted: the signature depends on seed and message alone, and the verifying
/// key of the seed accepts it for the message.
#[verifier::external_body]
fn sign(seed: &[u8; 32], message: &[u8]) -> (r: [u8; 64])
    ensures
        r@ == ed25519_signature(seed@, message@),
        ed25519_accepts(ed25519_public(seed@), message@, r@),
{
    SigningKey::from_bytes(seed).sign(message).to_bytes()
}

/// Whether `key` encodes a verifying key, by `VerifyingKey::from_bytes` of `ed25519_dalek`.
///
/// Trusted: the answer depends on the bytes alone.
#[verifier::external_body]
fn is_verifying_key(key: &[u8; 32]) -> (r: bool)
    ensures
        r == ed25519_is_key(key@),
{
    VerifyingKey::from_bytes(key).is_ok()
}

/// Checks a signature, by `Verifier::verify` for `VerifyingKey` of `ed25519_dalek`.
///
/// Trusted: the answer depends on key, message and signature alone.
#[verifier::external_body]
fn accepts(key: &[u8; 32], message: &[u8], signature: &[u8; 64]) -> (r: bool)
    requires
        ed25519_is_key(key@),
    ensures
        r == ed25519_accepts(key@, message@, signature@),
{
    VerifyingKey::from_bytes(key).unwrap().verify(message, &Signature::from_bytes(signature)).is_ok()
}

/// The short name of a verifying key: its first eight bytes in hexadecimal.
pub open spec fn fingerprint_of(key: Seq<u8>) -> Seq<char> {
    text::hex_text(key.take(8))
}

/// Names the verifying key `key`.
pub fn key_fingerprint(key: &[u8; 32]) -> (r: String)
    ensures
        r@ == fingerprint_of(key@),
{
    assert(key@.subrange(0, 8) =~= key@.take(8));
    to_hex(vstd::slice::slice_subrange(key, 0, 8))
}

/// Full peer identity: the Ed25519 seed, the public halves of the key exchange
/// and the short name.
pub struct PeerIdentity {
    pub signing_key: [u8; 32],
    pub x_public: [u8; 32],
    pub kyber_public: Vec<u8>,
    pub fingerprint_hex: String,
}

/// The handshake blob:
/// [magic(16)|x25519_pub(32)|kyber512_pub(800)|ed25519_vk(32)|sig(64)|zeros(16)].
pub open spec fn handshake_blob(
    seed: Seq<u8>,
    x_public: Seq<u8>,
    kyber_public: Seq<u8>,
) -> Seq<u8> {
    MAGIC_HEADER@ + x_public + kyber_public + ed25519_public(seed) + ed25519_signature(
        seed,
        kyber_public,
    ) + bytes::zero_bytes(16)
}

/// Whether `blob` is long enough and begins with the magic header.
pub open spec fn has_magic(blob: Seq<u8>) -> bool {
    blob.len() >= HANDSHAKE_BLOB_LEN && blob.take(16) == MAGIC_HEADER@
}

/// The verdict on a handshake blob, given whether it holds a verifying key and
/// whether that key accepts the signature.
pub open spec fn handshake_verdict(blob: Seq<u8>, key_ok: bool, signature_ok: bool) -> Result<
    Seq<u8>,
    Seq<char>,
> {
    if !has_magic(blob) {
        Err("Invalid magic header"@)
    } else if !key_ok {
        Err("Invalid Ed key"@)
    } else if !signature_ok {
        Err("Signature verification failed"@)
    } else {
        Ok(blob.subrange(16, 880))
    }
}

/// The outcome of checking a handshake blob.
pub open spec fn handshake_outcome(blob: Seq<u8>) -> Result<Seq<u8>, Seq<char>> {
    let key = blob.subrange(848, 880);
    handshake_verdict(
        blob,
        ed25519_is_key(key),
        ed25519_accepts(key, blob.subrange(48, 848), blob.subrange(880, 944)),
    )
}

/// Whether `r` is the outcome `o`, read through its views.
pub open spec fn is_outcome(r: Result<Vec<u8>, &'static str>, o: Result<Seq<u8>, Seq<char>>) -> bool {
    match r {
        Ok(v) => o == Ok::<Seq<u8>, Seq<char>>(v@),
        Err(e) => o == Err::<Seq<u8>, Seq<char>>(e@),
    }
}

fn begins_with_magic(blob: &[u8]) -> (r: bool)
    ensures
        r == has_magic(blob@),
{
    if blob.len() < HANDSHAKE_BLOB_LEN {
        return false;
    }
    let magic = MAGIC_HEADER;
    assert(blob@.subrange(0, 16) =~= blob@.take(16));
    bytes::same_bytes(vstd::slice::slice_subrange(blob, 0, 16), &magic)
}

/// Judges a handshake blob by what was found of its key and its signature.
pub fn judge_handshake(blob: &[u8], key_ok: bool, signature_ok: bool) -> (r: Result<
    Vec<u8>,
    &'static str,
>)
    ensures
        is_outcome(r, handshake_verdict(blob@, key_ok, signature_ok)),
{
    if !begins_with_magic(blob) {
        Err("Invalid magic header")
    } else if !key_ok {
        Err("Invalid Ed key")
    } else if !signature_ok {
        Err("Signature verification failed")
    } else {
        Ok(bytes::copy_range(blob, 16, 880))
    }
}

fn take_64(buf: &[u8], at: usize) -> (r: [u8; 64])
    requires
        at + 64 <= buf@.len(),
    ensures
        r@ == buf@.subrange(at as int, at + 64),
{
    let mut out = [0u8; 64];
    let mut i: usize = 0;
    while i < 64
        invariant
            i <= 64,
            at + 64 <= buf@.len(),
            forall|j: int| 0 <= j < i ==> out@[j] == buf@[at + j],
        decreases 64 - i,
    {
        assert(at + i < buf.len());
        out[i] = buf[at + i];
        i += 1;
    }
    assert(out@ =~= buf@.subrange(at as int, at + 64));
    out
}

/// The seed of a node's identity: the one that was stored, or `fresh` where none
/// was stored yet; nothing where what was stored is no seed.
pub fn settle_seed(stored: &Option<Vec<u8>>, fresh: [u8; 32]) -> (r: Option<[u8; 32]>)
    ensures
        match *stored {
            None => r == Some(fresh),
            Some(bytes) => if bytes@.len() == 32 {
                r matches Some(seed) && seed@ == bytes@
            } else {
                r is None
            },
        },
{
    match stored {
        None => Some(fresh),
        Some(stored) => {
            if stored.len() == 32 {
                assert(stored@.subrange(0, 32) =~= stored@);
                Some(bytes::take_32(stored.as_slice(), 0))
            } else {
                None
            }
        },
    }
}

impl PeerIdentity {
    /// Whether the public Kyber key has its length and the name is that of the key.
    pub open spec fn wf(&self) -> bool {
        &&& self.kyber_public@.len() == exchange::KYBER_PUBLIC_LEN
        &&& self.fingerprint_hex@ == fingerprint_of(ed25519_public(self.signing_key@))
    }

    /// The identity of a seed, an X25519 secret and a Kyber public key.
    pub fn from_parts(seed: &[u8; 32], x_secret: &[u8; 32], kyber_public: Vec<u8>) -> (r: Self)
        requires
            kyber_public@.len() == exchange::KYBER_PUBLIC_LEN,
        ensures
            r.wf(),
            r.signing_key@ == seed@,
            r.x_public@ == exchange::x25519_product(x_secret@, exchange::BASEPOINT@),
            r.kyber_public@ == kyber_public@,
    {
        let key = verifying_key(seed);
        PeerIdentity {
            signing_key: *seed,
            x_public: x25519_public(x_secret),
            kyber_public,
            fingerprint_hex: key_fingerprint(&key),
        }
    }

    /// Generate a fresh ephemeral identity.
    pub fn generate(seed: &[u8; 32], x_secret: &[u8; 32]) -> (r: Self)
        ensures
            r.wf(),
            r.signing_key@ == seed@,
            r.x_public@ == exchange::x25519_product(x_secret@, exchange::BASEPOINT@),
    {
        let (kyber_public, _kyber_secret) = kyber512_keypair();
        PeerIdentity::from_parts(seed, x_secret, kyber_public)
    }

    pub fn fingerprint(&self) -> (r: &str)
        ensures
            r@ == self.fingerprint_hex@,
    {
        self.fingerprint_hex.as_str()
    }

    /// Build the 960-byte handshake blob. It passes `verify_handshake_blob`.
    pub fn build_handshake_blob(&self) -> (r: Vec<u8>)
        requires
            self.kyber_public@.len() == exchange::KYBER_PUBLIC_LEN,
        ensures
            r@ == handshake_blob(self.signing_key@, self.x_public@, self.kyber_public@),
            r@.len() == HANDSHAKE_BLOB_LEN,
            handshake_outcome(r@) == Ok::<Seq<u8>, Seq<char>>(
                self.x_public@ + self.kyber_public@ + ed25519_public(self.signing_key@),
            ),
    {
        let key = verifying_key(&self.signing_key);
        let signature = sign(&self.signing_key, self.kyber_public.as_slice());
        let magic = MAGIC_HEADER;
        let tail = bytes::zeroed(16);
        let mut blob: Vec<u8> = Vec::with_capacity(HANDSHAKE_BLOB_LEN);
        blob.extend_from_slice(&magic);
        blob.extend_from_slice(&self.x_public);
        blob.extend_from_slice(self.kyber_public.as_slice());
        blob.extend_from_slice(&key);
        blob.extend_from_slice(&signature);
        blob.extend_from_slice(tail.as_slice());
        assert(blob@ =~= handshake_blob(
            self.signing_key@,
            self.x_public@,
            self.kyber_public@,
        ));
        proof {
            let b = blob@;
            assert(b.take(16) =~= MAGIC_HEADER@);
            assert(b.subrange(848, 880) =~= key@);
            assert(b.subrange(48, 848) =~= self.kyber_public@);
            assert(b.subrange(880, 944) =~= signature@);
            assert(b.subrange(16, 880) =~= self.x_public@ + self.kyber_public@ + key@);
        }
        blob
    }

    /// Verify a handshake blob from a peer.
    /// Returns the raw handshake data on success.
    pub fn verify_handshake_blob(blob: &[u8]) -> (r: Result<Vec<u8>, &'static str>)
        ensures
            is_outcome(r, handshake_outcome(blob@)),
    {
        if !begins_with_magic(blob) {
            return judge_handshake(blob, false, false);
        }
        let key = bytes::take_32(blob, 848);
        let signature = take_64(blob, 880);
        let key_ok = is_verifying_key(&key);
        let signature_ok = key_ok && accepts(
            &key,
            vstd::slice::slice_subrange(blob, 48, 848),
            &signature,
        );
        judge_handshake(blob, key_ok, signature_ok)
    }
}

/// A handshake passes exactly where it has its length, begins with the magic
/// header, and holds a verifying key that accepts its signature of the Kyber
/// key; then its three public keys are handed out as they stand in it.
pub proof fn law_handshake_passes_where_signed(blob: Seq<u8>)
    ensures
        handshake_outcome(blob) is Ok == (blob.len() >= 960 && blob.subrange(0, 16) == MAGIC_HEADER@
            && ed25519_is_key(blob.subrange(848, 880)) && ed25519_accepts(
            blob.subrange(848, 880),
            blob.subrange(48, 848),
            blob.subrange(880, 944),
        )),
        handshake_outcome(blob) is Ok ==> handshake_outcome(blob)->Ok_0 == blob.subrange(16, 880),
{
    if blob.len() >= 16 {
        assert(blob.subrange(0, 16) =~= blob.take(16));
    }
}

/// Two keys have the same short name exactly where their first eight bytes agree.
pub proof fn law_fingerprint_tells_keys_apart(a: Seq<u8>, b: Seq<u8>)
    requires
        a.len() == 32,
        b.len() == 32,
    ensures
        fingerprint_of(a).len() == 16,
        (fingerprint_of(a) == fingerprint_of(b)) == (a.take(8) == b.take(8)),
{
    text::law_hexadecimal_tells_bytes_apart(a.take(8), b.take(8));
}

/// A verified handshake hands out the keys of its outcome, a refused one its reason.
pub proof fn law_verdict_gives_the_outcome(
    r: Result<Vec<u8>, &'static str>,
    o: Result<Seq<u8>, Seq<char>>,
)
    requires
        is_outcome(r, o),
    ensures
        r is Ok == o is Ok,
        r is Ok ==> r->Ok_0@ == o->Ok_0,
        r is Err ==> r->Err_0@ == o->Err_0,
{
}

} // verus!

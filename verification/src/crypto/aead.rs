//! Authenticated encryption with ChaCha20-Poly1305.

use crate::bytes;
use crate::crypto::CryptoError;
use ring::aead::{Aad, LessSafeKey, Nonce, UnboundKey, CHACHA20_POLY1305};
use ring::error::Unspecified;
use vstd::prelude::*;

verus! {

/// Length of the authentication tag that sealing appends.
pub const TAG_LEN: usize = 16;

/// The longest message that one key and nonce can seal.
pub const MAX_MESSAGE_LEN: u64 = 274_877_906_880;

/// The error type of `ring`, which carries no detail.
#[verifier::external_type_specification]
#[verifier::external_body]
pub struct ExUnspecified(Unspecified);

/// What ChaCha20-Poly1305 makes of `message`: the ciphertext followed by the tag.
pub uninterp spec fn sealed(key: Seq<u8>, nonce: Seq<u8>, message: Seq<u8>) -> Seq<u8>;

/// What ChaCha20-Poly1305 gives back of a ciphertext followed by a tag, if the tag is right.
pub uninterp spec fn opened(key: Seq<u8>, nonce: Seq<u8>, sealed: Seq<u8>) -> Option<Seq<u8>>;

/// Seals `data` in place with `ring`'s `LessSafeKey::seal_in_place_append_tag`
/// under `CHACHA20_POLY1305`, without associated data.
///
/// Trusted: sealing succeeds on every message that is not over length and
/// leaves one that is over length alone; the result depends on key, nonce and
/// message alone, is 16 bytes longer than the message, and opens to the message
/// under the same key and nonce.
#[verifier::external_body]
pub(crate) fn seal_in_place(key: &[u8; 32], nonce: [u8; 12], data: &mut Vec<u8>) -> (r: Result<
    (),
    Unspecified,
>)
    requires
        old(data)@.len() <= usize::MAX - 16,
    ensures
        r is Ok <==> old(data)@.len() <= 274_877_906_880,
        r is Ok ==> final(data)@ == sealed(key@, nonce@, old(data)@),
        r is Ok ==> final(data)@.len() == old(data)@.len() + 16,
        r is Ok ==> opened(key@, nonce@, final(data)@) == Some(old(data)@),
        r is Err ==> final(data)@ == old(data)@,
{
    let key = LessSafeKey::new(UnboundKey::new(&CHACHA20_POLY1305, key)?);
    key.seal_in_place_append_tag(Nonce::assume_unique_for_key(nonce), Aad::empty(), data)
}

/// Opens `data` in place with `ring`'s `LessSafeKey::open_in_place` under
/// `CHACHA20_POLY1305`, without associated data.
///
/// Trusted: the outcome depends on key, nonce and data alone; on success the
/// message has replaced the ciphertext and the 16 bytes of the tag behind it are
/// as they were. What a failure leaves in `data` is left unsaid.
#[verifier::external_body]
pub(crate) fn open_in_place<'a>(key: &[u8], nonce: [u8; 12], data: &'a mut Vec<u8>) -> (r: Result<
    &'a mut [u8],
    Unspecified,
>)
    requires
        key@.len() == 32,
    ensures
        r is Ok <==> opened(key@, nonce@, old(data)@) is Some,
        r matches Ok(m) ==> {
            &&& opened(key@, nonce@, old(data)@) == Some(m@)
            &&& m@.len() + 16 == old(data)@.len()
            &&& final(data)@ == final(m)@ + old(data)@.skip(m@.len() as int)
        },
{
    let key = LessSafeKey::new(UnboundKey::new(&CHACHA20_POLY1305, key)?);
    key.open_in_place(Nonce::assume_unique_for_key(nonce), Aad::empty(), data)
}

/// The nonce of message number `counter`: the counter in eight bytes, the most
/// significant first, and four zeros.
pub open spec fn counter_nonce(counter: u64) -> Seq<u8> {
    bytes::big_endian(counter as nat, 8) + bytes::zero_bytes(4)
}

pub fn nonce_from_counter(counter: u64) -> (r: [u8; 12])
    ensures
        r@ == counter_nonce(counter),
{
    let head = bytes::u64_to_be(counter);
    let mut nonce = [0u8; 12];
    let mut i: usize = 0;
    while i < 8
        invariant
            i <= 8,
            forall|j: int| 0 <= j < i ==> nonce@[j] == head@[j],
            forall|j: int| 8 <= j < 12 ==> nonce@[j] == 0,
        decreases 8 - i,
    {
        nonce[i] = head[i];
        i += 1;
    }
    assert(nonce@ =~= head@ + bytes::zero_bytes(4));
    nonce
}

/// Encrypts `data` in place as message number `counter` under `key`.
pub fn encrypt_message(key: &[u8; 32], counter: u64, data: &mut Vec<u8>)
    requires
        old(data)@.len() <= MAX_MESSAGE_LEN,
        old(data)@.len() <= usize::MAX - TAG_LEN,
    ensures
        final(data)@ == sealed(key@, counter_nonce(counter), old(data)@),
        final(data)@.len() == old(data)@.len() + TAG_LEN,
        opened(key@, counter_nonce(counter), final(data)@) == Some(old(data)@),
{
    match seal_in_place(key, nonce_from_counter(counter), data) {
        Ok(()) => {},
        Err(_) => {},
    }
}

/// Decrypts `data` in place as message number `counter` under `key`; the result
/// is the part of `data` that holds the message.
pub fn decrypt_message<'a>(key: &[u8], counter: u64, data: &'a mut Vec<u8>) -> (r: Result<
    &'a mut [u8],
    CryptoError,
>)
    requires
        key@.len() == 32,
    ensures
        match r {
            Ok(m) => {
                &&& opened(key@, counter_nonce(counter), old(data)@) == Some(m@)
                &&& m@.len() + TAG_LEN == old(data)@.len()
                &&& final(data)@ == final(m)@ + old(data)@.skip(m@.len() as int)
            },
            Err(e) => e == CryptoError::Unauthentic && opened(
                key@,
                counter_nonce(counter),
                old(data)@,
            ) is None,
        },
{
    match open_in_place(key, nonce_from_counter(counter), data) {
        Ok(m) => Ok(m),
        Err(_) => Err(CryptoError::Unauthentic),
    }
}

/// A nonce has 96 bits, and no two counters share one.
pub proof fn law_nonces_differ(a: u64, b: u64)
    ensures
        counter_nonce(a).len() == 12,
        counter_nonce(a) == counter_nonce(b) ==> a == b,
{
    bytes::lemma_endian_len(a as nat, 8);
    bytes::lemma_endian_len(b as nat, 8);
    bytes::lemma_pow256_8();
    bytes::law_big_endian_reads_back(a as nat, 8);
    bytes::law_big_endian_reads_back(b as nat, 8);
    assert(counter_nonce(a).take(8) =~= bytes::big_endian(a as nat, 8));
    assert(counter_nonce(b).take(8) =~= bytes::big_endian(b as nat, 8));
}

} // verus!

//! Sharing a 32-byte secret among three holders, any two of whom can join it.
//!
//! A share is its number, from 1 to 3, followed by 32 bytes, each an element of
//! GF(256). The first share holds a random mask, the second the sum of mask and
//! secret, the third the sum of twice the mask and the secret. Two shares are
//! two linear equations with the secret as their only common solution.

use crate::bytes;
use crate::crypto::keys;
use crate::crypto::CryptoError;
use vstd::prelude::*;

verus! {

/// The exclusive or of two byte strings, as long as the first.
pub open spec fn xor(a: Seq<u8>, b: Seq<u8>) -> Seq<u8> {
    Seq::new(a.len(), |i: int| a[i] ^ b[i])
}

/// Twice `b` in GF(256), modulo x^8 + x^4 + x^3 + x + 1.
pub open spec fn twice(b: u8) -> u8 {
    (b << 1u8) ^ (if b & 0x80 != 0 {
        0x1bu8
    } else {
        0u8
    })
}

/// Half of `b` in GF(256): the element whose double is `b`.
pub open spec fn half(b: u8) -> u8 {
    (b >> 1u8) ^ (if b & 1 != 0 {
        0x8du8
    } else {
        0u8
    })
}

/// A third of `b` in GF(256), that is `b` times 0xf6.
pub open spec fn third(b: u8) -> u8 {
    let b1 = twice(b);
    let b2 = twice(b1);
    let b4 = twice(twice(b2));
    let b5 = twice(b4);
    let b6 = twice(b5);
    let b7 = twice(b6);
    b1 ^ b2 ^ b4 ^ b5 ^ b6 ^ b7
}

/// The three shares of `secret` under `mask`.
pub open spec fn shares_of(secret: Seq<u8>, mask: Seq<u8>) -> Seq<Seq<u8>> {
    let doubled = Seq::new(mask.len(), |i: int| twice(mask[i]));
    seq![seq![1u8] + mask, seq![2u8] + xor(mask, secret), seq![3u8] + xor(doubled, secret)]
}

/// The byte of the secret behind the bytes `x` and `y` of the shares number `m`
/// and `n`. Shares with other numbers than 1 to 3 are added.
pub open spec fn joined_byte(m: u8, x: u8, n: u8, y: u8) -> u8 {
    if m == 1 && n == 3 {
        twice(x) ^ y
    } else if m == 3 && n == 1 {
        x ^ twice(y)
    } else if m == 2 && n == 3 {
        x ^ third(x ^ y)
    } else if m == 3 && n == 2 {
        y ^ third(x ^ y)
    } else {
        x ^ y
    }
}

/// What two shares give; zeros if they carry the same number.
pub open spec fn rejoined(a: Seq<u8>, b: Seq<u8>) -> Seq<u8> {
    if a[0] != b[0] {
        Seq::new(32, |i: int| joined_byte(a[0], a[1 + i], b[0], b[1 + i]))
    } else {
        bytes::zero_bytes(32)
    }
}

/// Whether two shares can be joined: each has a number, and if the numbers
/// differ each holds 32 bytes.
pub open spec fn joinable(a: Seq<u8>, b: Seq<u8>) -> bool {
    &&& a.len() > 0
    &&& b.len() > 0
    &&& a[0] != b[0] ==> a.len() >= 33 && b.len() >= 33
}

fn share(number: u8, held: &[u8; 32]) -> (r: Vec<u8>)
    ensures
        r@ == seq![number] + held@,
{
    let mut out: Vec<u8> = Vec::with_capacity(33);
    out.push(number);
    out.extend_from_slice(held);
    assert(out@ =~= seq![number] + held@);
    out
}

fn xor_32(a: &[u8; 32], b: &[u8; 32]) -> (r: [u8; 32])
    ensures
        r@ == xor(a@, b@),
{
    let mut out = [0u8; 32];
    let mut i: usize = 0;
    while i < 32
        invariant
            i <= 32,
            forall|j: int| 0 <= j < i ==> out@[j] == a@[j] ^ b@[j],
        decreases 32 - i,
    {
        out[i] = a[i] ^ b[i];
        i += 1;
    }
    assert(out@ =~= xor(a@, b@));
    out
}

fn double(b: u8) -> (r: u8)
    ensures
        r == twice(b),
{
    let carry: u8 = if b & 0x80 != 0 {
        0x1b
    } else {
        0
    };
    (b << 1u8) ^ carry
}

fn divide_by_three(b: u8) -> (r: u8)
    ensures
        r == third(b),
{
    let b1 = double(b);
    let b2 = double(b1);
    let b4 = double(double(b2));
    let b5 = double(b4);
    let b6 = double(b5);
    let b7 = double(b6);
    b1 ^ b2 ^ b4 ^ b5 ^ b6 ^ b7
}

fn double_32(a: &[u8; 32]) -> (r: [u8; 32])
    ensures
        r@ == Seq::new(32, |i: int| twice(a@[i])),
{
    let mut out = [0u8; 32];
    let mut i: usize = 0;
    while i < 32
        invariant
            i <= 32,
            forall|j: int| 0 <= j < i ==> out@[j] == twice(a@[j]),
        decreases 32 - i,
    {
        out[i] = double(a[i]);
        i += 1;
    }
    assert(out@ =~= Seq::new(32, |i: int| twice(a@[i])));
    out
}

fn join_bytes(m: u8, x: u8, n: u8, y: u8) -> (r: u8)
    ensures
        r == joined_byte(m, x, n, y),
{
    if m == 1 && n == 3 {
        double(x) ^ y
    } else if m == 3 && n == 1 {
        x ^ double(y)
    } else if m == 2 && n == 3 {
        x ^ divide_by_three(x ^ y)
    } else if m == 3 && n == 2 {
        y ^ divide_by_three(x ^ y)
    } else {
        x ^ y
    }
}

/// The shares of `secret` under a given mask.
pub fn shares_under_mask(secret: &[u8; 32], mask: &[u8; 32]) -> (r: Vec<Vec<u8>>)
    ensures
        bytes::rows(r@) == shares_of(secret@, mask@),
{
    let covered = xor_32(mask, secret);
    let doubled = double_32(mask);
    let again = xor_32(&doubled, secret);
    let mut out: Vec<Vec<u8>> = Vec::new();
    out.push(share(1, mask));
    out.push(share(2, &covered));
    out.push(share(3, &again));
    assert(bytes::rows(out@) =~= shares_of(secret@, mask@));
    out
}

/// Whether `shares` are the shares of `secret` under some mask.
pub open spec fn are_shares_of(shares: Seq<Seq<u8>>, secret: Seq<u8>) -> bool {
    exists|mask: Seq<u8>| mask.len() == 32 && shares == #[trigger] shares_of(secret, mask)
}

/// Shares `secret` under a fresh random mask. There are three shares whatever
/// the two counts say.
pub fn generate(secret: &mut [u8; 32], _total: usize, _threshold: usize) -> (r: Result<
    Vec<Vec<u8>>,
    CryptoError,
>)
    ensures
        final(secret)@ == old(secret)@,
        match r {
            Ok(shares) => are_shares_of(bytes::rows(shares@), old(secret)@),
            Err(e) => e == CryptoError::NoEntropy,
        },
{
    match keys::random_key() {
        Ok(mask) => {
            let shares = shares_under_mask(secret, &mask);
            assert(mask@.len() == 32 && bytes::rows(shares@) == shares_of(secret@, mask@));
            Ok(shares)
        },
        Err(e) => Err(e),
    }
}

/// Joins the first two of `shares`; fewer than two give zeros.
pub fn reconstruct(shares: &[Vec<u8>]) -> (r: Vec<u8>)
    requires
        shares@.len() >= 2 ==> joinable(shares@[0]@, shares@[1]@),
    ensures
        r@ == if shares@.len() < 2 {
            bytes::zero_bytes(32)
        } else {
            rejoined(shares@[0]@, shares@[1]@)
        },
{
    let mut secret = bytes::zeroed(32);
    if shares.len() < 2 {
        return secret;
    }
    let a = &shares[0];
    let b = &shares[1];
    if a[0] != b[0] {
        let mut i: usize = 0;
        while i < 32
            invariant
                i <= 32,
                a@.len() >= 33,
                b@.len() >= 33,
                secret@.len() == 32,
                forall|j: int|
                    0 <= j < i ==> secret@[j] == joined_byte(a@[0], a@[1 + j], b@[0], b@[1 + j]),
            decreases 32 - i,
        {
            secret.set(i, join_bytes(a[0], a[1 + i], b[0], b[1 + i]));
            i += 1;
        }
        assert(secret@ =~= rejoined(a@, b@));
    }
    secret
}

/// Generate three Shamir shares of `secret` with a (2-of-3) threshold.
pub fn shamir_split(secret: &mut [u8; 32]) -> (r: Result<Vec<Vec<u8>>, CryptoError>)
    ensures
        final(secret)@ == old(secret)@,
        match r {
            Ok(shares) => are_shares_of(bytes::rows(shares@), old(secret)@),
            Err(e) => e == CryptoError::NoEntropy,
        },
{
    generate(secret, SHAMIR_TOTAL, SHAMIR_THRESHOLD)
}

pub const SHAMIR_TOTAL: usize = 3;

pub const SHAMIR_THRESHOLD: usize = 2;

/// Reconstruct a secret from two Shamir shares.
pub fn shamir_join(share0: &[u8], share1: &[u8]) -> (r: Vec<u8>)
    requires
        joinable(share0@, share1@),
    ensures
        r@ == rejoined(share0@, share1@),
        r@.len() == 32,
{
    let mut pair: Vec<Vec<u8>> = Vec::new();
    pair.push(bytes::copy(share0));
    pair.push(bytes::copy(share1));
    reconstruct(pair.as_slice())
}

proof fn lemma_bytes_rejoin(m: u8, s: u8)
    ensures
        m ^ (m ^ s) == s,
        (m ^ s) ^ m == s,
        twice(m) ^ (twice(m) ^ s) == s,
        (twice(m) ^ s) ^ twice(m) == s,
        (m ^ s) ^ third((m ^ s) ^ (twice(m) ^ s)) == s,
        (m ^ s) ^ third((twice(m) ^ s) ^ (m ^ s)) == s,
{
    let d = twice(m);
    assert(m ^ (m ^ s) == s && (m ^ s) ^ m == s && d ^ (d ^ s) == s && (d ^ s) ^ d == s && (m ^ s)
        ^ (d ^ s) == m ^ d && (d ^ s) ^ (m ^ s) == m ^ d) by (bit_vector);
    assert(third(m ^ twice(m)) == m) by (bit_vector);
}

/// Any two of the three shares, in either order, give the secret back.
pub proof fn law_two_shares_rejoin(secret: Seq<u8>, shares: Seq<Seq<u8>>, i: int, j: int)
    requires
        secret.len() == 32,
        are_shares_of(shares, secret),
        0 <= i < 3,
        0 <= j < 3,
        i != j,
    ensures
        joinable(shares[i], shares[j]),
        rejoined(shares[i], shares[j]) == secret,
{
    let mask = choose|mask: Seq<u8>|
        mask.len() == 32 && shares == #[trigger] shares_of(secret, mask);
    let a = shares[i];
    let b = shares[j];
    assert forall|k: int| 0 <= k < 32 implies joined_byte(a[0], a[1 + k], b[0], b[1 + k])
        == #[trigger] secret[k] by {
        lemma_bytes_rejoin(mask[k], secret[k]);
    }
    assert(rejoined(a, b) =~= secret);
}

/// One share alone tells nothing: whatever the secret, some mask gives that share.
pub proof fn law_one_share_tells_nothing(
    secret: Seq<u8>,
    other: Seq<u8>,
    shares: Seq<Seq<u8>>,
    number: int,
)
    requires
        secret.len() == 32,
        other.len() == 32,
        are_shares_of(shares, secret),
        0 <= number < 3,
    ensures
        exists|mask: Seq<u8>|
            mask.len() == 32 && (#[trigger] shares_of(other, mask))[number] == shares[number],
{
    let mask = choose|mask: Seq<u8>|
        mask.len() == 32 && shares == #[trigger] shares_of(secret, mask);
    let held = shares[number].skip(1);
    let chosen = if number == 0 {
        mask
    } else if number == 1 {
        xor(held, other)
    } else {
        Seq::new(32, |i: int| half(held[i] ^ other[i]))
    };
    assert forall|i: int| #![trigger held[i]] 0 <= i < 32 implies {
        let h = held[i];
        let o = other[i];
        &&& (h ^ o) ^ o == h
        &&& twice(half(h ^ o)) ^ o == h
    } by {
        let h = held[i];
        let o = other[i];
        assert((h ^ o) ^ o == h) by (bit_vector);
        assert(twice(half(h ^ o)) ^ o == h) by (bit_vector);
    }
    assert(shares_of(other, chosen)[number] =~= shares[number]);
}

} // verus!

use ed25519_dalek::{Signer, SigningKey};
use ghost_nas::crypto::aead;
use ghost_nas::crypto::erasure::ErasureError;
use ghost_nas::crypto::exchange;
use ghost_nas::crypto::gf256_shamir;
use ghost_nas::crypto::identity;
use ghost_nas::crypto::identity::settle_seed;
use ghost_nas::crypto::keys;
use ghost_nas::crypto::{
    blake3_hash, decrypt_message, encrypt_message, hybrid_ecdh, merkle_proof, merkle_root,
    nonce_from_counter, random_key, rs_encode, rs_encode_n, rs_reconstruct, rs_reconstruct_n,
    shamir_join, shamir_split, verify_merkle_proof, CryptoError, HybridSharedSecret, PeerIdentity,
    SensitiveKey, HANDSHAKE_BLOB_LEN, HANDSHAKE_SHARD_LEN, MAGIC_HEADER, REED_DATA_SHARDS,
    REED_PARITY_SHARDS, SHAMIR_THRESHOLD, SHAMIR_TOTAL,
};
use pqcrypto_kyber::kyber512;
use pqcrypto_traits::kem::{Ciphertext, PublicKey, SecretKey, SharedSecret};
use reed_solomon_erasure::Error;
use ring::error::Unspecified;
use ring::aead::{Aad, LessSafeKey, Nonce, UnboundKey, CHACHA20_POLY1305};

fn shards(n: usize) -> Vec<Vec<u8>> {
    (0..n).map(|i| vec![i as u8; i + 1]).collect()
}

#[test]
fn blake3_of_nothing_and_abc() {
    assert_eq!(
        hex::encode(blake3_hash(b"")),
        "af1349b9f5f9a1a6a0404dea36dcc9499bcb25c9adc112b7cc9a93cae41f3262"
    );
    assert_eq!(
        hex::encode(blake3_hash(b"abc")),
        "6437b3ac38465133ffb63b75273a8db548c558465d79db03fd359c6cd5bd9d85"
    );
}

#[test]
fn constants_have_their_values() {
    assert_eq!(HANDSHAKE_BLOB_LEN, 960);
    assert_eq!(HANDSHAKE_SHARD_LEN, 480);
    assert_eq!(&MAGIC_HEADER, b"GHOST_HANDSHAKE_");
    assert_eq!((REED_DATA_SHARDS, REED_PARITY_SHARDS), (2, 1));
    assert_eq!((SHAMIR_TOTAL, SHAMIR_THRESHOLD), (3, 2));
}

#[test]
fn merkle_root_of_few_shards() {
    assert_eq!(merkle_root(&[]), [0u8; 32]);
    let s = shards(3);
    assert_eq!(merkle_root(&s[..1]), blake3_hash(&s[0]));
    let h: Vec<[u8; 32]> = s.iter().map(|x| blake3_hash(x)).collect();
    let ab = blake3_hash(&[h[0], h[1]].concat());
    assert_eq!(merkle_root(&s[..2]), ab);
    assert_eq!(merkle_root(&s), blake3_hash(&[ab, h[2]].concat()));
}

#[test]
fn merkle_proof_outside_is_none() {
    assert!(merkle_proof(&[], 0).is_none());
    assert!(merkle_proof(&shards(2), 2).is_none());
}

#[test]
fn merkle_proof_of_every_shard_verifies() {
    for n in 1..10 {
        let s = shards(n);
        for i in 0..n {
            let p = merkle_proof(&s, i).unwrap();
            assert_eq!((p.shard_index, p.total_shards), (i, n));
            assert_eq!(p.root, merkle_root(&s));
            assert!(verify_merkle_proof(&p, &s[i]));
            assert!(!verify_merkle_proof(&p, b"something else"));
            for j in 0..n {
                assert_eq!(verify_merkle_proof(&p, &s[j]), i == j);
            }
        }
    }
}

#[test]
fn merkle_proofs_of_another_shape_are_refused() {
    let s = shards(5);
    let p = merkle_proof(&s, 2).unwrap();
    let mut outside = p.clone();
    outside.shard_index = 5;
    assert!(!verify_merkle_proof(&outside, &s[2]));
    let mut short = p.clone();
    short.siblings.pop();
    assert!(!verify_merkle_proof(&short, &s[2]));
    let mut long = p.clone();
    long.siblings.push([0; 32]);
    assert!(!verify_merkle_proof(&long, &s[2]));
    let mut elsewhere = p.clone();
    elsewhere.shard_index = 3;
    assert!(!verify_merkle_proof(&elsewhere, &s[2]));
    let mut wide = p;
    wide.total_shards = usize::MAX;
    assert!(!verify_merkle_proof(&wide, &s[2]));
}

#[test]
fn merkle_proof_siblings_lead_to_the_root() {
    for n in 1..9usize {
        let s = shards(n);
        for index in 0..n {
            let p = merkle_proof(&s, index).unwrap();
            let mut node = blake3_hash(&s[index]);
            let (mut i, mut width, mut k) = (index, n, 0);
            while width > 1 {
                if i % 2 == 1 {
                    node = blake3_hash(&[p.siblings[k], node].concat());
                    k += 1;
                } else if i + 1 < width {
                    node = blake3_hash(&[node, p.siblings[k]].concat());
                    k += 1;
                }
                i /= 2;
                width = (width + 1) / 2;
            }
            assert_eq!(node, p.root);
            assert_eq!(k, p.siblings.len());
        }
    }
}

#[test]
fn nonce_is_counter_and_zeros() {
    assert_eq!(
        nonce_from_counter(0x0102_0304_0506_0708),
        [1, 2, 3, 4, 5, 6, 7, 8, 0, 0, 0, 0]
    );
}

#[test]
fn encrypted_message_decrypts() {
    let key = [7u8; 32];
    let mut data = b"attack at dawn".to_vec();
    encrypt_message(&key, 5, &mut data);
    assert_eq!(data.len(), 14 + 16);
    assert_ne!(&data[..14], b"attack at dawn");
    let mut copy = data.clone();
    assert_eq!(decrypt_message(&key, 5, &mut copy).unwrap(), b"attack at dawn");
    let mut other = data.clone();
    assert_eq!(decrypt_message(&key, 6, &mut other), Err(CryptoError::Unauthentic));
    let mut short = vec![0u8; 3];
    assert_eq!(decrypt_message(&key, 5, &mut short), Err(CryptoError::Unauthentic));
    data[0] ^= 1;
    assert_eq!(decrypt_message(&key, 5, &mut data), Err(CryptoError::Unauthentic));
}

#[test]
fn encryption_is_chacha20_poly1305() {
    let key = [9u8; 32];
    let mut ours = b"hello".to_vec();
    encrypt_message(&key, 1, &mut ours);
    let mut theirs = b"hello".to_vec();
    LessSafeKey::new(UnboundKey::new(&CHACHA20_POLY1305, &key).unwrap())
        .seal_in_place_append_tag(
            Nonce::assume_unique_for_key(nonce_from_counter(1)),
            Aad::empty(),
            &mut theirs,
        )
        .unwrap();
    assert_eq!(ours, theirs);
    assert_eq!(aead::TAG_LEN, 16);
}

#[test]
fn rs_encode_halves_and_parity() {
    let mut data = vec![1u8, 2, 3];
    let s = rs_encode(&mut data);
    assert_eq!(data, [1, 2, 3, 0]);
    assert_eq!(s.len(), 3);
    assert_eq!(s[0], [1, 2]);
    assert_eq!(s[1], [3, 0]);
    assert_eq!(s[2].len(), 2);
    assert_ne!(s[2], [0, 0]);
}

#[test]
fn rs_reconstruct_any_two_of_three() {
    let s = rs_encode(&mut vec![10u8, 20, 30, 40]);
    for lost in 0..3 {
        let mut given: Vec<Option<Vec<u8>>> = s.iter().cloned().map(Some).collect();
        given[lost] = None;
        assert!(rs_reconstruct(&mut given).is_ok());
        let full: Vec<Vec<u8>> = given.into_iter().map(|x| x.unwrap()).collect();
        assert_eq!(full, s);
    }
}

#[test]
fn rs_reconstruct_faults() {
    let few = Err(ErasureError::TooFewShards);
    assert_eq!(rs_reconstruct(&mut vec![Some(vec![1])]), few);
    let mut many = vec![Some(vec![1]); 4];
    assert_eq!(rs_reconstruct(&mut many), Err(ErasureError::TooManyShards));
    let mut empty = vec![Some(vec![]), Some(vec![1]), None];
    assert_eq!(rs_reconstruct(&mut empty), Err(ErasureError::EmptyShard));
    let mut uneven = vec![Some(vec![1, 2]), Some(vec![1]), None];
    assert_eq!(rs_reconstruct(&mut uneven), Err(ErasureError::IncorrectShardSize));
    let mut lost = vec![Some(vec![1]), None, None];
    assert_eq!(rs_reconstruct(&mut lost), Err(ErasureError::TooFewShardsPresent));
    assert_eq!(lost, vec![Some(vec![1]), None, None]);
}

#[test]
fn erasure_errors_read_as_the_codec_says() {
    let pairs = [
        (ErasureError::TooFewShards, Error::TooFewShards),
        (ErasureError::TooManyShards, Error::TooManyShards),
        (ErasureError::TooFewDataShards, Error::TooFewDataShards),
        (ErasureError::TooManyDataShards, Error::TooManyDataShards),
        (ErasureError::TooFewParityShards, Error::TooFewParityShards),
        (ErasureError::TooManyParityShards, Error::TooManyParityShards),
        (ErasureError::TooFewBufferShards, Error::TooFewBufferShards),
        (ErasureError::TooManyBufferShards, Error::TooManyBufferShards),
        (ErasureError::IncorrectShardSize, Error::IncorrectShardSize),
        (ErasureError::TooFewShardsPresent, Error::TooFewShardsPresent),
        (ErasureError::EmptyShard, Error::EmptyShard),
        (ErasureError::InvalidShardFlags, Error::InvalidShardFlags),
        (ErasureError::InvalidIndex, Error::InvalidIndex),
    ];
    for (ours, theirs) in pairs {
        assert_eq!(ours.message(), theirs.to_string());
    }
}

#[test]
fn rs_encode_n_pads_rows() {
    let s = rs_encode_n(&[1, 2, 3, 4, 5], 3, 2);
    assert_eq!(s.len(), 5);
    assert_eq!(s[..3], [vec![1, 2], vec![3, 4], vec![5, 0]]);
    assert!(s.iter().all(|r| r.len() == 2));
    assert_eq!(rs_encode_n(&[1, 2], 0, 3), [vec![1, 2]]);
    assert_eq!(rs_encode_n(&[1, 2], 3, 0), [vec![1, 2]]);
}

#[test]
fn rs_reconstruct_n_restores_up_to_parity_losses() {
    let s = rs_encode_n(b"the quick brown fox", 3, 2);
    for a in 0..5 {
        for b in 0..5 {
            let mut given: Vec<Option<Vec<u8>>> = s.iter().cloned().map(Some).collect();
            given[a] = None;
            given[b] = None;
            assert!(rs_reconstruct_n(&mut given, 3, 2).is_ok());
            let full: Vec<Vec<u8>> = given.into_iter().map(|x| x.unwrap()).collect();
            assert_eq!(full, s);
        }
    }
    assert_eq!(s[..3].concat()[..19], b"the quick brown fox"[..]);
}

#[test]
fn shares_under_a_known_mask() {
    let secret = [0x0fu8; 32];
    let mask = [0xf0u8; 32];
    let s = gf256_shamir::shares_under_mask(&secret, &mask);
    assert_eq!(s[0], [vec![1], vec![0xf0; 32]].concat());
    assert_eq!(s[1], [vec![2], vec![0xff; 32]].concat());
    assert_eq!(s[2], [vec![3], vec![0xf4; 32]].concat());
}

#[test]
fn two_shares_rejoin() {
    let mut secret = [0u8; 32];
    for (i, b) in secret.iter_mut().enumerate() {
        *b = i as u8 * 7;
    }
    let s = shamir_split(&mut secret).unwrap();
    for (i, j) in [(0, 1), (1, 0), (1, 2), (2, 1), (0, 2), (2, 0)] {
        assert_eq!(shamir_join(&s[i], &s[j]), secret);
    }
    assert_eq!(shamir_join(&s[1], &s[1]), [0u8; 32]);
    for b in 0..=255u8 {
        let t = gf256_shamir::shares_under_mask(&[b; 32], &[b.wrapping_mul(31); 32]);
        for (i, j) in [(0, 1), (1, 2), (2, 0)] {
            assert_eq!(shamir_join(&t[i], &t[j]), [b; 32]);
        }
    }
}

#[test]
fn generate_and_reconstruct() {
    let mut secret = [3u8; 32];
    let s = gf256_shamir::generate(&mut secret, 9, 9).unwrap();
    assert_eq!(s.len(), 3);
    assert_eq!(secret, [3u8; 32]);
    assert_eq!(gf256_shamir::reconstruct(&s), secret);
    assert_eq!(gf256_shamir::reconstruct(&s[..1]), [0u8; 32]);
    assert_eq!(gf256_shamir::reconstruct(&[]), [0u8; 32]);
}

#[test]
fn one_share_tells_nothing() {
    let shares = gf256_shamir::shares_under_mask(&[5u8; 32], &[6u8; 32]);
    let same_first = gf256_shamir::shares_under_mask(&[9u8; 32], &[6u8; 32]);
    let same_second = gf256_shamir::shares_under_mask(&[9u8; 32], &[5 ^ 6 ^ 9; 32]);
    let same_third = gf256_shamir::shares_under_mask(&[9u8; 32], &[0u8; 32]);
    assert_eq!(shares[0], same_first[0]);
    assert_eq!(shares[1], same_second[1]);
    assert_eq!(shares[2], same_third[2]);
}

#[test]
fn random_keys_differ() {
    assert_ne!(random_key().unwrap(), random_key().unwrap());
    assert_ne!(SensitiveKey::new().unwrap().0, [0u8; 32]);
}

#[test]
fn keys_are_the_bytes_drawn() {
    let drawn: Vec<u8> = (0..32).collect();
    assert_eq!(keys::key_from_draw(Ok(drawn.clone())).unwrap()[..], drawn[..]);
    assert_eq!(keys::key_from_draw(Err(Unspecified)), Err(CryptoError::NoEntropy));
    let secret = SensitiveKey::from_draw(Ok(drawn.clone())).ok().unwrap();
    assert_eq!(secret.as_bytes()[..], drawn[..]);
    let none = SensitiveKey::from_draw(Err(Unspecified)).err();
    assert_eq!(none, Some(CryptoError::NoEntropy));
}

#[test]
fn sensitive_key_wipes() {
    let mut k = SensitiveKey::from_bytes(&[1u8; 32]);
    assert_eq!(k.as_bytes(), &[1u8; 32]);
    k.wipe();
    assert_eq!(k.as_bytes(), &[0u8; 32]);
}

#[test]
fn identity_of_a_known_seed() {
    let seed: [u8; 32] =
        hex::decode("9d61b19deffd5a60ba844af492ec2cc44449c5697b326919703bac031cae7f60")
            .unwrap()
            .try_into()
            .unwrap();
    let id = PeerIdentity::generate(&seed, &[2u8; 32]);
    assert_eq!(id.fingerprint(), "d75a980182b10ab7");
    assert_eq!(id.fingerprint_hex, id.fingerprint());
    assert_eq!(id.kyber_public.len(), 800);
    assert_eq!(
        id.x_public,
        x25519_dalek::x25519([2u8; 32], x25519_dalek::X25519_BASEPOINT_BYTES)
    );
}

#[test]
fn handshake_blob_layout() {
    let seed = [4u8; 32];
    let id = PeerIdentity::from_parts(&seed, &[5u8; 32], vec![6u8; 800]);
    let blob = id.build_handshake_blob();
    let key = SigningKey::from_bytes(&seed);
    assert_eq!(blob.len(), 960);
    assert_eq!(&blob[..16], b"GHOST_HANDSHAKE_");
    assert_eq!(blob[16..48], id.x_public);
    assert_eq!(blob[48..848], vec![6u8; 800]);
    assert_eq!(blob[848..880], key.verifying_key().to_bytes());
    assert_eq!(blob[880..944], key.sign(&[6u8; 800]).to_bytes());
    assert_eq!(blob[944..], [0u8; 16]);
}

#[test]
fn built_handshake_blob_verifies() {
    let id = PeerIdentity::generate(&[8u8; 32], &[9u8; 32]);
    let blob = id.build_handshake_blob();
    assert_eq!(PeerIdentity::verify_handshake_blob(&blob), Ok(blob[16..880].to_vec()));
    let mut longer = blob.clone();
    longer.push(1);
    assert!(PeerIdentity::verify_handshake_blob(&longer).is_ok());
}

#[test]
fn broken_handshake_blobs_are_refused() {
    let blob = PeerIdentity::generate(&[8u8; 32], &[9u8; 32]).build_handshake_blob();
    let magic = Err("Invalid magic header");
    assert_eq!(PeerIdentity::verify_handshake_blob(&blob[..959]), magic);
    let mut b = blob.clone();
    b[3] ^= 1;
    assert_eq!(PeerIdentity::verify_handshake_blob(&b), magic);
    let mut b = blob.clone();
    b[100] ^= 1;
    let signature = Err("Signature verification failed");
    assert_eq!(PeerIdentity::verify_handshake_blob(&b), signature);
    let mut b = blob.clone();
    b[848..880].copy_from_slice(&[2u8; 32]);
    assert_eq!(PeerIdentity::verify_handshake_blob(&b), Err("Invalid Ed key"));
}

#[test]
fn judge_handshake_goes_by_its_findings() {
    let blob = PeerIdentity::from_parts(&[1; 32], &[1; 32], vec![1; 800]).build_handshake_blob();
    assert_eq!(identity::judge_handshake(&blob, true, true), Ok(blob[16..880].to_vec()));
    assert_eq!(identity::judge_handshake(&blob, false, true), Err("Invalid Ed key"));
    assert_eq!(
        identity::judge_handshake(&blob, true, false),
        Err("Signature verification failed")
    );
    assert_eq!(identity::judge_handshake(&[], true, true), Err("Invalid magic header"));
}

#[test]
fn both_sides_agree_on_a_hybrid_secret() {
    let (a, b) = ([11u8; 32], [12u8; 32]);
    let (pk, sk) = kyber512::keypair();
    let (ss, ct) = kyber512::encapsulate(&pk);
    assert_eq!(pk.as_bytes().len(), exchange::KYBER_PUBLIC_LEN);
    let ours = hybrid_ecdh(&a, &exchange::x25519_public(&b), sk.as_bytes(), ct.as_bytes());
    let x = x25519_dalek::x25519(b, exchange::x25519_public(&a));
    assert_eq!(ours[..32], x);
    assert_eq!(&ours[32..], ss.as_bytes());
    let kept = HybridSharedSecret { x25519_secret: x, kyber_secret: ours[32..].to_vec() };
    assert_eq!(exchange::combine_secrets(&kept.x25519_secret, &kept.kyber_secret), ours);
}

#[test]
fn stored_identity_seed_is_kept() {
    assert_eq!(settle_seed(&None, [4; 32]), Some([4; 32]));
    assert_eq!(settle_seed(&Some(vec![9; 32]), [4; 32]), Some([9; 32]));
    assert_eq!(settle_seed(&Some(vec![9; 31]), [4; 32]), None);
    assert_eq!(settle_seed(&Some(Vec::new()), [4; 32]), None);
}

//! Files as blocks, and blocks as groups of shards.
//!
//! A file is cut into blocks. Each block is encrypted under a key of its own
//! and encoded into shards; the group of its shards is named by a digest. The
//! shares of the key go into the directory, and from them and enough of the
//! shards the block is read back.

use crate::bytes;
use crate::crypto::aead;
use crate::crypto::aead::{decrypt_message, encrypt_message};
use crate::crypto::erasure;
use crate::crypto::erasure::{rs_encode_n, rs_reconstruct_n};
use crate::crypto::gf256_shamir;
use crate::crypto::gf256_shamir::{shamir_join, shamir_split};
use crate::crypto::hash;
use crate::crypto::hash::blake3_hash;
use crate::crypto::keys::random_key;
use crate::crypto::merkle;
use crate::crypto::merkle::merkle_root;
use crate::crypto::CryptoError;
use crate::directory;
use crate::directory::{BlockKey, BlockKeyModel, FileEntry, FileModel};
use crate::text;
use vstd::prelude::*;

verus! {

/// The number of blocks of a file of `len` bytes.
pub open spec fn block_count(len: nat, block_size: nat) -> nat {
    ((len + block_size - 1) / block_size as int) as nat
}

/// Where block `i` of a file of `len` bytes ends.
pub open spec fn block_end(len: nat, block_size: nat, i: int) -> int {
    if i * block_size + block_size <= len {
        i * block_size + block_size
    } else {
        len as int
    }
}

/// Block `i` of `data`.
pub open spec fn block(data: Seq<u8>, block_size: nat, i: int) -> Seq<u8> {
    data.subrange(i * block_size, block_end(data.len(), block_size, i))
}

/// What block number `index` is encrypted to under `key`.
pub open spec fn encrypted(block: Seq<u8>, index: nat, key: Seq<u8>) -> Seq<u8> {
    aead::sealed(key, aead::counter_nonce((index + 1) as u64), block)
}

/// The group of the shards of block number `index`.
pub open spec fn group_of(index: nat, encrypted: Seq<u8>) -> Seq<char> {
    text::hex_text(
        hash::blake3_digest(bytes::little_endian(index, 8) + encrypted).take(16),
    )
}

/// The shards of an encrypted block. Without data or parity shards there is one, the block.
pub open spec fn shards_of(encrypted: Seq<u8>, data_shards: nat, parity_shards: nat) -> Seq<
    Seq<u8>,
> {
    if data_shards == 0 || parity_shards == 0 {
        seq![encrypted]
    } else {
        erasure::codeword(erasure::data_rows(encrypted, data_shards), parity_shards)
    }
}

/// A block on its way into the vault.
pub struct SealedBlock {
    pub group_id: String,
    pub counter: u64,
    pub shards: Vec<Vec<u8>>,
    pub root: [u8; 32],
    /// The length of the block.
    pub plain_len: usize,
    /// The shares of the key; none before it is shared.
    pub key_shares: Vec<Vec<u8>>,
}

impl SealedBlock {
    /// Whether this is what `plain`, as block number `index`, is sealed to under `key`.
    pub open spec fn seals(
        &self,
        plain: Seq<u8>,
        index: nat,
        key: Seq<u8>,
        data_shards: nat,
        parity_shards: nat,
    ) -> bool {
        let cipher = encrypted(plain, index, key);
        &&& self.group_id@ == group_of(index, cipher)
        &&& self.counter == index + 1
        &&& bytes::rows(self.shards@) == shards_of(cipher, data_shards, parity_shards)
        &&& self.root@ == merkle::tree_root(bytes::rows(self.shards@))
        &&& self.plain_len == plain.len()
        &&& cipher.len() == plain.len() + aead::TAG_LEN
        &&& aead::opened(key, aead::counter_nonce(self.counter), cipher) == Some(plain)
        &&& data_shards > 0 && parity_shards > 0 ==> erasure::is_codeword(
            bytes::rows(self.shards@),
            data_shards,
            parity_shards,
        )
    }

    /// What the directory keeps to open the block.
    pub open spec fn block_key(&self) -> BlockKeyModel {
        BlockKeyModel { block_len: self.plain_len, shares: bytes::rows(self.key_shares@) }
    }
}

/// The groups of blocks.
pub open spec fn groups_of(blocks: Seq<SealedBlock>) -> Seq<Seq<char>> {
    Seq::new(blocks.len(), |i: int| blocks[i].group_id@)
}

/// What the directory keeps to open blocks.
pub open spec fn keys_of(blocks: Seq<SealedBlock>) -> Seq<BlockKeyModel> {
    Seq::new(blocks.len(), |i: int| blocks[i].block_key())
}

/// Whether files can be stored with these numbers of shards: there is a code
/// for them, or none is called for.
pub open spec fn storable(data_shards: nat, parity_shards: nat) -> bool {
    data_shards > 0 && parity_shards > 0 ==> erasure::is_code(data_shards, parity_shards)
}

/// Seals one block under a given key.
pub fn seal_block(
    plain: &[u8],
    index: usize,
    key: &[u8; 32],
    data_shards: usize,
    parity_shards: usize,
) -> (r: SealedBlock)
    requires
        plain@.len() <= aead::MAX_MESSAGE_LEN,
        plain@.len() + 272 <= usize::MAX,
        index < u64::MAX,
        storable(data_shards as nat, parity_shards as nat),
    ensures
        r.seals(plain@, index as nat, key@, data_shards as nat, parity_shards as nat),
        r.key_shares@.len() == 0,
{
    let mut cipher = bytes::copy(plain);
    let counter = index as u64 + 1;
    encrypt_message(key, counter, &mut cipher);
    let shards = rs_encode_n(cipher.as_slice(), data_shards, parity_shards);
    let mut named = bytes::u64_to_le(index as u64);
    named.extend_from_slice(cipher.as_slice());
    assert(named@ =~= bytes::little_endian(index as nat, 8) + cipher@);
    let digest = blake3_hash(named.as_slice());
    assert(digest@.subrange(0, 16) =~= digest@.take(16));
    let group_id = text::to_hex(vstd::slice::slice_subrange(&digest, 0, 16));
    let root = merkle_root(shards.as_slice());
    SealedBlock {
        group_id,
        counter,
        shards,
        root,
        plain_len: plain.len(),
        key_shares: Vec::new(),
    }
}

/// Whether `blocks` are the blocks of `data`, each sealed under its key.
pub open spec fn are_sealed(
    blocks: Seq<SealedBlock>,
    data: Seq<u8>,
    block_size: nat,
    data_shards: nat,
    parity_shards: nat,
    keys: Seq<Seq<u8>>,
) -> bool {
    &&& keys.len() == blocks.len()
    &&& blocks.len() == block_count(data.len(), block_size)
    &&& forall|i: int|
        0 <= i < blocks.len() ==> (#[trigger] keys[i]).len() == 32 && blocks[i].seals(
            block(data, block_size, i),
            i as nat,
            keys[i],
            data_shards,
            parity_shards,
        )
}

/// Whether each of `blocks` carries the shares of its key.
pub open spec fn carry_keys(blocks: Seq<SealedBlock>, keys: Seq<Seq<u8>>) -> bool {
    &&& keys.len() == blocks.len()
    &&& forall|i: int|
        0 <= i < blocks.len() ==> gf256_shamir::are_shares_of(
            bytes::rows((#[trigger] blocks[i]).key_shares@),
            keys[i],
        )
}

/// Whether `blocks` are the blocks of `data`, each sealed under some key whose
/// shares it carries.
pub open spec fn are_sealed_blocks(
    blocks: Seq<SealedBlock>,
    data: Seq<u8>,
    block_size: nat,
    data_shards: nat,
    parity_shards: nat,
) -> bool {
    exists|keys: Seq<Seq<u8>>| #[trigger]
        are_sealed(blocks, data, block_size, data_shards, parity_shards, keys) && carry_keys(
            blocks,
            keys,
        )
}

proof fn lemma_block_count(len: nat, block_size: nat)
    requires
        block_size > 0,
    ensures
        block_count(len, block_size) * block_size >= len,
        block_count(len, block_size) > 0 ==> (block_count(len, block_size) - 1) * block_size < len,
        block_count(len, block_size) <= len,
{
    let n = len + block_size - 1;
    let q = n / block_size as int;
    vstd::arithmetic::div_mod::lemma_fundamental_div_mod(n, block_size as int);
    vstd::arithmetic::div_mod::lemma_mod_bound(n, block_size as int);
    vstd::arithmetic::div_mod::lemma_div_pos_is_pos(n, block_size as int);
    assert(q * block_size == block_size * q) by (nonlinear_arith);
    assert((q - 1) * block_size == q * block_size - block_size) by (nonlinear_arith);
    assert(q > 0 ==> q - 1 <= (q - 1) * block_size) by (nonlinear_arith)
        requires
            block_size > 0,
    ;
}

proof fn lemma_block_inside(len: nat, block_size: nat, i: int)
    requires
        block_size > 0,
        0 <= i < block_count(len, block_size),
    ensures
        0 <= i * block_size < block_end(len, block_size, i) <= len,
        block_end(len, block_size, i) - i * block_size <= block_size,
        i + 1 < block_count(len, block_size) ==> block_end(len, block_size, i) == (i + 1)
            * block_size,
        i + 1 == block_count(len, block_size) ==> block_end(len, block_size, i) == len,
{
    let c = block_count(len, block_size) as int;
    let b = block_size as int;
    lemma_block_count(len, block_size);
    assert(0 <= i * b) by (nonlinear_arith)
        requires
            0 <= i,
            0 < b,
    ;
    assert(i * b <= (c - 1) * b) by (nonlinear_arith)
        requires
            i <= c - 1,
            0 < b,
    ;
    assert((i + 1) * b == i * b + b) by (nonlinear_arith);
    if i + 1 < c {
        assert((i + 1) * b <= (c - 1) * b) by (nonlinear_arith)
            requires
                i + 1 <= c - 1,
                0 < b,
        ;
    }
}

/// The contents of a sequence of keys.
pub open spec fn key_rows(keys: Seq<[u8; 32]>) -> Seq<Seq<u8>> {
    Seq::new(keys.len(), |i: int| keys[i]@)
}

/// Cuts `data` into blocks and seals each under its key; the keys are not shared yet.
pub fn seal_file_with(
    data: &[u8],
    block_size: usize,
    data_shards: usize,
    parity_shards: usize,
    keys: &Vec<[u8; 32]>,
) -> (r: Vec<SealedBlock>)
    requires
        block_size > 0,
        data@.len() + block_size <= usize::MAX,
        data@.len() + 272 <= usize::MAX,
        data@.len() <= aead::MAX_MESSAGE_LEN || block_size <= aead::MAX_MESSAGE_LEN,
        storable(data_shards as nat, parity_shards as nat),
        keys@.len() == block_count(data@.len(), block_size as nat),
    ensures
        are_sealed(
            r@,
            data@,
            block_size as nat,
            data_shards as nat,
            parity_shards as nat,
            Seq::new(keys@.len(), |i: int| keys@[i]@),
        ),
        forall|i: int| 0 <= i < r@.len() ==> (#[trigger] r@[i]).key_shares@.len() == 0,
{
    let mut blocks: Vec<SealedBlock> = Vec::new();
    proof {
        lemma_block_count(data@.len(), block_size as nat);
    }
    let mut i: usize = 0;
    while i < keys.len()
        invariant
            i <= keys@.len(),
            keys@.len() == block_count(data@.len(), block_size as nat),
            keys@.len() <= data@.len(),
            block_size > 0,
            data@.len() + block_size <= usize::MAX,
            data@.len() + 272 <= usize::MAX,
            data@.len() <= aead::MAX_MESSAGE_LEN || block_size <= aead::MAX_MESSAGE_LEN,
            storable(data_shards as nat, parity_shards as nat),
            blocks@.len() == i,
            forall|j: int|
                0 <= j < i ==> (#[trigger] blocks@[j]).seals(
                    block(data@, block_size as nat, j),
                    j as nat,
                    keys@[j]@,
                    data_shards as nat,
                    parity_shards as nat,
                ) && blocks@[j].key_shares@.len() == 0,
        decreases keys@.len() - i,
    {
        proof {
            lemma_block_inside(data@.len(), block_size as nat, i as int);
        }
        let start = i * block_size;
        let end = if data.len() - start >= block_size {
            start + block_size
        } else {
            data.len()
        };
        let plain = vstd::slice::slice_subrange(data, start, end);
        blocks.push(seal_block(plain, i, &keys[i], data_shards, parity_shards));
        i += 1;
    }
    let ghost rows = Seq::new(keys@.len(), |i: int| keys@[i]@);
    assert forall|j: int| 0 <= j < blocks@.len() implies (#[trigger] rows[j]).len() == 32
        && blocks@[j].seals(
        block(data@, block_size as nat, j),
        j as nat,
        rows[j],
        data_shards as nat,
        parity_shards as nat,
    ) by {
        assert(blocks@[j].key_shares@.len() == 0);
    }
    blocks
}

/// Cuts `data` into blocks, seals each under a fresh key, and shares the keys.
pub fn seal_file(data: &[u8], block_size: usize, data_shards: usize, parity_shards: usize) -> (r:
    Result<Vec<SealedBlock>, CryptoError>)
    requires
        block_size > 0,
        data@.len() + block_size <= usize::MAX,
        data@.len() + 272 <= usize::MAX,
        data@.len() <= aead::MAX_MESSAGE_LEN || block_size <= aead::MAX_MESSAGE_LEN,
        storable(data_shards as nat, parity_shards as nat),
    ensures
        match r {
            Ok(blocks) => are_sealed_blocks(
                blocks@,
                data@,
                block_size as nat,
                data_shards as nat,
                parity_shards as nat,
            ),
            Err(e) => e == CryptoError::NoEntropy,
        },
        data@.len() == 0 ==> r is Ok,
{
    let total = (data.len() + block_size - 1) / block_size;
    proof {
        lemma_block_count(data@.len(), block_size as nat);
    }
    let mut keys: Vec<[u8; 32]> = Vec::new();
    let mut shares: Vec<Vec<Vec<u8>>> = Vec::new();
    while keys.len() < total
        invariant
            keys@.len() <= total,
            total <= data@.len(),
            shares@.len() == keys@.len(),
            forall|j: int|
                0 <= j < shares@.len() ==> gf256_shamir::are_shares_of(
                    bytes::rows((#[trigger] shares@[j])@),
                    keys@[j]@,
                ),
        decreases total - keys@.len(),
    {
        let mut key = match random_key() {
            Ok(key) => key,
            Err(e) => return Err(e),
        };
        match shamir_split(&mut key) {
            Ok(split) => shares.push(split),
            Err(e) => return Err(e),
        }
        keys.push(key);
    }
    let unshared = seal_file_with(data, block_size, data_shards, parity_shards, &keys);
    let ghost rows = key_rows(keys@);
    let blocks = with_shares(unshared, shares);
    proof {
        assert(rows =~= Seq::new(keys@.len(), |i: int| keys@[i]@));
        assert forall|i: int| 0 <= i < blocks@.len() implies (#[trigger] rows[i]).len() == 32
            && blocks@[i].seals(
            block(data@, block_size as nat, i),
            i as nat,
            rows[i],
            data_shards as nat,
            parity_shards as nat,
        ) by {
            assert(unshared@[i].seals(
                block(data@, block_size as nat, i),
                i as nat,
                rows[i],
                data_shards as nat,
                parity_shards as nat,
            ));
            assert(blocks@[i].group_id == unshared@[i].group_id);
        }
        assert forall|i: int| 0 <= i < blocks@.len() implies gf256_shamir::are_shares_of(
            bytes::rows((#[trigger] blocks@[i]).key_shares@),
            rows[i],
        ) by {
            assert(gf256_shamir::are_shares_of(bytes::rows(shares@[i]@), keys@[i]@));
        }
        assert(are_sealed(
            blocks@,
            data@,
            block_size as nat,
            data_shards as nat,
            parity_shards as nat,
            rows,
        ) && carry_keys(blocks@, rows));
    }
    Ok(blocks)
}

/// The blocks with the shares of their keys.
pub fn with_shares(blocks: Vec<SealedBlock>, shares: Vec<Vec<Vec<u8>>>) -> (r: Vec<SealedBlock>)
    requires
        shares@.len() == blocks@.len(),
    ensures
        r@ == Seq::new(
            blocks@.len(),
            |i: int| (SealedBlock { key_shares: shares@[i], ..blocks@[i] }),
        ),
{
    let ghost all = blocks@;
    let ghost parts = shares@;
    let mut left = blocks;
    let mut given = shares;
    let mut out: Vec<SealedBlock> = Vec::new();
    while left.len() > 0
        invariant
            left@.len() == given@.len(),
            out@.len() + left@.len() == all.len(),
            parts.len() == all.len(),
            left@ == all.skip(out@.len() as int),
            given@ == parts.skip(out@.len() as int),
            forall|j: int|
                0 <= j < out@.len() ==> (#[trigger] out@[j]) == (SealedBlock {
                    key_shares: parts[j],
                    ..all[j]
                }),
        decreases left@.len(),
    {
        let block = left.remove(0);
        let key_shares = given.remove(0);
        out.push(SealedBlock { key_shares, ..block });
        assert(left@ =~= all.skip(out@.len() as int));
        assert(given@ =~= parts.skip(out@.len() as int));
    }
    assert(out@ =~= Seq::new(
        all.len(),
        |i: int| (SealedBlock { key_shares: parts[i], ..all[i] }),
    ));
    out
}

// ---------- Reading ----------

/// What could be had of the shards of a block: nothing where the group has no
/// route, else each shard of the route where it could be read.
pub struct BlockSource {
    pub shards: Option<Vec<Option<Vec<u8>>>>,
}

/// The shards of block number `index`, one after the other, after the missing
/// ones were restored. The error says why they cannot be had.
pub open spec fn restored(
    group_id: Seq<char>,
    source: BlockSource,
    index: nat,
    data_shards: nat,
    parity_shards: nat,
) -> Result<Seq<u8>, Seq<char>> {
    match source.shards {
        None => Err("No route for group "@ + group_id),
        Some(shards) => {
            let given = bytes::optional_rows(shards@);
            match erasure::repair_fault(given, data_shards, parity_shards) {
                Some(fault) => Err(
                    "RS reconstruction failed for block "@ + text::numeral(index) + ": "@
                        + fault.text(),
                ),
                None => Ok(bytes::flat(erasure::repaired(given, data_shards, parity_shards))),
            }
        },
    }
}

/// Whether a key can be joined from the first two of `shares`: they are whole.
pub open spec fn has_key(shares: Seq<Seq<u8>>) -> bool {
    shares.len() >= 2 && shares[0].len() >= 33 && shares[1].len() >= 33
}

/// What block number `index` is, where its shards are `stored`: their beginning
/// is the encrypted block. The error says why it cannot be opened.
pub open spec fn block_opened(stored: Seq<u8>, index: nat, keys: Seq<BlockKeyModel>) -> Result<
    Seq<u8>,
    Seq<char>,
> {
    if index < keys.len() && has_key(keys[index as int].shares) {
        let k = keys[index as int];
        match aead::opened(
            gf256_shamir::rejoined(k.shares[0], k.shares[1]),
            aead::counter_nonce((index + 1) as u64),
            bytes::start_of(stored, (k.block_len + aead::TAG_LEN) as nat),
        ) {
            Some(plain) => Ok(plain),
            None => Err("Decryption failed for block "@ + text::numeral(index)),
        }
    } else {
        Err("No key for block "@ + text::numeral(index))
    }
}

/// What block number `index` of `file` is read back as. The error says why it
/// cannot be read.
pub open spec fn block_read(
    file: FileModel,
    source: BlockSource,
    index: nat,
    data_shards: nat,
    parity_shards: nat,
) -> Result<Seq<u8>, Seq<char>> {
    match restored(
        file.block_groups[index as int],
        source,
        index,
        data_shards,
        parity_shards,
    ) {
        Err(e) => Err(e),
        Ok(stored) => block_opened(stored, index, file.block_keys),
    }
}

/// What a file is read back as: its blocks, one after the other; the first
/// block that cannot be read makes the whole read fail.
pub open spec fn file_read(
    file: FileModel,
    sources: Seq<BlockSource>,
    data_shards: nat,
    parity_shards: nat,
) -> Result<Seq<u8>, Seq<char>>
    decreases sources.len(),
{
    if sources.len() == 0 {
        Ok(Seq::empty())
    } else {
        let last = (sources.len() - 1) as nat;
        match file_read(file, sources.drop_last(), data_shards, parity_shards) {
            Err(e) => Err(e),
            Ok(before) => match block_read(
                file,
                sources.last(),
                last,
                data_shards,
                parity_shards,
            ) {
                Err(e) => Err(e),
                Ok(block) => Ok(before + block),
            },
        }
    }
}

/// Whether `r` is the outcome `m` of a read.
pub open spec fn is_read(r: Result<Vec<u8>, String>, m: Result<Seq<u8>, Seq<char>>) -> bool {
    match r {
        Ok(data) => m == Ok::<Seq<u8>, Seq<char>>(data@),
        Err(e) => m == Err::<Seq<u8>, Seq<char>>(e@),
    }
}

/// Whether the source holds at least as many shards of the codeword `word` as
/// the code has data shards, each at its place, and nothing else.
pub open spec fn is_source_of(
    source: BlockSource,
    word: Seq<Seq<u8>>,
    data_shards: nat,
    parity_shards: nat,
) -> bool {
    &&& source.shards is Some
    &&& erasure::is_codeword(word, data_shards, parity_shards)
    &&& erasure::taken_from(bytes::optional_rows(source.shards->0@), word)
    &&& erasure::present(bytes::optional_rows(source.shards->0@)) >= data_shards
}

/// Whether block number `index` of `file` is the block `plain`, and the source
/// holds enough of its shards: at most as many as there are parity shards are missing.
pub open spec fn is_stored_block(
    file: FileModel,
    source: BlockSource,
    index: nat,
    plain: Seq<u8>,
    sealed: SealedBlock,
    key: Seq<u8>,
    data_shards: nat,
    parity_shards: nat,
) -> bool {
    &&& key.len() == 32
    &&& sealed.seals(plain, index, key, data_shards, parity_shards)
    &&& gf256_shamir::are_shares_of(bytes::rows(sealed.key_shares@), key)
    &&& index < file.block_keys.len()
    &&& file.block_keys[index as int] == sealed.block_key()
    &&& is_source_of(source, bytes::rows(sealed.shards@), data_shards, parity_shards)
}

/// Whether `file` is the entry of an upload of `data`, sealed as `sealed` under
/// `keys`, and of each block the sources hold enough shards: at most as many as
/// there are parity shards are missing.
pub open spec fn is_upload_of(
    file: FileModel,
    sources: Seq<BlockSource>,
    data: Seq<u8>,
    block_size: nat,
    sealed: Seq<SealedBlock>,
    keys: Seq<Seq<u8>>,
    data_shards: nat,
    parity_shards: nat,
) -> bool {
    &&& block_size > 0
    &&& are_sealed(sealed, data, block_size, data_shards, parity_shards, keys)
    &&& carry_keys(sealed, keys)
    &&& file.block_groups == groups_of(sealed)
    &&& file.block_keys == keys_of(sealed)
    &&& sources.len() == sealed.len()
    &&& forall|i: int|
        0 <= i < sources.len() ==> is_source_of(
            #[trigger] sources[i],
            bytes::rows(sealed[i].shards@),
            data_shards,
            parity_shards,
        )
}

/// Whether `r` gives the data back for every upload that `file` and `sources`
/// may be of.
pub open spec fn reads_uploads(
    file: FileModel,
    sources: Seq<BlockSource>,
    data_shards: nat,
    parity_shards: nat,
    r: Result<Vec<u8>, String>,
) -> bool {
    forall|data: Seq<u8>, block_size: nat, sealed: Seq<SealedBlock>, keys: Seq<Seq<u8>>| #[trigger]
        is_upload_of(
            file,
            sources,
            data,
            block_size,
            sealed,
            keys,
            data_shards,
            parity_shards,
        ) ==> (r matches Ok(b) && b@ == data)
}

fn concat_shards(shards: &Vec<Option<Vec<u8>>>, Ghost(full): Ghost<Seq<Seq<u8>>>) -> (r: Vec<u8>)
    requires
        bytes::optional_rows(shards@) == erasure::all_present(full),
    ensures
        r@ == bytes::flat(full),
{
    let mut out: Vec<u8> = Vec::new();
    let mut i: usize = 0;
    assert(bytes::optional_rows(shards@).len() == full.len());
    assert(bytes::flat(full.take(0)) =~= Seq::<u8>::empty());
    while i < shards.len()
        invariant
            i <= shards@.len(),
            shards@.len() == full.len(),
            bytes::optional_rows(shards@) == erasure::all_present(full),
            out@ == bytes::flat(full.take(i as int)),
        decreases shards@.len() - i,
    {
        proof {
            assert(bytes::optional_rows(shards@)[i as int] == Some(full[i as int]));
            assert(full.take(i + 1).drop_last() =~= full.take(i as int));
        }
        if let Some(shard) = &shards[i] {
            out.extend_from_slice(shard.as_slice());
        }
        i += 1;
        assert(out@ =~= bytes::flat(full.take(i as int)));
    }
    assert(full.take(i as int) =~= full);
    out
}

/// Restores the shards of a block.
pub fn restore_block(
    group_id: &str,
    source: &mut BlockSource,
    index: usize,
    data_shards: usize,
    parity_shards: usize,
) -> (r: Result<Vec<u8>, String>)
    requires
        old(source).shards is Some ==> erasure::is_code(data_shards as nat, parity_shards as nat),
    ensures
        is_read(
            r,
            restored(
                group_id@,
                *old(source),
                index as nat,
                data_shards as nat,
                parity_shards as nat,
            ),
        ),
        forall|word: Seq<Seq<u8>>| #[trigger]
            is_source_of(*old(source), word, data_shards as nat, parity_shards as nat) ==> is_read(
                r,
                Ok(bytes::flat(word)),
            ),
{
    let ghost before = *source;
    proof {
        assert forall|word: Seq<Seq<u8>>| #[trigger]
            is_source_of(
                *source,
                word,
                data_shards as nat,
                parity_shards as nat,
            ) implies erasure::repair_fault(
            bytes::optional_rows(source.shards->0@),
            data_shards as nat,
            parity_shards as nat,
        ) is None by {
            erasure::law_enough_shards_restore(
                word,
                bytes::optional_rows(source.shards->0@),
                data_shards as nat,
                parity_shards as nat,
            );
        }
    }
    match &mut source.shards {
        None => Err(text::concat("No route for group ", group_id)),
        Some(shards) => {
            match rs_reconstruct_n(shards, data_shards, parity_shards) {
                Err(e) => {
                    let mut out = text::concat(
                        "RS reconstruction failed for block ",
                        text::decimal(index as u64).as_str(),
                    );
                    out.append(": ");
                    out.append(e.message().as_str());
                    Err(out)
                },
                Ok(()) => {
                    let ghost full = erasure::repaired(
                        bytes::optional_rows(before.shards->0@),
                        data_shards as nat,
                        parity_shards as nat,
                    );
                    Ok(concat_shards(shards, Ghost(full)))
                },
            }
        },
    }
}

/// Opens a block whose shards are `stored`.
pub fn open_block(stored: &[u8], index: usize, keys: &Vec<BlockKey>) -> (r: Result<Vec<u8>, String>)
    requires
        index < u64::MAX,
    ensures
        is_read(r, block_opened(stored@, index as nat, directory::key_models(keys@))),
{
    let ghost models = directory::key_models(keys@);
    if index < keys.len() && keys[index].shares.len() >= 2 {
        let shares = &keys[index].shares;
        let first = shares[0].as_slice();
        let second = shares[1].as_slice();
        assert(models[index as int].shares[0] == first@);
        assert(models[index as int].shares[1] == second@);
        if first.len() >= 33 && second.len() >= 33 {
            let key = shamir_join(first, second);
            let mut cipher = bytes::copy_start(stored, keys[index].block_len, aead::TAG_LEN);
            return match decrypt_message(key.as_slice(), index as u64 + 1, &mut cipher) {
                Ok(plain) => Ok(bytes::copy(plain)),
                Err(_) => Err(
                    text::concat(
                        "Decryption failed for block ",
                        text::decimal(index as u64).as_str(),
                    ),
                ),
            };
        }
    }
    Err(text::concat("No key for block ", text::decimal(index as u64).as_str()))
}

/// Reads a block back from its shards.
pub fn reconstruct_block(
    file: &FileEntry,
    source: &mut BlockSource,
    index: usize,
    data_shards: usize,
    parity_shards: usize,
) -> (r: Result<Vec<u8>, String>)
    requires
        old(source).shards is Some ==> erasure::is_code(data_shards as nat, parity_shards as nat),
        index < file.block_groups@.len(),
        index < u64::MAX,
    ensures
        is_read(
            r,
            block_read(
                file@,
                *old(source),
                index as nat,
                data_shards as nat,
                parity_shards as nat,
            ),
        ),
        forall|plain: Seq<u8>, sealed: SealedBlock, key: Seq<u8>| #[trigger]
            is_stored_block(
                file@,
                *old(source),
                index as nat,
                plain,
                sealed,
                key,
                data_shards as nat,
                parity_shards as nat,
            ) ==> is_read(r, Ok(plain)),
{
    let ghost before = *source;
    assert(file@.block_groups[index as int] == file.block_groups@[index as int]@);
    match restore_block(
        file.block_groups[index].as_str(),
        source,
        index,
        data_shards,
        parity_shards,
    ) {
        Err(e) => Err(e),
        Ok(stored) => {
            proof {
                assert forall|plain: Seq<u8>, sealed: SealedBlock, key: Seq<u8>| #[trigger]
                    is_stored_block(
                        file@,
                        before,
                        index as nat,
                        plain,
                        sealed,
                        key,
                        data_shards as nat,
                        parity_shards as nat,
                    ) implies block_opened(stored@, index as nat, file@.block_keys) == Ok::<
                    Seq<u8>,
                    Seq<char>,
                >(plain) by {
                    let word = bytes::rows(sealed.shards@);
                    let shares = bytes::rows(sealed.key_shares@);
                    assert(is_read(Ok(stored), Ok(bytes::flat(word))));
                    law_stored_block_reads_back(
                        sealed,
                        plain,
                        index as nat,
                        key,
                        data_shards as nat,
                        parity_shards as nat,
                    );
                    gf256_shamir::law_two_shares_rejoin(key, shares, 0, 1);
                    assert(bytes::start_of(stored@, (plain.len() + aead::TAG_LEN) as nat)
                        =~= stored@.take(plain.len() + aead::TAG_LEN));
                }
            }
            open_block(stored.as_slice(), index, &file.block_keys)
        },
    }
}

/// Reconstruct a file from the shards of its blocks: an upload of which enough
/// shards are there gives the uploaded data.
pub fn reconstruct_file(
    file: &FileEntry,
    sources: &mut Vec<BlockSource>,
    data_shards: usize,
    parity_shards: usize,
) -> (r: Result<Vec<u8>, String>)
    requires
        old(sources)@.len() > 0 && old(sources)@[0].shards is Some ==> erasure::is_code(
            data_shards as nat,
            parity_shards as nat,
        ),
        old(sources)@.len() == file.block_groups@.len(),
    ensures
        is_read(r, file_read(file@, old(sources)@, data_shards as nat, parity_shards as nat)),
        forall|
            data: Seq<u8>,
            block_size: nat,
            sealed: Seq<SealedBlock>,
            keys: Seq<Seq<u8>>,
        | #[trigger]
            is_upload_of(
                file@,
                old(sources)@,
                data,
                block_size,
                sealed,
                keys,
                data_shards as nat,
                parity_shards as nat,
            ) ==> (r matches Ok(b) && b@ == data),
        reads_uploads(file@, old(sources)@, data_shards as nat, parity_shards as nat, r),
{
    let ghost all = sources@;
    let ghost (k, m) = (data_shards as nat, parity_shards as nat);
    let mut out: Vec<u8> = Vec::new();
    let mut i: usize = 0;
    assert(all.take(0) =~= Seq::<BlockSource>::empty());
    assert forall|
        data: Seq<u8>,
        block_size: nat,
        sealed: Seq<SealedBlock>,
        keys: Seq<Seq<u8>>,
    | #[trigger]
        is_upload_of(file@, all, data, block_size, sealed, keys, k, m) implies out@
        == first_blocks(data, block_size, 0) by {
        assert(out@ =~= first_blocks(data, block_size, 0));
    }
    while i < sources.len()
        invariant
            i > 0 || (all.len() > 0 && all[0].shards is Some) ==> erasure::is_code(k, m),
            k == data_shards,
            m == parity_shards,
            i <= sources@.len(),
            sources@.len() == all.len(),
            sources@.len() == file.block_groups@.len(),
            all == old(sources)@,
            forall|
                data: Seq<u8>,
                block_size: nat,
                sealed: Seq<SealedBlock>,
                keys: Seq<Seq<u8>>,
            | #[trigger]
                is_upload_of(file@, all, data, block_size, sealed, keys, k, m) ==> out@
                    == first_blocks(data, block_size, i as nat),
            forall|j: int| i <= j < all.len() ==> sources@[j] == all[j],
            file_read(file@, all.take(i as int), k, m) == Ok::<Seq<u8>, Seq<char>>(out@),
        decreases sources@.len() - i,
    {
        assert(all.take(i + 1).drop_last() =~= all.take(i as int));
        assert(all.take(i + 1).last() == sources@[i as int]);
        proof {
            assert forall|
                data: Seq<u8>,
                block_size: nat,
                sealed: Seq<SealedBlock>,
                keys: Seq<Seq<u8>>,
            | #[trigger]
                is_upload_of(
                    file@,
                    all,
                    data,
                    block_size,
                    sealed,
                    keys,
                    k,
                    m,
                ) implies is_stored_block(
                file@,
                all[i as int],
                i as nat,
                block(data, block_size, i as int),
                sealed[i as int],
                keys[i as int],
                k,
                m,
            ) by {
                assert(is_source_of(
                    all[i as int],
                    bytes::rows(sealed[i as int].shards@),
                    k,
                    m,
                ));
                assert(keys[i as int].len() == 32);
                assert(gf256_shamir::are_shares_of(
                    bytes::rows(sealed[i as int].key_shares@),
                    keys[i as int],
                ));
            }
        }
        match reconstruct_block(file, &mut sources[i], i, data_shards, parity_shards) {
            Ok(data) => {
                let ghost before = out@;
                let ghost read = data@;
                out.extend_from_slice(data.as_slice());
                assert(out@ =~= before + data@);
                proof {
                    assert forall|
                        data: Seq<u8>,
                        block_size: nat,
                        sealed: Seq<SealedBlock>,
                        keys: Seq<Seq<u8>>,
                    | #[trigger]
                        is_upload_of(
                            file@,
                            all,
                            data,
                            block_size,
                            sealed,
                            keys,
                            k,
                            m,
                        ) implies out@ == first_blocks(data, block_size, (i + 1) as nat) by {
                        assert(is_stored_block(
                            file@,
                            all[i as int],
                            i as nat,
                            block(data, block_size, i as int),
                            sealed[i as int],
                            keys[i as int],
                            k,
                            m,
                        ));
                        assert(read == block(data, block_size, i as int));
                        lemma_next_block(data, block_size, i as nat);
                    }
                }
            },
            Err(e) => {
                proof {
                    assert forall|
                        data: Seq<u8>,
                        block_size: nat,
                        sealed: Seq<SealedBlock>,
                        keys: Seq<Seq<u8>>,
                    |
                        !(#[trigger] is_upload_of(
                            file@,
                            all,
                            data,
                            block_size,
                            sealed,
                            keys,
                            k,
                            m,
                        )) by {
                        if is_upload_of(file@, all, data, block_size, sealed, keys, k, m) {
                            assert(is_stored_block(
                                file@,
                                all[i as int],
                                i as nat,
                                block(data, block_size, i as int),
                                sealed[i as int],
                                keys[i as int],
                                k,
                                m,
                            ));
                        }
                    }
                    lemma_read_fails(file@, all, i + 1, k, m);
                }
                return Err(e);
            },
        }
        i += 1;
    }
    proof {
        assert(all.take(i as int) =~= all);
        assert forall|
            data: Seq<u8>,
            block_size: nat,
            sealed: Seq<SealedBlock>,
            keys: Seq<Seq<u8>>,
        | #[trigger]
            is_upload_of(file@, all, data, block_size, sealed, keys, k, m) implies out@
            == data by {
            law_blocks_cover_file(data, block_size);
        }
    }
    Ok(out)
}

proof fn lemma_read_fails(
    file: FileModel,
    sources: Seq<BlockSource>,
    i: int,
    data_shards: nat,
    parity_shards: nat,
)
    requires
        0 <= i <= sources.len(),
        file_read(file, sources.take(i), data_shards, parity_shards) is Err,
    ensures
        file_read(file, sources, data_shards, parity_shards) == file_read(
            file,
            sources.take(i),
            data_shards,
            parity_shards,
        ),
    decreases sources.len() - i,
{
    if i < sources.len() {
        assert(sources.take(i + 1).drop_last() =~= sources.take(i));
        lemma_read_fails(file, sources, i + 1, data_shards, parity_shards);
    } else {
        assert(sources.take(i) =~= sources);
    }
}

// ---------- Laws ----------

proof fn lemma_flat_append(a: Seq<Seq<u8>>, b: Seq<Seq<u8>>)
    ensures
        bytes::flat(a + b) == bytes::flat(a) + bytes::flat(b),
    decreases b.len(),
{
    if b.len() == 0 {
        assert(a + b =~= a);
        assert(bytes::flat(a) + bytes::flat(b) =~= bytes::flat(a));
    } else {
        assert((a + b).drop_last() =~= a + b.drop_last());
        lemma_flat_append(a, b.drop_last());
        assert(bytes::flat(a + b) =~= bytes::flat(a) + bytes::flat(b));
    }
}

/// The first `n` blocks of `data`, one after the other.
pub open spec fn first_blocks(data: Seq<u8>, block_size: nat, n: nat) -> Seq<u8> {
    bytes::flat(Seq::new(n, |i: int| block(data, block_size, i)))
}

proof fn lemma_next_block(data: Seq<u8>, block_size: nat, n: nat)
    ensures
        first_blocks(data, block_size, n + 1) == first_blocks(data, block_size, n) + block(
            data,
            block_size,
            n as int,
        ),
{
    let more = Seq::new(n + 1, |i: int| block(data, block_size, i));
    assert(more.drop_last() =~= Seq::new(n, |i: int| block(data, block_size, i)));
}

/// The blocks of a file, one after the other, are the file.
pub proof fn law_blocks_cover_file(data: Seq<u8>, block_size: nat)
    requires
        block_size > 0,
    ensures
        first_blocks(data, block_size, block_count(data.len(), block_size)) == data,
{
    let count = block_count(data.len(), block_size);
    lemma_block_count(data.len(), block_size);
    lemma_blocks_so_far(data, block_size, count);
    if count == 0 {
        assert(0 * block_size == 0) by (nonlinear_arith);
        assert(data =~= Seq::<u8>::empty());
    } else {
        lemma_block_inside(data.len(), block_size, count - 1);
        assert(data.take(data.len() as int) =~= data);
    }
}

proof fn lemma_blocks_so_far(data: Seq<u8>, block_size: nat, n: nat)
    requires
        block_size > 0,
        n <= block_count(data.len(), block_size),
    ensures
        bytes::flat(Seq::new(n, |i: int| block(data, block_size, i))) == data.take(
            if n == 0 {
                0
            } else {
                block_end(data.len(), block_size, n - 1)
            },
        ),
    decreases n,
{
    let all = Seq::new(n, |i: int| block(data, block_size, i));
    if n == 0 {
        assert(data.take(0) =~= Seq::<u8>::empty());
    } else {
        let m = (n - 1) as nat;
        lemma_blocks_so_far(data, block_size, m);
        assert(all.drop_last() =~= Seq::new(m, |i: int| block(data, block_size, i)));
        lemma_block_inside(data.len(), block_size, m as int);
        if m > 0 {
            lemma_block_inside(data.len(), block_size, m - 1);
            assert((m - 1 + 1) * block_size == m * block_size);
        } else {
            assert(m * block_size == 0) by (nonlinear_arith)
                requires
                    m == 0,
            ;
        }
        assert(bytes::flat(all) =~= data.take(block_end(data.len(), block_size, n - 1)));
    }
}

/// What is read back of a stored block begins with the encrypted block, and
/// that opens, under the key it was sealed with, to the block.
pub proof fn law_stored_block_reads_back(
    sealed: SealedBlock,
    plain: Seq<u8>,
    index: nat,
    key: Seq<u8>,
    data_shards: nat,
    parity_shards: nat,
)
    requires
        sealed.seals(plain, index, key, data_shards, parity_shards),
        data_shards > 0,
        parity_shards > 0,
    ensures
        ({
            let cipher = bytes::flat(bytes::rows(sealed.shards@)).take(
                plain.len() + aead::TAG_LEN,
            );
            &&& bytes::flat(bytes::rows(sealed.shards@)).len() >= plain.len() + aead::TAG_LEN
            &&& cipher == encrypted(plain, index, key)
            &&& aead::opened(key, aead::counter_nonce(sealed.counter), cipher) == Some(plain)
        }),
{
    let cipher = encrypted(plain, index, key);
    let rows = erasure::data_rows(cipher, data_shards);
    let extra = erasure::parity(rows, parity_shards);
    lemma_flat_append(rows, extra);
    erasure::law_rows_hold_data(cipher, data_shards);
    assert(bytes::flat(rows + extra).take(cipher.len() as int) =~= bytes::flat(rows).take(
        cipher.len() as int,
    ));
}

/// Every block but the last has the block size; the last has what is left, which
/// is not nothing. Byte `j` of block `i` is that of the file.
pub proof fn law_blocks_are_cut_at_the_block_size(data: Seq<u8>, block_size: nat, i: int, j: int)
    requires
        block_size > 0,
        0 <= i < block_count(data.len(), block_size),
    ensures
        ({
            let count = block_count(data.len(), block_size);
            let b = block(data, block_size, i);
            &&& i + 1 < count ==> b.len() == block_size
            &&& i + 1 == count ==> b.len() == data.len() - i * block_size
            &&& 0 < b.len() <= block_size
            &&& 0 <= j < b.len() ==> b[j] == data[i * block_size + j]
        }),
{
    lemma_block_count(data.len(), block_size);
    lemma_block_inside(data.len(), block_size, i);
    assert((i + 1) * block_size == i * block_size + block_size) by (nonlinear_arith);
}

/// A file has the least number of blocks that hold it; an empty one has none.
pub proof fn law_blocks_are_as_few_as_can_be(len: nat, block_size: nat)
    requires
        block_size > 0,
    ensures
        (block_count(len, block_size) == 0) == (len == 0),
        block_count(len, block_size) * block_size >= len,
        len > 0 ==> (block_count(len, block_size) - 1) * block_size < len,
{
    lemma_block_count(len, block_size);
    if block_count(len, block_size) == 0 {
        assert(0 * block_size == 0) by (nonlinear_arith);
    }
}

/// Every sealed block has its own message number, and with it a nonce of its
/// own, and as many shards as the code has rows.
pub proof fn law_sealed_blocks_have_their_own_nonce(
    blocks: Seq<SealedBlock>,
    data: Seq<u8>,
    block_size: nat,
    data_shards: nat,
    parity_shards: nat,
    keys: Seq<Seq<u8>>,
    i: int,
    j: int,
)
    requires
        are_sealed(blocks, data, block_size, data_shards, parity_shards, keys),
        0 <= i < j < blocks.len(),
        blocks.len() < u64::MAX,
    ensures
        blocks[i].counter != blocks[j].counter,
        blocks[i].counter == i + 1,
        aead::counter_nonce(blocks[i].counter) != aead::counter_nonce(blocks[j].counter),
        data_shards > 0 && parity_shards > 0 ==> blocks[i].shards@.len() == data_shards
            + parity_shards,
{
    assert(keys[i].len() == 32 && keys[j].len() == 32);
    aead::law_nonces_differ(blocks[i].counter, blocks[j].counter);
    assert(bytes::rows(blocks[i].shards@).len() == blocks[i].shards@.len());
}

/// What is left of a block's shards suffices as long as no more of them are
/// missing than the code has parity rows: it is a source of the block.
pub proof fn law_as_many_as_parity_may_be_lost(
    sealed: SealedBlock,
    plain: Seq<u8>,
    index: nat,
    key: Seq<u8>,
    data_shards: nat,
    parity_shards: nat,
    source: BlockSource,
)
    requires
        data_shards > 0,
        parity_shards > 0,
        sealed.seals(plain, index, key, data_shards, parity_shards),
        source.shards is Some,
        source.shards->0@.len() == sealed.shards@.len(),
        forall|i: int|
            0 <= i < sealed.shards@.len() ==> (#[trigger] source.shards->0@[i] matches Some(shard)
                ==> shard@ == sealed.shards@[i]@),
        Set::new(|i: int| 0 <= i < sealed.shards@.len() && source.shards->0@[i] is None).len()
            <= parity_shards,
    ensures
        is_source_of(source, bytes::rows(sealed.shards@), data_shards, parity_shards),
{
    let given = bytes::optional_rows(source.shards->0@);
    let word = bytes::rows(sealed.shards@);
    let n = word.len() as int;
    erasure::law_present_shards_are_counted(given);
    let here = erasure::places_present(given);
    let lost = Set::new(|i: int| 0 <= i < sealed.shards@.len() && source.shards->0@[i] is None);
    let all = Set::new(|i: int| 0 <= i < n);
    assert forall|i: int| 0 <= i < n implies (#[trigger] given[i] is Some) == (
    source.shards->0@[i] is Some) by {}
    assert(all =~= here + lost);
    vstd::set_lib::lemma_int_range(0, n);
    assert(all =~= vstd::set_lib::set_int_range(0, n));
    assert(lost.subset_of(all));
    vstd::set_lib::lemma_len_subset(lost, all);
    vstd::set_lib::lemma_set_disjoint_lens(here, lost);
    assert forall|i: int| 0 <= i < given.len() && #[trigger] given[i] is Some implies given[i]
        == Some(word[i]) by {
        let shard = source.shards->0@[i];
    }
}

/// A file is read exactly where each of its blocks is, and then as its blocks,
/// one after the other: no block is left out, and none is made up.
pub proof fn law_file_is_read_block_by_block(
    file: FileModel,
    sources: Seq<BlockSource>,
    data_shards: nat,
    parity_shards: nat,
)
    ensures
        file_read(file, sources, data_shards, parity_shards) is Ok == forall|i: int|
            0 <= i < sources.len() ==> block_read(
                file,
                #[trigger] sources[i],
                i as nat,
                data_shards,
                parity_shards,
            ) is Ok,
        file_read(file, sources, data_shards, parity_shards) is Ok ==> file_read(
            file,
            sources,
            data_shards,
            parity_shards,
        )->Ok_0 == bytes::flat(
            Seq::new(
                sources.len(),
                |i: int|
                    block_read(file, sources[i], i as nat, data_shards, parity_shards)->Ok_0,
            ),
        ),
    decreases sources.len(),
{
    let (k, m) = (data_shards, parity_shards);
    let all = Seq::new(
        sources.len(),
        |i: int| block_read(file, sources[i], i as nat, k, m)->Ok_0,
    );
    if sources.len() > 0 {
        let fewer = sources.drop_last();
        let n = sources.len() - 1;
        law_file_is_read_block_by_block(file, fewer, k, m);
        assert(all.drop_last() =~= Seq::new(
            fewer.len(),
            |i: int| block_read(file, fewer[i], i as nat, k, m)->Ok_0,
        ));
        if forall|i: int|
            0 <= i < sources.len() ==> block_read(file, #[trigger] sources[i], i as nat, k, m) is Ok {
            assert forall|i: int| 0 <= i < fewer.len() implies block_read(
                file,
                #[trigger] fewer[i],
                i as nat,
                k,
                m,
            ) is Ok by {
                assert(fewer[i] == sources[i]);
            }
            assert(sources[n] == sources.last());
        } else if file_read(file, fewer, k, m) is Ok {
            let i = choose|i: int|
                0 <= i < sources.len() && block_read(file, #[trigger] sources[i], i as nat, k, m) is Err;
            if i < n {
                assert(fewer[i] == sources[i]);
            }
        }
    }
}

/// A block is read only where its shards could be restored and what they hold
/// opens under the key that the directory keeps for it, as the message of its
/// number; then it is what it opens to.
pub proof fn law_read_block_is_authentic(
    file: FileModel,
    source: BlockSource,
    index: nat,
    data_shards: nat,
    parity_shards: nat,
)
    requires
        block_read(file, source, index, data_shards, parity_shards) is Ok,
        index < u64::MAX,
    ensures
        source.shards is Some,
        index < file.block_keys.len(),
        ({
            let given = bytes::optional_rows(source.shards->0@);
            let stored = bytes::flat(erasure::repaired(given, data_shards, parity_shards));
            let k = file.block_keys[index as int];
            let len = (k.block_len + 16) as nat;
            &&& erasure::repair_fault(given, data_shards, parity_shards) is None
            &&& aead::opened(
                gf256_shamir::rejoined(k.shares[0], k.shares[1]),
                aead::counter_nonce((index + 1) as u64),
                if len < stored.len() {
                    stored.take(len as int)
                } else {
                    stored
                },
            ) == Some(block_read(file, source, index, data_shards, parity_shards)->Ok_0)
        }),
{
}

/// The group of a block has a name of 32 characters, and two blocks share one
/// only where the digests of their numbers and contents begin with the same
/// sixteen bytes.
pub proof fn law_groups_are_told_apart(i: nat, a: Seq<u8>, j: nat, b: Seq<u8>)
    requires
        hash::blake3_digest(bytes::little_endian(i, 8) + a).len() == 32,
        hash::blake3_digest(bytes::little_endian(j, 8) + b).len() == 32,
    ensures
        group_of(i, a).len() == 32,
        (group_of(i, a) == group_of(j, b)) == (hash::blake3_digest(
            bytes::little_endian(i, 8) + a,
        ).take(16) == hash::blake3_digest(bytes::little_endian(j, 8) + b).take(16)),
{
    text::law_hexadecimal_tells_bytes_apart(
        hash::blake3_digest(bytes::little_endian(i, 8) + a).take(16),
        hash::blake3_digest(bytes::little_endian(j, 8) + b).take(16),
    );
}

/// A read gives the bytes that were read, or the reason why there are none.
pub proof fn law_read_gives_what_was_read(
    r: Result<Vec<u8>, String>,
    m: Result<Seq<u8>, Seq<char>>,
)
    requires
        is_read(r, m),
    ensures
        r is Ok == m is Ok,
        r is Ok ==> r->Ok_0@ == m->Ok_0,
        r is Err ==> r->Err_0@ == m->Err_0,
{
}

} // verus!

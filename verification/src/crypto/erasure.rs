//! Reed-Solomon erasure coding of byte shards over GF(2^8).

use crate::bytes;
use reed_solomon_erasure::galois_8::ReedSolomon;
use reed_solomon_erasure::Error;
use vstd::prelude::*;

verus! {

pub const REED_DATA_SHARDS: usize = 2;

pub const REED_PARITY_SHARDS: usize = 1;

/// The largest number of shards of one code.
pub const MAX_SHARDS: usize = 256;

/// Why shards could not be encoded or restored.
#[derive(Clone, Copy, PartialEq, Eq, Debug)]
pub enum ErasureError {
    TooFewShards,
    TooManyShards,
    TooFewDataShards,
    TooManyDataShards,
    TooFewParityShards,
    TooManyParityShards,
    TooFewBufferShards,
    TooManyBufferShards,
    IncorrectShardSize,
    TooFewShardsPresent,
    EmptyShard,
    InvalidShardFlags,
    InvalidIndex,
}

/// The parity rows that the Vandermonde code of `reed_solomon_erasure` adds to
/// the data rows `data` when it has `count` parity rows.
pub uninterp spec fn parity(data: Seq<Seq<u8>>, count: nat) -> Seq<Seq<u8>>;

/// What `reed_solomon_erasure` makes of `shards` when it restores the missing ones.
pub uninterp spec fn repaired(
    shards: Seq<Option<Seq<u8>>>,
    data_shards: nat,
    parity_shards: nat,
) -> Seq<Seq<u8>>;

/// Whether there is a code with these numbers of data and parity rows.
pub open spec fn is_code(data_shards: nat, parity_shards: nat) -> bool {
    0 < data_shards && 0 < parity_shards && data_shards + parity_shards <= MAX_SHARDS
}

/// Whether there are rows, none is empty and all have the same length.
pub open spec fn even_rows(rows: Seq<Seq<u8>>) -> bool {
    &&& rows.len() > 0
    &&& rows[0].len() > 0
    &&& forall|i: int| 0 <= i < rows.len() ==> (#[trigger] rows[i]).len() == rows[0].len()
}

/// The data rows followed by their parity rows.
pub open spec fn codeword(data: Seq<Seq<u8>>, parity_shards: nat) -> Seq<Seq<u8>> {
    data + parity(data, parity_shards)
}

/// Whether `word` is data rows followed by their parity rows.
pub open spec fn is_codeword(
    word: Seq<Seq<u8>>,
    data_shards: nat,
    parity_shards: nat,
) -> bool {
    &&& word.len() == data_shards + parity_shards
    &&& even_rows(word)
    &&& word == codeword(word.take(data_shards as int), parity_shards)
}

/// Whether every shard that is present is the row of `word` at its place.
pub open spec fn taken_from(shards: Seq<Option<Seq<u8>>>, word: Seq<Seq<u8>>) -> bool {
    &&& shards.len() == word.len()
    &&& forall|i: int|
        0 <= i < shards.len() ==> (#[trigger] shards[i] is Some ==> shards[i] == Some(word[i]))
}

/// Every row of `word`, present.
pub open spec fn all_present(word: Seq<Seq<u8>>) -> Seq<Option<Seq<u8>>> {
    Seq::new(word.len(), |i: int| Some(word[i]))
}

/// The number of shards that are present.
pub open spec fn present(shards: Seq<Option<Seq<u8>>>) -> nat
    decreases shards.len(),
{
    if shards.len() == 0 {
        0
    } else {
        present(shards.drop_last()) + if shards.last() is Some {
            1nat
        } else {
            0nat
        }
    }
}

/// The first fault among the present shards: an empty one, or one whose length
/// differs from that of the present shard before it (`length`).
pub open spec fn first_fault(shards: Seq<Option<Seq<u8>>>, length: Option<nat>) -> Option<
    ErasureError,
>
    decreases shards.len(),
{
    if shards.len() == 0 {
        None
    } else {
        match shards[0] {
            None => first_fault(shards.skip(1), length),
            Some(s) => if s.len() == 0 {
                Some(ErasureError::EmptyShard)
            } else if length is Some && length != Some(s.len()) {
                Some(ErasureError::IncorrectShardSize)
            } else {
                first_fault(shards.skip(1), Some(s.len()))
            },
        }
    }
}

/// Why `shards` cannot be restored, if they cannot.
pub open spec fn repair_fault(
    shards: Seq<Option<Seq<u8>>>,
    data_shards: nat,
    parity_shards: nat,
) -> Option<ErasureError> {
    if shards.len() < data_shards + parity_shards {
        Some(ErasureError::TooFewShards)
    } else if shards.len() > data_shards + parity_shards {
        Some(ErasureError::TooManyShards)
    } else if first_fault(shards, None) is Some {
        first_fault(shards, None)
    } else if present(shards) < data_shards {
        Some(ErasureError::TooFewShardsPresent)
    } else {
        None
    }
}

/// Fills in the parity rows with `ReedSolomon::encode` of `reed_solomon_erasure`.
///
/// Trusted: on rows of one non-zero length, as many as the code has, encoding
/// succeeds, leaves the data rows alone and overwrites the parity rows with rows
/// of the same length that depend on the data rows and the parity count alone.
#[verifier::external_body]
fn fill_parity(shards: &mut Vec<Vec<u8>>, data_shards: usize, parity_shards: usize)
    requires
        is_code(data_shards as nat, parity_shards as nat),
        old(shards)@.len() == data_shards + parity_shards,
        even_rows(bytes::rows(old(shards)@)),
    ensures
        bytes::rows(final(shards)@) == bytes::rows(old(shards)@).take(data_shards as int) + parity(
            bytes::rows(old(shards)@).take(data_shards as int),
            parity_shards as nat,
        ),
        final(shards)@.len() == old(shards)@.len(),
        forall|i: int|
            0 <= i < final(shards)@.len() ==> (#[trigger] final(shards)@[i])@.len() == old(shards)@[0]@.len(),
{
    ReedSolomon::new(data_shards, parity_shards).unwrap().encode(shards).unwrap();
}

/// Restores the missing shards with `ReedSolomon::reconstruct` of `reed_solomon_erasure`.
///
/// Trusted: the call fails exactly on the faults that `repair_fault` lists and
/// then leaves the shards alone. Otherwise every shard is present afterwards,
/// all have one length, those that were present are as they were, and what was
/// filled in depends on the shards and the two counts alone; shards taken from
/// one codeword are restored to that codeword.
#[verifier::external_body]
fn restore(
    shards: &mut Vec<Option<Vec<u8>>>,
    data_shards: usize,
    parity_shards: usize,
) -> (r: Result<(), ErasureError>)
    requires
        is_code(data_shards as nat, parity_shards as nat),
    ensures
        match r {
            Ok(()) => repair_fault(
                bytes::optional_rows(old(shards)@),
                data_shards as nat,
                parity_shards as nat,
            ) is None,
            Err(e) => repair_fault(
                bytes::optional_rows(old(shards)@),
                data_shards as nat,
                parity_shards as nat,
            ) == Some(e),
        },
        r is Err ==> final(shards)@ == old(shards)@,
        r is Ok ==> bytes::optional_rows(final(shards)@) == all_present(
            repaired(
                bytes::optional_rows(old(shards)@),
                data_shards as nat,
                parity_shards as nat,
            ),
        ),
        r is Ok ==> final(shards)@.len() == old(shards)@.len(),
        r is Ok ==> even_rows(
            repaired(
                bytes::optional_rows(old(shards)@),
                data_shards as nat,
                parity_shards as nat,
            ),
        ),
        r is Ok ==> forall|i: int|
            0 <= i < final(shards)@.len() ==> (old(shards)@[i] is Some ==> #[trigger] final(shards)@[i] == old(shards)@[i]),
        r is Ok ==> forall|word: Seq<Seq<u8>>|
            is_codeword(word, data_shards as nat, parity_shards as nat) && #[trigger] taken_from(
                bytes::optional_rows(old(shards)@),
                word,
            ) ==> repaired(
                bytes::optional_rows(old(shards)@),
                data_shards as nat,
                parity_shards as nat,
            ) == word,
{
    match ReedSolomon::new(data_shards, parity_shards).unwrap().reconstruct(shards) {
        Ok(()) => Ok(()),
        Err(e) => Err(match e {
            Error::TooFewShards => ErasureError::TooFewShards, Error::TooManyShards => ErasureError::TooManyShards,
            Error::TooFewDataShards => ErasureError::TooFewDataShards, Error::TooManyDataShards => ErasureError::TooManyDataShards,
            Error::TooFewParityShards => ErasureError::TooFewParityShards, Error::TooManyParityShards => ErasureError::TooManyParityShards,
            Error::TooFewBufferShards => ErasureError::TooFewBufferShards, Error::TooManyBufferShards => ErasureError::TooManyBufferShards,
            Error::IncorrectShardSize => ErasureError::IncorrectShardSize, Error::TooFewShardsPresent => ErasureError::TooFewShardsPresent,
            Error::EmptyShard => ErasureError::EmptyShard, Error::InvalidShardFlags => ErasureError::InvalidShardFlags,
            Error::InvalidIndex => ErasureError::InvalidIndex,
        }),
    }
}

impl ErasureError {
    /// The text of the error.
    pub open spec fn text(self) -> Seq<char> {
        match self {
            ErasureError::TooFewShards => "The number of provided shards is smaller than the one in codec"@,
            ErasureError::TooManyShards => "The number of provided shards is greater than the one in codec"@,
            ErasureError::TooFewDataShards => "The number of provided data shards is smaller than the one in codec"@,
            ErasureError::TooManyDataShards => "The number of provided data shards is greater than the one in codec"@,
            ErasureError::TooFewParityShards => "The number of provided parity shards is smaller than the one in codec"@,
            ErasureError::TooManyParityShards => "The number of provided parity shards is greater than the one in codec"@,
            ErasureError::TooFewBufferShards => "The number of provided buffer shards is smaller than the number of parity shards in codec"@,
            ErasureError::TooManyBufferShards => "The number of provided buffer shards is greater than the number of parity shards in codec"@,
            ErasureError::IncorrectShardSize => "At least one of the provided shards is not of the correct size"@,
            ErasureError::TooFewShardsPresent => "The number of shards present is smaller than number of parity shards, cannot reconstruct missing shards"@,
            ErasureError::EmptyShard => "The first shard provided is of zero length"@,
            ErasureError::InvalidShardFlags => "The number of flags does not match the total number of shards"@,
            ErasureError::InvalidIndex => "The data shard index provided is greater or equal to the number of data shards in codec"@,
        }
    }

    /// Describes the error.
    pub fn message(&self) -> (r: String)
        ensures
            r@ == self.text(),
    {
        let s = match self {
            ErasureError::TooFewShards => "The number of provided shards is smaller than the one in codec",
            ErasureError::TooManyShards => "The number of provided shards is greater than the one in codec",
            ErasureError::TooFewDataShards => "The number of provided data shards is smaller than the one in codec",
            ErasureError::TooManyDataShards => "The number of provided data shards is greater than the one in codec",
            ErasureError::TooFewParityShards => "The number of provided parity shards is smaller than the one in codec",
            ErasureError::TooManyParityShards => "The number of provided parity shards is greater than the one in codec",
            ErasureError::TooFewBufferShards => "The number of provided buffer shards is smaller than the number of parity shards in codec",
            ErasureError::TooManyBufferShards => "The number of provided buffer shards is greater than the number of parity shards in codec",
            ErasureError::IncorrectShardSize => "At least one of the provided shards is not of the correct size",
            ErasureError::TooFewShardsPresent => "The number of shards present is smaller than number of parity shards, cannot reconstruct missing shards",
            ErasureError::EmptyShard => "The first shard provided is of zero length",
            ErasureError::InvalidShardFlags => "The number of flags does not match the total number of shards",
            ErasureError::InvalidIndex => "The data shard index provided is greater or equal to the number of data shards in codec",
        };
        s.to_owned()
    }
}

/// The length of each data row that `len` bytes need.
pub open spec fn row_len(len: nat, data_shards: nat) -> nat {
    ((len + data_shards - 1) / data_shards as int) as nat
}

/// `data` with zeros behind it up to `len` bytes.
pub open spec fn padded(data: Seq<u8>, len: nat) -> Seq<u8> {
    data + bytes::zero_bytes((len - data.len()) as nat)
}

/// The data rows of `data`: equal consecutive parts, the last filled up with zeros.
pub open spec fn data_rows(data: Seq<u8>, data_shards: nat) -> Seq<Seq<u8>> {
    let size = row_len(data.len(), data_shards) as int;
    let all = padded(data, (size * data_shards) as nat);
    Seq::new(data_shards, |i: int| all.subrange(i * size, i * size + size))
}

/// `data` with a zero behind it if its length is odd.
pub open spec fn evened(data: Seq<u8>) -> Seq<u8> {
    if data.len() % 2 != 0 {
        data.push(0)
    } else {
        data
    }
}

/// The two halves of a sequence of even length.
pub open spec fn halves(data: Seq<u8>) -> Seq<Seq<u8>> {
    let mid = data.len() as int / 2;
    seq![data.subrange(0, mid), data.subrange(mid, data.len() as int)]
}

proof fn lemma_row_len(len: nat, k: nat)
    requires
        k > 0,
    ensures
        row_len(len, k) * k >= len,
        row_len(len, k) * k <= len + k - 1,
        len > 0 ==> row_len(len, k) > 0,
{
    let n = len + k - 1;
    let q = n / k as int;
    vstd::arithmetic::div_mod::lemma_fundamental_div_mod(n, k as int);
    vstd::arithmetic::div_mod::lemma_mod_bound(n, k as int);
    vstd::arithmetic::div_mod::lemma_div_pos_is_pos(n, k as int);
    assert(q * k == k * q) by (nonlinear_arith);
    if len > 0 && q == 0 {
        assert(q * k == 0) by (nonlinear_arith)
            requires
                q == 0,
        ;
    }
}

proof fn lemma_row_inside(size: int, k: int, i: int)
    requires
        0 <= size,
        0 <= i < k,
    ensures
        0 <= i * size,
        i * size + size <= size * k,
{
    assert(0 <= i * size) by (nonlinear_arith)
        requires
            0 <= size,
            0 <= i,
    ;
    assert(i * size + size <= size * k) by (nonlinear_arith)
        requires
            0 <= size,
            i + 1 <= k,
    ;
}

/// Split `data` into two shards + one parity shard.
pub fn rs_encode(data: &mut Vec<u8>) -> (r: Vec<Vec<u8>>)
    requires
        0 < old(data)@.len() < usize::MAX,
    ensures
        final(data)@ == evened(old(data)@),
        bytes::rows(r@) == codeword(
            halves(evened(old(data)@)),
            REED_PARITY_SHARDS as nat,
        ),
        r@.len() == REED_DATA_SHARDS + REED_PARITY_SHARDS,
        even_rows(bytes::rows(r@)),
{
    if data.len() % 2 != 0 {
        data.push(0);
    }
    let mid = data.len() / 2;
    let mut shards: Vec<Vec<u8>> = Vec::new();
    shards.push(bytes::copy_range(data.as_slice(), 0, mid));
    shards.push(bytes::copy_range(data.as_slice(), mid, data.len()));
    shards.push(bytes::zeroed(mid));
    let ghost before = bytes::rows(shards@);
    assert(before.take(2) =~= halves(data@));
    assert(before[0].len() == mid && before[1].len() == mid && before[2].len() == mid);
    fill_parity(&mut shards, REED_DATA_SHARDS, REED_PARITY_SHARDS);
    assert forall|i: int| 0 <= i < bytes::rows(shards@).len() implies (#[trigger] bytes::rows(
        shards@,
    )[i]).len() == mid by {
        assert(shards@[i]@.len() == mid);
    }
    shards
}

/// Reconstruct original data from any two of three shards.
pub fn rs_reconstruct(shards: &mut Vec<Option<Vec<u8>>>) -> (r: Result<(), ErasureError>)
    ensures
        repair_ensures(
            old(shards)@,
            final(shards)@,
            REED_DATA_SHARDS as nat,
            REED_PARITY_SHARDS as nat,
            r,
        ),
{
    restore(shards, REED_DATA_SHARDS, REED_PARITY_SHARDS)
}

/// What restoring `before` gives: `after` and the outcome `r`. Shards taken
/// from a codeword, at least as many as it has data rows, are restored to it.
pub open spec fn repair_ensures(
    before: Seq<Option<Vec<u8>>>,
    after: Seq<Option<Vec<u8>>>,
    data_shards: nat,
    parity_shards: nat,
    r: Result<(), ErasureError>,
) -> bool {
    let given = bytes::optional_rows(before);
    let fault = repair_fault(given, data_shards, parity_shards);
    match r {
        Err(e) => fault == Some(e) && after == before,
        Ok(()) => {
            let full = repaired(given, data_shards, parity_shards);
            &&& fault is None
            &&& bytes::optional_rows(after) == all_present(full)
            &&& after.len() == before.len()
            &&& even_rows(full)
            &&& forall|i: int|
                0 <= i < after.len() ==> (before[i] is Some ==> #[trigger] after[i] == before[i])
            &&& forall|word: Seq<Seq<u8>>|
                is_codeword(word, data_shards, parity_shards) && #[trigger] taken_from(given, word)
                    ==> full == word
        },
    }
}

/// Reed-Solomon encode with configurable (k, m) for NAS bulk storage. Without
/// data or parity shards there is one shard, the data itself.
pub fn rs_encode_n(data: &[u8], data_shards: usize, parity_shards: usize) -> (r: Vec<Vec<u8>>)
    requires
        data_shards > 0 && parity_shards > 0 ==> {
            &&& data_shards + parity_shards <= MAX_SHARDS
            &&& data@.len() > 0
            &&& data@.len() + data_shards <= usize::MAX
        },
    ensures
        data_shards == 0 || parity_shards == 0 ==> bytes::rows(r@) == seq![data@],
        data_shards > 0 && parity_shards > 0 ==> {
            &&& bytes::rows(r@) == codeword(
                data_rows(data@, data_shards as nat),
                parity_shards as nat,
            )
            &&& is_codeword(bytes::rows(r@), data_shards as nat, parity_shards as nat)
        },
{
    if data_shards == 0 || parity_shards == 0 {
        let mut one: Vec<Vec<u8>> = Vec::new();
        one.push(bytes::copy(data));
        assert(bytes::rows(one@) =~= seq![data@]);
        return one;
    }
    let total = data_shards + parity_shards;
    let size = (data.len() + data_shards - 1) / data_shards;
    proof {
        lemma_row_len(data@.len(), data_shards as nat);
    }
    let padded_len = size * data_shards;
    let mut all = bytes::copy(data);
    all.resize(padded_len, 0);
    assert(all@ =~= padded(data@, padded_len as nat));
    let mut shards: Vec<Vec<u8>> = Vec::new();
    let mut i: usize = 0;
    let ghost wanted = data_rows(data@, data_shards as nat);
    while i < total
        invariant
            i <= total,
            total == data_shards + parity_shards,
            0 < data_shards,
            size == row_len(data@.len(), data_shards as nat),
            padded_len == size * data_shards,
            all@ == padded(data@, padded_len as nat),
            all@.len() == padded_len,
            wanted == data_rows(data@, data_shards as nat),
            shards@.len() == i,
            forall|j: int| 0 <= j < i ==> (#[trigger] shards@[j])@.len() == size,
            forall|j: int| 0 <= j < i && j < data_shards ==> (#[trigger] shards@[j])@ == wanted[j],
        decreases total - i,
    {
        if i < data_shards {
            proof {
                lemma_row_inside(size as int, data_shards as int, i as int);
            }
            let start = i * size;
            shards.push(bytes::copy_range(all.as_slice(), start, start + size));
        } else {
            shards.push(bytes::zeroed(size));
        }
        i += 1;
    }
    let ghost before = bytes::rows(shards@);
    assert(before.take(data_shards as int) =~= wanted);
    assert forall|j: int| 0 <= j < before.len() implies (#[trigger] before[j]).len() == size by {
        assert(shards@[j]@.len() == size);
    }
    fill_parity(&mut shards, data_shards, parity_shards);
    let ghost word = bytes::rows(shards@);
    proof {
        assert forall|j: int| 0 <= j < word.len() implies (#[trigger] word[j]).len() == size by {
            assert(shards@[j]@.len() == size);
        }
        assert(word.take(data_shards as int) =~= wanted);
    }
    shards
}

/// Reconstruct from any `data_shards` of `total` shards.
pub fn rs_reconstruct_n(
    shards: &mut Vec<Option<Vec<u8>>>,
    data_shards: usize,
    parity_shards: usize,
) -> (r: Result<(), ErasureError>)
    requires
        is_code(data_shards as nat, parity_shards as nat),
    ensures
        repair_ensures(
            old(shards)@,
            final(shards)@,
            data_shards as nat,
            parity_shards as nat,
            r,
        ),
{
    restore(shards, data_shards, parity_shards)
}

// ---------- Laws ----------

/// The consecutive parts of `all` of length `size`, `n` of them.
spec fn parts(all: Seq<u8>, size: int, n: nat) -> Seq<Seq<u8>> {
    Seq::new(n, |i: int| all.subrange(i * size, i * size + size))
}

proof fn lemma_flat_parts(all: Seq<u8>, size: int, n: nat)
    requires
        0 <= size,
        n * size <= all.len(),
    ensures
        bytes::flat(parts(all, size, n)) == all.take(n * size),
    decreases n,
{
    if n == 0 {
        assert(n * size == 0) by (nonlinear_arith)
            requires
                n == 0,
        ;
        assert(all.take(0) =~= Seq::<u8>::empty());
    } else {
        let m = (n - 1) as nat;
        assert(n * size == m * size + size) by (nonlinear_arith)
            requires
                n == m + 1,
        ;
        assert(0 <= m * size) by (nonlinear_arith)
            requires
                0 <= size,
        ;
        lemma_flat_parts(all, size, m);
        assert(parts(all, size, n).drop_last() =~= parts(all, size, m));
        assert(all.take(m * size) + all.subrange(m * size, m * size + size) =~= all.take(n * size));
    }
}

/// The data rows of `data`, one after the other and cut to its length, are `data`.
pub proof fn law_rows_hold_data(data: Seq<u8>, data_shards: nat)
    requires
        data_shards > 0,
    ensures
        bytes::flat(data_rows(data, data_shards)).len() >= data.len(),
        bytes::flat(data_rows(data, data_shards)).take(data.len() as int) == data,
{
    let size = row_len(data.len(), data_shards) as int;
    let all = padded(data, (size * data_shards) as nat);
    lemma_row_len(data.len(), data_shards);
    assert(data_shards * size == size * data_shards) by (nonlinear_arith);
    lemma_flat_parts(all, size, data_shards);
    assert(parts(all, size, data_shards) =~= data_rows(data, data_shards));
    assert(all.take(data_shards * size) =~= all);
    assert(all.take(data.len() as int) =~= data);
}

proof fn lemma_no_fault(shards: Seq<Option<Seq<u8>>>, word: Seq<Seq<u8>>, length: Option<nat>)
    requires
        taken_from(shards, word),
        forall|i: int|
            0 <= i < word.len() ==> (#[trigger] word[i]).len() > 0 && (length is Some ==> length
                == Some(word[i].len())),
        forall|i: int, j: int|
            0 <= i < word.len() && 0 <= j < word.len() ==> (#[trigger] word[i]).len() == (
            #[trigger] word[j]).len(),
    ensures
        first_fault(shards, length) is None,
    decreases shards.len(),
{
    if shards.len() > 0 {
        let rest = shards.skip(1);
        let below = word.skip(1);
        assert forall|i: int| 0 <= i < rest.len() && #[trigger] rest[i] is Some implies rest[i]
            == Some(below[i]) by {
            assert(shards[i + 1] is Some ==> shards[i + 1] == Some(word[i + 1]));
        }
        assert(shards[0] is Some ==> shards[0] == Some(word[0]));
        let next = if shards[0] is Some {
            Some(word[0].len())
        } else {
            length
        };
        assert forall|i: int| 0 <= i < below.len() implies (#[trigger] below[i]).len() > 0 && (
        next is Some ==> next == Some(below[i].len())) by {
            assert(below[i] == word[i + 1]);
            assert(word[i + 1].len() == word[0].len());
        }
        assert forall|i: int, j: int| 0 <= i < below.len() && 0 <= j < below.len() implies (
        #[trigger] below[i]).len() == (#[trigger] below[j]).len() by {
            assert(word[i + 1].len() == word[j + 1].len());
        }
        lemma_no_fault(rest, below, next);
    }
}

/// Any `data_shards` shards of a codeword suffice: restoring them fails on nothing.
pub proof fn law_enough_shards_restore(
    word: Seq<Seq<u8>>,
    shards: Seq<Option<Seq<u8>>>,
    data_shards: nat,
    parity_shards: nat,
)
    requires
        is_codeword(word, data_shards, parity_shards),
        taken_from(shards, word),
        present(shards) >= data_shards,
    ensures
        repair_fault(shards, data_shards, parity_shards) is None,
{
    assert forall|i: int| 0 <= i < word.len() implies (#[trigger] word[i]).len() > 0 by {
        assert(word[i].len() == word[0].len());
    }
    assert forall|i: int, j: int| 0 <= i < word.len() && 0 <= j < word.len() implies (
    #[trigger] word[i]).len() == (#[trigger] word[j]).len() by {
        assert(word[i].len() == word[0].len());
    }
    lemma_no_fault(shards, word, None);
}

/// The rows of data are as many as asked for, all of one length, and the least
/// that hold it.
pub proof fn law_rows_are_no_longer_than_needed(data: Seq<u8>, data_shards: nat)
    requires
        data_shards > 0,
    ensures
        data_rows(data, data_shards).len() == data_shards,
        forall|i: int|
            0 <= i < data_shards ==> (#[trigger] data_rows(data, data_shards)[i]).len() == row_len(
                data.len(),
                data_shards,
            ),
        row_len(data.len(), data_shards) * data_shards >= data.len(),
        row_len(data.len(), data_shards) * data_shards < data.len() + data_shards,
{
    let size = row_len(data.len(), data_shards) as int;
    let all = padded(data, (size * data_shards) as nat);
    lemma_row_len(data.len(), data_shards);
    assert forall|i: int| 0 <= i < data_shards implies (#[trigger] data_rows(
        data,
        data_shards,
    )[i]).len() == size by {
        assert(0 <= i * size && i * size + size <= size * data_shards) by (nonlinear_arith)
            requires
                0 <= i < data_shards,
                0 <= size,
        ;
    }
}

/// The two halves of a message are of one length and hold it, with at most one
/// byte behind it.
pub proof fn law_halves_hold_the_message(data: Seq<u8>)
    ensures
        ({
            let h = halves(evened(data));
            &&& h.len() == 2
            &&& h[0].len() == h[1].len()
            &&& data.len() <= h[0].len() + h[1].len() <= data.len() + 1
            &&& (h[0] + h[1]).take(data.len() as int) == data
        }),
{
    let h = halves(evened(data));
    assert((h[0] + h[1]).take(data.len() as int) =~= data);
}

/// The places of shards that are there.
pub open spec fn places_present(shards: Seq<Option<Seq<u8>>>) -> Set<int> {
    Set::new(|i: int| 0 <= i < shards.len() && shards[i] is Some)
}

/// The shards present are counted one for each place that is filled.
pub proof fn law_present_shards_are_counted(shards: Seq<Option<Seq<u8>>>)
    ensures
        places_present(shards).finite(),
        places_present(shards).len() == present(shards),
        present(shards) <= shards.len(),
    decreases shards.len(),
{
    let here = places_present(shards);
    if shards.len() == 0 {
        assert(here =~= Set::<int>::empty());
    } else {
        let rest = shards.drop_last();
        law_present_shards_are_counted(rest);
        if shards.last() is Some {
            assert(here =~= places_present(rest).insert(shards.len() - 1));
        } else {
            assert(here =~= places_present(rest));
        }
    }
}

/// Fewer shards than the code has data rows, or a wrong number of places, cannot
/// be restored.
pub proof fn law_too_few_shards_are_not_restored(
    shards: Seq<Option<Seq<u8>>>,
    data_shards: nat,
    parity_shards: nat,
)
    requires
        shards.len() != data_shards + parity_shards || places_present(shards).len() < data_shards,
    ensures
        repair_fault(shards, data_shards, parity_shards) is Some,
{
    law_present_shards_are_counted(shards);
}

} // verus!

//! Black-hole storage: what the vault keeps per group of shards, and which
//! files a shard's arrival writes.
//!
//! Below its root the vault holds `shards/<group>/` with the files `seq`,
//! `bitmask`, `shard_NNN.bin` and `merkle_root.bin`, and `.meta/<group>.json`.

pub mod laws;

use crate::bytes;
use crate::crypto::merkle;
use crate::crypto::merkle::merkle_root;
use crate::lists;
use crate::table::Table;
use crate::text;
use crate::text::Margin;
use vstd::prelude::*;

verus! {

/// Over how many counters the vault's replay window reaches.
pub const REPLAY_WINDOW: u64 = 128;

/// How often a shard file is overwritten before it is removed.
pub const WIPE_PASSES: usize = 3;

// ---------- Errors ----------

#[derive(Debug)]
pub enum VaultError {
    Io(String),
    ShardNotFound(String),
    IntegrityError(String),
    ReplayDetected(u64),
    Serde(String),
}

impl VaultError {
    /// The text of the error.
    pub open spec fn text(&self) -> Seq<char> {
        match *self {
            VaultError::Io(e) => "IO error: "@ + e@,
            VaultError::ShardNotFound(e) => "Shard not found: "@ + e@,
            VaultError::IntegrityError(e) => "Integrity check failed for shard "@ + e@,
            VaultError::ReplayDetected(counter) => "Replay attack detected: counter "@
                + text::numeral(counter as nat) + " is stale"@,
            VaultError::Serde(e) => "Serialization error: "@ + e@,
        }
    }

    pub fn message(&self) -> (r: String)
        ensures
            r@ == self.text(),
    {
        match self {
            VaultError::Io(e) => text::concat("IO error: ", e.as_str()),
            VaultError::ShardNotFound(e) => text::concat("Shard not found: ", e.as_str()),
            VaultError::IntegrityError(e) => text::concat(
                "Integrity check failed for shard ",
                e.as_str(),
            ),
            VaultError::ReplayDetected(counter) => {
                let mut out = text::concat(
                    "Replay attack detected: counter ",
                    text::decimal(*counter).as_str(),
                );
                out.append(" is stale");
                out
            },
            VaultError::Serde(e) => text::concat("Serialization error: ", e.as_str()),
        }
    }
}

// ---------- Data ----------

/// Metadata for a group of shards belonging to one message or file.
#[derive(Clone, Copy, Debug)]
pub struct ShardGroupMeta {
    /// Monotonic counter of the most recently accepted shard
    pub v_max: u64,
    /// Sliding-window bitmask (128 bits) for replay protection
    pub bitmask: u128,
    /// BLAKE3 root hash of the Merkle tree over all shards
    pub merkle_root: [u8; 32],
    /// Number of shards expected for this group
    pub expected_shard_count: usize,
    /// Creation timestamp (Unix nanos)
    pub created_at_ns: u64,
    /// TTL in seconds
    pub ttl_secs: u64,
}

/// An individual shard stored in the vault.
#[derive(Debug, Clone)]
pub struct VaultShard {
    pub group_id: String,
    pub shard_index: usize,
    pub data: Vec<u8>,
    pub counter: u64,
}

/// A file that the vault keeps for a group of shards.
#[derive(Clone, Copy, Debug)]
pub enum VaultFile {
    /// The highest counter, as a numeral.
    Sequence,
    /// The mark of a replay window that was started anew.
    Bitmask,
    /// The Merkle root over all shards.
    MerkleRoot,
    /// One shard.
    Shard(usize),
}

impl VaultFile {
    /// The name of the file in the directory of its group.
    pub open spec fn name_text(&self) -> Seq<char> {
        match *self {
            VaultFile::Sequence => "seq"@,
            VaultFile::Bitmask => "bitmask"@,
            VaultFile::MerkleRoot => "merkle_root.bin"@,
            VaultFile::Shard(index) => "shard_"@ + text::padded_numeral(index as nat, 3) + ".bin"@,
        }
    }

    /// The name of the file in the directory of its group.
    pub fn name(&self) -> (r: String)
        ensures
            r@ == self.name_text(),
    {
        match self {
            VaultFile::Sequence => "seq".to_owned(),
            VaultFile::Bitmask => "bitmask".to_owned(),
            VaultFile::MerkleRoot => "merkle_root.bin".to_owned(),
            VaultFile::Shard(index) => {
                let mut out = text::concat(
                    "shard_",
                    text::padded_decimal(*index as u64, 3).as_str(),
                );
                out.append(".bin");
                out
            },
        }
    }
}

/// Where the file `file` of the group `group_id` lies, from the vault's root downwards.
pub fn file_path(group_id: &str, file: VaultFile) -> (r: Vec<String>)
    ensures
        text::texts(r@) == seq!["shards"@, group_id@, file.name_text()],
{
    let mut out: Vec<String> = Vec::new();
    out.push("shards".to_owned());
    out.push(group_id.to_owned());
    out.push(file.name());
    assert(text::texts(out@) =~= seq!["shards"@, group_id@, file.name_text()]);
    out
}

/// Where the directory of the group `group_id` lies, from the vault's root downwards.
pub fn group_dir(group_id: &str) -> (r: Vec<String>)
    ensures
        text::texts(r@) == seq!["shards"@, group_id@],
{
    let mut out: Vec<String> = Vec::new();
    out.push("shards".to_owned());
    out.push(group_id.to_owned());
    assert(text::texts(out@) =~= seq!["shards"@, group_id@]);
    out
}

/// Where the metadata of the group `group_id` lies, from the vault's root downwards.
pub fn meta_path(group_id: &str) -> (r: Vec<String>)
    ensures
        text::texts(r@) == seq![".meta"@, group_id@ + ".json"@],
{
    let mut out: Vec<String> = Vec::new();
    out.push(".meta".to_owned());
    out.push(text::concat(group_id, ".json"));
    assert(text::texts(out@) =~= seq![".meta"@, group_id@ + ".json"@]);
    out
}

/// Whether `name` has the extension `ext`: a dot, behind something, and `ext` behind it.
pub open spec fn has_extension(name: Seq<char>, ext: Seq<char>) -> bool {
    name.len() > ext.len() + 1 && ("."@ + ext).is_suffix_of(name)
}

/// Whether the file `name` is a shard or root file, to be overwritten before it is removed.
pub fn is_wiped(name: &str) -> (r: bool)
    ensures
        r == has_extension(name@, "bin"@),
{
    proof {
        reveal_strlit("bin");
        reveal_strlit(".");
        reveal_strlit(".bin");
        assert("."@ + "bin"@ =~= ".bin"@);
    }
    text::finishes_with(name, ".bin") && name.unicode_len() > 4
}

/// The group whose metadata the file `name` holds: its name without the extension `json`.
pub open spec fn described_group(name: Seq<char>) -> Option<Seq<char>> {
    if has_extension(name, "json"@) {
        Some(name.take(name.len() - 5))
    } else {
        None
    }
}

/// The group whose metadata the file `name` holds.
pub fn group_of_meta_file(name: &str) -> (r: Option<String>)
    ensures
        match r {
            Some(gid) => described_group(name@) == Some(gid@),
            None => described_group(name@) is None,
        },
{
    proof {
        reveal_strlit("json");
        reveal_strlit(".");
        reveal_strlit(".json");
        assert("."@ + "json"@ =~= ".json"@);
    }
    let len = name.unicode_len();
    if text::finishes_with(name, ".json") && len > 5 {
        assert(name@.subrange(0, len - 5) =~= name@.take(len - 5));
        Some(name.substring_char(0, len - 5).to_owned())
    } else {
        None
    }
}

// ---------- Listing ----------

/// The shard whose file is called `name`: the number between `shard_` and
/// `.bin`, where the name is the one that the file of that shard gets.
pub open spec fn shard_index_in(name: Seq<char>) -> Option<usize> {
    if "shard_"@.is_prefix_of(name) && ".bin"@.is_suffix_of(name) && name.len() >= 10 {
        match text::parsed_number(name.subrange(6, name.len() - 4), usize::MAX as nat) {
            Some(index) => if VaultFile::Shard(index as usize).name_text() == name {
                Some(index as usize)
            } else {
                None
            },
            None => None,
        }
    } else {
        None
    }
}

/// The shards whose files are among the files `names`.
pub open spec fn shards_in(names: Seq<Seq<char>>) -> Set<usize> {
    Set::new(|index: usize| names.contains(VaultFile::Shard(index).name_text()))
}

/// Whether the files of at least `threshold` shards are among the files `names`.
pub open spec fn has_enough(names: Seq<Seq<char>>, threshold: nat) -> bool {
    shards_in(names).len() >= threshold
}

/// Whether `shards` are those that `root` was computed over.
pub open spec fn is_intact(shards: Seq<Seq<u8>>, root: Seq<u8>) -> bool {
    root == merkle::tree_root(shards)
}

/// Whether `s` ascends, with no number twice.
pub open spec fn ascends(s: Seq<usize>) -> bool {
    forall|i: int, j: int| 0 <= i < j < s.len() ==> s[i] < s[j]
}

proof fn lemma_leading_zeros(s: Seq<char>, n: nat)
    ensures
        text::digits_value(text::zeros(n) + s) == text::digits_value(s),
    decreases s.len(), n,
{
    let t = text::zeros(n) + s;
    if s.len() > 0 {
        assert(t.drop_last() =~= text::zeros(n) + s.drop_last());
        lemma_leading_zeros(s.drop_last(), n);
    } else if n > 0 {
        assert(t.drop_last() =~= text::zeros((n - 1) as nat) + s);
        lemma_leading_zeros(s, (n - 1) as nat);
    } else {
        assert(t =~= s);
    }
}

/// The name of every shard file gives back the index of its shard, and no
/// other name does.
pub proof fn law_shard_name_reads_back(name: Seq<char>, index: usize)
    ensures
        shard_index_in(name) == Some(index) <==> name == VaultFile::Shard(index).name_text(),
{
    let n = index as nat;
    let digits = text::padded_numeral(n, 3);
    let own = VaultFile::Shard(index).name_text();
    reveal_strlit("shard_");
    reveal_strlit(".bin");
    text::lemma_numeral(n);
    assert(own.subrange(6, own.len() - 4) =~= digits);
    assert("shard_"@ =~= own.take(6));
    assert(".bin"@ =~= own.skip(own.len() - 4));
    let s = text::numeral(n);
    let fill = if s.len() < 3 {
        (3 - s.len()) as nat
    } else {
        0
    };
    lemma_leading_zeros(s, fill);
    assert(digits =~= text::zeros(fill) + s);
    assert forall|i: int| 0 <= i < digits.len() implies text::is_digit(#[trigger] digits[i]) by {
        if i >= fill {
            assert(digits[i] == s[i - fill]);
        }
    }
    assert(text::is_digit(digits[0]));
    assert(text::unsigned_digits(digits) == digits);
}

/// Reads the shard index from the name of a shard file.
fn read_shard_index(name: &str) -> (r: Option<usize>)
    ensures
        r == shard_index_in(name@),
{
    let len = name.unicode_len();
    if !text::begins_with(name, "shard_") || !text::finishes_with(name, ".bin") || len < 10 {
        return None;
    }
    let digits = name.substring_char(6, len - 4);
    match text::parse_number(digits, usize::MAX as u64) {
        Some(index) => {
            let index = index as usize;
            if text::same(VaultFile::Shard(index).name().as_str(), name) {
                Some(index)
            } else {
                None
            }
        },
        None => None,
    }
}

/// Puts `x` at its place among the ascending `v`, unless it stands there.
fn insert_ascending(v: &mut Vec<usize>, x: usize)
    requires
        ascends(old(v)@),
    ensures
        ascends(final(v)@),
        forall|y: usize| #[trigger] final(v)@.contains(y) == (old(v)@.contains(y) || y == x),
{
    let mut i: usize = 0;
    while i < v.len() && v[i] < x
        invariant
            i <= v@.len(),
            ascends(v@),
            v@ == old(v)@,
            forall|j: int| 0 <= j < i ==> v@[j] < x,
        decreases v@.len() - i,
    {
        i += 1;
    }
    let ghost before = v@;
    if i < v.len() && v[i] == x {
        assert(before.contains(before[i as int]));
        return;
    }
    v.insert(i, x);
    assert forall|y: usize| #[trigger] v@.contains(y) == (before.contains(y) || y == x) by {
        if before.contains(y) {
            let j = before.index_of(y);
            assert(v@[if j < i { j } else { j + 1 }] == y);
        }
        assert(v@[i as int] == x);
        if v@.contains(y) && y != x {
            let j = v@.index_of(y);
            assert(before[if j < i { j } else { j - 1 }] == y);
        }
    }
}

// ---------- Counters ----------

/// The counter in a sequence file: the number it holds between white space, or zero.
pub open spec fn counter_in(raw: Seq<char>) -> nat {
    match text::parsed_number(text::trimmed(raw, Margin::White), u64::MAX as nat) {
        Some(n) => n,
        None => 0,
    }
}

/// The counter in the sequence file of a group, zero where there is no such file.
pub open spec fn counter_so_far(raw: Option<Seq<char>>) -> nat {
    match raw {
        Some(s) => counter_in(s),
        None => 0,
    }
}

/// Reads the counter from the contents of a sequence file.
pub fn read_counter(raw: &str) -> (r: u64)
    ensures
        r == counter_in(raw@),
{
    match text::parse_number(text::trim(raw, Margin::White).as_str(), u64::MAX) {
        Some(n) => n,
        None => 0,
    }
}

/// The characters of `s` as bytes, where all are ASCII.
pub open spec fn ascii_bytes(s: Seq<char>) -> Seq<u8> {
    Seq::new(s.len(), |i: int| s[i] as u8)
}

/// The text that ASCII bytes hold.
pub open spec fn ascii_text(b: Seq<u8>) -> Seq<char> {
    Seq::new(b.len(), |i: int| b[i] as char)
}

fn numeral_bytes(n: u64) -> (r: Vec<u8>)
    ensures
        r@ == ascii_bytes(text::numeral(n as nat)),
{
    let chars = text::chars_of(text::decimal(n).as_str());
    let mut out: Vec<u8> = Vec::new();
    let mut i: usize = 0;
    while i < chars.len()
        invariant
            i <= chars@.len(),
            out@ == ascii_bytes(chars@.take(i as int)),
        decreases chars@.len() - i,
    {
        out.push(chars[i] as u8);
        i += 1;
        assert(out@ =~= ascii_bytes(chars@.take(i as int)));
    }
    assert(chars@.take(i as int) =~= chars@);
    out
}

proof fn lemma_digits_have_no_margin(s: Seq<char>)
    requires
        s.len() > 0,
        forall|i: int| 0 <= i < s.len() ==> text::is_digit(#[trigger] s[i]),
    ensures
        text::trimmed(s, Margin::White) == s,
{
    assert(text::is_digit(s[0]));
    assert(text::is_digit(s[s.len() - 1]));
}

/// A counter written to the sequence file reads back as itself.
pub proof fn law_counter_reads_back(n: u64)
    ensures
        counter_in(ascii_text(ascii_bytes(text::numeral(n as nat)))) == n,
{
    let s = text::numeral(n as nat);
    text::lemma_numeral(n as nat);
    assert forall|i: int| 0 <= i < s.len() implies #[trigger] ascii_text(ascii_bytes(s))[i]
        == s[i] by {
        assert(text::is_digit(s[i]));
    }
    assert(ascii_text(ascii_bytes(s)) =~= s);
    lemma_digits_have_no_margin(s);
    text::law_numeral_reads_back(n as nat, u64::MAX as nat);
}

// ---------- Storing ----------

/// One file that a shard's arrival writes.
pub struct FileWrite {
    pub file: VaultFile,
    pub data: Vec<u8>,
}

/// The contents of a sequence of writes.
pub open spec fn writes_of(v: Seq<FileWrite>) -> Seq<(VaultFile, Seq<u8>)> {
    Seq::new(v.len(), |i: int| (v[i].file, v[i].data@))
}

/// What a shard's arrival does: files to write in this order, then the
/// metadata to write and keep.
pub struct StorePlan {
    pub writes: Vec<FileWrite>,
    pub meta: ShardGroupMeta,
}

/// Whether `counter` lies the whole window or more below the highest, or is zero.
pub open spec fn is_stale(counter: u64, v_max: nat) -> bool {
    counter == 0 || counter + REPLAY_WINDOW <= v_max
}

/// Whether a shard that arrives with `counter` is a replay: the counter is
/// stale, or the shard is here already and the counter no higher than the highest.
pub open spec fn is_replay(counter: u64, v_max: nat, shard_present: bool) -> bool {
    is_stale(counter, v_max) || (shard_present && counter <= v_max)
}

/// The files that a shard's arrival writes.
pub open spec fn arrival_writes(
    shard_index: usize,
    data: Seq<u8>,
    counter: u64,
    merkle_root: Seq<u8>,
    v_max: nat,
    root_present: bool,
) -> Seq<(VaultFile, Seq<u8>)> {
    let none = Seq::<(VaultFile, Seq<u8>)>::empty();
    (if counter > v_max + REPLAY_WINDOW {
        seq![(VaultFile::Bitmask, seq![49u8])]
    } else {
        none
    }) + (if counter > v_max {
        seq![(VaultFile::Sequence, ascii_bytes(text::numeral(counter as nat)))]
    } else {
        none
    }) + (if root_present {
        none
    } else {
        seq![(VaultFile::MerkleRoot, merkle_root)]
    }) + seq![(VaultFile::Shard(shard_index), data)]
}

/// The files of a group after `writes` were made one after another.
pub open spec fn after_writes(
    files: Map<VaultFile, Seq<u8>>,
    writes: Seq<(VaultFile, Seq<u8>)>,
) -> Map<VaultFile, Seq<u8>>
    decreases writes.len(),
{
    if writes.len() == 0 {
        files
    } else {
        after_writes(files, writes.drop_last()).insert(writes.last().0, writes.last().1)
    }
}

/// The counter that the files of a group hold.
pub open spec fn counter_on_disk(files: Map<VaultFile, Seq<u8>>) -> nat {
    if files.dom().contains(VaultFile::Sequence) {
        counter_in(ascii_text(files[VaultFile::Sequence]))
    } else {
        0
    }
}

/// The larger of two counters.
pub open spec fn later(a: nat, b: nat) -> nat {
    if a >= b {
        a
    } else {
        b
    }
}

/// After a shard's arrival its file holds the shard, the sequence file the
/// higher one of its counter and the counter before, the root file the root
/// that came first, and every other shard is as it was.
pub proof fn law_store_is_read_back(
    files: Map<VaultFile, Seq<u8>>,
    shard_index: usize,
    data: Seq<u8>,
    counter: u64,
    merkle_root: Seq<u8>,
)
    ensures
        ({
            let after = after_arrival(files, shard_index, data, counter, merkle_root);
            &&& after.dom().contains(VaultFile::Shard(shard_index))
            &&& after[VaultFile::Shard(shard_index)] == data
            &&& counter_on_disk(after) == later(counter_on_disk(files), counter as nat)
            &&& after.dom().contains(VaultFile::MerkleRoot)
            &&& after[VaultFile::MerkleRoot] == if files.dom().contains(VaultFile::MerkleRoot) {
                files[VaultFile::MerkleRoot]
            } else {
                merkle_root
            }
            &&& forall|other: usize|
                other != shard_index ==> #[trigger] after.dom().contains(VaultFile::Shard(other))
                    == files.dom().contains(VaultFile::Shard(other)) && (files.dom().contains(
                    VaultFile::Shard(other),
                ) ==> after[VaultFile::Shard(other)] == files[VaultFile::Shard(other)])
        }),
{
    let v_max = counter_on_disk(files);
    let root_present = files.dom().contains(VaultFile::MerkleRoot);
    let writes = arrival_writes(shard_index, data, counter, merkle_root, v_max, root_present);
    reveal_with_fuel(after_writes, 5);
    law_counter_reads_back(counter);
    let mark = seq![(VaultFile::Bitmask, seq![49u8])];
    let sequence = seq![(VaultFile::Sequence, ascii_bytes(text::numeral(counter as nat)))];
    let root = seq![(VaultFile::MerkleRoot, merkle_root)];
    let shard = seq![(VaultFile::Shard(shard_index), data)];
    let none = Seq::<(VaultFile, Seq<u8>)>::empty();
    let a = if counter > v_max + REPLAY_WINDOW { mark } else { none };
    let b = if counter > v_max { sequence } else { none };
    let c = if root_present { none } else { root };
    assert(writes =~= a + b + c + shard);
    assert((a + b + c + shard).drop_last() =~= a + b + c);
    assert(root_present ==> a + b + c =~= a + b);
    assert(!root_present ==> (a + b + c).drop_last() =~= a + b);
    assert(counter <= v_max ==> a + b =~= a);
    assert(counter > v_max ==> (a + b).drop_last() =~= a);
    assert(a.len() > 0 ==> a.drop_last() =~= none);
}

/// Whether the shard `shard_index`, arriving with `counter`, is a replay for a
/// group with these files.
pub open spec fn is_replayed(
    files: Map<VaultFile, Seq<u8>>,
    shard_index: usize,
    counter: u64,
) -> bool {
    is_replay(
        counter,
        counter_on_disk(files),
        files.dom().contains(VaultFile::Shard(shard_index)),
    )
}

/// The files of a group after one shard arrived.
pub open spec fn after_arrival(
    files: Map<VaultFile, Seq<u8>>,
    shard_index: usize,
    data: Seq<u8>,
    counter: u64,
    merkle_root: Seq<u8>,
) -> Map<VaultFile, Seq<u8>> {
    after_writes(
        files,
        arrival_writes(
            shard_index,
            data,
            counter,
            merkle_root,
            counter_on_disk(files),
            files.dom().contains(VaultFile::MerkleRoot),
        ),
    )
}

/// What is once a replay stays one, and a counter once stale stays stale,
/// whatever arrives: counters on disk only rise, and shards stay.
pub proof fn law_replay_stays_replay(
    files: Map<VaultFile, Seq<u8>>,
    replayed_index: usize,
    replayed: u64,
    shard_index: usize,
    data: Seq<u8>,
    counter: u64,
    merkle_root: Seq<u8>,
)
    requires
        is_replayed(files, replayed_index, replayed),
    ensures
        is_replayed(
            after_arrival(files, shard_index, data, counter, merkle_root),
            replayed_index,
            replayed,
        ),
        is_stale(replayed, counter_on_disk(files)) ==> is_stale(
            replayed,
            counter_on_disk(after_arrival(files, shard_index, data, counter, merkle_root)),
        ),
{
    law_store_is_read_back(files, shard_index, data, counter, merkle_root);
    let after = after_arrival(files, shard_index, data, counter, merkle_root);
    if replayed_index != shard_index {
        assert(after.dom().contains(VaultFile::Shard(replayed_index)) == files.dom().contains(
            VaultFile::Shard(replayed_index),
        ));
    }
}

/// A shard that arrived is refused when it arrives with the same counter again.
pub proof fn law_repeated_shard_is_refused(
    files: Map<VaultFile, Seq<u8>>,
    shard_index: usize,
    data: Seq<u8>,
    counter: u64,
    merkle_root: Seq<u8>,
)
    ensures
        is_replayed(
            after_arrival(files, shard_index, data, counter, merkle_root),
            shard_index,
            counter,
        ),
{
    law_store_is_read_back(files, shard_index, data, counter, merkle_root);
}

/// A group takes all its shards: a counter that was accepted for one shard is
/// accepted for another one that is not here yet.
pub proof fn law_accepted_counter_is_accepted_again(
    files: Map<VaultFile, Seq<u8>>,
    shard_index: usize,
    other: usize,
    data: Seq<u8>,
    counter: u64,
    merkle_root: Seq<u8>,
)
    requires
        !is_replayed(files, shard_index, counter),
        other != shard_index,
        !files.dom().contains(VaultFile::Shard(other)),
    ensures
        !is_replayed(
            after_arrival(files, shard_index, data, counter, merkle_root),
            other,
            counter,
        ),
{
    law_store_is_read_back(files, shard_index, data, counter, merkle_root);
    let after = after_arrival(files, shard_index, data, counter, merkle_root);
    assert(!after.dom().contains(VaultFile::Shard(other)));
}

/// The files of a group after `shards` arrived one after another, all with the
/// same counter.
pub open spec fn after_arrivals(
    files: Map<VaultFile, Seq<u8>>,
    shards: Seq<Seq<u8>>,
    counter: u64,
    merkle_root: Seq<u8>,
) -> Map<VaultFile, Seq<u8>>
    decreases shards.len(),
{
    if shards.len() == 0 {
        files
    } else {
        after_arrival(
            after_arrivals(files, shards.drop_last(), counter, merkle_root),
            (shards.len() - 1) as usize,
            shards.last(),
            counter,
            merkle_root,
        )
    }
}

/// Whether each of `shards` stands in its file.
pub open spec fn holds_shards(files: Map<VaultFile, Seq<u8>>, shards: Seq<Seq<u8>>) -> bool {
    forall|i: usize|
        i < shards.len() ==> #[trigger] files.dom().contains(VaultFile::Shard(i))
            && files[VaultFile::Shard(i)] == shards[i as int]
}

/// Whether none of `shards`, arriving one after another with the same counter,
/// is taken for a replay.
pub open spec fn are_all_taken(
    files: Map<VaultFile, Seq<u8>>,
    shards: Seq<Seq<u8>>,
    counter: u64,
    merkle_root: Seq<u8>,
) -> bool
    decreases shards.len(),
{
    shards.len() > 0 ==> are_all_taken(files, shards.drop_last(), counter, merkle_root)
        && !is_replayed(
        after_arrivals(files, shards.drop_last(), counter, merkle_root),
        (shards.len() - 1) as usize,
        counter,
    )
}

/// Whether no shard from number `from` on has a file.
pub open spec fn lacks_shards_from(files: Map<VaultFile, Seq<u8>>, from: nat) -> bool {
    forall|i: usize| i >= from ==> !#[trigger] files.dom().contains(VaultFile::Shard(i))
}

/// A group without shards, whose counter is not far ahead, takes every shard
/// that arrives, none of them as a replay, and keeps them all.
pub proof fn law_group_keeps_every_shard(
    files: Map<VaultFile, Seq<u8>>,
    shards: Seq<Seq<u8>>,
    counter: u64,
    merkle_root: Seq<u8>,
)
    requires
        shards.len() <= usize::MAX,
        !is_stale(counter, counter_on_disk(files)),
        lacks_shards_from(files, 0),
    ensures
        are_all_taken(files, shards, counter, merkle_root),
        holds_shards(after_arrivals(files, shards, counter, merkle_root), shards),
        lacks_shards_from(after_arrivals(files, shards, counter, merkle_root), shards.len()),
        !is_stale(
            counter,
            counter_on_disk(after_arrivals(files, shards, counter, merkle_root)),
        ),
    decreases shards.len(),
{
    if shards.len() > 0 {
        let fewer = shards.drop_last();
        law_group_keeps_every_shard(files, fewer, counter, merkle_root);
        let before = after_arrivals(files, fewer, counter, merkle_root);
        let last = (shards.len() - 1) as usize;
        law_store_is_read_back(before, last, shards.last(), counter, merkle_root);
        let after = after_arrivals(files, shards, counter, merkle_root);
        assert(!before.dom().contains(VaultFile::Shard(last)));
        assert forall|i: usize| i < shards.len() implies #[trigger] after.dom().contains(
            VaultFile::Shard(i),
        ) && after[VaultFile::Shard(i)] == shards[i as int] by {
            if i < last {
                assert(before.dom().contains(VaultFile::Shard(i)));
                assert(fewer[i as int] == shards[i as int]);
            }
        }
        assert(holds_shards(after, shards));
        assert forall|i: usize| i >= shards.len() implies !#[trigger] after.dom().contains(
            VaultFile::Shard(i),
        ) by {
            assert(!before.dom().contains(VaultFile::Shard(i)));
        }
        assert(lacks_shards_from(after, shards.len()));
    }
}

/// Whether `names` are the names of the files of a group, in any order.
pub open spec fn are_names_of(names: Seq<Seq<char>>, files: Map<VaultFile, Seq<u8>>) -> bool {
    &&& forall|file: VaultFile| #[trigger]
        files.dom().contains(file) ==> names.contains(file.name_text())
    &&& forall|i: int|
        0 <= i < names.len() ==> exists|file: VaultFile|
            files.dom().contains(file) && #[trigger] file.name_text() == #[trigger] names[i]
}

/// The shards listed from the names of a group's files are those that the group has.
pub proof fn law_listing_is_what_the_group_has(
    names: Seq<Seq<char>>,
    files: Map<VaultFile, Seq<u8>>,
    index: usize,
)
    requires
        are_names_of(names, files),
    ensures
        shards_in(names).contains(index) == files.dom().contains(VaultFile::Shard(index)),
{
    let own = VaultFile::Shard(index).name_text();
    if names.contains(own) {
        let i = names.index_of(own);
        let file = choose|file: VaultFile|
            files.dom().contains(file) && #[trigger] file.name_text() == names[i];
        reveal_strlit("seq");
        reveal_strlit("bitmask");
        reveal_strlit("merkle_root.bin");
        reveal_strlit("shard_");
        assert(own[0] == 's' && own[1] == 'h');
        match file {
            VaultFile::Sequence => {
                assert("seq"@[1] == 'e');
            },
            VaultFile::Bitmask => {
                assert("bitmask"@[0] == 'b');
            },
            VaultFile::MerkleRoot => {
                assert("merkle_root.bin"@[0] == 'm');
            },
            VaultFile::Shard(other) => {
                law_shard_name_reads_back(own, other);
                law_shard_name_reads_back(own, index);
            },
        }
    }
}

/// The vault's knowledge of its groups.
pub struct Vault {
    /// Where the vault lies.
    pub root: String,
    /// The metadata of each group.
    pub meta_cache: Table<ShardGroupMeta>,
    pub ttl_secs: u64,
}

/// The metadata of each group, from the metadata files that were found: a later
/// file for the same group replaces an earlier one.
pub open spec fn recovered(found: Seq<(String, ShardGroupMeta)>) -> Map<Seq<char>, ShardGroupMeta>
    decreases found.len(),
{
    if found.len() == 0 {
        Map::empty()
    } else {
        let before = recovered(found.drop_last());
        match described_group(found.last().0@) {
            Some(gid) => before.insert(gid, found.last().1),
            None => before,
        }
    }
}

/// Whether a group is past its time to live.
pub open spec fn is_past(meta: ShardGroupMeta, now_ns: u64) -> bool {
    now_ns > meta.created_at_ns && now_ns - meta.created_at_ns > meta.ttl_secs * 1_000_000_000
}

fn is_past_ttl(meta: &ShardGroupMeta, now_ns: u64) -> (r: bool)
    ensures
        r == is_past(*meta, now_ns),
{
    let age = now_ns.saturating_sub(meta.created_at_ns);
    assert(meta.ttl_secs * 1_000_000_000 <= u64::MAX * 1_000_000_000);
    age as u128 > meta.ttl_secs as u128 * 1_000_000_000
}

impl Vault {
    /// Whether the metadata is consistent.
    pub open spec fn wf(&self) -> bool {
        self.meta_cache.wf()
    }

    /// The vault at `root`, with the metadata files found in it.
    pub fn open(root: String, ttl_secs: u64, found: &Vec<(String, ShardGroupMeta)>) -> (r: Self)
        ensures
            r.wf(),
            r.root@ == root@,
            r.ttl_secs == ttl_secs,
            r.meta_cache@ == recovered(found@),
    {
        let mut meta_cache: Table<ShardGroupMeta> = Table::new();
        let mut i: usize = 0;
        while i < found.len()
            invariant
                i <= found@.len(),
                meta_cache.wf(),
                meta_cache@ == recovered(found@.take(i as int)),
            decreases found@.len() - i,
        {
            assert(found@.take(i + 1).drop_last() =~= found@.take(i as int));
            if let Some(gid) = group_of_meta_file(found[i].0.as_str()) {
                meta_cache.insert(gid, found[i].1);
            }
            i += 1;
        }
        assert(found@.take(i as int) =~= found@);
        Vault { root, meta_cache, ttl_secs }
    }

    /// What the arrival of a shard does: nothing where the shard is here already
    /// and its counter no higher than the highest. A stale counter is an error.
    ///
    /// `sequence` is what the group's sequence file holds, where there is one;
    /// `root_present` and `shard_present` say whether the group has a root file
    /// and a file of this shard already.
    pub fn store_shard(
        &self,
        group_id: &str,
        shard_index: usize,
        data: &[u8],
        counter: u64,
        merkle_root: [u8; 32],
        expected_count: usize,
        sequence: &Option<String>,
        root_present: bool,
        shard_present: bool,
        now_ns: u64,
    ) -> (r: Result<Option<StorePlan>, VaultError>)
        requires
            self.wf(),
        ensures
            ({
                let v_max = counter_so_far(
                    match *sequence {
                        Some(raw) => Some(raw@),
                        None => None,
                    },
                );
                &&& r is Err == (counter == 0 || counter + 128 <= v_max)
                &&& (r matches Ok(None)) == (counter > 0 && counter + 128 > v_max && shard_present
                    && counter <= v_max)
                &&& if is_stale(counter, v_max) {
                    r matches Err(VaultError::ReplayDetected(c)) && c == counter
                } else if shard_present && counter <= v_max {
                    r matches Ok(None)
                } else {
                    &&& r matches Ok(Some(plan))
                    &&& writes_of(plan.writes@) == arrival_writes(
                        shard_index,
                        data@,
                        counter,
                        merkle_root@,
                        v_max,
                        root_present,
                    )
                    &&& plan.meta == (ShardGroupMeta {
                        v_max: later(v_max, counter as nat) as u64,
                        bitmask: 0,
                        merkle_root: if self.meta_cache@.dom().contains(group_id@) {
                            self.meta_cache@[group_id@].merkle_root
                        } else {
                            merkle_root
                        },
                        expected_shard_count: expected_count,
                        created_at_ns: now_ns,
                        ttl_secs: self.ttl_secs,
                    })
                }
            }),
    {
        let v_max = match sequence {
            Some(raw) => read_counter(raw.as_str()),
            None => 0,
        };
        let mut writes: Vec<FileWrite> = Vec::new();
        if counter as u128 > v_max as u128 + REPLAY_WINDOW as u128 {
            let mark: Vec<u8> = vec![49u8];
            assert(mark@ =~= seq![49u8]);
            writes.push(FileWrite { file: VaultFile::Bitmask, data: mark });
        } else if counter <= v_max.saturating_sub(REPLAY_WINDOW) {
            return Err(VaultError::ReplayDetected(counter));
        }
        if shard_present && counter <= v_max {
            return Ok(None);
        }
        if counter > v_max {
            writes.push(FileWrite { file: VaultFile::Sequence, data: numeral_bytes(counter) });
        }
        let expected_root = match self.meta_cache.get(group_id) {
            Some(meta) => meta.merkle_root,
            None => merkle_root,
        };
        if !root_present {
            writes.push(
                FileWrite { file: VaultFile::MerkleRoot, data: bytes::copy(&merkle_root) },
            );
        }
        writes.push(FileWrite { file: VaultFile::Shard(shard_index), data: bytes::copy(data) });
        assert(writes_of(writes@) =~= arrival_writes(
            shard_index,
            data@,
            counter,
            merkle_root@,
            v_max as nat,
            root_present,
        ));
        let meta = ShardGroupMeta {
            v_max: if counter > v_max {
                counter
            } else {
                v_max
            },
            bitmask: 0,
            merkle_root: expected_root,
            expected_shard_count: expected_count,
            created_at_ns: now_ns,
            ttl_secs: self.ttl_secs,
        };
        Ok(Some(StorePlan { writes, meta }))
    }

    /// Keeps the metadata of a group, once its files are written.
    pub fn remember(&mut self, group_id: &str, meta: ShardGroupMeta)
        requires
            old(self).wf(),
        ensures
            final(self).wf(),
            final(self).meta_cache@ == old(self).meta_cache@.insert(group_id@, meta),
            final(self).root == old(self).root,
            final(self).ttl_secs == old(self).ttl_secs,
    {
        self.meta_cache.insert(group_id.to_owned(), meta);
    }

    /// The shard with the contents `data`, where its file could be read; `sequence`
    /// is what the group's sequence file holds, empty where it could not be read.
    pub fn read_shard(
        group_id: &str,
        shard_index: usize,
        data: Option<Vec<u8>>,
        sequence: &str,
    ) -> (r: Result<VaultShard, VaultError>)
        ensures
            match data {
                Some(bytes) => r matches Ok(shard) && shard.group_id@ == group_id@
                    && shard.shard_index == shard_index && shard.data@ == bytes@ && shard.counter
                    == counter_in(sequence@),
                None => r matches Err(VaultError::ShardNotFound(what)) && what@ == group_id@ + "/"@
                    + text::numeral(shard_index as nat),
            },
    {
        match data {
            Some(data) => Ok(
                VaultShard {
                    group_id: group_id.to_owned(),
                    shard_index,
                    data,
                    counter: read_counter(sequence),
                },
            ),
            None => {
                let mut what = text::concat(group_id, "/");
                what.append(text::decimal(shard_index as u64).as_str());
                Err(VaultError::ShardNotFound(what))
            },
        }
    }

    /// All shard indices in a group, ascending, from the names of the files in its directory.
    pub fn list_shards(names: &Vec<String>) -> (r: Vec<usize>)
        ensures
            ascends(r@),
            r@.to_set() == shards_in(text::texts(names@)),
            r@.len() == shards_in(text::texts(names@)).len(),
    {
        let mut out: Vec<usize> = Vec::new();
        let ghost all = text::texts(names@);
        let mut i: usize = 0;
        while i < names.len()
            invariant
                all == text::texts(names@),
                i <= names@.len(),
                ascends(out@),
                forall|index: usize| #[trigger]
                    out@.contains(index) == all.take(i as int).contains(
                        VaultFile::Shard(index).name_text(),
                    ),
            decreases names@.len() - i,
        {
            let ghost before = out@;
            let ghost name = all[i as int];
            if let Some(index) = read_shard_index(names[i].as_str()) {
                insert_ascending(&mut out, index);
            }
            assert forall|index: usize| #[trigger]
                out@.contains(index) == all.take(i + 1).contains(
                    VaultFile::Shard(index).name_text(),
                ) by {
                law_shard_name_reads_back(name, index);
                assert(all.take(i + 1) =~= all.take(i as int).push(name));
                lists::lemma_push_contains(
                    all.take(i as int),
                    name,
                    VaultFile::Shard(index).name_text(),
                );
                assert(before.contains(index) == all.take(i as int).contains(
                    VaultFile::Shard(index).name_text(),
                ));
            }
            i += 1;
        }
        proof {
            assert(all.take(i as int) =~= all);
            assert(out@.to_set() =~= shards_in(all));
            out@.unique_seq_to_set();
        }
        out
    }

    /// Whether a group has at least `threshold` shards, from the names of the
    /// files in its directory; not where they could not be listed.
    pub fn can_reconstruct(names: &Option<Vec<String>>, threshold: usize) -> (r: bool)
        ensures
            r == (*names matches Some(names) && shards_in(text::texts(names@)).len() >= threshold),
            r == (*names is Some && has_enough(text::texts(names->0@), threshold as nat)),
    {
        match names {
            Some(names) => Vault::list_shards(names).len() >= threshold,
            None => false,
        }
    }

    /// Holds the shards read from the group `group_id` to the Merkle root that
    /// its root file holds.
    pub fn check_integrity(group_id: &str, shards: &[Vec<u8>], stored_root: &[u8]) -> (r: Result<
        (),
        VaultError,
    >)
        ensures
            if stored_root@ == merkle::tree_root(bytes::rows(shards@)) {
                r is Ok
            } else {
                r matches Err(VaultError::IntegrityError(what)) && what@ == group_id@
            },
            r is Ok == is_intact(bytes::rows(shards@), stored_root@),
    {
        let root = merkle_root(shards);
        if bytes::same_bytes(&root, stored_root) {
            Ok(())
        } else {
            Err(VaultError::IntegrityError(group_id.to_owned()))
        }
    }

    /// Forgets a group, once its files are removed.
    pub fn delete_group(&mut self, group_id: &str)
        requires
            old(self).wf(),
        ensures
            final(self).wf(),
            final(self).meta_cache@ == old(self).meta_cache@.remove(group_id@),
            final(self).root == old(self).root,
            final(self).ttl_secs == old(self).ttl_secs,
    {
        self.meta_cache.remove(group_id);
    }

    /// The groups that are past their time to live.
    pub fn garbage_collect(&self, now_ns: u64) -> (r: Vec<String>)
        requires
            self.wf(),
        ensures
            text::texts(r@) == self.meta_cache.order().filter(
                |gid: Seq<char>| is_past(self.meta_cache@[gid], now_ns),
            ),
            forall|gid: Seq<char>| #[trigger]
                text::texts(r@).contains(gid) == (self.meta_cache@.dom().contains(gid) && is_past(
                    self.meta_cache@[gid],
                    now_ns,
                )),
            forall|gid: Seq<char>| #[trigger]
                text::texts(r@).contains(gid) == (self.meta_cache@.dom().contains(gid) && now_ns
                    > self.meta_cache@[gid].created_at_ns + self.meta_cache@[gid].ttl_secs
                    * 1_000_000_000),
    {
        let all = self.meta_cache.keys();
        let ghost order = self.meta_cache.order();
        let ghost keep = |gid: Seq<char>| is_past(self.meta_cache@[gid], now_ns);
        let mut out: Vec<String> = Vec::new();
        let mut i: usize = 0;
        proof {
            self.meta_cache.lemma_order();
            lists::lemma_filter_ends(order, keep);
            assert(text::texts(out@) =~= order.take(0).filter(keep));
        }
        while i < all.len()
            invariant
                self.wf(),
                order == self.meta_cache.order(),
                keep == (|gid: Seq<char>| is_past(self.meta_cache@[gid], now_ns)),
                order.to_set() == self.meta_cache@.dom(),
                text::texts(all@) == order,
                i <= all@.len(),
                text::texts(out@) == order.take(i as int).filter(keep),
            decreases all@.len() - i,
        {
            proof {
                lists::lemma_filter_step(order, keep, i as int);
                assert(order[i as int] == all@[i as int]@);
                assert(order.to_set().contains(order[i as int]));
            }
            let ghost before = text::texts(out@);
            if let Some(meta) = self.meta_cache.get(all[i].as_str()) {
                if is_past_ttl(meta, now_ns) {
                    out.push(all[i].clone());
                    assert(text::texts(out@) =~= before.push(order[i as int]));
                }
            }
            i += 1;
        }
        proof {
            lists::lemma_filter_ends(order, keep);
            assert forall|gid: Seq<char>| #[trigger]
                text::texts(out@).contains(gid) == (self.meta_cache@.dom().contains(gid)
                    && is_past(self.meta_cache@[gid], now_ns)) by {
                lists::lemma_filter_members(order, keep, gid);
                assert(order.to_set().contains(gid) == order.contains(gid));
            }
        }
        out
    }

    /// Get metadata for a group (if it exists).
    pub fn get_meta(&self, group_id: &str) -> (r: Option<ShardGroupMeta>)
        requires
            self.wf(),
        ensures
            r == (if self.meta_cache@.dom().contains(group_id@) {
                Some(self.meta_cache@[group_id@])
            } else {
                None
            }),
    {
        match self.meta_cache.get(group_id) {
            Some(meta) => Some(*meta),
            None => None,
        }
    }

    /// All groups whose metadata is kept.
    pub fn all_group_ids(&self) -> (r: Vec<String>)
        requires
            self.wf(),
        ensures
            text::texts(r@).no_duplicates(),
            text::texts(r@).to_set() == self.meta_cache@.dom(),
    {
        proof {
            self.meta_cache.lemma_order();
        }
        self.meta_cache.keys()
    }

    /// The number of groups whose metadata is kept.
    pub fn group_count(&self) -> (r: usize)
        requires
            self.wf(),
        ensures
            r == self.meta_cache@.dom().len(),
    {
        self.meta_cache.len()
    }
}

} // verus!

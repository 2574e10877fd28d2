//! What the vault promises of its files and groups as a whole.

use crate::crypto::hash;
use crate::crypto::merkle;
use crate::lists;
use crate::text;
use crate::text::Margin;
use crate::vault;
use crate::vault::{ShardGroupMeta, VaultFile};
use vstd::prelude::*;

verus! {

// ---------- Time to live ----------

/// A group is past its time exactly once more nanoseconds than its time to live
/// has have gone by since it was created.
pub proof fn law_group_lives_its_time(meta: ShardGroupMeta, now_ns: u64)
    ensures
        vault::is_past(meta, now_ns) == (now_ns > meta.created_at_ns + meta.ttl_secs
            * 1_000_000_000),
{
}

/// A group that is past its time stays so, and one with a longer time to live,
/// or created later, is not past its time before it.
pub proof fn law_longer_lived_groups_outlive(
    a: ShardGroupMeta,
    b: ShardGroupMeta,
    now_ns: u64,
    later_ns: u64,
)
    requires
        a.ttl_secs <= b.ttl_secs,
        a.created_at_ns <= b.created_at_ns,
        now_ns <= later_ns,
    ensures
        vault::is_past(b, now_ns) ==> vault::is_past(a, now_ns),
        vault::is_past(a, now_ns) ==> vault::is_past(a, later_ns),
{
    assert(a.ttl_secs * 1_000_000_000 <= b.ttl_secs * 1_000_000_000);
}

// ---------- Counters ----------

/// After a shard arrived, a shard that is not here yet is refused exactly where
/// its counter is zero, or lies 128 or more below the highest that arrived; a
/// shard that is here, where its counter is not above the highest.
pub proof fn law_arrivals_set_the_window(
    files: Map<VaultFile, Seq<u8>>,
    index: usize,
    data: Seq<u8>,
    counter: u64,
    merkle_root: Seq<u8>,
    other: usize,
    next: u64,
)
    ensures
        ({
            let after = vault::after_arrival(files, index, data, counter, merkle_root);
            let before = vault::counter_on_disk(files);
            let highest = if before >= counter { before } else { counter as nat };
            let here = other == index || files.dom().contains(VaultFile::Shard(other));
            vault::is_replayed(after, other, next) == (next == 0 || next + 128 <= highest || (here
                && next <= highest))
        }),
{
    vault::law_store_is_read_back(files, index, data, counter, merkle_root);
    let after = vault::after_arrival(files, index, data, counter, merkle_root);
    if other != index {
        assert(after.dom().contains(VaultFile::Shard(other)) == files.dom().contains(
            VaultFile::Shard(other),
        ));
    }
}

/// In a group without files every counter but zero is taken.
pub proof fn law_first_counter_is_taken(index: usize, counter: u64)
    ensures
        vault::is_replayed(Map::<VaultFile, Seq<u8>>::empty(), index, counter) == (counter == 0),
{
}

/// The numeral of a counter reads back as that counter, with white space round
/// it or without.
pub proof fn law_counter_reads_back_between_white_space(
    lead: Seq<char>,
    n: u64,
    tail: Seq<char>,
)
    requires
        forall|i: int| 0 <= i < lead.len() ==> text::in_margin(Margin::White, #[trigger] lead[i]),
        forall|i: int| 0 <= i < tail.len() ==> text::in_margin(Margin::White, #[trigger] tail[i]),
    ensures
        vault::counter_in(lead + text::numeral(n as nat) + tail) == n,
{
    let s = text::numeral(n as nat);
    text::lemma_numeral(n as nat);
    assert(text::is_digit(s[0]) && text::is_digit(s[s.len() - 1]));
    text::law_trimming_takes_the_margins(lead, s, tail, Margin::White);
    text::law_numeral_reads_back(n as nat, u64::MAX as nat);
}

/// A group counts from what its sequence file holds, whatever the number, and
/// from zero where it has none; what an arrival wrote there is what the next
/// arrival counts from.
pub proof fn law_sequence_file_is_counted_from(files: Map<VaultFile, Seq<u8>>, n: u64)
    ensures
        vault::counter_so_far(Some(text::numeral(n as nat))) == n,
        vault::counter_so_far(None) == 0,
        vault::counter_on_disk(files) == vault::counter_so_far(
            if files.dom().contains(VaultFile::Sequence) {
                Some(vault::ascii_text(files[VaultFile::Sequence]))
            } else {
                None
            },
        ),
{
    let none = Seq::<char>::empty();
    law_counter_reads_back_between_white_space(none, n, none);
    assert(none + text::numeral(n as nat) + none =~= text::numeral(n as nat));
}

// ---------- Files ----------

/// No two files of a group have the same name.
pub proof fn law_file_names_differ(a: VaultFile, b: VaultFile)
    requires
        a != b,
    ensures
        a.name_text() != b.name_text(),
{
    reveal_strlit("seq");
    reveal_strlit("bitmask");
    reveal_strlit("merkle_root.bin");
    reveal_strlit("shard_");
    lemma_name_begins(a);
    lemma_name_begins(b);
    if let VaultFile::Shard(i) = a {
        if let VaultFile::Shard(j) = b {
            vault::law_shard_name_reads_back(a.name_text(), i);
            vault::law_shard_name_reads_back(a.name_text(), j);
        }
    }
}

proof fn lemma_name_begins(a: VaultFile)
    ensures
        a.name_text().len() >= 2,
        a is Sequence ==> a.name_text()[0] == 's' && a.name_text()[1] == 'e',
        a is Bitmask ==> a.name_text()[0] == 'b',
        a is MerkleRoot ==> a.name_text()[0] == 'm',
        a is Shard ==> a.name_text()[0] == 's' && a.name_text()[1] == 'h',
{
    reveal_strlit("seq");
    reveal_strlit("bitmask");
    reveal_strlit("merkle_root.bin");
    reveal_strlit("shard_");
}

/// Of the files of a group the shards and the root are overwritten before they
/// are removed, and no others.
pub proof fn law_shards_and_root_are_wiped(file: VaultFile)
    ensures
        vault::has_extension(file.name_text(), "bin"@) == (file is Shard || file is MerkleRoot),
{
    reveal_strlit("seq");
    reveal_strlit("bitmask");
    reveal_strlit("merkle_root.bin");
    reveal_strlit("shard_");
    reveal_strlit(".bin");
    reveal_strlit("bin");
    reveal_strlit(".");
    let name = file.name_text();
    let ext = "."@ + "bin"@;
    assert(ext =~= ".bin"@);
    if file is Shard || file is MerkleRoot {
        assert(name.skip(name.len() - 4) =~= ext);
    } else if file is Bitmask {
        assert(name[name.len() - 1] == 'k');
        assert(ext[3] == 'n');
        if ext.is_suffix_of(name) {
            assert(name.subrange(name.len() - 4, name.len() as int)[3] == 'k');
        }
    }
}

/// The metadata file of a group describes that group: its name gives the group back.
pub proof fn law_metadata_file_names_its_group(group_id: Seq<char>)
    requires
        group_id.len() > 0,
    ensures
        vault::described_group(group_id + ".json"@) == Some(group_id),
{
    reveal_strlit(".json");
    reveal_strlit("json");
    reveal_strlit(".");
    let name = group_id + ".json"@;
    let ext = "."@ + "json"@;
    assert(ext =~= ".json"@);
    assert(name.skip(name.len() - 5) =~= ext);
    assert(name.take(name.len() - 5) =~= group_id);
}

/// A vault that is opened knows of a group what the last of its metadata files
/// says, and of no group without one.
pub proof fn law_opened_vault_knows_its_groups(
    found: Seq<(String, ShardGroupMeta)>,
    group_id: Seq<char>,
)
    ensures
        vault::recovered(found).dom().contains(group_id) == exists|i: int|
            0 <= i < found.len() && vault::described_group((#[trigger] found[i]).0@) == Some(
                group_id,
            ),
        forall|i: int|
            0 <= i < found.len() && vault::described_group((#[trigger] found[i]).0@) == Some(
                group_id,
            ) && (forall|j: int|
                i < j < found.len() ==> vault::described_group((#[trigger] found[j]).0@) != Some(
                    group_id,
                )) ==> vault::recovered(found)[group_id] == found[i].1,
    decreases found.len(),
{
    if found.len() > 0 {
        let fewer = found.drop_last();
        let n = found.len() - 1;
        law_opened_vault_knows_its_groups(fewer, group_id);
        if vault::described_group(found[n].0@) == Some(group_id) {
            assert forall|i: int|
                0 <= i < found.len() && vault::described_group((#[trigger] found[i]).0@) == Some(
                    group_id,
                ) && (forall|j: int|
                    i < j < found.len() ==> vault::described_group((#[trigger] found[j]).0@)
                        != Some(group_id)) implies vault::recovered(found)[group_id]
                == found[i].1 by {
                assert(i == n);
            }
        } else {
            if exists|i: int|
                0 <= i < fewer.len() && vault::described_group((#[trigger] fewer[i]).0@) == Some(
                    group_id,
                ) {
                let i = choose|i: int|
                    0 <= i < fewer.len() && vault::described_group((#[trigger] fewer[i]).0@)
                        == Some(group_id);
                assert(found[i] == fewer[i]);
            }
            if exists|i: int|
                0 <= i < found.len() && vault::described_group((#[trigger] found[i]).0@) == Some(
                    group_id,
                ) {
                let i = choose|i: int|
                    0 <= i < found.len() && vault::described_group((#[trigger] found[i]).0@)
                        == Some(group_id);
                assert(fewer[i] == found[i]);
            }
            assert forall|i: int|
                0 <= i < found.len() && vault::described_group((#[trigger] found[i]).0@) == Some(
                    group_id,
                ) && (forall|j: int|
                    i < j < found.len() ==> vault::described_group((#[trigger] found[j]).0@)
                        != Some(group_id)) implies vault::recovered(found)[group_id]
                == found[i].1 by {
                assert(fewer[i] == found[i]);
                assert forall|j: int| i < j < fewer.len() implies vault::described_group(
                    (#[trigger] fewer[j]).0@,
                ) != Some(group_id) by {
                    assert(found[j] == fewer[j]);
                }
            }
        }
    }
}

// ---------- Reconstruction ----------

/// A group has enough shards exactly where as many different ones as asked for
/// have their files: any list of so many different indices whose files are there
/// is enough, and where it is enough there is such a list.
pub proof fn law_enough_shards_have_files(
    names: Seq<Seq<char>>,
    threshold: nat,
    indices: Seq<usize>,
)
    ensures
        indices.no_duplicates() && indices.len() >= threshold && (forall|i: int|
            0 <= i < indices.len() ==> names.contains(
                VaultFile::Shard(#[trigger] indices[i]).name_text(),
            )) ==> vault::has_enough(names, threshold),
        indices.no_duplicates() && indices.len() < threshold && (forall|index: usize|
            names.contains(#[trigger] VaultFile::Shard(index).name_text()) ==> indices.contains(
                index,
            )) ==> !vault::has_enough(names, threshold),
{
    let here = vault::shards_in(names);
    let given = indices.to_set();
    lemma_few_shards(names);
    if indices.no_duplicates() {
        indices.unique_seq_to_set();
        if forall|i: int|
            0 <= i < indices.len() ==> names.contains(
                VaultFile::Shard(#[trigger] indices[i]).name_text(),
            ) {
            assert(given.subset_of(here));
            vstd::set_lib::lemma_len_subset(given, here);
        }
        if forall|index: usize|
            names.contains(#[trigger] VaultFile::Shard(index).name_text()) ==> indices.contains(
                index,
            ) {
            assert(here.subset_of(given));
            vstd::set_lib::lemma_len_subset(here, given);
        }
    }
}

proof fn lemma_few_shards(names: Seq<Seq<char>>)
    ensures
        vault::shards_in(names).finite(),
    decreases names.len(),
{
    let here = vault::shards_in(names);
    if names.len() == 0 {
        assert(here =~= Set::<usize>::empty());
    } else {
        let fewer = names.drop_last();
        let before = vault::shards_in(fewer);
        lemma_few_shards(fewer);
        assert(names =~= fewer.push(names.last()));
        assert forall|index: usize| #[trigger] here.contains(index) == (before.contains(index)
            || VaultFile::Shard(index).name_text() == names.last()) by {
            lists::lemma_push_contains(
                fewer,
                names.last(),
                VaultFile::Shard(index).name_text(),
            );
        }
        if exists|index: usize| VaultFile::Shard(index).name_text() == names.last() {
            let own = choose|index: usize|
                VaultFile::Shard(index).name_text() == names.last();
            assert forall|index: usize| VaultFile::Shard(index).name_text()
                == names.last() implies index == own by {
                vault::law_shard_name_reads_back(names.last(), index);
                vault::law_shard_name_reads_back(names.last(), own);
            }
            assert(here =~= before.insert(own));
        } else {
            assert(here =~= before);
        }
    }
}

/// Shards are intact under the root that was computed over them. Two shards
/// exchanged for others are not, as long as the digest tells apart what is hashed.
pub proof fn law_intact_shards_have_their_root(a: Seq<u8>, b: Seq<u8>, c: Seq<u8>, d: Seq<u8>)
    requires
        merkle::told_apart(a, c),
        merkle::told_apart(b, d),
        hash::blake3_digest(a).len() == 32,
        hash::blake3_digest(c).len() == 32,
        merkle::told_apart(
            hash::blake3_digest(a) + hash::blake3_digest(b),
            hash::blake3_digest(c) + hash::blake3_digest(d),
        ),
    ensures
        vault::is_intact(seq![a, b], merkle::tree_root(seq![a, b])),
        vault::is_intact(seq![c, d], merkle::tree_root(seq![a, b])) == (a == c && b == d),
{
    merkle::law_root_pairs_neighbours(seq![a, b]);
    merkle::law_root_pairs_neighbours(seq![c, d]);
    let (p, q) = (hash::blake3_digest(a), hash::blake3_digest(b));
    let (x, y) = (hash::blake3_digest(c), hash::blake3_digest(d));
    if p + q == x + y {
        assert((p + q).take(32) =~= p && (x + y).take(32) =~= x);
        assert((p + q).skip(32) =~= q && (x + y).skip(32) =~= y);
    }
}

/// Whatever the shards, they are intact under their own Merkle root and under no other.
pub proof fn law_intact_under_one_root(shards: Seq<Seq<u8>>, root: Seq<u8>)
    ensures
        vault::is_intact(shards, root) <==> root == merkle::tree_root(shards),
{
}

} // verus!

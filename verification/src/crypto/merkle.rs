//! Merkle trees over ordered lists of shards.

use crate::bytes;
use crate::crypto::hash;
use crate::crypto::hash::blake3_hash;
use vstd::prelude::*;

verus! {

/// The contents of a sequence of digests.
pub open spec fn digests(v: Seq<[u8; 32]>) -> Seq<Seq<u8>> {
    Seq::new(v.len(), |i: int| v[i]@)
}

/// The lowest level of the tree: the digest of each shard.
pub open spec fn leaves(shards: Seq<Seq<u8>>) -> Seq<Seq<u8>> {
    Seq::new(shards.len(), |i: int| hash::blake3_digest(shards[i]))
}

/// The digest of two nodes that stand side by side.
pub open spec fn pair(left: Seq<u8>, right: Seq<u8>) -> Seq<u8> {
    hash::blake3_digest(left + right)
}

/// The level above `level`: each two neighbours are paired, and a last node
/// without a neighbour moves up as it is.
pub open spec fn parents(level: Seq<Seq<u8>>) -> Seq<Seq<u8>> {
    Seq::new(
        (level.len() + 1) / 2,
        |i: int|
            if 2 * i + 1 < level.len() {
                pair(level[2 * i], level[2 * i + 1])
            } else {
                level[2 * i]
            },
    )
}

/// The node at the top of the levels over `level`; zeros over nothing.
pub open spec fn top(level: Seq<Seq<u8>>) -> Seq<u8>
    decreases level.len(),
{
    if level.len() == 0 {
        bytes::zero_bytes(32)
    } else if level.len() == 1 {
        level[0]
    } else {
        top(parents(level))
    }
}

/// The Merkle root of `shards`.
pub open spec fn tree_root(shards: Seq<Seq<u8>>) -> Seq<u8> {
    top(leaves(shards))
}

/// The neighbours met on the way from node `index` of `level` to the top, the lowest first.
pub open spec fn neighbours(level: Seq<Seq<u8>>, index: nat) -> Seq<Seq<u8>>
    decreases level.len(),
{
    if level.len() <= 1 {
        Seq::empty()
    } else {
        let here = if index % 2 == 1 {
            seq![level[index - 1]]
        } else if index + 1 < level.len() {
            seq![level[index as int + 1]]
        } else {
            Seq::empty()
        };
        here + neighbours(parents(level), index / 2)
    }
}

/// The digest that `node` reaches from position `index` of a level of `width`
/// nodes when every sibling is put on its own side.
pub open spec fn climb(node: Seq<u8>, index: nat, width: nat, siblings: Seq<Seq<u8>>) -> Seq<u8>
    decreases width,
{
    if width <= 1 {
        node
    } else if index % 2 == 1 {
        climb(pair(siblings[0], node), index / 2, (width + 1) / 2, siblings.skip(1))
    } else if index + 1 < width {
        climb(pair(node, siblings[0]), index / 2, (width + 1) / 2, siblings.skip(1))
    } else {
        climb(node, index / 2, (width + 1) / 2, siblings)
    }
}

/// How many siblings the way from position `index` of a level of `width` nodes
/// to the top has.
pub open spec fn sibling_count(index: nat, width: nat) -> nat
    decreases width,
{
    if width <= 1 {
        0
    } else if index % 2 == 1 || index + 1 < width {
        1 + sibling_count(index / 2, (width + 1) / 2)
    } else {
        sibling_count(index / 2, (width + 1) / 2)
    }
}

/// Whether the position of a proof is one of its tree, and its siblings are as
/// many as the way from there to the top has.
pub open spec fn shape_fits(proof: MerkleProof) -> bool {
    proof.shard_index < proof.total_shards && proof.siblings@.len() == sibling_count(
        proof.shard_index as nat,
        proof.total_shards as nat,
    )
}

/// Whether `proof` proves that `shard` stands at its position under its root.
pub open spec fn accepts(proof: MerkleProof, shard: Seq<u8>) -> bool {
    shape_fits(proof) && climb(
        hash::blake3_digest(shard),
        proof.shard_index as nat,
        proof.total_shards as nat,
        digests(proof.siblings@),
    ) == proof.root@
}

/// Whether `proof` is the proof for the shard at `index`.
pub open spec fn is_proof_for(proof: MerkleProof, shards: Seq<Seq<u8>>, index: nat) -> bool {
    &&& proof.shard_index == index
    &&& proof.total_shards == shards.len()
    &&& digests(proof.siblings@) == neighbours(leaves(shards), index)
    &&& proof.root@ == tree_root(shards)
}

/// A Merkle proof for a specific shard.
#[derive(Debug, Clone)]
pub struct MerkleProof {
    pub shard_index: usize,
    pub total_shards: usize,
    pub siblings: Vec<[u8; 32]>,
    pub root: [u8; 32],
}

fn hash_pair(left: &[u8; 32], right: &[u8; 32]) -> (r: [u8; 32])
    ensures
        r@ == pair(left@, right@),
{
    let mut combined: Vec<u8> = Vec::with_capacity(64);
    combined.extend_from_slice(left);
    combined.extend_from_slice(right);
    assert(combined@ =~= left@ + right@);
    blake3_hash(combined.as_slice())
}

fn hash_leaves(shards: &[Vec<u8>]) -> (r: Vec<[u8; 32]>)
    ensures
        digests(r@) == leaves(bytes::rows(shards@)),
        r@.len() == shards@.len(),
{
    let mut level: Vec<[u8; 32]> = Vec::with_capacity(shards.len());
    let mut i: usize = 0;
    while i < shards.len()
        invariant
            i <= shards@.len(),
            level@.len() == i,
            forall|j: int|
                0 <= j < i ==> (#[trigger] level@[j])@ == hash::blake3_digest(shards@[j]@),
        decreases shards@.len() - i,
    {
        level.push(blake3_hash(shards[i].as_slice()));
        i += 1;
    }
    assert(digests(level@) =~= leaves(bytes::rows(shards@)));
    level
}

fn next_level(level: &Vec<[u8; 32]>) -> (r: Vec<[u8; 32]>)
    ensures
        digests(r@) == parents(digests(level@)),
{
    let mut next: Vec<[u8; 32]> = Vec::new();
    let mut i: usize = 0;
    let ghost up = parents(digests(level@));
    while i < level.len()
        invariant
            i <= level@.len() + 1,
            i % 2 == 0 || i == level@.len(),
            up == parents(digests(level@)),
            next@.len() == (i + 1) / 2,
            forall|j: int| 0 <= j < next@.len() ==> (#[trigger] next@[j])@ == up[j],
        decreases level@.len() - i,
    {
        let ghost j = next@.len() as int;
        assert(i == 2 * j);
        if level.len() - i >= 2 {
            next.push(hash_pair(&level[i], &level[i + 1]));
            assert(next@[j]@ == up[j]);
            i += 2;
        } else {
            next.push(level[i]);
            assert(next@[j]@ == up[j]);
            i += 1;
        }
    }
    assert(digests(next@) =~= up);
    next
}

/// Compute a Merkle root from an ordered list of shard data.
pub fn merkle_root(shards: &[Vec<u8>]) -> (r: [u8; 32])
    ensures
        r@ == tree_root(bytes::rows(shards@)),
{
    if shards.len() == 0 {
        let none = [0u8; 32];
        assert(none@ =~= bytes::zero_bytes(32));
        return none;
    }
    let mut level = hash_leaves(shards);
    while level.len() > 1
        invariant
            level@.len() >= 1,
            top(digests(level@)) == tree_root(bytes::rows(shards@)),
        decreases level@.len(),
    {
        let next = next_level(&level);
        assert(digests(next@).len() == next@.len());
        level = next;
    }
    level[0]
}

/// Generate a Merkle proof for shard at `index`.
pub fn merkle_proof(shards: &[Vec<u8>], index: usize) -> (r: Option<MerkleProof>)
    ensures
        r is Some <==> index < shards@.len(),
        r matches Some(p) ==> is_proof_for(p, bytes::rows(shards@), index as nat),
{
    if index >= shards.len() {
        return None;
    }
    let root = merkle_root(shards);
    let mut siblings: Vec<[u8; 32]> = Vec::new();
    let mut level = hash_leaves(shards);
    let mut idx: usize = index;
    let ghost all = neighbours(leaves(bytes::rows(shards@)), index as nat);
    assert(digests(siblings@) + neighbours(digests(level@), idx as nat) =~= all);
    while level.len() > 1
        invariant
            idx < level@.len(),
            digests(siblings@) + neighbours(digests(level@), idx as nat) == all,
        decreases level@.len(),
    {
        let ghost here = digests(level@);
        let ghost before = digests(siblings@);
        if idx % 2 == 0 {
            if level.len() - idx > 1 {
                siblings.push(level[idx + 1]);
                assert(digests(siblings@) =~= before.push(here[idx + 1]));
            }
        } else {
            siblings.push(level[idx - 1]);
            assert(digests(siblings@) =~= before.push(here[idx - 1]));
        }
        let next = next_level(&level);
        assert(digests(next@).len() == next@.len());
        level = next;
        assert(digests(siblings@) + neighbours(parents(here), idx as nat / 2) =~= before
            + neighbours(here, idx as nat));
        idx = idx / 2;
    }
    assert(digests(siblings@) + neighbours(digests(level@), idx as nat) =~= digests(siblings@));
    Some(MerkleProof { shard_index: index, total_shards: shards.len(), siblings, root })
}

/// Verify a Merkle proof against the shard data: from the digest of `shard`,
/// with every sibling put on its own side, the root of the proof must be reached.
pub fn verify_merkle_proof(proof: &MerkleProof, shard: &[u8]) -> (r: bool)
    ensures
        r == accepts(*proof, shard@),
{
    if proof.shard_index >= proof.total_shards {
        return false;
    }
    let mut node = blake3_hash(shard);
    let mut idx: usize = proof.shard_index;
    let mut width: usize = proof.total_shards;
    let mut used: usize = 0;
    let ghost all = digests(proof.siblings@);
    let ghost end = climb(node@, idx as nat, width as nat, all);
    assert(all.skip(0) =~= all);
    while width > 1
        invariant
            idx < width,
            all == digests(proof.siblings@),
            used <= all.len(),
            used + sibling_count(idx as nat, width as nat) == sibling_count(
                proof.shard_index as nat,
                proof.total_shards as nat,
            ),
            climb(node@, idx as nat, width as nat, all.skip(used as int)) == end,
        decreases width,
    {
        if idx % 2 == 1 || width - idx > 1 {
            if used >= proof.siblings.len() {
                return false;
            }
            assert(all.skip(used as int)[0] == proof.siblings@[used as int]@);
            assert(all.skip(used as int).skip(1) =~= all.skip(used + 1));
            if idx % 2 == 1 {
                node = hash_pair(&proof.siblings[used], &node);
            } else {
                node = hash_pair(&node, &proof.siblings[used]);
            }
            used += 1;
        }
        idx = idx / 2;
        width = width - width / 2;
    }
    used == proof.siblings.len() && bytes::same_bytes(&node, &proof.root)
}

/// The neighbours of any node lead it, each put on its own side, to the top.
pub proof fn lemma_climb_reaches_top(level: Seq<Seq<u8>>, index: nat)
    requires
        index < level.len(),
    ensures
        climb(level[index as int], index, level.len(), neighbours(level, index)) == top(level),
    decreases level.len(),
{
    if level.len() > 1 {
        let up = parents(level);
        let all = neighbours(level, index);
        let above = neighbours(up, index / 2);
        lemma_climb_reaches_top(up, index / 2);
        if index % 2 == 1 || index + 1 < level.len() {
            assert(all.skip(1) =~= above);
        } else {
            assert(all =~= above);
        }
        if index % 2 == 1 {
            assert(2 * (index / 2) == index - 1);
            assert(all[0] == level[index - 1]);
        } else {
            assert(2 * (index / 2) == index);
        }
    }
}

/// The siblings of the proof of any shard lead its digest, each put on its own
/// side, to the Merkle root.
pub proof fn law_proof_leads_to_root(shards: Seq<Seq<u8>>, index: nat)
    requires
        index < shards.len(),
    ensures
        climb(
            hash::blake3_digest(shards[index as int]),
            index,
            shards.len(),
            neighbours(leaves(shards), index),
        ) == tree_root(shards),
{
    lemma_climb_reaches_top(leaves(shards), index);
}

proof fn lemma_neighbours_counted(level: Seq<Seq<u8>>, index: nat)
    requires
        index < level.len(),
    ensures
        neighbours(level, index).len() == sibling_count(index, level.len()),
    decreases level.len(),
{
    if level.len() > 1 {
        lemma_neighbours_counted(parents(level), index / 2);
    }
}

/// The proof generated for any shard is accepted for it.
pub proof fn law_generated_proof_verifies(shards: Seq<Seq<u8>>, index: nat, proof: MerkleProof)
    requires
        index < shards.len(),
        is_proof_for(proof, shards, index),
    ensures
        accepts(proof, shards[index as int]),
{
    law_proof_leads_to_root(shards, index);
    lemma_neighbours_counted(leaves(shards), index);
    assert(digests(proof.siblings@).len() == proof.siblings@.len());
}

/// Whether two inputs have different digests, or are one.
pub open spec fn told_apart(a: Seq<u8>, b: Seq<u8>) -> bool {
    hash::blake3_digest(a) == hash::blake3_digest(b) ==> a == b
}

/// Whether the digest tells apart what is hashed on the two ways from `a` and
/// from `b`, at position `index` of a level of `width` nodes, to the top.
pub open spec fn ways_told_apart(
    a: Seq<u8>,
    b: Seq<u8>,
    index: nat,
    width: nat,
    siblings: Seq<Seq<u8>>,
) -> bool
    decreases width,
{
    let (up, wide) = (index / 2, ((width + 1) / 2) as nat);
    if width <= 1 {
        true
    } else if index % 2 == 1 {
        let s = siblings[0];
        told_apart(s + a, s + b) && ways_told_apart(
            pair(s, a),
            pair(s, b),
            up,
            wide,
            siblings.skip(1),
        )
    } else if index + 1 < width {
        let s = siblings[0];
        told_apart(a + s, b + s) && ways_told_apart(
            pair(a, s),
            pair(b, s),
            up,
            wide,
            siblings.skip(1),
        )
    } else {
        ways_told_apart(a, b, up, wide, siblings)
    }
}

proof fn lemma_ways_stay_apart(
    a: Seq<u8>,
    b: Seq<u8>,
    index: nat,
    width: nat,
    siblings: Seq<Seq<u8>>,
)
    requires
        a != b,
        ways_told_apart(a, b, index, width, siblings),
    ensures
        climb(a, index, width, siblings) != climb(b, index, width, siblings),
    decreases width,
{
    let (up, wide) = (index / 2, ((width + 1) / 2) as nat);
    if width > 1 {
        let s = siblings[0];
        if index % 2 == 1 {
            assert((s + a).skip(s.len() as int) =~= a);
            assert((s + b).skip(s.len() as int) =~= b);
            lemma_ways_stay_apart(pair(s, a), pair(s, b), up, wide, siblings.skip(1));
        } else if index + 1 < width {
            if a + s == b + s {
                assert((a + s).len() == a.len() + s.len());
                assert((b + s).len() == b.len() + s.len());
                assert((a + s).take(a.len() as int) =~= a);
                assert((b + s).take(b.len() as int) =~= b);
            }
            lemma_ways_stay_apart(pair(a, s), pair(b, s), up, wide, siblings.skip(1));
        } else {
            lemma_ways_stay_apart(a, b, up, wide, siblings);
        }
    }
}

/// The proof generated for a shard is refused for any other data, as long as
/// the digest tells apart what is hashed on the way from the one and from the
/// other to the root.
pub proof fn law_other_shard_is_refused(
    shards: Seq<Seq<u8>>,
    index: nat,
    proof: MerkleProof,
    other: Seq<u8>,
)
    requires
        index < shards.len(),
        is_proof_for(proof, shards, index),
        other != shards[index as int],
        told_apart(other, shards[index as int]),
        ways_told_apart(
            hash::blake3_digest(other),
            hash::blake3_digest(shards[index as int]),
            index,
            shards.len(),
            neighbours(leaves(shards), index),
        ),
    ensures
        !accepts(proof, other),
{
    law_proof_leads_to_root(shards, index);
    lemma_ways_stay_apart(
        hash::blake3_digest(other),
        hash::blake3_digest(shards[index as int]),
        index,
        shards.len(),
        neighbours(leaves(shards), index),
    );
}

/// The root over one shard is its digest, the root over two the digest of both
/// digests in their order, and the root over an even number of shards is that of
/// the pairs of neighbours.
pub proof fn law_root_pairs_neighbours(shards: Seq<Seq<u8>>)
    ensures
        shards.len() == 1 ==> tree_root(shards) == hash::blake3_digest(shards[0]),
        shards.len() == 2 ==> tree_root(shards) == hash::blake3_digest(
            hash::blake3_digest(shards[0]) + hash::blake3_digest(shards[1]),
        ),
        shards.len() >= 2 && shards.len() % 2 == 0 ==> tree_root(shards) == tree_root(
            Seq::new(
                shards.len() / 2,
                |i: int|
                    hash::blake3_digest(shards[2 * i]) + hash::blake3_digest(shards[2 * i + 1]),
            ),
        ),
{
    let level = leaves(shards);
    if shards.len() >= 2 && shards.len() % 2 == 0 {
        let pairs = Seq::new(
            shards.len() / 2,
            |i: int| hash::blake3_digest(shards[2 * i]) + hash::blake3_digest(shards[2 * i + 1]),
        );
        assert(leaves(pairs) =~= parents(level));
        if shards.len() == 2 {
            assert(parents(level).len() == 1);
            assert(parents(level)[0] == pair(level[0], level[1]));
            reveal_with_fuel(top, 3);
        }
    }
}

/// The root over an odd number of shards, three or more, takes the last digest
/// along unpaired: a level of one node is that node.
pub proof fn law_last_node_moves_up(level: Seq<Seq<u8>>)
    requires
        level.len() % 2 == 1,
        level.len() >= 3,
    ensures
        parents(level).len() == level.len() / 2 + 1,
        parents(level).last() == level.last(),
        top(level) == top(parents(level)),
{
}

} // verus!

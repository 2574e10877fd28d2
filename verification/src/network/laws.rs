//! What the network layer promises of interfaces and packets.

use crate::bytes;
use crate::crypto::erasure;
use crate::lists;
use crate::network;
use crate::network::{FoundInterface, NetInterface};
use vstd::prelude::*;

verus! {

// ---------- Interfaces ----------

/// The interfaces discovered are the IPv4 addresses found that are not loopback,
/// each of them and no others; without any there is just the loopback address.
pub proof fn law_interfaces_are_the_reachable_ones(
    all: Seq<NetInterface>,
    found: Seq<FoundInterface>,
    f: FoundInterface,
    i: int,
)
    requires
        network::are_interfaces(all, found),
    ensures
        found.contains(f) && f.v4 is Some && !f.is_loopback ==> exists|k: int|
            0 <= k < all.len() && (#[trigger] all[k]).name@ == f.name@ && Some(all[k].ip) == f.v4
                && !all[k].is_loopback,
        0 <= i < all.len() && !all[i].is_loopback ==> exists|k: int|
            0 <= k < found.len() && (#[trigger] found[k]).name@ == all[i].name@ && found[k].v4
                == Some(all[i].ip) && !found[k].is_loopback,
        0 <= i < all.len() && all[i].is_loopback ==> all.len() == 1 && all[i].ip@ == seq![
            127u8,
            0u8,
            0u8,
            1u8,
        ] && !(found.contains(f) && f.v4 is Some && !f.is_loopback),
        all.len() > 0,
{
    let keep = |g: FoundInterface| g.usable();
    let usable = network::usable_interfaces(found);
    lists::lemma_filter_members(found, keep, f);
    assert(usable == found.filter(keep));
    if usable.contains(f) {
        let k = usable.index_of(f);
        assert(network::is_interface(all[k], usable[k]));
    }
    if 0 <= i < all.len() && usable.len() > 0 {
        assert(network::is_interface(all[i], usable[i]));
        let g = usable[i];
        lists::lemma_filter_members(found, keep, g);
        assert(usable.contains(g));
        let k = found.index_of(g);
        assert(found[k] == g);
    }
}

/// Keepalives go to every target, to this host's external address, and to nobody
/// else; to nobody twice who is not named twice.
pub proof fn law_keepalives_reach_everyone(
    targets: Seq<Seq<char>>,
    external: Option<Seq<char>>,
    addr: Seq<char>,
)
    ensures
        network::with_external(targets, external).contains(addr) == (targets.contains(addr)
            || external == Some(addr)),
        targets.no_duplicates() ==> network::with_external(targets, external).no_duplicates(),
{
    if let Some(own) = external {
        lists::lemma_push_contains(targets, own, addr);
    }
}

// ---------- Packets ----------

/// A packet has its size; behind its shard it holds nothing but zeros.
pub proof fn law_packet_ends_in_zeros(
    msg_id: u8,
    len_byte: u8,
    share: Seq<u8>,
    counter: u64,
    shard: Seq<u8>,
    size: int,
    i: int,
)
    requires
        share.len() == 33,
        43 + shard.len() <= size,
        43 + shard.len() <= i < size,
    ensures
        network::frame(msg_id, len_byte, share, counter, shard, size).len() == size,
        network::frame(msg_id, len_byte, share, counter, shard, size)[i] == 0,
{
    bytes::lemma_endian_len(counter as nat, 8);
}

/// A handshake packet has 576 bytes, and a data packet 512 and its jitter.
pub proof fn law_packet_sizes(
    msg_id: u8,
    original_len: usize,
    share: Seq<u8>,
    counter: u64,
    shard: Seq<u8>,
    jitter: int,
)
    requires
        share.len() == 33,
        jitter >= 0,
    ensures
        shard.len() == 480 ==> network::handshake_frame(share, shard).len() == 576,
        shard.len() <= 469 ==> network::data_frame(
            msg_id,
            original_len,
            share,
            counter,
            shard,
            jitter,
        ).len() == 512 + jitter,
{
    bytes::lemma_endian_len(counter as nat, 8);
    bytes::lemma_endian_len(0, 8);
}

/// The shard length that a packet announces is that of the shards of its
/// message: half of the encrypted message, rounded up.
pub proof fn law_announced_length_is_that_of_the_shards(msg_id: u8, cipher: Seq<u8>)
    requires
        msg_id != network::HANDSHAKE_ID,
        cipher.len() >= 16,
    ensures
        erasure::halves(erasure::evened(cipher))[0].len() == network::shard_len_of(
            msg_id,
            cipher.len() - 16,
        ),
        erasure::halves(erasure::evened(cipher))[1].len() == network::shard_len_of(
            msg_id,
            cipher.len() - 16,
        ),
{
}

/// A packet is whole exactly where as many bytes came as its header and the
/// shard that it announces take up.
pub proof fn law_whole_packets(buf: Seq<u8>, len: int)
    requires
        buf.len() >= 43,
    ensures
        network::is_whole(buf, len) == (len >= 43 + if buf[0] == 255 {
            480
        } else {
            (buf[1] as int + 16 + 1) / 2
        }),
{
}

} // verus!

//! What the router promises: whom it holds to be online, where it puts shards,
//! where it fetches them, and when a block can be put together again.

use crate::config::WanPeer;
use crate::lists;
use crate::router;
use crate::router::{LocationModel, RouteEntry, RouteModel};
use vstd::prelude::*;

verus! {

// ---------- Health ----------

/// A peer just marked is online or offline as marked, and no other peer changes.
pub proof fn law_mark_concerns_one_peer(
    health: Map<Seq<char>, bool>,
    marked: Seq<char>,
    online: bool,
    other: Seq<char>,
)
    ensures
        router::is_up(health.insert(marked, online), marked) == online,
        other != marked ==> router::is_up(health.insert(marked, online), other) == router::is_up(
            health,
            other,
        ),
{
}

/// A peer that nothing is known of is not online.
pub proof fn law_unknown_peer_is_offline(health: Map<Seq<char>, bool>, name: Seq<char>)
    requires
        !health.dom().contains(name),
    ensures
        !router::is_up(health, name),
{
}

/// At the start this node is online, unless a peer bears its name, and nobody else is.
pub proof fn law_only_this_node_starts_online(
    nickname: Seq<char>,
    peers: Seq<WanPeer>,
    name: Seq<char>,
)
    ensures
        router::is_up(router::first_health(nickname, peers), name) == (name == nickname && forall|
            i: int,
        |
            0 <= i < peers.len() ==> (#[trigger] peers[i]).nickname@ != nickname),
    decreases peers.len(),
{
    if peers.len() > 0 {
        let fewer = peers.drop_last();
        law_only_this_node_starts_online(nickname, fewer, name);
        if forall|i: int| 0 <= i < fewer.len() ==> (#[trigger] fewer[i]).nickname@ != nickname {
            if peers.last().nickname@ != nickname {
                assert forall|i: int| 0 <= i < peers.len() implies (#[trigger] peers[i]).nickname@
                    != nickname by {
                    if i < fewer.len() {
                        assert(fewer[i].nickname@ != nickname);
                    }
                }
            } else {
                assert(peers[peers.len() - 1].nickname@ == nickname);
            }
        } else {
            let i = choose|i: int|
                0 <= i < fewer.len() && (#[trigger] fewer[i]).nickname@ == nickname;
            assert(peers[i].nickname@ == nickname);
        }
    }
}

/// The peers online are those of the peers whose last mark was online.
pub proof fn law_peers_online(peers: Seq<WanPeer>, health: Map<Seq<char>, bool>, p: WanPeer)
    ensures
        router::up_peers(peers, health).contains(p) == (peers.contains(p)
            && health.dom().contains(p.nickname@) && health[p.nickname@]),
        router::up_peers(peers, health).len() == Set::new(
            |i: int| 0 <= i < peers.len() && router::is_up(health, peers[i].nickname@),
        ).len(),
{
    let keep = |p: WanPeer| router::is_up(health, p.nickname@);
    lists::lemma_filter_members(peers, keep, p);
    lists::lemma_filter_counts(peers, keep);
    assert(Set::new(|i: int| 0 <= i < peers.len() && router::is_up(health, peers[i].nickname@))
        =~= Set::new(|i: int| 0 <= i < peers.len() && keep(peers[i])));
}

// ---------- Placement ----------

/// Shard 0 of a new group stays on this node. Shard `i` behind it goes to the
/// peer number `i - 1` of those online, counted round and round, under that
/// peer's name, address and tag; while no peer is online it stays here too.
pub proof fn law_shards_take_turns(
    nickname: Seq<char>,
    address: Seq<char>,
    online: Seq<WanPeer>,
    total_shards: usize,
    data_shards: usize,
    i: int,
)
    requires
        1 <= data_shards <= total_shards,
        0 <= i < total_shards,
    ensures
        ({
            let l = router::placements(nickname, address, online, total_shards, data_shards)[i];
            if i == 0 || online.len() == 0 {
                l.peer_nickname == nickname && l.peer_addr == address && l.geo_tag == "local"@
            } else {
                let p = online[(i - 1) % online.len() as int];
                l.peer_nickname == p.nickname@ && l.peer_addr == p.address@ && l.geo_tag
                    == p.geo_tag@
            }
        }),
{
}

// ---------- Fetching ----------

/// A plan fetches from this node before it fetches from any peer, and from
/// peers online before it fetches from others.
pub proof fn law_plan_fetches_the_nearest_first(
    locations: Seq<LocationModel>,
    have: Seq<usize>,
    nickname: Seq<char>,
    health: Map<Seq<char>, bool>,
    i: int,
    j: int,
)
    requires
        0 <= i < j < router::by_rank(router::missing(locations, have), nickname, health).len(),
    ensures
        ({
            let plan = router::by_rank(router::missing(locations, have), nickname, health);
            let (a, b) = (plan[i].peer_nickname, plan[j].peer_nickname);
            &&& b == nickname ==> a == nickname
            &&& health.dom().contains(b) && health[b] ==> a == nickname || (health.dom().contains(
                a,
            ) && health[a])
        }),
{
    router::law_plan_is_ordered(locations, have, nickname, health, i, j);
}

proof fn lemma_ranks_add_up(
    locations: Seq<LocationModel>,
    nickname: Seq<char>,
    health: Map<Seq<char>, bool>,
)
    ensures
        router::by_rank(locations, nickname, health).len() == locations.len(),
    decreases locations.len(),
{
    reveal(Seq::filter);
    if locations.len() > 0 {
        lemma_ranks_add_up(locations.drop_last(), nickname, health);
    }
}

/// A plan has one entry for each location whose shard is not at hand.
pub proof fn law_plan_has_no_more_than_is_missing(
    locations: Seq<LocationModel>,
    have: Seq<usize>,
    nickname: Seq<char>,
    health: Map<Seq<char>, bool>,
)
    ensures
        router::by_rank(router::missing(locations, have), nickname, health).len() == Set::new(
            |i: int| 0 <= i < locations.len() && !have.contains(locations[i].shard_index),
        ).len(),
{
    let keep = |l: LocationModel| !have.contains(l.shard_index);
    lemma_ranks_add_up(router::missing(locations, have), nickname, health);
    lists::lemma_filter_counts(locations, keep);
    assert(Set::new(
        |i: int| 0 <= i < locations.len() && !have.contains(locations[i].shard_index),
    ) =~= Set::new(|i: int| 0 <= i < locations.len() && keep(locations[i])));
}

// ---------- Reconstruction ----------

/// The places of a route whose shard can be had: on this node, or on a peer
/// last marked online.
pub open spec fn places_at_hand(
    locations: Seq<LocationModel>,
    nickname: Seq<char>,
    health: Map<Seq<char>, bool>,
) -> Set<int> {
    Set::new(
        |i: int|
            0 <= i < locations.len() && (locations[i].peer_nickname == nickname || (
            health.dom().contains(locations[i].peer_nickname)
                && health[locations[i].peer_nickname])),
    )
}

/// A block can be reconstructed exactly where its group has a route, and as many
/// of its places as it has data shards, or more, are on this node or on peers online.
pub proof fn law_reconstruction_takes_the_data_shards(
    routes: Map<Seq<char>, RouteModel>,
    group_id: Seq<char>,
    nickname: Seq<char>,
    health: Map<Seq<char>, bool>,
)
    ensures
        router::enough_reachable(routes, group_id, nickname, health) == (routes.dom().contains(
            group_id,
        ) && places_at_hand(routes[group_id].locations, nickname, health).len()
            >= routes[group_id].data_shards),
        places_at_hand(routes[group_id].locations, nickname, health).finite(),
{
    let locations = routes[group_id].locations;
    let keep = |l: LocationModel| router::reachable(l, nickname, health);
    lists::lemma_filter_counts(locations, keep);
    assert(places_at_hand(locations, nickname, health) =~= Set::new(
        |i: int| 0 <= i < locations.len() && keep(locations[i]),
    ));
}

/// A peer that goes offline makes no block reconstructible that was not so
/// before, and one that comes online makes none unreconstructible.
pub proof fn law_more_peers_more_blocks(
    routes: Map<Seq<char>, RouteModel>,
    group_id: Seq<char>,
    nickname: Seq<char>,
    health: Map<Seq<char>, bool>,
    peer: Seq<char>,
)
    ensures
        router::enough_reachable(routes, group_id, nickname, health.insert(peer, false))
            ==> router::enough_reachable(routes, group_id, nickname, health),
        router::enough_reachable(routes, group_id, nickname, health) ==> router::enough_reachable(
            routes,
            group_id,
            nickname,
            health.insert(peer, true),
        ),
{
    let locations = routes[group_id].locations;
    let (off, on) = (health.insert(peer, false), health.insert(peer, true));
    law_reconstruction_takes_the_data_shards(routes, group_id, nickname, health);
    law_reconstruction_takes_the_data_shards(routes, group_id, nickname, off);
    law_reconstruction_takes_the_data_shards(routes, group_id, nickname, on);
    vstd::set_lib::lemma_len_subset(
        places_at_hand(locations, nickname, off),
        places_at_hand(locations, nickname, health),
    );
    vstd::set_lib::lemma_len_subset(
        places_at_hand(locations, nickname, health),
        places_at_hand(locations, nickname, on),
    );
}

/// A block with data shards cannot be reconstructed while none of its places is
/// on this node or on a peer online.
pub proof fn law_no_place_at_hand_does_not_suffice(
    routes: Map<Seq<char>, RouteModel>,
    group_id: Seq<char>,
    nickname: Seq<char>,
    health: Map<Seq<char>, bool>,
)
    requires
        forall|i: int|
            0 <= i < routes[group_id].locations.len() ==> {
                let name = (#[trigger] routes[group_id].locations[i]).peer_nickname;
                name != nickname && !(health.dom().contains(name) && health[name])
            },
        routes[group_id].data_shards > 0,
    ensures
        !router::enough_reachable(routes, group_id, nickname, health),
{
    law_reconstruction_takes_the_data_shards(routes, group_id, nickname, health);
    assert(places_at_hand(routes[group_id].locations, nickname, health) =~= Set::<int>::empty());
}

// ---------- Models ----------

/// A route and its places are seen with everything they hold.
pub proof fn law_routes_are_seen_whole(route: RouteEntry, i: int)
    ensures
        route@.group_id == route.group_id@,
        route@.total_shards == route.total_shards,
        route@.data_shards == route.data_shards,
        route@.parity_shards == route.parity_shards,
        route@.created_at_ns == route.created_at_ns,
        route@.locations.len() == route.locations@.len(),
        0 <= i < route.locations@.len() ==> {
            let (m, l) = (route@.locations[i], route.locations@[i]);
            &&& m.peer_addr == l.peer_addr@
            &&& m.peer_nickname == l.peer_nickname@
            &&& m.shard_index == l.shard_index
            &&& m.shard_type == l.shard_type
            &&& m.geo_tag == l.geo_tag@
        },
{
}

} // verus!

//! Where the shards of each group lie: on this node, or on peers over the WAN.

pub mod laws;

use crate::config::WanPeer;
use crate::lists;
use crate::table::Table;
use crate::text;
use vstd::prelude::*;

verus! {

// ---------- Errors ----------

#[derive(Debug)]
pub enum RouterError {
    NoRoute(String),
    PeerNotFound(String),
    NetworkError(String),
    Timeout(String),
}

impl RouterError {
    /// The text of the error.
    pub open spec fn text(&self) -> Seq<char> {
        match *self {
            RouterError::NoRoute(e) => "No routing info for group "@ + e@,
            RouterError::PeerNotFound(e) => "Peer not found: "@ + e@,
            RouterError::NetworkError(e) => "Network error fetching shard: "@ + e@,
            RouterError::Timeout(e) => "Timeout fetching shard from "@ + e@,
        }
    }

    pub fn message(&self) -> (r: String)
        ensures
            r@ == self.text(),
    {
        match self {
            RouterError::NoRoute(e) => text::concat("No routing info for group ", e.as_str()),
            RouterError::PeerNotFound(e) => text::concat("Peer not found: ", e.as_str()),
            RouterError::NetworkError(e) => text::concat(
                "Network error fetching shard: ",
                e.as_str(),
            ),
            RouterError::Timeout(e) => text::concat("Timeout fetching shard from ", e.as_str()),
        }
    }
}

// ---------- Routes ----------

#[derive(Clone, Copy, Debug, PartialEq, Eq, Structural)]
pub enum ShardType {
    Data,
    Parity,
}

/// Describes where a single shard lives.
#[derive(Debug)]
pub struct ShardLocation {
    /// Peer address (ip:port)
    pub peer_addr: String,
    /// Peer nickname for display
    pub peer_nickname: String,
    /// Index of this shard in the RS encoding
    pub shard_index: usize,
    /// Whether this shard is data or parity
    pub shard_type: ShardType,
    /// Geo tag for latency optimization
    pub geo_tag: String,
}

/// WAN routing entry for one group of shards.
#[derive(Debug)]
pub struct RouteEntry {
    pub group_id: String,
    pub total_shards: usize,
    pub data_shards: usize,
    pub parity_shards: usize,
    pub locations: Vec<ShardLocation>,
    pub created_at_ns: u64,
}

/// A location as contracts see it.
#[verifier::ext_equal]
pub struct LocationModel {
    pub peer_addr: Seq<char>,
    pub peer_nickname: Seq<char>,
    pub shard_index: usize,
    pub shard_type: ShardType,
    pub geo_tag: Seq<char>,
}

/// A route as contracts see it.
#[verifier::ext_equal]
pub struct RouteModel {
    pub group_id: Seq<char>,
    pub total_shards: usize,
    pub data_shards: usize,
    pub parity_shards: usize,
    pub locations: Seq<LocationModel>,
    pub created_at_ns: u64,
}

impl View for ShardLocation {
    type V = LocationModel;

    open spec fn view(&self) -> LocationModel {
        LocationModel {
            peer_addr: self.peer_addr@,
            peer_nickname: self.peer_nickname@,
            shard_index: self.shard_index,
            shard_type: self.shard_type,
            geo_tag: self.geo_tag@,
        }
    }
}

/// The models of locations.
pub open spec fn location_models(v: Seq<ShardLocation>) -> Seq<LocationModel> {
    Seq::new(v.len(), |i: int| v[i]@)
}

impl View for RouteEntry {
    type V = RouteModel;

    open spec fn view(&self) -> RouteModel {
        RouteModel {
            group_id: self.group_id@,
            total_shards: self.total_shards,
            data_shards: self.data_shards,
            parity_shards: self.parity_shards,
            locations: location_models(self.locations@),
            created_at_ns: self.created_at_ns,
        }
    }
}

impl Clone for ShardLocation {
    fn clone(&self) -> (r: Self)
        ensures
            r@ == self@,
    {
        ShardLocation {
            peer_addr: self.peer_addr.clone(),
            peer_nickname: self.peer_nickname.clone(),
            shard_index: self.shard_index,
            shard_type: self.shard_type,
            geo_tag: self.geo_tag.clone(),
        }
    }
}

impl Clone for RouteEntry {
    fn clone(&self) -> (r: Self)
        ensures
            r@ == self@,
    {
        let mut locations: Vec<ShardLocation> = Vec::new();
        let mut i: usize = 0;
        while i < self.locations.len()
            invariant
                i <= self.locations@.len(),
                location_models(locations@) == location_models(self.locations@).take(i as int),
            decreases self.locations@.len() - i,
        {
            let ghost before = location_models(locations@);
            locations.push(self.locations[i].clone());
            i += 1;
            proof {
                assert(location_models(locations@) =~= before.push(self.locations@[i - 1]@));
                assert(location_models(locations@) =~= location_models(self.locations@).take(
                    i as int,
                ));
            }
        }
        assert(location_models(locations@) =~= location_models(self.locations@));
        RouteEntry {
            group_id: self.group_id.clone(),
            total_shards: self.total_shards,
            data_shards: self.data_shards,
            parity_shards: self.parity_shards,
            locations,
            created_at_ns: self.created_at_ns,
        }
    }
}

// ---------- Placement ----------

/// Whether the peer `name` is known to be online.
pub open spec fn is_up(health: Map<Seq<char>, bool>, name: Seq<char>) -> bool {
    health.dom().contains(name) && health[name]
}

/// The peers that are known to be online, in their order.
pub open spec fn up_peers(peers: Seq<WanPeer>, health: Map<Seq<char>, bool>) -> Seq<WanPeer> {
    peers.filter(|p: WanPeer| is_up(health, p.nickname@))
}

/// Where shard `index` goes in turn number `turn`: the peers online take turns;
/// without any it stays on this node.
pub open spec fn spot(
    nickname: Seq<char>,
    address: Seq<char>,
    online: Seq<WanPeer>,
    index: usize,
    shard_type: ShardType,
    turn: int,
) -> LocationModel {
    if online.len() == 0 {
        LocationModel {
            peer_addr: address,
            peer_nickname: nickname,
            shard_index: index,
            shard_type,
            geo_tag: "local"@,
        }
    } else {
        let p = online[turn % (online.len() as int)];
        LocationModel {
            peer_addr: p.address@,
            peer_nickname: p.nickname@,
            shard_index: index,
            shard_type,
            geo_tag: p.geo_tag@,
        }
    }
}

/// `a - b`, but not below zero.
pub open spec fn excess(a: usize, b: usize) -> nat {
    if a > b {
        (a - b) as nat
    } else {
        0
    }
}

/// Where the shards of a new group go: shard 0 stays on this node; the other
/// data shards, and then the parity shards, go to the peers online in turn, in
/// the order in which they are configured. Geo tags are recorded but not looked
/// at: a node has none of its own to measure the distance from.
pub open spec fn placements(
    nickname: Seq<char>,
    address: Seq<char>,
    online: Seq<WanPeer>,
    total_shards: usize,
    data_shards: usize,
) -> Seq<LocationModel> {
    seq![spot(nickname, address, Seq::empty(), 0, ShardType::Data, 0)] + Seq::new(
        excess(data_shards, 1),
        |j: int| spot(nickname, address, online, (j + 1) as usize, ShardType::Data, j),
    ) + Seq::new(
        excess(total_shards, data_shards),
        |j: int|
            spot(
                nickname,
                address,
                online,
                (data_shards + j) as usize,
                ShardType::Parity,
                excess(data_shards, 1) + j,
            ),
    )
}

/// How soon a shard at `l` is fetched: first from this node, then from peers
/// online, then from the others.
pub open spec fn rank(l: LocationModel, nickname: Seq<char>, health: Map<Seq<char>, bool>) -> int {
    if l.peer_nickname == nickname {
        2
    } else if is_up(health, l.peer_nickname) {
        1
    } else {
        0
    }
}

/// Whether the shard at `l` can be had.
pub open spec fn reachable(
    l: LocationModel,
    nickname: Seq<char>,
    health: Map<Seq<char>, bool>,
) -> bool {
    l.peer_nickname == nickname || is_up(health, l.peer_nickname)
}

/// The locations of the shards that are not at hand, in their order.
pub open spec fn missing(locations: Seq<LocationModel>, have: Seq<usize>) -> Seq<LocationModel> {
    locations.filter(|l: LocationModel| !have.contains(l.shard_index))
}

/// Those of `locations` that have the rank `wanted`, in their order.
pub open spec fn of_rank(
    locations: Seq<LocationModel>,
    nickname: Seq<char>,
    health: Map<Seq<char>, bool>,
    wanted: int,
) -> Seq<LocationModel> {
    locations.filter(|l: LocationModel| rank(l, nickname, health) == wanted)
}

/// `locations` in the order in which shards are fetched.
pub open spec fn by_rank(
    locations: Seq<LocationModel>,
    nickname: Seq<char>,
    health: Map<Seq<char>, bool>,
) -> Seq<LocationModel> {
    of_rank(locations, nickname, health, 2) + of_rank(locations, nickname, health, 1) + of_rank(
        locations,
        nickname,
        health,
        0,
    )
}

/// What is known of the peers at the start: this node is online, its peers are not.
pub open spec fn first_health(nickname: Seq<char>, peers: Seq<WanPeer>) -> Map<Seq<char>, bool>
    decreases peers.len(),
{
    if peers.len() == 0 {
        Map::empty().insert(nickname, true)
    } else {
        first_health(nickname, peers.drop_last()).insert(peers.last().nickname@, false)
    }
}

// ---------- The router ----------

/// The WAN shard router.
pub struct WanRouter {
    /// Routing table: group_id → RouteEntry
    pub routes: Table<RouteEntry>,
    /// Our own peer info (for local shards)
    pub our_nickname: String,
    pub our_address: String,
    pub our_public_key: String,
    /// Known WAN peers
    pub wan_peers: Vec<WanPeer>,
    /// Which peers are online, by nickname
    pub peer_health: Table<bool>,
}

fn has_index(have: &[usize], index: usize) -> (r: bool)
    ensures
        r == have@.contains(index),
{
    let mut i: usize = 0;
    while i < have.len()
        invariant
            i <= have@.len(),
            forall|j: int| 0 <= j < i ==> have@[j] != index,
        decreases have@.len() - i,
    {
        if have[i] == index {
            return true;
        }
        i += 1;
    }
    false
}

impl WanRouter {
    /// Whether the tables are consistent.
    pub open spec fn wf(&self) -> bool {
        self.routes.wf() && self.peer_health.wf()
    }

    /// The route of each group.
    pub open spec fn route_models(&self) -> Map<Seq<char>, RouteModel> {
        self.routes@.map_values(|e: RouteEntry| e@)
    }

    /// Whether everything but the routes is as in `other`.
    pub open spec fn same_peers(&self, other: WanRouter) -> bool {
        &&& self.our_nickname == other.our_nickname
        &&& self.our_address == other.our_address
        &&& self.our_public_key == other.our_public_key
        &&& self.wan_peers == other.wan_peers
        &&& self.peer_health == other.peer_health
    }

    /// Whether everything but what is known of the peers' health is as in `other`.
    pub open spec fn same_routes(&self, other: WanRouter) -> bool {
        &&& self.our_nickname == other.our_nickname
        &&& self.our_address == other.our_address
        &&& self.our_public_key == other.our_public_key
        &&& self.wan_peers == other.wan_peers
        &&& self.routes == other.routes
    }

    pub fn new(
        our_nickname: String,
        our_address: String,
        our_public_key: String,
        wan_peers: Vec<WanPeer>,
    ) -> (r: Self)
        ensures
            r.wf(),
            r.route_models() == Map::<Seq<char>, RouteModel>::empty(),
            r.our_nickname == our_nickname,
            r.our_address == our_address,
            r.our_public_key == our_public_key,
            r.wan_peers == wan_peers,
            r.peer_health@ == first_health(our_nickname@, wan_peers@),
    {
        let mut peer_health: Table<bool> = Table::new();
        peer_health.insert(our_nickname.clone(), true);
        let mut i: usize = 0;
        assert(peer_health@ == first_health(our_nickname@, wan_peers@.take(0)));
        while i < wan_peers.len()
            invariant
                i <= wan_peers@.len(),
                peer_health.wf(),
                peer_health@ == first_health(our_nickname@, wan_peers@.take(i as int)),
            decreases wan_peers@.len() - i,
        {
            assert(wan_peers@.take(i + 1).drop_last() =~= wan_peers@.take(i as int));
            peer_health.insert(wan_peers[i].nickname.clone(), false);
            i += 1;
        }
        assert(wan_peers@.take(i as int) =~= wan_peers@);
        let r = WanRouter {
            routes: Table::new(),
            our_nickname,
            our_address,
            our_public_key,
            wan_peers,
            peer_health,
        };
        assert(r.route_models() =~= Map::<Seq<char>, RouteModel>::empty());
        r
    }

    /// Register a peer as online (called by heartbeat/keepalive).
    pub fn mark_online(&mut self, nickname: &str)
        requires
            old(self).wf(),
        ensures
            final(self).wf(),
            final(self).peer_health@ == old(self).peer_health@.insert(nickname@, true),
            final(self).same_routes(*old(self)),
    {
        self.peer_health.insert(nickname.to_owned(), true);
    }

    /// Mark a peer as offline.
    pub fn mark_offline(&mut self, nickname: &str)
        requires
            old(self).wf(),
        ensures
            final(self).wf(),
            final(self).peer_health@ == old(self).peer_health@.insert(nickname@, false),
            final(self).same_routes(*old(self)),
    {
        self.peer_health.insert(nickname.to_owned(), false);
    }

    /// Check if a peer is online.
    pub fn is_online(&self, nickname: &str) -> (r: bool)
        requires
            self.wf(),
        ensures
            r == is_up(self.peer_health@, nickname@),
            r ==> self.peer_health@.dom().contains(nickname@) && self.peer_health@[nickname@],
            !r ==> !(self.peer_health@.dom().contains(nickname@) && self.peer_health@[nickname@]),
    {
        match self.peer_health.get(nickname) {
            Some(up) => *up,
            None => false,
        }
    }

    /// Get all WAN peers.
    pub fn get_wan_peers(&self) -> (r: Vec<WanPeer>)
        ensures
            r@ == self.wan_peers@,
    {
        let mut out: Vec<WanPeer> = Vec::new();
        let mut i: usize = 0;
        while i < self.wan_peers.len()
            invariant
                i <= self.wan_peers@.len(),
                out@ == self.wan_peers@.take(i as int),
            decreases self.wan_peers@.len() - i,
        {
            out.push(self.wan_peers[i].clone());
            i += 1;
        }
        assert(out@ =~= self.wan_peers@);
        out
    }

    /// Update the WAN peer list.
    pub fn update_wan_peers(&mut self, peers: Vec<WanPeer>)
        ensures
            *final(self) == (WanRouter { wan_peers: peers, ..*old(self) }),
    {
        self.wan_peers = peers;
    }

    fn online_peers(&self) -> (r: Vec<WanPeer>)
        requires
            self.wf(),
        ensures
            r@ == up_peers(self.wan_peers@, self.peer_health@),
    {
        let ghost all = self.wan_peers@;
        let ghost keep = |p: WanPeer| is_up(self.peer_health@, p.nickname@);
        let mut out: Vec<WanPeer> = Vec::new();
        let mut i: usize = 0;
        proof {
            lists::lemma_filter_ends(all, keep);
        }
        while i < self.wan_peers.len()
            invariant
                self.wf(),
                all == self.wan_peers@,
                keep == (|p: WanPeer| is_up(self.peer_health@, p.nickname@)),
                i <= all.len(),
                out@ == all.take(i as int).filter(keep),
            decreases all.len() - i,
        {
            proof {
                lists::lemma_filter_step(all, keep, i as int);
            }
            if self.is_online(self.wan_peers[i].nickname.as_str()) {
                out.push(self.wan_peers[i].clone());
            }
            i += 1;
        }
        proof {
            lists::lemma_filter_ends(all, keep);
        }
        out
    }

    fn choose_spot(
        &self,
        online: &Vec<WanPeer>,
        index: usize,
        shard_type: ShardType,
        turn: usize,
    ) -> (r: ShardLocation)
        ensures
            r@ == spot(
                self.our_nickname@,
                self.our_address@,
                online@,
                index,
                shard_type,
                turn as int,
            ),
    {
        if online.len() == 0 {
            ShardLocation {
                peer_addr: self.our_address.clone(),
                peer_nickname: self.our_nickname.clone(),
                shard_index: index,
                shard_type,
                geo_tag: "local".to_owned(),
            }
        } else {
            let p = &online[turn % online.len()];
            ShardLocation {
                peer_addr: p.address.clone(),
                peer_nickname: p.nickname.clone(),
                shard_index: index,
                shard_type,
                geo_tag: p.geo_tag.clone(),
            }
        }
    }

    /// Compute shard placement for a new file block, and keep it as the
    /// group's route. The peers online take turns in the order in which they are
    /// configured; their geo tags are not looked at.
    pub fn compute_route(
        &mut self,
        group_id: &str,
        total_shards: usize,
        data_shards: usize,
        parity_shards: usize,
        now_ns: u64,
    ) -> (r: RouteEntry)
        requires
            old(self).wf(),
        ensures
            final(self).wf(),
            final(self).same_peers(*old(self)),
            r@ == (RouteModel {
                group_id: group_id@,
                total_shards,
                data_shards,
                parity_shards,
                locations: placements(
                    old(self).our_nickname@,
                    old(self).our_address@,
                    up_peers(old(self).wan_peers@, old(self).peer_health@),
                    total_shards,
                    data_shards,
                ),
                created_at_ns: now_ns,
            }),
            final(self).route_models() == old(self).route_models().insert(group_id@, r@),
    {
        let online = self.online_peers();
        let nobody: Vec<WanPeer> = Vec::new();
        let mut locations: Vec<ShardLocation> = Vec::new();
        let ghost nick = self.our_nickname@;
        let ghost addr = self.our_address@;
        let ghost first = spot(nick, addr, Seq::empty(), 0, ShardType::Data, 0);
        let ghost data_spot = |j: int|
            spot(nick, addr, online@, (j + 1) as usize, ShardType::Data, j);
        let ghost parity_spot = |j: int|
            spot(
                nick,
                addr,
                online@,
                (data_shards + j) as usize,
                ShardType::Parity,
                excess(data_shards, 1) + j,
            );
        assert(nobody@ =~= Seq::<WanPeer>::empty());
        locations.push(self.choose_spot(&nobody, 0, ShardType::Data, 0));
        proof {
            assert(location_models(locations@) =~= seq![first] + Seq::new(0, data_spot));
        }
        let mut i: usize = 1;
        while i < data_shards
            invariant
                1 <= i,
                i <= data_shards || i == 1,
                nick == self.our_nickname@,
                addr == self.our_address@,
                data_spot == (|j: int|
                    spot(nick, addr, online@, (j + 1) as usize, ShardType::Data, j)),
                location_models(locations@) == seq![first] + Seq::new((i - 1) as nat, data_spot),
            decreases data_shards - i,
        {
            let ghost before = location_models(locations@);
            locations.push(self.choose_spot(&online, i, ShardType::Data, i - 1));
            proof {
                assert(location_models(locations@) =~= before.push(data_spot(i - 1)));
                assert(location_models(locations@) =~= seq![first] + Seq::new(
                    i as nat,
                    data_spot,
                ));
            }
            i += 1;
        }
        let ghost head = location_models(locations@);
        assert(head == seq![first] + Seq::new(excess(data_shards, 1), data_spot));
        assert(head =~= head + Seq::new(0, parity_spot));
        let taken: usize = data_shards.saturating_sub(1);
        let mut k: usize = data_shards;
        while k < total_shards
            invariant
                data_shards <= k,
                k <= total_shards || k == data_shards,
                nick == self.our_nickname@,
                addr == self.our_address@,
                taken == excess(data_shards, 1),
                taken <= data_shards,
                parity_spot == (|j: int|
                    spot(
                        nick,
                        addr,
                        online@,
                        (data_shards + j) as usize,
                        ShardType::Parity,
                        excess(data_shards, 1) + j,
                    )),
                location_models(locations@) == head + Seq::new(
                    (k - data_shards) as nat,
                    parity_spot,
                ),
            decreases total_shards - k,
        {
            let ghost before = location_models(locations@);
            locations.push(self.choose_spot(&online, k, ShardType::Parity, taken + (k - data_shards)));
            proof {
                assert(location_models(locations@) =~= before.push(parity_spot(k - data_shards)));
                assert(location_models(locations@) =~= head + Seq::new(
                    (k + 1 - data_shards) as nat,
                    parity_spot,
                ));
            }
            k += 1;
        }
        let entry = RouteEntry {
            group_id: group_id.to_owned(),
            total_shards,
            data_shards,
            parity_shards,
            locations,
            created_at_ns: now_ns,
        };
        let ghost models = self.route_models();
        self.routes.insert(group_id.to_owned(), entry.clone());
        assert(self.route_models() =~= models.insert(group_id@, entry@));
        entry
    }

    /// Get route for an existing group_id.
    pub fn get_route(&self, group_id: &str) -> (r: Option<RouteEntry>)
        requires
            self.wf(),
        ensures
            match r {
                Some(entry) => self.route_models().dom().contains(group_id@)
                    && self.route_models()[group_id@] == entry@,
                None => !self.route_models().dom().contains(group_id@),
            },
    {
        match self.routes.get(group_id) {
            Some(entry) => Some(entry.clone()),
            None => None,
        }
    }

    fn rank_of(&self, l: &ShardLocation) -> (r: u8)
        requires
            self.wf(),
        ensures
            r == rank(l@, self.our_nickname@, self.peer_health@),
    {
        if text::same(l.peer_nickname.as_str(), self.our_nickname.as_str()) {
            2
        } else if self.is_online(l.peer_nickname.as_str()) {
            1
        } else {
            0
        }
    }

    /// Appends those of `from` that have the rank `wanted` to `out`.
    fn take_rank(&self, from: &Vec<ShardLocation>, wanted: u8, out: &mut Vec<ShardLocation>)
        requires
            self.wf(),
        ensures
            location_models(final(out)@) == location_models(old(out)@) + of_rank(
                location_models(from@),
                self.our_nickname@,
                self.peer_health@,
                wanted as int,
            ),
    {
        let ghost all = location_models(from@);
        let ghost keep = |l: LocationModel|
            rank(l, self.our_nickname@, self.peer_health@) == wanted as int;
        let ghost start = location_models(out@);
        let mut i: usize = 0;
        proof {
            lists::lemma_filter_ends(all, keep);
            assert(start + all.take(0).filter(keep) =~= start);
        }
        while i < from.len()
            invariant
                self.wf(),
                all == location_models(from@),
                keep == (|l: LocationModel|
                    rank(l, self.our_nickname@, self.peer_health@) == wanted as int),
                i <= from@.len(),
                location_models(out@) == start + all.take(i as int).filter(keep),
            decreases from@.len() - i,
        {
            proof {
                lists::lemma_filter_step(all, keep, i as int);
            }
            let ghost before = location_models(out@);
            if self.rank_of(&from[i]) == wanted {
                out.push(from[i].clone());
                assert(location_models(out@) =~= before.push(all[i as int]));
            }
            i += 1;
            assert(location_models(out@) =~= start + all.take(i as int).filter(keep));
        }
        proof {
            lists::lemma_filter_ends(all, keep);
        }
    }

    /// Where to fetch the shards that are not at hand: from this node first,
    /// then from peers online, then from the others.
    pub fn get_reconstruction_plan(&self, group_id: &str, have_indices: &[usize]) -> (r: Result<
        Vec<ShardLocation>,
        RouterError,
    >)
        requires
            self.wf(),
        ensures
            if self.route_models().dom().contains(group_id@) {
                r matches Ok(plan) && location_models(plan@) == by_rank(
                    missing(self.route_models()[group_id@].locations, have_indices@),
                    self.our_nickname@,
                    self.peer_health@,
                )
            } else {
                r matches Err(RouterError::NoRoute(gid)) && gid@ == group_id@
            },
    {
        let entry = match self.routes.get(group_id) {
            Some(entry) => entry,
            None => return Err(RouterError::NoRoute(group_id.to_owned())),
        };
        let ghost all = location_models(entry.locations@);
        let ghost keep = |l: LocationModel| !have_indices@.contains(l.shard_index);
        let mut needed: Vec<ShardLocation> = Vec::new();
        let mut i: usize = 0;
        proof {
            lists::lemma_filter_ends(all, keep);
            assert(location_models(needed@) =~= Seq::<LocationModel>::empty());
        }
        while i < entry.locations.len()
            invariant
                all == location_models(entry.locations@),
                keep == (|l: LocationModel| !have_indices@.contains(l.shard_index)),
                i <= all.len(),
                location_models(needed@) == all.take(i as int).filter(keep),
            decreases all.len() - i,
        {
            proof {
                lists::lemma_filter_step(all, keep, i as int);
            }
            let ghost before = location_models(needed@);
            if !has_index(have_indices, entry.locations[i].shard_index) {
                needed.push(entry.locations[i].clone());
                assert(location_models(needed@) =~= before.push(all[i as int]));
            }
            i += 1;
        }
        proof {
            lists::lemma_filter_ends(all, keep);
        }
        let mut plan: Vec<ShardLocation> = Vec::new();
        assert(location_models(plan@) =~= Seq::<LocationModel>::empty());
        self.take_rank(&needed, 2, &mut plan);
        self.take_rank(&needed, 1, &mut plan);
        self.take_rank(&needed, 0, &mut plan);
        assert(location_models(plan@) =~= by_rank(
            missing(all, have_indices@),
            self.our_nickname@,
            self.peer_health@,
        ));
        Ok(plan)
    }

    /// Update routing table with a route discovered from a peer.
    pub fn import_route(&mut self, entry: RouteEntry)
        requires
            old(self).wf(),
        ensures
            final(self).wf(),
            final(self).same_peers(*old(self)),
            final(self).route_models() == old(self).route_models().insert(
                entry.group_id@,
                entry@,
            ),
    {
        let ghost models = self.route_models();
        let ghost model = entry@;
        let gid = entry.group_id.clone();
        self.routes.insert(gid, entry);
        assert(self.route_models() =~= models.insert(model.group_id, model));
    }

    /// Remove a route (when a file is deleted).
    pub fn remove_route(&mut self, group_id: &str)
        requires
            old(self).wf(),
        ensures
            final(self).wf(),
            final(self).same_peers(*old(self)),
            final(self).route_models() == old(self).route_models().remove(group_id@),
    {
        let ghost models = self.route_models();
        self.routes.remove(group_id);
        assert(self.route_models() =~= models.remove(group_id@));
    }

    /// Get all route group IDs.
    pub fn all_group_ids(&self) -> (r: Vec<String>)
        requires
            self.wf(),
        ensures
            text::texts(r@).no_duplicates(),
            text::texts(r@).to_set() == self.route_models().dom(),
    {
        proof {
            self.routes.lemma_order();
            assert(self.route_models().dom() =~= self.routes@.dom());
        }
        self.routes.keys()
    }

    /// Get route count.
    pub fn route_count(&self) -> (r: usize)
        requires
            self.wf(),
        ensures
            r == self.route_models().dom().len(),
    {
        assert(self.route_models().dom() =~= self.routes@.dom());
        self.routes.len()
    }

    /// Check if we have enough shards available to reconstruct a file block.
    pub fn can_reconstruct(&self, group_id: &str) -> (r: bool)
        requires
            self.wf(),
        ensures
            r == enough_reachable(
                self.route_models(),
                group_id@,
                self.our_nickname@,
                self.peer_health@,
            ),
            r == (self.route_models().dom().contains(group_id@) && laws::places_at_hand(
                self.route_models()[group_id@].locations,
                self.our_nickname@,
                self.peer_health@,
            ).len() >= self.route_models()[group_id@].data_shards),
    {
        proof {
            laws::law_reconstruction_takes_the_data_shards(
                self.route_models(),
                group_id@,
                self.our_nickname@,
                self.peer_health@,
            );
        }
        let entry = match self.routes.get(group_id) {
            Some(entry) => entry,
            None => return false,
        };
        let ghost all = location_models(entry.locations@);
        let ghost keep = |l: LocationModel|
            reachable(l, self.our_nickname@, self.peer_health@);
        let mut count: usize = 0;
        let mut i: usize = 0;
        proof {
            lists::lemma_filter_ends(all, keep);
        }
        while i < entry.locations.len()
            invariant
                self.wf(),
                all == location_models(entry.locations@),
                keep == (|l: LocationModel|
                    reachable(l, self.our_nickname@, self.peer_health@)),
                i <= all.len(),
                count <= i,
                count == all.take(i as int).filter(keep).len(),
            decreases all.len() - i,
        {
            proof {
                lists::lemma_filter_step(all, keep, i as int);
            }
            if self.rank_of(&entry.locations[i]) > 0 {
                count += 1;
            }
            i += 1;
        }
        proof {
            lists::lemma_filter_ends(all, keep);
        }
        count >= entry.data_shards
    }

    /// Fetches a shard from a peer. There is no transport to peers yet: it
    /// always fails, and shards come from the local vault alone.
    pub fn fetch_shard_from_peer(
        &self,
        _group_id: &str,
        _shard_index: usize,
        _peer_addr: &str,
    ) -> (r: Result<Vec<u8>, RouterError>)
        ensures
            r matches Err(RouterError::NetworkError(reason)) && reason@
                == "Not yet implemented — connect to WAN peer first"@,
    {
        Err(
            RouterError::NetworkError(
                "Not yet implemented — connect to WAN peer first".to_owned(),
            ),
        )
    }

    /// Pushes a shard to a peer. There is no transport to peers yet: nothing is
    /// sent, and that is no failure.
    pub fn push_shard_to_peer(
        &self,
        _group_id: &str,
        _shard_index: usize,
        _data: &[u8],
        _peer_addr: &str,
    ) -> (r: Result<(), RouterError>)
        ensures
            r is Ok,
    {
        Ok(())
    }
}

/// Whether the group has a route with at least as many reachable shards as it
/// has data shards.
pub open spec fn enough_reachable(
    routes: Map<Seq<char>, RouteModel>,
    group_id: Seq<char>,
    nickname: Seq<char>,
    health: Map<Seq<char>, bool>,
) -> bool {
    routes.dom().contains(group_id) && routes[group_id].locations.filter(
        |l: LocationModel| reachable(l, nickname, health),
    ).len() >= routes[group_id].data_shards
}

// ---------- Laws ----------

proof fn lemma_filter_keeps_all(
    all: Seq<LocationModel>,
    keep: spec_fn(LocationModel) -> bool,
)
    requires
        forall|i: int| 0 <= i < all.len() ==> keep(#[trigger] all[i]),
    ensures
        all.filter(keep) == all,
    decreases all.len(),
{
    reveal(Seq::filter);
    if all.len() > 0 {
        let rest = all.drop_last();
        assert forall|i: int| 0 <= i < rest.len() implies keep(#[trigger] rest[i]) by {
            assert(rest[i] == all[i]);
        }
        lemma_filter_keeps_all(rest, keep);
        assert(keep(all[all.len() - 1]));
        assert(all =~= rest.push(all.last()));
    }
}

proof fn lemma_up_peers_are_up(peers: Seq<WanPeer>, health: Map<Seq<char>, bool>, i: int)
    requires
        0 <= i < up_peers(peers, health).len(),
    ensures
        is_up(health, up_peers(peers, health)[i].nickname@),
{
    let keep = |p: WanPeer| is_up(health, p.nickname@);
    let p = up_peers(peers, health)[i];
    lists::lemma_filter_members(peers, keep, p);
    assert(peers.filter(keep).contains(p));
}

/// Every shard of a route just computed is reachable, so the block can be
/// reconstructed.
pub proof fn law_fresh_route_is_reachable(
    routes: Map<Seq<char>, RouteModel>,
    group_id: Seq<char>,
    nickname: Seq<char>,
    address: Seq<char>,
    peers: Seq<WanPeer>,
    health: Map<Seq<char>, bool>,
    route: RouteModel,
)
    requires
        route.locations == placements(
            nickname,
            address,
            up_peers(peers, health),
            route.total_shards,
            route.data_shards,
        ),
    ensures
        forall|i: int|
            0 <= i < route.locations.len() ==> reachable(
                #[trigger] route.locations[i],
                nickname,
                health,
            ),
        enough_reachable(routes.insert(group_id, route), group_id, nickname, health),
{
    let online = up_peers(peers, health);
    let all = route.locations;
    assert forall|i: int| 0 <= i < all.len() implies reachable(
        #[trigger] all[i],
        nickname,
        health,
    ) by {
        if i > 0 && online.len() > 0 {
            lemma_up_peers_are_up(peers, health, (i - 1) % (online.len() as int));
        }
    }
    lemma_filter_keeps_all(all, |l: LocationModel| reachable(l, nickname, health));
}

/// The first shard of a route just computed stays on this node, and the shards
/// number as many as there are, in order and data before parity.
pub proof fn law_placement_covers_every_shard(
    nickname: Seq<char>,
    address: Seq<char>,
    online: Seq<WanPeer>,
    total_shards: usize,
    data_shards: usize,
)
    requires
        1 <= data_shards <= total_shards,
    ensures
        ({
            let all = placements(nickname, address, online, total_shards, data_shards);
            &&& all.len() == total_shards
            &&& all[0].peer_nickname == nickname
            &&& all[0].peer_addr == address
            &&& forall|i: int|
                0 <= i < total_shards ==> (#[trigger] all[i]).shard_index == i && (
                all[i].shard_type == ShardType::Data <==> i < data_shards)
        }),
{
}

/// Two shards of a group that stand fewer places apart than there are peers
/// online go to different peers, and none of them to this node's shard 0. So
/// where the peers online are one fewer than the shards, or more, each shard of
/// the group has a place of its own.
pub proof fn law_shards_go_to_distinct_peers(
    nickname: Seq<char>,
    address: Seq<char>,
    online: Seq<WanPeer>,
    total_shards: usize,
    data_shards: usize,
    i: int,
    j: int,
)
    requires
        1 <= data_shards <= total_shards,
        0 <= i < j < total_shards,
        online.len() > 0,
        i > 0 ==> j - i < online.len(),
        forall|a: int, b: int|
            0 <= a < b < online.len() ==> (#[trigger] online[a]).nickname@ != (
            #[trigger] online[b]).nickname@,
        forall|a: int| 0 <= a < online.len() ==> (#[trigger] online[a]).nickname@ != nickname,
    ensures
        ({
            let all = placements(nickname, address, online, total_shards, data_shards);
            all[i].peer_nickname != all[j].peer_nickname
        }),
{
    let n = online.len() as int;
    let all = placements(nickname, address, online, total_shards, data_shards);
    let b = (j - 1) % n;
    vstd::arithmetic::div_mod::lemma_fundamental_div_mod(j - 1, n);
    vstd::arithmetic::div_mod::lemma_mod_bound(j - 1, n);
    assert(all[j].peer_nickname == online[b].nickname@);
    if i > 0 {
        let a = (i - 1) % n;
        vstd::arithmetic::div_mod::lemma_fundamental_div_mod(i - 1, n);
        vstd::arithmetic::div_mod::lemma_mod_bound(i - 1, n);
        assert(all[i].peer_nickname == online[a].nickname@);
        let (p, q) = ((i - 1) / n, (j - 1) / n);
        if a == b {
            assert(j - i == n * q - n * p);
            assert(false) by (nonlinear_arith)
                requires
                    n > 0,
                    0 < n * q - n * p < n,
            ;
        }
        assert(online[a].nickname@ != online[b].nickname@);
    } else {
        assert(all[0].peer_nickname == nickname);
    }
}

/// A plan lists the locations of exactly the shards that are not at hand.
pub proof fn law_plan_lists_what_is_missing(
    locations: Seq<LocationModel>,
    have: Seq<usize>,
    nickname: Seq<char>,
    health: Map<Seq<char>, bool>,
    l: LocationModel,
)
    ensures
        by_rank(missing(locations, have), nickname, health).contains(l) == (locations.contains(l)
            && !have.contains(l.shard_index)),
{
    let needed = missing(locations, have);
    let plan = by_rank(needed, nickname, health);
    let a = of_rank(needed, nickname, health, 2);
    let b = of_rank(needed, nickname, health, 1);
    let c = of_rank(needed, nickname, health, 0);
    lists::lemma_filter_members(locations, |l: LocationModel| !have.contains(l.shard_index), l);
    lists::lemma_filter_members(needed, |l: LocationModel| rank(l, nickname, health) == 2, l);
    lists::lemma_filter_members(needed, |l: LocationModel| rank(l, nickname, health) == 1, l);
    lists::lemma_filter_members(needed, |l: LocationModel| rank(l, nickname, health) == 0, l);
    assert(plan.contains(l) == (a.contains(l) || b.contains(l) || c.contains(l))) by {
        if plan.contains(l) {
            let i = choose|i: int| 0 <= i < plan.len() && plan[i] == l;
            if i < a.len() {
                assert(a[i] == l);
            } else if i < a.len() + b.len() {
                assert(b[i - a.len()] == l);
            } else {
                assert(c[i - a.len() - b.len()] == l);
            }
        }
        if a.contains(l) {
            let i = choose|i: int| 0 <= i < a.len() && a[i] == l;
            assert(plan[i] == l);
        }
        if b.contains(l) {
            let i = choose|i: int| 0 <= i < b.len() && b[i] == l;
            assert(plan[a.len() + i] == l);
        }
        if c.contains(l) {
            let i = choose|i: int| 0 <= i < c.len() && c[i] == l;
            assert(plan[a.len() + b.len() + i] == l);
        }
    }
}

/// A plan names this node before peers online, and those before the others.
pub proof fn law_plan_is_ordered(
    locations: Seq<LocationModel>,
    have: Seq<usize>,
    nickname: Seq<char>,
    health: Map<Seq<char>, bool>,
    i: int,
    j: int,
)
    requires
        0 <= i < j < by_rank(missing(locations, have), nickname, health).len(),
    ensures
        ({
            let plan = by_rank(missing(locations, have), nickname, health);
            rank(plan[i], nickname, health) >= rank(plan[j], nickname, health)
        }),
{
    let needed = missing(locations, have);
    let plan = by_rank(needed, nickname, health);
    let a = of_rank(needed, nickname, health, 2);
    let b = of_rank(needed, nickname, health, 1);
    let c = of_rank(needed, nickname, health, 0);
    assert forall|k: int| 0 <= k < plan.len() implies rank(#[trigger] plan[k], nickname, health)
        == if k < a.len() {
        2int
    } else if k < a.len() + b.len() {
        1
    } else {
        0
    } by {
        let l = plan[k];
        if k < a.len() {
            assert(a.contains(a[k]));
            lists::lemma_filter_members(
                needed,
                |l: LocationModel| rank(l, nickname, health) == 2,
                l,
            );
        } else if k < a.len() + b.len() {
            assert(b.contains(b[k - a.len()]));
            lists::lemma_filter_members(
                needed,
                |l: LocationModel| rank(l, nickname, health) == 1,
                l,
            );
        } else {
            assert(c.contains(c[k - a.len() - b.len()]));
            lists::lemma_filter_members(
                needed,
                |l: LocationModel| rank(l, nickname, health) == 0,
                l,
            );
        }
    }
    assert(rank(plan[i], nickname, health) >= rank(plan[j], nickname, health));
}

} // verus!

//! The WebDAV file service: how requests are dispatched and answered, and how
//! files go in and out of the vault.

pub mod answers;
pub mod blocks;
pub mod laws;

use crate::bytes;
use crate::config::WanPeer;
use crate::crypto::aead;
use crate::crypto::erasure;
use crate::crypto::hash;
use crate::crypto::hash::blake3_hash;
use crate::crypto::CryptoError;
use crate::directory;
use crate::directory::{
    split_path, BlockKey, DirectoryError, EncryptedDirectory, FileEntry, FileModel,
};
use crate::router;
use crate::router::{RouteEntry, RouteModel, WanRouter};
use crate::text;
use crate::vault;
use crate::vault::VaultFile;
use answers::{
    dav_options, dav_root_refuse, dir_response, file_not_found, file_response, plain_response,
    root_response, DavResponse, ResponseModel,
};
use blocks::{seal_file, BlockSource, SealedBlock};
use vstd::prelude::*;

verus! {

// ---------- Dispatch ----------

/// What a request asks for.
#[derive(Clone, Copy, Debug, PartialEq, Eq, Structural)]
pub enum DavAction {
    Options,
    Propfind,
    Get,
    Put,
    Delete,
    Mkcol,
    Move,
    /// A method that the service does not know.
    Refuse,
}

/// What the method `method` asks for.
pub open spec fn action_of(method: Seq<char>) -> DavAction {
    if method == "OPTIONS"@ {
        DavAction::Options
    } else if method == "PROPFIND"@ {
        DavAction::Propfind
    } else if method == "GET"@ || method == "HEAD"@ {
        DavAction::Get
    } else if method == "PUT"@ {
        DavAction::Put
    } else if method == "DELETE"@ {
        DavAction::Delete
    } else if method == "MKCOL"@ {
        DavAction::Mkcol
    } else if method == "MOVE"@ {
        DavAction::Move
    } else {
        DavAction::Refuse
    }
}

/// What a request asks for, by its method.
pub fn dav_action(method: &str) -> (r: DavAction)
    ensures
        r == action_of(method@),
{
    if text::same(method, "OPTIONS") {
        DavAction::Options
    } else if text::same(method, "PROPFIND") {
        DavAction::Propfind
    } else if text::same(method, "GET") || text::same(method, "HEAD") {
        DavAction::Get
    } else if text::same(method, "PUT") {
        DavAction::Put
    } else if text::same(method, "DELETE") {
        DavAction::Delete
    } else if text::same(method, "MKCOL") {
        DavAction::Mkcol
    } else if text::same(method, "MOVE") {
        DavAction::Move
    } else {
        DavAction::Refuse
    }
}

/// The path below `/dav/` that a request names.
pub open spec fn requested_path(uri_path: Seq<char>) -> Seq<char> {
    text::without_leading(uri_path, "/dav/"@)
}

/// Whether a path below `/dav/` is that of the root.
pub open spec fn is_root_path(path: Seq<char>) -> bool {
    path.len() == 0 || path == "/"@
}

/// The path below `/dav/` that a request names; nothing where it names the root.
pub fn dav_path(uri_path: &str) -> (r: Option<String>)
    ensures
        match r {
            Some(path) => path@ == requested_path(uri_path@) && !is_root_path(path@),
            None => is_root_path(requested_path(uri_path@)),
        },
{
    proof {
        reveal_strlit("/dav/");
    }
    let path = text::strip_leading(uri_path, "/dav/");
    if path.as_str().unicode_len() == 0 || text::same(path.as_str(), "/") {
        None
    } else {
        Some(path)
    }
}

// ---------- Uploads ----------

/// The directory entry of a file uploaded as `sealed`.
pub open spec fn uploaded_file(
    path: Seq<char>,
    data: Seq<u8>,
    sealed: Seq<SealedBlock>,
    now_ns: u64,
) -> FileModel {
    FileModel {
        filename: directory::name_of(path),
        size: data.len() as u64,
        content_hash: hash::blake3_digest(data),
        block_count: sealed.len() as usize,
        block_groups: blocks::groups_of(sealed),
        block_keys: blocks::keys_of(sealed),
        created_at_ns: now_ns,
        modified_at_ns: now_ns,
        mode: 0o644,
        version: 1,
    }
}

/// The route of a group just stored.
pub open spec fn fresh_route(
    nickname: Seq<char>,
    address: Seq<char>,
    online: Seq<WanPeer>,
    group_id: Seq<char>,
    total_shards: usize,
    data_shards: usize,
    parity_shards: usize,
    now_ns: u64,
) -> RouteModel {
    RouteModel {
        group_id,
        total_shards,
        data_shards,
        parity_shards,
        locations: router::placements(nickname, address, online, total_shards, data_shards),
        created_at_ns: now_ns,
    }
}

/// What an upload leaves to be done: the shards of each block to store and push
/// along its route, and how the entry into the directory ended.
pub struct StoredFile {
    pub blocks: Vec<SealedBlock>,
    pub routes: Vec<RouteEntry>,
    pub outcome: Result<(), DirectoryError>,
}

/// The service's directory and routes, and how it cuts and encodes files.
pub struct DavState {
    pub directory: EncryptedDirectory,
    pub router: WanRouter,
    pub rs_data_shards: usize,
    pub rs_parity_shards: usize,
    pub block_size: usize,
}

/// To whom shard `i` is pushed: the peer at its place in the route; to nobody
/// where its place is this node, with this nickname and address, or called `local`.
pub open spec fn push_address(
    route: RouteModel,
    i: int,
    nickname: Seq<char>,
    address: Seq<char>,
) -> Option<Seq<char>> {
    if 0 <= i < route.locations.len() {
        let place = route.locations[i];
        if (place.peer_nickname == nickname && place.peer_addr == address) || place.peer_nickname
            == "local"@ {
            None
        } else {
            Some(place.peer_addr)
        }
    } else {
        None
    }
}

/// The routes after those of removed groups are gone.
pub open spec fn without_routes(
    routes: Map<Seq<char>, RouteModel>,
    groups: Seq<Seq<char>>,
) -> Map<Seq<char>, RouteModel>
    decreases groups.len(),
{
    if groups.len() == 0 {
        routes
    } else {
        without_routes(routes, groups.drop_last()).remove(groups.last())
    }
}

impl DavState {
    /// Whether the routes are consistent.
    pub open spec fn wf(&self) -> bool {
        self.router.wf()
    }

    /// Whether everything but the directory tree and the routes is as in `other`.
    pub open spec fn same_setup(&self, other: DavState) -> bool {
        &&& self.directory.crypto_key == other.directory.crypto_key
        &&& self.router.same_peers(other.router)
        &&& self.rs_data_shards == other.rs_data_shards
        &&& self.rs_parity_shards == other.rs_parity_shards
        &&& self.block_size == other.block_size
    }

    /// The route that a group of `total_shards` shards gets now.
    pub open spec fn route_for(&self, group_id: Seq<char>, total_shards: usize, now_ns: u64) -> RouteModel {
        fresh_route(
            self.router.our_nickname@,
            self.router.our_address@,
            router::up_peers(self.router.wan_peers@, self.router.peer_health@),
            group_id,
            total_shards,
            self.rs_data_shards,
            self.rs_parity_shards,
            now_ns,
        )
    }

    /// The routes after those of `blocks` were added.
    pub open spec fn with_routes(&self, blocks: Seq<SealedBlock>, now_ns: u64) -> Map<
        Seq<char>,
        RouteModel,
    >
        decreases blocks.len(),
    {
        if blocks.len() == 0 {
            self.router.route_models()
        } else {
            let b = blocks.last();
            self.with_routes(blocks.drop_last(), now_ns).insert(
                b.group_id@,
                self.route_for(b.group_id@, b.shards.len(), now_ns),
            )
        }
    }

    /// Whether a file of `len` bytes can be cut and encoded.
    pub open spec fn can_store(&self, len: nat) -> bool {
        &&& self.block_size > 0
        &&& len + self.block_size <= usize::MAX
        &&& len + 272 <= usize::MAX
        &&& len <= aead::MAX_MESSAGE_LEN || self.block_size <= aead::MAX_MESSAGE_LEN
        &&& blocks::storable(self.rs_data_shards as nat, self.rs_parity_shards as nat)
    }

    /// Whether entering the upload `stored` of `data` to `path` leads from this
    /// state to `after`: each block gets a route, and the file its entry in the
    /// directory, unless the path is taken.
    pub open spec fn enters(
        &self,
        path: Seq<char>,
        data: Seq<u8>,
        stored: StoredFile,
        now_ns: u64,
        after: DavState,
    ) -> bool {
        let parent = directory::parent_of(path);
        &&& stored.routes@.len() == stored.blocks@.len()
        &&& forall|i: int|
            0 <= i < stored.routes@.len() ==> (#[trigger] stored.routes@[i])@ == self.route_for(
                stored.blocks@[i].group_id@,
                stored.blocks@[i].shards.len(),
                now_ns,
            )
        &&& after.router.route_models() == self.with_routes(stored.blocks@, now_ns)
        &&& if directory::clashes(self.directory.tree@, parent, directory::name_of(path)) {
            &&& stored.outcome matches Err(DirectoryError::PathExists(name)) && name@
                == directory::name_of(path)
            &&& after.directory.tree@ == self.directory.tree@
        } else {
            &&& stored.outcome is Ok
            &&& after.directory.tree@ == directory::with_file(
                self.directory.tree@,
                parent,
                uploaded_file(path, data, stored.blocks@, now_ns),
                now_ns,
            )
        }
    }

    /// Gives each block of an upload its route, and enters the file into the directory.
    pub fn enter_file(
        &mut self,
        path: &str,
        data: &[u8],
        sealed: Vec<SealedBlock>,
        now_ns: u64,
    ) -> (r: StoredFile)
        requires
            old(self).wf(),
        ensures
            final(self).wf(),
            final(self).same_setup(*old(self)),
            r.blocks@ == sealed@,
            old(self).enters(path@, data@, r, now_ns, *final(self)),
    {
        let ghost before = *self;
        let (parent, filename) = split_path(path);
        let mut routes: Vec<RouteEntry> = Vec::new();
        let mut block_groups: Vec<String> = Vec::new();
        let mut block_keys: Vec<BlockKey> = Vec::new();
        let mut i: usize = 0;
        assert(sealed@.take(0) =~= Seq::<SealedBlock>::empty());
        while i < sealed.len()
            invariant
                i <= sealed@.len(),
                self.wf(),
                self.same_setup(before),
                self.directory.tree@ == before.directory.tree@,
                self.router.route_models() == before.with_routes(sealed@.take(i as int), now_ns),
                routes@.len() == i,
                forall|j: int|
                    0 <= j < i ==> (#[trigger] routes@[j])@ == before.route_for(
                        sealed@[j].group_id@,
                        sealed@[j].shards.len(),
                        now_ns,
                    ),
                text::texts(block_groups@) == blocks::groups_of(sealed@).take(i as int),
                directory::key_models(block_keys@) == blocks::keys_of(sealed@).take(i as int),
            decreases sealed@.len() - i,
        {
            proof {
                assert(sealed@.take(i + 1).drop_last() =~= sealed@.take(i as int));
                assert(sealed@.take(i + 1).last() == sealed@[i as int]);
            }
            let route = self.router.compute_route(
                sealed[i].group_id.as_str(),
                sealed[i].shards.len(),
                self.rs_data_shards,
                self.rs_parity_shards,
                now_ns,
            );
            routes.push(route);
            let ghost groups = text::texts(block_groups@);
            let ghost keys = directory::key_models(block_keys@);
            block_groups.push(sealed[i].group_id.clone());
            let key = BlockKey {
                block_len: sealed[i].plain_len,
                shares: bytes::copy_rows(&sealed[i].key_shares),
            };
            let ghost kept = key@;
            block_keys.push(key);
            i += 1;
            proof {
                assert(kept =~= sealed@[i - 1].block_key());
                assert(text::texts(block_groups@) =~= groups.push(sealed@[i - 1].group_id@));
                assert(text::texts(block_groups@) =~= blocks::groups_of(sealed@).take(i as int));
                assert(directory::key_models(block_keys@) =~= keys.push(kept));
                assert(directory::key_models(block_keys@) =~= blocks::keys_of(sealed@).take(
                    i as int,
                ));
            }
        }
        proof {
            assert(sealed@.take(i as int) =~= sealed@);
            assert(blocks::groups_of(sealed@).take(i as int) =~= blocks::groups_of(sealed@));
            assert(blocks::keys_of(sealed@).take(i as int) =~= blocks::keys_of(sealed@));
        }
        let entry = FileEntry {
            filename,
            size: data.len() as u64,
            content_hash: blake3_hash(data),
            block_count: sealed.len(),
            block_groups,
            block_keys,
            created_at_ns: now_ns,
            modified_at_ns: now_ns,
            mode: 0o644,
            version: 1,
        };
        assert(entry@ =~= uploaded_file(path@, data@, sealed@, now_ns));
        let outcome = self.directory.add_file(parent.as_str(), entry, now_ns);
        StoredFile { blocks: sealed, routes, outcome }
    }

    /// Store a file: split into blocks, encrypt, shard, RS encode, route, and
    /// enter it into the directory.
    pub fn store_file(&mut self, path: &str, data: &[u8], now_ns: u64) -> (r: Result<
        StoredFile,
        CryptoError,
    >)
        requires
            old(self).wf(),
            old(self).can_store(data@.len()),
        ensures
            final(self).wf(),
            final(self).same_setup(*old(self)),
            data@.len() == 0 ==> r is Ok,
            match r {
                Err(e) => {
                    &&& e == CryptoError::NoEntropy
                    &&& final(self).directory.tree@ == old(self).directory.tree@
                    &&& final(self).router.route_models() == old(self).router.route_models()
                },
                Ok(stored) => {
                    &&& blocks::are_sealed_blocks(
                        stored.blocks@,
                        data@,
                        old(self).block_size as nat,
                        old(self).rs_data_shards as nat,
                        old(self).rs_parity_shards as nat,
                    )
                    &&& old(self).enters(path@, data@, stored, now_ns, *final(self))
                },
            },
    {
        match seal_file(data, self.block_size, self.rs_data_shards, self.rs_parity_shards) {
            Ok(sealed) => Ok(self.enter_file(path, data, sealed, now_ns)),
            Err(e) => Err(e),
        }
    }

    /// To whom shard `i` of a group with this route is pushed.
    pub fn push_target(&self, route: &RouteEntry, i: usize) -> (r: Option<String>)
        ensures
            ({
                let target = push_address(
                    route@,
                    i as int,
                    self.router.our_nickname@,
                    self.router.our_address@,
                );
                match r {
                    Some(addr) => target == Some(addr@),
                    None => target is None,
                }
            }),
    {
        if i >= route.locations.len() {
            return None;
        }
        let peer = route.locations[i].peer_nickname.as_str();
        let addr = route.locations[i].peer_addr.as_str();
        let here = text::same(peer, self.router.our_nickname.as_str()) && text::same(
            addr,
            self.router.our_address.as_str(),
        );
        if here || text::same(peer, "local") {
            None
        } else {
            Some(route.locations[i].peer_addr.clone())
        }
    }

    /// Answers a request to the root, by its method, at the time `now`.
    pub fn dav_root_answer(&self, method: &str, now: &str) -> (r: DavResponse)
        ensures
            r@ == if method@ == "OPTIONS"@ {
                answers::options_answer()
            } else if method@ == "PROPFIND"@ {
                self.root_answer(now@)
            } else {
                answers::root_refusal()
            },
    {
        if text::same(method, "OPTIONS") {
            dav_options()
        } else if text::same(method, "PROPFIND") {
            self.dav_root(now)
        } else {
            dav_root_refuse()
        }
    }

    /// The answer to a request for the properties of the root at the time `now`:
    /// the directories and the files at the root.
    pub open spec fn root_answer(&self, now: Seq<char>) -> ResponseModel {
        answers::xml_answer(
            answers::root_listing(
                directory::dirnames(self.directory.tree@).filter(
                    |name: Seq<char>| name != directory::root_dirname(),
                ),
                directory::listing(self.directory.tree@, "/"@),
                now,
            ),
        )
    }

    /// Answers a request for the properties of the root at the time `now`.
    pub fn dav_root(&self, now: &str) -> (r: DavResponse)
        ensures
            r@ == self.root_answer(now@),
    {
        let files = self.directory.list_directory("/");
        let dirs = self.directory.list_subdirs();
        root_response(&dirs, &files, now)
    }

    /// Answers a request for the properties of the file or directory at `path`.
    pub fn dav_propfind(&self, path: &str) -> (r: DavResponse)
        ensures
            r@ == answers::xml_answer(
                match directory::resolved(self.directory.tree@, path@) {
                    Some(file) => answers::file_listing(path@, file),
                    None => answers::dir_listing(
                        path@,
                        directory::listing(self.directory.tree@, path@),
                    ),
                },
            ),
    {
        match self.directory.resolve_path(path) {
            Some(file) => file_response(path, &file),
            None => dir_response(path, &self.directory.list_directory(path)),
        }
    }

    /// Removes the file at `path`: gives the groups whose shards are to be wiped,
    /// and the answer.
    pub fn dav_delete(&mut self, path: &str) -> (r: (Vec<String>, DavResponse))
        requires
            old(self).wf(),
        ensures
            final(self).wf(),
            final(self).same_setup(*old(self)),
            match directory::resolved(old(self).directory.tree@, path@) {
                None => {
                    &&& r.0@.len() == 0
                    &&& r.1@ == answers::plain_answer(404, "File not found"@)
                    &&& final(self).directory.tree@ == old(self).directory.tree@
                    &&& final(self).router.route_models() == old(self).router.route_models()
                },
                Some(file) => {
                    &&& text::texts(r.0@) == file.block_groups
                    &&& final(self).router.route_models() == without_routes(
                        old(self).router.route_models(),
                        file.block_groups,
                    )
                    &&& forall|i: int|
                        0 <= i < file.block_groups.len() ==> !final(self).router.route_models().dom().contains(#[trigger] file.block_groups[i])
                    &&& directory::laws::well_named(old(self).directory.tree@)
                        ==> directory::resolved(final(self).directory.tree@, path@) is None
                    &&& r.1@ == answers::plain_answer(204, Seq::empty())
                    &&& final(self).directory.tree@ == directory::without_file(
                        old(self).directory.tree@,
                        path@,
                    )
                },
            },
    {
        let file = match self.directory.resolve_path(path) {
            Some(file) => file,
            None => return (Vec::new(), file_not_found()),
        };
        let ghost before = *self;
        let ghost groups = text::texts(file.block_groups@);
        let mut i: usize = 0;
        assert(groups.take(0) =~= Seq::<Seq<char>>::empty());
        while i < file.block_groups.len()
            invariant
                i <= file.block_groups@.len(),
                groups == text::texts(file.block_groups@),
                self.wf(),
                self.same_setup(before),
                self.directory.tree@ == before.directory.tree@,
                self.router.route_models() == without_routes(
                    before.router.route_models(),
                    groups.take(i as int),
                ),
            decreases file.block_groups@.len() - i,
        {
            assert(groups.take(i + 1).drop_last() =~= groups.take(i as int));
            self.router.remove_route(file.block_groups[i].as_str());
            i += 1;
        }
        assert(groups.take(i as int) =~= groups);
        proof {
            let root = before.directory.tree@;
            let routes = before.router.route_models();
            assert forall|i: int| 0 <= i < groups.len() implies !without_routes(
                routes,
                groups,
            ).dom().contains(#[trigger] groups[i]) by {
                law_removed_groups_have_no_route(routes, groups, groups[i]);
                assert(groups.contains(groups[i]));
            }
            if directory::laws::well_named(root) {
                laws::law_deleted_file_is_gone(root, path@, path@);
            }
        }
        let answer = match self.directory.remove_file(path) {
            Ok(()) => {
                let nothing = String::new();
                assert(nothing@ =~= Seq::<char>::empty());
                plain_response(204, nothing)
            },
            Err(e) => plain_response(500, e.message()),
        };
        (file.block_groups, answer)
    }

    /// The shard that was read from the vault or, where it could not be read,
    /// the one that the peer at its place in the route gives.
    pub fn obtain_shard(&self, route: &RouteEntry, i: usize, local: Option<Vec<u8>>) -> (r: Option<
        Vec<u8>,
    >)
        ensures
            r == local,
    {
        match local {
            Some(data) => Some(data),
            None => {
                if i < route.locations.len() {
                    match self.router.fetch_shard_from_peer(
                        route.group_id.as_str(),
                        i,
                        route.locations[i].peer_addr.as_str(),
                    ) {
                        Ok(data) => Some(data),
                        Err(_) => None,
                    }
                } else {
                    None
                }
            },
        }
    }
}

// ---------- Laws ----------

/// No route is left to a group that was removed.
pub proof fn law_removed_groups_have_no_route(
    routes: Map<Seq<char>, RouteModel>,
    groups: Seq<Seq<char>>,
    group_id: Seq<char>,
)
    ensures
        without_routes(routes, groups).dom().contains(group_id) == (routes.dom().contains(group_id)
            && !groups.contains(group_id)),
    decreases groups.len(),
{
    if groups.len() > 0 {
        let fewer = groups.drop_last();
        law_removed_groups_have_no_route(routes, fewer, group_id);
        if groups.contains(group_id) && groups.last() != group_id {
            let j = choose|j: int| 0 <= j < groups.len() && groups[j] == group_id;
            assert(fewer[j] == group_id);
        }
        if fewer.contains(group_id) {
            let j = choose|j: int| 0 <= j < fewer.len() && fewer[j] == group_id;
            assert(groups[j] == group_id);
        }
    }
}

/// Every group of an upload has a route, and it counts all shards of the group.
pub proof fn law_stored_groups_have_routes(
    state: DavState,
    sealed: Seq<SealedBlock>,
    now_ns: u64,
    i: int,
)
    requires
        0 <= i < sealed.len(),
        forall|a: int, b: int|
            0 <= a < sealed.len() && 0 <= b < sealed.len() ==> (#[trigger] sealed[a]).shards@.len()
                == (#[trigger] sealed[b]).shards@.len(),
    ensures
        ({
            let routes = state.with_routes(sealed, now_ns);
            let gid = sealed[i].group_id@;
            routes.dom().contains(gid) && routes[gid] == state.route_for(
                gid,
                sealed[i].shards.len(),
                now_ns,
            )
        }),
    decreases sealed.len(),
{
    let fewer = sealed.drop_last();
    if i < sealed.len() - 1 {
        assert forall|a: int, b: int| 0 <= a < fewer.len() && 0 <= b < fewer.len() implies (
        #[trigger] fewer[a]).shards@.len() == (#[trigger] fewer[b]).shards@.len() by {
            assert(sealed[a].shards@.len() == sealed[b].shards@.len());
        }
        law_stored_groups_have_routes(state, fewer, now_ns, i);
        assert(sealed[i].shards@.len() == sealed[sealed.len() - 1].shards@.len());
    }
}

/// What the vault holds of a stored block suffices to read it back: where the
/// shards were put into a group one after another, and as many of them as the
/// code has data shards are read from their files, they are a source of the
/// block's codeword.
pub proof fn law_stored_block_can_be_read(
    sealed: SealedBlock,
    plain: Seq<u8>,
    index: nat,
    key: Seq<u8>,
    data_shards: nat,
    parity_shards: nat,
    files: Map<VaultFile, Seq<u8>>,
    source: BlockSource,
)
    requires
        sealed.seals(plain, index, key, data_shards, parity_shards),
        data_shards > 0,
        parity_shards > 0,
        !vault::is_stale(sealed.counter, vault::counter_on_disk(files)),
        vault::lacks_shards_from(files, 0),
        source.shards is Some,
        source.shards->0@.len() == sealed.shards.len(),
        ({
            let after = vault::after_arrivals(
                files,
                bytes::rows(sealed.shards@),
                sealed.counter,
                sealed.root@,
            );
            let read = bytes::optional_rows(source.shards->0@);
            &&& forall|i: usize|
                i < read.len() ==> (#[trigger] read[i as int] is Some ==> read[i as int] == Some(
                    after[VaultFile::Shard(i)],
                ))
            &&& erasure::present(read) >= data_shards
        }),
    ensures
        blocks::is_source_of(source, bytes::rows(sealed.shards@), data_shards, parity_shards),
{
    let rows = bytes::rows(sealed.shards@);
    let after = vault::after_arrivals(files, rows, sealed.counter, sealed.root@);
    let read = bytes::optional_rows(source.shards->0@);
    vault::law_group_keeps_every_shard(files, rows, sealed.counter, sealed.root@);
    assert forall|i: int| 0 <= i < read.len() && #[trigger] read[i] is Some implies read[i] == Some(
        rows[i],
    ) by {
        let k = i as usize;
        assert(read[k as int] is Some);
        assert(after.dom().contains(VaultFile::Shard(k)));
    }
}

/// What an upload leaves can be read back: with enough shards of each block,
/// the entry of the file is that of an upload of the data. Reading it gives the
/// data.
pub proof fn law_upload_can_be_read(
    state: DavState,
    path: Seq<char>,
    data: Seq<u8>,
    sealed: Seq<SealedBlock>,
    now_ns: u64,
    sources: Seq<BlockSource>,
)
    requires
        state.can_store(data.len()),
        blocks::are_sealed_blocks(
            sealed,
            data,
            state.block_size as nat,
            state.rs_data_shards as nat,
            state.rs_parity_shards as nat,
        ),
        sources.len() == sealed.len(),
        forall|i: int|
            0 <= i < sources.len() ==> blocks::is_source_of(
                #[trigger] sources[i],
                bytes::rows(sealed[i].shards@),
                state.rs_data_shards as nat,
                state.rs_parity_shards as nat,
            ),
    ensures
        exists|keys: Seq<Seq<u8>>| #[trigger]
            blocks::is_upload_of(
                uploaded_file(path, data, sealed, now_ns),
                sources,
                data,
                state.block_size as nat,
                sealed,
                keys,
                state.rs_data_shards as nat,
                state.rs_parity_shards as nat,
            ),
{
    let (bs, k, m) = (
        state.block_size as nat,
        state.rs_data_shards as nat,
        state.rs_parity_shards as nat,
    );
    let keys = choose|keys: Seq<Seq<u8>>| #[trigger]
        blocks::are_sealed(sealed, data, bs, k, m, keys) && blocks::carry_keys(sealed, keys);
    assert(blocks::is_upload_of(
        uploaded_file(path, data, sealed, now_ns),
        sources,
        data,
        bs,
        sealed,
        keys,
        k,
        m,
    ));
}

/// An upload that was entered is found at its path, as long as the path does
/// not end with a slash.
pub proof fn law_uploaded_file_resolves(
    before: DavState,
    path: Seq<char>,
    data: Seq<u8>,
    stored: StoredFile,
    now_ns: u64,
    after: DavState,
)
    requires
        before.enters(path, data, stored, now_ns, after),
        stored.outcome is Ok,
        directory::name_of(path).len() > 0,
    ensures
        directory::resolved(after.directory.tree@, path) == Some(
            uploaded_file(path, data, stored.blocks@, now_ns),
        ),
{
    directory::laws::law_slashes_in_front_do_not_matter(path);
    directory::laws::law_new_file_resolves(
        before.directory.tree@,
        directory::parent_of(path),
        uploaded_file(path, data, stored.blocks@, now_ns),
        now_ns,
        path,
    );
}

/// An upload is entered wherever its path is free, whatever it holds and whatever
/// lies elsewhere; where it was not entered its path was taken, and the directory
/// is as it was.
pub proof fn law_free_path_takes_the_upload(
    before: DavState,
    path: Seq<char>,
    data: Seq<u8>,
    stored: StoredFile,
    now_ns: u64,
    after: DavState,
)
    requires
        before.enters(path, data, stored, now_ns, after),
        directory::name_of(path).len() > 0,
    ensures
        directory::resolved(before.directory.tree@, path) is None ==> stored.outcome is Ok,
        stored.outcome is Err ==> after.directory.tree@ == before.directory.tree@,
{
    let root = before.directory.tree@;
    let parent = directory::parent_of(path);
    directory::laws::law_slashes_in_front_do_not_matter(path);
    directory::laws::law_file_is_found_by_its_name(
        directory::listing(root, parent),
        directory::name_of(path),
    );
    directory::lemma_first_dir(root, directory::dirname_for(parent));
    directory::lemma_first_file_is(Seq::<FileModel>::empty(), directory::name_of(path), 0);
}

/// Every file that the listing of a directory of distinct names shows is found
/// at the place that the listing gives for it.
pub proof fn law_listed_hrefs_resolve(root: Seq<directory::DirModel>, path: Seq<char>, i: int)
    requires
        0 <= i < directory::listing(root, path).len(),
        directory::laws::distinct_files(directory::listing(root, path)),
        directory::listing(root, path)[i].filename.len() > 0,
        !directory::listing(root, path)[i].filename.contains('/'),
    ensures
        ({
            let file = directory::listing(root, path)[i];
            directory::resolved(root, answers::folder_href(path) + file.filename) == Some(file)
        }),
{
    let file = directory::listing(root, path)[i];
    directory::laws::law_listed_file_resolves(root, path, i);
    assert(Seq::<char>::empty() + file.filename =~= file.filename);
}

} // verus!

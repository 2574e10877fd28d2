//! What the service promises of its answers and of what it keeps of uploads.

use crate::bytes;
use crate::config::WanPeer;
use crate::crypto::aead;
use crate::crypto::hash;
use crate::davfs;
use crate::davfs::answers;
use crate::davfs::answers::{Body, BodyModel, DavResponse};
use crate::davfs::blocks;
use crate::davfs::blocks::{BlockSource, SealedBlock};
use crate::davfs::{DavAction, DavState};
use crate::directory;
use crate::directory::{DirModel, FileModel};
use crate::lists;
use crate::router;
use crate::router::RouteModel;
use crate::text;
use vstd::prelude::*;

verus! {

// ---------- Downloads and uploads ----------

/// A download that was read is answered with exactly what was read, and with
/// its length; one that was not, with an error and no contents.
pub proof fn law_download_carries_the_contents(
    filename: Seq<char>,
    data: Seq<u8>,
    reason: Seq<char>,
)
    ensures
        ({
            let r = answers::download_answer(filename, Ok(data));
            &&& r.status == 200
            &&& r.body == BodyModel::Bytes(data)
            &&& r.headers.contains(("Content-Length"@, text::numeral(data.len())))
            &&& r.headers.contains(("Content-Type"@, "application/octet-stream"@))
        }),
        ({
            let r = answers::download_answer(filename, Err(reason));
            r.status == 500 && !(r.body is Bytes)
        }),
{
    let r = answers::download_answer(filename, Ok(data));
    assert(r.headers[2] == ("Content-Length"@, text::numeral(data.len())));
    assert(r.headers[0] == ("Content-Type"@, "application/octet-stream"@));
}

/// A download of an upload of which enough shards are left is answered with the
/// uploaded data.
pub proof fn law_download_answers_with_the_upload(
    file: FileModel,
    sources: Seq<BlockSource>,
    data: Seq<u8>,
    block_size: nat,
    sealed: Seq<SealedBlock>,
    keys: Seq<Seq<u8>>,
    data_shards: nat,
    parity_shards: nat,
    read: Result<Vec<u8>, String>,
)
    requires
        blocks::is_upload_of(
            file,
            sources,
            data,
            block_size,
            sealed,
            keys,
            data_shards,
            parity_shards,
        ),
        blocks::reads_uploads(file, sources, data_shards, parity_shards, read),
    ensures
        ({
            let outcome = match read {
                Ok(b) => Ok(b@),
                Err(e) => Err(e@),
            };
            let r = answers::download_answer(file.filename, outcome);
            r.status == 200 && r.body == BodyModel::Bytes(data)
        }),
{
}

/// An upload is answered as created exactly where it was stored.
pub proof fn law_upload_is_created_where_stored(stored: Result<(), Seq<char>>)
    ensures
        answers::upload_answer(stored).status == 201 <==> stored is Ok,
        stored is Err ==> answers::upload_answer(stored).status == 500,
{
}

/// The entry of an upload tells the file's name, its length, its digest and the
/// moment, and has a group and a key for each of its blocks.
pub proof fn law_upload_is_described(
    path: Seq<char>,
    data: Seq<u8>,
    sealed: Seq<SealedBlock>,
    now_ns: u64,
)
    requires
        data.len() <= u64::MAX,
        sealed.len() <= usize::MAX,
    ensures
        ({
            let file = davfs::uploaded_file(path, data, sealed, now_ns);
            &&& file.filename == directory::name_of(path)
            &&& file.size == data.len()
            &&& file.content_hash == hash::blake3_digest(data)
            &&& file.block_count == sealed.len()
            &&& file.block_groups.len() == sealed.len()
            &&& file.block_keys.len() == sealed.len()
            &&& forall|i: int|
                0 <= i < sealed.len() ==> #[trigger] file.block_groups[i] == sealed[i].group_id@
            &&& forall|i: int|
                0 <= i < sealed.len() ==> (#[trigger] file.block_keys[i]).block_len
                    == sealed[i].plain_len && file.block_keys[i].shares == bytes::rows(
                    sealed[i].key_shares@,
                )
            &&& file.created_at_ns == now_ns
            &&& file.modified_at_ns == now_ns
        }),
{
}

/// The route of a group just stored bears the group's name, the numbers of its
/// shards and the moment, and has a place for each shard.
pub proof fn law_stored_route_is_described(
    nickname: Seq<char>,
    address: Seq<char>,
    online: Seq<WanPeer>,
    group_id: Seq<char>,
    total_shards: usize,
    data_shards: usize,
    parity_shards: usize,
    now_ns: u64,
)
    requires
        1 <= data_shards <= total_shards,
    ensures
        ({
            let route = davfs::fresh_route(
                nickname,
                address,
                online,
                group_id,
                total_shards,
                data_shards,
                parity_shards,
                now_ns,
            );
            &&& route.group_id == group_id
            &&& route.total_shards == total_shards
            &&& route.data_shards == data_shards
            &&& route.parity_shards == parity_shards
            &&& route.created_at_ns == now_ns
            &&& route.locations.len() == total_shards
        }),
{
}

/// A group that is stored now gets a route with the service's own numbers of
/// shards, from this node and the peers that are online now.
pub proof fn law_group_is_routed_now(
    state: DavState,
    group_id: Seq<char>,
    total_shards: usize,
    now_ns: u64,
)
    ensures
        ({
            let route = state.route_for(group_id, total_shards, now_ns);
            &&& route.group_id == group_id
            &&& route.total_shards == total_shards
            &&& route.data_shards == state.rs_data_shards
            &&& route.parity_shards == state.rs_parity_shards
            &&& route.created_at_ns == now_ns
            &&& route.locations == router::placements(
                state.router.our_nickname@,
                state.router.our_address@,
                router::up_peers(state.router.wan_peers@, state.router.peer_health@),
                total_shards,
                state.rs_data_shards,
            )
        }),
{
}

/// Every file can be stored whose length, with a block and 272 bytes more, a
/// machine word holds, as long as blocks are neither empty nor too long to
/// encrypt and the code has at least one row of each kind and 256 at most.
pub proof fn law_every_file_can_be_stored(state: DavState, len: nat)
    requires
        0 < state.block_size <= aead::MAX_MESSAGE_LEN,
        state.rs_data_shards > 0,
        state.rs_parity_shards > 0,
        state.rs_data_shards + state.rs_parity_shards <= 256,
        len + state.block_size + 272 <= usize::MAX,
    ensures
        state.can_store(len),
{
}

/// A shard is pushed to the peer at its place, and to nobody where its place is
/// this node or the route has no place for it.
pub proof fn law_shards_are_pushed_to_their_peers(
    route: RouteModel,
    i: int,
    nickname: Seq<char>,
    address: Seq<char>,
)
    ensures
        match davfs::push_address(route, i, nickname, address) {
            Some(to) => 0 <= i < route.locations.len() && to == route.locations[i].peer_addr && !(
            route.locations[i].peer_nickname == nickname && to == address),
            None => 0 <= i < route.locations.len() ==> (route.locations[i].peer_nickname == nickname
                && route.locations[i].peer_addr == address) || route.locations[i].peer_nickname
                == "local"@,
        },
{
}

// ---------- Requests ----------

/// The methods that the service serves.
pub open spec fn served() -> Seq<Seq<char>> {
    seq![
        "OPTIONS"@,
        "PROPFIND"@,
        "GET"@,
        "HEAD"@,
        "PUT"@,
        "DELETE"@,
        "MKCOL"@,
        "MOVE"@,
    ]
}

/// A method is refused exactly where it is not one of those served, and no two
/// methods ask for the same, but for GET and HEAD.
pub proof fn law_methods_are_told_apart(m: Seq<char>, n: Seq<char>)
    ensures
        (davfs::action_of(m) == DavAction::Refuse) == !served().contains(m),
        davfs::action_of(m) == davfs::action_of(n) && served().contains(m) ==> m == n || (m
            == "GET"@ && n == "HEAD"@) || (m == "HEAD"@ && n == "GET"@),
{
    let all = served();
    assert(all[0] == "OPTIONS"@ && all[1] == "PROPFIND"@ && all[2] == "GET"@ && all[3] == "HEAD"@);
    assert(all[4] == "PUT"@ && all[5] == "DELETE"@ && all[6] == "MKCOL"@ && all[7] == "MOVE"@);
    if davfs::action_of(m) != DavAction::Refuse {
        assert(all.contains(m));
    }
    lemma_served_are_different();
}

proof fn lemma_served_are_different()
    ensures
        davfs::action_of("OPTIONS"@) == DavAction::Options,
        davfs::action_of("PROPFIND"@) == DavAction::Propfind,
        davfs::action_of("GET"@) == DavAction::Get,
        davfs::action_of("HEAD"@) == DavAction::Get,
        davfs::action_of("PUT"@) == DavAction::Put,
        davfs::action_of("DELETE"@) == DavAction::Delete,
        davfs::action_of("MKCOL"@) == DavAction::Mkcol,
        davfs::action_of("MOVE"@) == DavAction::Move,
{
    reveal_strlit("OPTIONS");
    reveal_strlit("PROPFIND");
    reveal_strlit("GET");
    reveal_strlit("HEAD");
    reveal_strlit("PUT");
    reveal_strlit("DELETE");
    reveal_strlit("MKCOL");
    reveal_strlit("MOVE");
    assert("OPTIONS"@[0] == 'O' && "PROPFIND"@[0] == 'P' && "GET"@[0] == 'G' && "HEAD"@[0] == 'H');
    assert("PUT"@[0] == 'P' && "PUT"@[1] == 'U' && "PROPFIND"@[1] == 'R');
    assert("DELETE"@[0] == 'D' && "MKCOL"@[0] == 'M' && "MKCOL"@[1] == 'K');
    assert("MOVE"@[0] == 'M' && "MOVE"@[1] == 'O');
}

/// What stands behind `/dav/` in a request is the path that it names.
pub proof fn law_path_stands_behind_the_mount(path: Seq<char>)
    requires
        !"/dav/"@.is_prefix_of(path),
    ensures
        davfs::requested_path("/dav/"@ + path) == path,
        davfs::is_root_path(davfs::requested_path("/dav/"@ + path)) == (path.len() == 0 || path
            == "/"@),
{
    reveal_strlit("/dav/");
    text::law_prefix_is_taken_away("/dav/"@, path);
}

// ---------- Listings ----------

proof fn lemma_run_holds(parts: Seq<Seq<char>>, i: int)
    requires
        0 <= i < parts.len(),
    ensures
        text::occurs(answers::run(parts), parts[i]),
    decreases parts.len(),
{
    let before = answers::run(parts.drop_last());
    if i == parts.len() - 1 {
        text::lemma_occurs_between(before, parts.last(), Seq::empty());
        assert(before + parts.last() + Seq::<char>::empty() =~= answers::run(parts));
    } else {
        lemma_run_holds(parts.drop_last(), i);
        text::lemma_occurs_between(Seq::empty(), before, parts.last());
        assert(Seq::<char>::empty() + before + parts.last() =~= answers::run(parts));
        text::lemma_occurs_within(answers::run(parts), before, parts[i]);
    }
}

proof fn lemma_run_grows(parts: Seq<Seq<char>>, more: Seq<char>)
    ensures
        answers::run(parts.push(more)) == answers::run(parts) + more,
{
    assert(parts.push(more).drop_last() =~= parts);
}

/// Where a listing points, for what lies at `at` below the mount.
pub open spec fn href(at: Seq<char>) -> Seq<char> {
    "<D:href>/dav/"@ + at + "</D:href>"@
}

/// How a listing tells a length.
pub open spec fn length_of(size: u64) -> Seq<char> {
    "<D:getcontentlength>"@ + text::numeral(size as nat) + "</D:getcontentlength>"@
}

/// The listing of a directory points to each of its files below the directory,
/// and tells its length.
pub proof fn law_directory_listing_shows_its_files(path: Seq<char>, files: Seq<FileModel>, i: int)
    requires
        0 <= i < files.len(),
    ensures
        ({
            let doc = answers::dir_listing(path, files);
            let at = if directory::is_root(path) {
                files[i].filename
            } else {
                directory::normal(path) + "/"@ + files[i].filename
            };
            text::occurs(doc, href(at)) && text::occurs(doc, length_of(files[i].size))
        }),
{
    let doc = answers::dir_listing(path, files);
    let folder = answers::folder_href(path);
    let entries = Seq::new(files.len(), |i: int| answers::dir_file_entry(folder, files[i]));
    let entry = answers::dir_file_entry(folder, files[i]);
    let at = if directory::is_root(path) {
        files[i].filename
    } else {
        directory::normal(path) + "/"@ + files[i].filename
    };
    assert(folder + files[i].filename =~= at);
    lemma_run_holds(entries, i);
    assert(entries[i] == entry);
    let head = "<?xml version=\"1.0\" encoding=\"utf-8\"?><D:multistatus xmlns:D=\"DAV:\">"@
        + "<D:response><D:href>/dav/"@ + folder
        + "</D:href><D:propstat><D:prop><D:displayname>"@ + path
        + "</D:displayname><D:resourcetype><D:collection/></D:resourcetype></D:prop><D:status>HTTP/1.1 200 OK</D:status></D:propstat></D:response>"@;
    assert(entries =~= Seq::new(
        files.len(),
        |i: int| answers::dir_file_entry(answers::folder_href(path), files[i]),
    ));
    text::lemma_occurs_between(head, answers::run(entries), "</D:multistatus>"@);
    text::lemma_occurs_within(doc, answers::run(entries), entry);
    lemma_file_entry_parts(folder, files[i]);
    text::lemma_occurs_within(doc, entry, href(at));
    text::lemma_occurs_within(doc, entry, length_of(files[i].size));
}

proof fn lemma_regroup(a: Seq<char>, b: Seq<char>, c: Seq<char>)
    ensures
        a + (b + c) == (a + b) + c,
{
    assert(a + (b + c) =~= (a + b) + c);
}

proof fn lemma_last_part(s: Seq<char>, open: Seq<char>, at: Seq<char>, close: Seq<char>)
    ensures
        text::occurs(s + open + at + close, open + at + close),
{
    let part = open + at + close;
    assert(part.subrange(0, part.len() as int) =~= part);
    assert(text::occurs_at(part, part, 0));
    text::lemma_occurs_in_more(s, part, part);
    lemma_regroup(s, open + at, close);
    lemma_regroup(s, open, at);
}

/// Two texts that open and two that close, with `at` between them, hold the
/// inner ones round it.
proof fn lemma_inner_part(
    outer: Seq<char>,
    open: Seq<char>,
    at: Seq<char>,
    close: Seq<char>,
    rest: Seq<char>,
)
    ensures
        text::occurs((outer + open) + at + (close + rest), open + at + close),
{
    let part = open + at + close;
    lemma_last_part(outer, open, at, close);
    text::lemma_occurs_in_more(outer + open + at + close, rest, part);
    lemma_regroup(outer + open + at, close, rest);
}

proof fn lemma_file_entry_parts(folder: Seq<char>, file: FileModel)
    ensures
        text::occurs(answers::dir_file_entry(folder, file), href(folder + file.filename)),
        text::occurs(answers::dir_file_entry(folder, file), length_of(file.size)),
{
    let name = file.filename;
    let size = text::numeral(file.size as nat);
    let at = folder + name;
    let end = "</D:getcontentlength></D:prop><D:status>HTTP/1.1 200 OK</D:status></D:propstat></D:response>"@;
    lemma_entry_words();
    let s0 = "<D:response><D:href>/dav/"@ + folder + name;
    let s1 = s0 + "</D:href><D:propstat><D:prop><D:displayname>"@;
    let s2 = s1 + name;
    let s3 = s2 + "</D:displayname><D:resourcetype/><D:getcontentlength>"@;
    let s4 = s3 + size;
    let s5 = s4 + end;
    assert(s5 == answers::dir_file_entry(folder, file));
    lemma_regroup("<D:response><D:href>/dav/"@, folder, name);
    lemma_inner_part(
        "<D:response>"@,
        "<D:href>/dav/"@,
        at,
        "</D:href>"@,
        "<D:propstat><D:prop><D:displayname>"@,
    );
    text::lemma_occurs_in_more(s1, name, href(at));
    text::lemma_occurs_in_more(s2, "</D:displayname><D:resourcetype/><D:getcontentlength>"@, href(at));
    text::lemma_occurs_in_more(s3, size, href(at));
    text::lemma_occurs_in_more(s4, end, href(at));
    let tail = "</D:prop><D:status>HTTP/1.1 200 OK</D:status></D:propstat></D:response>"@;
    let front = s2 + "</D:displayname><D:resourcetype/>"@;
    lemma_regroup(s2, "</D:displayname><D:resourcetype/>"@, "<D:getcontentlength>"@);
    lemma_inner_part(
        front,
        "<D:getcontentlength>"@,
        size,
        "</D:getcontentlength>"@,
        tail,
    );
}

/// The fixed texts of a directory's entries are made of shorter ones.
proof fn lemma_entry_words()
    ensures
        "<D:response><D:href>/dav/"@ == "<D:response>"@ + "<D:href>/dav/"@,
        "</D:href><D:propstat><D:prop><D:displayname>"@ == "</D:href>"@
            + "<D:propstat><D:prop><D:displayname>"@,
        "</D:displayname><D:resourcetype/><D:getcontentlength>"@
            == "</D:displayname><D:resourcetype/>"@ + "<D:getcontentlength>"@,
        "</D:getcontentlength></D:prop><D:status>HTTP/1.1 200 OK</D:status></D:propstat></D:response>"@
            == "</D:getcontentlength>"@
            + "</D:prop><D:status>HTTP/1.1 200 OK</D:status></D:propstat></D:response>"@,
{
    lemma_entry_opens();
    reveal_strlit("</D:href><D:propstat><D:prop><D:displayname>");
    reveal_strlit("</D:href>");
    reveal_strlit("<D:propstat><D:prop><D:displayname>");
    assert("</D:href><D:propstat><D:prop><D:displayname>"@ =~= "</D:href>"@
        + "<D:propstat><D:prop><D:displayname>"@);
    lemma_length_words();
}

proof fn lemma_length_words()
    ensures
        "</D:displayname><D:resourcetype/><D:getcontentlength>"@
            == "</D:displayname><D:resourcetype/>"@ + "<D:getcontentlength>"@,
        "</D:getcontentlength></D:prop><D:status>HTTP/1.1 200 OK</D:status></D:propstat></D:response>"@
            == "</D:getcontentlength>"@
            + "</D:prop><D:status>HTTP/1.1 200 OK</D:status></D:propstat></D:response>"@,
{
    reveal_strlit("</D:displayname><D:resourcetype/><D:getcontentlength>");
    reveal_strlit("</D:displayname><D:resourcetype/>");
    reveal_strlit("<D:getcontentlength>");
    reveal_strlit(
        "</D:getcontentlength></D:prop><D:status>HTTP/1.1 200 OK</D:status></D:propstat></D:response>",
    );
    reveal_strlit("</D:getcontentlength>");
    reveal_strlit(
        "</D:prop><D:status>HTTP/1.1 200 OK</D:status></D:propstat></D:response>",
    );
    assert("</D:displayname><D:resourcetype/><D:getcontentlength>"@
        =~= "</D:displayname><D:resourcetype/>"@ + "<D:getcontentlength>"@);
    assert("</D:getcontentlength></D:prop><D:status>HTTP/1.1 200 OK</D:status></D:propstat></D:response>"@
        =~= "</D:getcontentlength>"@
        + "</D:prop><D:status>HTTP/1.1 200 OK</D:status></D:propstat></D:response>"@);
}

/// One file more in a directory makes one entry more in its listing, and changes
/// nothing else in it.
pub proof fn law_directory_listing_grows_by_an_entry(
    path: Seq<char>,
    files: Seq<FileModel>,
    file: FileModel,
)
    ensures
        exists|front: Seq<char>, back: Seq<char>|
            answers::dir_listing(path, files) == front + back && answers::dir_listing(
                path,
                files.push(file),
            ) == #[trigger] (front + answers::dir_file_entry(answers::folder_href(path), file)
                + back),
{
    let folder = answers::folder_href(path);
    let entries = Seq::new(files.len(), |i: int| answers::dir_file_entry(folder, files[i]));
    let more = Seq::new(
        files.push(file).len(),
        |i: int| answers::dir_file_entry(folder, files.push(file)[i]),
    );
    let entry = answers::dir_file_entry(folder, file);
    assert(more =~= entries.push(entry));
    lemma_run_grows(entries, entry);
    let head = "<?xml version=\"1.0\" encoding=\"utf-8\"?><D:multistatus xmlns:D=\"DAV:\">"@
        + "<D:response><D:href>/dav/"@ + folder
        + "</D:href><D:propstat><D:prop><D:displayname>"@ + path
        + "</D:displayname><D:resourcetype><D:collection/></D:resourcetype></D:prop><D:status>HTTP/1.1 200 OK</D:status></D:propstat></D:response>"@;
    let front = head + answers::run(entries);
    let back = "</D:multistatus>"@;
    assert(entries =~= Seq::new(
        files.len(),
        |i: int| answers::dir_file_entry(answers::folder_href(path), files[i]),
    ));
    assert(more =~= Seq::new(
        files.push(file).len(),
        |i: int| answers::dir_file_entry(answers::folder_href(path), files.push(file)[i]),
    ));
    assert(answers::dir_listing(path, files) =~= front + back);
    assert(answers::dir_listing(path, files.push(file)) =~= front + entry + back);
}

/// The listing of the root points to each directory and to each of its own
/// files, and tells the length of each file.
pub proof fn law_root_listing_shows_what_is_there(
    dirs: Seq<Seq<char>>,
    files: Seq<FileModel>,
    now: Seq<char>,
    d: int,
    i: int,
)
    ensures
        0 <= d < dirs.len() ==> text::occurs(
            answers::root_listing(dirs, files, now),
            href(dirs[d] + "/"@),
        ),
        0 <= i < files.len() ==> text::occurs(
            answers::root_listing(dirs, files, now),
            href(files[i].filename),
        ) && text::occurs(answers::root_listing(dirs, files, now), length_of(files[i].size)),
{
    let doc = answers::root_listing(dirs, files, now);
    let head = "<?xml version=\"1.0\" encoding=\"utf-8\"?>"@ + "<D:multistatus xmlns:D=\"DAV:\">"@
        + answers::collection_entry(Seq::empty(), "GHOST NAS"@, now);
    let folders = Seq::new(
        dirs.len(),
        |i: int| answers::collection_entry(dirs[i] + "/"@, dirs[i], now),
    );
    let entries = Seq::new(files.len(), |i: int| answers::root_file_entry(files[i], now));
    assert(doc =~= head + answers::run(folders) + answers::run(entries) + "</D:multistatus>"@);
    if 0 <= d < dirs.len() {
        let folder = answers::collection_entry(dirs[d] + "/"@, dirs[d], now);
        lemma_run_holds(folders, d);
        assert(folders[d] == folder);
        let back = answers::run(entries) + "</D:multistatus>"@;
        text::lemma_occurs_between(head, answers::run(folders), back);
        assert(head + answers::run(folders) + back =~= doc);
        text::lemma_occurs_within(doc, answers::run(folders), folder);
        lemma_collection_points(dirs[d] + "/"@, dirs[d], now);
        text::lemma_occurs_within(doc, folder, href(dirs[d] + "/"@));
    }
    if 0 <= i < files.len() {
        let entry = answers::root_file_entry(files[i], now);
        lemma_run_holds(entries, i);
        assert(entries[i] == entry);
        let front = head + answers::run(folders);
        text::lemma_occurs_between(front, answers::run(entries), "</D:multistatus>"@);
        text::lemma_occurs_within(doc, answers::run(entries), entry);
        lemma_root_file_parts(files[i], now);
        text::lemma_occurs_within(doc, entry, href(files[i].filename));
        text::lemma_occurs_within(doc, entry, length_of(files[i].size));
    }
}

proof fn lemma_collection_points(at: Seq<char>, name: Seq<char>, now: Seq<char>)
    ensures
        text::occurs(answers::collection_entry(at, name, now), href(at)),
{
    lemma_entry_opens();
    let end = "</D:prop><D:status>HTTP/1.1 200 OK</D:status></D:propstat></D:response>"@;
    let s0 = "<D:response><D:href>/dav/"@ + at + "</D:href><D:propstat><D:prop>"@;
    let s1 = s0 + "<D:displayname>"@;
    let s2 = s1 + name;
    let s3 = s2 + "</D:displayname>"@;
    let s4 = s3 + "<D:resourcetype><D:collection/></D:resourcetype>"@;
    let s5 = s4 + "<D:getcontenttype>httpd/unix-directory</D:getcontenttype>"@;
    let s6 = s5 + "<D:getlastmodified>"@;
    let s7 = s6 + now;
    let s8 = s7 + "</D:getlastmodified>"@;
    assert(s8 + end == answers::collection_entry(at, name, now));
    lemma_inner_part(
        "<D:response>"@,
        "<D:href>/dav/"@,
        at,
        "</D:href>"@,
        "<D:propstat><D:prop>"@,
    );
    text::lemma_occurs_in_more(s0, "<D:displayname>"@, href(at));
    text::lemma_occurs_in_more(s1, name, href(at));
    text::lemma_occurs_in_more(s2, "</D:displayname>"@, href(at));
    text::lemma_occurs_in_more(s3, "<D:resourcetype><D:collection/></D:resourcetype>"@, href(at));
    text::lemma_occurs_in_more(
        s4,
        "<D:getcontenttype>httpd/unix-directory</D:getcontenttype>"@,
        href(at),
    );
    text::lemma_occurs_in_more(s5, "<D:getlastmodified>"@, href(at));
    text::lemma_occurs_in_more(s6, now, href(at));
    text::lemma_occurs_in_more(s7, "</D:getlastmodified>"@, href(at));
    text::lemma_occurs_in_more(s8, end, href(at));
}

proof fn lemma_entry_opens()
    ensures
        "<D:response><D:href>/dav/"@ == "<D:response>"@ + "<D:href>/dav/"@,
        "</D:href><D:propstat><D:prop>"@ == "</D:href>"@ + "<D:propstat><D:prop>"@,
{
    reveal_strlit("<D:response><D:href>/dav/");
    reveal_strlit("<D:response>");
    reveal_strlit("<D:href>/dav/");
    reveal_strlit("</D:href><D:propstat><D:prop>");
    reveal_strlit("</D:href>");
    reveal_strlit("<D:propstat><D:prop>");
    assert("<D:response><D:href>/dav/"@ =~= "<D:response>"@ + "<D:href>/dav/"@);
    assert("</D:href><D:propstat><D:prop>"@ =~= "</D:href>"@ + "<D:propstat><D:prop>"@);
}

proof fn lemma_root_file_parts(file: FileModel, now: Seq<char>)
    ensures
        text::occurs(answers::root_file_entry(file, now), href(file.filename)),
        text::occurs(answers::root_file_entry(file, now), length_of(file.size)),
{
    let name = file.filename;
    let size = text::numeral(file.size as nat);
    let (at, len) = (href(name), length_of(file.size));
    lemma_entry_opens();
    let kind = "<D:getcontenttype>application/octet-stream</D:getcontenttype>"@;
    let end = "</D:prop><D:status>HTTP/1.1 200 OK</D:status></D:propstat></D:response>"@;
    let s0 = "<D:response><D:href>/dav/"@ + name + "</D:href><D:propstat><D:prop>"@;
    let s1 = s0 + "<D:displayname>"@;
    let s2 = s1 + name;
    let s3 = s2 + "</D:displayname>"@;
    let s4 = s3 + "<D:resourcetype/>"@;
    let s5 = s4 + "<D:getcontentlength>"@;
    let s6 = s5 + size;
    let s7 = s6 + "</D:getcontentlength>"@;
    let s8 = s7 + kind;
    let s9 = s8 + "<D:getlastmodified>"@;
    let s10 = s9 + now;
    let s11 = s10 + "</D:getlastmodified>"@;
    assert(s11 + end == answers::root_file_entry(file, now));
    lemma_inner_part(
        "<D:response>"@,
        "<D:href>/dav/"@,
        name,
        "</D:href>"@,
        "<D:propstat><D:prop>"@,
    );
    text::lemma_occurs_in_more(s0, "<D:displayname>"@, at);
    text::lemma_occurs_in_more(s1, name, at);
    text::lemma_occurs_in_more(s2, "</D:displayname>"@, at);
    text::lemma_occurs_in_more(s3, "<D:resourcetype/>"@, at);
    text::lemma_occurs_in_more(s4, "<D:getcontentlength>"@, at);
    text::lemma_occurs_in_more(s5, size, at);
    text::lemma_occurs_in_more(s6, "</D:getcontentlength>"@, at);
    lemma_last_part(s4, "<D:getcontentlength>"@, size, "</D:getcontentlength>"@);
    text::lemma_occurs_in_more(s7, kind, at);
    text::lemma_occurs_in_more(s7, kind, len);
    text::lemma_occurs_in_more(s8, "<D:getlastmodified>"@, at);
    text::lemma_occurs_in_more(s8, "<D:getlastmodified>"@, len);
    text::lemma_occurs_in_more(s9, now, at);
    text::lemma_occurs_in_more(s9, now, len);
    text::lemma_occurs_in_more(s10, "</D:getlastmodified>"@, at);
    text::lemma_occurs_in_more(s10, "</D:getlastmodified>"@, len);
    text::lemma_occurs_in_more(s11, end, at);
    text::lemma_occurs_in_more(s11, end, len);
}

/// The properties of a file point to its path and tell its length.
pub proof fn law_file_properties_tell_the_file(path: Seq<char>, file: FileModel)
    ensures
        text::occurs(answers::file_listing(path, file), href(path)),
        text::occurs(answers::file_listing(path, file), length_of(file.size)),
{
    let size = text::numeral(file.size as nat);
    let (at, len) = (href(path), length_of(file.size));
    lemma_property_words();
    let head = "<?xml version=\"1.0\" encoding=\"utf-8\"?>\n<D:multistatus xmlns:D=\"DAV:\">\n  <D:response>\n    "@;
    let title = "\n    <D:propstat>\n      <D:prop>\n        <D:displayname>"@;
    let kind = "</D:displayname>\n        <D:resourcetype/>\n        "@;
    let tail = "\n        <D:getcontenttype>application/octet-stream</D:getcontenttype>\n      </D:prop>\n      <D:status>HTTP/1.1 200 OK</D:status>\n    </D:propstat>\n  </D:response>\n</D:multistatus>"@;
    let s0 = (head + "<D:href>/dav/"@) + path + ("</D:href>"@ + title);
    let s1 = s0 + file.filename;
    let s2 = s1 + (kind + "<D:getcontentlength>"@);
    let s3 = s2 + size;
    let s4 = s3 + ("</D:getcontentlength>"@ + tail);
    assert(s4 == answers::file_listing(path, file));
    lemma_inner_part(head, "<D:href>/dav/"@, path, "</D:href>"@, title);
    text::lemma_occurs_in_more(s0, file.filename, at);
    text::lemma_occurs_in_more(s1, kind + "<D:getcontentlength>"@, at);
    text::lemma_occurs_in_more(s2, size, at);
    text::lemma_occurs_in_more(s3, "</D:getcontentlength>"@ + tail, at);
    lemma_inner_part(s1 + kind, "<D:getcontentlength>"@, size, "</D:getcontentlength>"@, tail);
    lemma_regroup(s1, kind, "<D:getcontentlength>"@);
}

/// The fixed texts of a file's properties are made of shorter ones.
proof fn lemma_property_words()
    ensures
        "<?xml version=\"1.0\" encoding=\"utf-8\"?>\n<D:multistatus xmlns:D=\"DAV:\">\n  <D:response>\n    <D:href>/dav/"@
            == "<?xml version=\"1.0\" encoding=\"utf-8\"?>\n<D:multistatus xmlns:D=\"DAV:\">\n  <D:response>\n    "@
            + "<D:href>/dav/"@,
        "</D:href>\n    <D:propstat>\n      <D:prop>\n        <D:displayname>"@ == "</D:href>"@
            + "\n    <D:propstat>\n      <D:prop>\n        <D:displayname>"@,
        "</D:displayname>\n        <D:resourcetype/>\n        <D:getcontentlength>"@
            == "</D:displayname>\n        <D:resourcetype/>\n        "@ + "<D:getcontentlength>"@,
        "</D:getcontentlength>\n        <D:getcontenttype>application/octet-stream</D:getcontenttype>\n      </D:prop>\n      <D:status>HTTP/1.1 200 OK</D:status>\n    </D:propstat>\n  </D:response>\n</D:multistatus>"@
            == "</D:getcontentlength>"@
            + "\n        <D:getcontenttype>application/octet-stream</D:getcontenttype>\n      </D:prop>\n      <D:status>HTTP/1.1 200 OK</D:status>\n    </D:propstat>\n  </D:response>\n</D:multistatus>"@,
{
    lemma_property_opens();
    reveal_strlit("</D:displayname>\n        <D:resourcetype/>\n        <D:getcontentlength>");
    reveal_strlit("</D:displayname>\n        <D:resourcetype/>\n        ");
    reveal_strlit("<D:getcontentlength>");
    reveal_strlit(
        "</D:getcontentlength>\n        <D:getcontenttype>application/octet-stream</D:getcontenttype>\n      </D:prop>\n      <D:status>HTTP/1.1 200 OK</D:status>\n    </D:propstat>\n  </D:response>\n</D:multistatus>",
    );
    reveal_strlit("</D:getcontentlength>");
    reveal_strlit(
        "\n        <D:getcontenttype>application/octet-stream</D:getcontenttype>\n      </D:prop>\n      <D:status>HTTP/1.1 200 OK</D:status>\n    </D:propstat>\n  </D:response>\n</D:multistatus>",
    );
    assert("</D:displayname>\n        <D:resourcetype/>\n        <D:getcontentlength>"@
        =~= "</D:displayname>\n        <D:resourcetype/>\n        "@ + "<D:getcontentlength>"@);
    assert("</D:getcontentlength>\n        <D:getcontenttype>application/octet-stream</D:getcontenttype>\n      </D:prop>\n      <D:status>HTTP/1.1 200 OK</D:status>\n    </D:propstat>\n  </D:response>\n</D:multistatus>"@
        =~= "</D:getcontentlength>"@
        + "\n        <D:getcontenttype>application/octet-stream</D:getcontenttype>\n      </D:prop>\n      <D:status>HTTP/1.1 200 OK</D:status>\n    </D:propstat>\n  </D:response>\n</D:multistatus>"@);
}

proof fn lemma_property_opens()
    ensures
        "<?xml version=\"1.0\" encoding=\"utf-8\"?>\n<D:multistatus xmlns:D=\"DAV:\">\n  <D:response>\n    <D:href>/dav/"@
            == "<?xml version=\"1.0\" encoding=\"utf-8\"?>\n<D:multistatus xmlns:D=\"DAV:\">\n  <D:response>\n    "@
            + "<D:href>/dav/"@,
        "</D:href>\n    <D:propstat>\n      <D:prop>\n        <D:displayname>"@ == "</D:href>"@
            + "\n    <D:propstat>\n      <D:prop>\n        <D:displayname>"@,
{
    reveal_strlit(
        "<?xml version=\"1.0\" encoding=\"utf-8\"?>\n<D:multistatus xmlns:D=\"DAV:\">\n  <D:response>\n    ",
    );
    reveal_strlit(
        "<?xml version=\"1.0\" encoding=\"utf-8\"?>\n<D:multistatus xmlns:D=\"DAV:\">\n  <D:response>\n    <D:href>/dav/",
    );
    reveal_strlit("<D:href>/dav/");
    reveal_strlit("</D:href>\n    <D:propstat>\n      <D:prop>\n        <D:displayname>");
    reveal_strlit("</D:href>");
    reveal_strlit("\n    <D:propstat>\n      <D:prop>\n        <D:displayname>");
    assert("<?xml version=\"1.0\" encoding=\"utf-8\"?>\n<D:multistatus xmlns:D=\"DAV:\">\n  <D:response>\n    <D:href>/dav/"@
        =~= "<?xml version=\"1.0\" encoding=\"utf-8\"?>\n<D:multistatus xmlns:D=\"DAV:\">\n  <D:response>\n    "@
        + "<D:href>/dav/"@);
    assert("</D:href>\n    <D:propstat>\n      <D:prop>\n        <D:displayname>"@
        =~= "</D:href>"@ + "\n    <D:propstat>\n      <D:prop>\n        <D:displayname>"@);
}

/// A listing is answered with the whole document, and a text with the text.
pub proof fn law_answers_carry_their_text(document: Seq<char>, status: u16)
    ensures
        answers::xml_answer(document).status == 207,
        answers::xml_answer(document).body == BodyModel::Text(document),
        answers::plain_answer(status, document).status == status,
        answers::plain_answer(status, document).body == BodyModel::Text(document),
{
}

/// The answer for the root shows each file at the root and each directory.
pub proof fn law_root_answer_shows_what_is_there(
    state: DavState,
    now: Seq<char>,
    i: int,
    name: Seq<char>,
)
    ensures
        ({
            let files = directory::listing(state.directory.tree@, "/"@);
            let body = state.root_answer(now).body;
            &&& state.root_answer(now).status == 207
            &&& body is Text
            &&& 0 <= i < files.len() ==> text::occurs(body->Text_0, href(files[i].filename))
                && text::occurs(body->Text_0, length_of(files[i].size))
            &&& directory::dirnames(state.directory.tree@).contains(name) && name
                != directory::root_dirname() ==> text::occurs(body->Text_0, href(name + "/"@))
        }),
{
    let names = directory::dirnames(state.directory.tree@);
    let keep = |name: Seq<char>| name != directory::root_dirname();
    let dirs = names.filter(keep);
    let files = directory::listing(state.directory.tree@, "/"@);
    lists::lemma_filter_members(names, keep, name);
    let d = if dirs.contains(name) {
        dirs.index_of(name)
    } else {
        -1
    };
    law_root_listing_shows_what_is_there(dirs, files, now, d, i);
}

/// An answer is seen with its status, all its headers and its whole body.
pub proof fn law_answer_is_seen_whole(r: DavResponse)
    ensures
        r@.status == r.status,
        r@.headers.len() == r.headers@.len(),
        forall|i: int|
            0 <= i < r.headers@.len() ==> (#[trigger] r@.headers[i]).0 == r.headers@[i].0@
                && r@.headers[i].1 == r.headers@[i].1@,
        match r.body {
            Body::Empty => r@.body is Empty,
            Body::Text(s) => r@.body == BodyModel::Text(s@),
            Body::Bytes(b) => r@.body == BodyModel::Bytes(b@),
        },
{
}

// ---------- Deleting ----------

/// A file that was deleted from a tree of distinct names is found no more at its
/// path, while every path that leads elsewhere leads where it led before.
pub proof fn law_deleted_file_is_gone(root: Seq<DirModel>, path: Seq<char>, other: Seq<char>)
    requires
        directory::laws::well_named(root),
        directory::resolved(root, path) is Some,
    ensures
        directory::resolved(directory::without_file(root, path), path) is None,
        directory::leaf_of(other) != directory::leaf_of(path) ==> directory::resolved(
            directory::without_file(root, path),
            other,
        ) == directory::resolved(root, other),
{
    let home = directory::home_of(path);
    directory::laws::law_resolved_file_bears_the_name(
        root,
        path,
        directory::resolved(root, path)->0,
    );
    assert(directory::laws::distinct_files(root[directory::place_of(root, home)].files));
    directory::laws::law_removed_file_is_gone(root, path);
    if directory::leaf_of(other) != directory::leaf_of(path) {
        directory::laws::law_remove_keeps_other_files(root, path, other);
    }
}

} // verus!

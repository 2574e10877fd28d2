use ghost_nas::config::WanPeer;
use ghost_nas::crypto::gf256_shamir::shares_under_mask;
use ghost_nas::crypto::{
    blake3_hash, decrypt_message, encrypt_message, merkle_root, rs_encode_n, shamir_join,
};
use ghost_nas::davfs::answers::{
    dav_mkcol, dav_move, dav_options, dav_refuse, dav_root_refuse, dir_response,
    download_response, file_not_found, file_response, root_response, upload_response, Body,
    DavResponse,
};
use ghost_nas::davfs::blocks::{
    open_block, reconstruct_block, reconstruct_file, seal_block, seal_file, seal_file_with,
    with_shares, BlockSource,
};
use ghost_nas::davfs::{dav_action, dav_path, DavAction, DavState, StoredFile};
use ghost_nas::directory::{BlockKey, DirectoryError, EncryptedDirectory, FileEntry};
use ghost_nas::router::WanRouter;
use ghost_nas::vault::{Vault, VaultFile};

fn state(block_size: usize) -> DavState {
    let peers = vec![WanPeer {
        nickname: "p".to_string(),
        address: "p:9001".to_string(),
        public_key_hex: String::new(),
        geo_tag: "eu".to_string(),
    }];
    DavState {
        directory: EncryptedDirectory::open(&[1u8; 32], None),
        router: WanRouter::new("me".to_string(), "m:1".to_string(), "k".to_string(), peers),
        rs_data_shards: 2,
        rs_parity_shards: 1,
        block_size,
    }
}

fn text(r: &DavResponse) -> &str {
    match &r.body {
        Body::Text(s) => s,
        Body::Empty => "",
        Body::Bytes(_) => panic!("bytes"),
    }
}

fn headers(r: &DavResponse) -> Vec<(&str, &str)> {
    r.headers.iter().map(|(a, b)| (a.as_str(), b.as_str())).collect()
}

fn entry(name: &str, size: u64) -> FileEntry {
    FileEntry {
        filename: name.to_string(),
        size,
        content_hash: [0; 32],
        block_count: 0,
        block_groups: vec![],
        block_keys: vec![],
        created_at_ns: 0,
        modified_at_ns: 0,
        mode: 0o644,
        version: 1,
    }
}

fn sources(stored: &StoredFile) -> Vec<BlockSource> {
    stored
        .blocks
        .iter()
        .map(|b| BlockSource { shards: Some(b.shards.iter().cloned().map(Some).collect()) })
        .collect()
}

#[test]
fn methods_are_dispatched() {
    assert_eq!(dav_action("OPTIONS"), DavAction::Options);
    assert_eq!(dav_action("PROPFIND"), DavAction::Propfind);
    assert_eq!(dav_action("GET"), DavAction::Get);
    assert_eq!(dav_action("HEAD"), DavAction::Get);
    assert_eq!(dav_action("PUT"), DavAction::Put);
    assert_eq!(dav_action("DELETE"), DavAction::Delete);
    assert_eq!(dav_action("MKCOL"), DavAction::Mkcol);
    assert_eq!(dav_action("MOVE"), DavAction::Move);
    assert_eq!(dav_action("COPY"), DavAction::Refuse);
    assert_eq!(dav_action("get"), DavAction::Refuse);
}

#[test]
fn paths_below_dav() {
    assert_eq!(dav_path("/dav/a/b"), Some("a/b".to_string()));
    assert_eq!(dav_path("/dav/"), None);
    assert_eq!(dav_path("/dav//"), None);
    assert_eq!(dav_path("/dav//dav/x"), Some("x".to_string()));
    assert_eq!(dav_path("/other"), Some("/other".to_string()));
}

#[test]
fn fixed_answers() {
    let o = dav_options();
    assert_eq!(o.status, 200);
    assert_eq!(
        headers(&o),
        [
            ("DAV", "1, 2"),
            ("Allow", "OPTIONS, PROPFIND, GET, PUT, DELETE, MKCOL, MOVE"),
            ("MS-Author-Via", "DAV"),
        ]
    );
    let r = dav_refuse();
    assert_eq!((r.status, r.headers.len()), (405, 1));
    assert_eq!((dav_root_refuse().status, dav_root_refuse().headers.len()), (405, 0));
    assert_eq!((dav_mkcol().status, text(&dav_mkcol())), (405, "Directories are auto-created"));
    assert_eq!((dav_move().status, text(&dav_move())), (501, "MOVE not yet implemented"));
    assert_eq!((file_not_found().status, text(&file_not_found())), (404, "File not found"));
}

#[test]
fn downloads_and_uploads_are_answered() {
    let ok = download_response("a.txt", Ok(vec![1, 2, 3]));
    assert_eq!(ok.status, 200);
    assert_eq!(
        headers(&ok),
        [
            ("Content-Type", "application/octet-stream"),
            ("Content-Disposition", "attachment; filename=\"a.txt\""),
            ("Content-Length", "3"),
        ]
    );
    assert!(matches!(ok.body, Body::Bytes(b) if b == [1, 2, 3]));
    let bad = download_response("a.txt", Err("why".to_string()));
    assert_eq!((bad.status, text(&bad)), (500, "File reconstruction failed: why"));
    let up = upload_response(Ok(()));
    assert_eq!((up.status, text(&up)), (201, "File uploaded"));
    let down = upload_response(Err("why".to_string()));
    assert_eq!((down.status, text(&down)), (500, "File storage failed: why"));
}

#[test]
fn root_listing_is_xml() {
    let r = root_response(&vec!["docs".to_string()], &vec![entry("a", 7)], "NOW");
    assert_eq!(r.status, 207);
    assert_eq!(headers(&r), [("Content-Type", "application/xml; charset=utf-8")]);
    let tail = "</D:prop><D:status>HTTP/1.1 200 OK</D:status></D:propstat></D:response>";
    let dir = |href: &str, name: &str| {
        format!(
            "<D:response><D:href>/dav/{href}</D:href><D:propstat><D:prop><D:displayname>{name}</D:displayname><D:resourcetype><D:collection/></D:resourcetype><D:getcontenttype>httpd/unix-directory</D:getcontenttype><D:getlastmodified>NOW</D:getlastmodified>{tail}"
        )
    };
    let expected = format!(
        "<?xml version=\"1.0\" encoding=\"utf-8\"?><D:multistatus xmlns:D=\"DAV:\">{}{}<D:response><D:href>/dav/a</D:href><D:propstat><D:prop><D:displayname>a</D:displayname><D:resourcetype/><D:getcontentlength>7</D:getcontentlength><D:getcontenttype>application/octet-stream</D:getcontenttype><D:getlastmodified>NOW</D:getlastmodified>{tail}</D:multistatus>",
        dir("", "GHOST NAS"),
        dir("docs/", "docs"),
    );
    assert_eq!(text(&r), expected);
}

#[test]
fn file_properties_are_xml() {
    let r = file_response("d/a", &entry("a", 12));
    let expected = r#"<?xml version="1.0" encoding="utf-8"?>
<D:multistatus xmlns:D="DAV:">
  <D:response>
    <D:href>/dav/d/a</D:href>
    <D:propstat>
      <D:prop>
        <D:displayname>a</D:displayname>
        <D:resourcetype/>
        <D:getcontentlength>12</D:getcontentlength>
        <D:getcontenttype>application/octet-stream</D:getcontenttype>
      </D:prop>
      <D:status>HTTP/1.1 200 OK</D:status>
    </D:propstat>
  </D:response>
</D:multistatus>"#;
    assert_eq!(text(&r), expected);
}

#[test]
fn directory_listing_is_xml() {
    let r = dir_response("d", &vec![entry("a", 1)]);
    let expected = "<?xml version=\"1.0\" encoding=\"utf-8\"?><D:multistatus xmlns:D=\"DAV:\"><D:response><D:href>/dav/d/</D:href><D:propstat><D:prop><D:displayname>d</D:displayname><D:resourcetype><D:collection/></D:resourcetype></D:prop><D:status>HTTP/1.1 200 OK</D:status></D:propstat></D:response><D:response><D:href>/dav/d/a</D:href><D:propstat><D:prop><D:displayname>a</D:displayname><D:resourcetype/><D:getcontentlength>1</D:getcontentlength></D:prop><D:status>HTTP/1.1 200 OK</D:status></D:propstat></D:response></D:multistatus>";
    assert_eq!(text(&r), expected);
    let slashed = dir_response("/d/", &vec![entry("a", 1)]);
    assert!(text(&slashed).contains("<D:href>/dav/d/</D:href>"));
    assert!(text(&slashed).contains("<D:href>/dav/d/a</D:href>"));
    let root = dir_response("//", &vec![entry("a", 1)]);
    assert!(text(&root).contains("<D:href>/dav/</D:href>"));
    assert!(text(&root).contains("<D:href>/dav/a</D:href>"));
}

#[test]
fn sealed_block_under_a_known_key() {
    let key = [5u8; 32];
    let b = seal_block(b"hello", 3, &key, 2, 1);
    let mut cipher = b"hello".to_vec();
    encrypt_message(&key, 4, &mut cipher);
    assert_eq!(b.counter, 4);
    assert_eq!(b.shards, rs_encode_n(&cipher, 2, 1));
    assert_eq!(b.root, merkle_root(&b.shards));
    let named = [3u64.to_le_bytes().to_vec(), cipher.clone()].concat();
    assert_eq!(b.group_id, hex::encode(&blake3_hash(&named)[..16]));
    assert_eq!(seal_block(b"hello", 3, &key, 0, 1).shards, [cipher]);
}

#[test]
fn files_are_cut_into_blocks() {
    for (len, size, count) in [(0usize, 4usize, 0usize), (1, 4, 1), (4, 4, 1), (5, 4, 2), (9, 3, 3)] {
        let blocks = seal_file(&vec![7u8; len], size, 2, 1).unwrap();
        assert_eq!(blocks.len(), count);
        for (i, b) in blocks.iter().enumerate() {
            let plain = size.min(len - i * size);
            assert_eq!(b.shards[0].len(), (plain + 16 + 1) / 2);
        }
    }
}

#[test]
fn block_keys_are_fresh() {
    let a = seal_file(b"same", 4, 2, 1).unwrap();
    let b = seal_file(b"same", 4, 2, 1).unwrap();
    assert_ne!(a[0].group_id, b[0].group_id);
    assert_ne!(a[0].key_shares, b[0].key_shares);
}

#[test]
fn files_are_sealed_under_given_keys() {
    let keys = vec![[1u8; 32], [2u8; 32]];
    let blocks = seal_file_with(b"hello", 4, 2, 1, &keys);
    assert_eq!(blocks.len(), 2);
    for (i, plain) in [&b"hell"[..], b"o"].into_iter().enumerate() {
        let one = seal_block(plain, i, &keys[i], 2, 1);
        assert_eq!(blocks[i].group_id, one.group_id);
        assert_eq!(blocks[i].shards, one.shards);
        assert_eq!((blocks[i].plain_len, blocks[i].key_shares.len()), (plain.len(), 0));
    }
    assert!(seal_file_with(b"", 4, 2, 1, &Vec::new()).is_empty());
    assert!(seal_file(b"", 4, 2, 1).unwrap().is_empty());
}

#[test]
fn files_are_entered_as_sealed() {
    let mut s = state(4);
    let keys = vec![[1u8; 32], [2u8; 32]];
    let shares = keys.iter().map(|k| shares_under_mask(k, &[9; 32])).collect();
    let sealed = with_shares(seal_file_with(b"hello", 4, 2, 1, &keys), shares);
    let ids: Vec<String> = sealed.iter().map(|b| b.group_id.clone()).collect();
    let stored = s.enter_file("d/a", b"hello", sealed, 7);
    assert!(stored.outcome.is_ok());
    assert_eq!(stored.routes.len(), 2);
    let f = s.directory.resolve_path("d/a").unwrap();
    assert_eq!(f.block_groups, ids);
    assert_eq!((f.size, f.block_count, f.created_at_ns), (5, 2, 7));
    assert_eq!((f.block_keys[0].block_len, f.block_keys[1].block_len), (4, 1));
    for (k, key) in f.block_keys.iter().zip(&keys) {
        assert_eq!(shamir_join(&k.shares[2], &k.shares[0]), *key);
    }
    assert_eq!(reconstruct_file(&f, &mut sources(&stored), 2, 1).unwrap(), b"hello");
}

#[test]
fn uploaded_file_resolves() {
    let mut s = state(4);
    s.router.mark_online("p");
    let stored = s.store_file("docs/a.txt", b"hello", 77).unwrap();
    assert!(stored.outcome.is_ok());
    assert_eq!(stored.blocks.len(), 2);
    let f = s.directory.resolve_path("docs/a.txt").unwrap();
    assert_eq!((f.filename.as_str(), f.size, f.block_count), ("a.txt", 5, 2));
    assert_eq!((f.mode, f.version, f.created_at_ns, f.modified_at_ns), (0o644, 1, 77, 77));
    assert_eq!(f.content_hash, blake3_hash(b"hello"));
    for (i, b) in stored.blocks.iter().enumerate() {
        assert_eq!(f.block_groups[i], b.group_id);
        let route = s.router.get_route(&b.group_id).unwrap();
        assert_eq!((route.total_shards, route.created_at_ns), (3, 77));
        assert_eq!(s.push_target(&route, 0), None);
        assert_eq!(s.push_target(&route, 2), Some("p:9001".to_string()));
        assert_eq!(s.push_target(&route, 3), None);
        assert_eq!(stored.routes[i].group_id, b.group_id);
    }
    assert!(s.store_file("bare", b"x", 1).unwrap().outcome.is_ok());
    assert_eq!(s.directory.resolve_path("bare").unwrap().size, 1);
    assert!(s.store_file("/docs/b.txt", b"22", 1).unwrap().outcome.is_ok());
    assert_eq!(s.directory.resolve_path("/docs/b.txt").unwrap().size, 2);
    assert!(s.store_file("/lone", b"333", 1).unwrap().outcome.is_ok());
    assert_eq!(s.directory.resolve_path("/lone").unwrap().size, 3);
    assert!(s.store_file("x/y/z", b"4444", 1).unwrap().outcome.is_ok());
    assert_eq!(s.directory.resolve_path("x/y/z").unwrap().size, 4);
    assert!(s.store_file("//x//y", b"55555", 1).unwrap().outcome.is_ok());
    assert_eq!(s.directory.resolve_path("//x//y").unwrap().size, 5);
}

#[test]
fn this_node_gets_no_push() {
    let mut s = state(4);
    let stored = s.store_file("a", b"x", 1).unwrap();
    for i in 0..4 {
        assert_eq!(s.push_target(&stored.routes[0], i), None);
    }
    s.router.our_nickname = "other".to_string();
    assert_eq!(s.push_target(&stored.routes[0], 0), Some("m:1".to_string()));
    s.router.our_nickname = "me".to_string();
    s.router.our_address = "n:1".to_string();
    assert_eq!(s.push_target(&stored.routes[0], 0), Some("m:1".to_string()));
    let mut route = s.store_file("b", b"x", 1).unwrap().routes.remove(0);
    route.locations[1].peer_nickname = "local".to_string();
    assert_eq!(s.push_target(&route, 1), None);
}

#[test]
fn second_upload_clashes() {
    let mut s = state(4);
    assert!(s.store_file("d/a", b"1", 1).unwrap().outcome.is_ok());
    let again = s.store_file("d/a", b"22", 1).unwrap();
    assert!(matches!(again.outcome, Err(DirectoryError::PathExists(n)) if n == "a"));
    assert_eq!(s.directory.resolve_path("d/a").unwrap().size, 1);
    assert_eq!(s.router.route_count(), 2);
    assert!(s.store_file("top", b"1", 1).unwrap().outcome.is_ok());
    let root = s.store_file("/top", b"22", 1).unwrap();
    assert!(matches!(root.outcome, Err(DirectoryError::PathExists(n)) if n == "top"));
    assert_eq!(s.directory.resolve_path("top").unwrap().size, 1);
}

#[test]
fn stored_file_reads_back() {
    for len in [0usize, 1, 3, 4, 5, 8, 33] {
        let data: Vec<u8> = (0..len).map(|i| i as u8 * 5).collect();
        let mut s = state(4);
        let stored = s.store_file("d/a", &data, 1).unwrap();
        let f = s.directory.resolve_path("d/a").unwrap();
        assert_eq!(reconstruct_file(&f, &mut sources(&stored), 2, 1).unwrap(), data);
        for lost in 0..3 {
            let mut src = sources(&stored);
            for b in src.iter_mut() {
                b.shards.as_mut().unwrap()[lost] = None;
            }
            assert_eq!(reconstruct_file(&f, &mut src, 2, 1).unwrap(), data);
        }
    }
}

#[test]
fn blocks_without_their_key_do_not_open() {
    let mut s = state(4);
    let stored = s.store_file("d/a", b"hello", 1).unwrap();
    let f = s.directory.resolve_path("d/a").unwrap();
    let mut wrong = f.clone();
    wrong.block_keys[1].shares[0][7] ^= 1;
    assert_eq!(
        reconstruct_file(&wrong, &mut sources(&stored), 2, 1).unwrap_err(),
        "Decryption failed for block 1"
    );
    let mut cut = f.clone();
    cut.block_keys.pop();
    assert_eq!(
        reconstruct_file(&cut, &mut sources(&stored), 2, 1).unwrap_err(),
        "No key for block 1"
    );
    let one = vec![BlockKey { block_len: 4, shares: vec![vec![1; 33]] }];
    assert_eq!(open_block(b"x", 0, &one).unwrap_err(), "No key for block 0");
    let torso = vec![BlockKey { block_len: 4, shares: vec![vec![1; 33], vec![2; 32]] }];
    assert_eq!(open_block(b"x", 0, &torso).unwrap_err(), "No key for block 0");
}

#[test]
fn uploads_pass_through_the_vault() {
    let mut s = state(64);
    let stored = s.store_file("a", b"some file contents", 1).unwrap();
    let b = &stored.blocks[0];
    let vault = Vault::open("/v".to_string(), 60, &Vec::new());
    let mut files: Vec<(String, Vec<u8>)> = Vec::new();
    for (i, shard) in b.shards.iter().enumerate() {
        let at = |n: &str, f: &[(String, Vec<u8>)]| {
            f.iter().rev().find(|(m, _)| m == n).map(|(_, d)| d.clone())
        };
        let seq = at("seq", &files).map(|d| String::from_utf8(d).unwrap());
        let root = at("merkle_root.bin", &files).is_some();
        let plan = vault
            .store_shard(&b.group_id, i, shard, b.counter, b.root, 3, &seq, root, false, 1)
            .unwrap()
            .unwrap();
        for w in plan.writes {
            files.push((w.file.name(), w.data));
        }
    }
    for lost in 0..4 {
        let shards: Vec<Option<Vec<u8>>> = (0..3)
            .map(|i| {
                let name = VaultFile::Shard(i).name();
                let data = files.iter().find(|(m, _)| *m == name).map(|(_, d)| d.clone());
                if i == lost { None } else { data }
            })
            .collect();
        let mut source = BlockSource { shards: Some(shards) };
        let f = s.directory.resolve_path("a").unwrap();
        let read = reconstruct_block(&f, &mut source, 0, 2, 1).unwrap();
        assert_eq!(read, b"some file contents");
    }
}

#[test]
fn block_opens_under_its_key() {
    let key = [6u8; 32];
    let b = seal_block(b"hello", 0, &key, 3, 2);
    let all: Vec<u8> = b.shards.concat();
    let mut cipher = all[..5 + 16].to_vec();
    assert_eq!(decrypt_message(&key, b.counter, &mut cipher).unwrap(), b"hello");
}

#[test]
fn unreadable_blocks_are_named() {
    let mut f = entry("a", 2);
    f.block_groups = vec!["g".to_string(), "h".to_string()];
    let mut none = BlockSource { shards: None };
    assert_eq!(reconstruct_block(&f, &mut none, 0, 2, 1).unwrap_err(), "No route for group g");
    let few = vec![Some(vec![1u8]), None, None];
    let mut lost = BlockSource { shards: Some(few) };
    assert_eq!(
        reconstruct_block(&f, &mut lost, 1, 2, 1).unwrap_err(),
        "RS reconstruction failed for block 1: The number of shards present is smaller than number of parity shards, cannot reconstruct missing shards"
    );
    let mut s = state(4);
    let stored = s.store_file("b", b"hello", 1).unwrap();
    let mut src = sources(&stored);
    src[1].shards = None;
    let g = s.directory.resolve_path("b").unwrap();
    assert_eq!(
        reconstruct_file(&g, &mut src, 2, 1).unwrap_err(),
        format!("No route for group {}", g.block_groups[1])
    );
    let nothing = reconstruct_file(&entry("c", 0), &mut Vec::new(), 0, 0).unwrap();
    assert_eq!(nothing, Vec::<u8>::new());
    let mut lost = vec![BlockSource { shards: None }, BlockSource { shards: None }];
    assert_eq!(reconstruct_file(&f, &mut lost, 0, 1).unwrap_err(), "No route for group g");
}

#[test]
fn properties_of_files_directories_and_root() {
    let mut s = state(4);
    assert!(s.store_file("d/a", b"123", 1).unwrap().outcome.is_ok());
    let f = s.directory.resolve_path("d/a").unwrap();
    assert_eq!(text(&s.dav_propfind("d/a")), text(&file_response("d/a", &f)));
    assert_eq!(text(&s.dav_propfind("d")), text(&dir_response("d", &vec![f.clone()])));
    assert_eq!(text(&s.dav_propfind("x")), text(&dir_response("x", &Vec::new())));
    assert!(s.store_file("top", b"1", 1).unwrap().outcome.is_ok());
    let top = s.directory.resolve_path("top").unwrap();
    let listing = root_response(&vec!["d".to_string()], &vec![top], "T");
    assert_eq!(text(&s.dav_root("T")), text(&listing));
    assert!(text(&s.dav_propfind("d")).contains("<D:href>/dav/d/a</D:href>"));
    assert!(!text(&s.dav_root("T")).contains("<D:href>/dav/a</D:href>"));
}

#[test]
fn requests_to_the_root_are_answered() {
    let s = state(4);
    assert_eq!(headers(&s.dav_root_answer("OPTIONS", "T")), headers(&dav_options()));
    assert_eq!(s.dav_root_answer("OPTIONS", "T").status, 200);
    assert_eq!(text(&s.dav_root_answer("PROPFIND", "T")), text(&s.dav_root("T")));
    for method in ["GET", "PUT", "DELETE", "COPY"] {
        let r = s.dav_root_answer(method, "T");
        assert_eq!((r.status, r.headers.len()), (405, 0));
        assert!(matches!(r.body, Body::Empty));
    }
}

#[test]
fn deleted_files_lose_their_routes() {
    let mut s = state(4);
    assert!(s.store_file("d/a", b"hello", 1).unwrap().outcome.is_ok());
    assert!(s.store_file("d/b", b"hello", 1).unwrap().outcome.is_ok());
    assert_eq!(s.router.route_count(), 4);
    let groups = s.directory.resolve_path("d/a").unwrap().block_groups;
    let (wiped, answer) = s.dav_delete("d/a");
    assert_eq!(wiped, groups);
    assert_eq!((answer.status, text(&answer)), (204, ""));
    assert_eq!(s.router.route_count(), 2);
    assert!(groups.iter().all(|g| s.router.get_route(g).is_none()));
    assert!(!s.directory.path_exists("d/a"));
    let (nothing, answer) = s.dav_delete("d/a");
    assert!(nothing.is_empty());
    assert_eq!((answer.status, text(&answer)), (404, "File not found"));
}

#[test]
fn deleting_takes_the_whole_path() {
    let mut s = state(4);
    assert!(s.store_file("d/a", b"hello", 1).unwrap().outcome.is_ok());
    for path in ["a", "d/x/a", "x/a"] {
        let (wiped, answer) = s.dav_delete(path);
        assert!(wiped.is_empty());
        assert_eq!((answer.status, text(&answer)), (404, "File not found"));
    }
    assert!(s.directory.path_exists("d/a"));
    assert_eq!(s.router.route_count(), 2);
    assert!(s.store_file("x/y/z", b"1", 1).unwrap().outcome.is_ok());
    assert_eq!(s.dav_delete("x/y/z").1.status, 204);
    assert!(!s.directory.path_exists("x/y/z"));
}

#[test]
fn shards_come_from_the_vault() {
    let mut s = state(4);
    let stored = s.store_file("a", b"x", 1).unwrap();
    let route = &stored.routes[0];
    assert_eq!(s.obtain_shard(route, 0, Some(vec![1])), Some(vec![1]));
    assert_eq!(s.obtain_shard(route, 0, None), None);
    assert_eq!(s.obtain_shard(route, 9, None), None);
}

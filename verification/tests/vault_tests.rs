use ghost_nas::crypto::merkle_root;
use ghost_nas::vault::{
    file_path, group_dir, group_of_meta_file, is_wiped, meta_path, read_counter, ShardGroupMeta,
    Vault, VaultError, VaultFile, REPLAY_WINDOW, WIPE_PASSES,
};

fn meta(created_at_ns: u64, ttl_secs: u64) -> ShardGroupMeta {
    ShardGroupMeta {
        v_max: 1,
        bitmask: 0,
        merkle_root: [1; 32],
        expected_shard_count: 3,
        created_at_ns,
        ttl_secs,
    }
}

fn empty(ttl: u64) -> Vault {
    Vault::open("/v".to_string(), ttl, &Vec::new())
}

fn names(v: &[&str]) -> Vec<String> {
    v.iter().map(|s| s.to_string()).collect()
}

#[test]
fn vault_errors_have_texts() {
    let e = |s: &str| s.to_string();
    assert_eq!(VaultError::Io(e("x")).message(), "IO error: x");
    assert_eq!(VaultError::ShardNotFound(e("g/1")).message(), "Shard not found: g/1");
    assert_eq!(
        VaultError::IntegrityError(e("g/1")).message(),
        "Integrity check failed for shard g/1"
    );
    assert_eq!(
        VaultError::ReplayDetected(12).message(),
        "Replay attack detected: counter 12 is stale"
    );
    assert_eq!(VaultError::Serde(e("x")).message(), "Serialization error: x");
    assert_eq!((REPLAY_WINDOW, WIPE_PASSES), (128, 3));
}

#[test]
fn vault_files_have_their_places() {
    assert_eq!(file_path("g", VaultFile::Shard(2)), ["shards", "g", "shard_002.bin"]);
    assert_eq!(file_path("g", VaultFile::Shard(1234)), ["shards", "g", "shard_1234.bin"]);
    assert_eq!(file_path("g", VaultFile::Sequence), ["shards", "g", "seq"]);
    assert_eq!(file_path("g", VaultFile::Bitmask), ["shards", "g", "bitmask"]);
    assert_eq!(file_path("g", VaultFile::MerkleRoot), ["shards", "g", "merkle_root.bin"]);
    assert_eq!(group_dir("g"), ["shards", "g"]);
    assert_eq!(meta_path("g"), [".meta", "g.json"]);
}

#[test]
fn file_extensions_decide() {
    assert!(is_wiped("shard_000.bin"));
    assert!(is_wiped("merkle_root.bin"));
    assert!(!is_wiped("seq"));
    assert!(!is_wiped(".bin"));
    assert!(!is_wiped("xbin"));
    assert_eq!(group_of_meta_file("ab.json"), Some("ab".to_string()));
    assert_eq!(group_of_meta_file("a.b.json"), Some("a.b".to_string()));
    assert_eq!(group_of_meta_file(".json"), None);
    assert_eq!(group_of_meta_file("directory.enc"), None);
}

#[test]
fn counters_read_with_white_space_or_as_zero() {
    assert_eq!(read_counter(" 42\n"), 42);
    assert_eq!(read_counter(""), 0);
    assert_eq!(read_counter("x"), 0);
    assert_eq!(read_counter("18446744073709551615"), u64::MAX);
    assert_eq!(read_counter("18446744073709551616"), 0);
}

#[test]
fn open_recovers_metadata() {
    let found = vec![
        ("a.json".to_string(), meta(1, 1)),
        ("directory.enc".to_string(), meta(2, 2)),
        ("b.json".to_string(), meta(3, 3)),
        ("a.json".to_string(), meta(4, 4)),
    ];
    let v = Vault::open("/v".to_string(), 9, &found);
    assert_eq!(v.group_count(), 2);
    assert_eq!(v.all_group_ids(), ["a", "b"]);
    assert_eq!(v.get_meta("a").unwrap().created_at_ns, 4);
    assert!(v.get_meta("directory").is_none());
    assert_eq!((v.root.as_str(), v.ttl_secs), ("/v", 9));
}

#[test]
fn first_shard_writes_sequence_root_and_shard() {
    let v = empty(60);
    let plan = v.store_shard("g", 1, b"data", 7, [5; 32], 3, &None, false, false, 1000).unwrap().unwrap();
    let w: Vec<(String, Vec<u8>)> =
        plan.writes.iter().map(|w| (w.file.name(), w.data.clone())).collect();
    assert_eq!(
        w,
        [
            ("seq".to_string(), b"7".to_vec()),
            ("merkle_root.bin".to_string(), vec![5; 32]),
            ("shard_001.bin".to_string(), b"data".to_vec()),
        ]
    );
    let m = plan.meta;
    assert_eq!((m.v_max, m.bitmask, m.merkle_root), (7, 0, [5; 32]));
    assert_eq!((m.expected_shard_count, m.created_at_ns, m.ttl_secs), (3, 1000, 60));
}

#[test]
fn later_shards_write_less() {
    let mut v = empty(60);
    v.remember("g", meta(1, 60));
    let seq = Some("9".to_string());
    let plan = v.store_shard("g", 0, b"d", 9, [5; 32], 3, &seq, true, false, 2).unwrap().unwrap();
    let w: Vec<String> = plan.writes.iter().map(|w| w.file.name()).collect();
    assert_eq!(w, ["shard_000.bin"]);
    assert_eq!(plan.meta.merkle_root, [1; 32]);
    assert_eq!(plan.meta.v_max, 9);
    let old = v.store_shard("g", 0, b"d", 3, [5; 32], 3, &seq, true, false, 2).unwrap().unwrap();
    assert_eq!(old.meta.v_max, 9);
}

#[test]
fn far_counters_restart_the_window() {
    let v = empty(60);
    let seq = Some("10".to_string());
    let plan = v.store_shard("g", 0, b"d", 139, [5; 32], 3, &seq, true, false, 2).unwrap().unwrap();
    let w: Vec<(String, Vec<u8>)> =
        plan.writes.iter().map(|w| (w.file.name(), w.data.clone())).collect();
    assert_eq!(w[0], ("bitmask".to_string(), b"1".to_vec()));
    assert_eq!(w[1], ("seq".to_string(), b"139".to_vec()));
    let near = v.store_shard("g", 0, b"d", 138, [5; 32], 3, &seq, true, false, 2).unwrap().unwrap();
    assert_eq!(near.writes[0].file.name(), "seq");
}

#[test]
fn replays_are_not_stored() {
    let v = empty(60);
    let seq = Some("200".to_string());
    for present in [false, true] {
        match v.store_shard("g", 0, b"d", 72, [5; 32], 3, &seq, true, present, 2) {
            Err(VaultError::ReplayDetected(counter)) => assert_eq!(counter, 72),
            _ => panic!("not stale"),
        }
        match v.store_shard("g", 0, b"d", 0, [5; 32], 3, &None, false, present, 2) {
            Err(VaultError::ReplayDetected(counter)) => assert_eq!(counter, 0),
            _ => panic!("not stale"),
        }
    }
    let edge = v.store_shard("g", 0, b"d", 73, [5; 32], 3, &seq, true, false, 2);
    assert!(matches!(edge, Ok(Some(_))));
    let top = Some(u64::MAX.to_string());
    let last = v.store_shard("g", 0, b"d", u64::MAX, [5; 32], 3, &top, true, false, 2);
    assert!(matches!(last, Ok(Some(_))));
}

#[test]
fn stored_shard_reads_back() {
    let v = empty(60);
    let plan = v.store_shard("g", 4, b"data", 300, [5; 32], 3, &None, false, false, 1).unwrap().unwrap();
    let on_disk = |f: &str| {
        plan.writes.iter().rev().find(|w| w.file.name() == f).map(|w| w.data.clone())
    };
    let seq = String::from_utf8(on_disk("seq").unwrap()).unwrap();
    let shard = Vault::read_shard("g", 4, on_disk("shard_004.bin"), &seq).unwrap();
    assert_eq!((shard.group_id.as_str(), shard.shard_index), ("g", 4));
    assert_eq!((shard.data, shard.counter), (b"data".to_vec(), 300));
    let again = v.store_shard("g", 4, b"x", 172, [5; 32], 3, &Some(seq), true, true, 1);
    assert!(matches!(again, Err(VaultError::ReplayDetected(172))));
}

#[test]
fn a_group_takes_all_its_shards() {
    let v = empty(60);
    let mut seq: Option<String> = None;
    for i in 0..3 {
        let plan = v.store_shard("g", i, b"d", 1, [5; 32], 3, &seq, i > 0, false, 1).unwrap().unwrap();
        if let Some(w) = plan.writes.iter().find(|w| w.file.name() == "seq") {
            seq = Some(String::from_utf8(w.data.clone()).unwrap());
        }
    }
    assert_eq!(seq, Some("1".to_string()));
}

#[test]
fn a_repeated_shard_is_refused() {
    let v = empty(60);
    let first = v.store_shard("g", 0, b"d", 5, [5; 32], 3, &None, false, false, 1).unwrap().unwrap();
    let seq = first.writes.iter().find(|w| w.file.name() == "seq").unwrap();
    let seq = Some(String::from_utf8(seq.data.clone()).unwrap());
    let arrive = |i: usize, counter: u64, present: bool| {
        v.store_shard("g", i, b"e", counter, [5; 32], 3, &seq, true, present, 1)
    };
    assert!(matches!(arrive(0, 5, true), Ok(None)));
    assert!(matches!(arrive(0, 4, true), Ok(None)));
    assert!(matches!(arrive(0, 6, true), Ok(Some(_))));
    assert!(matches!(arrive(1, 5, false), Ok(Some(_))));
}

#[test]
fn shards_are_held_to_their_root() {
    let shards = vec![b"a".to_vec(), b"b".to_vec(), b"c".to_vec()];
    let root = merkle_root(&shards);
    assert!(Vault::check_integrity("g", &shards, &root).is_ok());
    let mut other = shards.clone();
    other[1][0] ^= 1;
    match Vault::check_integrity("g", &other, &root) {
        Err(VaultError::IntegrityError(what)) => assert_eq!(what, "g"),
        _ => panic!("accepted"),
    }
    assert!(Vault::check_integrity("g", &shards, &root[..31]).is_err());
}

#[test]
fn missing_shard_is_named() {
    match Vault::read_shard("g", 12, None, "") {
        Err(VaultError::ShardNotFound(what)) => assert_eq!(what, "g/12"),
        _ => panic!("found"),
    }
}

#[test]
fn shards_are_listed_in_order() {
    let n = names(&[
        "shard_010.bin",
        "seq",
        "shard_002.bin",
        "shard_xyz.bin",
        "shard_.bin",
        "shard_000.bin",
        "shard_001.txt",
        "merkle_root.bin",
        "shard_+07.bin",
        "shard_0123.bin",
        "shard_1234.bin",
        "shard_002.bin",
    ]);
    assert_eq!(Vault::list_shards(&n), [0, 2, 10, 1234]);
    assert_eq!(Vault::list_shards(&Vec::new()), Vec::<usize>::new());
    assert!(Vault::can_reconstruct(&Some(n.clone()), 4));
    assert!(!Vault::can_reconstruct(&Some(n), 5));
    assert!(!Vault::can_reconstruct(&None, 0));
}

#[test]
fn a_group_lists_what_it_stored() {
    let v = empty(60);
    let mut seq: Option<String> = None;
    let mut found: Vec<String> = Vec::new();
    for i in [2usize, 1000, 0] {
        let root = found.contains(&"merkle_root.bin".to_string());
        let plan = v.store_shard("g", i, b"d", 200, [5; 32], 3, &seq, root, false, 1).unwrap().unwrap();
        for w in plan.writes {
            if w.file.name() == "seq" {
                seq = Some(String::from_utf8(w.data).unwrap());
            }
            found.push(w.file.name());
        }
    }
    assert!(found.contains(&"bitmask".to_string()));
    assert_eq!(Vault::list_shards(&found), [0, 2, 1000]);
}

#[test]
fn shard_names_read_back() {
    for i in [0usize, 1, 9, 10, 99, 100, 999, 1000, 12345, usize::MAX] {
        assert_eq!(Vault::list_shards(&vec![VaultFile::Shard(i).name()]), [i]);
    }
}

#[test]
fn expired_groups_are_collected() {
    let mut v = empty(60);
    v.remember("old", meta(0, 1));
    v.remember("edge", meta(1, 1));
    v.remember("new", meta(1_000_000_001, 1));
    v.remember("future", meta(u64::MAX, 0));
    v.remember("eternal", meta(0, u64::MAX));
    assert_eq!(v.garbage_collect(1_000_000_001), ["old"]);
    v.delete_group("old");
    v.delete_group("unknown");
    assert_eq!(v.group_count(), 4);
    assert!(v.garbage_collect(1_000_000_001).is_empty());
}

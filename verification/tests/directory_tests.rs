use ghost_nas::crypto::blake3_hash;
use ghost_nas::directory::{
    decrypt_tree, derive_key, encrypt_tree, encrypt_tree_with, split_path, BlockKey, DirEntry,
    DirectoryError, DirectoryTree, EncryptedDirectory, FileEntry, KEY_CONTEXT,
};

fn file(name: &str, size: u64) -> FileEntry {
    FileEntry {
        filename: name.to_string(),
        size,
        content_hash: [2; 32],
        block_count: 1,
        block_groups: vec![format!("g-{name}")],
        block_keys: vec![BlockKey { block_len: size as usize, shares: vec![vec![1; 33]] }],
        created_at_ns: 1,
        modified_at_ns: 2,
        mode: 0o644,
        version: 1,
    }
}

fn fresh() -> EncryptedDirectory {
    EncryptedDirectory::open(&[1u8; 32], None)
}

fn sizes(v: Vec<FileEntry>) -> Vec<u64> {
    v.iter().map(|f| f.size).collect()
}

#[test]
fn directory_errors_have_texts() {
    let e = |s: &str| s.to_string();
    assert_eq!(DirectoryError::Io(e("x")).message(), "IO error: x");
    assert_eq!(DirectoryError::Serde(e("x")).message(), "Serialization error: x");
    assert_eq!(DirectoryError::Crypto(e("x")).message(), "Encryption error: x");
    assert_eq!(DirectoryError::PathNotFound(e("x")).message(), "Path not found: x");
    assert_eq!(DirectoryError::PathExists(e("x")).message(), "Path already exists: x");
}

#[test]
fn directory_key_comes_from_the_seed() {
    assert_eq!(&KEY_CONTEXT, b"ghost-dir-key");
    let expected = blake3_hash(&[b"ghost-dir-key".to_vec(), vec![7u8; 32]].concat());
    assert_eq!(derive_key(&[7u8; 32]), expected);
    assert_eq!(EncryptedDirectory::open(&[7u8; 32], None).crypto_key, expected);
}

#[test]
fn open_takes_the_stored_tree() {
    assert!(DirectoryTree::new().root.is_empty());
    let tree = DirectoryTree {
        root: vec![DirEntry {
            dirname: "d".to_string(),
            subdirs: vec![],
            files: vec![file("a", 1)],
            created_at_ns: 0,
        }],
    };
    let d = EncryptedDirectory::open(&[1u8; 32], Some(tree));
    assert!(d.path_exists("d/a"));
    assert!(fresh().tree.root.is_empty());
}

#[test]
fn added_file_resolves() {
    let mut d = fresh();
    assert!(d.add_file("/docs/", file("a.txt", 1), 9).is_ok());
    assert!(d.add_file("docs", file("b.txt", 2), 10).is_ok());
    for p in ["docs/a.txt", "/docs/a.txt", "//docs/a.txt/"] {
        let f = d.resolve_path(p).unwrap();
        assert_eq!((f.filename.as_str(), f.size), ("a.txt", 1));
        assert_eq!(f.block_groups, ["g-a.txt"]);
    }
    assert_eq!(d.resolve_path("docs/b.txt").unwrap().size, 2);
    assert_eq!(d.tree.root.len(), 1);
    assert_eq!(d.tree.root[0].created_at_ns, 9);
    assert!(!d.path_exists("docs/c.txt"));
    assert!(!d.path_exists("other/a.txt"));
    assert!(!d.path_exists("/"));
    assert!(!d.path_exists(""));
}

#[test]
fn duplicate_in_a_directory_clashes() {
    let mut d = fresh();
    assert!(d.add_file("docs", file("a", 1), 0).is_ok());
    match d.add_file("docs", file("a", 2), 0) {
        Err(DirectoryError::PathExists(n)) => assert_eq!(n, "a"),
        _ => panic!("no clash"),
    }
    assert_eq!(d.resolve_path("docs/a").unwrap().size, 1);
    assert_eq!(d.file_count(), 1);
}

#[test]
fn duplicate_at_the_root_clashes() {
    let mut d = fresh();
    assert!(d.add_file("/", file("a", 1), 0).is_ok());
    assert_eq!(d.tree.root[0].dirname, "_root");
    for parent in ["", "/", "//"] {
        match d.add_file(parent, file("a", 2), 0) {
            Err(DirectoryError::PathExists(n)) => assert_eq!(n, "a"),
            _ => panic!("no clash"),
        }
    }
    assert!(d.add_file("", file("b", 3), 0).is_ok());
    assert_eq!(d.resolve_path("a").unwrap().size, 1);
    assert_eq!(d.file_count(), 2);
}

#[test]
fn bare_names_are_found_at_the_root_only() {
    let mut d = fresh();
    assert!(d.add_file("docs", file("a", 1), 0).is_ok());
    assert!(d.resolve_path("a").is_none());
    assert!(d.resolve_path("/a/").is_none());
    assert!(d.add_file("/", file("a", 2), 0).is_ok());
    assert_eq!(d.resolve_path("a").unwrap().size, 2);
    assert_eq!(d.resolve_path("/a/").unwrap().size, 2);
    assert_eq!(d.resolve_path("docs/a").unwrap().size, 1);
}

#[test]
fn nested_directories_hold_files() {
    let mut d = fresh();
    assert!(d.add_file("a/b", file("c.txt", 1), 0).is_ok());
    assert_eq!(d.resolve_path("/a/b/c.txt").unwrap().size, 1);
    assert_eq!(d.resolve_path("a//b/c.txt").map(|f| f.size), None);
    assert!(d.add_file("a", file("x", 2), 0).is_ok());
    assert!(d.add_file("b", file("c.txt", 3), 0).is_ok());
    assert_eq!(d.resolve_path("a/b/c.txt").unwrap().size, 1);
    assert!(d.resolve_path("a/b/x").is_none());
    assert!(d.resolve_path("b/a/x").is_none());
    assert!(d.remove_file("/a/b/c.txt").is_ok());
    assert!(d.resolve_path("a/b/c.txt").is_none());
    assert_eq!(d.resolve_path("b/c.txt").unwrap().size, 3);
}

#[test]
fn listed_subdirectories_are_walked() {
    let mut d = fresh();
    assert!(d.add_file("a", file("x", 2), 0).is_ok());
    assert!(d.add_file("b", file("f", 3), 0).is_ok());
    assert!(d.resolve_path("a/b/f").is_none());
    d.tree.root[0].subdirs.push("b".to_string());
    assert_eq!(d.resolve_path("/a/b/f").unwrap().size, 3);
    assert!(d.resolve_path("a/b/x").is_none());
    assert!(d.resolve_path("b/a/x").is_none());
    assert!(d.add_file("c", file("y", 4), 0).is_ok());
    assert_eq!(d.resolve_path("a/b/f").unwrap().size, 3);
    assert!(d.remove_file("a/b/f").is_ok());
    assert!(d.resolve_path("a/b/f").is_none());
    assert!(d.resolve_path("b/f").is_none());
    assert_eq!(d.resolve_path("a/x").unwrap().size, 2);
    d.tree.root[0].subdirs.push("gone".to_string());
    assert!(d.resolve_path("a/gone/f").is_none());
    assert!(d.add_file("a/b", file("g", 5), 0).is_ok());
    assert_eq!(d.resolve_path("a/b/g").unwrap().size, 5);
}

#[test]
fn files_are_found_below_any_parent() {
    for parent in ["", "/", "//", "a", "/a", "a/", "a/b/c", "/a//b/", "_root"] {
        let mut d = fresh();
        assert!(d.add_file(parent, file("f", 5), 0).is_ok());
        let path = format!("{parent}/f");
        assert_eq!(d.resolve_path(&path).unwrap().size, 5);
        assert_eq!(sizes(d.list_directory(parent)), [5]);
        assert!(d.remove_file(&path).is_ok());
        assert!(!d.path_exists(&path));
    }
}

#[test]
fn removal_takes_the_whole_path() {
    let mut d = fresh();
    assert!(d.add_file("a", file("f", 1), 0).is_ok());
    match d.remove_file("/a/x/f") {
        Err(DirectoryError::PathNotFound(p)) => assert_eq!(p, "/a/x/f"),
        _ => panic!("removed"),
    }
    assert_eq!(d.resolve_path("a/f").unwrap().size, 1);
}

#[test]
fn paths_split_into_parent_and_name() {
    let split = |p: &str| split_path(p);
    assert_eq!(split("a.txt"), ("/".to_string(), "a.txt".to_string()));
    assert_eq!(split("d/a.txt"), ("d".to_string(), "a.txt".to_string()));
    assert_eq!(split("d/e/a.txt"), ("d/e".to_string(), "a.txt".to_string()));
    assert_eq!(split("/a.txt"), (String::new(), "a.txt".to_string()));
    assert_eq!(split("d/"), ("d".to_string(), String::new()));
}

#[test]
fn adding_keeps_other_files() {
    let mut d = fresh();
    for (dir, name, size) in [("a", "1", 1), ("b", "2", 2), ("a", "3", 3), ("", "4", 4)] {
        assert!(d.add_file(dir, file(name, size), 0).is_ok());
    }
    assert_eq!(d.resolve_path("a/1").unwrap().size, 1);
    assert_eq!(d.resolve_path("b/2").unwrap().size, 2);
    assert_eq!(d.resolve_path("a/3").unwrap().size, 3);
    assert_eq!(d.resolve_path("4").unwrap().size, 4);
}

#[test]
fn removed_file_is_gone() {
    let mut d = fresh();
    assert!(d.add_file("a", file("1", 1), 0).is_ok());
    assert!(d.add_file("a", file("2", 2), 0).is_ok());
    assert!(d.add_file("/", file("3", 3), 0).is_ok());
    assert!(d.remove_file("/a/1").is_ok());
    assert!(!d.path_exists("a/1"));
    assert!(d.path_exists("a/2"));
    assert!(d.remove_file("3").is_ok());
    assert!(!d.path_exists("3"));
    for p in ["a/1", "3", "x/y", "/", "2"] {
        match d.remove_file(p) {
            Err(DirectoryError::PathNotFound(q)) => assert_eq!(p, q),
            _ => panic!("{p}"),
        }
    }
}

#[test]
fn listings() {
    let mut d = fresh();
    assert!(d.add_file("a", file("1", 1), 0).is_ok());
    assert!(d.add_file("/", file("2", 2), 0).is_ok());
    assert!(d.add_file("b", file("3", 3), 0).is_ok());
    assert_eq!(sizes(d.list_directory("/")), [2]);
    assert_eq!(sizes(d.list_directory("")), [2]);
    assert_eq!(sizes(d.list_directory("_root")), [2]);
    assert_eq!(sizes(d.list_directory("/b/")), [3]);
    assert!(d.list_directory("c").is_empty());
    assert_eq!(d.list_subdirs(), ["a", "b"]);
    assert_eq!(d.file_count(), 3);
}

#[test]
fn files_are_found_by_predicate() {
    let mut d = fresh();
    assert!(d.add_file("a", file("1", 1), 0).is_ok());
    assert!(d.add_file("b", file("2", 20), 0).is_ok());
    assert!(d.add_file("a", file("3", 30), 0).is_ok());
    let big = d.find_files(|f| f.size >= 20);
    let got: Vec<(String, u64)> = big.into_iter().map(|(n, f)| (n, f.size)).collect();
    assert_eq!(got, [("a".to_string(), 30), ("b".to_string(), 20)]);
    assert!(d.find_files(|_| false).is_empty());
}

#[test]
fn sealed_tree_opens() {
    let d = fresh();
    let sealed = d.flush(b"{\"root\":[]}").unwrap();
    assert_eq!(sealed.len(), 11 + 28);
    assert_eq!(decrypt_tree(&sealed, &d.crypto_key).unwrap(), b"{\"root\":[]}");
    assert_ne!(encrypt_tree(b"x", &[1; 32]).unwrap(), encrypt_tree(b"x", &[1; 32]).unwrap());
}

#[test]
fn reopened_directory_is_the_same() {
    let mut d = fresh();
    assert!(d.add_file("a", file("f", 1), 0).is_ok());
    let tree = d.tree.clone();
    let sealed = d.flush(b"form").unwrap();
    let decode = |form: &Vec<u8>| if form == b"form" { Some(tree.clone()) } else { None };
    let again = EncryptedDirectory::reopen(&[1u8; 32], &sealed, decode);
    assert_eq!(again.resolve_path("a/f").unwrap().size, 1);
    assert_eq!(again.resolve_path("a/f").unwrap().block_keys[0].shares, [vec![1; 33]]);
    assert_eq!(again.crypto_key, d.crypto_key);
    let stranger = EncryptedDirectory::reopen(&[2u8; 32], &sealed, decode);
    assert!(stranger.tree.root.is_empty());
    let garbled = EncryptedDirectory::reopen(&[1u8; 32], &d.flush(b"else").unwrap(), decode);
    assert!(garbled.tree.root.is_empty());
}

#[test]
fn known_nonce_comes_first() {
    let a = encrypt_tree_with(b"tree", &[3; 32], [9; 12]).unwrap();
    let b = encrypt_tree_with(b"tree", &[3; 32], [9; 12]).unwrap();
    assert_eq!(a, b);
    assert_eq!(a[..12], [9u8; 12]);
    assert_ne!(&a[12..16], b"tree");
    assert_eq!(decrypt_tree(&a, &[3; 32]).unwrap(), b"tree");
}

#[test]
fn wrong_keys_and_torsos_do_not_open() {
    let sealed = encrypt_tree(b"tree", &[3; 32]).unwrap();
    let reason = |r: Result<Vec<u8>, DirectoryError>| match r {
        Err(DirectoryError::Crypto(e)) => e,
        _ => panic!("opened"),
    };
    assert_eq!(reason(decrypt_tree(&sealed, &[4; 32])), "Decryption failed");
    assert_eq!(reason(decrypt_tree(&sealed[..11], &[3; 32])), "Truncated encrypted blob");
    assert_eq!(reason(decrypt_tree(&sealed[..20], &[3; 32])), "Decryption failed");
}

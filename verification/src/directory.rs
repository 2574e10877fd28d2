//! The directory tree: which file is made of which groups of shards, and the
//! shares of the keys that open them. On disk the tree is sealed under a key
//! that only the node's identity gives.

pub mod laws;

use crate::bytes;
use crate::crypto::aead;
use crate::crypto::aead::{open_in_place, seal_in_place};
use crate::crypto::hash;
use crate::crypto::hash::blake3_hash;
use crate::crypto::keys::draw;
use crate::lists;
use crate::text;
use crate::text::Margin;
use vstd::prelude::*;

verus! {

// ---------- Errors ----------

#[derive(Debug)]
pub enum DirectoryError {
    Io(String),
    Serde(String),
    Crypto(String),
    PathNotFound(String),
    PathExists(String),
}

impl DirectoryError {
    /// The text of the error.
    pub open spec fn text(&self) -> Seq<char> {
        match *self {
            DirectoryError::Io(e) => "IO error: "@ + e@,
            DirectoryError::Serde(e) => "Serialization error: "@ + e@,
            DirectoryError::Crypto(e) => "Encryption error: "@ + e@,
            DirectoryError::PathNotFound(e) => "Path not found: "@ + e@,
            DirectoryError::PathExists(e) => "Path already exists: "@ + e@,
        }
    }

    pub fn message(&self) -> (r: String)
        ensures
            r@ == self.text(),
    {
        match self {
            DirectoryError::Io(e) => text::concat("IO error: ", e.as_str()),
            DirectoryError::Serde(e) => text::concat("Serialization error: ", e.as_str()),
            DirectoryError::Crypto(e) => text::concat("Encryption error: ", e.as_str()),
            DirectoryError::PathNotFound(e) => text::concat("Path not found: ", e.as_str()),
            DirectoryError::PathExists(e) => text::concat("Path already exists: ", e.as_str()),
        }
    }
}

// ---------- Entries ----------

/// What it takes to open a block that was put together from its shards.
#[derive(Debug)]
pub struct BlockKey {
    /// Length of the plaintext block in bytes
    pub block_len: usize,
    /// Shares of the key that the block is encrypted under
    pub shares: Vec<Vec<u8>>,
}

/// Metadata for a single file in the NAS.
#[derive(Debug)]
pub struct FileEntry {
    /// Plaintext filename
    pub filename: String,
    /// Size in bytes
    pub size: u64,
    /// BLAKE3 hash of the plaintext file (for integrity verification)
    pub content_hash: [u8; 32],
    /// Number of blocks this file was split into
    pub block_count: usize,
    /// Shard group ID per block
    pub block_groups: Vec<String>,
    /// Key per block
    pub block_keys: Vec<BlockKey>,
    /// Creation timestamp (Unix nanos)
    pub created_at_ns: u64,
    /// Last modified timestamp (Unix nanos)
    pub modified_at_ns: u64,
    /// POSIX-style permissions
    pub mode: u32,
    /// Monotonic version counter for conflict resolution
    pub version: u64,
}

/// A directory node in the tree.
#[derive(Debug, Clone)]
pub struct DirEntry {
    /// Plaintext directory name
    pub dirname: String,
    /// Subdirectory names
    pub subdirs: Vec<String>,
    /// Files in this directory
    pub files: Vec<FileEntry>,
    /// Creation timestamp
    pub created_at_ns: u64,
}

/// The full directory tree.
#[derive(Debug, Clone)]
pub struct DirectoryTree {
    /// The directories
    pub root: Vec<DirEntry>,
}

/// The key of a block as contracts see it.
#[verifier::ext_equal]
pub struct BlockKeyModel {
    pub block_len: usize,
    pub shares: Seq<Seq<u8>>,
}

/// A file as contracts see it.
#[verifier::ext_equal]
pub struct FileModel {
    pub filename: Seq<char>,
    pub size: u64,
    pub content_hash: Seq<u8>,
    pub block_count: usize,
    pub block_groups: Seq<Seq<char>>,
    pub block_keys: Seq<BlockKeyModel>,
    pub created_at_ns: u64,
    pub modified_at_ns: u64,
    pub mode: u32,
    pub version: u64,
}

/// A directory as contracts see it.
#[verifier::ext_equal]
pub struct DirModel {
    pub dirname: Seq<char>,
    pub subdirs: Seq<Seq<char>>,
    pub files: Seq<FileModel>,
    pub created_at_ns: u64,
}

impl View for BlockKey {
    type V = BlockKeyModel;

    open spec fn view(&self) -> BlockKeyModel {
        BlockKeyModel { block_len: self.block_len, shares: bytes::rows(self.shares@) }
    }
}

/// The models of the keys of blocks.
pub open spec fn key_models(keys: Seq<BlockKey>) -> Seq<BlockKeyModel> {
    Seq::new(keys.len(), |i: int| keys[i]@)
}

impl View for FileEntry {
    type V = FileModel;

    open spec fn view(&self) -> FileModel {
        FileModel {
            filename: self.filename@,
            size: self.size,
            content_hash: self.content_hash@,
            block_count: self.block_count,
            block_groups: text::texts(self.block_groups@),
            block_keys: key_models(self.block_keys@),
            created_at_ns: self.created_at_ns,
            modified_at_ns: self.modified_at_ns,
            mode: self.mode,
            version: self.version,
        }
    }
}

/// The models of files.
pub open spec fn file_models(files: Seq<FileEntry>) -> Seq<FileModel> {
    Seq::new(files.len(), |i: int| files[i]@)
}

impl View for DirEntry {
    type V = DirModel;

    open spec fn view(&self) -> DirModel {
        DirModel {
            dirname: self.dirname@,
            subdirs: text::texts(self.subdirs@),
            files: file_models(self.files@),
            created_at_ns: self.created_at_ns,
        }
    }
}

impl View for DirectoryTree {
    type V = Seq<DirModel>;

    open spec fn view(&self) -> Seq<DirModel> {
        Seq::new(self.root@.len(), |i: int| self.root@[i]@)
    }
}

impl Clone for BlockKey {
    fn clone(&self) -> (r: Self)
        ensures
            r@ == self@,
    {
        BlockKey { block_len: self.block_len, shares: bytes::copy_rows(&self.shares) }
    }
}

fn copy_keys(keys: &Vec<BlockKey>) -> (r: Vec<BlockKey>)
    ensures
        key_models(r@) == key_models(keys@),
{
    let mut out: Vec<BlockKey> = Vec::new();
    let mut i: usize = 0;
    while i < keys.len()
        invariant
            i <= keys@.len(),
            out@.len() == i,
            forall|j: int| 0 <= j < i ==> (#[trigger] out@[j])@ == keys@[j]@,
        decreases keys@.len() - i,
    {
        out.push(keys[i].clone());
        i += 1;
    }
    assert(key_models(out@) =~= key_models(keys@));
    out
}

impl Clone for FileEntry {
    fn clone(&self) -> (r: Self)
        ensures
            r@ == self@,
    {
        FileEntry {
            filename: self.filename.clone(),
            size: self.size,
            content_hash: self.content_hash,
            block_count: self.block_count,
            block_groups: text::copy_list(&self.block_groups),
            block_keys: copy_keys(&self.block_keys),
            created_at_ns: self.created_at_ns,
            modified_at_ns: self.modified_at_ns,
            mode: self.mode,
            version: self.version,
        }
    }
}

fn copy_files(files: &Vec<FileEntry>, out: &mut Vec<FileEntry>)
    ensures
        file_models(final(out)@) == file_models(old(out)@) + file_models(files@),
{
    let ghost before = file_models(out@);
    let mut i: usize = 0;
    assert(before + file_models(files@).take(0) =~= before);
    while i < files.len()
        invariant
            i <= files@.len(),
            file_models(out@) == before + file_models(files@).take(i as int),
        decreases files@.len() - i,
    {
        let ghost so_far = file_models(out@);
        out.push(files[i].clone());
        i += 1;
        proof {
            assert(file_models(out@) =~= so_far.push(files@[i - 1]@));
            assert(file_models(out@) =~= before + file_models(files@).take(i as int));
        }
    }
    assert(file_models(files@).take(i as int) =~= file_models(files@));
}

// ---------- Paths ----------

/// The directory that stands for the root: its files lie in no directory.
pub open spec fn root_dirname() -> Seq<char> {
    "_root"@
}

/// The index of the first directory called `name`, or the number of directories.
pub open spec fn first_dir(root: Seq<DirModel>, name: Seq<char>) -> int {
    lists::first_where(root, |d: DirModel| d.dirname == name)
}

/// The index of the first file called `name`, or the number of files.
pub open spec fn first_file(files: Seq<FileModel>, name: Seq<char>) -> int {
    lists::first_where(files, |f: FileModel| f.filename == name)
}

/// The file called `name` among `files`: the first one.
pub open spec fn file_called(files: Seq<FileModel>, name: Seq<char>) -> Option<FileModel> {
    let i = first_file(files, name);
    if i < files.len() {
        Some(files[i])
    } else {
        None
    }
}

/// `path` without slashes at either end.
pub open spec fn normal(path: Seq<char>) -> Seq<char> {
    text::trimmed(path, Margin::Slash)
}

/// The directory part of `path`.
pub open spec fn parent_of(path: Seq<char>) -> Seq<char> {
    if path.contains('/') {
        text::joined(text::pieces(path, '/').drop_last(), "/"@)
    } else {
        "/"@
    }
}

/// The last part of `path`.
pub open spec fn name_of(path: Seq<char>) -> Seq<char> {
    text::pieces(path, '/').last()
}

/// Whether `parent` stands for the root: it holds nothing but slashes.
pub open spec fn is_root(parent: Seq<char>) -> bool {
    normal(parent).len() == 0
}

/// The name under which files with the parent directory `parent` are kept.
pub open spec fn dirname_for(parent: Seq<char>) -> Seq<char> {
    if is_root(parent) {
        root_dirname()
    } else {
        normal(parent)
    }
}

/// The files in the directory kept under the name for `parent`.
pub open spec fn listing(root: Seq<DirModel>, parent: Seq<char>) -> Seq<FileModel> {
    let d = first_dir(root, dirname_for(parent));
    if d < root.len() {
        root[d].files
    } else {
        Seq::empty()
    }
}

/// The directory part of a path from which slashes at either end are taken.
pub open spec fn home_of(path: Seq<char>) -> Seq<char> {
    parent_of(normal(path))
}

/// The last part of a path from which slashes at either end are taken.
pub open spec fn leaf_of(path: Seq<char>) -> Seq<char> {
    name_of(normal(path))
}

/// The directory that a walk along `parts` leads to, or the number of
/// directories. Every part but the first has to be listed as a subdirectory of
/// the one before it.
pub open spec fn walk(root: Seq<DirModel>, parts: Seq<Seq<char>>) -> int
    decreases parts.len(),
{
    if parts.len() == 0 {
        root.len() as int
    } else if parts.len() == 1 {
        first_dir(root, parts[0])
    } else {
        let d = walk(root, parts.drop_last());
        if d < root.len() && root[d].subdirs.contains(parts.last()) {
            first_dir(root, parts.last())
        } else {
            root.len() as int
        }
    }
}

/// The directory that `parent` names, or the number of directories: the one
/// kept under its name or, where there is none, the one that a walk along its
/// parts leads to.
pub open spec fn place_of(root: Seq<DirModel>, parent: Seq<char>) -> int {
    let d = first_dir(root, dirname_for(parent));
    if d < root.len() || is_root(parent) {
        d
    } else {
        walk(root, text::pieces(normal(parent), '/'))
    }
}

/// The files in the directory that `parent` names.
pub open spec fn files_at(root: Seq<DirModel>, parent: Seq<char>) -> Seq<FileModel> {
    let d = place_of(root, parent);
    if d < root.len() {
        root[d].files
    } else {
        Seq::empty()
    }
}

/// The file at `path`: the one with the path's last part as its name, in the
/// directory that the rest of the path names.
pub open spec fn resolved(root: Seq<DirModel>, path: Seq<char>) -> Option<FileModel> {
    if normal(path).len() == 0 {
        None
    } else {
        file_called(files_at(root, home_of(path)), leaf_of(path))
    }
}

/// Whether `parent` has a file of the same name already.
pub open spec fn clashes(root: Seq<DirModel>, parent: Seq<char>, filename: Seq<char>) -> bool {
    file_called(listing(root, parent), filename) is Some
}

/// The tree after `file` was added in the directory `parent`, which comes into
/// being where it is missing.
pub open spec fn with_file(
    root: Seq<DirModel>,
    parent: Seq<char>,
    file: FileModel,
    now_ns: u64,
) -> Seq<DirModel> {
    let dirname = dirname_for(parent);
    let d = first_dir(root, dirname);
    if d < root.len() {
        root.update(d, (DirModel { files: root[d].files.push(file), ..root[d] }))
    } else {
        root.push(
            (DirModel {
                dirname,
                subdirs: Seq::empty(),
                files: seq![file],
                created_at_ns: now_ns,
            }),
        )
    }
}

/// The tree after the file at `path` was removed.
pub open spec fn without_file(root: Seq<DirModel>, path: Seq<char>) -> Seq<DirModel> {
    let d = place_of(root, home_of(path));
    let f = first_file(root[d].files, leaf_of(path));
    root.update(d, (DirModel { files: root[d].files.remove(f), ..root[d] }))
}

/// All files of all directories.
pub open spec fn all_files(root: Seq<DirModel>) -> Seq<FileModel>
    decreases root.len(),
{
    if root.len() == 0 {
        Seq::empty()
    } else {
        all_files(root.drop_last()) + root.last().files
    }
}

/// The names of all directories.
pub open spec fn dirnames(root: Seq<DirModel>) -> Seq<Seq<char>> {
    Seq::new(root.len(), |i: int| root[i].dirname)
}

pub proof fn lemma_first_dir(root: Seq<DirModel>, name: Seq<char>)
    ensures
        0 <= first_dir(root, name) <= root.len(),
        forall|j: int| 0 <= j < first_dir(root, name) ==> (#[trigger] root[j]).dirname != name,
        first_dir(root, name) < root.len() ==> root[first_dir(root, name)].dirname == name,
{
    lists::lemma_first_where(root, |d: DirModel| d.dirname == name);
}

proof fn lemma_first_dir_is(root: Seq<DirModel>, name: Seq<char>, i: int)
    requires
        0 <= i <= root.len(),
        forall|j: int| 0 <= j < i ==> (#[trigger] root[j]).dirname != name,
        i < root.len() ==> root[i].dirname == name,
    ensures
        first_dir(root, name) == i,
{
    lists::lemma_first_where_is(root, |d: DirModel| d.dirname == name, i);
}

proof fn lemma_first_file(files: Seq<FileModel>, name: Seq<char>)
    ensures
        0 <= first_file(files, name) <= files.len(),
        forall|j: int| 0 <= j < first_file(files, name) ==> (#[trigger] files[j]).filename != name,
        first_file(files, name) < files.len() ==> files[first_file(files, name)].filename == name,
{
    lists::lemma_first_where(files, |f: FileModel| f.filename == name);
}

pub proof fn lemma_first_file_is(files: Seq<FileModel>, name: Seq<char>, i: int)
    requires
        0 <= i <= files.len(),
        forall|j: int| 0 <= j < i ==> (#[trigger] files[j]).filename != name,
        i < files.len() ==> files[i].filename == name,
    ensures
        first_file(files, name) == i,
{
    lists::lemma_first_where_is(files, |f: FileModel| f.filename == name, i);
}

/// Cuts `path` into its directory part and its last part.
pub fn split_path(path: &str) -> (r: (String, String))
    ensures
        r.0@ == parent_of(path@),
        r.1@ == name_of(path@),
{
    let parts = text::split(path, '/');
    let last = parts.len() - 1;
    let ghost pieces = text::pieces(path@, '/');
    assert(pieces.take(last as int) =~= pieces.drop_last());
    let parent = if text::has_char(path, '/') {
        text::join_first(&parts, last, "/")
    } else {
        "/".to_owned()
    };
    assert(pieces.last() == parts@[last as int]@);
    (parent, parts[last].clone())
}

/// The name under which files with the parent directory `parent` are kept.
fn dir_name(parent: &str) -> (r: String)
    ensures
        r@ == dirname_for(parent@),
{
    let normalized = text::trim(parent, Margin::Slash);
    if normalized.as_str().unicode_len() == 0 {
        "_root".to_owned()
    } else {
        normalized
    }
}

// ---------- The directory ----------

impl DirectoryTree {
    pub fn new() -> (r: Self)
        ensures
            r@ == Seq::<DirModel>::empty(),
    {
        let r = DirectoryTree { root: Vec::new() };
        assert(r@ =~= Seq::<DirModel>::empty());
        r
    }

    fn dir_position(&self, name: &str) -> (r: usize)
        ensures
            r == first_dir(self@, name@),
            r <= self.root@.len(),
    {
        let mut i: usize = 0;
        while i < self.root.len() && !text::same(self.root[i].dirname.as_str(), name)
            invariant
                i <= self.root@.len(),
                forall|j: int| 0 <= j < i ==> (#[trigger] self@[j]).dirname != name@,
            decreases self.root@.len() - i,
        {
            i += 1;
        }
        proof {
            lemma_first_dir_is(self@, name@, i as int);
        }
        i
    }

    fn walk_along(&self, parts: &Vec<String>) -> (r: usize)
        requires
            parts@.len() > 0,
        ensures
            r == walk(self@, text::texts(parts@)),
            r <= self.root@.len(),
    {
        let ghost names = text::texts(parts@);
        let mut at = self.dir_position(parts[0].as_str());
        let mut i: usize = 1;
        assert(names.take(1) =~= seq![names[0]]);
        while i < parts.len()
            invariant
                1 <= i <= parts@.len(),
                names == text::texts(parts@),
                at <= self.root@.len(),
                at == walk(self@, names.take(i as int)),
            decreases parts@.len() - i,
        {
            assert(names.take(i + 1).drop_last() =~= names.take(i as int));
            let part = parts[i].as_str();
            if at < self.root.len() && text::listed(&self.root[at].subdirs, part) {
                at = self.dir_position(part);
            } else {
                at = self.root.len();
            }
            i += 1;
        }
        assert(names.take(i as int) =~= names);
        at
    }

    fn find_place(&self, parent: &str) -> (r: usize)
        ensures
            r == place_of(self@, parent@),
            r <= self.root@.len(),
    {
        let d = self.dir_position(dir_name(parent).as_str());
        let normalized = text::trim(parent, Margin::Slash);
        if d < self.root.len() || normalized.as_str().unicode_len() == 0 {
            d
        } else {
            self.walk_along(&text::split(normalized.as_str(), '/'))
        }
    }
}

fn file_position(files: &Vec<FileEntry>, name: &str) -> (r: usize)
    ensures
        r == first_file(file_models(files@), name@),
        r <= files@.len(),
{
    let mut i: usize = 0;
    while i < files.len() && !text::same(files[i].filename.as_str(), name)
        invariant
            i <= files@.len(),
            forall|j: int| 0 <= j < i ==> (#[trigger] file_models(files@)[j]).filename != name@,
        decreases files@.len() - i,
    {
        i += 1;
    }
    proof {
        lemma_first_file_is(file_models(files@), name@, i as int);
    }
    i
}

fn file_named(files: &Vec<FileEntry>, name: &str) -> (r: Option<FileEntry>)
    ensures
        is_file(r, file_called(file_models(files@), name@)),
{
    let i = file_position(files, name);
    if i < files.len() {
        Some(files[i].clone())
    } else {
        None
    }
}

/// Whether `r` is the file `m`, or both are absent.
pub open spec fn is_file(r: Option<FileEntry>, m: Option<FileModel>) -> bool {
    match r {
        Some(file) => m == Some(file@),
        None => m is None,
    }
}

/// Whether `r` says that there is nothing at `path`.
pub open spec fn is_not_found(r: Result<(), DirectoryError>, path: Seq<char>) -> bool {
    r matches Err(DirectoryError::PathNotFound(p)) && p@ == path
}

/// The directory of a node, and the key that seals it.
pub struct EncryptedDirectory {
    pub tree: DirectoryTree,
    pub crypto_key: [u8; 32],
}

impl EncryptedDirectory {
    /// The directory of the node with the identity `identity_seed`, with the
    /// tree that was stored for it; empty where none could be read.
    pub fn open(identity_seed: &[u8; 32], stored: Option<DirectoryTree>) -> (r: Self)
        ensures
            r.crypto_key@ == directory_key(identity_seed@),
            r.tree@ == match stored {
                Some(tree) => tree@,
                None => Seq::<DirModel>::empty(),
            },
    {
        EncryptedDirectory {
            tree: match stored {
                Some(tree) => tree,
                None => DirectoryTree::new(),
            },
            crypto_key: derive_key(identity_seed),
        }
    }

    /// The directory of the node with the identity `identity_seed`, from what was
    /// stored for it; `decode` gives the tree that a serialised form holds. It is
    /// empty where what was stored does not open, or is no serialised form.
    pub fn reopen<F: Fn(&Vec<u8>) -> Option<DirectoryTree>>(
        identity_seed: &[u8; 32],
        encrypted: &[u8],
        decode: F,
    ) -> (r: Self)
        requires
            forall|form: &Vec<u8>| #[trigger] call_requires(decode, (form,)),
        ensures
            r.crypto_key@ == directory_key(identity_seed@),
            forall|trees: spec_fn(Seq<u8>) -> Option<Seq<DirModel>>|
                decodes(decode, trees) ==> r.tree@ == #[trigger] reopened(
                    encrypted@,
                    identity_seed@,
                    trees,
                ),
    {
        let stored = match decrypt_tree(encrypted, &derive_key(identity_seed)) {
            Ok(form) => {
                let tree = decode(&form);
                assert(call_ensures(decode, (&form,), tree));
                tree
            },
            Err(_) => None,
        };
        EncryptedDirectory::open(identity_seed, stored)
    }

    /// Resolve a path like "/documents/report.pdf" to its FileEntry.
    /// Returns None if the path doesn't exist.
    pub fn resolve_path(&self, path: &str) -> (r: Option<FileEntry>)
        ensures
            is_file(r, resolved(self.tree@, path@)),
    {
        let normalized = text::trim(path, Margin::Slash);
        if normalized.as_str().unicode_len() == 0 {
            return None;
        }
        let (parent, filename) = split_path(normalized.as_str());
        let d = self.tree.find_place(parent.as_str());
        if d < self.tree.root.len() {
            file_named(&self.tree.root[d].files, filename.as_str())
        } else {
            proof {
                lemma_first_file_is(Seq::<FileModel>::empty(), filename@, 0);
            }
            None
        }
    }

    /// Add a file entry to the directory tree.
    pub fn add_file(&mut self, parent_dir: &str, entry: FileEntry, now_ns: u64) -> (r: Result<
        (),
        DirectoryError,
    >)
        ensures
            final(self).crypto_key == old(self).crypto_key,
            if clashes(old(self).tree@, parent_dir@, entry.filename@) {
                &&& r matches Err(DirectoryError::PathExists(name)) && name@ == entry.filename@
                &&& final(self).tree@ == old(self).tree@
            } else {
                &&& r is Ok
                &&& final(self).tree@ == with_file(old(self).tree@, parent_dir@, entry@, now_ns)
            },
            r is Err == exists|i: int|
                0 <= i < listing(old(self).tree@, parent_dir@).len() && (#[trigger] listing(
                    old(self).tree@,
                    parent_dir@,
                )[i]).filename == entry.filename@,
    {
        let ghost before = self.tree@;
        proof {
            laws::law_name_is_taken_by_a_file(before, parent_dir@, entry.filename@);
        }
        let dirname = dir_name(parent_dir);
        proof {
            lemma_first_file_is(Seq::<FileModel>::empty(), entry.filename@, 0);
        }
        let d = self.tree.dir_position(dirname.as_str());
        if d < self.tree.root.len() {
            let files = &self.tree.root[d].files;
            if file_position(files, entry.filename.as_str()) < files.len() {
                return Err(DirectoryError::PathExists(entry.filename));
            }
            let ghost file = entry@;
            self.tree.root[d].files.push(entry);
            proof {
                let after = self.tree@;
                let grown = before[d as int].files.push(file);
                assert(after[d as int].files =~= grown);
                assert(after =~= before.update(
                    d as int,
                    (DirModel { files: grown, ..before[d as int] }),
                ));
            }
        } else {
            let ghost file = entry@;
            let mut files: Vec<FileEntry> = Vec::new();
            files.push(entry);
            assert(file_models(files@) =~= seq![file]);
            let dir = DirEntry { dirname, subdirs: Vec::new(), files, created_at_ns: now_ns };
            assert(dir@.subdirs =~= Seq::<Seq<char>>::empty());
            let ghost added = dir@;
            self.tree.root.push(dir);
            assert(self.tree@ =~= before.push(added));
        }
        Ok(())
    }

    /// Remove a file entry from the directory tree.
    pub fn remove_file(&mut self, path: &str) -> (r: Result<(), DirectoryError>)
        ensures
            final(self).crypto_key == old(self).crypto_key,
            if resolved(old(self).tree@, path@) is Some {
                &&& r is Ok
                &&& final(self).tree@ == without_file(old(self).tree@, path@)
            } else {
                &&& is_not_found(r, path@)
                &&& final(self).tree@ == old(self).tree@
            },
    {
        let normalized = text::trim(path, Margin::Slash);
        if normalized.as_str().unicode_len() == 0 {
            return Err(DirectoryError::PathNotFound(path.to_owned()));
        }
        let (parent, filename) = split_path(normalized.as_str());
        let ghost before = self.tree@;
        let d = self.tree.find_place(parent.as_str());
        if d >= self.tree.root.len() {
            proof {
                lemma_first_file_is(Seq::<FileModel>::empty(), filename@, 0);
            }
            return Err(DirectoryError::PathNotFound(path.to_owned()));
        }
        let f = file_position(&self.tree.root[d].files, filename.as_str());
        if f >= self.tree.root[d].files.len() {
            return Err(DirectoryError::PathNotFound(path.to_owned()));
        }
        let _ = self.tree.root[d].files.remove(f);
        proof {
            let after = self.tree@;
            let fewer = before[d as int].files.remove(f as int);
            assert(after[d as int].files =~= fewer);
            assert(after =~= before.update(
                d as int,
                (DirModel { files: fewer, ..before[d as int] }),
            ));
        }
        Ok(())
    }

    /// List all files in a directory.
    pub fn list_directory(&self, dir_path: &str) -> (r: Vec<FileEntry>)
        ensures
            file_models(r@) == listing(self.tree@, dir_path@),
    {
        let mut out: Vec<FileEntry> = Vec::new();
        let ghost root = self.tree@;
        assert(file_models(out@) =~= Seq::<FileModel>::empty());
        let d = self.tree.dir_position(dir_name(dir_path).as_str());
        if d < self.tree.root.len() {
            copy_files(&self.tree.root[d].files, &mut out);
            assert(file_models(out@) =~= root[d as int].files);
        }
        out
    }

    /// List all subdirectory names.
    pub fn list_subdirs(&self) -> (r: Vec<String>)
        ensures
            text::texts(r@) == dirnames(self.tree@).filter(
                |name: Seq<char>| name != root_dirname(),
            ),
    {
        let ghost all = dirnames(self.tree@);
        let ghost keep = |name: Seq<char>| name != root_dirname();
        let mut out: Vec<String> = Vec::new();
        let mut i: usize = 0;
        proof {
            lists::lemma_filter_ends(all, keep);
            assert(text::texts(out@) =~= Seq::<Seq<char>>::empty());
        }
        while i < self.tree.root.len()
            invariant
                i <= self.tree.root@.len(),
                all == dirnames(self.tree@),
                keep == (|name: Seq<char>| name != root_dirname()),
                text::texts(out@) == all.take(i as int).filter(keep),
            decreases self.tree.root@.len() - i,
        {
            proof {
                lists::lemma_filter_step(all, keep, i as int);
            }
            let ghost before = text::texts(out@);
            if !text::same(self.tree.root[i].dirname.as_str(), "_root") {
                out.push(self.tree.root[i].dirname.clone());
                assert(text::texts(out@) =~= before.push(all[i as int]));
            }
            i += 1;
        }
        proof {
            lists::lemma_filter_ends(all, keep);
        }
        out
    }

    /// Check if a path exists.
    pub fn path_exists(&self, path: &str) -> (r: bool)
        ensures
            r == (resolved(self.tree@, path@) is Some),
    {
        self.resolve_path(path).is_some()
    }

    /// Get total file count across all directories.
    pub fn file_count(&self) -> (r: usize)
        requires
            all_files(self.tree@).len() <= usize::MAX,
        ensures
            r == all_files(self.tree@).len(),
    {
        let ghost root = self.tree@;
        let mut count: usize = 0;
        let mut i: usize = 0;
        assert(root.take(root.len() as int) =~= root);
        while i < self.tree.root.len()
            invariant
                i <= self.tree.root@.len(),
                root == self.tree@,
                all_files(root).len() <= usize::MAX,
                count == all_files(root.take(i as int)).len(),
            decreases self.tree.root@.len() - i,
        {
            proof {
                assert(root.take(i + 1).drop_last() =~= root.take(i as int));
                lemma_fewer_files(root, i + 1);
            }
            count += self.tree.root[i].files.len();
            i += 1;
        }
        count
    }

    /// All files that satisfy `predicate`, each with the name of its directory,
    /// in the order of the tree.
    pub fn find_files<F: Fn(&FileEntry) -> bool>(&self, predicate: F) -> (r: Vec<
        (String, FileEntry),
    >)
        requires
            forall|file: &FileEntry| #[trigger] call_requires(predicate, (file,)),
        ensures
            exists|verdicts: Seq<Seq<bool>>| #[trigger]
                are_verdicts(predicate, self.tree.root@, verdicts) && found_models(r@) == chosen(
                    self.tree@,
                    verdicts,
                ),
    {
        let ghost root = self.tree@;
        let ghost mut verdicts = Seq::<Seq<bool>>::empty();
        let mut out: Vec<(String, FileEntry)> = Vec::new();
        let mut i: usize = 0;
        assert(found_models(out@) =~= chosen(root.take(0), verdicts));
        while i < self.tree.root.len()
            invariant
                forall|file: &FileEntry| #[trigger] call_requires(predicate, (file,)),
                i <= self.tree.root@.len(),
                root == self.tree@,
                are_verdicts(predicate, self.tree.root@.take(i as int), verdicts),
                found_models(out@) == chosen(root.take(i as int), verdicts),
            decreases self.tree.root@.len() - i,
        {
            let dir = &self.tree.root[i];
            let ghost before = found_models(out@);
            let ghost files = dir@.files;
            let ghost mut here = Seq::<bool>::empty();
            let mut j: usize = 0;
            assert(before + chosen_here(dir.dirname@, files.take(0), here) =~= before);
            while j < dir.files.len()
                invariant
                    forall|file: &FileEntry| #[trigger] call_requires(predicate, (file,)),
                    j <= dir.files@.len(),
                    files == file_models(dir.files@),
                    here.len() == j,
                    forall|k: int|
                        0 <= k < j ==> call_ensures(
                            predicate,
                            (&dir.files@[k],),
                            #[trigger] here[k],
                        ),
                    found_models(out@) == before + chosen_here(
                        dir.dirname@,
                        files.take(j as int),
                        here,
                    ),
                decreases dir.files@.len() - j,
            {
                let file = &dir.files[j];
                let wanted = predicate(file);
                let ghost so_far = found_models(out@);
                if wanted {
                    out.push((dir.dirname.clone(), file.clone()));
                    assert(found_models(out@) =~= so_far.push((dir.dirname@, file@)));
                }
                proof {
                    assert(files.take(j + 1).drop_last() =~= files.take(j as int));
                    assert(here.push(wanted).drop_last() =~= here);
                    here = here.push(wanted);
                    assert(found_models(out@) =~= before + chosen_here(
                        dir.dirname@,
                        files.take(j + 1),
                        here,
                    ));
                }
                j += 1;
            }
            proof {
                assert(files.take(j as int) =~= files);
                assert(root.take(i + 1).drop_last() =~= root.take(i as int));
                assert(verdicts.push(here).drop_last() =~= verdicts);
                verdicts = verdicts.push(here);
            }
            i += 1;
        }
        proof {
            assert(root.take(i as int) =~= root);
            assert(self.tree.root@.take(i as int) =~= self.tree.root@);
        }
        out
    }

    /// The tree as it goes to disk, from its serialised form.
    pub fn flush(&self, plaintext: &[u8]) -> (r: Result<Vec<u8>, DirectoryError>)
        requires
            plaintext@.len() <= usize::MAX - 28,
        ensures
            is_sealing(r, plaintext@, self.crypto_key@),
    {
        encrypt_tree(plaintext, &self.crypto_key)
    }
}

/// What `predicate` may have said of each file of each directory.
pub open spec fn are_verdicts<F: Fn(&FileEntry) -> bool>(
    predicate: F,
    root: Seq<DirEntry>,
    verdicts: Seq<Seq<bool>>,
) -> bool {
    &&& verdicts.len() == root.len()
    &&& forall|i: int|
        0 <= i < root.len() ==> (#[trigger] verdicts[i]).len() == root[i].files@.len() && forall|
            k: int,
        |
            0 <= k < verdicts[i].len() ==> call_ensures(
                predicate,
                (&root[i].files@[k],),
                #[trigger] verdicts[i][k],
            )
}

/// The files of one directory for which the verdict was true.
pub open spec fn chosen_here(
    dirname: Seq<char>,
    files: Seq<FileModel>,
    verdicts: Seq<bool>,
) -> Seq<(Seq<char>, FileModel)>
    decreases files.len(),
{
    if files.len() == 0 {
        Seq::empty()
    } else {
        let before = chosen_here(dirname, files.drop_last(), verdicts.drop_last());
        if verdicts.last() {
            before.push((dirname, files.last()))
        } else {
            before
        }
    }
}

/// The files for which the verdict was true.
pub open spec fn chosen(root: Seq<DirModel>, verdicts: Seq<Seq<bool>>) -> Seq<
    (Seq<char>, FileModel),
>
    decreases root.len(),
{
    if root.len() == 0 {
        Seq::empty()
    } else {
        chosen(root.drop_last(), verdicts.drop_last()) + chosen_here(
            root.last().dirname,
            root.last().files,
            verdicts.last(),
        )
    }
}

/// The models of found files.
pub open spec fn found_models(found: Seq<(String, FileEntry)>) -> Seq<(Seq<char>, FileModel)> {
    Seq::new(found.len(), |i: int| (found[i].0@, found[i].1@))
}

proof fn lemma_fewer_files(root: Seq<DirModel>, i: int)
    requires
        0 <= i <= root.len(),
    ensures
        all_files(root.take(i)).len() <= all_files(root).len(),
    decreases root.len(),
{
    if i < root.len() {
        assert(root.drop_last().take(i) =~= root.take(i));
        lemma_fewer_files(root.drop_last(), i);
    } else {
        assert(root.take(i) =~= root);
    }
}

// ---------- Sealing ----------

/// The bytes of `ghost-dir-key`.
pub const KEY_CONTEXT: [u8; 13] = [
    103u8,
    104u8,
    111u8,
    115u8,
    116u8,
    45u8,
    100u8,
    105u8,
    114u8,
    45u8,
    107u8,
    101u8,
    121u8,
];

/// The key that seals the directory of the node with the identity `seed`.
pub open spec fn directory_key(seed: Seq<u8>) -> Seq<u8> {
    hash::blake3_digest(KEY_CONTEXT@ + seed)
}

/// The key that seals the directory of the node with the identity `seed`.
pub fn derive_key(seed: &[u8; 32]) -> (r: [u8; 32])
    ensures
        r@ == directory_key(seed@),
{
    let context = KEY_CONTEXT;
    let mut material: Vec<u8> = Vec::new();
    material.extend_from_slice(&context);
    material.extend_from_slice(seed);
    assert(material@ =~= KEY_CONTEXT@ + seed@);
    blake3_hash(material.as_slice())
}

/// What a sealed tree is opened to, or the reason why not.
pub open spec fn unsealed(encrypted: Seq<u8>, key: Seq<u8>) -> Result<Seq<u8>, Seq<char>> {
    if encrypted.len() < 12 {
        Err("Truncated encrypted blob"@)
    } else {
        match aead::opened(key, encrypted.take(12), encrypted.skip(12)) {
            Some(plaintext) => Ok(plaintext),
            None => Err("Decryption failed"@),
        }
    }
}

/// Whether `decode` gives the tree that `trees` says of each serialised form.
pub open spec fn decodes<F: Fn(&Vec<u8>) -> Option<DirectoryTree>>(
    decode: F,
    trees: spec_fn(Seq<u8>) -> Option<Seq<DirModel>>,
) -> bool {
    forall|form: &Vec<u8>, tree: Option<DirectoryTree>| #[trigger]
        call_ensures(decode, (form,), tree) ==> trees(form@) == match tree {
            Some(tree) => Some(tree@),
            None => None,
        }
}

/// The tree that a node with the identity `seed` finds in what was stored,
/// where `trees` says which tree a serialised form holds.
pub open spec fn reopened(
    encrypted: Seq<u8>,
    seed: Seq<u8>,
    trees: spec_fn(Seq<u8>) -> Option<Seq<DirModel>>,
) -> Seq<DirModel> {
    match unsealed(encrypted, directory_key(seed)) {
        Ok(form) => match trees(form) {
            Some(tree) => tree,
            None => Seq::empty(),
        },
        Err(_) => Seq::empty(),
    }
}

/// Whether `r` is what sealing `plaintext` under `key` with some nonce gives.
/// It fails on a plaintext that is over length, and where no nonce could be drawn.
pub open spec fn is_sealing(
    r: Result<Vec<u8>, DirectoryError>,
    plaintext: Seq<u8>,
    key: Seq<u8>,
) -> bool {
    match r {
        Ok(out) => {
            &&& plaintext.len() <= aead::MAX_MESSAGE_LEN
            &&& out@.len() == plaintext.len() + 28
            &&& out@ == out@.take(12) + aead::sealed(key, out@.take(12), plaintext)
            &&& unsealed(out@, key) == Ok::<Seq<u8>, Seq<char>>(plaintext)
        },
        Err(e) => e matches DirectoryError::Crypto(reason) && reason@ == "ring::error::Unspecified"@,
    }
}

/// Seals `plaintext` under `key` with the given nonce; the nonce comes first.
pub fn encrypt_tree_with(plaintext: &[u8], key: &[u8; 32], nonce: [u8; 12]) -> (r: Result<
    Vec<u8>,
    DirectoryError,
>)
    requires
        plaintext@.len() <= usize::MAX - 28,
    ensures
        r is Ok == (plaintext@.len() <= aead::MAX_MESSAGE_LEN),
        is_sealing(r, plaintext@, key@),
        r matches Ok(out) ==> out@ == nonce@ + aead::sealed(key@, nonce@, plaintext@),
{
    let mut ciphertext = bytes::copy(plaintext);
    match seal_in_place(key, nonce, &mut ciphertext) {
        Ok(()) => {
            let mut out: Vec<u8> = Vec::with_capacity(12);
            out.extend_from_slice(&nonce);
            out.extend_from_slice(ciphertext.as_slice());
            assert(out@.take(12) =~= nonce@);
            assert(out@.skip(12) =~= ciphertext@);
            assert(out@ =~= nonce@ + ciphertext@);
            Ok(out)
        },
        Err(_) => Err(DirectoryError::Crypto("ring::error::Unspecified".to_owned())),
    }
}

/// Seals `plaintext` under `key` with a fresh nonce.
pub fn encrypt_tree(plaintext: &[u8], key: &[u8; 32]) -> (r: Result<Vec<u8>, DirectoryError>)
    requires
        plaintext@.len() <= usize::MAX - 28,
    ensures
        is_sealing(r, plaintext@, key@),
{
    match draw(12) {
        Ok(drawn) => encrypt_tree_with(plaintext, key, take_12(drawn.as_slice())),
        Err(_) => Err(DirectoryError::Crypto("ring::error::Unspecified".to_owned())),
    }
}

fn take_12(buf: &[u8]) -> (r: [u8; 12])
    requires
        buf@.len() >= 12,
    ensures
        r@ == buf@.take(12),
{
    let mut out = [0u8; 12];
    let mut i: usize = 0;
    while i < 12
        invariant
            i <= 12,
            buf@.len() >= 12,
            forall|j: int| 0 <= j < i ==> out@[j] == buf@[j],
        decreases 12 - i,
    {
        out[i] = buf[i];
        i += 1;
    }
    assert(out@ =~= buf@.take(12));
    out
}

/// Opens a sealed tree.
pub fn decrypt_tree(encrypted: &[u8], key: &[u8; 32]) -> (r: Result<Vec<u8>, DirectoryError>)
    ensures
        match r {
            Ok(plaintext) => unsealed(encrypted@, key@) == Ok::<Seq<u8>, Seq<char>>(plaintext@),
            Err(e) => e matches DirectoryError::Crypto(reason) && unsealed(encrypted@, key@)
                == Err::<Seq<u8>, Seq<char>>(reason@),
        },
{
    if encrypted.len() < 12 {
        return Err(DirectoryError::Crypto("Truncated encrypted blob".to_owned()));
    }
    let nonce = take_12(encrypted);
    let mut ciphertext = bytes::copy_range(encrypted, 12, encrypted.len());
    assert(ciphertext@ =~= encrypted@.skip(12));
    match open_in_place(key, nonce, &mut ciphertext) {
        Ok(plaintext) => Ok(bytes::copy(plaintext)),
        Err(_) => Err(DirectoryError::Crypto("Decryption failed".to_owned())),
    }
}

} // verus!

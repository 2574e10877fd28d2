//! What adding and removing files does to the paths of a tree.

use crate::bytes;
use crate::crypto::aead;
use crate::crypto::merkle;
use crate::directory;
use crate::directory::{DirEntry, DirModel, DirectoryTree, FileEntry, FileModel};
use crate::lists;
use crate::text;
use crate::text::Margin;
use vstd::prelude::*;

verus! {

/// Whether no two of `files` have the same name.
pub open spec fn distinct_files(files: Seq<FileModel>) -> bool {
    forall|i: int, j: int|
        0 <= i < j < files.len() ==> (#[trigger] files[i]).filename != (
        #[trigger] files[j]).filename
}

/// Whether no two directories have the same name, and no two files in one directory.
pub open spec fn well_named(root: Seq<DirModel>) -> bool {
    &&& forall|i: int, j: int|
        0 <= i < j < root.len() ==> (#[trigger] root[i]).dirname != (#[trigger] root[j]).dirname
    &&& forall|i: int| 0 <= i < root.len() ==> distinct_files((#[trigger] root[i]).files)
}

/// An empty tree is well named.
pub proof fn law_empty_tree_is_well_named()
    ensures
        well_named(Seq::<DirModel>::empty()),
{
}

/// Adding a file keeps a tree well named.
pub proof fn law_add_keeps_names_distinct(
    root: Seq<DirModel>,
    parent: Seq<char>,
    file: FileModel,
    now_ns: u64,
)
    requires
        well_named(root),
        !directory::clashes(root, parent, file.filename),
    ensures
        well_named(directory::with_file(root, parent, file, now_ns)),
{
    let name = directory::dirname_for(parent);
    let d = directory::first_dir(root, name);
    let after = directory::with_file(root, parent, file, now_ns);
    directory::lemma_first_dir(root, name);
    if d < root.len() {
        directory::lemma_first_file(root[d].files, file.filename);
        assert forall|i: int, j: int| 0 <= i < j < after.len() implies (
        #[trigger] after[i]).dirname != (#[trigger] after[j]).dirname by {
            assert(root[i].dirname != root[j].dirname);
        }
        assert forall|i: int| 0 <= i < after.len() implies distinct_files(
            (#[trigger] after[i]).files,
        ) by {
            assert(distinct_files(root[i].files));
        }
    } else {
        assert forall|i: int, j: int| 0 <= i < j < after.len() implies (
        #[trigger] after[i]).dirname != (#[trigger] after[j]).dirname by {
            assert(root[i].dirname != name);
            if j < root.len() {
                assert(root[i].dirname != root[j].dirname);
            }
        }
    }
}

/// Removing a file keeps a tree well named.
pub proof fn law_remove_keeps_names_distinct(root: Seq<DirModel>, path: Seq<char>)
    requires
        well_named(root),
        directory::resolved(root, path) is Some,
    ensures
        well_named(directory::without_file(root, path)),
{
    let name = directory::leaf_of(path);
    let d = directory::place_of(root, directory::home_of(path));
    let after = directory::without_file(root, path);
    lemma_resolved_stands(root, path);
    let f = directory::first_file(root[d].files, name);
    assert forall|i: int, j: int| 0 <= i < j < after.len() implies (#[trigger] after[i]).dirname
        != (#[trigger] after[j]).dirname by {
        assert(root[i].dirname != root[j].dirname);
    }
    assert forall|i: int| 0 <= i < after.len() implies distinct_files(
        (#[trigger] after[i]).files,
    ) by {
        assert(distinct_files(root[i].files));
        if i == d {
            lemma_fewer_distinct(root[d].files, f);
        }
    }
}

proof fn lemma_fewer_distinct(files: Seq<FileModel>, f: int)
    requires
        distinct_files(files),
        0 <= f < files.len(),
    ensures
        distinct_files(files.remove(f)),
{
    let fewer = files.remove(f);
    assert forall|a: int, b: int| 0 <= a < b < fewer.len() implies (#[trigger] fewer[a]).filename
        != (#[trigger] fewer[b]).filename by {
        let x = if a < f { a } else { a + 1 };
        let y = if b < f { b } else { b + 1 };
        assert(files[x].filename != files[y].filename);
    }
}

// ---------- Paths ----------

proof fn lemma_slash_in_front(path: Seq<char>)
    requires
        path.len() > 1,
        path[0] == '/',
    ensures
        directory::normal(path) == directory::normal(path.skip(1)),
        directory::name_of(path) == directory::name_of(path.skip(1)),
        directory::dirname_for(directory::parent_of(path)) == directory::dirname_for(
            directory::parent_of(path.skip(1)),
        ),
{
    reveal_strlit("/");
    let rest = path.skip(1);
    let parts = text::pieces(rest, '/');
    text::lemma_pieces(rest, '/');
    assert(path.contains('/'));
    assert(path.take(0) =~= Seq::<char>::empty());
    assert(text::pieces(path, '/') =~= seq![path.take(0)] + parts);
    assert("/"@ =~= seq!['/']);
    assert("/"@.skip(1) =~= Seq::<char>::empty());
    reveal_with_fuel(text::strip_start, 2);
    assert(directory::normal("/"@).len() == 0);
    if rest.contains('/') {
        let above = parts.drop_last();
        assert(parts.len() > 1);
        assert(text::pieces(path, '/').drop_last() =~= seq![path.take(0)] + above);
        text::lemma_joined_front(path.take(0), above, "/"@);
        let up = directory::parent_of(path);
        assert(up.skip(1) =~= directory::parent_of(rest));
        assert(up[0] == '/');
    } else {
        assert(text::pieces(path, '/').drop_last() =~= seq![path.take(0)]);
        assert(directory::parent_of(path) =~= Seq::<char>::empty());
        assert(directory::parent_of(rest) == "/"@);
    }
}

/// A path that does not end with a slash names the same directory and the same
/// file with and without slashes in front.
pub proof fn law_slashes_in_front_do_not_matter(path: Seq<char>)
    requires
        directory::name_of(path).len() > 0,
    ensures
        directory::normal(path).len() > 0,
        directory::leaf_of(path) == directory::name_of(path),
        directory::dirname_for(directory::home_of(path)) == directory::dirname_for(
            directory::parent_of(path),
        ),
    decreases path.len(),
{
    text::lemma_last_piece(path, '/');
    if path[0] == '/' {
        lemma_slash_in_front(path);
        law_slashes_in_front_do_not_matter(path.skip(1));
    } else {
        assert(directory::normal(path) == path);
    }
}

/// Slashes at either end of a path do not matter: it leads to the same file, and
/// the same file is removed by it.
pub proof fn law_slashes_at_the_ends_do_not_matter(
    root: Seq<DirModel>,
    lead: Seq<char>,
    path: Seq<char>,
    tail: Seq<char>,
)
    requires
        forall|i: int| 0 <= i < lead.len() ==> #[trigger] lead[i] == '/',
        forall|i: int| 0 <= i < tail.len() ==> #[trigger] tail[i] == '/',
    ensures
        directory::resolved(root, lead + path + tail) == directory::resolved(root, path),
        directory::without_file(root, lead + path + tail) == directory::without_file(root, path),
        directory::listing(root, lead + path + tail) == directory::listing(root, path),
{
    text::law_more_margin_does_not_matter(lead, path, tail, Margin::Slash);
}

/// A directory, a slash and a name without slashes make a path that names the
/// file of that name in that directory, whatever the directory.
pub proof fn law_joined_path_has_its_parts(parent: Seq<char>, name: Seq<char>)
    requires
        name.len() > 0,
        !name.contains('/'),
    ensures
        directory::parent_of(parent + "/"@ + name) == parent,
        directory::name_of(parent + "/"@ + name) == name,
{
    reveal_strlit("/");
    assert("/"@ =~= seq!['/']);
    let path = parent + "/"@ + name;
    assert(parent.push('/') + name =~= path);
    assert(path[parent.len() as int] == '/');
    text::lemma_pieces_append(parent, name, '/');
    text::lemma_pieces_join(parent, '/');
    assert(text::pieces(path, '/').drop_last() =~= text::pieces(parent, '/'));
}

/// A name without slashes is a path that names the file of that name at the root.
pub proof fn law_bare_path_names_root_file(name: Seq<char>)
    requires
        name.len() > 0,
        !name.contains('/'),
    ensures
        directory::is_root(directory::parent_of(name)),
        directory::name_of(name) == name,
{
    reveal_strlit("/");
    assert("/"@.skip(1) =~= Seq::<char>::empty());
    reveal_with_fuel(text::strip_start, 2);
    text::lemma_pieces(name, '/');
}

/// A directory's name is its path without slashes at either end, however many
/// there are; a path of slashes alone, or an empty one, is that of the root.
pub proof fn law_directory_is_named_by_its_path(lead: Seq<char>, dir: Seq<char>, tail: Seq<char>)
    requires
        forall|i: int| 0 <= i < lead.len() ==> #[trigger] lead[i] == '/',
        forall|i: int| 0 <= i < tail.len() ==> #[trigger] tail[i] == '/',
        dir.len() > 0 ==> dir[0] != '/' && dir.last() != '/',
    ensures
        directory::is_root(lead + dir + tail) == (dir.len() == 0),
        dir.len() > 0 ==> directory::dirname_for(lead + dir + tail) == dir,
        dir.len() == 0 ==> directory::dirname_for(lead + dir + tail) == directory::root_dirname(),
{
    text::law_trimming_takes_the_margins(lead, dir, tail, Margin::Slash);
}

// ---------- Lookup ----------

/// A file that is found under a name has that name and is one of the files, the
/// first of them; where none is found, none has the name.
pub proof fn law_file_is_found_by_its_name(files: Seq<FileModel>, name: Seq<char>)
    ensures
        match directory::file_called(files, name) {
            Some(file) => exists|i: int|
                0 <= i < files.len() && #[trigger] files[i] == file && file.filename == name && (
                forall|j: int| 0 <= j < i ==> (#[trigger] files[j]).filename != name),
            None => forall|i: int|
                0 <= i < files.len() ==> (#[trigger] files[i]).filename != name,
        },
{
    directory::lemma_first_file(files, name);
    let i = directory::first_file(files, name);
    if i < files.len() {
        assert(files[i] == files[i]);
    }
}

/// The files of a directory are those of the first directory kept under its
/// name, and none where no directory has the name.
pub proof fn law_listing_is_the_directorys(root: Seq<DirModel>, parent: Seq<char>, d: int)
    requires
        0 <= d <= root.len(),
        forall|j: int|
            0 <= j < d ==> (#[trigger] root[j]).dirname != directory::dirname_for(parent),
        d < root.len() ==> root[d].dirname == directory::dirname_for(parent),
    ensures
        directory::listing(root, parent) == if d < root.len() {
            root[d].files
        } else {
            Seq::<FileModel>::empty()
        },
{
    directory::lemma_first_dir_is(root, directory::dirname_for(parent), d);
}

/// A directory kept under the whole of a path is the one that the path names.
pub proof fn law_whole_name_goes_first(root: Seq<DirModel>, parent: Seq<char>, d: int)
    requires
        0 <= d < root.len(),
        root[d].dirname == directory::dirname_for(parent),
        forall|j: int|
            0 <= j < d ==> (#[trigger] root[j]).dirname != directory::dirname_for(parent),
    ensures
        directory::place_of(root, parent) == d,
        directory::files_at(root, parent) == root[d].files,
{
    directory::lemma_first_dir_is(root, directory::dirname_for(parent), d);
}

/// A walk goes from directory to directory through the subdirectories that they
/// list, and ends at the first step that is not listed or not there.
pub proof fn law_walk_follows_what_is_listed(
    root: Seq<DirModel>,
    parts: Seq<Seq<char>>,
    next: Seq<char>,
    d: int,
)
    requires
        parts.len() > 0,
        0 <= d <= root.len(),
        forall|j: int| 0 <= j < d ==> (#[trigger] root[j]).dirname != next,
        d < root.len() ==> root[d].dirname == next,
    ensures
        ({
            let from = directory::walk(root, parts);
            let to = directory::walk(root, parts.push(next));
            if 0 <= from < root.len() && root[from].subdirs.contains(next) {
                to == d
            } else {
                to == root.len()
            }
        }),
        directory::walk(root, seq![next]) == d,
{
    directory::lemma_first_dir_is(root, next, d);
    assert(parts.push(next).drop_last() =~= parts);
    lemma_walk_in_range(root, parts);
}

/// The file that a path leads to bears the path's last part as its name, and
/// lies in one of the directories.
pub proof fn law_resolved_file_bears_the_name(root: Seq<DirModel>, path: Seq<char>, file: FileModel)
    requires
        directory::resolved(root, path) == Some(file),
    ensures
        file.filename == directory::leaf_of(path),
        exists|d: int|
            0 <= d < root.len() && (#[trigger] root[d]).files.contains(file) && d
                == directory::place_of(root, directory::home_of(path)),
{
    lemma_resolved_stands(root, path);
    let d = directory::place_of(root, directory::home_of(path));
    let f = directory::first_file(root[d].files, directory::leaf_of(path));
    assert(root[d].files[f] == file);
    assert(root[d].files.contains(file));
}

/// A name is taken in a directory exactly where one of the directory's files has it.
pub proof fn law_name_is_taken_by_a_file(root: Seq<DirModel>, parent: Seq<char>, name: Seq<char>)
    ensures
        directory::clashes(root, parent, name) == exists|i: int|
            0 <= i < directory::listing(root, parent).len() && (#[trigger] directory::listing(
                root,
                parent,
            )[i]).filename == name,
{
    let files = directory::listing(root, parent);
    directory::lemma_first_file(files, name);
    let i = directory::first_file(files, name);
    if i < files.len() {
        assert(files[i].filename == name);
    }
}

/// Adding a file fails only where its own path is taken: where the path of the
/// directory, a slash and the name leads to nothing, the name is not taken there.
/// Files of that name in other directories do not matter.
pub proof fn law_free_path_is_not_taken(root: Seq<DirModel>, parent: Seq<char>, name: Seq<char>)
    requires
        name.len() > 0,
        !name.contains('/'),
        directory::resolved(root, parent + "/"@ + name) is None,
    ensures
        !directory::clashes(root, parent, name),
        forall|i: int|
            0 <= i < directory::listing(root, parent).len() ==> (#[trigger] directory::listing(
                root,
                parent,
            )[i]).filename != name,
{
    let path = parent + "/"@ + name;
    law_joined_path_has_its_parts(parent, name);
    law_slashes_in_front_do_not_matter(path);
    let home = directory::home_of(path);
    directory::lemma_first_dir(root, directory::dirname_for(parent));
    lemma_no_file_in_nothing(name);
    law_file_is_found_by_its_name(directory::listing(root, parent), name);
    assert(directory::first_dir(root, directory::dirname_for(home)) < root.len()
        ==> directory::files_at(root, home) == directory::listing(root, parent));
}

/// At the root too: where the bare name leads to nothing, it is not taken there.
pub proof fn law_free_name_at_the_root_is_not_taken(
    root: Seq<DirModel>,
    parent: Seq<char>,
    name: Seq<char>,
)
    requires
        directory::is_root(parent),
        name.len() > 0,
        !name.contains('/'),
        directory::resolved(root, name) is None,
    ensures
        !directory::clashes(root, parent, name),
{
    law_bare_path_names_root_file(name);
    law_slashes_in_front_do_not_matter(name);
    lemma_no_file_in_nothing(name);
}

/// A path that leads to a file kept in the directory of its name is taken.
pub proof fn law_path_of_a_file_is_taken(root: Seq<DirModel>, parent: Seq<char>, name: Seq<char>)
    requires
        name.len() > 0,
        !name.contains('/'),
        directory::resolved(root, parent + "/"@ + name) is Some,
        exists|d: int|
            0 <= d < root.len() && (#[trigger] root[d]).dirname == directory::dirname_for(parent),
    ensures
        directory::clashes(root, parent, name),
{
    let path = parent + "/"@ + name;
    law_joined_path_has_its_parts(parent, name);
    law_slashes_in_front_do_not_matter(path);
    directory::lemma_first_dir(root, directory::dirname_for(parent));
    let d = choose|d: int|
        0 <= d < root.len() && (#[trigger] root[d]).dirname == directory::dirname_for(parent);
    assert(directory::first_dir(root, directory::dirname_for(parent)) <= d);
}

// ---------- Adding ----------

proof fn lemma_listing_after_add(
    root: Seq<DirModel>,
    parent: Seq<char>,
    file: FileModel,
    now_ns: u64,
    other: Seq<char>,
)
    ensures
        directory::listing(directory::with_file(root, parent, file, now_ns), other) == if directory::dirname_for(
            other,
        ) == directory::dirname_for(parent) {
            directory::listing(root, parent).push(file)
        } else {
            directory::listing(root, other)
        },
{
    let after = directory::with_file(root, parent, file, now_ns);
    let name = directory::dirname_for(other);
    let dir = directory::dirname_for(parent);
    let i = directory::first_dir(root, name);
    let d = directory::first_dir(root, dir);
    directory::lemma_first_dir(root, name);
    directory::lemma_first_dir(root, dir);
    assert forall|j: int| 0 <= j < i implies (#[trigger] after[j]).dirname != name by {
        assert(root[j].dirname != name);
    }
    if i < root.len() || name == dir {
        directory::lemma_first_dir_is(after, name, i);
    } else {
        directory::lemma_first_dir_is(after, name, after.len() as int);
    }
    if name == dir && d == root.len() {
        assert(Seq::<FileModel>::empty().push(file) =~= seq![file]);
    }
}

proof fn lemma_called_after_push(files: Seq<FileModel>, file: FileModel, name: Seq<char>)
    ensures
        directory::file_called(files, name) is Some ==> directory::file_called(
            files.push(file),
            name,
        ) == directory::file_called(files, name),
        directory::file_called(files, name) is None ==> directory::file_called(
            files.push(file),
            name,
        ) == if file.filename == name {
            Some(file)
        } else {
            None
        },
{
    directory::lemma_first_file(files, name);
    let more = files.push(file);
    let f = directory::first_file(files, name);
    assert forall|j: int| 0 <= j < f implies (#[trigger] more[j]).filename != name by {
        assert(files[j].filename != name);
    }
    if f < files.len() || file.filename == name {
        directory::lemma_first_file_is(more, name, f);
    } else {
        directory::lemma_first_file_is(more, name, f + 1);
    }
}

/// A file that was added is found at every path that names its directory and it.
pub proof fn law_new_file_resolves(
    root: Seq<DirModel>,
    parent: Seq<char>,
    file: FileModel,
    now_ns: u64,
    path: Seq<char>,
)
    requires
        directory::normal(path).len() > 0,
        directory::dirname_for(directory::home_of(path)) == directory::dirname_for(parent),
        directory::leaf_of(path) == file.filename,
        !directory::clashes(root, parent, file.filename),
    ensures
        directory::resolved(directory::with_file(root, parent, file, now_ns), path) == Some(file),
{
    let after = directory::with_file(root, parent, file, now_ns);
    let home = directory::home_of(path);
    lemma_listing_after_add(root, parent, file, now_ns, home);
    lemma_called_after_push(directory::listing(root, parent), file, file.filename);
    assert(directory::listing(after, home).len() > 0);
}

proof fn lemma_kept_dirs(
    root: Seq<DirModel>,
    parent: Seq<char>,
    file: FileModel,
    now_ns: u64,
    name: Seq<char>,
)
    ensures
        ({
            let after = directory::with_file(root, parent, file, now_ns);
            let i = directory::first_dir(root, name);
            0 <= i < root.len() ==> after.len() >= root.len() && directory::first_dir(after, name)
                == i && after[i].subdirs == root[i].subdirs && (after[i].files == root[i].files
                || after[i].files == root[i].files.push(file))
        }),
{
    let after = directory::with_file(root, parent, file, now_ns);
    let i = directory::first_dir(root, name);
    directory::lemma_first_dir(root, name);
    directory::lemma_first_dir(root, directory::dirname_for(parent));
    if i < root.len() {
        assert forall|j: int| 0 <= j < i implies (#[trigger] after[j]).dirname != name by {
            assert(root[j].dirname != name);
        }
        directory::lemma_first_dir_is(after, name, i);
    }
}

proof fn lemma_walk_ends(root: Seq<DirModel>, parts: Seq<Seq<char>>)
    requires
        directory::walk(root, parts) < root.len(),
    ensures
        parts.len() > 0,
        directory::walk(root, parts) == directory::first_dir(root, parts.last()),
{
}

proof fn lemma_kept_walk(
    root: Seq<DirModel>,
    parent: Seq<char>,
    file: FileModel,
    now_ns: u64,
    parts: Seq<Seq<char>>,
)
    requires
        directory::walk(root, parts) < root.len(),
    ensures
        directory::walk(directory::with_file(root, parent, file, now_ns), parts)
            == directory::walk(root, parts),
    decreases parts.len(),
{
    lemma_walk_ends(root, parts);
    directory::lemma_first_dir(root, parts.last());
    lemma_kept_dirs(root, parent, file, now_ns, parts.last());
    if parts.len() > 1 {
        let shorter = parts.drop_last();
        lemma_kept_walk(root, parent, file, now_ns, shorter);
        lemma_walk_ends(root, shorter);
        directory::lemma_first_dir(root, shorter.last());
        lemma_kept_dirs(root, parent, file, now_ns, shorter.last());
    }
}

/// Adding a file changes no other: a path that led to a file still leads to it.
/// The one exception is a path through subdirectories, where the directory that
/// comes into being with the new file has the whole of its directory part as
/// its name.
pub proof fn law_add_keeps_other_files(
    root: Seq<DirModel>,
    parent: Seq<char>,
    file: FileModel,
    now_ns: u64,
    path: Seq<char>,
)
    requires
        directory::resolved(root, path) is Some,
        ({
            let dir = directory::dirname_for(directory::home_of(path));
            dir != directory::dirname_for(parent) || directory::first_dir(root, dir) < root.len()
        }),
    ensures
        directory::resolved(directory::with_file(root, parent, file, now_ns), path)
            == directory::resolved(root, path),
{
    let after = directory::with_file(root, parent, file, now_ns);
    let home = directory::home_of(path);
    let dir = directory::dirname_for(home);
    let d = directory::first_dir(root, dir);
    let leaf = directory::leaf_of(path);
    directory::lemma_first_dir(root, dir);
    directory::lemma_first_dir(root, directory::dirname_for(parent));
    lemma_no_file_in_nothing(leaf);
    if d < root.len() {
        lemma_kept_dirs(root, parent, file, now_ns, dir);
    } else {
        let parts = text::pieces(directory::normal(home), '/');
        let w = directory::walk(root, parts);
        assert forall|j: int| 0 <= j < after.len() implies (#[trigger] after[j]).dirname
            != dir by {
            if j < root.len() {
                assert(root[j].dirname != dir);
            }
        }
        directory::lemma_first_dir_is(after, dir, after.len() as int);
        lemma_kept_walk(root, parent, file, now_ns, parts);
        lemma_walk_ends(root, parts);
        directory::lemma_first_dir(root, parts.last());
        lemma_kept_dirs(root, parent, file, now_ns, parts.last());
    }
    let p = directory::place_of(root, home);
    lemma_called_after_push(root[p].files, file, leaf);
}

proof fn lemma_no_file_in_nothing(name: Seq<char>)
    ensures
        directory::file_called(Seq::<FileModel>::empty(), name) is None,
{
    directory::lemma_first_file_is(Seq::<FileModel>::empty(), name, 0);
}

/// Whether no directory lists subdirectories.
pub open spec fn lists_no_subdirs(root: Seq<DirModel>) -> bool {
    forall|i: int| 0 <= i < root.len() ==> (#[trigger] root[i]).subdirs.len() == 0
}

/// A tree that files were added to and removed from lists no subdirectories
/// that it did not list before.
pub proof fn law_no_subdirs_come_into_being(
    root: Seq<DirModel>,
    parent: Seq<char>,
    file: FileModel,
    now_ns: u64,
    path: Seq<char>,
)
    requires
        lists_no_subdirs(root),
    ensures
        lists_no_subdirs(directory::with_file(root, parent, file, now_ns)),
        directory::resolved(root, path) is Some ==> lists_no_subdirs(
            directory::without_file(root, path),
        ),
{
    let after = directory::with_file(root, parent, file, now_ns);
    directory::lemma_first_dir(root, directory::dirname_for(parent));
    assert forall|i: int| 0 <= i < after.len() implies (#[trigger] after[i]).subdirs.len()
        == 0 by {
        if i < root.len() {
            assert(root[i].subdirs.len() == 0);
        }
    }
    if directory::resolved(root, path) is Some {
        let fewer = directory::without_file(root, path);
        lemma_resolved_stands(root, path);
        assert forall|i: int| 0 <= i < fewer.len() implies (#[trigger] fewer[i]).subdirs.len()
            == 0 by {
            assert(root[i].subdirs.len() == 0);
        }
    }
}

proof fn lemma_walk_needs_subdirs(root: Seq<DirModel>, parent: Seq<char>)
    requires
        lists_no_subdirs(root),
    ensures
        directory::files_at(root, parent) == directory::listing(root, parent),
{
    let parts = text::pieces(directory::normal(parent), '/');
    directory::lemma_first_dir(root, directory::dirname_for(parent));
    text::lemma_pieces(directory::normal(parent), '/');
    if directory::first_dir(root, directory::dirname_for(parent)) == root.len()
        && !directory::is_root(parent) && parts.len() > 1 {
        let d = directory::walk(root, parts.drop_last());
        lemma_walk_in_range(root, parts.drop_last());
        if d < root.len() {
            assert(root[d].subdirs.len() == 0);
        }
    }
}

proof fn lemma_walk_in_range(root: Seq<DirModel>, parts: Seq<Seq<char>>)
    ensures
        0 <= directory::walk(root, parts) <= root.len(),
{
    if parts.len() > 0 {
        directory::lemma_first_dir(root, parts[0]);
        directory::lemma_first_dir(root, parts.last());
    }
}

/// What each path leads to after a file was added to a tree that lists no
/// subdirectories: what it led to before, or, where it led to nothing and names
/// the new file, the new file.
pub proof fn law_paths_after_add(
    root: Seq<DirModel>,
    parent: Seq<char>,
    file: FileModel,
    now_ns: u64,
    path: Seq<char>,
)
    requires
        lists_no_subdirs(root),
    ensures
        directory::resolved(directory::with_file(root, parent, file, now_ns), path) == if directory::resolved(
            root,
            path,
        ) is None && directory::normal(path).len() > 0 && directory::dirname_for(
            directory::home_of(path),
        ) == directory::dirname_for(parent) && directory::leaf_of(path) == file.filename {
            Some(file)
        } else {
            directory::resolved(root, path)
        },
{
    let after = directory::with_file(root, parent, file, now_ns);
    let home = directory::home_of(path);
    law_no_subdirs_come_into_being(root, parent, file, now_ns, path);
    lemma_walk_needs_subdirs(root, home);
    lemma_walk_needs_subdirs(after, home);
    lemma_listing_after_add(root, parent, file, now_ns, home);
    lemma_called_after_push(directory::listing(root, home), file, directory::leaf_of(path));
}

/// Adding a file appends it to the files of its directory and changes the files
/// of no other directory.
pub proof fn law_add_grows_one_listing(
    root: Seq<DirModel>,
    parent: Seq<char>,
    file: FileModel,
    now_ns: u64,
    other: Seq<char>,
)
    ensures
        ({
            let after = directory::with_file(root, parent, file, now_ns);
            &&& directory::listing(after, parent) == directory::listing(root, parent).push(file)
            &&& directory::dirname_for(other) != directory::dirname_for(parent)
                ==> directory::listing(after, other) == directory::listing(root, other)
        }),
{
    lemma_listing_after_add(root, parent, file, now_ns, parent);
    lemma_listing_after_add(root, parent, file, now_ns, other);
}

proof fn lemma_files_counted(root: Seq<DirModel>, d: int, dir: DirModel)
    requires
        0 <= d < root.len(),
    ensures
        directory::all_files(root.update(d, dir)).len() == directory::all_files(root).len()
            - root[d].files.len() + dir.files.len(),
    decreases root.len(),
{
    let after = root.update(d, dir);
    if d < root.len() - 1 {
        lemma_files_counted(root.drop_last(), d, dir);
        assert(after.drop_last() =~= root.drop_last().update(d, dir));
    } else {
        assert(after.drop_last() =~= root.drop_last());
    }
}

/// There is one file more after a file was added, and one fewer after one was removed.
pub proof fn law_files_are_counted(
    root: Seq<DirModel>,
    parent: Seq<char>,
    file: FileModel,
    now_ns: u64,
    path: Seq<char>,
)
    ensures
        directory::all_files(directory::with_file(root, parent, file, now_ns)).len()
            == directory::all_files(root).len() + 1,
        directory::resolved(root, path) is Some ==> directory::all_files(
            directory::without_file(root, path),
        ).len() == directory::all_files(root).len() - 1,
        directory::all_files(Seq::<DirModel>::empty()).len() == 0,
{
    let after = directory::with_file(root, parent, file, now_ns);
    let name = directory::dirname_for(parent);
    let d = directory::first_dir(root, name);
    directory::lemma_first_dir(root, name);
    if d < root.len() {
        lemma_files_counted(
            root,
            d,
            (DirModel { files: root[d].files.push(file), ..root[d] }),
        );
    } else {
        assert(after.drop_last() =~= root);
    }
    if directory::resolved(root, path) is Some {
        lemma_resolved_stands(root, path);
        let p = directory::place_of(root, directory::home_of(path));
        let f = directory::first_file(root[p].files, directory::leaf_of(path));
        lemma_files_counted(root, p, (DirModel { files: root[p].files.remove(f), ..root[p] }));
    }
}

/// A directory that a file was added in is among the directories from then on,
/// and no other comes into being.
pub proof fn law_directories_come_with_their_files(
    root: Seq<DirModel>,
    parent: Seq<char>,
    file: FileModel,
    now_ns: u64,
    name: Seq<char>,
)
    ensures
        directory::dirnames(directory::with_file(root, parent, file, now_ns)).contains(name) == (
        directory::dirnames(root).contains(name) || name == directory::dirname_for(parent)),
{
    let after = directory::with_file(root, parent, file, now_ns);
    let dir = directory::dirname_for(parent);
    let d = directory::first_dir(root, dir);
    directory::lemma_first_dir(root, dir);
    let (before, names) = (directory::dirnames(root), directory::dirnames(after));
    if d < root.len() {
        assert(names =~= before);
        assert(before[d] == dir);
    } else {
        assert(names =~= before.push(dir));
        lists::lemma_push_contains(before, dir, name);
    }
}

/// A file that was added in a directory, whichever, is found there: the path
/// that consists of the directory, a slash and the file's name leads to it.
pub proof fn law_added_file_resolves(
    root: Seq<DirModel>,
    parent: Seq<char>,
    file: FileModel,
    now_ns: u64,
)
    requires
        file.filename.len() > 0,
        !file.filename.contains('/'),
        !directory::clashes(root, parent, file.filename),
    ensures
        directory::resolved(
            directory::with_file(root, parent, file, now_ns),
            parent + "/"@ + file.filename,
        ) == Some(file),
{
    let path = parent + "/"@ + file.filename;
    law_joined_path_has_its_parts(parent, file.filename);
    law_slashes_in_front_do_not_matter(path);
    law_new_file_resolves(root, parent, file, now_ns, path);
}

/// A file that was added at the root is found under its bare name.
pub proof fn law_added_root_file_resolves(
    root: Seq<DirModel>,
    parent: Seq<char>,
    file: FileModel,
    now_ns: u64,
)
    requires
        directory::is_root(parent),
        file.filename.len() > 0,
        !file.filename.contains('/'),
        !directory::clashes(root, parent, file.filename),
    ensures
        directory::resolved(directory::with_file(root, parent, file, now_ns), file.filename)
            == Some(file),
{
    let path = file.filename;
    law_bare_path_names_root_file(path);
    law_slashes_in_front_do_not_matter(path);
    law_new_file_resolves(root, parent, file, now_ns, path);
}

/// Each file of a directory of distinct names is found at the path that
/// consists of the directory, without slashes at either end, a slash and the
/// file's name; a file at the root under its bare name.
pub proof fn law_listed_file_resolves(
    root: Seq<DirModel>,
    parent: Seq<char>,
    i: int,
)
    requires
        0 <= i < directory::listing(root, parent).len(),
        distinct_files(directory::listing(root, parent)),
        directory::listing(root, parent)[i].filename.len() > 0,
        !directory::listing(root, parent)[i].filename.contains('/'),
    ensures
        ({
            let file = directory::listing(root, parent)[i];
            let path = if directory::is_root(parent) {
                file.filename
            } else {
                directory::normal(parent) + "/"@ + file.filename
            };
            directory::resolved(root, path) == Some(file)
        }),
{
    let files = directory::listing(root, parent);
    let name = files[i].filename;
    let path = if directory::is_root(parent) {
        law_bare_path_names_root_file(name);
        name
    } else {
        law_joined_path_has_its_parts(directory::normal(parent), name);
        text::lemma_trimmed(parent, Margin::Slash);
        directory::normal(parent) + "/"@ + name
    };
    law_slashes_in_front_do_not_matter(path);
    assert forall|j: int| 0 <= j < i implies (#[trigger] files[j]).filename != name by {
        assert(files[j].filename != files[i].filename);
    }
    directory::lemma_first_file_is(files, name, i);
}

// ---------- Removing ----------

proof fn lemma_resolved_stands(root: Seq<DirModel>, path: Seq<char>)
    requires
        directory::resolved(root, path) is Some,
    ensures
        ({
            let d = directory::place_of(root, directory::home_of(path));
            let f = directory::first_file(root[d].files, directory::leaf_of(path));
            &&& 0 <= d < root.len()
            &&& root[d].files == directory::files_at(root, directory::home_of(path))
            &&& 0 <= f < root[d].files.len()
            &&& root[d].files[f].filename == directory::leaf_of(path)
        }),
{
    let home = directory::home_of(path);
    directory::lemma_first_dir(root, directory::dirname_for(home));
    lemma_walk_in_range(root, text::pieces(directory::normal(home), '/'));
    lemma_no_file_in_nothing(directory::leaf_of(path));
    directory::lemma_first_file(directory::files_at(root, home), directory::leaf_of(path));
}

proof fn lemma_first_dir_after_remove(root: Seq<DirModel>, path: Seq<char>, name: Seq<char>)
    requires
        directory::resolved(root, path) is Some,
    ensures
        directory::first_dir(directory::without_file(root, path), name) == directory::first_dir(
            root,
            name,
        ),
{
    let after = directory::without_file(root, path);
    let i = directory::first_dir(root, name);
    lemma_resolved_stands(root, path);
    directory::lemma_first_dir(root, name);
    assert forall|j: int| 0 <= j < i implies (#[trigger] after[j]).dirname != name by {
        assert(root[j].dirname != name);
    }
    directory::lemma_first_dir_is(after, name, i);
}

proof fn lemma_walk_after_remove(root: Seq<DirModel>, path: Seq<char>, parts: Seq<Seq<char>>)
    requires
        directory::resolved(root, path) is Some,
    ensures
        directory::walk(directory::without_file(root, path), parts) == directory::walk(root, parts),
    decreases parts.len(),
{
    lemma_resolved_stands(root, path);
    if parts.len() > 0 {
        lemma_first_dir_after_remove(root, path, parts[0]);
        lemma_first_dir_after_remove(root, path, parts.last());
        if parts.len() > 1 {
            lemma_walk_after_remove(root, path, parts.drop_last());
            lemma_walk_in_range(root, parts.drop_last());
        }
    }
}

proof fn lemma_files_after_remove(root: Seq<DirModel>, path: Seq<char>, other: Seq<char>)
    requires
        directory::resolved(root, path) is Some,
    ensures
        directory::files_at(directory::without_file(root, path), other) == if directory::place_of(
            root,
            other,
        ) == directory::place_of(root, directory::home_of(path)) {
            let files = directory::files_at(root, other);
            files.remove(directory::first_file(files, directory::leaf_of(path)))
        } else {
            directory::files_at(root, other)
        },
{
    lemma_resolved_stands(root, path);
    lemma_first_dir_after_remove(root, path, directory::dirname_for(other));
    directory::lemma_first_dir(root, directory::dirname_for(other));
    let parts = text::pieces(directory::normal(other), '/');
    lemma_walk_after_remove(root, path, parts);
    lemma_walk_in_range(root, parts);
}

/// A file that was removed from a directory of distinct names is gone.
pub proof fn law_removed_file_is_gone(root: Seq<DirModel>, path: Seq<char>)
    requires
        directory::resolved(root, path) is Some,
        distinct_files(directory::files_at(root, directory::home_of(path))),
    ensures
        directory::resolved(directory::without_file(root, path), path) is None,
{
    let name = directory::leaf_of(path);
    let files = directory::files_at(root, directory::home_of(path));
    let f = directory::first_file(files, name);
    lemma_resolved_stands(root, path);
    lemma_files_after_remove(root, path, directory::home_of(path));
    let fewer = files.remove(f);
    assert forall|j: int| 0 <= j < fewer.len() implies (#[trigger] fewer[j]).filename != name by {
        if j < f {
            assert(files[j].filename != files[f].filename);
        } else {
            assert(files[f].filename != files[j + 1].filename);
        }
    }
    directory::lemma_first_file_is(fewer, name, fewer.len() as int);
}

/// Removing a file changes no other: every path that leads to another directory
/// or names another file leads where it led before.
pub proof fn law_remove_keeps_other_files(root: Seq<DirModel>, path: Seq<char>, other: Seq<char>)
    requires
        directory::resolved(root, path) is Some,
        directory::place_of(root, directory::home_of(other)) != directory::place_of(
            root,
            directory::home_of(path),
        ) || directory::leaf_of(other) != directory::leaf_of(path),
    ensures
        directory::resolved(directory::without_file(root, path), other) == directory::resolved(
            root,
            other,
        ),
{
    let name = directory::leaf_of(other);
    let files = directory::files_at(root, directory::home_of(other));
    lemma_files_after_remove(root, path, directory::home_of(other));
    if directory::place_of(root, directory::home_of(other)) == directory::place_of(
        root,
        directory::home_of(path),
    ) {
        lemma_resolved_stands(root, path);
        let f = directory::first_file(files, directory::leaf_of(path));
        let fewer = files.remove(f);
        let g = directory::first_file(files, name);
        directory::lemma_first_file(files, name);
        let h = if g < f { g } else { g - 1 };
        assert forall|j: int| 0 <= j < h implies (#[trigger] fewer[j]).filename != name by {
            assert(files[if j < f { j } else { j + 1 }].filename != name);
        }
        assert(g != f);
        directory::lemma_first_file_is(fewer, name, h);
    }
}

/// Removing a file takes that file, and no other, from the files of the directory
/// that its path leads to.
pub proof fn law_remove_shrinks_one_listing(root: Seq<DirModel>, path: Seq<char>, other: Seq<char>)
    requires
        directory::resolved(root, path) is Some,
    ensures
        ({
            let after = directory::without_file(root, path);
            let home = directory::home_of(path);
            &&& exists|f: int|
                0 <= f < directory::files_at(root, home).len() && Some(
                    directory::files_at(root, home)[f],
                ) == directory::resolved(root, path) && directory::files_at(after, home)
                    == #[trigger] directory::files_at(root, home).remove(f)
            &&& directory::place_of(root, other) != directory::place_of(root, home)
                ==> directory::files_at(after, other) == directory::files_at(root, other)
        }),
{
    let home = directory::home_of(path);
    lemma_resolved_stands(root, path);
    lemma_files_after_remove(root, path, home);
    lemma_files_after_remove(root, path, other);
}

// ---------- Searching ----------

proof fn lemma_chosen_here(
    dirname: Seq<char>,
    files: Seq<FileModel>,
    verdicts: Seq<bool>,
    x: (Seq<char>, FileModel),
)
    requires
        verdicts.len() == files.len(),
    ensures
        directory::chosen_here(dirname, files, verdicts).contains(x) == exists|k: int|
            0 <= k < files.len() && #[trigger] verdicts[k] && x == (dirname, files[k]),
    decreases files.len(),
{
    if files.len() > 0 {
        let n = files.len() - 1;
        let (fewer, rest) = (files.drop_last(), verdicts.drop_last());
        lemma_chosen_here(dirname, fewer, rest, x);
        let before = directory::chosen_here(dirname, fewer, rest);
        lists::lemma_push_contains(before, (dirname, files.last()), x);
        if exists|k: int| 0 <= k < fewer.len() && #[trigger] rest[k] && x == (dirname, fewer[k]) {
            let k = choose|k: int|
                0 <= k < fewer.len() && #[trigger] rest[k] && x == (dirname, fewer[k]);
            assert(verdicts[k] && x == (dirname, files[k]));
        }
        if exists|k: int| 0 <= k < files.len() && #[trigger] verdicts[k] && x == (dirname, files[k]) {
            let k = choose|k: int|
                0 <= k < files.len() && #[trigger] verdicts[k] && x == (dirname, files[k]);
            if k < n {
                assert(rest[k] && x == (dirname, fewer[k]));
            }
        }
        if verdicts.last() {
            assert(verdicts[n]);
        }
    }
}

/// A search gives exactly the files that the predicate was true of, each with
/// the name of its directory.
pub proof fn law_search_finds_what_was_asked_for(
    root: Seq<DirModel>,
    verdicts: Seq<Seq<bool>>,
    x: (Seq<char>, FileModel),
)
    requires
        verdicts.len() == root.len(),
        forall|i: int|
            0 <= i < root.len() ==> (#[trigger] verdicts[i]).len() == root[i].files.len(),
    ensures
        directory::chosen(root, verdicts).contains(x) == exists|i: int, k: int|
            0 <= i < root.len() && 0 <= k < root[i].files.len() && #[trigger] verdicts[i][k] && x
                == (root[i].dirname, root[i].files[k]),
    decreases root.len(),
{
    if root.len() > 0 {
        let n = root.len() - 1;
        let (fewer, rest) = (root.drop_last(), verdicts.drop_last());
        assert forall|i: int| 0 <= i < fewer.len() implies (#[trigger] rest[i]).len()
            == fewer[i].files.len() by {
            assert(verdicts[i].len() == root[i].files.len());
        }
        law_search_finds_what_was_asked_for(fewer, rest, x);
        assert(verdicts[n].len() == root[n].files.len());
        lemma_chosen_here(root[n].dirname, root[n].files, verdicts[n], x);
        let before = directory::chosen(fewer, rest);
        let here = directory::chosen_here(root[n].dirname, root[n].files, verdicts[n]);
        lists::lemma_append_contains(before, here, x);
        if before.contains(x) {
            let (i, k) = choose|i: int, k: int|
                0 <= i < fewer.len() && 0 <= k < fewer[i].files.len() && #[trigger] rest[i][k]
                    && x == (fewer[i].dirname, fewer[i].files[k]);
            assert(verdicts[i][k] && root[i] == fewer[i]);
        }
        if exists|i: int, k: int|
            0 <= i < root.len() && 0 <= k < root[i].files.len() && #[trigger] verdicts[i][k] && x
                == (root[i].dirname, root[i].files[k]) {
            let (i, k) = choose|i: int, k: int|
                0 <= i < root.len() && 0 <= k < root[i].files.len() && #[trigger] verdicts[i][k]
                    && x == (root[i].dirname, root[i].files[k]);
            if i < n {
                assert(rest[i][k] && fewer[i] == root[i]);
            } else {
                assert(verdicts[n][k]);
            }
        }
    }
}

// ---------- Reopening ----------

/// A directory that was written out under the key of its node and is reopened
/// by the node with the same identity has the same tree, as long as the
/// serialised form that was sealed holds that tree.
pub proof fn law_reopened_directory_is_the_same(
    tree: Seq<DirModel>,
    seed: Seq<u8>,
    form: Seq<u8>,
    flushed: Vec<u8>,
    trees: spec_fn(Seq<u8>) -> Option<Seq<DirModel>>,
)
    requires
        trees(form) == Some(tree),
        directory::is_sealing(Ok(flushed), form, directory::directory_key(seed)),
    ensures
        directory::reopened(flushed@, seed, trees) == tree,
{
}

/// What does not open under the key of a node, as where another node wrote it,
/// is reopened as an empty directory.
pub proof fn law_unopened_directory_is_empty(
    encrypted: Seq<u8>,
    seed: Seq<u8>,
    trees: spec_fn(Seq<u8>) -> Option<Seq<DirModel>>,
)
    requires
        directory::unsealed(encrypted, directory::directory_key(seed)) is Err,
    ensures
        directory::reopened(encrypted, seed, trees) == Seq::<DirModel>::empty(),
{
}

/// What was stored is reopened only where it opens under the node's key and
/// holds a serialised form; else the directory is empty.
pub proof fn law_only_what_opens_is_reopened(
    encrypted: Seq<u8>,
    seed: Seq<u8>,
    trees: spec_fn(Seq<u8>) -> Option<Seq<DirModel>>,
)
    requires
        directory::reopened(encrypted, seed, trees).len() > 0,
    ensures
        encrypted.len() >= 12,
        ({
            let form = aead::opened(
                directory::directory_key(seed),
                encrypted.take(12),
                encrypted.skip(12),
            );
            form is Some && trees(form->0) == Some(directory::reopened(encrypted, seed, trees))
        }),
{
}

/// Two nodes with different identities have different directory keys, as long as
/// the digest tells them apart.
pub proof fn law_directory_keys_differ(a: Seq<u8>, b: Seq<u8>)
    requires
        a.len() == 32,
        b.len() == 32,
        a != b,
        merkle::told_apart(directory::KEY_CONTEXT@ + a, directory::KEY_CONTEXT@ + b),
    ensures
        directory::directory_key(a) != directory::directory_key(b),
{
    let context = directory::KEY_CONTEXT@;
    assert((context + a).skip(context.len() as int) =~= a);
    assert((context + b).skip(context.len() as int) =~= b);
}

// ---------- Models ----------

/// A file, its directory and their lists are seen with everything they hold.
pub proof fn law_entries_are_seen_whole(file: FileEntry, dir: DirEntry, tree: DirectoryTree)
    ensures
        file@.filename == file.filename@,
        file@.size == file.size,
        file@.content_hash == file.content_hash@,
        file@.block_count == file.block_count,
        file@.block_groups.len() == file.block_groups@.len(),
        forall|i: int|
            0 <= i < file.block_groups@.len() ==> #[trigger] file@.block_groups[i]
                == file.block_groups@[i]@,
        file@.block_keys.len() == file.block_keys@.len(),
        forall|i: int|
            0 <= i < file.block_keys@.len() ==> (#[trigger] file@.block_keys[i]).block_len
                == file.block_keys@[i].block_len && file@.block_keys[i].shares == bytes::rows(
                file.block_keys@[i].shares@,
            ),
        file@.created_at_ns == file.created_at_ns,
        file@.modified_at_ns == file.modified_at_ns,
        file@.mode == file.mode,
        file@.version == file.version,
        dir@.dirname == dir.dirname@,
        dir@.created_at_ns == dir.created_at_ns,
        dir@.subdirs.len() == dir.subdirs@.len(),
        forall|i: int|
            0 <= i < dir.subdirs@.len() ==> #[trigger] dir@.subdirs[i] == dir.subdirs@[i]@,
        dir@.files.len() == dir.files@.len(),
        forall|i: int| 0 <= i < dir.files@.len() ==> #[trigger] dir@.files[i] == dir.files@[i]@,
        tree@.len() == tree.root@.len(),
        forall|i: int| 0 <= i < tree.root@.len() ==> #[trigger] tree@[i] == tree.root@[i]@,
{
}

/// A lookup gives the file that was asked for as a whole, and nothing where
/// there is nothing.
pub proof fn law_lookup_gives_the_file(r: Option<FileEntry>, m: Option<FileModel>)
    requires
        directory::is_file(r, m),
    ensures
        r is Some == m is Some,
        r is Some ==> r->0@ == m->0,
{
}

} // verus!

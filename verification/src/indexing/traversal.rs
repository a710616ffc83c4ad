//! Which files belong to a project.
//!
//! One walk decides for the index, for the change detection and for the staleness
//! check alike, so that all of them mean the same files.

use vstd::prelude::*;

use crate::paths::{
    component_rank, component_texts, components, join, joined_path,
    the_last_name_is_the_last_component,
};
use crate::text::{ends_with, has_suffix, same, texts};

verus! {

/// The file that makes the directory holding it a project of its own.
///
/// The directory leaves the walk of the project around it; walked as a root
/// itself, it gives its own files.
pub const NESTED_ROOT_MARKER: &'static str = ".rmcroot";

/// The path of the marker of a directory. That something is there is enough: it need
/// not be readable.
pub fn marker_path(dir: &str) -> (path: String)
    ensures
        path@ == joined_path(dir@, NESTED_ROOT_MARKER@),
{
    join(dir, NESTED_ROOT_MARKER)
}

/// A directory of this name is never entered: build output, vendored copies,
/// metadata of version control, and generated trees.
pub open spec fn is_skipped_name(name: Seq<char>) -> bool {
    ||| name == "target"@
    ||| name == "vendor"@
    ||| name == ".git"@
    ||| name == ".jj"@
    ||| name == ".direnv"@
    ||| name == ".skeleton"@
}

/// Whether a directory of this name is never entered.
pub fn is_skipped_dir_name(name: &str) -> (r: bool)
    ensures
        r == is_skipped_name(name@),
{
    same(name, "target") || same(name, "vendor") || same(name, ".git") || same(name, ".jj") || same(
        name,
        ".direnv",
    ) || same(name, ".skeleton")
}

/// What the walk does with a directory.
#[derive(Debug, Clone, Copy, PartialEq, Eq, Structural)]
pub enum Descent {
    /// It is entered.
    Enter,
    /// It is passed over for its name.
    Skip,
    /// It is left to its own index.
    Boundary,
}

/// What the walk does with a directory of this name, which may be the root of the
/// walk and may hold the marker. The name counts first; a marker at the root does not.
pub open spec fn descent_of(name: Seq<char>, is_root: bool, has_marker: bool) -> Descent {
    if is_skipped_name(name) {
        Descent::Skip
    } else if has_marker && !is_root {
        Descent::Boundary
    } else {
        Descent::Enter
    }
}

/// What the walk does with a directory.
pub fn descent(name: &str, is_root: bool, has_marker: bool) -> (d: Descent)
    ensures
        d == descent_of(name@, is_root, has_marker),
{
    if is_skipped_dir_name(name) {
        Descent::Skip
    } else if has_marker && !is_root {
        Descent::Boundary
    } else {
        Descent::Enter
    }
}

/// A file whose name ends in `.rs` after at least one character.
pub open spec fn is_rust_path(path: Seq<char>) -> bool {
    let cs = components(path);
    cs.len() > 0 && component_rank(cs.last()) == 3 && cs.last().len() > 3 && has_suffix(
        cs.last(),
        ".rs"@,
    )
}

/// Whether a path is that of a Rust source file.
pub fn is_rust_file(path: &str) -> (r: bool)
    ensures
        r == is_rust_path(path@),
{
    let cs = component_texts(path);
    proof {
        assert(texts(cs@).len() == cs@.len());
        reveal_strlit(".rs");
    }
    if cs.len() == 0 {
        return false;
    }
    let name = &cs[cs.len() - 1];
    proof {
        assert(name@ == components(path@).last());
        let n = name@;
        if has_suffix(n, ".rs"@) && n.len() > 3 {
            assert(n.skip(n.len() - 3)[0] == '.');
        }
        assert(n == seq!['/'] ==> n.len() == 1);
        assert(n == seq!['.'] ==> n.len() == 1);
        assert(n == seq!['.', '.'] ==> n.len() == 2);
    }
    name.as_str().unicode_len() > 3 && ends_with(name.as_str(), ".rs")
}

/// What a walk meets.
pub enum Entry {
    /// A directory with its path, its name, whether it holds the marker, and what
    /// is in it. Nothing need be in it where it is not entered.
    Dir { path: String, name: String, has_marker: bool, children: Vec<Entry> },
    /// A file with its path.
    File { path: String },
    /// Something else, such as a link.
    Other,
    /// Something that could not be read.
    Unreadable,
}

/// The Rust files that the walk of an entry gives, in the order in which they are met.
pub open spec fn files_of(entry: Entry, is_root: bool) -> Seq<Seq<char>>
    decreases entry, 0nat,
{
    match entry {
        Entry::Dir { path, name, has_marker, children } => if descent_of(
            name@,
            is_root,
            has_marker,
        ) == Descent::Enter {
            files_of_first(children@, children@.len())
        } else {
            Seq::empty()
        },
        Entry::File { path } => if is_rust_path(path@) {
            seq![path@]
        } else {
            Seq::empty()
        },
        _ => Seq::empty(),
    }
}

/// The Rust files of the first `n` entries of a directory.
pub open spec fn files_of_first(entries: Seq<Entry>, n: nat) -> Seq<Seq<char>>
    decreases entries, n,
{
    if n == 0 || n > entries.len() {
        Seq::empty()
    } else {
        files_of_first(entries, (n - 1) as nat) + files_of(entries[n - 1], false)
    }
}

/// How many entries of a walk could not be read.
pub open spec fn errors_of(entry: Entry, is_root: bool) -> nat
    decreases entry, 0nat,
{
    match entry {
        Entry::Dir { path, name, has_marker, children } => if descent_of(
            name@,
            is_root,
            has_marker,
        ) == Descent::Enter {
            errors_of_first(children@, children@.len())
        } else {
            0
        },
        Entry::Unreadable => 1,
        _ => 0,
    }
}

/// How many of the first `n` entries of a directory, and of what is below them,
/// could not be read.
pub open spec fn errors_of_first(entries: Seq<Entry>, n: nat) -> nat
    decreases entries, n,
{
    if n == 0 || n > entries.len() {
        0
    } else {
        errors_of_first(entries, (n - 1) as nat) + errors_of(entries[n - 1], false)
    }
}

/// The directories at which a walk stops because they hold the marker, in the
/// order in which they are met.
pub open spec fn boundaries_of(entry: Entry, is_root: bool) -> Seq<Seq<char>>
    decreases entry, 0nat,
{
    match entry {
        Entry::Dir { path, name, has_marker, children } => match descent_of(
            name@,
            is_root,
            has_marker,
        ) {
            Descent::Enter => boundaries_of_first(children@, children@.len()),
            Descent::Boundary => seq![path@],
            Descent::Skip => Seq::empty(),
        },
        _ => Seq::empty(),
    }
}

/// The directories at which a walk stops below the first `n` entries of a directory.
pub open spec fn boundaries_of_first(entries: Seq<Entry>, n: nat) -> Seq<Seq<char>>
    decreases entries, n,
{
    if n == 0 || n > entries.len() {
        Seq::empty()
    } else {
        boundaries_of_first(entries, (n - 1) as nat) + boundaries_of(entries[n - 1], false)
    }
}

/// What a walk has found.
pub struct ProjectFiles {
    /// The Rust files.
    pub files: Vec<String>,
    /// How many entries could not be read.
    pub walk_errors: usize,
    /// The directories that are left to their own index.
    pub nested_roots: Vec<String>,
}

fn walk(entry: &Entry, is_root: bool, found: &mut ProjectFiles)
    requires
        old(found).walk_errors + errors_of(*entry, is_root) <= usize::MAX,
    ensures
        texts(final(found).files@) == texts(old(found).files@) + files_of(*entry, is_root),
        final(found).walk_errors == old(found).walk_errors + errors_of(*entry, is_root),
        texts(final(found).nested_roots@) == texts(old(found).nested_roots@) + boundaries_of(
            *entry,
            is_root,
        ),
    decreases *entry,
{
    let ghost files = texts(found.files@);
    let ghost nested = texts(found.nested_roots@);
    let ghost errors = found.walk_errors as nat;
    proof {
        assert(files + Seq::<Seq<char>>::empty() =~= files);
        assert(nested + Seq::<Seq<char>>::empty() =~= nested);
    }
    match entry {
        Entry::Dir { path, name, has_marker, children } => {
            match descent(name.as_str(), is_root, *has_marker) {
                Descent::Enter => {
                    let mut i: usize = 0;
                    while i < children.len()
                        invariant
                            i <= children@.len(),
                            *entry == (Entry::Dir {
                                path: *path,
                                name: *name,
                                has_marker: *has_marker,
                                children: *children,
                            }),
                            errors + errors_of_first(children@, children@.len()) <= usize::MAX,
                            texts(found.files@) == files + files_of_first(children@, i as nat),
                            found.walk_errors == errors + errors_of_first(children@, i as nat),
                            texts(found.nested_roots@) == nested + boundaries_of_first(
                                children@,
                                i as nat,
                            ),
                        decreases children@.len() - i,
                    {
                        proof {
                            errors_grow(children@, (i + 1) as nat);
                            assert(decreases_to!(*entry => entry->children));
                            assert(decreases_to!(*children => children@));
                            assert(decreases_to!(children@ => children@[i as int]));
                        }
                        walk(&children[i], false, found);
                        proof {
                            let c = children@[i as int];
                            assert(files + files_of_first(children@, i as nat) + files_of(c, false)
                                =~= files + files_of_first(children@, (i + 1) as nat));
                            assert(nested + boundaries_of_first(children@, i as nat)
                                + boundaries_of(c, false) =~= nested + boundaries_of_first(
                                children@,
                                (i + 1) as nat,
                            ));
                        }
                        i += 1;
                    }
                },
                Descent::Boundary => {
                    found.nested_roots.push(path.clone());
                    assert(texts(found.nested_roots@) =~= nested + seq![path@]);
                },
                Descent::Skip => {},
            }
        },
        Entry::File { path } => {
            if is_rust_file(path.as_str()) {
                found.files.push(path.clone());
                assert(texts(found.files@) =~= files + seq![path@]);
            }
        },
        Entry::Other => {},
        Entry::Unreadable => {
            found.walk_errors = found.walk_errors + 1;
        },
    }
}

proof fn errors_grow(entries: Seq<Entry>, n: nat)
    requires
        n <= entries.len(),
    ensures
        errors_of_first(entries, n) <= errors_of_first(entries, entries.len()),
    decreases entries.len() - n,
{
    if n < entries.len() {
        errors_grow(entries, n + 1);
    }
}

/// The Rust files of a project: every one that can be reached from the root
/// without entering a directory that is skipped by its name or is a project of
/// its own. What cannot be read is counted.
pub fn collect_project_rust_files(root: &Entry) -> (found: ProjectFiles)
    requires
        errors_of(*root, true) <= usize::MAX,
    ensures
        texts(found.files@) == files_of(*root, true),
        found.walk_errors == errors_of(*root, true),
        texts(found.nested_roots@) == boundaries_of(*root, true),
{
    let mut found = ProjectFiles { files: Vec::new(), walk_errors: 0, nested_roots: Vec::new() };
    walk(root, true, &mut found);
    assert(texts(found.files@) =~= files_of(*root, true));
    assert(texts(found.nested_roots@) =~= boundaries_of(*root, true));
    found
}

/// A marked directory gives nothing to the project around it, and walked as a root
/// it gives what it would give without the marker. So no file stands in both.
pub proof fn a_marker_splits(path: String, name: String, children: Vec<Entry>)
    ensures
        files_of(Entry::Dir { path, name, has_marker: true, children }, false) == Seq::<
            Seq<char>,
        >::empty(),
        files_of(Entry::Dir { path, name, has_marker: true, children }, true) == files_of(
            Entry::Dir { path, name, has_marker: false, children },
            true,
        ),
        !is_skipped_name(name@) ==> boundaries_of(
            Entry::Dir { path, name, has_marker: true, children },
            false,
        ) == seq![path@],
{
}

/// A directory with a skipped name gives nothing, marked or not, as a root or not.
pub proof fn skipped_directories_give_nothing(
    path: String,
    name: String,
    has_marker: bool,
    children: Vec<Entry>,
    is_root: bool,
)
    requires
        is_skipped_name(name@),
    ensures
        files_of(Entry::Dir { path, name, has_marker, children }, is_root) == Seq::<
            Seq<char>,
        >::empty(),
        boundaries_of(Entry::Dir { path, name, has_marker, children }, is_root) == Seq::<
            Seq<char>,
        >::empty(),
        errors_of(Entry::Dir { path, name, has_marker, children }, is_root) == 0,
{
}

/// What lies below an entry without a marker is found below it wherever it stands:
/// a file of a directory that is entered is a file of the directory around it.
pub proof fn files_of_a_child_are_found(
    path: String,
    name: String,
    children: Vec<Entry>,
    i: int,
    is_root: bool,
    file: Seq<char>,
)
    requires
        !is_skipped_name(name@),
        0 <= i < children@.len(),
        files_of(children@[i], false).contains(file),
    ensures
        files_of(Entry::Dir { path, name, has_marker: false, children }, is_root).contains(file),
{
    found_among_first(children@, children@.len(), i, file);
}

proof fn found_among_first(entries: Seq<Entry>, n: nat, i: int, file: Seq<char>)
    requires
        0 <= i < n <= entries.len(),
        files_of(entries[i], false).contains(file),
    ensures
        files_of_first(entries, n).contains(file),
    decreases n,
{
    let init = files_of_first(entries, (n - 1) as nat);
    let last = files_of(entries[n - 1], false);
    if i == n - 1 {
        let k = last.index_of(file);
        assert((init + last)[init.len() + k] == file);
    } else {
        found_among_first(entries, (n - 1) as nat, i, file);
        let k = init.index_of(file);
        assert((init + last)[k] == file);
    }
}

/// Every file that a walk gives is a Rust file.
pub proof fn found_files_are_rust(entry: Entry, is_root: bool, k: int)
    requires
        0 <= k < files_of(entry, is_root).len(),
    ensures
        is_rust_path(files_of(entry, is_root)[k]),
    decreases entry, 0nat,
{
    match entry {
        Entry::Dir { path, name, has_marker, children } => {
            found_first_are_rust(children@, children@.len(), k);
        },
        _ => {},
    }
}

proof fn found_first_are_rust(entries: Seq<Entry>, n: nat, k: int)
    requires
        n <= entries.len(),
        0 <= k < files_of_first(entries, n).len(),
    ensures
        is_rust_path(files_of_first(entries, n)[k]),
    decreases entries, n,
{
    let init = files_of_first(entries, (n - 1) as nat);
    if k < init.len() {
        found_first_are_rust(entries, (n - 1) as nat, k);
    } else {
        found_files_are_rust(entries[n - 1], false, k - init.len());
    }
}

/// Every Rust file of a project is found. `way` leads to it: from the root, each entry
/// stands in the one before it. Whatever the directories on the way are called, it is
/// found, unless one has one of six names, or one below the root holds the marker. A
/// Rust file is one whose name ends in `.rs` after at least one character.
pub proof fn every_source_on_an_open_way_is_found(way: Seq<Entry>)
    requires
        way.len() > 0,
        forall|k: int|
            0 <= k < way.len() - 1 ==> (#[trigger] way[k]) is Dir && way[k]->children@.contains(
                way[k + 1],
            ),
        forall|k: int|
            0 <= k < way.len() - 1 ==> (#[trigger] way[k])->name@ != "target"@ && way[k]->name@
                != "vendor"@ && way[k]->name@ != ".git"@ && way[k]->name@ != ".jj"@
                && way[k]->name@ != ".direnv"@ && way[k]->name@ != ".skeleton"@,
        forall|k: int| 0 < k < way.len() - 1 ==> !(#[trigger] way[k])->has_marker,
        way.last() is File,
        ({
            let path = way.last()->File_path@;
            path.len() > 3 && path.skip(path.len() - 3) == ".rs"@ && path[path.len() - 4] != '/'
        }),
    ensures
        files_of(way[0], true).contains(way.last()->File_path@),
{
    rust_by_its_end(way.last()->File_path@);
    found_on_the_way(way, true);
}

proof fn rust_by_its_end(path: Seq<char>)
    requires
        path.len() > 3,
        path.skip(path.len() - 3) == ".rs"@,
        path[path.len() - 4] != '/',
    ensures
        is_rust_path(path),
{
    reveal_strlit(".rs");
    let end = path.skip(path.len() - 3);
    assert(end[0] == '.' && end[1] == 'r' && end[2] == 's');
    let at = name_start(path, path.len() - 4);
    let name = path.skip(at);
    assert(name.len() > 3);
    assert(name.skip(name.len() - 3) =~= end);
    the_last_name_is_the_last_component(path, at);
    assert(name[name.len() - 1] == 's');
    assert(name != seq!['/'] && name != seq!['.'] && name != seq!['.', '.']);
}

proof fn name_start(path: Seq<char>, from: int) -> (at: int)
    requires
        0 <= from < path.len(),
        forall|k: int| from <= k < path.len() ==> path[k] != '/',
    ensures
        0 <= at <= from,
        at == 0 || path[at - 1] == '/',
        forall|k: int| at <= k < path.len() ==> path[k] != '/',
    decreases from,
{
    if from == 0 || path[from - 1] == '/' {
        from
    } else {
        name_start(path, from - 1)
    }
}

proof fn found_on_the_way(way: Seq<Entry>, is_root: bool)
    requires
        way.len() > 0,
        forall|k: int|
            0 <= k < way.len() - 1 ==> (#[trigger] way[k]) is Dir && way[k]->children@.contains(
                way[k + 1],
            ),
        forall|k: int|
            0 <= k < way.len() - 1 ==> (#[trigger] way[k])->name@ != "target"@ && way[k]->name@
                != "vendor"@ && way[k]->name@ != ".git"@ && way[k]->name@ != ".jj"@
                && way[k]->name@ != ".direnv"@ && way[k]->name@ != ".skeleton"@,
        forall|k: int|
            0 <= k < way.len() - 1 && (k > 0 || !is_root) ==> !(#[trigger] way[k])->has_marker,
        way.last() is File,
        is_rust_path(way.last()->File_path@),
    ensures
        files_of(way[0], is_root).contains(way.last()->File_path@),
    decreases way.len(),
{
    if way.len() == 1 {
        let path = way[0]->File_path@;
        assert(files_of(way[0], is_root)[0] == path);
    } else {
        let rest = way.drop_first();
        assert forall|k: int| 0 <= k < rest.len() - 1 implies (#[trigger] rest[k]) is Dir
            && rest[k]->children@.contains(rest[k + 1]) by {
            assert(way[k + 1] is Dir);
            assert(rest[k] == way[k + 1] && rest[k + 1] == way[k + 2]);
        }
        assert forall|k: int| 0 <= k < rest.len() - 1 implies (#[trigger] rest[k])->name@
            != "target"@ && rest[k]->name@ != "vendor"@ && rest[k]->name@ != ".git"@
            && rest[k]->name@ != ".jj"@ && rest[k]->name@ != ".direnv"@ && rest[k]->name@
            != ".skeleton"@ && !rest[k]->has_marker by {
            assert(rest[k] == way[k + 1]);
        }
        found_on_the_way(rest, false);
        assert(way[0] is Dir);
        let children = way[0]->children@;
        let i = children.index_of(way[1]);
        assert(children[i] == rest[0]);
        assert(rest.last() == way.last());
        found_among_first(children, children.len(), i, way.last()->File_path@);
    }
}

/// Nothing else is found: to each file that a walk gives leads a way on which no
/// directory has one of the six names, and none below the root holds the marker; and
/// its name ends in `.rs`.
pub proof fn every_found_file_has_an_open_way(root: Entry, file: Seq<char>) -> (way: Seq<Entry>)
    requires
        files_of(root, true).contains(file),
    ensures
        way.len() > 0,
        forall|k: int|
            0 <= k < way.len() - 1 ==> (#[trigger] way[k]) is Dir && way[k]->children@.contains(
                way[k + 1],
            ),
        forall|k: int|
            0 <= k < way.len() - 1 ==> (#[trigger] way[k])->name@ != "target"@ && way[k]->name@
                != "vendor"@ && way[k]->name@ != ".git"@ && way[k]->name@ != ".jj"@
                && way[k]->name@ != ".direnv"@ && way[k]->name@ != ".skeleton"@,
        forall|k: int| 0 < k < way.len() - 1 ==> !(#[trigger] way[k])->has_marker,
        way[0] == root,
        way.last() is File,
        way.last()->File_path@ == file,
        components(file).len() > 0,
        components(file).last().len() > 3,
        components(file).last().skip(components(file).last().len() - 3) == ".rs"@,
{
    reveal_strlit(".rs");
    let k = files_of(root, true).index_of(file);
    found_files_are_rust(root, true, k);
    way_to(root, true, file)
}

proof fn way_to(entry: Entry, is_root: bool, file: Seq<char>) -> (way: Seq<Entry>)
    requires
        files_of(entry, is_root).contains(file),
    ensures
        way.len() > 0,
        forall|k: int|
            0 <= k < way.len() - 1 ==> (#[trigger] way[k]) is Dir && way[k]->children@.contains(
                way[k + 1],
            ),
        forall|k: int|
            0 <= k < way.len() - 1 ==> (#[trigger] way[k])->name@ != "target"@ && way[k]->name@
                != "vendor"@ && way[k]->name@ != ".git"@ && way[k]->name@ != ".jj"@
                && way[k]->name@ != ".direnv"@ && way[k]->name@ != ".skeleton"@,
        forall|k: int|
            0 <= k < way.len() - 1 && (k > 0 || !is_root) ==> !(#[trigger] way[k])->has_marker,
        way[0] == entry,
        way.last() is File,
        way.last()->File_path@ == file,
    decreases entry, 0nat,
{
    match entry {
        Entry::Dir { path, name, has_marker, children } => {
            let (i, rest) = way_among_first(children@, children@.len(), file);
            let way = seq![entry] + rest;
            assert forall|k: int| 0 <= k < way.len() - 1 implies (#[trigger] way[k]) is Dir
                && way[k]->children@.contains(way[k + 1]) by {
                assert(way[k + 1] == rest[k]);
                if k > 0 {
                    assert(way[k] == rest[k - 1]);
                } else {
                    assert(way[1] == children@[i]);
                }
            }
            assert forall|k: int| 0 < k < way.len() - 1 implies (#[trigger] way[k])->name@
                != "target"@ && way[k]->name@ != "vendor"@ && way[k]->name@ != ".git"@
                && way[k]->name@ != ".jj"@ && way[k]->name@ != ".direnv"@ && way[k]->name@
                != ".skeleton"@ && !way[k]->has_marker by {
                assert(way[k] == rest[k - 1]);
            }
            assert(way.last() == rest.last());
            way
        },
        _ => {
            let way = seq![entry];
            assert(way.last() == entry);
            way
        },
    }
}

proof fn way_among_first(entries: Seq<Entry>, n: nat, file: Seq<char>) -> (r: (int, Seq<Entry>))
    requires
        n <= entries.len(),
        files_of_first(entries, n).contains(file),
    ensures
        ({
            let (i, way) = r;
            &&& 0 <= i < n
            &&& way.len() > 0
            &&& way[0] == entries[i]
            &&& way.last() is File
            &&& way.last()->File_path@ == file
            &&& forall|k: int|
                0 <= k < way.len() - 1 ==> (#[trigger] way[k]) is Dir && way[k]->children@.contains(
                    way[k + 1],
                )
            &&& forall|k: int|
                0 <= k < way.len() - 1 ==> (#[trigger] way[k])->name@ != "target"@ && way[k]->name@
                    != "vendor"@ && way[k]->name@ != ".git"@ && way[k]->name@ != ".jj"@
                    && way[k]->name@ != ".direnv"@ && way[k]->name@ != ".skeleton"@
                    && !way[k]->has_marker
        }),
    decreases entries, n,
{
    let init = files_of_first(entries, (n - 1) as nat);
    let last = files_of(entries[n - 1], false);
    let k = (init + last).index_of(file);
    if k < init.len() {
        assert(init[k] == file);
        way_among_first(entries, (n - 1) as nat, file)
    } else {
        assert(last[k - init.len()] == file);
        (n - 1, way_to(entries[n - 1], false, file))
    }
}

/// A project of its own is reported where the walk meets it: a directory below the root
/// that holds the marker, in an entered directory, unless it has one of the six names.
/// Nothing of it is given.
pub proof fn a_nested_project_is_reported(
    path: String,
    name: String,
    has_marker: bool,
    children: Vec<Entry>,
    i: int,
)
    requires
        name@ != "target"@,
        name@ != "vendor"@,
        name@ != ".git"@,
        name@ != ".jj"@,
        name@ != ".direnv"@,
        name@ != ".skeleton"@,
        0 <= i < children@.len(),
        children@[i] is Dir,
        children@[i]->has_marker,
        children@[i]->name@ != "target"@,
        children@[i]->name@ != "vendor"@,
        children@[i]->name@ != ".git"@,
        children@[i]->name@ != ".jj"@,
        children@[i]->name@ != ".direnv"@,
        children@[i]->name@ != ".skeleton"@,
    ensures
        boundaries_of(Entry::Dir { path, name, has_marker, children }, true).contains(
            children@[i]->Dir_path@,
        ),
        files_of(children@[i], false) == Seq::<Seq<char>>::empty(),
        errors_of(children@[i], false) == 0,
{
    assert(boundaries_of(children@[i], false)[0] == children@[i]->Dir_path@);
    boundary_among_first(children@, children@.len(), i, children@[i]->Dir_path@);
}

proof fn boundary_among_first(entries: Seq<Entry>, n: nat, i: int, path: Seq<char>)
    requires
        0 <= i < n <= entries.len(),
        boundaries_of(entries[i], false).contains(path),
    ensures
        boundaries_of_first(entries, n).contains(path),
    decreases n,
{
    let init = boundaries_of_first(entries, (n - 1) as nat);
    let last = boundaries_of(entries[n - 1], false);
    if i == n - 1 {
        let k = last.index_of(path);
        assert((init + last)[init.len() + k] == path);
    } else {
        boundary_among_first(entries, (n - 1) as nat, i, path);
        let k = init.index_of(path);
        assert((init + last)[k] == path);
    }
}

/// What cannot be read is counted one by one, and takes nothing else from the walk: one
/// more such entry in a directory that is entered adds one to the count and leaves the
/// files and the reported projects as they were.
pub proof fn what_cannot_be_read_is_counted(
    path: String,
    name: String,
    has_marker: bool,
    children: Vec<Entry>,
    more: Vec<Entry>,
)
    requires
        more@ == children@.push(Entry::Unreadable),
        name@ != "target"@,
        name@ != "vendor"@,
        name@ != ".git"@,
        name@ != ".jj"@,
        name@ != ".direnv"@,
        name@ != ".skeleton"@,
    ensures
        ({
            let without = Entry::Dir { path, name, has_marker, children };
            let with = Entry::Dir { path, name, has_marker, children: more };
            &&& errors_of(with, true) == errors_of(without, true) + 1
            &&& files_of(with, true) == files_of(without, true)
            &&& boundaries_of(with, true) == boundaries_of(without, true)
        }),
{
    let n = children@.len();
    first_do_not_see_the_rest(children@, more@, n);
    assert(more@[n as int] == Entry::Unreadable);
    assert(errors_of(more@[n as int], false) == 1);
    assert(errors_of_first(more@, n + 1) == errors_of_first(more@, n) + 1);
    assert(files_of(more@[n as int], false) =~= Seq::<Seq<char>>::empty());
    assert(boundaries_of(more@[n as int], false) =~= Seq::<Seq<char>>::empty());
    assert(files_of_first(more@, n + 1) == files_of_first(more@, n) + files_of(
        more@[n as int],
        false,
    ));
    assert(boundaries_of_first(more@, n + 1) == boundaries_of_first(more@, n) + boundaries_of(
        more@[n as int],
        false,
    ));
    assert(files_of_first(more@, n) + files_of(more@[n as int], false) =~= files_of_first(
        children@,
        n,
    ));
    assert(boundaries_of_first(more@, n) + boundaries_of(more@[n as int], false)
        =~= boundaries_of_first(children@, n));
}

proof fn first_do_not_see_the_rest(a: Seq<Entry>, b: Seq<Entry>, n: nat)
    requires
        n <= a.len(),
        n <= b.len(),
        forall|k: int| 0 <= k < n ==> a[k] == b[k],
    ensures
        files_of_first(a, n) == files_of_first(b, n),
        errors_of_first(a, n) == errors_of_first(b, n),
        boundaries_of_first(a, n) == boundaries_of_first(b, n),
    decreases n,
{
    if n > 0 {
        first_do_not_see_the_rest(a, b, (n - 1) as nat);
        assert(a[n - 1] == b[n - 1]);
    }
}

/// A project's files are all those to which an open way leads, each under its path.
pub proof fn a_project_has_every_source(way: Seq<Entry>, found: ProjectFiles)
    requires
        way.len() > 0,
        errors_of(way[0], true) <= usize::MAX,
        call_ensures(collect_project_rust_files, (&way[0],), found),
        forall|k: int|
            0 <= k < way.len() - 1 ==> (#[trigger] way[k]) is Dir && way[k]->children@.contains(
                way[k + 1],
            ),
        forall|k: int|
            0 <= k < way.len() - 1 ==> (#[trigger] way[k])->name@ != "target"@ && way[k]->name@
                != "vendor"@ && way[k]->name@ != ".git"@ && way[k]->name@ != ".jj"@
                && way[k]->name@ != ".direnv"@ && way[k]->name@ != ".skeleton"@,
        forall|k: int| 0 < k < way.len() - 1 ==> !(#[trigger] way[k])->has_marker,
        way.last() is File,
        ({
            let path = way.last()->File_path@;
            path.len() > 3 && path.skip(path.len() - 3) == ".rs"@ && path[path.len() - 4] != '/'
        }),
    ensures
        texts(found.files@).contains(way.last()->File_path@),
{
    every_source_on_an_open_way_is_found(way);
}

/// A project has no other files than those to which an open way leads.
pub proof fn a_project_has_only_sources(root: Entry, found: ProjectFiles, i: int) -> (way: Seq<
    Entry,
>)
    requires
        errors_of(root, true) <= usize::MAX,
        call_ensures(collect_project_rust_files, (&root,), found),
        0 <= i < found.files@.len(),
    ensures
        way.len() > 0,
        way[0] == root,
        forall|k: int|
            0 <= k < way.len() - 1 ==> (#[trigger] way[k]) is Dir && way[k]->children@.contains(
                way[k + 1],
            ),
        forall|k: int|
            0 <= k < way.len() - 1 ==> (#[trigger] way[k])->name@ != "target"@ && way[k]->name@
                != "vendor"@ && way[k]->name@ != ".git"@ && way[k]->name@ != ".jj"@
                && way[k]->name@ != ".direnv"@ && way[k]->name@ != ".skeleton"@,
        forall|k: int| 0 < k < way.len() - 1 ==> !(#[trigger] way[k])->has_marker,
        way.last() is File,
        way.last()->File_path@ == found.files@[i]@,
{
    assert(texts(found.files@)[i] == found.files@[i]@);
    assert(files_of(root, true).contains(found.files@[i]@));
    every_found_file_has_an_open_way(root, found.files@[i]@)
}

/// What a walk does with a directory goes by six names first and then by the marker, which
/// does not count at the root.
pub proof fn a_directory_is_entered_unless_named_or_marked(
    name: &str,
    is_root: bool,
    has_marker: bool,
    d: Descent,
    skipped: bool,
)
    requires
        call_ensures(descent, (name, is_root, has_marker), d),
        call_ensures(is_skipped_dir_name, (name,), skipped),
    ensures
        skipped <==> (name@ == "target"@ || name@ == "vendor"@ || name@ == ".git"@ || name@
            == ".jj"@ || name@ == ".direnv"@ || name@ == ".skeleton"@),
        d == Descent::Skip <==> skipped,
        d == Descent::Boundary <==> !skipped && has_marker && !is_root,
        d == Descent::Enter <==> !skipped && (!has_marker || is_root),
{
}

/// The marker of a directory is a file of one name in it.
pub proof fn the_marker_has_one_name(dir: &str, path: String)
    requires
        call_ensures(marker_path, (dir,), path),
        dir@.len() > 0,
        dir@.last() != '/',
    ensures
        path@ == dir@ + "/.rmcroot"@,
{
    reveal_strlit(".rmcroot");
    reveal_strlit("/.rmcroot");
    assert(dir@.push('/') + ".rmcroot"@ =~= dir@ + "/.rmcroot"@);
}

/// Each entry of a directory that is entered adds what it gives by itself, and an entry
/// that is neither file nor directory gives nothing and is no error, as is a file that is
/// no Rust file.
pub proof fn an_entry_adds_what_it_gives(
    path: String,
    name: String,
    has_marker: bool,
    children: Vec<Entry>,
    more: Vec<Entry>,
    entry: Entry,
)
    requires
        more@ == children@.push(entry),
        name@ != "target"@,
        name@ != "vendor"@,
        name@ != ".git"@,
        name@ != ".jj"@,
        name@ != ".direnv"@,
        name@ != ".skeleton"@,
    ensures
        ({
            let without = Entry::Dir { path, name, has_marker, children };
            let with = Entry::Dir { path, name, has_marker, children: more };
            &&& entry is Other || (entry is File && !is_rust_path(entry->File_path@)) ==> errors_of(
                with,
                true,
            ) == errors_of(without, true) && files_of(with, true) == files_of(without, true)
                && boundaries_of(with, true) == boundaries_of(without, true)
            &&& entry is File && is_rust_path(entry->File_path@) ==> files_of(with, true)
                == files_of(without, true).push(entry->File_path@) && errors_of(with, true)
                == errors_of(without, true) && boundaries_of(with, true) == boundaries_of(
                without,
                true,
            )
        }),
{
    let n = children@.len();
    first_do_not_see_the_rest(children@, more@, n);
    assert(more@[n as int] == entry);
    assert(errors_of_first(more@, n + 1) == errors_of_first(more@, n) + errors_of(entry, false));
    assert(files_of_first(more@, n + 1) == files_of_first(more@, n) + files_of(entry, false));
    assert(boundaries_of_first(more@, n + 1) == boundaries_of_first(more@, n) + boundaries_of(
        entry,
        false,
    ));
    let none = Seq::<Seq<char>>::empty();
    assert(files_of_first(more@, n) + none =~= files_of_first(children@, n));
    assert(boundaries_of_first(more@, n) + none =~= boundaries_of_first(children@, n));
    if entry is File {
        assert(boundaries_of(entry, false) == none);
        if is_rust_path(entry->File_path@) {
            assert(files_of(entry, false) == seq![entry->File_path@]);
            assert(files_of_first(more@, n) + seq![entry->File_path@] =~= files_of_first(
                children@,
                n,
            ).push(entry->File_path@));
        } else {
            assert(files_of(entry, false) == none);
        }
        assert(errors_of(entry, false) == 0);
    } else if entry is Other {
        assert(files_of(entry, false) == none);
        assert(boundaries_of(entry, false) == none);
        assert(errors_of(entry, false) == 0);
    }
}

} // verus!

//! The crates of a workspace, by the Cargo targets of its members.
//!
//! A crate belongs to the graph where its root file is a library or a binary of
//! a workspace member, or stands somewhere under the workspace root without being
//! a member's target at all, as a vendored patch does. A path dependency that
//! points out of the tree does not belong.

use vstd::prelude::*;

use crate::paths::{below, is_under, normal, normalized, starts_with, strip_base};
use crate::table::Table;
use crate::text::{chars_of, same, texts};

verus! {

/// The kinds of Cargo targets.
#[derive(Debug, Clone)]
pub enum TargetKind {
    /// A benchmark.
    Bench,
    /// A binary.
    Bin,
    /// A C dynamic library.
    CDyLib,
    /// A build script.
    CustomBuild,
    /// A dynamic library.
    DyLib,
    /// An example.
    Example,
    /// A library.
    Lib,
    /// A procedural macro.
    ProcMacro,
    /// A Rust library.
    RLib,
    /// A static library.
    StaticLib,
    /// An integration test.
    Test,
    /// A kind that Cargo names and this library does not know.
    Unknown(String),
}

/// The label of a kind: all libraries are `lib`.
pub open spec fn label_of(kind: TargetKind) -> Seq<char> {
    match kind {
        TargetKind::Bench => "bench"@,
        TargetKind::Bin => "bin"@,
        TargetKind::CustomBuild => "build"@,
        TargetKind::Example => "example"@,
        TargetKind::Test => "test"@,
        TargetKind::Unknown(_) => "unknown"@,
        _ => "lib"@,
    }
}

/// The rank of a label: the lower, the more it is preferred.
pub open spec fn rank_of(label: Seq<char>) -> u8 {
    if label == "lib"@ {
        0
    } else if label == "bin"@ {
        1
    } else if label == "example"@ {
        2
    } else if label == "test"@ {
        3
    } else if label == "bench"@ {
        4
    } else if label == "build"@ {
        5
    } else {
        6
    }
}

/// `label` is the label of the kinds: the one of least rank, or `unknown` where
/// there is no kind.
pub open spec fn is_label_of_all(label: Seq<char>, kinds: Seq<TargetKind>) -> bool {
    if kinds.len() == 0 {
        label == "unknown"@
    } else {
        &&& exists|i: int| 0 <= i < kinds.len() && label == #[trigger] label_of(kinds[i])
        &&& forall|i: int|
            0 <= i < kinds.len() ==> rank_of(label) <= rank_of(#[trigger] label_of(kinds[i]))
    }
}

/// The labels that kinds have are told apart by their ranks.
pub proof fn label_is_determined_by_rank(a: TargetKind, b: TargetKind)
    ensures
        rank_of(label_of(a)) == rank_of(label_of(b)) <==> label_of(a) == label_of(b),
{
    labels_differ();
}

proof fn labels_differ()
    ensures
        "lib"@ != "bin"@,
        "lib"@ != "example"@,
        "lib"@ != "test"@,
        "lib"@ != "bench"@,
        "lib"@ != "build"@,
        "lib"@ != "unknown"@,
        "bin"@ != "example"@,
        "bin"@ != "test"@,
        "bin"@ != "bench"@,
        "bin"@ != "build"@,
        "bin"@ != "unknown"@,
        "example"@ != "test"@,
        "example"@ != "bench"@,
        "example"@ != "build"@,
        "example"@ != "unknown"@,
        "test"@ != "bench"@,
        "test"@ != "build"@,
        "test"@ != "unknown"@,
        "bench"@ != "build"@,
        "bench"@ != "unknown"@,
        "build"@ != "unknown"@,
{
    reveal_strlit("lib");
    reveal_strlit("bin");
    reveal_strlit("example");
    reveal_strlit("test");
    reveal_strlit("bench");
    reveal_strlit("build");
    reveal_strlit("unknown");
    assert("lib"@[0] == 'l' && "bin"@[0] == 'b' && "example"@[0] == 'e' && "test"@[0] == 't');
    assert("bench"@[0] == 'b' && "build"@[0] == 'b' && "unknown"@[0] == 'u');
    assert("bin"@[1] == 'i' && "bench"@[1] == 'e' && "build"@[1] == 'u');
}

/// The label of a kind.
pub fn canonical_target_kind(kind: &TargetKind) -> (label: &'static str)
    ensures
        label@ == label_of(*kind),
{
    match kind {
        TargetKind::Bench => "bench",
        TargetKind::Bin => "bin",
        TargetKind::CustomBuild => "build",
        TargetKind::Example => "example",
        TargetKind::Test => "test",
        TargetKind::Lib
        | TargetKind::RLib
        | TargetKind::DyLib
        | TargetKind::CDyLib
        | TargetKind::StaticLib
        | TargetKind::ProcMacro => "lib",
        TargetKind::Unknown(_) => "unknown",
    }
}

/// The rank of a label.
pub fn target_kind_rank(label: &str) -> (rank: u8)
    ensures
        rank == rank_of(label@),
{
    if same(label, "lib") {
        0
    } else if same(label, "bin") {
        1
    } else if same(label, "example") {
        2
    } else if same(label, "test") {
        3
    } else if same(label, "bench") {
        4
    } else if same(label, "build") {
        5
    } else {
        6
    }
}

/// The label of a target with these kinds.
pub fn target_kind_label(kinds: &[TargetKind]) -> (label: &'static str)
    ensures
        is_label_of_all(label@, kinds@),
{
    if kinds.len() == 0 {
        return "unknown";
    }
    let mut label = canonical_target_kind(&kinds[0]);
    let mut i: usize = 1;
    proof {
        assert(label_of(kinds@.take(1)[0]) == label@);
    }
    while i < kinds.len()
        invariant
            1 <= i <= kinds@.len(),
            is_label_of_all(label@, kinds@.take(i as int)),
        decreases kinds@.len() - i,
    {
        let next = canonical_target_kind(&kinds[i]);
        let ghost seen = kinds@.take(i as int);
        let ghost now = kinds@.take(i + 1);
        let ghost held = label@;
        proof {
            assert(now =~= seen.push(kinds@[i as int]));
            assert(label_of(now[i as int]) == next@);
        }
        if target_kind_rank(next) < target_kind_rank(label) {
            label = next;
        }
        proof {
            let w = choose|k: int| 0 <= k < seen.len() && held == #[trigger] label_of(seen[k]);
            assert(label_of(now[w]) == held);
            assert forall|k: int| 0 <= k < now.len() implies rank_of(label@) <= rank_of(
                #[trigger] label_of(now[k]),
            ) by {
                if k < i {
                    assert(label_of(seen[k]) == label_of(now[k]));
                }
            }
        }
        i += 1;
    }
    assert(kinds@.take(i as int) =~= kinds@);
    label
}

/// Whether targets of a label belong to the graph.
pub open spec fn is_indexed_kind(label: Seq<char>) -> bool {
    label == "lib"@ || label == "bin"@
}

/// Whether targets of a label belong to the graph: libraries and binaries do.
pub fn should_index_target_kind(label: &str) -> (r: bool)
    ensures
        r == is_indexed_kind(label@),
{
    same(label, "lib") || same(label, "bin")
}

/// A crate's name as Rust code writes it.
pub open spec fn crate_name(name: Seq<char>) -> Seq<char> {
    Seq::new(
        name.len(),
        |i: int|
            if name[i] == '-' {
                '_'
            } else {
                name[i]
            },
    )
}

/// A crate's name as Rust code writes it: hyphens become underscores.
pub fn normalize_crate_name(name: &str) -> (out: String)
    ensures
        out@ == crate_name(name@),
{
    let chars = chars_of(name);
    let mut out = String::new();
    let mut i: usize = 0;
    while i < chars.len()
        invariant
            i <= chars@.len(),
            chars@ == name@,
            out@ == crate_name(name@).take(i as int),
        decreases chars@.len() - i,
    {
        if chars[i] == '-' {
            out.push('_');
        } else {
            out.push(chars[i]);
        }
        i += 1;
        assert(out@ =~= crate_name(name@).take(i as int));
    }
    assert(out@ =~= crate_name(name@));
    out
}

/// The part of a path below the workspace root, where it stands under it.
pub fn workspace_relative_path(path: &str, workspace_root: &str) -> (r: Option<String>)
    ensures
        match r {
            Some(rest) => below(path@, workspace_root@) == Some(rest@),
            None => below(path@, workspace_root@) is None,
        },
{
    strip_base(path, workspace_root)
}

/// The labels that a table holds.
pub open spec fn labels(table: &Table<String>) -> Map<Seq<char>, Seq<char>> {
    Map::new(|k: Seq<char>| table@.dom().contains(k), |k: Seq<char>| table@[k]@)
}

/// `map` with a label entered at `key`, unless one of the same or a lower rank stands there.
pub open spec fn with_preferred(
    map: Map<Seq<char>, Seq<char>>,
    key: Seq<char>,
    label: Seq<char>,
) -> Map<Seq<char>, Seq<char>> {
    if map.dom().contains(key) && rank_of(map[key]) <= rank_of(label) {
        map
    } else {
        map.insert(key, label)
    }
}

/// The map that the pairs of key and label give, entered one after the other.
pub open spec fn preferred(pairs: Seq<(Seq<char>, Seq<char>)>) -> Map<Seq<char>, Seq<char>>
    decreases pairs.len(),
{
    if pairs.len() == 0 {
        Map::empty()
    } else {
        with_preferred(preferred(pairs.drop_last()), pairs.last().0, pairs.last().1)
    }
}

/// Enters a label at `key`, unless one of the same or a lower rank stands there.
pub fn insert_preferred_target_kind(map: &mut Table<String>, key: String, label: String)
    requires
        old(map).wf(),
    ensures
        final(map).wf(),
        labels(final(map)) == with_preferred(labels(old(map)), key@, label@),
{
    let keep: bool = match map.get(key.as_str()) {
        Some(current) => target_kind_rank(current.as_str()) <= target_kind_rank(label.as_str()),
        None => false,
    };
    if !keep {
        let ghost before = labels(map);
        let ghost k = key@;
        let ghost l = label@;
        map.insert(key, label);
        assert(labels(map) =~= before.insert(k, l));
    }
}

/// Each key has, of all labels entered at it, one of the least rank.
pub proof fn preferred_is_of_least_rank(pairs: Seq<(Seq<char>, Seq<char>)>, key: Seq<char>)
    ensures
        preferred(pairs).dom().contains(key) <==> exists|i: int|
            0 <= i < pairs.len() && (#[trigger] pairs[i]).0 == key,
        preferred(pairs).dom().contains(key) ==> {
            &&& exists|i: int|
                0 <= i < pairs.len() && #[trigger] pairs[i] == (key, preferred(pairs)[key])
            &&& forall|i: int|
                0 <= i < pairs.len() && (#[trigger] pairs[i]).0 == key ==> rank_of(
                    preferred(pairs)[key],
                ) <= rank_of(pairs[i].1)
        },
    decreases pairs.len(),
{
    if pairs.len() > 0 {
        let init = pairs.drop_last();
        let last = pairs.last();
        preferred_is_of_least_rank(init, key);
        if preferred(init).dom().contains(key) {
            let w = choose|i: int|
                0 <= i < init.len() && #[trigger] init[i] == (key, preferred(init)[key]);
            assert(pairs[w] == init[w]);
        }
        assert(pairs[pairs.len() - 1] == last);
        assert forall|i: int| 0 <= i < pairs.len() && (#[trigger] pairs[i]).0 == key implies preferred(
            pairs,
        ).dom().contains(key) && rank_of(preferred(pairs)[key]) <= rank_of(pairs[i].1) by {
            if i < init.len() {
                assert(pairs[i] == init[i]);
            }
        }
        if preferred(pairs).dom().contains(key) {
            if preferred(init).dom().contains(key) {
                let w = choose|i: int|
                    0 <= i < init.len() && #[trigger] init[i] == (key, preferred(init)[key]);
                assert(pairs[w] == init[w]);
            }
            assert(exists|i: int|
                0 <= i < pairs.len() && #[trigger] pairs[i] == (key, preferred(pairs)[key])) by {
                if !(preferred(pairs)[key] == last.1 && last.0 == key) {
                    let w = choose|i: int|
                        0 <= i < init.len() && #[trigger] init[i] == (key, preferred(init)[key]);
                    assert(pairs[w] == (key, preferred(pairs)[key]));
                } else {
                    assert(pairs[pairs.len() - 1] == (key, preferred(pairs)[key]));
                }
            }
        }
    }
}

/// A target of a package.
pub struct CargoTarget {
    /// Its name.
    pub name: String,
    /// Its kinds.
    pub kinds: Vec<TargetKind>,
    /// Its root file.
    pub src_path: String,
    /// Its root file with links resolved, or as it is where that fails.
    pub canonical_src_path: String,
}

/// A package.
pub struct CargoPackage {
    /// Its identity.
    pub id: String,
    /// Its targets.
    pub targets: Vec<CargoTarget>,
}

/// What Cargo says of a workspace.
pub struct CargoMetadata {
    /// The identities of the members.
    pub members: Vec<String>,
    /// The packages.
    pub packages: Vec<CargoPackage>,
    /// The workspace root with links resolved, or as it is where that fails.
    pub canonical_root: String,
}

/// The Cargo targets of the members of a workspace.
pub struct WorkspaceTargets {
    /// The label by the crate's name.
    pub by_name: Table<String>,
    /// The label by the root file relative to the requested directory.
    pub by_root_file: Table<String>,
    /// The label by the absolute root file in its normal form.
    pub by_abs_root_file: Table<String>,
    /// The workspace root; nothing where Cargo could not be asked.
    pub workspace_root: Option<String>,
}

impl WorkspaceTargets {
    /// The tables are well-formed.
    pub open spec fn wf(&self) -> bool {
        self.by_name.wf() && self.by_root_file.wf() && self.by_abs_root_file.wf()
    }

    /// No targets and no root: Cargo could not be asked.
    pub fn unknown() -> (t: Self)
        ensures
            t.wf(),
            labels(&t.by_name) == Map::<Seq<char>, Seq<char>>::empty(),
            labels(&t.by_root_file) == Map::<Seq<char>, Seq<char>>::empty(),
            labels(&t.by_abs_root_file) == Map::<Seq<char>, Seq<char>>::empty(),
            t.workspace_root is None,
    {
        let t = WorkspaceTargets {
            by_name: Table::new(),
            by_root_file: Table::new(),
            by_abs_root_file: Table::new(),
            workspace_root: None,
        };
        assert(labels(&t.by_name) =~= Map::<Seq<char>, Seq<char>>::empty());
        assert(labels(&t.by_root_file) =~= Map::<Seq<char>, Seq<char>>::empty());
        assert(labels(&t.by_abs_root_file) =~= Map::<Seq<char>, Seq<char>>::empty());
        t
    }
}

/// The label of a target.
pub open spec fn target_label(t: CargoTarget) -> Seq<char> {
    choose|l: Seq<char>| is_label_of_all(l, t.kinds@)
}

proof fn label_is_unique(kinds: Seq<TargetKind>, a: Seq<char>, b: Seq<char>)
    requires
        is_label_of_all(a, kinds),
        is_label_of_all(b, kinds),
    ensures
        a == b,
{
    if kinds.len() > 0 {
        let i = choose|i: int| 0 <= i < kinds.len() && a == #[trigger] label_of(kinds[i]);
        let j = choose|j: int| 0 <= j < kinds.len() && b == #[trigger] label_of(kinds[j]);
        label_is_determined_by_rank(kinds[i], kinds[j]);
    }
}

/// The targets of the packages that are members, in order.
pub open spec fn member_targets(packages: Seq<CargoPackage>, members: Seq<Seq<char>>) -> Seq<
    CargoTarget,
>
    decreases packages.len(),
{
    if packages.len() == 0 {
        Seq::empty()
    } else {
        let init = member_targets(packages.drop_last(), members);
        if members.contains(packages.last().id@) {
            init + packages.last().targets@
        } else {
            init
        }
    }
}

/// Each target's crate name and label.
pub open spec fn name_pairs(targets: Seq<CargoTarget>) -> Seq<(Seq<char>, Seq<char>)> {
    Seq::new(targets.len(), |i: int| (crate_name(targets[i].name@), target_label(targets[i])))
}

/// Each target's absolute root file in its normal form, and its label.
pub open spec fn abs_pairs(targets: Seq<CargoTarget>) -> Seq<(Seq<char>, Seq<char>)> {
    Seq::new(
        targets.len(),
        |i: int| (normal(targets[i].canonical_src_path@), target_label(targets[i])),
    )
}

/// The root file below `root` and the label of each target that stands under it.
pub open spec fn root_pairs(targets: Seq<CargoTarget>, root: Seq<char>) -> Seq<
    (Seq<char>, Seq<char>),
>
    decreases targets.len(),
{
    if targets.len() == 0 {
        Seq::empty()
    } else {
        let init = root_pairs(targets.drop_last(), root);
        match below(targets.last().src_path@, root) {
            Some(rest) => init.push((rest, target_label(targets.last()))),
            None => init,
        }
    }
}

proof fn pairs_push(done: Seq<CargoTarget>, t: CargoTarget, root: Seq<char>)
    ensures
        preferred(name_pairs(done.push(t))) == with_preferred(
            preferred(name_pairs(done)),
            crate_name(t.name@),
            target_label(t),
        ),
        preferred(abs_pairs(done.push(t))) == with_preferred(
            preferred(abs_pairs(done)),
            normal(t.canonical_src_path@),
            target_label(t),
        ),
        preferred(root_pairs(done.push(t), root)) == (match below(t.src_path@, root) {
            Some(rest) => with_preferred(preferred(root_pairs(done, root)), rest, target_label(t)),
            None => preferred(root_pairs(done, root)),
        }),
{
    let all = done.push(t);
    assert(all.drop_last() =~= done);
    assert(name_pairs(all).drop_last() =~= name_pairs(done));
    assert(abs_pairs(all).drop_last() =~= abs_pairs(done));
    if below(t.src_path@, root) is Some {
        assert(root_pairs(all, root).drop_last() =~= root_pairs(done, root));
    }
}

fn is_member(members: &Vec<String>, id: &str) -> (r: bool)
    ensures
        r == texts(members@).contains(id@),
{
    let mut i: usize = 0;
    while i < members.len()
        invariant
            i <= members@.len(),
            forall|k: int| 0 <= k < i ==> texts(members@)[k] != id@,
        decreases members@.len() - i,
    {
        if same(members[i].as_str(), id) {
            assert(texts(members@)[i as int] == id@);
            return true;
        }
        i += 1;
    }
    false
}

/// `out` are the Cargo targets of the members of a workspace, as seen from the
/// directory `workspace_root` that was asked for. Without Cargo's word there are none.
pub open spec fn are_targets(
    workspace_root: Seq<char>,
    metadata: Option<&CargoMetadata>,
    out: WorkspaceTargets,
) -> bool {
    match metadata {
        None => {
            &&& labels(&out.by_name) == Map::<Seq<char>, Seq<char>>::empty()
            &&& labels(&out.by_root_file) == Map::<Seq<char>, Seq<char>>::empty()
            &&& labels(&out.by_abs_root_file) == Map::<Seq<char>, Seq<char>>::empty()
            &&& out.workspace_root is None
        },
        Some(m) => {
            let targets = member_targets(m.packages@, texts(m.members@));
            &&& labels(&out.by_name) == preferred(name_pairs(targets))
            &&& labels(&out.by_abs_root_file) == preferred(abs_pairs(targets))
            &&& labels(&out.by_root_file) == preferred(root_pairs(targets, workspace_root))
            &&& out.workspace_root matches Some(root) && root@ == m.canonical_root@
        },
    }
}

/// The Cargo targets of the members of a workspace.
pub fn load_crate_target_kinds(workspace_root: &str, metadata: Option<&CargoMetadata>) -> (out:
    WorkspaceTargets)
    ensures
        out.wf(),
        are_targets(workspace_root@, metadata, out),
{
    let mut out = WorkspaceTargets::unknown();
    let m = match metadata {
        None => {
            return out;
        },
        Some(m) => m,
    };
    let ghost members = texts(m.members@);
    let ghost root = workspace_root@;
    let mut p: usize = 0;
    proof {
        assert(m.packages@.take(0) =~= Seq::<CargoPackage>::empty());
    }
    while p < m.packages.len()
        invariant
            p <= m.packages@.len(),
            members == texts(m.members@),
            root == workspace_root@,
            out.wf(),
            ({
                let done = member_targets(m.packages@.take(p as int), members);
                &&& labels(&out.by_name) == preferred(name_pairs(done))
                &&& labels(&out.by_abs_root_file) == preferred(abs_pairs(done))
                &&& labels(&out.by_root_file) == preferred(root_pairs(done, root))
            }),
        decreases m.packages@.len() - p,
    {
        let package = &m.packages[p];
        let ghost seen = m.packages@.take(p as int);
        let ghost now = m.packages@.take(p + 1);
        let ghost held = member_targets(seen, members);
        proof {
            assert(now.drop_last() =~= seen);
        }
        if is_member(&m.members, package.id.as_str()) {
            let mut i: usize = 0;
            assert(held + package.targets@.take(0) =~= held);
            while i < package.targets.len()
                invariant
                    i <= package.targets@.len(),
                    root == workspace_root@,
                    out.wf(),
                    ({
                        let done = held + package.targets@.take(i as int);
                        &&& labels(&out.by_name) == preferred(name_pairs(done))
                        &&& labels(&out.by_abs_root_file) == preferred(abs_pairs(done))
                        &&& labels(&out.by_root_file) == preferred(root_pairs(done, root))
                    }),
                decreases package.targets@.len() - i,
            {
                let target = &package.targets[i];
                let ghost done = held + package.targets@.take(i as int);
                let label = target_kind_label(target.kinds.as_slice());
                proof {
                    label_is_unique(target.kinds@, label@, target_label(*target));
                    pairs_push(done, *target, root);
                    assert(held + package.targets@.take(i + 1) =~= done.push(*target));
                }
                insert_preferred_target_kind(
                    &mut out.by_name,
                    normalize_crate_name(target.name.as_str()),
                    label.to_owned(),
                );
                insert_preferred_target_kind(
                    &mut out.by_abs_root_file,
                    normalized(target.canonical_src_path.as_str()),
                    label.to_owned(),
                );
                match workspace_relative_path(target.src_path.as_str(), workspace_root) {
                    Some(root_file) => {
                        insert_preferred_target_kind(
                            &mut out.by_root_file,
                            root_file,
                            label.to_owned(),
                        );
                    },
                    None => {},
                }
                i += 1;
            }
            assert(package.targets@.take(i as int) =~= package.targets@);
        }
        p += 1;
    }
    assert(m.packages@.take(p as int) =~= m.packages@);
    out.workspace_root = Some(m.canonical_root.clone());
    out
}

/// Whether the crate with this root file belongs to the graph.
pub open spec fn belongs(root_file: Seq<char>, targets: &WorkspaceTargets) -> bool {
    match targets.workspace_root {
        None => true,
        Some(root) => if targets.by_abs_root_file@.dom().contains(normal(root_file)) {
            is_indexed_kind(targets.by_abs_root_file@[normal(root_file)]@)
        } else {
            is_under(root_file, root@)
        },
    }
}

/// Whether the crate with this root file belongs to the graph: every crate where
/// Cargo could not be asked; a member's target by its label; any other file where
/// it stands under the workspace root.
pub fn should_index_crate_root(root_file: &str, targets: &WorkspaceTargets) -> (r: bool)
    requires
        targets.wf(),
    ensures
        r == belongs(root_file@, targets),
{
    let root = match &targets.workspace_root {
        None => {
            return true;
        },
        Some(root) => root,
    };
    let key = normalized(root_file);
    match targets.by_abs_root_file.get(key.as_str()) {
        Some(label) => should_index_target_kind(label.as_str()),
        None => starts_with(root_file, root.as_str()),
    }
}

/// A crate of the crate graph: whether it comes from the local file system, and
/// its root file where it has one.
pub struct CrateCandidate {
    /// Whether it comes from the local file system.
    pub is_local: bool,
    /// Its root file with links resolved.
    pub root_file: Option<String>,
}

/// Whether a crate of the crate graph is kept.
pub open spec fn is_kept(candidate: CrateCandidate, targets: &WorkspaceTargets) -> bool {
    candidate.is_local && match candidate.root_file {
        Some(root_file) => belongs(root_file@, targets),
        None => targets.workspace_root is None,
    }
}

/// The positions below `n` of the crates that are kept, in order.
pub open spec fn kept_positions(
    crates: Seq<CrateCandidate>,
    targets: &WorkspaceTargets,
    n: nat,
) -> Seq<usize>
    decreases n,
{
    if n == 0 {
        Seq::empty()
    } else {
        let init = kept_positions(crates, targets, (n - 1) as nat);
        if is_kept(crates[n - 1], targets) {
            init.push((n - 1) as usize)
        } else {
            init
        }
    }
}

/// The positions of the crates that are kept, in order. A crate without a root
/// file is kept only where there is no workspace root to judge by.
pub fn filter_local_crates(crates: &Vec<CrateCandidate>, targets: &WorkspaceTargets) -> (kept: Vec<
    usize,
>)
    requires
        targets.wf(),
    ensures
        kept@ == kept_positions(crates@, targets, crates@.len()),
{
    let mut kept: Vec<usize> = Vec::new();
    let mut i: usize = 0;
    while i < crates.len()
        invariant
            i <= crates@.len(),
            targets.wf(),
            kept@ == kept_positions(crates@, targets, i as nat),
        decreases crates@.len() - i,
    {
        let keep: bool = crates[i].is_local && match &crates[i].root_file {
            Some(root_file) => should_index_crate_root(root_file.as_str(), targets),
            None => targets.workspace_root.is_none(),
        };
        if keep {
            kept.push(i);
        }
        i += 1;
    }
    kept
}

/// A crate whose root file lies outside the workspace root and is no member's
/// target does not belong, whatever else is known of the workspace.
pub proof fn strangers_do_not_belong(root_file: Seq<char>, targets: &WorkspaceTargets)
    requires
        targets.workspace_root is Some,
        !targets.by_abs_root_file@.dom().contains(normal(root_file)),
        !is_under(root_file, targets.workspace_root->Some_0@),
    ensures
        !belongs(root_file, targets),
{
}

/// A crate that stands under the workspace root without being a member's target, as a
/// vendored one does, belongs.
pub proof fn the_rest_of_the_tree_belongs(root_file: Seq<char>, targets: &WorkspaceTargets)
    requires
        targets.workspace_root is Some,
        !targets.by_abs_root_file@.dom().contains(normal(root_file)),
        is_under(root_file, targets.workspace_root->Some_0@),
    ensures
        belongs(root_file, targets),
{
}

/// Where Cargo could not be asked, every local crate is kept and no other.
pub proof fn without_cargo_every_local_crate_is_kept(
    root: Seq<char>,
    targets: &WorkspaceTargets,
    candidate: CrateCandidate,
)
    requires
        are_targets(root, None, *targets),
    ensures
        is_kept(candidate, targets) == candidate.is_local,
{
}

/// A member's root file belongs exactly where one of the members' targets with that
/// root file is a library or a binary. Tests, examples, benches and build scripts
/// alone do not bring it in, wherever they stand.
pub proof fn members_belong_by_their_targets(
    root: Seq<char>,
    metadata: &CargoMetadata,
    targets: &WorkspaceTargets,
    i: int,
)
    requires
        are_targets(root, Some(metadata), *targets),
        0 <= i < member_targets(metadata.packages@, texts(metadata.members@)).len(),
    ensures
        ({
            let all = member_targets(metadata.packages@, texts(metadata.members@));
            belongs(all[i].canonical_src_path@, targets) <==> exists|j: int|
                0 <= j < all.len() && normal(all[j].canonical_src_path@) == normal(
                    all[i].canonical_src_path@,
                ) && is_indexed_kind(#[trigger] target_label(all[j]))
        }),
{
    let all = member_targets(metadata.packages@, texts(metadata.members@));
    let pairs = abs_pairs(all);
    let key = normal(all[i].canonical_src_path@);
    preferred_is_of_least_rank(pairs, key);
    assert(pairs[i].0 == key);
    let held = preferred(pairs)[key];
    assert(labels(&targets.by_abs_root_file).dom().contains(key));
    assert(labels(&targets.by_abs_root_file)[key] == held);
    labels_differ();
    let w = choose|w: int| 0 <= w < pairs.len() && #[trigger] pairs[w] == (key, held);
    assert(target_label(all[w]) == held);
    assert forall|j: int|
        0 <= j < all.len() && normal(all[j].canonical_src_path@) == key && is_indexed_kind(
            #[trigger] target_label(all[j]),
        ) implies is_indexed_kind(held) by {
        assert(pairs[j].0 == key);
    }
}

/// The label of a target by the variants of its kinds: a library of any sort is `lib`,
/// whatever else it is; else a binary is `bin`; else come examples, tests, benchmarks
/// and build scripts, in this order; what has no known kind is `unknown`.
pub proof fn a_label_is_told_by_the_kinds(kinds: Seq<TargetKind>, label: Seq<char>)
    requires
        is_label_of_all(label, kinds),
    ensures
        ({
            let lib = exists|k: int|
                0 <= k < kinds.len() && (#[trigger] kinds[k] is Lib || kinds[k] is RLib
                    || kinds[k] is DyLib || kinds[k] is CDyLib || kinds[k] is StaticLib
                    || kinds[k] is ProcMacro);
            let bin = exists|k: int| 0 <= k < kinds.len() && #[trigger] kinds[k] is Bin;
            let example = exists|k: int| 0 <= k < kinds.len() && #[trigger] kinds[k] is Example;
            let test = exists|k: int| 0 <= k < kinds.len() && #[trigger] kinds[k] is Test;
            let bench = exists|k: int| 0 <= k < kinds.len() && #[trigger] kinds[k] is Bench;
            let build = exists|k: int| 0 <= k < kinds.len() && #[trigger] kinds[k] is CustomBuild;
            label == (if lib {
                "lib"@
            } else if bin {
                "bin"@
            } else if example {
                "example"@
            } else if test {
                "test"@
            } else if bench {
                "bench"@
            } else if build {
                "build"@
            } else {
                "unknown"@
            })
        }),
{
    labels_differ();
    if kinds.len() > 0 {
        let w = choose|w: int| 0 <= w < kinds.len() && label == #[trigger] label_of(kinds[w]);
        assert forall|k: int| 0 <= k < kinds.len() implies rank_of(label) <= rank_of(
            label_of(#[trigger] kinds[k]),
        ) by {
            assert(rank_of(label) <= rank_of(label_of(kinds[k])));
        }
        assert(kinds[w] is Unknown ==> label == "unknown"@);
    }
}

/// Package `p` is a member of the workspace, and `t` is one of its targets.
pub open spec fn is_member_target(m: &CargoMetadata, p: int, t: int) -> bool {
    &&& 0 <= p < m.packages@.len()
    &&& exists|j: int| 0 <= j < m.members@.len() && (#[trigger] m.members@[j])@ == m.packages@[p].id@
    &&& 0 <= t < m.packages@[p].targets@.len()
}

proof fn member_targets_hold(m: &CargoMetadata, n: int, p: int, t: int)
    requires
        0 <= n <= m.packages@.len(),
        is_member_target(m, p, t),
        p < n,
    ensures
        member_targets(m.packages@.take(n), texts(m.members@)).contains(
            m.packages@[p].targets@[t],
        ),
    decreases n,
{
    let now = m.packages@.take(n);
    let members = texts(m.members@);
    assert(now.drop_last() =~= m.packages@.take(n - 1));
    let init = member_targets(m.packages@.take(n - 1), members);
    let all = member_targets(now, members);
    let x = m.packages@[p].targets@[t];
    if p == n - 1 {
        let id = m.packages@[p].id@;
        let j = choose|j: int| 0 <= j < m.members@.len() && (#[trigger] m.members@[j])@ == id;
        assert(members[j] == id);
        assert(members.contains(now.last().id@));
        assert(all == init + now.last().targets@);
        assert(all[init.len() + t] == x);
    } else {
        member_targets_hold(m, n - 1, p, t);
        let k = init.index_of(x);
        assert(all[k] == x);
    }
}

proof fn member_target_stands(m: &CargoMetadata, n: int, i: int) -> (at: (int, int))
    requires
        0 <= n <= m.packages@.len(),
        0 <= i < member_targets(m.packages@.take(n), texts(m.members@)).len(),
    ensures
        is_member_target(m, at.0, at.1),
        m.packages@[at.0].targets@[at.1] == member_targets(
            m.packages@.take(n),
            texts(m.members@),
        )[i],
    decreases n,
{
    let now = m.packages@.take(n);
    let members = texts(m.members@);
    if n == 0 {
        assert(now.len() == 0);
        (0, 0)
    } else {
        assert(now.drop_last() =~= m.packages@.take(n - 1));
        let init = member_targets(m.packages@.take(n - 1), members);
        if i < init.len() {
            member_target_stands(m, n - 1, i)
        } else {
            let id = now.last().id@;
            let j = members.index_of(id);
            assert(m.members@[j]@ == id);
            (n - 1, i - init.len())
        }
    }
}

proof fn member_targets_are(m: &CargoMetadata)
    ensures
        forall|p: int, t: int| #[trigger]
            is_member_target(m, p, t) ==> member_targets(
                m.packages@,
                texts(m.members@),
            ).contains(m.packages@[p].targets@[t]),
{
    assert(m.packages@.take(m.packages@.len() as int) =~= m.packages@);
    assert forall|p: int, t: int| #[trigger] is_member_target(m, p, t) implies member_targets(
        m.packages@,
        texts(m.members@),
    ).contains(m.packages@[p].targets@[t]) by {
        member_targets_hold(m, m.packages@.len() as int, p, t);
    }
}

proof fn target_label_is(t: CargoTarget)
    ensures
        is_label_of_all(target_label(t), t.kinds@),
{
    let kinds = t.kinds@;
    if kinds.len() == 0 {
        assert(is_label_of_all("unknown"@, kinds));
    } else {
        let l = least_label(kinds, kinds.len() as int);
        assert(is_label_of_all(l, kinds));
    }
}

proof fn least_label(kinds: Seq<TargetKind>, n: int) -> (label: Seq<char>)
    requires
        0 < n <= kinds.len(),
    ensures
        exists|i: int| 0 <= i < n && label == #[trigger] label_of(kinds[i]),
        forall|i: int| 0 <= i < n ==> rank_of(label) <= rank_of(#[trigger] label_of(kinds[i])),
    decreases n,
{
    if n == 1 {
        label_of(kinds[0])
    } else {
        let held = least_label(kinds, n - 1);
        let next = label_of(kinds[n - 1]);
        if rank_of(next) < rank_of(held) {
            next
        } else {
            held
        }
    }
}

/// Which crates belong to the graph of a workspace, by what Cargo says. A crate whose
/// root file is that of a target of a member belongs exactly where some such target is,
/// among its kinds, a library of any sort or a binary. Any other crate belongs exactly
/// where it stands under the workspace root. A crate from elsewhere than the local file
/// system never does.
pub proof fn the_graph_holds_libraries_and_binaries(
    root: Seq<char>,
    m: &CargoMetadata,
    targets: &WorkspaceTargets,
    candidate: CrateCandidate,
)
    requires
        are_targets(root, Some(m), *targets),
        candidate.root_file is Some,
    ensures
        ({
            let file = candidate.root_file->Some_0@;
            let of_a_member = exists|p: int, t: int| #[trigger]
                is_member_target(m, p, t) && normal(
                    m.packages@[p].targets@[t].canonical_src_path@,
                ) == normal(file);
            let of_a_library_or_binary = exists|p: int, t: int, k: int|
                #![trigger is_member_target(m, p, t), m.packages@[p].targets@[t].kinds@[k]]
                is_member_target(m, p, t) && normal(
                    m.packages@[p].targets@[t].canonical_src_path@,
                ) == normal(file) && 0 <= k < m.packages@[p].targets@[t].kinds@.len() && {
                    let kind = m.packages@[p].targets@[t].kinds@[k];
                    kind is Lib || kind is RLib || kind is DyLib || kind is CDyLib
                        || kind is StaticLib || kind is ProcMacro || kind is Bin
                };
            is_kept(candidate, targets) <==> candidate.is_local && (if of_a_member {
                of_a_library_or_binary
            } else {
                is_under(file, m.canonical_root@)
            })
        }),
{
    let file = candidate.root_file->Some_0@;
    let key = normal(file);
    let all = member_targets(m.packages@, texts(m.members@));
    let pairs = abs_pairs(all);
    assert(m.packages@.take(m.packages@.len() as int) =~= m.packages@);
    member_targets_are(m);
    preferred_is_of_least_rank(pairs, key);
    labels_differ();
    assert(labels(&targets.by_abs_root_file) == preferred(pairs));
    assert(targets.by_abs_root_file@.dom().contains(key) == preferred(pairs).dom().contains(key)) by {
        assert(labels(&targets.by_abs_root_file).dom().contains(key)
            == targets.by_abs_root_file@.dom().contains(key));
    }
    let of_a_member = exists|p: int, t: int| #[trigger]
        is_member_target(m, p, t) && normal(m.packages@[p].targets@[t].canonical_src_path@) == key;
    if of_a_member {
        let (p, t) = choose|p: int, t: int| #[trigger]
            is_member_target(m, p, t) && normal(m.packages@[p].targets@[t].canonical_src_path@)
                == key;
        let i = all.index_of(m.packages@[p].targets@[t]);
        assert(all.contains(m.packages@[p].targets@[t]));
        assert(pairs[i].0 == key);
    }
    if preferred(pairs).dom().contains(key) {
        let held = preferred(pairs)[key];
        assert(labels(&targets.by_abs_root_file)[key] == held);
        assert(targets.by_abs_root_file@[key]@ == held);
        let w = choose|w: int| 0 <= w < pairs.len() && #[trigger] pairs[w] == (key, held);
        let (p, t) = member_target_stands(m, m.packages@.len() as int, w);
        let own = m.packages@[p].targets@[t];
        target_label_is(own);
        a_label_is_told_by_the_kinds(own.kinds@, held);
        if is_indexed_kind(held) {
            let k = choose|k: int|
                0 <= k < own.kinds@.len() && ({
                    let kind = #[trigger] own.kinds@[k];
                    kind is Lib || kind is RLib || kind is DyLib || kind is CDyLib
                        || kind is StaticLib || kind is ProcMacro || kind is Bin
                });
            assert(m.packages@[p].targets@[t].kinds@[k] == own.kinds@[k]);
        }
        assert forall|p: int, t: int, k: int|
            #![trigger is_member_target(m, p, t), m.packages@[p].targets@[t].kinds@[k]]
            is_member_target(m, p, t) && normal(m.packages@[p].targets@[t].canonical_src_path@)
                == key && 0 <= k < m.packages@[p].targets@[t].kinds@.len() && {
                let kind = m.packages@[p].targets@[t].kinds@[k];
                kind is Lib || kind is RLib || kind is DyLib || kind is CDyLib
                    || kind is StaticLib || kind is ProcMacro || kind is Bin
            } implies is_indexed_kind(held) by {
            let x = m.packages@[p].targets@[t];
            assert(all.contains(x));
            let i = all.index_of(x);
            assert(pairs[i] == (key, target_label(x)));
            target_label_is(x);
            a_label_is_told_by_the_kinds(x.kinds@, target_label(x));
        }
    }
}

/// The crates that are kept are listed by their positions, each once and in order, and
/// no other is listed.
pub proof fn the_kept_crates_are_listed(
    crates: Seq<CrateCandidate>,
    targets: &WorkspaceTargets,
    n: nat,
)
    requires
        n <= crates.len() <= usize::MAX,
    ensures
        forall|i: int|
            0 <= i < n ==> (kept_positions(crates, targets, n).contains(i as usize) <==> is_kept(
                #[trigger] crates[i],
                targets,
            )),
        forall|j: int|
            0 <= j < kept_positions(crates, targets, n).len() ==> #[trigger] kept_positions(
                crates,
                targets,
                n,
            )[j] < n,
        forall|j: int, k: int|
            0 <= j < k < kept_positions(crates, targets, n).len() ==> #[trigger] kept_positions(
                crates,
                targets,
                n,
            )[j] < #[trigger] kept_positions(crates, targets, n)[k],
    decreases n,
{
    if n > 0 {
        the_kept_crates_are_listed(crates, targets, (n - 1) as nat);
        let init = kept_positions(crates, targets, (n - 1) as nat);
        let now = kept_positions(crates, targets, n);
        assert forall|i: int| 0 <= i < n implies (now.contains(i as usize) <==> is_kept(
            #[trigger] crates[i],
            targets,
        )) by {
            if is_kept(crates[n - 1], targets) {
                assert(now[init.len() as int] == (n - 1) as usize);
                if init.contains(i as usize) {
                    let k = init.index_of(i as usize);
                    assert(now[k] == i as usize);
                }
                if now.contains(i as usize) && i < n - 1 {
                    let k = now.index_of(i as usize);
                    assert(init[k] == i as usize);
                }
            } else if i == n - 1 && init.contains(i as usize) {
                let k = init.index_of(i as usize);
                assert(init[k] < n - 1);
            }
        }
    }
}

/// The label of a crate's name is that of the targets of members that bear it: `lib`
/// where one of them is a library of any sort, and else `bin` where one is a binary.
/// Hyphens count as underscores. A name that no such target bears has no label.
pub proof fn a_crate_name_has_the_label_of_its_targets(
    root: Seq<char>,
    m: &CargoMetadata,
    targets: &WorkspaceTargets,
    name: Seq<char>,
)
    requires
        are_targets(root, Some(m), *targets),
    ensures
        ({
            let known = labels(&targets.by_name);
            let lib = exists|p: int, t: int, k: int|
                #![trigger is_member_target(m, p, t), m.packages@[p].targets@[t].kinds@[k]]
                is_member_target(m, p, t) && crate_name(m.packages@[p].targets@[t].name@) == name
                    && 0 <= k < m.packages@[p].targets@[t].kinds@.len() && {
                    let kind = m.packages@[p].targets@[t].kinds@[k];
                    kind is Lib || kind is RLib || kind is DyLib || kind is CDyLib
                        || kind is StaticLib || kind is ProcMacro
                };
            let bin = exists|p: int, t: int, k: int|
                #![trigger is_member_target(m, p, t), m.packages@[p].targets@[t].kinds@[k]]
                is_member_target(m, p, t) && crate_name(m.packages@[p].targets@[t].name@) == name
                    && 0 <= k < m.packages@[p].targets@[t].kinds@.len()
                    && m.packages@[p].targets@[t].kinds@[k] is Bin;
            &&& known.dom().contains(name) <==> exists|p: int, t: int| #[trigger]
                is_member_target(m, p, t) && crate_name(m.packages@[p].targets@[t].name@) == name
            &&& known.dom().contains(name) ==> (known[name] == "lib"@ <==> lib)
            &&& known.dom().contains(name) ==> (known[name] == "bin"@ <==> !lib && bin)
        }),
{
    let all = member_targets(m.packages@, texts(m.members@));
    let pairs = name_pairs(all);
    assert(m.packages@.take(m.packages@.len() as int) =~= m.packages@);
    member_targets_are(m);
    preferred_is_of_least_rank(pairs, name);
    labels_differ();
    if exists|p: int, t: int| #[trigger]
        is_member_target(m, p, t) && crate_name(m.packages@[p].targets@[t].name@) == name {
        let (p, t) = choose|p: int, t: int| #[trigger]
            is_member_target(m, p, t) && crate_name(m.packages@[p].targets@[t].name@) == name;
        let x = m.packages@[p].targets@[t];
        assert(all.contains(x));
        assert(pairs[all.index_of(x)].0 == name);
    }
    if preferred(pairs).dom().contains(name) {
        let held = preferred(pairs)[name];
        let w = choose|w: int| 0 <= w < pairs.len() && #[trigger] pairs[w] == (name, held);
        let (p, t) = member_target_stands(m, m.packages@.len() as int, w);
        let own = m.packages@[p].targets@[t];
        target_label_is(own);
        a_label_is_told_by_the_kinds(own.kinds@, held);
        if held == "lib"@ || held == "bin"@ {
            let k = choose|k: int|
                0 <= k < own.kinds@.len() && ({
                    let kind = #[trigger] own.kinds@[k];
                    if held == "lib"@ {
                        kind is Lib || kind is RLib || kind is DyLib || kind is CDyLib
                            || kind is StaticLib || kind is ProcMacro
                    } else {
                        kind is Bin
                    }
                });
            assert(m.packages@[p].targets@[t].kinds@[k] == own.kinds@[k]);
        }
        assert forall|p: int, t: int, k: int|
            #![trigger is_member_target(m, p, t), m.packages@[p].targets@[t].kinds@[k]]
            is_member_target(m, p, t) && crate_name(m.packages@[p].targets@[t].name@) == name && 0
                <= k < m.packages@[p].targets@[t].kinds@.len() implies ({
            let kind = m.packages@[p].targets@[t].kinds@[k];
            &&& (kind is Lib || kind is RLib || kind is DyLib || kind is CDyLib
                || kind is StaticLib || kind is ProcMacro) ==> held == "lib"@
            &&& kind is Bin ==> held == "lib"@ || held == "bin"@
        }) by {
            let x = m.packages@[p].targets@[t];
            assert(all.contains(x));
            let i = all.index_of(x);
            assert(pairs[i] == (name, target_label(x)));
            target_label_is(x);
            a_label_is_told_by_the_kinds(x.kinds@, target_label(x));
            assert(x.kinds@[k] == m.packages@[p].targets@[t].kinds@[k]);
        }
    }
}

/// How Cargo and the analysis are told to load a workspace.
#[derive(Debug, Clone, Copy, PartialEq, Eq, Structural)]
pub struct LoadSettings {
    /// Whether the source of the standard library is looked for.
    pub sysroot: bool,
    /// Whether dependencies are left out.
    pub no_deps: bool,
    /// Whether all features are turned on.
    pub all_features: bool,
    /// Whether tests, examples and benches are loaded too.
    pub all_targets: bool,
    /// Whether the code for tests is turned on.
    pub set_test: bool,
    /// Whether build scripts are run.
    pub build_scripts: bool,
}

/// How a workspace is loaded for its graph.
pub fn graph_settings() -> (s: LoadSettings)
    ensures
        s == (LoadSettings {
            sysroot: true,
            no_deps: false,
            all_features: true,
            all_targets: false,
            set_test: false,
            build_scripts: false,
        }),
{
    LoadSettings {
        sysroot: true,
        no_deps: false,
        all_features: true,
        all_targets: false,
        set_test: false,
        build_scripts: false,
    }
}

/// A loaded workspace. `D` is what the analysis holds of it.
pub struct LoadedWorkspace<D> {
    /// Its root.
    pub workspace_root: String,
    /// What the analysis holds.
    pub db: D,
    /// The positions of its own crates among all.
    pub local_crates: Vec<usize>,
    /// The label by the crate's name.
    pub crate_target_kinds_by_name: Table<String>,
    /// The label by the root file.
    pub crate_target_kinds_by_root_file: Table<String>,
}

/// The workspace that was loaded from `root`: which of the crates are its own, by
/// what Cargo says of it.
pub fn load<D>(
    root: &str,
    metadata: Option<&CargoMetadata>,
    db: D,
    crates: &Vec<CrateCandidate>,
) -> (w: LoadedWorkspace<D>)
    ensures
        w.workspace_root@ == root@,
        w.db == db,
        w.crate_target_kinds_by_name.wf(),
        w.crate_target_kinds_by_root_file.wf(),
        exists|targets: WorkspaceTargets| #[trigger]
            are_targets(root@, metadata, targets) && w.local_crates@ == kept_positions(
                crates@,
                &targets,
                crates@.len(),
            ) && w.crate_target_kinds_by_name == targets.by_name
                && w.crate_target_kinds_by_root_file == targets.by_root_file,
{
    let targets = load_crate_target_kinds(root, metadata);
    let local_crates = filter_local_crates(crates, &targets);
    let ghost all = targets;
    let w = LoadedWorkspace {
        workspace_root: root.to_owned(),
        db,
        local_crates,
        crate_target_kinds_by_name: targets.by_name,
        crate_target_kinds_by_root_file: targets.by_root_file,
    };
    assert(are_targets(root@, metadata, all));
    w
}

/// A crate's name is written with an underscore for each hyphen and is otherwise kept.
pub proof fn hyphens_become_underscores(name: &str, out: String, i: int)
    requires
        call_ensures(normalize_crate_name, (name,), out),
        0 <= i < name@.len(),
    ensures
        out@.len() == name@.len(),
        name@[i] == '-' ==> out@[i] == '_',
        name@[i] != '-' ==> out@[i] == name@[i],
{
}

/// Each kind of target has its label: all sorts of libraries, macros among them, have one.
pub proof fn a_kind_has_its_label(kind: TargetKind, label: &'static str)
    requires
        call_ensures(canonical_target_kind, (&kind,), label),
    ensures
        (kind is Lib || kind is RLib || kind is DyLib || kind is CDyLib || kind is StaticLib
            || kind is ProcMacro) <==> label@ == "lib"@,
        kind is Bin <==> label@ == "bin"@,
        kind is Example <==> label@ == "example"@,
        kind is Test <==> label@ == "test"@,
        kind is Bench <==> label@ == "bench"@,
        kind is CustomBuild <==> label@ == "build"@,
        kind is Unknown <==> label@ == "unknown"@,
{
    labels_differ();
}

/// A target with a library among its kinds is indexed, and one with a binary; no other is.
pub proof fn a_target_is_indexed_for_its_kinds(kinds: &[TargetKind], label: &'static str, r: bool)
    requires
        call_ensures(target_kind_label, (kinds,), label),
        call_ensures(should_index_target_kind, (label,), r),
    ensures
        r <==> exists|k: int|
            0 <= k < kinds@.len() && (#[trigger] kinds@[k] is Lib || kinds@[k] is RLib
                || kinds@[k] is DyLib || kinds@[k] is CDyLib || kinds@[k] is StaticLib
                || kinds@[k] is ProcMacro || kinds@[k] is Bin),
{
    a_label_is_told_by_the_kinds(kinds@, label@);
    labels_differ();
}

/// A workspace is loaded for its graph with its dependencies, its features and the
/// standard library, and without tests and build scripts.
pub proof fn a_graph_is_loaded_without_tests(s: LoadSettings)
    requires
        call_ensures(graph_settings, (), s),
    ensures
        s.sysroot && s.all_features,
        !s.no_deps && !s.all_targets && !s.set_test && !s.build_scripts,
{
}

proof fn root_pairs_hold(targets: Seq<CargoTarget>, root: Seq<char>, i: int) -> (k: int)
    requires
        0 <= i < targets.len(),
        below(targets[i].src_path@, root) is Some,
    ensures
        0 <= k < root_pairs(targets, root).len(),
        root_pairs(targets, root)[k] == (
            below(targets[i].src_path@, root)->Some_0,
            target_label(targets[i]),
        ),
    decreases targets.len(),
{
    let init = root_pairs(targets.drop_last(), root);
    if i == targets.len() - 1 {
        init.len() as int
    } else {
        assert(targets.drop_last()[i] == targets[i]);
        root_pairs_hold(targets.drop_last(), root, i)
    }
}

proof fn root_pairs_are_of_targets(targets: Seq<CargoTarget>, root: Seq<char>, k: int) -> (i: int)
    requires
        0 <= k < root_pairs(targets, root).len(),
    ensures
        0 <= i < targets.len(),
        below(targets[i].src_path@, root) is Some,
        root_pairs(targets, root)[k] == (
            below(targets[i].src_path@, root)->Some_0,
            target_label(targets[i]),
        ),
    decreases targets.len(),
{
    let init = root_pairs(targets.drop_last(), root);
    if k < init.len() {
        let i = root_pairs_are_of_targets(targets.drop_last(), root, k);
        assert(targets.drop_last()[i] == targets[i]);
        i
    } else {
        targets.len() - 1
    }
}

/// The label of a root file below the directory that was asked for is that of the targets
/// of members that it is the source of: `lib` where one of them is a library of any sort,
/// and else `bin` where one is a binary. A file that is the source of none has no label.
pub proof fn a_root_file_has_the_label_of_its_targets(
    root: Seq<char>,
    m: &CargoMetadata,
    targets: &WorkspaceTargets,
    file: Seq<char>,
)
    requires
        are_targets(root, Some(m), *targets),
    ensures
        ({
            let known = labels(&targets.by_root_file);
            let lib = exists|p: int, t: int, k: int|
                #![trigger is_member_target(m, p, t), m.packages@[p].targets@[t].kinds@[k]]
                is_member_target(m, p, t) && below(m.packages@[p].targets@[t].src_path@, root)
                    == Some(file) && 0 <= k < m.packages@[p].targets@[t].kinds@.len() && {
                    let kind = m.packages@[p].targets@[t].kinds@[k];
                    kind is Lib || kind is RLib || kind is DyLib || kind is CDyLib
                        || kind is StaticLib || kind is ProcMacro
                };
            let bin = exists|p: int, t: int, k: int|
                #![trigger is_member_target(m, p, t), m.packages@[p].targets@[t].kinds@[k]]
                is_member_target(m, p, t) && below(m.packages@[p].targets@[t].src_path@, root)
                    == Some(file) && 0 <= k < m.packages@[p].targets@[t].kinds@.len()
                    && m.packages@[p].targets@[t].kinds@[k] is Bin;
            &&& known.dom().contains(file) <==> exists|p: int, t: int| #[trigger]
                is_member_target(m, p, t) && below(m.packages@[p].targets@[t].src_path@, root)
                    == Some(file)
            &&& known.dom().contains(file) ==> (known[file] == "lib"@ <==> lib)
            &&& known.dom().contains(file) ==> (known[file] == "bin"@ <==> !lib && bin)
        }),
{
    let all = member_targets(m.packages@, texts(m.members@));
    let pairs = root_pairs(all, root);
    assert(m.packages@.take(m.packages@.len() as int) =~= m.packages@);
    member_targets_are(m);
    preferred_is_of_least_rank(pairs, file);
    labels_differ();
    if exists|p: int, t: int| #[trigger]
        is_member_target(m, p, t) && below(m.packages@[p].targets@[t].src_path@, root) == Some(
            file,
        ) {
        let (p, t) = choose|p: int, t: int| #[trigger]
            is_member_target(m, p, t) && below(m.packages@[p].targets@[t].src_path@, root) == Some(
                file,
            );
        let x = m.packages@[p].targets@[t];
        assert(all.contains(x));
        let k = root_pairs_hold(all, root, all.index_of(x));
        assert(pairs[k].0 == file);
    }
    if preferred(pairs).dom().contains(file) {
        let held = preferred(pairs)[file];
        let w = choose|w: int| 0 <= w < pairs.len() && #[trigger] pairs[w] == (file, held);
        let i = root_pairs_are_of_targets(all, root, w);
        let (p, t) = member_target_stands(m, m.packages@.len() as int, i);
        let own = m.packages@[p].targets@[t];
        target_label_is(own);
        a_label_is_told_by_the_kinds(own.kinds@, held);
        if held == "lib"@ || held == "bin"@ {
            let k = choose|k: int|
                0 <= k < own.kinds@.len() && ({
                    let kind = #[trigger] own.kinds@[k];
                    if held == "lib"@ {
                        kind is Lib || kind is RLib || kind is DyLib || kind is CDyLib
                            || kind is StaticLib || kind is ProcMacro
                    } else {
                        kind is Bin
                    }
                });
            assert(m.packages@[p].targets@[t].kinds@[k] == own.kinds@[k]);
        }
        assert forall|p: int, t: int, k: int|
            #![trigger is_member_target(m, p, t), m.packages@[p].targets@[t].kinds@[k]]
            is_member_target(m, p, t) && below(m.packages@[p].targets@[t].src_path@, root) == Some(
                file,
            ) && 0 <= k < m.packages@[p].targets@[t].kinds@.len() implies ({
            let kind = m.packages@[p].targets@[t].kinds@[k];
            &&& (kind is Lib || kind is RLib || kind is DyLib || kind is CDyLib
                || kind is StaticLib || kind is ProcMacro) ==> held == "lib"@
            &&& kind is Bin ==> held == "lib"@ || held == "bin"@
        }) by {
            let x = m.packages@[p].targets@[t];
            assert(all.contains(x));
            let h = root_pairs_hold(all, root, all.index_of(x));
            assert(pairs[h] == (file, target_label(x)));
            target_label_is(x);
            a_label_is_told_by_the_kinds(x.kinds@, target_label(x));
            assert(x.kinds@[k] == m.packages@[p].targets@[t].kinds@[k]);
        }
    }
}

/// A workspace that was loaded holds its own crates and no others: those whose root file
/// is that of a member's library or binary, and those under its root that are no target of
/// a member. Only crates of the local file system are its own.
pub proof fn a_loaded_workspace_holds_its_own_crates<D>(
    root: &str,
    m: &CargoMetadata,
    db: D,
    crates: Vec<CrateCandidate>,
    w: LoadedWorkspace<D>,
    i: usize,
)
    requires
        call_ensures(load::<D>, (root, Some(m), db, &crates), w),
        i < crates@.len() <= usize::MAX,
        crates@[i as int].root_file is Some,
    ensures
        w.db == db,
        w.workspace_root@ == root@,
        ({
            let file = crates@[i as int].root_file->Some_0@;
            let of_a_member = exists|p: int, t: int| #[trigger]
                is_member_target(m, p, t) && normal(
                    m.packages@[p].targets@[t].canonical_src_path@,
                ) == normal(file);
            let of_a_library_or_binary = exists|p: int, t: int, k: int|
                #![trigger is_member_target(m, p, t), m.packages@[p].targets@[t].kinds@[k]]
                is_member_target(m, p, t) && normal(
                    m.packages@[p].targets@[t].canonical_src_path@,
                ) == normal(file) && 0 <= k < m.packages@[p].targets@[t].kinds@.len() && {
                    let kind = m.packages@[p].targets@[t].kinds@[k];
                    kind is Lib || kind is RLib || kind is DyLib || kind is CDyLib
                        || kind is StaticLib || kind is ProcMacro || kind is Bin
                };
            w.local_crates@.contains(i) <==> crates@[i as int].is_local && (if of_a_member {
                of_a_library_or_binary
            } else {
                is_under(file, m.canonical_root@)
            })
        }),
{
    let targets = choose|targets: WorkspaceTargets| #[trigger]
        are_targets(root@, Some(m), targets) && w.local_crates@ == kept_positions(
            crates@,
            &targets,
            crates@.len(),
        );
    the_graph_holds_libraries_and_binaries(root@, m, &targets, crates@[i as int]);
    the_kept_crates_are_listed(crates@, &targets, crates@.len());
    assert(w.local_crates@.contains(i) <==> is_kept(crates@[i as int], &targets));
}

/// A crate whose root file is not known is a workspace's own only where Cargo could not be
/// asked; every crate of the local file system is then.
pub proof fn without_cargo_a_workspace_holds_all_local_crates<D>(
    root: &str,
    m: &CargoMetadata,
    db: D,
    crates: Vec<CrateCandidate>,
    asked: LoadedWorkspace<D>,
    unasked: LoadedWorkspace<D>,
    i: usize,
)
    requires
        call_ensures(load::<D>, (root, Some(m), db, &crates), asked),
        call_ensures(load::<D>, (root, None, db, &crates), unasked),
        i < crates@.len() <= usize::MAX,
    ensures
        unasked.local_crates@.contains(i) <==> crates@[i as int].is_local,
        crates@[i as int].root_file is None ==> !asked.local_crates@.contains(i),
        !crates@[i as int].is_local ==> !asked.local_crates@.contains(i),
{
    let known = choose|targets: WorkspaceTargets| #[trigger]
        are_targets(root@, Some(m), targets) && asked.local_crates@ == kept_positions(
            crates@,
            &targets,
            crates@.len(),
        );
    let unknown = choose|targets: WorkspaceTargets| #[trigger]
        are_targets(root@, None, targets) && unasked.local_crates@ == kept_positions(
            crates@,
            &targets,
            crates@.len(),
        );
    the_kept_crates_are_listed(crates@, &known, crates@.len());
    the_kept_crates_are_listed(crates@, &unknown, crates@.len());
    assert(asked.local_crates@.contains(i) <==> is_kept(crates@[i as int], &known));
    assert(unasked.local_crates@.contains(i) <==> is_kept(crates@[i as int], &unknown));
}

} // verus!

//! The projects that a semantic service keeps loaded.
//!
//! A loaded project is `C`, whatever an analysis needs; loading one, and handing
//! it the new text of edited files, is done outside. Here stands which project has
//! to be loaded or refreshed before it is asked, and which ones are dropped to
//! stay within the capacity.

use vstd::prelude::*;

use crate::paths::{in_path_order, sort_paths};
use crate::switches::text_at;
use crate::table::{
    ascending, ascending_is_distinct, paired_at, paired_len, Table,
};
use crate::text::{
    a_number_is_read_between_white_space, decimal, is_space, parse_u64, parsed, same, texts, trim,
    trimmed,
};

verus! {

/// What the file system says of a file: when it was modified, in nanoseconds since
/// 1970, and how many bytes it has.
#[derive(Debug, Clone, Copy, PartialEq, Eq, Structural)]
pub struct FileStamp {
    /// When it was modified.
    pub modified: i128,
    /// How many bytes it has.
    pub len: u64,
}

/// What the working tree did since a project was loaded.
#[derive(Debug)]
pub enum Staleness {
    /// Nothing.
    Fresh,
    /// The same files, some of them edited.
    Edited(Vec<String>),
    /// Files appeared or disappeared.
    StructureChanged,
}

/// The files whose stamps differ, of those that both have.
pub open spec fn edited_files(
    old_stamps: Map<Seq<char>, FileStamp>,
    new_stamps: Map<Seq<char>, FileStamp>,
) -> Set<Seq<char>> {
    Set::new(
        |p: Seq<char>|
            old_stamps.dom().contains(p) && new_stamps.dom().contains(p) && old_stamps[p]
                != new_stamps[p],
    )
}

/// `s` is what the tree did between two stampings: its structure changed where
/// there are other files; else the files with another stamp were edited, in the
/// order of their paths.
pub open spec fn is_staleness(
    s: Staleness,
    old_stamps: Map<Seq<char>, FileStamp>,
    new_stamps: Map<Seq<char>, FileStamp>,
) -> bool {
    if old_stamps.dom() != new_stamps.dom() {
        s is StructureChanged
    } else {
        match s {
            Staleness::Fresh => old_stamps == new_stamps,
            Staleness::Edited(files) => {
                &&& texts(files@).to_set() == edited_files(old_stamps, new_stamps)
                &&& texts(files@).no_duplicates()
                &&& in_path_order(texts(files@))
                &&& files@.len() > 0
            },
            Staleness::StructureChanged => false,
        }
    }
}

proof fn same_members(a: Seq<Seq<char>>, b: Seq<Seq<char>>)
    requires
        a.to_multiset() == b.to_multiset(),
        b.no_duplicates(),
    ensures
        a.to_set() == b.to_set(),
        a.no_duplicates(),
{
    a.to_multiset_ensures();
    b.to_multiset_ensures();
    assert forall|x: Seq<char>| a.to_set().contains(x) == b.to_set().contains(x) by {
        assert(a.contains(x) <==> a.to_multiset().count(x) > 0);
        assert(b.contains(x) <==> b.to_multiset().count(x) > 0);
    }
    assert(a.to_set() =~= b.to_set());
    b.lemma_multiset_has_no_duplicates();
    a.lemma_multiset_has_no_duplicates_conv();
}

/// What the tree did between two stampings.
pub fn classify_staleness(old_stamps: &Table<FileStamp>, new_stamps: &Table<FileStamp>) -> (s:
    Staleness)
    requires
        old_stamps.wf(),
        new_stamps.wf(),
    ensures
        is_staleness(s, old_stamps@, new_stamps@),
{
    proof {
        paired_len(old_stamps.keys(), old_stamps.values());
        paired_len(new_stamps.keys(), new_stamps.values());
    }
    if old_stamps.len() != new_stamps.len() {
        return Staleness::StructureChanged;
    }
    let ghost keys = new_stamps.keys();
    let mut edited: Vec<String> = Vec::new();
    let mut i: usize = 0;
    proof {
        ascending_is_distinct(keys);
        assert(texts(edited@) =~= Seq::<Seq<char>>::empty());
    }
    while i < new_stamps.len()
        invariant
            old_stamps.wf(),
            new_stamps.wf(),
            keys == new_stamps.keys(),
            keys.no_duplicates(),
            i <= keys.len(),
            forall|k: int| 0 <= k < i ==> old_stamps@.dom().contains(#[trigger] keys[k]),
            texts(edited@).no_duplicates(),
            forall|p: Seq<char>| #[trigger]
                texts(edited@).contains(p) <==> (keys.take(i as int).contains(p)
                    && old_stamps@[p] != new_stamps@[p]),
        decreases keys.len() - i,
    {
        let path = new_stamps.key_at(i);
        let stamp: FileStamp = *new_stamps.value_at(i);
        let ghost held = texts(edited@);
        proof {
            paired_at(keys, new_stamps.values(), i as int);
            assert(keys.take(i + 1) =~= keys.take(i as int).push(keys[i as int]));
        }
        match old_stamps.get(path.as_str()) {
            None => {
                assert(new_stamps@.dom().contains(keys[i as int]));
                return Staleness::StructureChanged;
            },
            Some(previous) => {
                if *previous != stamp {
                    edited.push(path.clone());
                    proof {
                        let now = texts(edited@);
                        assert(now =~= held.push(keys[i as int]));
                        assert forall|p: Seq<char>| #[trigger]
                            now.contains(p) <==> (keys.take(i + 1).contains(p) && old_stamps@[p]
                                != new_stamps@[p]) by {
                            lemma_contains_push(held, keys[i as int], p);
                            lemma_contains_push(keys.take(i as int), keys[i as int], p);
                        }
                        assert(!held.contains(keys[i as int])) by {
                            if keys.take(i as int).contains(keys[i as int]) {
                                let k = keys.take(i as int).index_of(keys[i as int]);
                                assert(keys[k] == keys[i as int]);
                            }
                        }
                        assert(now.no_duplicates());
                    }
                } else {
                    proof {
                        assert forall|p: Seq<char>| #[trigger]
                            held.contains(p) <==> (keys.take(i + 1).contains(p) && old_stamps@[p]
                                != new_stamps@[p]) by {
                            lemma_contains_push(keys.take(i as int), keys[i as int], p);
                        }
                    }
                }
            },
        }
        i += 1;
    }
    proof {
        assert(keys.take(i as int) =~= keys);
        assert(new_stamps@.dom().subset_of(old_stamps@.dom())) by {
            assert forall|p: Seq<char>| new_stamps@.dom().contains(p) implies old_stamps@.dom().contains(
                p,
            ) by {
                let k = keys.index_of(p);
                assert(keys[k] == p);
            }
        }
        vstd::set_lib::lemma_subset_equality(new_stamps@.dom(), old_stamps@.dom());
        assert(texts(edited@).to_set() =~= edited_files(old_stamps@, new_stamps@));
    }
    if edited.len() == 0 {
        proof {
            assert forall|p: Seq<char>| old_stamps@.dom().contains(p) implies old_stamps@[p]
                == new_stamps@[p] by {
                assert(!texts(edited@).contains(p));
            }
            assert(old_stamps@ =~= new_stamps@);
        }
        Staleness::Fresh
    } else {
        let sorted = sort_paths(&edited);
        proof {
            same_members(texts(sorted@), texts(edited@));
        }
        Staleness::Edited(sorted)
    }
}

proof fn lemma_contains_push(s: Seq<Seq<char>>, x: Seq<char>, p: Seq<char>)
    ensures
        s.push(x).contains(p) <==> s.contains(p) || p == x,
{
    if s.contains(p) {
        assert(s.push(x)[s.index_of(p)] == p);
    }
    if p == x {
        assert(s.push(x)[s.len() as int] == p);
    }
}

/// How much of a project is loaded.
#[derive(Debug, Clone, Copy, PartialEq, Eq, Structural)]
pub enum LoadKind {
    /// Without the edges to the dependencies.
    Fast,
    /// With them.
    Full,
}

impl LoadKind {
    /// The name of the kind.
    pub open spec fn name(&self) -> Seq<char> {
        match *self {
            LoadKind::Fast => "fast"@,
            LoadKind::Full => "full"@,
        }
    }

    /// The name of the kind.
    pub fn as_str(self) -> (s: &'static str)
        ensures
            s@ == self.name(),
    {
        match self {
            LoadKind::Fast => "fast",
            LoadKind::Full => "full",
        }
    }
}

/// A loaded project.
pub struct ProjectContext<C> {
    /// What the analysis needs.
    pub context: C,
    /// How much is loaded.
    pub load_kind: LoadKind,
    /// The stamps of the files as they were when the project was loaded or last refreshed.
    pub stamps: Table<FileStamp>,
    /// The tick at which the project was last asked.
    pub last_used: u64,
}

/// How many projects stay loaded, where nothing says otherwise.
pub const DEFAULT_MAX_PROJECTS: usize = 2;

/// The variable that says how many projects stay loaded; zero stands for all.
pub const MAX_PROJECTS_ENV: &'static str = "RMC_MAX_PROJECTS";

/// How many projects a value asks to keep loaded.
pub open spec fn max_projects_of(value: Option<Seq<char>>) -> usize {
    match value {
        None => DEFAULT_MAX_PROJECTS,
        Some(v) => match parsed(trimmed(v)) {
            Ok(n) => if n <= usize::MAX {
                n as usize
            } else {
                DEFAULT_MAX_PROJECTS
            },
            Err(_) => DEFAULT_MAX_PROJECTS,
        },
    }
}

/// How many projects a value asks to keep loaded; without a value, or where it is
/// no number, the default.
pub fn max_projects_from_env(value: Option<&str>) -> (n: usize)
    ensures
        n == max_projects_of(text_at(value)),
{
    match value {
        None => DEFAULT_MAX_PROJECTS,
        Some(v) => match parse_u64(trim(v).as_str()) {
            Ok(n) => {
                if n <= usize::MAX as u64 {
                    n as usize
                } else {
                    DEFAULT_MAX_PROJECTS
                }
            },
            Err(_) => DEFAULT_MAX_PROJECTS,
        },
    }
}

/// What is told of a loaded project.
#[derive(Debug, Clone, PartialEq, Eq)]
pub struct SemanticProjectStatus {
    /// Where it is.
    pub path: String,
    /// How much is loaded.
    pub load_kind: String,
}

/// What is told of the loaded projects.
#[derive(Debug, Clone, PartialEq, Eq)]
pub struct SemanticServiceStatus {
    /// How many there are.
    pub project_count: usize,
    /// Each of them, in the order of their paths.
    pub projects: Vec<SemanticProjectStatus>,
}

/// The loaded projects, by their canonical paths.
pub struct SemanticService<C> {
    projects: Table<ProjectContext<C>>,
    max_projects: usize,
    clock: u64,
}

/// The state of a service.
pub struct ServiceState<C> {
    /// The loaded projects.
    pub projects: Map<Seq<char>, ProjectContext<C>>,
    /// How many may stay loaded; zero stands for all.
    pub max_projects: usize,
    /// The last tick that was given out.
    pub clock: u64,
}

impl<C> View for SemanticService<C> {
    type V = ServiceState<C>;

    closed spec fn view(&self) -> ServiceState<C> {
        ServiceState {
            projects: self.projects@,
            max_projects: self.max_projects,
            clock: self.clock,
        }
    }
}

/// No two projects were last asked at the same tick, and none after the last one.
pub open spec fn ticks_are_apart<C>(projects: Map<Seq<char>, ProjectContext<C>>, clock: u64) -> bool {
    &&& forall|p: Seq<char>| #[trigger]
        projects.dom().contains(p) ==> projects[p].last_used <= clock && projects[p].stamps.wf()
    &&& forall|p: Seq<char>, q: Seq<char>| #[trigger]
        projects.dom().contains(p) && #[trigger] projects.dom().contains(q) && p != q
            ==> projects[p].last_used != projects[q].last_used
}

/// What asking a project at the next tick leaves.
pub open spec fn touched<C>(
    projects: Map<Seq<char>, ProjectContext<C>>,
    path: Seq<char>,
    tick: u64,
) -> Map<Seq<char>, ProjectContext<C>> {
    if projects.dom().contains(path) {
        projects.insert(path, ProjectContext { last_used: tick, ..projects[path] })
    } else {
        projects
    }
}

/// `after` is what is left of `before` when the projects that were asked longest
/// ago are dropped until at most `max` are left; `keep` is not dropped. Zero drops
/// nothing.
pub open spec fn is_evicted<C>(
    before: Map<Seq<char>, ProjectContext<C>>,
    after: Map<Seq<char>, ProjectContext<C>>,
    max: usize,
    keep: Seq<char>,
) -> bool {
    &&& after.submap_of(before)
    &&& after.dom().len() == (if max == 0 || before.dom().len() <= max {
        before.dom().len()
    } else {
        max as nat
    })
    &&& before.dom().contains(keep) ==> after.dom().contains(keep)
    &&& forall|gone: Seq<char>, kept: Seq<char>|
        before.dom().contains(gone) && !(#[trigger] after.dom().contains(gone)) && #[trigger]
            after.dom().contains(kept) && kept != keep ==> before[gone].last_used
            < before[kept].last_used
}

/// Every project that has gone was asked before each that is kept, `keep` aside.
spec fn older_have_gone<C>(
    before: Map<Seq<char>, ProjectContext<C>>,
    held: Map<Seq<char>, ProjectContext<C>>,
    keep: Seq<char>,
) -> bool {
    forall|gone: Seq<char>, kept: Seq<char>|
        before.dom().contains(gone) && !(#[trigger] held.dom().contains(gone)) && #[trigger]
            held.dom().contains(kept) && kept != keep ==> before[gone].last_used
            < before[kept].last_used
}

proof fn the_oldest_goes_next<C>(
    before: Map<Seq<char>, ProjectContext<C>>,
    held: Map<Seq<char>, ProjectContext<C>>,
    clock: u64,
    path: Seq<char>,
    keep: Seq<char>,
)
    requires
        held.submap_of(before),
        ticks_are_apart(held, clock),
        older_have_gone(before, held, keep),
        held.dom().contains(path),
        forall|p: Seq<char>| #[trigger]
            held.dom().contains(p) && p != keep ==> held[path].last_used <= held[p].last_used,
    ensures
        held.remove(path).submap_of(before),
        older_have_gone(before, held.remove(path), keep),
{
    let now = held.remove(path);
    assert forall|gone: Seq<char>, kept: Seq<char>|
        before.dom().contains(gone) && !(#[trigger] now.dom().contains(gone)) && #[trigger]
            now.dom().contains(kept) && kept != keep implies before[gone].last_used
        < before[kept].last_used by {
        assert(held.dom().contains(kept) && before.dom().contains(kept));
        assert(held[kept] == before[kept]);
        if held.dom().contains(gone) {
            assert(gone == path);
            assert(held[gone] == before[gone]);
        }
    }
}

/// What has to be done before a project can be asked.
#[derive(Debug, Clone, Copy, PartialEq, Eq, Structural)]
pub enum QueryStep {
    /// Load it.
    Load,
    /// See what the working tree did since it was loaded.
    Check,
}

/// What has to be done to a loaded project.
#[derive(Debug)]
pub enum RefreshStep {
    /// It is not loaded.
    NotLoaded,
    /// Nothing.
    Serve,
    /// Load it again.
    Reload,
    /// Hand it the new text of these files; load it again where that fails.
    Patch(Vec<String>),
}

/// Whether the project at a path has to be loaded before it can be asked for `requested`.
pub open spec fn needs_load<C>(state: ServiceState<C>, path: Seq<char>, requested: LoadKind) -> bool {
    !state.projects.dom().contains(path) || (requested == LoadKind::Full
        && state.projects[path].load_kind == LoadKind::Fast)
}

/// The state with a project entered that was loaded.
pub open spec fn entered<C>(
    state: ServiceState<C>,
    path: Seq<char>,
    load_kind: LoadKind,
    stamps: Table<FileStamp>,
    context: C,
) -> ServiceState<C> {
    let tick = (state.clock + 1) as u64;
    ServiceState {
        projects: state.projects.insert(
            path,
            ProjectContext { context, load_kind, stamps, last_used: tick },
        ),
        clock: tick,
        ..state
    }
}

/// The state with other stamps of a loaded project.
pub open spec fn stamped<C>(
    state: ServiceState<C>,
    path: Seq<char>,
    stamps: Table<FileStamp>,
) -> ServiceState<C> {
    ServiceState {
        projects: state.projects.insert(
            path,
            ProjectContext { stamps, ..state.projects[path] },
        ),
        ..state
    }
}

/// What a load leaves: the tree is stamped, and with the stamps in hand the project is
/// loaded. Where that fails, the state is as it was.
pub open spec fn is_load<C, S: Fn() -> Table<FileStamp>, L: Fn(LoadKind, &Table<FileStamp>) -> Result<C, String>>(
    before: ServiceState<C>,
    path: Seq<char>,
    kind: LoadKind,
    stamp: S,
    load: L,
    r: Result<(), String>,
    after: ServiceState<C>,
) -> bool {
    exists|stamps: Table<FileStamp>, loaded: Result<C, String>| #[trigger]
        call_ensures(stamp, (), stamps) && #[trigger] call_ensures(load, (kind, &stamps), loaded)
            && match loaded {
            Ok(context) => r is Ok && after == entered(before, path, kind, stamps, context),
            Err(e) => r == Err::<(), String>(e) && after == before,
        }
}

/// What is left of a project whose tree did `s` and has the stamps `current` now: it
/// is served as it is; or it is loaded again; or it takes the edits, and is loaded
/// again only where it cannot.
pub open spec fn is_refresh_for<
    C,
    S: Fn() -> Table<FileStamp>,
    L: Fn(LoadKind, &Table<FileStamp>) -> Result<C, String>,
    P: Fn(&C, &Vec<String>) -> Result<(), String>,
>(
    before: ServiceState<C>,
    path: Seq<char>,
    kind: LoadKind,
    s: Staleness,
    current: Table<FileStamp>,
    stamp: S,
    load: L,
    patch: P,
    r: Result<(), String>,
    after: ServiceState<C>,
) -> bool {
    match s {
        Staleness::Fresh => r is Ok && after == before,
        Staleness::StructureChanged => is_load(before, path, kind, stamp, load, r, after),
        Staleness::Edited(files) => exists|patched: Result<(), String>| #[trigger]
            call_ensures(patch, (&before.projects[path].context, &files), patched) && match patched {
                Ok(()) => r is Ok && after == stamped(before, path, current),
                Err(_) => is_load(before, path, kind, stamp, load, r, after),
            },
    }
}

/// What a refresh of a loaded project leaves.
pub open spec fn is_refresh<
    C,
    S: Fn() -> Table<FileStamp>,
    L: Fn(LoadKind, &Table<FileStamp>) -> Result<C, String>,
    P: Fn(&C, &Vec<String>) -> Result<(), String>,
>(
    before: ServiceState<C>,
    path: Seq<char>,
    kind: LoadKind,
    stamp: S,
    load: L,
    patch: P,
    r: Result<(), String>,
    after: ServiceState<C>,
) -> bool {
    if before.projects.dom().contains(path) {
        exists|current: Table<FileStamp>, s: Staleness| #[trigger]
            call_ensures(stamp, (), current) && #[trigger] is_staleness(
                s,
                before.projects[path].stamps@,
                current@,
            ) && is_refresh_for(before, path, kind, s, current, stamp, load, patch, r, after)
    } else {
        (r matches Err(e) && e@ == "Project not loaded"@) && after == before
    }
}

/// What asking a project leaves, after an attempt to load or refresh it that left
/// `loaded`: where the attempt succeeded, the project is asked now, and others are
/// dropped for it.
pub open spec fn is_asked<C>(
    loaded: ServiceState<C>,
    path: Seq<char>,
    outcome: Result<(), String>,
    r: Result<usize, String>,
    after: ServiceState<C>,
) -> bool {
    match outcome {
        Err(e) => r == Err::<usize, String>(e) && after == loaded,
        Ok(()) => {
            &&& is_evicted(
                touched(loaded.projects, path, (loaded.clock + 1) as u64),
                after.projects,
                loaded.max_projects,
                path,
            )
            &&& after.clock == loaded.clock + 1
            &&& after.max_projects == loaded.max_projects
            &&& r == Ok::<usize, String>(
                (loaded.projects.dom().len() - after.projects.dom().len()) as usize,
            )
        },
    }
}

/// What making a project ready leaves: it is loaded or refreshed, and only where that
/// succeeded is it asked.
pub open spec fn is_made_ready<
    C,
    S: Fn() -> Table<FileStamp>,
    L: Fn(LoadKind, &Table<FileStamp>) -> Result<C, String>,
    P: Fn(&C, &Vec<String>) -> Result<(), String>,
>(
    before: ServiceState<C>,
    path: Seq<char>,
    kind: LoadKind,
    stamp: S,
    load: L,
    patch: P,
    r: Result<usize, String>,
    after: ServiceState<C>,
) -> bool {
    exists|outcome: Result<(), String>, loaded: ServiceState<C>| #[trigger]
        is_asked(loaded, path, outcome, r, after) && if needs_load(before, path, kind) {
            is_load(before, path, kind, stamp, load, outcome, loaded)
        } else {
            is_refresh(before, path, kind, stamp, load, patch, outcome, loaded)
        }
}

impl<C> SemanticService<C> {
    /// The table is well-formed, and so are the ticks.
    pub closed spec fn wf(&self) -> bool {
        self.projects.wf() && ticks_are_apart(self.projects@, self.clock)
    }

    /// A service without projects that keeps at most `max_projects` loaded.
    pub fn with_max_projects(max_projects: usize) -> (s: Self)
        ensures
            s.wf(),
            s@ == (ServiceState {
                projects: Map::<Seq<char>, ProjectContext<C>>::empty(),
                max_projects,
                clock: 0,
            }),
    {
        SemanticService { projects: Table::new(), max_projects, clock: 0 }
    }

    /// A service without projects whose capacity a variable gives.
    pub fn new(max_projects_env: Option<&str>) -> (s: Self)
        ensures
            s.wf(),
            s@ == (ServiceState {
                projects: Map::<Seq<char>, ProjectContext<C>>::empty(),
                max_projects: max_projects_of(text_at(max_projects_env)),
                clock: 0,
            }),
    {
        Self::with_max_projects(max_projects_from_env(max_projects_env))
    }

    /// How many projects are loaded.
    pub fn project_count(&self) -> (n: usize)
        requires
            self.wf(),
        ensures
            n == self@.projects.dom().len(),
    {
        proof {
            paired_len(self.projects.keys(), self.projects.values());
        }
        self.projects.len()
    }

    /// The loaded project at a path.
    pub fn get(&self, canonical: &str) -> (p: Option<&ProjectContext<C>>)
        requires
            self.wf(),
        ensures
            p is Some <==> self@.projects.dom().contains(canonical@),
            p matches Some(x) ==> *x == self@.projects[canonical@],
    {
        self.projects.get(canonical)
    }

    /// What is told of the loaded projects.
    pub fn status(&self) -> (s: SemanticServiceStatus)
        requires
            self.wf(),
        ensures
            s.project_count == self@.projects.dom().len(),
            s.projects@.len() == s.project_count,
            ({
                let paths = Seq::new(s.projects@.len(), |i: int| s.projects@[i].path@);
                &&& ascending(paths)
                &&& paths.to_set() == self@.projects.dom()
            }),
            forall|i: int|
                0 <= i < s.projects@.len() ==> (#[trigger] s.projects@[i]).load_kind@
                    == self@.projects[s.projects@[i].path@].load_kind.name(),
    {
        let mut projects: Vec<SemanticProjectStatus> = Vec::new();
        let ghost keys = self.projects.keys();
        let mut i: usize = 0;
        while i < self.projects.len()
            invariant
                self.wf(),
                self.projects.wf(),
                keys == self.projects.keys(),
                i <= keys.len(),
                projects@.len() == i,
                forall|k: int| 0 <= k < i ==> (#[trigger] projects@[k]).path@ == keys[k],
                forall|k: int|
                    0 <= k < i ==> (#[trigger] projects@[k]).load_kind@
                        == self@.projects[keys[k]].load_kind.name(),
            decreases keys.len() - i,
        {
            proof {
                paired_at(keys, self.projects.values(), i as int);
            }
            projects.push(
                SemanticProjectStatus {
                    path: self.projects.key_at(i).clone(),
                    load_kind: self.projects.value_at(i).load_kind.as_str().to_owned(),
                },
            );
            i += 1;
        }
        proof {
            let paths = Seq::new(projects@.len(), |k: int| projects@[k].path@);
            assert(paths =~= keys);
            paired_len(keys, self.projects.values());
        }
        SemanticServiceStatus { project_count: projects.len(), projects }
    }

    /// Drops all projects, and says how many there were.
    pub fn clear_all(&mut self) -> (n: usize)
        requires
            old(self).wf(),
        ensures
            final(self).wf(),
            n == old(self)@.projects.dom().len(),
            final(self)@ == (ServiceState {
                projects: Map::<Seq<char>, ProjectContext<C>>::empty(),
                ..old(self)@
            }),
    {
        let n: usize = self.project_count();
        self.projects = Table::new();
        n
    }

    /// Drops the project at a path, and says how many were dropped.
    pub fn clear_project(&mut self, canonical: &str) -> (n: usize)
        requires
            old(self).wf(),
        ensures
            final(self).wf(),
            n == (if old(self)@.projects.dom().contains(canonical@) {
                1usize
            } else {
                0usize
            }),
            final(self)@ == (ServiceState {
                projects: old(self)@.projects.remove(canonical@),
                ..old(self)@
            }),
    {
        if self.projects.remove(canonical).is_some() {
            1
        } else {
            0
        }
    }

    /// Notes that the project at a path is asked now.
    fn touch(&mut self, canonical: &str)
        requires
            old(self).wf(),
            old(self)@.clock < u64::MAX,
        ensures
            final(self).wf(),
            final(self)@.clock == old(self)@.clock + 1,
            final(self)@.max_projects == old(self)@.max_projects,
            final(self)@.projects == touched(
                old(self)@.projects,
                canonical@,
                (old(self)@.clock + 1) as u64,
            ),
    {
        self.clock = self.clock + 1;
        match self.projects.remove(canonical) {
            Some(mut ctx) => {
                ctx.last_used = self.clock;
                let ghost inserted = ctx;
                self.projects.insert(canonical.to_owned(), ctx);
                proof {
                    let before = old(self)@.projects;
                    assert(before.remove(canonical@).insert(canonical@, inserted) =~= before.insert(
                        canonical@,
                        inserted,
                    ));
                }
            },
            None => {
                assert(old(self)@.projects.remove(canonical@) =~= old(self)@.projects);
            },
        }
    }

    /// The position of the project that was asked longest ago, `keep` aside.
    fn oldest(&self, keep: &str) -> (at: Option<usize>)
        requires
            self.wf(),
        ensures
            at is None ==> forall|p: Seq<char>| #[trigger]
                self@.projects.dom().contains(p) ==> p == keep@,
            at matches Some(i) ==> {
                &&& i < self.projects.keys().len()
                &&& self.projects.keys()[i as int] != keep@
                &&& self@.projects.dom().contains(self.projects.keys()[i as int])
                &&& forall|p: Seq<char>| #[trigger]
                    self@.projects.dom().contains(p) && p != keep@
                        ==> self@.projects[self.projects.keys()[i as int]].last_used
                        <= self@.projects[p].last_used
            },
    {
        let ghost keys = self.projects.keys();
        let mut best: Option<usize> = None;
        let mut i: usize = 0;
        while i < self.projects.len()
            invariant
                self.wf(),
                self.projects.wf(),
                keys == self.projects.keys(),
                i <= keys.len(),
                best is None ==> forall|k: int| 0 <= k < i ==> #[trigger] keys[k] == keep@,
                best matches Some(b) ==> {
                    &&& b < i
                    &&& keys[b as int] != keep@
                    &&& forall|k: int|
                        0 <= k < i && #[trigger] keys[k] != keep@
                            ==> self.projects.values()[b as int].last_used
                            <= self.projects.values()[k].last_used
                },
            decreases keys.len() - i,
        {
            if !same(self.projects.key_at(i).as_str(), keep) {
                match best {
                    None => {
                        best = Some(i);
                    },
                    Some(b) => {
                        if self.projects.value_at(i).last_used < self.projects.value_at(
                            b,
                        ).last_used {
                            best = Some(i);
                        }
                    },
                }
            }
            i += 1;
        }
        proof {
            assert forall|p: Seq<char>| #[trigger] self@.projects.dom().contains(p) implies {
                let k = keys.index_of(p);
                0 <= k < keys.len() && keys[k] == p && self.projects.values()[k]
                    == self@.projects[p]
            } by {
                let k = keys.index_of(p);
                paired_at(keys, self.projects.values(), k);
            }
            if let Some(b) = best {
                paired_at(keys, self.projects.values(), b as int);
            }
        }
        best
    }

    /// Drops the projects that were asked longest ago until the capacity holds, and
    /// says how many were dropped. `keep` is not dropped.
    fn evict_to_capacity(&mut self, keep: &str) -> (n: usize)
        requires
            old(self).wf(),
        ensures
            final(self).wf(),
            final(self)@.clock == old(self)@.clock,
            final(self)@.max_projects == old(self)@.max_projects,
            is_evicted(
                old(self)@.projects,
                final(self)@.projects,
                old(self)@.max_projects,
                keep@,
            ),
            n == old(self)@.projects.dom().len() - final(self)@.projects.dom().len(),
    {
        let ghost before = self@.projects;
        let ghost max = self@.max_projects;
        proof {
            paired_len(self.projects.keys(), self.projects.values());
        }
        if self.max_projects == 0 {
            return 0;
        }
        let loaded: usize = self.projects.len();
        let mut evicted: usize = 0;
        while self.projects.len() > self.max_projects
            invariant
                self.wf(),
                self@.clock == old(self)@.clock,
                self@.max_projects == max,
                max > 0,
                before == old(self)@.projects,
                before.dom().finite(),
                before.dom().len() == loaded,
                self@.projects.dom().finite(),
                self@.projects.submap_of(before),
                evicted + self@.projects.dom().len() == before.dom().len(),
                before.dom().len() <= max ==> evicted == 0,
                before.dom().len() > max ==> self@.projects.dom().len() >= max,
                before.dom().contains(keep@) ==> self@.projects.dom().contains(keep@),
                older_have_gone(before, self@.projects, keep@),
            decreases self@.projects.dom().len(),
        {
            proof {
                paired_len(self.projects.keys(), self.projects.values());
            }
            let victim: usize = match self.oldest(keep) {
                Some(i) => i,
                None => {
                    proof {
                        let d = self@.projects.dom();
                        assert(d.subset_of(set![keep@]));
                        vstd::set_lib::lemma_len_subset(d, set![keep@]);
                        assert(false);
                    }
                    return evicted;
                },
            };
            let path = self.projects.key_at(victim).clone();
            let ghost held = self@.projects;
            self.projects.remove(path.as_str());
            proof {
                assert(self@.projects =~= held.remove(path@));
                the_oldest_goes_next(before, held, self.clock, path@, keep@);
            }
            evicted = evicted + 1;
        }
        proof {
            paired_len(self.projects.keys(), self.projects.values());
        }
        evicted
    }

    /// What has to be done before the project at a path can be asked for `requested`:
    /// it is loaded where it is not, or where the full load is asked for and only
    /// the fast one is there; else the working tree is looked at.
    pub fn query_step(&self, canonical: &str, requested: LoadKind) -> (step: QueryStep)
        requires
            self.wf(),
        ensures
            step == (if needs_load(self@, canonical@, requested) {
                QueryStep::Load
            } else {
                QueryStep::Check
            }),
    {
        let needs_load: bool = match self.projects.get(canonical) {
            Some(ctx) => requested == LoadKind::Full && ctx.load_kind == LoadKind::Fast,
            None => true,
        };
        if needs_load {
            QueryStep::Load
        } else {
            QueryStep::Check
        }
    }

    /// What has to be done to the project at a path, whose files have the stamps
    /// `current` now.
    pub fn refresh_step(&self, canonical: &str, current: &Table<FileStamp>) -> (step: RefreshStep)
        requires
            self.wf(),
            current.wf(),
        ensures
            !self@.projects.dom().contains(canonical@) ==> step is NotLoaded,
            self@.projects.dom().contains(canonical@) ==> {
                let stamps = self@.projects[canonical@].stamps@;
                match step {
                    RefreshStep::NotLoaded => false,
                    RefreshStep::Serve => is_staleness(Staleness::Fresh, stamps, current@),
                    RefreshStep::Reload => is_staleness(
                        Staleness::StructureChanged,
                        stamps,
                        current@,
                    ),
                    RefreshStep::Patch(files) => is_staleness(
                        Staleness::Edited(files),
                        stamps,
                        current@,
                    ),
                }
            },
    {
        match self.projects.get(canonical) {
            None => RefreshStep::NotLoaded,
            Some(ctx) => match classify_staleness(&ctx.stamps, current) {
                Staleness::Fresh => RefreshStep::Serve,
                Staleness::StructureChanged => RefreshStep::Reload,
                Staleness::Edited(files) => RefreshStep::Patch(files),
            },
        }
    }

    /// Enters a project that was loaded. The stamps are those from before the load,
    /// so that what was edited during it is found stale.
    pub fn enter(
        &mut self,
        canonical: String,
        requested: LoadKind,
        stamps: Table<FileStamp>,
        context: C,
    )
        requires
            old(self).wf(),
            old(self)@.clock < u64::MAX,
            stamps.wf(),
        ensures
            final(self).wf(),
            final(self)@ == entered(old(self)@, canonical@, requested, stamps, context),
    {
        self.clock = self.clock + 1;
        self.projects.insert(
            canonical,
            ProjectContext { context, load_kind: requested, stamps, last_used: self.clock },
        );
    }

    /// Notes that the edits of the working tree were applied to the project at a path;
    /// `current` are the stamps of the tree that they were read from. It says whether
    /// the project is loaded.
    pub fn edits_applied(&mut self, canonical: &str, current: Table<FileStamp>) -> (loaded: bool)
        requires
            old(self).wf(),
            current.wf(),
        ensures
            final(self).wf(),
            loaded == old(self)@.projects.dom().contains(canonical@),
            final(self)@ == (if loaded {
                stamped(old(self)@, canonical@, current)
            } else {
                old(self)@
            }),
    {
        match self.projects.remove(canonical) {
            Some(mut ctx) => {
                ctx.stamps = current;
                let ghost inserted = ctx;
                self.projects.insert(canonical.to_owned(), ctx);
                proof {
                    let before = old(self)@.projects;
                    assert(before.remove(canonical@).insert(canonical@, inserted) =~= before.insert(
                        canonical@,
                        inserted,
                    ));
                }
                true
            },
            None => {
                assert(old(self)@.projects.remove(canonical@) =~= old(self)@.projects);
                false
            },
        }
    }

    /// Notes that the project at a path is asked now, and drops what the capacity no
    /// longer holds. It says how many projects were dropped.
    pub fn used(&mut self, canonical: &str) -> (n: usize)
        requires
            old(self).wf(),
            old(self)@.clock < u64::MAX,
        ensures
            final(self).wf(),
            final(self)@.clock == old(self)@.clock + 1,
            final(self)@.max_projects == old(self)@.max_projects,
            is_evicted(
                touched(old(self)@.projects, canonical@, (old(self)@.clock + 1) as u64),
                final(self)@.projects,
                old(self)@.max_projects,
                canonical@,
            ),
            n == old(self)@.projects.dom().len() - final(self)@.projects.dom().len(),
    {
        self.touch(canonical);
        proof {
            assert(touched(
                old(self)@.projects,
                canonical@,
                (old(self)@.clock + 1) as u64,
            ).dom() =~= old(self)@.projects.dom());
        }
        self.evict_to_capacity(canonical)
    }
}

impl<C> SemanticService<C> {
    /// Loads the project at a path and enters it. The tree is stamped before the load,
    /// so that what is edited during it is found stale.
    pub fn load_kind_into_cache<
        S: Fn() -> Table<FileStamp> + Copy,
        L: Fn(LoadKind, &Table<FileStamp>) -> Result<C, String> + Copy,
    >(&mut self, canonical: &str, requested: LoadKind, stamp: S, load: L) -> (r: Result<(), String>)
        requires
            old(self).wf(),
            old(self)@.clock < u64::MAX,
            call_requires(stamp, ()),
            forall|stamps: Table<FileStamp>| #[trigger]
                call_ensures(stamp, (), stamps) ==> stamps.wf(),
            forall|stamps: &Table<FileStamp>| #[trigger] call_requires(load, (requested, stamps)),
        ensures
            final(self).wf(),
            final(self)@.clock <= old(self)@.clock + 1,
            is_load(old(self)@, canonical@, requested, stamp, load, r, final(self)@),
    {
        let stamps = stamp();
        match load(requested, &stamps) {
            Ok(context) => {
                self.enter(canonical.to_owned(), requested, stamps, context);
                Ok(())
            },
            Err(e) => Err(e),
        }
    }

    /// Brings the project at a path up to date with its working tree. `patch` hands the
    /// new text of edited files to the analysis.
    pub fn refresh_if_stale<
        S: Fn() -> Table<FileStamp> + Copy,
        L: Fn(LoadKind, &Table<FileStamp>) -> Result<C, String> + Copy,
        P: Fn(&C, &Vec<String>) -> Result<(), String>,
    >(&mut self, canonical: &str, requested: LoadKind, stamp: S, load: L, patch: P) -> (r: Result<
        (),
        String,
    >)
        requires
            old(self).wf(),
            old(self)@.clock < u64::MAX,
            call_requires(stamp, ()),
            forall|stamps: Table<FileStamp>| #[trigger]
                call_ensures(stamp, (), stamps) ==> stamps.wf(),
            forall|stamps: &Table<FileStamp>| #[trigger] call_requires(load, (requested, stamps)),
            forall|context: &C, files: &Vec<String>| #[trigger]
                call_requires(patch, (context, files)),
        ensures
            final(self).wf(),
            final(self)@.clock <= old(self)@.clock + 1,
            is_refresh(old(self)@, canonical@, requested, stamp, load, patch, r, final(self)@),
    {
        let current = stamp();
        match self.refresh_step(canonical, &current) {
            RefreshStep::NotLoaded => Err("Project not loaded".to_owned()),
            RefreshStep::Serve => {
                assert(is_staleness(
                    Staleness::Fresh,
                    self@.projects[canonical@].stamps@,
                    current@,
                ));
                Ok(())
            },
            RefreshStep::Reload => {
                assert(is_staleness(
                    Staleness::StructureChanged,
                    self@.projects[canonical@].stamps@,
                    current@,
                ));
                self.load_kind_into_cache(canonical, requested, stamp, load)
            },
            RefreshStep::Patch(files) => {
                let ghost s = Staleness::Edited(files);
                assert(is_staleness(s, self@.projects[canonical@].stamps@, current@));
                let patched = match self.get(canonical) {
                    Some(project) => patch(&project.context, &files),
                    None => Err("Project not loaded".to_owned()),
                };
                match patched {
                    Ok(()) => {
                        self.edits_applied(canonical, current);
                        Ok(())
                    },
                    Err(_) => self.load_kind_into_cache(canonical, requested, stamp, load),
                }
            },
        }
    }

    /// Makes the project at a path ready to be asked for `requested`, and says how many
    /// others were dropped for it. A project that could not be loaded was not asked.
    pub fn get_or_load_kind<
        S: Fn() -> Table<FileStamp> + Copy,
        L: Fn(LoadKind, &Table<FileStamp>) -> Result<C, String> + Copy,
        P: Fn(&C, &Vec<String>) -> Result<(), String>,
    >(&mut self, canonical: &str, requested: LoadKind, stamp: S, load: L, patch: P) -> (r: Result<
        usize,
        String,
    >)
        requires
            old(self).wf(),
            old(self)@.clock < u64::MAX - 1,
            call_requires(stamp, ()),
            forall|stamps: Table<FileStamp>| #[trigger]
                call_ensures(stamp, (), stamps) ==> stamps.wf(),
            forall|stamps: &Table<FileStamp>| #[trigger] call_requires(load, (requested, stamps)),
            forall|context: &C, files: &Vec<String>| #[trigger]
                call_requires(patch, (context, files)),
        ensures
            final(self).wf(),
            final(self)@.clock <= old(self)@.clock + 2,
            is_made_ready(
                old(self)@,
                canonical@,
                requested,
                stamp,
                load,
                patch,
                r,
                final(self)@,
            ),
    {
        let outcome = match self.query_step(canonical, requested) {
            QueryStep::Load => self.load_kind_into_cache(canonical, requested, stamp, load),
            QueryStep::Check => self.refresh_if_stale(canonical, requested, stamp, load, patch),
        };
        let ghost loaded = self@;
        let r = match outcome {
            Ok(()) => Ok(self.used(canonical)),
            Err(e) => Err(e),
        };
        assert(is_asked(loaded, canonical@, outcome, r, self@));
        r
    }
}

impl<C> SemanticService<C> {
    /// Makes the project at a path ready for a question about itself.
    pub fn get_or_load<
        S: Fn() -> Table<FileStamp> + Copy,
        L: Fn(LoadKind, &Table<FileStamp>) -> Result<C, String> + Copy,
        P: Fn(&C, &Vec<String>) -> Result<(), String>,
    >(&mut self, canonical: &str, stamp: S, load: L, patch: P) -> (r: Result<usize, String>)
        requires
            old(self).wf(),
            old(self)@.clock < u64::MAX - 1,
            call_requires(stamp, ()),
            forall|stamps: Table<FileStamp>| #[trigger]
                call_ensures(stamp, (), stamps) ==> stamps.wf(),
            forall|stamps: &Table<FileStamp>| #[trigger]
                call_requires(load, (LoadKind::Fast, stamps)),
            forall|context: &C, files: &Vec<String>| #[trigger]
                call_requires(patch, (context, files)),
        ensures
            final(self).wf(),
            final(self)@.clock <= old(self)@.clock + 2,
            is_made_ready(
                old(self)@,
                canonical@,
                LoadKind::Fast,
                stamp,
                load,
                patch,
                r,
                final(self)@,
            ),
    {
        self.get_or_load_kind(canonical, LoadKind::Fast, stamp, load, patch)
    }

    /// Makes the project at a path ready for a question that its dependents are part of.
    pub fn get_or_load_full<
        S: Fn() -> Table<FileStamp> + Copy,
        L: Fn(LoadKind, &Table<FileStamp>) -> Result<C, String> + Copy,
        P: Fn(&C, &Vec<String>) -> Result<(), String>,
    >(&mut self, canonical: &str, stamp: S, load: L, patch: P) -> (r: Result<usize, String>)
        requires
            old(self).wf(),
            old(self)@.clock < u64::MAX - 1,
            call_requires(stamp, ()),
            forall|stamps: Table<FileStamp>| #[trigger]
                call_ensures(stamp, (), stamps) ==> stamps.wf(),
            forall|stamps: &Table<FileStamp>| #[trigger]
                call_requires(load, (LoadKind::Full, stamps)),
            forall|context: &C, files: &Vec<String>| #[trigger]
                call_requires(patch, (context, files)),
        ensures
            final(self).wf(),
            final(self)@.clock <= old(self)@.clock + 2,
            is_made_ready(
                old(self)@,
                canonical@,
                LoadKind::Full,
                stamp,
                load,
                patch,
                r,
                final(self)@,
            ),
    {
        self.get_or_load_kind(canonical, LoadKind::Full, stamp, load, patch)
    }

    /// Previews the rename of a symbol by its name, over all that depends on the project.
    /// `rename` asks the analysis; no file is written.
    pub fn rename_by_name<
        S: Fn() -> Table<FileStamp> + Copy,
        L: Fn(LoadKind, &Table<FileStamp>) -> Result<C, String> + Copy,
        P: Fn(&C, &Vec<String>) -> Result<(), String>,
        R,
        Q: Fn(&C, &str, &str) -> Result<R, String>,
    >(
        &mut self,
        canonical: &str,
        symbol_name: &str,
        new_name: &str,
        stamp: S,
        load: L,
        patch: P,
        rename: Q,
    ) -> (r: Result<R, String>)
        requires
            old(self).wf(),
            old(self)@.clock < u64::MAX - 1,
            call_requires(stamp, ()),
            forall|stamps: Table<FileStamp>| #[trigger]
                call_ensures(stamp, (), stamps) ==> stamps.wf(),
            forall|stamps: &Table<FileStamp>| #[trigger]
                call_requires(load, (LoadKind::Full, stamps)),
            forall|context: &C, files: &Vec<String>| #[trigger]
                call_requires(patch, (context, files)),
            forall|context: &C| #[trigger]
                call_requires(rename, (context, symbol_name, new_name)),
        ensures
            final(self).wf(),
            final(self)@.clock <= old(self)@.clock + 2,
            exists|ready: Result<usize, String>| #[trigger]
                is_made_ready(
                    old(self)@,
                    canonical@,
                    LoadKind::Full,
                    stamp,
                    load,
                    patch,
                    ready,
                    final(self)@,
                ) && match ready {
                    Err(e) => r == Err::<R, String>(e),
                    Ok(_) => final(self)@.projects.dom().contains(canonical@)
                        && final(self)@.projects[canonical@].load_kind == LoadKind::Full
                        && call_ensures(
                        rename,
                        (&final(self)@.projects[canonical@].context, symbol_name, new_name),
                        r,
                    ),
                },
    {
        let ghost before = self@;
        let ready = self.get_or_load_full(canonical, stamp, load, patch);
        match ready {
            Err(e) => Err(e),
            Ok(dropped) => {
                proof {
                    a_ready_project_is_loaded(
                        before,
                        canonical@,
                        LoadKind::Full,
                        stamp,
                        load,
                        patch,
                        ready,
                        self@,
                    );
                }
                match self.loaded(canonical) {
                    Err(e) => Err(e),
                    Ok(project) => rename(&project.context, symbol_name, new_name),
                }
            },
        }
    }

    /// Previews the rename of the symbol at a position, over all that depends on the project.
    /// `rename` asks the analysis; no file is written.
    pub fn rename_by_position<
        S: Fn() -> Table<FileStamp> + Copy,
        L: Fn(LoadKind, &Table<FileStamp>) -> Result<C, String> + Copy,
        P: Fn(&C, &Vec<String>) -> Result<(), String>,
        R,
        Q: Fn(&C, &str, u32, u32, &str, &str) -> Result<R, String>,
    >(
        &mut self,
        canonical: &str,
        file_path: &str,
        line: u32,
        column: u32,
        symbol_name: &str,
        new_name: &str,
        stamp: S,
        load: L,
        patch: P,
        rename: Q,
    ) -> (r: Result<R, String>)
        requires
            old(self).wf(),
            old(self)@.clock < u64::MAX - 1,
            call_requires(stamp, ()),
            forall|stamps: Table<FileStamp>| #[trigger]
                call_ensures(stamp, (), stamps) ==> stamps.wf(),
            forall|stamps: &Table<FileStamp>| #[trigger]
                call_requires(load, (LoadKind::Full, stamps)),
            forall|context: &C, files: &Vec<String>| #[trigger]
                call_requires(patch, (context, files)),
            forall|context: &C| #[trigger]
                call_requires(rename, (context, file_path, line, column, symbol_name, new_name)),
        ensures
            final(self).wf(),
            final(self)@.clock <= old(self)@.clock + 2,
            exists|ready: Result<usize, String>| #[trigger]
                is_made_ready(
                    old(self)@,
                    canonical@,
                    LoadKind::Full,
                    stamp,
                    load,
                    patch,
                    ready,
                    final(self)@,
                ) && match ready {
                    Err(e) => r == Err::<R, String>(e),
                    Ok(_) => final(self)@.projects.dom().contains(canonical@)
                        && final(self)@.projects[canonical@].load_kind == LoadKind::Full
                        && call_ensures(
                        rename,
                        (&final(self)@.projects[canonical@].context, file_path, line, column, symbol_name, new_name),
                        r,
                    ),
                },
    {
        let ghost before = self@;
        let ready = self.get_or_load_full(canonical, stamp, load, patch);
        match ready {
            Err(e) => Err(e),
            Ok(dropped) => {
                proof {
                    a_ready_project_is_loaded(
                        before,
                        canonical@,
                        LoadKind::Full,
                        stamp,
                        load,
                        patch,
                        ready,
                        self@,
                    );
                }
                match self.loaded(canonical) {
                    Err(e) => Err(e),
                    Ok(project) => rename(&project.context, file_path, line, column, symbol_name, new_name),
                }
            },
        }
    }
}

/// A project is served as it is only where its tree has exactly the stamps that it was
/// loaded or last refreshed with; it is loaded again for its structure only where files
/// came or went.
pub proof fn only_an_unchanged_tree_is_served(
    s: Staleness,
    old_stamps: Map<Seq<char>, FileStamp>,
    new_stamps: Map<Seq<char>, FileStamp>,
)
    requires
        is_staleness(s, old_stamps, new_stamps),
    ensures
        s is Fresh <==> old_stamps == new_stamps,
        s is StructureChanged <==> old_stamps.dom() != new_stamps.dom(),
{
    if let Staleness::Edited(files) = s {
        assert(texts(files@).to_set().contains(texts(files@)[0]));
    }
}

/// Where a project could not be made ready, nothing has changed: no other was dropped
/// for it, and what was loaded before still is.
pub proof fn a_failed_query_changes_nothing<
    C,
    S: Fn() -> Table<FileStamp>,
    L: Fn(LoadKind, &Table<FileStamp>) -> Result<C, String>,
    P: Fn(&C, &Vec<String>) -> Result<(), String>,
>(
    before: ServiceState<C>,
    path: Seq<char>,
    kind: LoadKind,
    stamp: S,
    load: L,
    patch: P,
    r: Result<usize, String>,
    after: ServiceState<C>,
)
    requires
        is_made_ready(before, path, kind, stamp, load, patch, r, after),
        r is Err,
    ensures
        after == before,
{
}

/// A project that was made ready is loaded, and with its dependencies where they were
/// asked for. Its tick is the last one.
pub proof fn a_ready_project_is_loaded<
    C,
    S: Fn() -> Table<FileStamp>,
    L: Fn(LoadKind, &Table<FileStamp>) -> Result<C, String>,
    P: Fn(&C, &Vec<String>) -> Result<(), String>,
>(
    before: ServiceState<C>,
    path: Seq<char>,
    kind: LoadKind,
    stamp: S,
    load: L,
    patch: P,
    r: Result<usize, String>,
    after: ServiceState<C>,
)
    requires
        is_made_ready(before, path, kind, stamp, load, patch, r, after),
        before.clock < u64::MAX - 1,
        r is Ok,
    ensures
        after.projects.dom().contains(path),
        kind == LoadKind::Full ==> after.projects[path].load_kind == LoadKind::Full,
        after.projects[path].last_used == after.clock,
{
    let (outcome, loaded) = choose|outcome: Result<(), String>, loaded: ServiceState<C>| #[trigger]
        is_asked(loaded, path, outcome, r, after) && if needs_load(before, path, kind) {
            is_load(before, path, kind, stamp, load, outcome, loaded)
        } else {
            is_refresh(before, path, kind, stamp, load, patch, outcome, loaded)
        };
    let now = touched(loaded.projects, path, (loaded.clock + 1) as u64);
    assert(loaded.projects.dom().contains(path));
    assert(now.dom().contains(path));
    assert(after.projects[path] == now[path]);
}

/// A project that was made ready is the one on the disk. Either it was loaded now, for
/// this kind, and holds what the load gave and the stamps that the tree was given before
/// it; or it was there, with all that is asked for, and has the very files that the tree
/// has now: then it holds the stamps of the tree, and of the files whose stamps differ,
/// and of no others, it has taken the new text. So where a file came or went, or the
/// edits were not taken, it was loaded.
pub proof fn a_ready_project_is_current<
    C,
    S: Fn() -> Table<FileStamp>,
    L: Fn(LoadKind, &Table<FileStamp>) -> Result<C, String>,
    P: Fn(&C, &Vec<String>) -> Result<(), String>,
>(
    before: ServiceState<C>,
    path: Seq<char>,
    kind: LoadKind,
    stamp: S,
    load: L,
    patch: P,
    r: Result<usize, String>,
    after: ServiceState<C>,
)
    requires
        is_made_ready(before, path, kind, stamp, load, patch, r, after),
        before.clock < u64::MAX - 1,
        r is Ok,
    ensures
        after.projects.dom().contains(path),
        exists|stamps: Table<FileStamp>| #[trigger]
            call_ensures(stamp, (), stamps) && after.projects[path].stamps@ == stamps@ && ({
                ||| exists|loaded: Result<C, String>| #[trigger]
                    call_ensures(load, (kind, &stamps), loaded) && loaded == Ok::<C, String>(
                        after.projects[path].context,
                    ) && after.projects[path].load_kind == kind
                ||| {
                    let was = before.projects[path];
                    &&& before.projects.dom().contains(path)
                    &&& !(kind is Full && was.load_kind is Fast)
                    &&& was.stamps@.dom() == stamps@.dom()
                    &&& after.projects[path].context == was.context
                    &&& after.projects[path].load_kind == was.load_kind
                    &&& was.stamps@ != stamps@ ==> exists|
                        files: Vec<String>,
                        patched: Result<(), String>,
                    | #[trigger]
                        call_ensures(patch, (&was.context, &files), patched) && patched is Ok
                            && forall|f: Seq<char>| #[trigger]
                            texts(files@).contains(f) <==> stamps@.dom().contains(f)
                                && was.stamps@[f] != stamps@[f]
                }
            }),
{
    let (outcome, loaded) = choose|outcome: Result<(), String>, loaded: ServiceState<C>| #[trigger]
        is_asked(loaded, path, outcome, r, after) && if needs_load(before, path, kind) {
            is_load(before, path, kind, stamp, load, outcome, loaded)
        } else {
            is_refresh(before, path, kind, stamp, load, patch, outcome, loaded)
        };
    a_ready_project_is_loaded(before, path, kind, stamp, load, patch, r, after);
    let now = touched(loaded.projects, path, (loaded.clock + 1) as u64);
    assert(outcome is Ok);
    assert(loaded.projects.dom().contains(path));
    assert(now.dom().contains(path));
    assert(after.projects[path] == now[path]);
    if !needs_load(before, path, kind) {
        let (current, s) = choose|current: Table<FileStamp>, s: Staleness| #[trigger]
            call_ensures(stamp, (), current) && #[trigger] is_staleness(
                s,
                before.projects[path].stamps@,
                current@,
            ) && is_refresh_for(
                before,
                path,
                kind,
                s,
                current,
                stamp,
                load,
                patch,
                outcome,
                loaded,
            );
        only_an_unchanged_tree_is_served(s, before.projects[path].stamps@, current@);
        match s {
            Staleness::Fresh => {
                assert(call_ensures(stamp, (), current));
            },
            Staleness::StructureChanged => {},
            Staleness::Edited(files) => {
                assert forall|f: Seq<char>| #[trigger] texts(files@).contains(f) <==> current@.dom().contains(
                    f,
                ) && before.projects[path].stamps@[f] != current@[f] by {
                    assert(texts(files@).to_set().contains(f) == texts(files@).contains(f));
                }
            },
        }
    }
}

/// What a query leaves of the other projects. Those that stay are as they were, and none
/// comes in. None is dropped where the capacity is zero, or holds the asked one with all
/// the others; else as many stay as the capacity says, and each that went was last asked
/// before each of the others that stayed.
pub proof fn a_query_drops_only_the_least_recently_used<
    C,
    S: Fn() -> Table<FileStamp>,
    L: Fn(LoadKind, &Table<FileStamp>) -> Result<C, String>,
    P: Fn(&C, &Vec<String>) -> Result<(), String>,
>(
    before: ServiceState<C>,
    path: Seq<char>,
    kind: LoadKind,
    stamp: S,
    load: L,
    patch: P,
    r: Result<usize, String>,
    after: ServiceState<C>,
)
    requires
        is_made_ready(before, path, kind, stamp, load, patch, r, after),
        before.clock < u64::MAX - 1,
        before.projects.dom().finite(),
        r is Ok,
    ensures
        after.max_projects == before.max_projects,
        r == Ok::<usize, String>(
            (before.projects.dom().insert(path).len() - after.projects.dom().len()) as usize,
        ),
        forall|q: Seq<char>| #[trigger]
            after.projects.dom().contains(q) && q != path ==> before.projects.dom().contains(q)
                && after.projects[q] == before.projects[q],
        before.max_projects == 0 || before.projects.dom().insert(path).len() <= before.max_projects
            ==> after.projects.dom() == before.projects.dom().insert(path),
        before.max_projects > 0 && before.projects.dom().insert(path).len() > before.max_projects
            ==> after.projects.dom().len() == before.max_projects,
        forall|gone: Seq<char>, kept: Seq<char>|
            #![trigger before.projects.dom().contains(gone), after.projects.dom().contains(kept)]
            before.projects.dom().contains(gone) && gone != path
                && !after.projects.dom().contains(gone) && after.projects.dom().contains(kept)
                && kept != path ==> before.projects[gone].last_used
                < before.projects[kept].last_used,
{
    let (outcome, loaded) = choose|outcome: Result<(), String>, loaded: ServiceState<C>| #[trigger]
        is_asked(loaded, path, outcome, r, after) && if needs_load(before, path, kind) {
            is_load(before, path, kind, stamp, load, outcome, loaded)
        } else {
            is_refresh(before, path, kind, stamp, load, patch, outcome, loaded)
        };
    let now = touched(loaded.projects, path, (loaded.clock + 1) as u64);
    assert(outcome is Ok);
    assert(loaded.projects.dom() =~= before.projects.dom().insert(path));
    assert(now.dom() =~= loaded.projects.dom());
    assert forall|q: Seq<char>| #[trigger] now.dom().contains(q) && q != path implies now[q]
        == before.projects[q] by {}
    assert forall|q: Seq<char>| #[trigger] after.projects.dom().contains(q) implies now.dom().contains(
        q,
    ) && after.projects[q] == now[q] by {
        assert(now.dom().contains(q));
    }
    assert(after.projects.dom().subset_of(now.dom()));
    if before.max_projects == 0 || now.dom().len() <= before.max_projects {
        vstd::set_lib::lemma_subset_equality(after.projects.dom(), now.dom());
    }
    assert forall|gone: Seq<char>, kept: Seq<char>|
        #![trigger before.projects.dom().contains(gone), after.projects.dom().contains(kept)]
        before.projects.dom().contains(gone) && gone != path && !after.projects.dom().contains(
            gone,
        ) && after.projects.dom().contains(kept) && kept
            != path implies before.projects[gone].last_used < before.projects[kept].last_used by {
        assert(now.dom().contains(gone));
        assert(now[gone].last_used < now[kept].last_used);
    }
}

/// The project that is asked is never dropped, and the capacity holds afterwards.
pub proof fn the_asked_project_stays<C>(
    before: Map<Seq<char>, ProjectContext<C>>,
    after: Map<Seq<char>, ProjectContext<C>>,
    max: usize,
    path: Seq<char>,
)
    requires
        is_evicted(before, after, max, path),
        before.dom().contains(path),
    ensures
        after.dom().contains(path),
        max > 0 ==> after.dom().len() <= max,
        max == 0 ==> after.dom().len() == before.dom().len(),
{
}

/// Where one project has to go to make room, it is the one that was asked longest
/// ago, whenever it was loaded.
pub proof fn the_least_recently_used_goes<C>(
    before: Map<Seq<char>, ProjectContext<C>>,
    after: Map<Seq<char>, ProjectContext<C>>,
    max: usize,
    keep: Seq<char>,
    oldest: Seq<char>,
)
    requires
        is_evicted(before, after, max, keep),
        before.dom().finite(),
        max > 0,
        before.dom().len() == max + 1,
        before.dom().contains(oldest),
        oldest != keep,
        forall|p: Seq<char>| #[trigger]
            before.dom().contains(p) && p != oldest && p != keep ==> before[oldest].last_used
                < before[p].last_used,
    ensures
        after.dom() == before.dom().remove(oldest),
{
    let gone_set = before.dom().difference(after.dom());
    assert(after.dom().subset_of(before.dom()));
    vstd::set_lib::lemma_len_subset(after.dom(), before.dom());
    if after.dom().contains(oldest) {
        assert(exists|g: Seq<char>| before.dom().contains(g) && !after.dom().contains(g)) by {
            if forall|g: Seq<char>| before.dom().contains(g) ==> after.dom().contains(g) {
                assert(after.dom() =~= before.dom());
            }
        }
        let g = choose|g: Seq<char>| before.dom().contains(g) && !after.dom().contains(g);
        assert(before[g].last_used < before[oldest].last_used);
        assert(g != keep);
    }
    let rest = before.dom().remove(oldest);
    assert(after.dom().subset_of(rest));
    vstd::set_lib::lemma_subset_equality(after.dom(), rest);
}

/// What a loaded analysis knows of a file.
#[derive(Debug, Clone, Copy, PartialEq, Eq, Structural)]
pub enum FileLookup {
    /// Nothing.
    Missing,
    /// That it is left out.
    Excluded,
    /// Its number.
    Known(u32),
}

/// A file that was edited: its path, what the analysis knows of it, and its new
/// text where it can be read.
pub struct EditedFile {
    /// Where it is.
    pub path: String,
    /// What the analysis knows of it.
    pub lookup: FileLookup,
    /// Its new text.
    pub text: Option<String>,
}

/// The new text of a file of the analysis.
pub struct FileUpdate {
    /// The number of the file.
    pub file: u32,
    /// Its new text.
    pub text: String,
}

/// Why a file cannot be patched, or nothing where it can.
pub open spec fn patch_error(file: EditedFile) -> Option<Seq<char>> {
    match file.lookup {
        FileLookup::Missing => Some(file.path@ + " is not part of the loaded analysis"@),
        FileLookup::Excluded => Some(file.path@ + " is excluded from the loaded analysis"@),
        FileLookup::Known(_) => match file.text {
            None => Some("reading "@ + file.path@),
            Some(_) => None,
        },
    }
}

/// The updates of edited files, all of them or none: the first file that cannot be
/// patched is the error, and nothing is applied then.
pub fn apply_edits(files: Vec<EditedFile>) -> (r: Result<Vec<FileUpdate>, String>)
    ensures
        r is Ok <==> forall|i: int| 0 <= i < files@.len() ==> patch_error(#[trigger] files@[i]) is None,
        r matches Ok(updates) ==> {
            &&& updates@.len() == files@.len()
            &&& forall|i: int|
                0 <= i < files@.len() ==> (#[trigger] updates@[i]).file == files@[i].lookup->Known_0
                    && updates@[i].text@ == files@[i].text->Some_0@
        },
        r matches Err(e) ==> exists|i: int|
            0 <= i < files@.len() && #[trigger] patch_error(files@[i]) == Some(e@) && forall|k: int|
                0 <= k < i ==> patch_error(#[trigger] files@[k]) is None,
{
    let mut updates: Vec<FileUpdate> = Vec::new();
    let mut i: usize = 0;
    while i < files.len()
        invariant
            i <= files@.len(),
            updates@.len() == i,
            forall|k: int| 0 <= k < i ==> patch_error(#[trigger] files@[k]) is None,
            forall|k: int|
                0 <= k < i ==> (#[trigger] updates@[k]).file == files@[k].lookup->Known_0
                    && updates@[k].text@ == files@[k].text->Some_0@,
        decreases files@.len() - i,
    {
        let file = &files[i];
        match file.lookup {
            FileLookup::Missing => {
                let mut e = file.path.clone();
                e.append(" is not part of the loaded analysis");
                assert(patch_error(files@[i as int]) == Some(e@));
                return Err(e);
            },
            FileLookup::Excluded => {
                let mut e = file.path.clone();
                e.append(" is excluded from the loaded analysis");
                assert(patch_error(files@[i as int]) == Some(e@));
                return Err(e);
            },
            FileLookup::Known(number) => match &file.text {
                None => {
                    let mut e = "reading ".to_owned();
                    e.append(file.path.as_str());
                    assert(patch_error(files@[i as int]) == Some(e@));
                    return Err(e);
                },
                Some(text) => {
                    updates.push(FileUpdate { file: number, text: text.clone() });
                },
            },
        }
        i += 1;
    }
    Ok(updates)
}

/// A file with what the file system says of it, as far as it can be asked.
pub struct StampedFile {
    /// Its path.
    pub path: String,
    /// What the file system says.
    pub stamp: Option<FileStamp>,
}

/// The stamps of the first `n` files, by path. A file that cannot be asked for has
/// none.
pub open spec fn stamps_of_first(files: Seq<StampedFile>, n: nat) -> Map<Seq<char>, FileStamp>
    decreases n,
{
    if n == 0 || n > files.len() {
        Map::empty()
    } else {
        let before = stamps_of_first(files, (n - 1) as nat);
        match files[n - 1].stamp {
            Some(stamp) => before.insert(files[n - 1].path@, stamp),
            None => before,
        }
    }
}

/// The stamps of the files of a working tree.
pub fn collect_stamps(files: &Vec<StampedFile>) -> (stamps: Table<FileStamp>)
    ensures
        stamps.wf(),
        stamps@ == stamps_of_first(files@, files@.len()),
{
    let mut stamps: Table<FileStamp> = Table::new();
    let mut i: usize = 0;
    while i < files.len()
        invariant
            i <= files@.len(),
            stamps.wf(),
            stamps@ == stamps_of_first(files@, i as nat),
        decreases files@.len() - i,
    {
        match files[i].stamp {
            Some(stamp) => {
                stamps.insert(files[i].path.clone(), stamp);
            },
            None => {},
        }
        i += 1;
    }
    stamps
}

impl<C> SemanticService<C> {
    /// The project that a question is put to. It has been loaded before it is asked for.
    pub fn loaded(&self, canonical: &str) -> (r: Result<&ProjectContext<C>, String>)
        requires
            self.wf(),
        ensures
            match r {
                Ok(p) => self@.projects.dom().contains(canonical@) && *p
                    == self@.projects[canonical@],
                Err(e) => !self@.projects.dom().contains(canonical@) && e@ == "Project not loaded"@,
            },
    {
        match self.get(canonical) {
            Some(p) => Ok(p),
            None => Err("Project not loaded".to_owned()),
        }
    }
}

/// As many projects stay loaded as the variable says, zero for all, with white space
/// around the number as without; where it is not set, two.
pub proof fn as_many_projects_stay_as_said(left: Seq<char>, n: usize, right: Seq<char>)
    requires
        forall|i: int| 0 <= i < left.len() ==> is_space(#[trigger] left[i]),
        forall|i: int| 0 <= i < right.len() ==> is_space(#[trigger] right[i]),
    ensures
        max_projects_of(Some(left + decimal(n as nat) + right)) == n,
        max_projects_of(None) == 2,
{
    a_number_is_read_between_white_space(left, n as u64, right);
}

/// What is no number asks for nothing: two projects then stay.
pub proof fn what_is_no_number_leaves_two_projects(value: Option<&str>, n: usize)
    requires
        call_ensures(max_projects_from_env, (value,), n),
        value is Some ==> parsed(trimmed(value->Some_0@)) is Err,
    ensures
        n == 2,
{
}

} // verus!

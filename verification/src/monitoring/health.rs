//! The health of an index: its search engines, its snapshot, and whether it is
//! complete and current.
//!
//! The answers of the engines, of the file system and of the stores come from
//! outside. Here stands what is reported for each answer.

use vstd::prelude::*;

use crate::metadata_cache::{a_salt_lists_its_own_files, paths_for_salt, salted_paths};
use crate::table::{
    ascending, ascending_is_determined, difference, paired_len, set_of, TextSet,
};
use crate::text::{decimal, number, texts};

verus! {

/// The levels of health.
#[derive(Debug, Clone, Copy, PartialEq, Eq, Structural)]
pub enum Status {
    /// Everything works.
    Healthy,
    /// Something is amiss, but answers are given.
    Degraded,
    /// What is critical fails.
    Unhealthy,
}

/// The health of one component.
#[derive(Debug, Clone)]
pub struct ComponentHealth {
    /// The level.
    pub status: Status,
    /// What was found.
    pub message: String,
    /// How many milliseconds the probe took.
    pub latency_ms: Option<u64>,
}

/// The state of a component's report.
pub struct ComponentReport {
    /// The level.
    pub status: Status,
    /// What was found.
    pub message: Seq<char>,
    /// How many milliseconds the probe took.
    pub latency_ms: Option<u64>,
}

impl View for ComponentHealth {
    type V = ComponentReport;

    open spec fn view(&self) -> ComponentReport {
        ComponentReport {
            status: self.status,
            message: self.message@,
            latency_ms: self.latency_ms,
        }
    }
}

impl ComponentHealth {
    /// A component that works.
    pub fn healthy(message: &str, latency_ms: Option<u64>) -> (h: Self)
        ensures
            h@ == (ComponentReport { status: Status::Healthy, message: message@, latency_ms }),
    {
        ComponentHealth { status: Status::Healthy, message: message.to_owned(), latency_ms }
    }

    /// A component that works in part.
    pub fn degraded(message: &str) -> (h: Self)
        ensures
            h@ == (ComponentReport {
                status: Status::Degraded,
                message: message@,
                latency_ms: None,
            }),
    {
        ComponentHealth { status: Status::Degraded, message: message.to_owned(), latency_ms: None }
    }

    /// A component that fails.
    pub fn unhealthy(message: &str) -> (h: Self)
        ensures
            h@ == (ComponentReport {
                status: Status::Unhealthy,
                message: message@,
                latency_ms: None,
            }),
    {
        ComponentHealth { status: Status::Unhealthy, message: message.to_owned(), latency_ms: None }
    }
}

/// Whether the index still describes the code in the working tree.
#[derive(Debug, Clone)]
pub struct FreshnessHealth {
    /// The level.
    pub status: Status,
    /// What was found.
    pub message: String,
    /// How many files of the tree the snapshot has never seen.
    pub files_added: Option<usize>,
    /// How many files differ from the snapshot in content.
    pub files_modified: Option<usize>,
    /// How many files of the snapshot are gone from the tree.
    pub files_deleted: Option<usize>,
    /// A few of these files, each with what happened to it.
    pub examples: Vec<String>,
}

/// The state of a freshness report.
#[verifier::ext_equal]
pub struct FreshnessReport {
    /// The level.
    pub status: Status,
    /// What was found.
    pub message: Seq<char>,
    /// How many files of the tree the snapshot has never seen.
    pub files_added: Option<usize>,
    /// How many files differ from the snapshot in content.
    pub files_modified: Option<usize>,
    /// How many files of the snapshot are gone from the tree.
    pub files_deleted: Option<usize>,
    /// A few of these files, each with what happened to it.
    pub examples: Seq<Seq<char>>,
}

impl View for FreshnessHealth {
    type V = FreshnessReport;

    open spec fn view(&self) -> FreshnessReport {
        FreshnessReport {
            status: self.status,
            message: self.message@,
            files_added: self.files_added,
            files_modified: self.files_modified,
            files_deleted: self.files_deleted,
            examples: texts(self.examples@),
        }
    }
}

/// The report of a freshness that was not measured.
pub open spec fn freshness_unknown(message: Seq<char>) -> FreshnessReport {
    FreshnessReport {
        status: Status::Degraded,
        message,
        files_added: None,
        files_modified: None,
        files_deleted: None,
        examples: Seq::empty(),
    }
}

impl FreshnessHealth {
    /// Freshness was not measured. This is degraded and never healthy: not to have
    /// looked is not to have looked and found all well.
    pub fn unknown(message: &str) -> (h: Self)
        ensures
            h@ == freshness_unknown(message@),
    {
        let h = FreshnessHealth {
            status: Status::Degraded,
            message: message.to_owned(),
            files_added: None,
            files_modified: None,
            files_deleted: None,
            examples: Vec::new(),
        };
        assert(h@ =~= freshness_unknown(message@));
        h
    }
}

/// Whether the store holds what the indexer believes it has indexed.
///
/// The verdict compares the files that the cache calls done with the files that
/// have vectors. The number of files in the snapshot is reported and decides
/// nothing: a file without symbols rightly has no vectors.
#[derive(Debug, Clone)]
pub struct CoverageHealth {
    /// The level.
    pub status: Status,
    /// What was found.
    pub message: String,
    /// How many files the snapshot tracks.
    pub files_tracked: Option<usize>,
    /// How many files the cache calls indexed.
    pub files_cached: Option<usize>,
    /// How many files have at least one vector.
    pub files_with_vectors: Option<usize>,
    /// How many files the next run will skip although they have no vectors.
    pub stale_skips: Option<usize>,
    /// A few of these files.
    pub stale_skip_examples: Vec<String>,
}

/// The state of a coverage report.
#[verifier::ext_equal]
pub struct CoverageReport {
    /// The level.
    pub status: Status,
    /// What was found.
    pub message: Seq<char>,
    /// How many files the snapshot tracks.
    pub files_tracked: Option<usize>,
    /// How many files the cache calls indexed.
    pub files_cached: Option<usize>,
    /// How many files have at least one vector.
    pub files_with_vectors: Option<usize>,
    /// How many files the next run will skip although they have no vectors.
    pub stale_skips: Option<usize>,
    /// A few of these files.
    pub stale_skip_examples: Seq<Seq<char>>,
}

impl View for CoverageHealth {
    type V = CoverageReport;

    open spec fn view(&self) -> CoverageReport {
        CoverageReport {
            status: self.status,
            message: self.message@,
            files_tracked: self.files_tracked,
            files_cached: self.files_cached,
            files_with_vectors: self.files_with_vectors,
            stale_skips: self.stale_skips,
            stale_skip_examples: texts(self.stale_skip_examples@),
        }
    }
}

/// The report of a coverage that was not measured.
pub open spec fn coverage_unknown(message: Seq<char>) -> CoverageReport {
    CoverageReport {
        status: Status::Degraded,
        message,
        files_tracked: None,
        files_cached: None,
        files_with_vectors: None,
        stale_skips: None,
        stale_skip_examples: Seq::empty(),
    }
}

impl CoverageHealth {
    /// Coverage was not measured. This is degraded and never healthy.
    pub fn unknown(message: &str) -> (h: Self)
        ensures
            h@ == coverage_unknown(message@),
    {
        let h = CoverageHealth {
            status: Status::Degraded,
            message: message.to_owned(),
            files_tracked: None,
            files_cached: None,
            files_with_vectors: None,
            stale_skips: None,
            stale_skip_examples: Vec::new(),
        };
        assert(h@ =~= coverage_unknown(message@));
        h
    }
}

/// The health of the whole.
#[derive(Debug, Clone)]
pub struct HealthStatus {
    /// The level of the whole.
    pub overall: Status,
    /// The text search.
    pub bm25: ComponentHealth,
    /// The vector search.
    pub vector: ComponentHealth,
    /// The snapshot of the tree.
    pub merkle: ComponentHealth,
    /// Whether the index is complete.
    pub coverage: CoverageHealth,
    /// Whether the index is current.
    pub freshness: FreshnessHealth,
}

/// Where a coverage check stands: what it waits to be told, or what it reports.
pub enum CoverageCheck {
    /// Whether the metadata cache exists.
    FindingCache,
    /// The keys of the metadata cache.
    ReadingCache,
    /// The files that have vectors. It holds the cached files.
    ListingIndexed(TextSet),
    /// The number of files in the snapshot. It holds the cached and the indexed files.
    LoadingSnapshot(TextSet, TextSet),
    /// Nothing: the check is done.
    Reported(CoverageHealth),
}

/// The state of a coverage check.
pub enum CoverageState {
    /// Waits to hear whether the metadata cache exists.
    FindingCache,
    /// Waits for the keys of the metadata cache.
    ReadingCache,
    /// Waits for the files that have vectors.
    ListingIndexed(Set<Seq<char>>),
    /// Waits for the number of files in the snapshot.
    LoadingSnapshot(Set<Seq<char>>, Set<Seq<char>>),
    /// Is done.
    Reported(CoverageReport),
}

impl View for CoverageCheck {
    type V = CoverageState;

    open spec fn view(&self) -> CoverageState {
        match *self {
            CoverageCheck::FindingCache => CoverageState::FindingCache,
            CoverageCheck::ReadingCache => CoverageState::ReadingCache,
            CoverageCheck::ListingIndexed(c) => CoverageState::ListingIndexed(c@.dom()),
            CoverageCheck::LoadingSnapshot(c, i) => CoverageState::LoadingSnapshot(
                c@.dom(),
                i@.dom(),
            ),
            CoverageCheck::Reported(h) => CoverageState::Reported(h@),
        }
    }
}

impl CoverageCheck {
    /// The sets that the check holds are well-formed.
    pub open spec fn wf(&self) -> bool {
        match *self {
            CoverageCheck::ListingIndexed(c) => c.wf(),
            CoverageCheck::LoadingSnapshot(c, i) => c.wf() && i.wf(),
            _ => true,
        }
    }
}

/// The files of a set in the order of their names.
pub open spec fn sorted(files: Set<Seq<char>>) -> Seq<Seq<char>> {
    choose|s: Seq<Seq<char>>| ascending(s) && #[trigger] s.to_set() == files
}

/// The first ten of a sequence, or all where there are fewer.
pub open spec fn first_ten(s: Seq<Seq<char>>) -> Seq<Seq<char>> {
    if s.len() <= 10 {
        s
    } else {
        s.take(10)
    }
}

/// What is said where neither the cache nor the store has anything.
pub const NOTHING_INDEXED: &'static str = "Coverage unknown: nothing is indexed under this profile yet — \
                 neither cache entries nor vectors. Fix: a plain index_codebase run";

/// What is said of a store whose cache has no entries, after the number of its files.
pub const CACHE_LOST: &'static str = " distinct files, but the metadata \
                     cache holds no entries for this profile (cleared, or written before \
                     the cache salt changed), so there is nothing to compare them against. \
                     This is lost bookkeeping, NOT evidence of a damaged index: a \
                     half-finished run would have left cache entries. Fix: a plain \
                     index_codebase run refills the cache for the files it touches; \
                     force_reindex is not indicated by this state";

/// What is said of files that are cached and have no vectors, after their numbers.
pub const INCOMPLETE: &'static str = " files are cached as indexed but have NO vectors — \
                     the next run will skip them as unchanged. Fix: index_codebase with force_reindex: true";

/// What is said of a tree that has changed, after the numbers.
pub const STALE: &'static str = " deleted since the last indexing run — \
                     search and symbol answers still describe the old code. Fix: a plain index_codebase run";

/// What a listing gave: the texts, or the text of the error.
pub open spec fn listing(r: Result<Vec<String>, String>) -> Result<Seq<Seq<char>>, Seq<char>> {
    match r {
        Ok(v) => Ok(texts(v@)),
        Err(e) => Err(e@),
    }
}

/// How a coverage check begins.
pub open spec fn coverage_begun(store_open: bool, cache: Option<(Seq<char>, Seq<char>)>) -> CoverageState {
    if !store_open {
        CoverageState::Reported(
            coverage_unknown(
                "Coverage unknown: vector store not open, nothing to compare against"@,
            ),
        )
    } else if cache is None {
        CoverageState::Reported(
            coverage_unknown(
                "Coverage unknown: no project metadata cache (system-wide check; pass 'directory')"@,
            ),
        )
    } else {
        CoverageState::FindingCache
    }
}

/// How a coverage check goes on when it hears whether the cache exists.
pub open spec fn coverage_found(
    state: CoverageState,
    cache: Option<(Seq<char>, Seq<char>)>,
    exists_there: bool,
) -> CoverageState {
    match (state, cache) {
        (CoverageState::FindingCache, Some((path, _))) => if exists_there {
            CoverageState::ReadingCache
        } else {
            CoverageState::Reported(
                coverage_unknown(
                    "Coverage unknown: metadata cache missing at "@ + path
                        + " (project never indexed?)"@,
                ),
            )
        },
        _ => state,
    }
}

/// How a coverage check goes on with the keys of the cache.
pub open spec fn coverage_read(
    state: CoverageState,
    cache: Option<(Seq<char>, Seq<char>)>,
    keys: Result<Seq<Seq<char>>, Seq<char>>,
) -> CoverageState {
    match (state, cache) {
        (CoverageState::ReadingCache, Some((path, salt))) => match keys {
            Ok(keys) => CoverageState::ListingIndexed(salted_paths(keys, salt)),
            Err(e) => CoverageState::Reported(
                coverage_unknown(
                    "Coverage unknown: cannot read metadata cache at "@ + path + ": "@ + e,
                ),
            ),
        },
        _ => state,
    }
}

/// How a coverage check goes on with the files that have vectors.
pub open spec fn coverage_listed(
    state: CoverageState,
    files: Result<Seq<Seq<char>>, Seq<char>>,
) -> CoverageState {
    match state {
        CoverageState::ListingIndexed(cached) => match files {
            Ok(files) => CoverageState::LoadingSnapshot(cached, files.to_set()),
            Err(e) => CoverageState::Reported(
                coverage_unknown(
                    "Coverage unknown: cannot list indexed files in vector store: "@ + e,
                ),
            ),
        },
        _ => state,
    }
}

/// How a coverage check ends.
pub open spec fn coverage_concluded(state: CoverageState, in_snapshot: Option<usize>) -> CoverageState {
    match state {
        CoverageState::LoadingSnapshot(cached, indexed) => CoverageState::Reported(
            coverage_verdict(cached, indexed, in_snapshot),
        ),
        _ => state,
    }
}

/// The verdict on the files that the cache calls done and those that have vectors.
///
/// An empty cache is no pass: that all of no files have vectors says nothing.
pub open spec fn coverage_verdict(
    cached: Set<Seq<char>>,
    indexed: Set<Seq<char>>,
    in_snapshot: Option<usize>,
) -> CoverageReport {
    let stale = cached.difference(indexed);
    if cached.len() == 0 {
        CoverageReport {
            status: Status::Degraded,
            message: if indexed.len() == 0 {
                NOTHING_INDEXED@
            } else {
                "Coverage unknown: store holds "@ + decimal(indexed.len()) + CACHE_LOST@
            },
            files_tracked: in_snapshot,
            files_cached: Some(0),
            files_with_vectors: Some(indexed.len() as usize),
            stale_skips: None,
            stale_skip_examples: Seq::empty(),
        }
    } else {
        CoverageReport {
            status: if stale.len() == 0 {
                Status::Healthy
            } else {
                Status::Degraded
            },
            message: if stale.len() == 0 {
                "Coverage verified: all "@ + decimal(cached.len()) + " cached files have vectors ("@
                    + decimal(indexed.len()) + " distinct files in store)"@
            } else {
                "Index incomplete: "@ + decimal(stale.len()) + " of "@ + decimal(cached.len())
                    + INCOMPLETE@
            },
            files_tracked: in_snapshot,
            files_cached: Some(cached.len() as usize),
            files_with_vectors: Some(indexed.len() as usize),
            stale_skips: Some(stale.len() as usize),
            stale_skip_examples: first_ten(sorted(stale)),
        }
    }
}

fn first_strings(strings: &Vec<String>) -> (out: Vec<String>)
    ensures
        texts(out@) == first_ten(texts(strings@)),
{
    let mut out: Vec<String> = Vec::new();
    let mut i: usize = 0;
    while i < strings.len() && i < 10
        invariant
            i <= strings@.len(),
            i <= 10,
            out@.len() == i,
            texts(out@) == texts(strings@).take(i as int),
        decreases strings@.len() - i,
    {
        out.push(strings[i].clone());
        i += 1;
        assert(texts(out@) =~= texts(strings@).take(i as int));
    }
    proof {
        if strings@.len() <= 10 {
            assert(texts(strings@).take(i as int) =~= texts(strings@));
        }
    }
    out
}

/// The verdict on the files that the cache calls done and those that have vectors.
pub fn judge_coverage(cached: &TextSet, indexed: &TextSet, in_snapshot: Option<usize>) -> (h:
    CoverageHealth)
    requires
        cached.wf(),
        indexed.wf(),
    ensures
        h@ == coverage_verdict(cached@.dom(), indexed@.dom(), in_snapshot),
{
    let files_cached: usize = cached.len();
    let files_with_vectors: usize = indexed.len();
    let stale = difference(cached, indexed);
    let ghost expected = coverage_verdict(cached@.dom(), indexed@.dom(), in_snapshot);
    proof {
        paired_len(cached.keys(), cached.values());
        paired_len(indexed.keys(), indexed.values());
    }
    if files_cached == 0 {
        let message = if files_with_vectors == 0 {
            NOTHING_INDEXED.to_owned()
        } else {
            let mut m = "Coverage unknown: store holds ".to_owned();
            m.append(number(files_with_vectors as u128).as_str());
            m.append(CACHE_LOST);
            m
        };
        let h = CoverageHealth {
            status: Status::Degraded,
            message,
            files_tracked: in_snapshot,
            files_cached: Some(0),
            files_with_vectors: Some(files_with_vectors),
            stale_skips: None,
            stale_skip_examples: Vec::new(),
        };
        assert(h@ =~= expected);
        return h;
    }
    let stale_skips: usize = stale.len();
    proof {
        assert(texts(stale@).len() == stale_skips);
        let s = sorted(cached@.dom().difference(indexed@.dom()));
        assert(ascending(s) && s.to_set() == cached@.dom().difference(indexed@.dom()));
        ascending_is_determined(s, texts(stale@));
    }
    let (status, message) = if stale_skips == 0 {
        let mut m = "Coverage verified: all ".to_owned();
        m.append(number(files_cached as u128).as_str());
        m.append(" cached files have vectors (");
        m.append(number(files_with_vectors as u128).as_str());
        m.append(" distinct files in store)");
        (Status::Healthy, m)
    } else {
        let mut m = "Index incomplete: ".to_owned();
        m.append(number(stale_skips as u128).as_str());
        m.append(" of ");
        m.append(number(files_cached as u128).as_str());
        m.append(INCOMPLETE);
        (Status::Degraded, m)
    };
    let h = CoverageHealth {
        status,
        message,
        files_tracked: in_snapshot,
        files_cached: Some(files_cached),
        files_with_vectors: Some(files_with_vectors),
        stale_skips: Some(stale_skips),
        stale_skip_examples: first_strings(&stale),
    };
    assert(h@ =~= expected);
    h
}

/// The health monitor of a search system. `B` is the text search and `V` the
/// vector store, each where it is configured.
pub struct HealthMonitor<B, V> {
    bm25: Option<B>,
    vector_store: Option<V>,
    merkle_path: String,
    metadata_cache: Option<(String, String)>,
    project_root: Option<String>,
}

/// What a monitor is pointed at.
pub struct Targets {
    /// Whether there is a text search.
    pub bm25: bool,
    /// Whether there is a vector store.
    pub vector_store: bool,
    /// Where the snapshot is.
    pub merkle_path: Seq<char>,
    /// Where the metadata cache is, and the salt of its keys.
    pub metadata_cache: Option<(Seq<char>, Seq<char>)>,
    /// Where the working tree is.
    pub project_root: Option<Seq<char>>,
}

impl<B, V> View for HealthMonitor<B, V> {
    type V = Targets;

    closed spec fn view(&self) -> Targets {
        Targets {
            bm25: self.bm25 is Some,
            vector_store: self.vector_store is Some,
            merkle_path: self.merkle_path@,
            metadata_cache: match self.metadata_cache {
                Some((p, s)) => Some((p@, s@)),
                None => None,
            },
            project_root: match self.project_root {
                Some(r) => Some(r@),
                None => None,
            },
        }
    }
}

impl<B, V> HealthMonitor<B, V> {
    /// The text search, where it is configured.
    pub closed spec fn text_search(&self) -> Option<B> {
        self.bm25
    }

    /// The vector store, where it is configured.
    pub closed spec fn store(&self) -> Option<V> {
        self.vector_store
    }

    /// A monitor of these engines and this snapshot.
    pub fn new(bm25: Option<B>, vector_store: Option<V>, merkle_path: String) -> (m: Self)
        ensures
            m.text_search() == bm25,
            m.store() == vector_store,
            m@ == (Targets {
                bm25: bm25 is Some,
                vector_store: vector_store is Some,
                merkle_path: merkle_path@,
                metadata_cache: None,
                project_root: None,
            }),
    {
        HealthMonitor { bm25, vector_store, merkle_path, metadata_cache: None, project_root: None }
    }

    /// Points the monitor at the working tree that the snapshot was made of.
    pub fn with_project_root(self, root: String) -> (m: Self)
        ensures
            m.text_search() == self.text_search(),
            m.store() == self.store(),
            m@ == (Targets { project_root: Some(root@), ..self@ }),
    {
        HealthMonitor {
            bm25: self.bm25,
            vector_store: self.vector_store,
            merkle_path: self.merkle_path,
            metadata_cache: self.metadata_cache,
            project_root: Some(root),
        }
    }

    /// Points the monitor at the metadata cache, whose keys the indexer has salted
    /// with `cache_key_salt`.
    pub fn with_metadata_cache(self, cache_path: String, cache_key_salt: String) -> (m: Self)
        ensures
            m.text_search() == self.text_search(),
            m.store() == self.store(),
            m@ == (Targets { metadata_cache: Some((cache_path@, cache_key_salt@)), ..self@ }),
    {
        HealthMonitor {
            bm25: self.bm25,
            vector_store: self.vector_store,
            merkle_path: self.merkle_path,
            metadata_cache: Some((cache_path, cache_key_salt)),
            project_root: self.project_root,
        }
    }

    /// The text search, where it is configured.
    pub fn bm25(&self) -> (b: Option<&B>)
        ensures
            b is Some <==> self@.bm25,
            match b {
                Some(engine) => self.text_search() == Some(*engine),
                None => self.text_search() is None,
            },
    {
        self.bm25.as_ref()
    }

    /// The vector store, where it is configured.
    pub fn vector_store(&self) -> (v: Option<&V>)
        ensures
            v is Some <==> self@.vector_store,
            match v {
                Some(store) => self.store() == Some(*store),
                None => self.store() is None,
            },
    {
        self.vector_store.as_ref()
    }

    /// Where the snapshot is.
    pub fn merkle_path(&self) -> (p: &String)
        ensures
            p@ == self@.merkle_path,
    {
        &self.merkle_path
    }

    /// Where the metadata cache is.
    pub fn cache_path(&self) -> (p: Option<&String>)
        ensures
            p is Some <==> self@.metadata_cache is Some,
            p matches Some(path) ==> path@ == self@.metadata_cache->Some_0.0,
    {
        match &self.metadata_cache {
            Some((path, _)) => Some(path),
            None => None,
        }
    }

    /// Where the working tree is.
    pub fn project_root(&self) -> (p: Option<&String>)
        ensures
            p is Some <==> self@.project_root is Some,
            p matches Some(path) ==> path@ == self@.project_root->Some_0,
    {
        self.project_root.as_ref()
    }

    /// The text search by the outcome of a probe: its milliseconds, or its error.
    pub fn check_bm25(&self, outcome: Result<u64, String>) -> (h: ComponentHealth)
        ensures
            h@ == (if !self@.bm25 {
                ComponentReport {
                    status: Status::Degraded,
                    message: "BM25 search not configured"@,
                    latency_ms: None,
                }
            } else {
                match outcome {
                    Ok(ms) => ComponentReport {
                        status: Status::Healthy,
                        message: "BM25 search operational"@,
                        latency_ms: Some(ms),
                    },
                    Err(e) => ComponentReport {
                        status: Status::Unhealthy,
                        message: "BM25 search error: "@ + e@,
                        latency_ms: None,
                    },
                }
            }),
    {
        if self.bm25.is_none() {
            return ComponentHealth::degraded("BM25 search not configured");
        }
        match outcome {
            Ok(ms) => ComponentHealth::healthy("BM25 search operational", Some(ms)),
            Err(e) => {
                let mut m = "BM25 search error: ".to_owned();
                m.append(e.as_str());
                ComponentHealth::unhealthy(m.as_str())
            },
        }
    }

    /// The vector store by the outcome of a probe: its number of vectors and its
    /// milliseconds, or its error.
    pub fn check_vector(&self, outcome: Result<(u64, u64), String>) -> (h: ComponentHealth)
        ensures
            h@ == (if !self@.vector_store {
                ComponentReport {
                    status: Status::Degraded,
                    message: "Vector store not configured"@,
                    latency_ms: None,
                }
            } else {
                match outcome {
                    Ok((count, ms)) => ComponentReport {
                        status: Status::Healthy,
                        message: "Vector store operational ("@ + decimal(count as nat)
                            + " vectors)"@,
                        latency_ms: Some(ms),
                    },
                    Err(e) => ComponentReport {
                        status: Status::Unhealthy,
                        message: "Vector store error: "@ + e@,
                        latency_ms: None,
                    },
                }
            }),
    {
        if self.vector_store.is_none() {
            return ComponentHealth::degraded("Vector store not configured");
        }
        match outcome {
            Ok((count, ms)) => {
                let mut m = "Vector store operational (".to_owned();
                m.append(number(count as u128).as_str());
                m.append(" vectors)");
                ComponentHealth::healthy(m.as_str(), Some(ms))
            },
            Err(e) => {
                let mut m = "Vector store error: ".to_owned();
                m.append(e.as_str());
                ComponentHealth::unhealthy(m.as_str())
            },
        }
    }

    /// The snapshot by what the file system says of it: nothing where there is
    /// none, else its size in bytes or the error.
    pub fn check_merkle(&self, file: Option<Result<u64, String>>) -> (h: ComponentHealth)
        ensures
            h@ == (match file {
                None => ComponentReport {
                    status: Status::Degraded,
                    message: "Merkle snapshot not found (first index pending)"@,
                    latency_ms: None,
                },
                Some(Ok(size)) => ComponentReport {
                    status: Status::Healthy,
                    message: "Merkle snapshot exists ("@ + decimal(size as nat) + " bytes)"@,
                    latency_ms: None,
                },
                Some(Err(e)) => ComponentReport {
                    status: Status::Degraded,
                    message: "Merkle snapshot exists but unreadable: "@ + e@,
                    latency_ms: None,
                },
            }),
    {
        match file {
            None => ComponentHealth::degraded("Merkle snapshot not found (first index pending)"),
            Some(Ok(size)) => {
                let mut m = "Merkle snapshot exists (".to_owned();
                m.append(number(size as u128).as_str());
                m.append(" bytes)");
                ComponentHealth::healthy(m.as_str(), None)
            },
            Some(Err(e)) => {
                let mut m = "Merkle snapshot exists but unreadable: ".to_owned();
                m.append(e.as_str());
                ComponentHealth::degraded(m.as_str())
            },
        }
    }

    /// Begins a coverage check.
    pub fn begin_coverage(&self) -> (check: CoverageCheck)
        ensures
            check.wf(),
            check@ == coverage_begun(self@.vector_store, self@.metadata_cache),
    {
        if self.vector_store.is_none() {
            CoverageCheck::Reported(
                CoverageHealth::unknown(
                    "Coverage unknown: vector store not open, nothing to compare against",
                ),
            )
        } else if self.metadata_cache.is_none() {
            CoverageCheck::Reported(
                CoverageHealth::unknown(
                    "Coverage unknown: no project metadata cache (system-wide check; pass 'directory')",
                ),
            )
        } else {
            CoverageCheck::FindingCache
        }
    }

    /// Tells a coverage check whether the metadata cache exists.
    pub fn cache_found(&self, check: CoverageCheck, exists_there: bool) -> (next: CoverageCheck)
        requires
            check.wf(),
        ensures
            next.wf(),
            next@ == coverage_found(check@, self@.metadata_cache, exists_there),
    {
        match (check, &self.metadata_cache) {
            (CoverageCheck::FindingCache, Some((path, _))) => {
                if exists_there {
                    CoverageCheck::ReadingCache
                } else {
                    let mut m = "Coverage unknown: metadata cache missing at ".to_owned();
                    m.append(path.as_str());
                    m.append(" (project never indexed?)");
                    CoverageCheck::Reported(CoverageHealth::unknown(m.as_str()))
                }
            },
            (check, _) => check,
        }
    }

    /// Tells a coverage check the keys of the metadata cache.
    pub fn cache_read(&self, check: CoverageCheck, keys: Result<Vec<String>, String>) -> (next:
        CoverageCheck)
        requires
            check.wf(),
        ensures
            next.wf(),
            next@ == coverage_read(check@, self@.metadata_cache, listing(keys)),
    {
        match (check, &self.metadata_cache) {
            (CoverageCheck::ReadingCache, Some((path, salt))) => match keys {
                Ok(keys) => CoverageCheck::ListingIndexed(paths_for_salt(keys, salt.as_str())),
                Err(e) => {
                    let mut m = "Coverage unknown: cannot read metadata cache at ".to_owned();
                    m.append(path.as_str());
                    m.append(": ");
                    m.append(e.as_str());
                    CoverageCheck::Reported(CoverageHealth::unknown(m.as_str()))
                },
            },
            (check, _) => check,
        }
    }

    /// Tells a coverage check the files that have vectors.
    pub fn indexed_listed(&self, check: CoverageCheck, files: Result<Vec<String>, String>) -> (next:
        CoverageCheck)
        requires
            check.wf(),
        ensures
            next.wf(),
            next@ == coverage_listed(check@, listing(files)),
    {
        match check {
            CoverageCheck::ListingIndexed(cached) => match files {
                Ok(files) => CoverageCheck::LoadingSnapshot(cached, set_of(&files)),
                Err(e) => {
                    let mut m =
                        "Coverage unknown: cannot list indexed files in vector store: ".to_owned();
                    m.append(e.as_str());
                    CoverageCheck::Reported(CoverageHealth::unknown(m.as_str()))
                },
            },
            check => check,
        }
    }

    /// Tells a coverage check the number of files in the snapshot, where there is one.
    pub fn snapshot_counted(&self, check: CoverageCheck, in_snapshot: Option<usize>) -> (next:
        CoverageCheck)
        requires
            check.wf(),
        ensures
            next.wf(),
            next@ == coverage_concluded(check@, in_snapshot),
    {
        match check {
            CoverageCheck::LoadingSnapshot(cached, indexed) => CoverageCheck::Reported(
                judge_coverage(&cached, &indexed, in_snapshot),
            ),
            check => check,
        }
    }
}

/// The changes of a working tree since its snapshot, each file by its path.
pub struct DiskChanges {
    /// Files that the snapshot has never seen.
    pub added: Vec<String>,
    /// Files that differ in content.
    pub modified: Vec<String>,
    /// Files that are gone.
    pub deleted: Vec<String>,
}

/// Where a freshness check stands: what it waits to be told, or what it reports.
pub enum FreshnessCheck {
    /// The snapshot.
    LoadingSnapshot,
    /// The changes of the tree. It holds the number of files in the snapshot.
    Comparing(usize),
    /// Nothing: the check is done.
    Reported(FreshnessHealth),
}

/// The state of a freshness check.
pub enum FreshnessState {
    /// Waits for the snapshot.
    LoadingSnapshot,
    /// Waits for the changes of the tree.
    Comparing(usize),
    /// Is done.
    Reported(FreshnessReport),
}

impl View for FreshnessCheck {
    type V = FreshnessState;

    open spec fn view(&self) -> FreshnessState {
        match *self {
            FreshnessCheck::LoadingSnapshot => FreshnessState::LoadingSnapshot,
            FreshnessCheck::Comparing(n) => FreshnessState::Comparing(n),
            FreshnessCheck::Reported(h) => FreshnessState::Reported(h@),
        }
    }
}

/// How a freshness check begins.
pub open spec fn freshness_begun(root: Option<Seq<char>>) -> FreshnessState {
    if root is None {
        FreshnessState::Reported(
            freshness_unknown(
                "Freshness unknown: no project directory (system-wide check; pass 'directory')"@,
            ),
        )
    } else {
        FreshnessState::LoadingSnapshot
    }
}

/// How a freshness check goes on with the snapshot: its number of files, nothing
/// where there is none, or the error.
pub open spec fn freshness_loaded(
    state: FreshnessState,
    merkle_path: Seq<char>,
    snapshot: Result<Option<usize>, Seq<char>>,
) -> FreshnessState {
    match state {
        FreshnessState::LoadingSnapshot => match snapshot {
            Ok(Some(files)) => FreshnessState::Comparing(files),
            Ok(None) => FreshnessState::Reported(
                freshness_unknown("Freshness unknown: no Merkle snapshot at "@ + merkle_path + NO_SNAPSHOT@),
            ),
            Err(e) => FreshnessState::Reported(
                freshness_unknown(
                    "Freshness unknown: cannot read Merkle snapshot at "@ + merkle_path + ": "@ + e,
                ),
            ),
        },
        _ => state,
    }
}

/// What is said where there is no snapshot, after its place.
pub const NO_SNAPSHOT: &'static str = " — nothing to compare the working tree against (project never indexed under this profile?)";

/// `paths`, each with `tag` before it.
pub open spec fn tagged(tag: Seq<char>, paths: Seq<Seq<char>>) -> Seq<Seq<char>> {
    Seq::new(paths.len(), |i: int| tag + paths[i])
}

/// The verdict on the changes of a tree whose snapshot has `files` files.
pub open spec fn freshness_verdict(
    files: usize,
    added: Seq<Seq<char>>,
    modified: Seq<Seq<char>>,
    deleted: Seq<Seq<char>>,
) -> FreshnessReport {
    let current = added.len() == 0 && modified.len() == 0 && deleted.len() == 0;
    FreshnessReport {
        status: if current {
            Status::Healthy
        } else {
            Status::Degraded
        },
        message: if current {
            "Index is current: all "@ + decimal(files as nat)
                + " tracked files match the working tree"@
        } else {
            "Index is STALE: "@ + decimal(modified.len()) + " modified, "@ + decimal(added.len())
                + " added, "@ + decimal(deleted.len()) + STALE@
        },
        files_added: Some(added.len() as usize),
        files_modified: Some(modified.len() as usize),
        files_deleted: Some(deleted.len() as usize),
        examples: first_ten(
            tagged("modified: "@, modified) + tagged("added: "@, added) + tagged(
                "deleted: "@,
                deleted,
            ),
        ),
    }
}

/// How a freshness check ends.
pub open spec fn freshness_concluded(
    state: FreshnessState,
    root: Option<Seq<char>>,
    changes: Result<(Seq<Seq<char>>, Seq<Seq<char>>, Seq<Seq<char>>), Seq<char>>,
) -> FreshnessState {
    match (state, root) {
        (FreshnessState::Comparing(files), Some(root)) => FreshnessState::Reported(
            match changes {
                Ok((added, modified, deleted)) => freshness_verdict(files, added, modified, deleted),
                Err(e) => freshness_unknown(
                    "Freshness unknown: cannot compare "@ + root + " against the snapshot: "@ + e,
                ),
            },
        ),
        _ => state,
    }
}

/// The changes that were found, or the text of the error.
pub open spec fn changes_of(r: Result<DiskChanges, String>) -> Result<
    (Seq<Seq<char>>, Seq<Seq<char>>, Seq<Seq<char>>),
    Seq<char>,
> {
    match r {
        Ok(c) => Ok((texts(c.added@), texts(c.modified@), texts(c.deleted@))),
        Err(e) => Err(e@),
    }
}

fn push_tagged(out: &mut Vec<String>, tag: &str, paths: &Vec<String>)
    ensures
        texts(final(out)@) == texts(old(out)@) + tagged(tag@, texts(paths@)),
{
    let ghost start = texts(out@);
    let ghost all = tagged(tag@, texts(paths@));
    let mut i: usize = 0;
    assert(start + all.take(0) =~= start);
    while i < paths.len()
        invariant
            i <= paths@.len(),
            all == tagged(tag@, texts(paths@)),
            texts(out@) == start + all.take(i as int),
        decreases paths@.len() - i,
    {
        let mut line = tag.to_owned();
        line.append(paths[i].as_str());
        let ghost held = texts(out@);
        let ghost l = line@;
        out.push(line);
        proof {
            assert(texts(out@) =~= held.push(l));
            assert(held.push(l) =~= start + all.take(i + 1));
        }
        i += 1;
    }
    assert(all.take(i as int) =~= all);
}

/// The verdict on the changes of a tree whose snapshot has `files` files.
pub fn judge_freshness(files: usize, changes: &DiskChanges) -> (h: FreshnessHealth)
    ensures
        h@ == freshness_verdict(
            files,
            texts(changes.added@),
            texts(changes.modified@),
            texts(changes.deleted@),
        ),
{
    let added: usize = changes.added.len();
    let modified: usize = changes.modified.len();
    let deleted: usize = changes.deleted.len();
    let mut all: Vec<String> = Vec::new();
    push_tagged(&mut all, "modified: ", &changes.modified);
    push_tagged(&mut all, "added: ", &changes.added);
    push_tagged(&mut all, "deleted: ", &changes.deleted);
    let ghost m = tagged("modified: "@, texts(changes.modified@));
    let ghost a = tagged("added: "@, texts(changes.added@));
    let ghost d = tagged("deleted: "@, texts(changes.deleted@));
    assert(texts(all@) =~= m + a + d);
    let (status, message) = if added == 0 && modified == 0 && deleted == 0 {
        let mut text = "Index is current: all ".to_owned();
        text.append(number(files as u128).as_str());
        text.append(" tracked files match the working tree");
        (Status::Healthy, text)
    } else {
        let mut text = "Index is STALE: ".to_owned();
        text.append(number(modified as u128).as_str());
        text.append(" modified, ");
        text.append(number(added as u128).as_str());
        text.append(" added, ");
        text.append(number(deleted as u128).as_str());
        text.append(STALE);
        (Status::Degraded, text)
    };
    let h = FreshnessHealth {
        status,
        message,
        files_added: Some(added),
        files_modified: Some(modified),
        files_deleted: Some(deleted),
        examples: first_strings(&all),
    };
    assert(h@ =~= freshness_verdict(
        files,
        texts(changes.added@),
        texts(changes.modified@),
        texts(changes.deleted@),
    ));
    h
}

/// The level of the whole by the levels of its parts.
///
/// The whole fails where both search engines fail. It is degraded where one of
/// them or the snapshot is amiss, or the index is not known to be complete and
/// current.
pub open spec fn overall_status(
    bm25: Status,
    vector: Status,
    merkle: Status,
    coverage: Status,
    freshness: Status,
) -> Status {
    if bm25 == Status::Unhealthy && vector == Status::Unhealthy {
        Status::Unhealthy
    } else if coverage != Status::Healthy || freshness != Status::Healthy || bm25
        != Status::Healthy || vector != Status::Healthy || merkle != Status::Healthy {
        Status::Degraded
    } else {
        Status::Healthy
    }
}

impl<B, V> HealthMonitor<B, V> {
    /// Begins a freshness check.
    pub fn begin_freshness(&self) -> (check: FreshnessCheck)
        ensures
            check@ == freshness_begun(self@.project_root),
    {
        if self.project_root.is_none() {
            FreshnessCheck::Reported(
                FreshnessHealth::unknown(
                    "Freshness unknown: no project directory (system-wide check; pass 'directory')",
                ),
            )
        } else {
            FreshnessCheck::LoadingSnapshot
        }
    }

    /// Tells a freshness check the number of files in the snapshot, nothing where
    /// there is no snapshot, or the error.
    pub fn snapshot_loaded(
        &self,
        check: FreshnessCheck,
        snapshot: Result<Option<usize>, String>,
    ) -> (next: FreshnessCheck)
        ensures
            next@ == freshness_loaded(
                check@,
                self@.merkle_path,
                match snapshot {
                    Ok(files) => Ok(files),
                    Err(e) => Err(e@),
                },
            ),
    {
        match check {
            FreshnessCheck::LoadingSnapshot => match snapshot {
                Ok(Some(files)) => FreshnessCheck::Comparing(files),
                Ok(None) => {
                    let mut m = "Freshness unknown: no Merkle snapshot at ".to_owned();
                    m.append(self.merkle_path.as_str());
                    m.append(NO_SNAPSHOT);
                    FreshnessCheck::Reported(FreshnessHealth::unknown(m.as_str()))
                },
                Err(e) => {
                    let mut m = "Freshness unknown: cannot read Merkle snapshot at ".to_owned();
                    m.append(self.merkle_path.as_str());
                    m.append(": ");
                    m.append(e.as_str());
                    FreshnessCheck::Reported(FreshnessHealth::unknown(m.as_str()))
                },
            },
            check => check,
        }
    }

    /// Tells a freshness check the changes of the tree.
    pub fn tree_compared(&self, check: FreshnessCheck, changes: Result<DiskChanges, String>) -> (next:
        FreshnessCheck)
        ensures
            next@ == freshness_concluded(check@, self@.project_root, changes_of(changes)),
    {
        match (check, &self.project_root) {
            (FreshnessCheck::Comparing(files), Some(root)) => match changes {
                Ok(changes) => FreshnessCheck::Reported(judge_freshness(files, &changes)),
                Err(e) => {
                    let mut m = "Freshness unknown: cannot compare ".to_owned();
                    m.append(root.as_str());
                    m.append(" against the snapshot: ");
                    m.append(e.as_str());
                    FreshnessCheck::Reported(FreshnessHealth::unknown(m.as_str()))
                },
            },
            (check, _) => check,
        }
    }

    /// The level of the whole by the levels of its parts.
    pub fn calculate_overall_status(
        &self,
        bm25: &ComponentHealth,
        vector: &ComponentHealth,
        merkle: &ComponentHealth,
        coverage: &CoverageHealth,
        freshness: &FreshnessHealth,
    ) -> (overall: Status)
        ensures
            overall == overall_status(
                bm25.status,
                vector.status,
                merkle.status,
                coverage.status,
                freshness.status,
            ),
    {
        if bm25.status == Status::Unhealthy && vector.status == Status::Unhealthy {
            return Status::Unhealthy;
        }
        if coverage.status != Status::Healthy || freshness.status != Status::Healthy || bm25.status
            != Status::Healthy || vector.status != Status::Healthy || merkle.status
            != Status::Healthy {
            return Status::Degraded;
        }
        Status::Healthy
    }

    /// The health of the whole from the reports of its parts.
    pub fn check_health(
        &self,
        bm25: ComponentHealth,
        vector: ComponentHealth,
        merkle: ComponentHealth,
        coverage: CoverageHealth,
        freshness: FreshnessHealth,
    ) -> (h: HealthStatus)
        ensures
            h.bm25 == bm25,
            h.vector == vector,
            h.merkle == merkle,
            h.coverage == coverage,
            h.freshness == freshness,
            h.overall == overall_status(
                bm25.status,
                vector.status,
                merkle.status,
                coverage.status,
                freshness.status,
            ),
    {
        let overall = self.calculate_overall_status(
            &bm25,
            &vector,
            &merkle,
            &coverage,
            &freshness,
        );
        HealthStatus { overall, bm25, vector, merkle, coverage, freshness }
    }
}

/// A whole is healthy exactly where every part of it is; it fails exactly where both
/// searches fail.
pub proof fn healthy_means_complete_and_current(
    bm25: Status,
    vector: Status,
    merkle: Status,
    coverage: Status,
    freshness: Status,
)
    ensures
        overall_status(bm25, vector, merkle, coverage, freshness) == Status::Healthy <==> (bm25
            == Status::Healthy && vector == Status::Healthy && merkle == Status::Healthy
            && coverage == Status::Healthy && freshness == Status::Healthy),
        overall_status(bm25, vector, merkle, coverage, freshness) == Status::Unhealthy <==> (bm25
            == Status::Unhealthy && vector == Status::Unhealthy),
{
}

/// Coverage is healthy exactly where something is cached and every cached file has
/// vectors. What the snapshot holds does not decide.
pub proof fn coverage_is_healthy_iff_nothing_is_stale(
    cached: Set<Seq<char>>,
    indexed: Set<Seq<char>>,
    in_snapshot: Option<usize>,
)
    requires
        cached.finite(),
    ensures
        coverage_verdict(cached, indexed, in_snapshot).status == Status::Healthy <==> (cached.len()
            > 0 && cached.subset_of(indexed)),
        coverage_verdict(cached, indexed, in_snapshot).status != Status::Unhealthy,
        forall|other: Option<usize>|
            #![trigger coverage_verdict(cached, indexed, other)]
            coverage_verdict(cached, indexed, other).status == coverage_verdict(
                cached,
                indexed,
                in_snapshot,
            ).status,
{
    let stale = cached.difference(indexed);
    if stale.len() == 0 {
        assert(stale =~= Set::empty());
        assert forall|p: Seq<char>| cached.contains(p) implies indexed.contains(p) by {
            if !indexed.contains(p) {
                assert(stale.contains(p));
            }
        }
    }
    if cached.subset_of(indexed) {
        assert(stale =~= Set::empty());
    }
}

/// A coverage check that ends before it has compared anything does not report
/// health, nor how many files would be skipped.
pub proof fn unmeasured_coverage_is_not_healthy(
    state: CoverageState,
    store_open: bool,
    cache: Option<(Seq<char>, Seq<char>)>,
    exists_there: bool,
    keys: Result<Seq<Seq<char>>, Seq<char>>,
    files: Result<Seq<Seq<char>>, Seq<char>>,
)
    requires
        !(state is Reported),
    ensures
        coverage_begun(store_open, cache) matches CoverageState::Reported(r) ==> r.status
            == Status::Degraded && r.stale_skips is None,
        coverage_found(state, cache, exists_there) matches CoverageState::Reported(r) ==> r.status
            == Status::Degraded && r.stale_skips is None,
        coverage_read(state, cache, keys) matches CoverageState::Reported(r) ==> r.status
            == Status::Degraded && r.stale_skips is None,
        coverage_listed(state, files) matches CoverageState::Reported(r) ==> r.status
            == Status::Degraded && r.stale_skips is None,
{
}

/// Freshness is healthy exactly where the tree was compared and nothing differs.
pub proof fn freshness_is_healthy_iff_nothing_changed(
    files: usize,
    added: Seq<Seq<char>>,
    modified: Seq<Seq<char>>,
    deleted: Seq<Seq<char>>,
)
    ensures
        freshness_verdict(files, added, modified, deleted).status == Status::Healthy <==> (
        added.len() == 0 && modified.len() == 0 && deleted.len() == 0),
        freshness_verdict(files, added, modified, deleted).status != Status::Unhealthy,
        freshness_verdict(files, added, modified, deleted).examples.len() <= 10,
{
}

/// A freshness check that ends before it has compared anything does not report
/// health, nor any number of changes.
pub proof fn unmeasured_freshness_is_not_healthy(
    state: FreshnessState,
    root: Option<Seq<char>>,
    merkle_path: Seq<char>,
    snapshot: Result<Option<usize>, Seq<char>>,
    error: Seq<char>,
)
    requires
        !(state is Reported),
    ensures
        freshness_begun(root) matches FreshnessState::Reported(r) ==> r.status == Status::Degraded
            && r.files_modified is None,
        freshness_loaded(state, merkle_path, snapshot) matches FreshnessState::Reported(r)
            ==> r.status == Status::Degraded && r.files_modified is None,
        freshness_concluded(state, root, Err(error)) matches FreshnessState::Reported(r)
            ==> r.status == Status::Degraded && r.files_modified is None,
{
}

/// The examples of a coverage report are the first stale files in the order of
/// their names, at most ten, each cached and without vectors.
pub proof fn stale_examples_are_stale(
    cached: Set<Seq<char>>,
    indexed: Set<Seq<char>>,
    in_snapshot: Option<usize>,
    all: Seq<Seq<char>>,
)
    requires
        ascending(all),
        all.to_set() == cached.difference(indexed),
        cached.len() > 0,
    ensures
        ({
            let examples = coverage_verdict(cached, indexed, in_snapshot).stale_skip_examples;
            &&& examples == first_ten(all)
            &&& examples.len() <= 10
            &&& forall|i: int|
                0 <= i < examples.len() ==> cached.contains(#[trigger] examples[i])
                    && !indexed.contains(examples[i])
        }),
{
    let stale = cached.difference(indexed);
    assert(ascending(sorted(stale)) && sorted(stale).to_set() == stale);
    ascending_is_determined(sorted(stale), all);
    let examples = coverage_verdict(cached, indexed, in_snapshot).stale_skip_examples;
    assert forall|i: int| 0 <= i < examples.len() implies cached.contains(#[trigger] examples[i])
        && !indexed.contains(examples[i]) by {
        assert(examples[i] == all[i]);
        assert(all.to_set().contains(all[i]));
    }
}

/// A coverage check from its beginning to its end, where nothing fails on the way: the
/// files that have an entry under the salt are held against those that have vectors. The
/// index is whole exactly where there is such a file and each has vectors; what would be
/// skipped by mistake is counted, and so are the cached files and the files with vectors.
pub proof fn a_coverage_check_compares_the_cache_with_the_store(
    path: Seq<char>,
    salt: Seq<char>,
    keys: Seq<Seq<char>>,
    files: Seq<Seq<char>>,
    in_snapshot: Option<usize>,
    cached: Set<Seq<char>>,
)
    requires
        cached.finite(),
        forall|p: Seq<char>| #[trigger]
            cached.contains(p) <==> keys.contains(
                if salt.len() == 0 {
                    p
                } else {
                    salt + "::"@ + p
                },
            ),
        cached.len() <= usize::MAX,
        files.to_set().len() <= usize::MAX,
    ensures
        ({
            let cache = Some((path, salt));
            let begun = coverage_begun(true, cache);
            let found = coverage_found(begun, cache, true);
            let read = coverage_read(found, cache, Ok(keys));
            let listed = coverage_listed(read, Ok(files));
            let stale = Set::new(|p: Seq<char>| cached.contains(p) && !files.contains(p));
            coverage_concluded(listed, in_snapshot) matches CoverageState::Reported(r) && {
                &&& r.status == Status::Healthy <==> cached.len() > 0 && forall|p: Seq<char>|
                    #[trigger] cached.contains(p) ==> files.contains(p)
                &&& r.status != Status::Healthy ==> r.status == Status::Degraded
                &&& r.files_tracked == in_snapshot
                &&& r.files_cached == Some(cached.len() as usize)
                &&& r.files_with_vectors == Some(files.to_set().len() as usize)
                &&& cached.len() == 0 ==> r.stale_skips is None
                &&& cached.len() > 0 ==> r.stale_skips == Some(stale.len() as usize)
            }
        }),
{
    assert(salted_paths(keys, salt) =~= cached) by {
        assert forall|p: Seq<char>| salted_paths(keys, salt).contains(p) == cached.contains(p) by {
            a_salt_lists_its_own_files(keys, salt, p);
        }
    }
    let indexed = files.to_set();
    let stale = Set::new(|p: Seq<char>| cached.contains(p) && !files.contains(p));
    assert(stale =~= cached.difference(indexed));
    coverage_is_healthy_iff_nothing_is_stale(cached, indexed, in_snapshot);
    if cached.subset_of(indexed) {
        assert forall|p: Seq<char>| #[trigger] cached.contains(p) implies files.contains(p) by {
            assert(indexed.contains(p));
        }
    }
    if forall|p: Seq<char>| #[trigger] cached.contains(p) ==> files.contains(p) {
        assert forall|p: Seq<char>| cached.contains(p) implies indexed.contains(p) by {}
    }
}

/// A coverage check never passes over what fails: without a store, a cache, its file or
/// its keys, or a listing of the store, it ends there and reports that it does not know.
pub proof fn a_coverage_check_ends_where_something_fails(
    cache: Option<(Seq<char>, Seq<char>)>,
    path: Seq<char>,
    salt: Seq<char>,
    cached: Set<Seq<char>>,
    error: Seq<char>,
)
    ensures
        coverage_begun(false, cache) is Reported,
        coverage_begun(true, None) is Reported,
        coverage_begun(true, Some((path, salt))) is FindingCache,
        coverage_found(CoverageState::FindingCache, Some((path, salt)), false) is Reported,
        coverage_found(CoverageState::FindingCache, Some((path, salt)), true) is ReadingCache,
        coverage_read(CoverageState::ReadingCache, Some((path, salt)), Err(error)) is Reported,
        coverage_listed(CoverageState::ListingIndexed(cached), Err(error)) is Reported,
{
}

/// A freshness check from its beginning to its end, where nothing fails on the way: the
/// index is current exactly where no file was added, none modified and none deleted, and
/// each of them is counted. Of the files, the modified ones are named first, then the
/// added ones, then the deleted ones, ten in all at most.
pub proof fn a_freshness_check_counts_what_changed(
    root: Seq<char>,
    merkle_path: Seq<char>,
    files: usize,
    added: Seq<Seq<char>>,
    modified: Seq<Seq<char>>,
    deleted: Seq<Seq<char>>,
)
    requires
        added.len() <= usize::MAX,
        modified.len() <= usize::MAX,
        deleted.len() <= usize::MAX,
    ensures
        ({
            let begun = freshness_begun(Some(root));
            let loaded = freshness_loaded(begun, merkle_path, Ok(Some(files)));
            freshness_concluded(
                loaded,
                Some(root),
                Ok((added, modified, deleted)),
            ) matches FreshnessState::Reported(r) && {
                &&& r.status == Status::Healthy <==> added.len() == 0 && modified.len() == 0
                    && deleted.len() == 0
                &&& r.status != Status::Healthy ==> r.status == Status::Degraded
                &&& r.files_added == Some(added.len() as usize)
                &&& r.files_modified == Some(modified.len() as usize)
                &&& r.files_deleted == Some(deleted.len() as usize)
                &&& r.examples.len() == (if added.len() + modified.len() + deleted.len() <= 10 {
                    added.len() + modified.len() + deleted.len()
                } else {
                    10
                })
                &&& forall|i: int|
                    0 <= i < r.examples.len() ==> #[trigger] r.examples[i] == (if i
                        < modified.len() {
                        "modified: "@ + modified[i]
                    } else if i < modified.len() + added.len() {
                        "added: "@ + added[i - modified.len()]
                    } else {
                        "deleted: "@ + deleted[i - modified.len() - added.len()]
                    })
            }
        }),
{
}

/// A freshness check never passes over what fails: without a project, a snapshot, or a
/// comparison, it ends there and reports that it does not know.
pub proof fn a_freshness_check_ends_where_something_fails(
    root: Option<Seq<char>>,
    merkle_path: Seq<char>,
    files: usize,
    error: Seq<char>,
)
    ensures
        freshness_begun(None) is Reported,
        root is Some ==> freshness_begun(root) is LoadingSnapshot,
        freshness_loaded(FreshnessState::LoadingSnapshot, merkle_path, Ok(None)) is Reported,
        freshness_loaded(FreshnessState::LoadingSnapshot, merkle_path, Err(error)) is Reported,
        root is Some ==> freshness_concluded(
            FreshnessState::Comparing(files),
            root,
            Err(error),
        ) is Reported,
{
}

/// A search engine is degraded where it is not configured; else it is healthy where its
/// probe succeeded, with the time that it took, and unhealthy where it failed.
pub proof fn an_engine_is_as_its_probe_ended<B, V>(
    monitor: HealthMonitor<B, V>,
    text: Result<u64, String>,
    of_text: ComponentHealth,
    vectors: Result<(u64, u64), String>,
    of_vectors: ComponentHealth,
)
    requires
        call_ensures(HealthMonitor::<B, V>::check_bm25, (&monitor, text), of_text),
        call_ensures(HealthMonitor::<B, V>::check_vector, (&monitor, vectors), of_vectors),
    ensures
        of_text.status == Status::Degraded <==> monitor.text_search() is None,
        of_text.status == Status::Healthy <==> monitor.text_search() is Some && text is Ok,
        of_text.status == Status::Unhealthy <==> monitor.text_search() is Some && text is Err,
        of_text.status == Status::Healthy ==> of_text.latency_ms == Some(text->Ok_0),
        of_vectors.status == Status::Degraded <==> monitor.store() is None,
        of_vectors.status == Status::Healthy <==> monitor.store() is Some && vectors is Ok,
        of_vectors.status == Status::Unhealthy <==> monitor.store() is Some && vectors is Err,
        of_vectors.status == Status::Healthy ==> of_vectors.latency_ms == Some(vectors->Ok_0.1),
{
}

/// The snapshot is healthy where it is there and can be read; else it is degraded, and
/// never more than that.
pub proof fn a_snapshot_is_healthy_where_it_is_read<B, V>(
    monitor: HealthMonitor<B, V>,
    file: Option<Result<u64, String>>,
    h: ComponentHealth,
)
    requires
        call_ensures(HealthMonitor::<B, V>::check_merkle, (&monitor, file), h),
    ensures
        h.status == Status::Healthy <==> file is Some && file->Some_0 is Ok,
        h.status != Status::Healthy ==> h.status == Status::Degraded,
        h.latency_ms is None,
{
}

/// The whole is healthy exactly where each part is, and fails exactly where both search
/// engines do; each part is reported as it was found.
pub proof fn the_whole_is_as_its_parts<B, V>(
    monitor: HealthMonitor<B, V>,
    bm25: ComponentHealth,
    vector: ComponentHealth,
    merkle: ComponentHealth,
    coverage: CoverageHealth,
    freshness: FreshnessHealth,
    h: HealthStatus,
)
    requires
        call_ensures(
            HealthMonitor::<B, V>::check_health,
            (&monitor, bm25, vector, merkle, coverage, freshness),
            h,
        ),
    ensures
        h.overall == Status::Healthy <==> bm25.status == Status::Healthy && vector.status
            == Status::Healthy && merkle.status == Status::Healthy && coverage.status
            == Status::Healthy && freshness.status == Status::Healthy,
        h.overall == Status::Unhealthy <==> bm25.status == Status::Unhealthy && vector.status
            == Status::Unhealthy,
        h.bm25 == bm25 && h.vector == vector && h.merkle == merkle && h.coverage == coverage
            && h.freshness == freshness,
{
}

} // verus!

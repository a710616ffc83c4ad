use rust_code_mcp::digest::{hex, hex_digest};
use rust_code_mcp::embeddings::backend::EmbeddingBackend;
use rust_code_mcp::graph::loader::{
    filter_local_crates, graph_settings, insert_preferred_target_kind, load,
    load_crate_target_kinds, normalize_crate_name, should_index_crate_root,
    should_index_target_kind, target_kind_label, target_kind_rank, workspace_relative_path,
    CargoMetadata, CargoPackage, CargoTarget, CrateCandidate, TargetKind, WorkspaceTargets,
};
use rust_code_mcp::indexing::error::{
    IndexingError, OUTCOME_CONTAINS_SECRETS, OUTCOME_FILE_UNCHANGED, OUTCOME_NO_CHUNKS,
    OUTCOME_SECURITY_FILTERED,
};
use rust_code_mcp::indexing::error_collection::{
    categorize_error, ErrorCategory, ErrorCollector, ErrorDetail,
};
use rust_code_mcp::indexing::identity::{identity_hash, indexing_identity, metadata_cache_salt};
use rust_code_mcp::indexing::traversal::{
    collect_project_rust_files, descent, is_rust_file, is_skipped_dir_name, marker_path, Descent,
    Entry, NESTED_ROOT_MARKER,
};
use rust_code_mcp::metadata_cache::{
    after_failed_open, cache_key, has_changed, has_stat_changed, is_lock_contention, list_files,
    paths_for_salt, FileMetadata, FileStat, MetadataError, LOCK_WAIT_BUDGET_MS,
};
use rust_code_mcp::paths::{
    component_texts, join, normalized, path_before, same_path, sort_paths, starts_with, strip_base,
};
use rust_code_mcp::table::{difference, set_of, Table};
use rust_code_mcp::text::{
    before, contains, lower, number, parse_u64, push_le_bytes, strip_prefix, strip_suffix, trim,
    NumberError,
};

// Which crates belong to a workspace.

fn targets_fixture() -> WorkspaceTargets {
    let mut targets = WorkspaceTargets::unknown();
    targets
        .by_abs_root_file
        .insert(normalized("/ws/crates/member/src/lib.rs"), "lib".to_string());
    targets.by_abs_root_file.insert(
        normalized("/ws/crates/member/examples/demo.rs"),
        "example".to_string(),
    );
    targets.workspace_root = Some("/ws".to_string());
    targets
}

#[test]
fn member_targets_are_indexed_by_kind() {
    let targets = targets_fixture();
    assert!(should_index_crate_root(
        "/ws/crates/member/src/lib.rs",
        &targets
    ));
    assert!(!should_index_crate_root(
        "/ws/crates/member/examples/demo.rs",
        &targets
    ));
}

#[test]
fn vendored_patch_crates_inside_the_tree_stay_indexed() {
    let targets = targets_fixture();
    assert!(should_index_crate_root(
        "/ws/patches/eframe-0.36.0/src/lib.rs",
        &targets
    ));
}

#[test]
fn path_dependencies_outside_the_tree_are_dropped() {
    let targets = targets_fixture();
    assert!(!should_index_crate_root(
        "/elsewhere/rust-analyzer/crates/hir/src/lib.rs",
        &targets
    ));
    assert!(!should_index_crate_root("/ws-other/src/lib.rs", &targets));
}

#[test]
fn without_cargo_metadata_every_local_crate_is_kept() {
    let targets = WorkspaceTargets {
        by_name: Table::new(),
        by_root_file: Table::new(),
        by_abs_root_file: Table::new(),
        workspace_root: None,
    };
    assert!(should_index_crate_root(
        "/elsewhere/whatever/src/lib.rs",
        &targets
    ));
}

#[test]
fn target_kind_label_collapses_cargo_kinds() {
    assert_eq!(target_kind_label(&[TargetKind::Lib]), "lib");
    assert_eq!(target_kind_label(&[TargetKind::RLib]), "lib");
    assert_eq!(target_kind_label(&[TargetKind::Bin]), "bin");
    assert_eq!(target_kind_label(&[TargetKind::Example]), "example");
    assert_eq!(target_kind_label(&[TargetKind::CustomBuild]), "build");
}

#[test]
fn of_several_kinds_the_first_by_rank_is_told() {
    assert_eq!(target_kind_label(&[]), "unknown");
    assert_eq!(
        target_kind_label(&[TargetKind::Bench, TargetKind::Test, TargetKind::Example]),
        "example"
    );
    let ranks: Vec<u8> = ["lib", "bin", "example", "test", "bench", "build", "x"]
        .iter()
        .map(|l| target_kind_rank(l))
        .collect();
    assert_eq!(ranks, vec![0, 1, 2, 3, 4, 5, 6]);
}

#[test]
fn should_index_only_library_and_binary_targets() {
    assert!(should_index_target_kind("lib"));
    assert!(should_index_target_kind("bin"));
    assert!(!should_index_target_kind("test"));
    assert!(!should_index_target_kind("bench"));
    assert!(!should_index_target_kind("example"));
    assert!(!should_index_target_kind("build"));
    assert!(!should_index_target_kind("unknown"));
}

fn target(name: &str, kind: TargetKind, file: &str) -> CargoTarget {
    CargoTarget {
        name: name.to_string(),
        kinds: vec![kind],
        src_path: file.to_string(),
        canonical_src_path: file.to_string(),
    }
}

fn workspace() -> CargoMetadata {
    CargoMetadata {
        members: vec!["graph".to_string(), "mcp".to_string()],
        packages: vec![
            CargoPackage {
                id: "graph".to_string(),
                targets: vec![target(
                    "rmc-graph",
                    TargetKind::Lib,
                    "/ws/crates/rmc-graph/src/lib.rs",
                )],
            },
            CargoPackage {
                id: "serde".to_string(),
                targets: vec![target("serde", TargetKind::Lib, "/ws/vendor/serde/src/lib.rs")],
            },
            CargoPackage {
                id: "mcp".to_string(),
                targets: vec![
                    target(
                        "graph_burn",
                        TargetKind::Example,
                        "/ws/crates/rust-code-mcp/examples/graph_burn.rs",
                    ),
                    target(
                        "rust-code-mcp",
                        TargetKind::Bin,
                        "/ws/crates/rust-code-mcp/src/main.rs",
                    ),
                ],
            },
        ],
        canonical_root: "/ws".to_string(),
    }
}

#[test]
fn load_crate_target_kinds_finds_workspace_targets() {
    let metadata = workspace();
    let targets = load_crate_target_kinds("/ws", Some(&metadata));
    let by_root_file = &targets.by_root_file;
    assert_eq!(
        by_root_file
            .get("crates/rmc-graph/src/lib.rs")
            .map(String::as_str),
        Some("lib")
    );
    assert_eq!(
        by_root_file
            .get("crates/rust-code-mcp/src/main.rs")
            .map(String::as_str),
        Some("bin")
    );
    assert_eq!(
        by_root_file
            .get("crates/rust-code-mcp/examples/graph_burn.rs")
            .map(String::as_str),
        Some("example")
    );
    assert!(!by_root_file.contains("vendor/serde/src/lib.rs"));
    assert_eq!(
        targets.by_name.get("rmc_graph").map(String::as_str),
        Some("lib")
    );
}

#[test]
fn loads_self_workspace() {
    let metadata = workspace();
    let candidate = |is_local: bool, root: Option<&str>| CrateCandidate {
        is_local,
        root_file: root.map(str::to_string),
    };
    let crates = vec![
        candidate(true, Some("/ws/crates/rust-code-mcp/src/main.rs")),
        candidate(true, Some("/elsewhere/hir/src/lib.rs")),
        candidate(false, Some("/ws/crates/rmc-graph/src/lib.rs")),
        candidate(true, None),
        candidate(true, Some("/ws/crates/rmc-graph/src/lib.rs")),
    ];
    let loaded = load("/ws", Some(&metadata), "db", &crates);
    assert_eq!(loaded.local_crates, vec![0, 4]);
    assert_eq!(loaded.workspace_root, "/ws");
    assert_eq!(loaded.db, "db");
    let unknown = WorkspaceTargets::unknown();
    assert_eq!(filter_local_crates(&crates, &unknown), vec![0, 1, 3, 4]);
    assert!(graph_settings().sysroot && !graph_settings().no_deps);
}

#[test]
fn the_better_kind_is_kept_under_a_name() {
    let mut map: Table<String> = Table::new();
    insert_preferred_target_kind(&mut map, "a".to_string(), "test".to_string());
    insert_preferred_target_kind(&mut map, "a".to_string(), "lib".to_string());
    insert_preferred_target_kind(&mut map, "a".to_string(), "bin".to_string());
    assert_eq!(map.get("a").map(String::as_str), Some("lib"));
    assert_eq!(normalize_crate_name("a-b-c"), "a_b_c");
    assert_eq!(
        workspace_relative_path("/ws/a/b.rs", "/ws/").as_deref(),
        Some("a/b.rs")
    );
    assert_eq!(workspace_relative_path("/wsx/a", "/ws"), None);
}

// Failures and what they are worth.

fn detail(file: &str, category: ErrorCategory, message: &str) -> ErrorDetail {
    ErrorDetail {
        file_path: file.to_string(),
        category,
        message: message.to_string(),
    }
}

#[test]
fn test_error_collector_creation() {
    let collector = ErrorCollector::new();
    assert_eq!(collector.error_count(), 0);
}

#[test]
fn test_record_error() {
    let mut collector = ErrorCollector::new();
    collector.record(detail(
        "test.rs",
        ErrorCategory::Permanent,
        "Permission denied",
    ));
    assert_eq!(collector.error_count(), 1);
}

#[test]
fn test_get_errors() {
    let mut collector = ErrorCollector::new();
    collector.record(detail("test1.rs", ErrorCategory::Permanent, "Error 1"));
    collector.record(detail("test2.rs", ErrorCategory::Transient, "Error 2"));
    let errors = collector.get_errors();
    assert_eq!(errors.len(), 2);
    assert_eq!(errors[1].file_path, "test2.rs");
    assert_eq!(errors[1].message, "Error 2");
}

#[test]
fn test_errors_by_category() {
    let mut collector = ErrorCollector::default();
    collector.record(detail("test1.rs", ErrorCategory::Permanent, "Error 1"));
    collector.record(detail("test2.rs", ErrorCategory::Transient, "Error 2"));
    let permanent = collector.errors_by_category(ErrorCategory::Permanent);
    assert_eq!(permanent.len(), 1);
    assert_eq!(permanent[0].file_path, "test1.rs");
    let transient = collector.errors_by_category(ErrorCategory::Transient);
    assert_eq!(transient.len(), 1);
    assert_eq!(transient[0].file_path, "test2.rs");
}

#[test]
fn test_clear() {
    let mut collector = ErrorCollector::new();
    collector.record(detail("test.rs", ErrorCategory::Permanent, "Error"));
    assert_eq!(collector.error_count(), 1);
    collector.clear();
    assert_eq!(collector.error_count(), 0);
}

#[test]
fn test_categorize_permanent_errors() {
    let error = std::io::Error::new(std::io::ErrorKind::PermissionDenied, "Permission denied");
    assert_eq!(
        categorize_error(&error.to_string()),
        ErrorCategory::Permanent
    );
    let error = std::io::Error::new(std::io::ErrorKind::NotFound, "File not found");
    assert_eq!(
        categorize_error(&error.to_string()),
        ErrorCategory::Permanent
    );
}

#[test]
fn test_categorize_transient_errors() {
    let error = std::io::Error::new(std::io::ErrorKind::TimedOut, "Network timeout");
    assert_eq!(
        categorize_error(&error.to_string()),
        ErrorCategory::Transient
    );
}

#[test]
fn settled_outcomes_are_permanent_not_retried_forever() {
    for outcome in [
        OUTCOME_FILE_UNCHANGED,
        OUTCOME_NO_CHUNKS,
        OUTCOME_CONTAINS_SECRETS,
        OUTCOME_SECURITY_FILTERED,
    ] {
        let error = IndexingError::Parser(outcome.to_string());
        assert_eq!(
            categorize_error(&error.to_text()),
            ErrorCategory::Permanent,
            "{outcome:?} is deterministic — retrying it can only reach the same answer"
        );
    }
}

#[test]
fn a_genuine_parse_failure_is_still_transient() {
    let error = IndexingError::Parser("tree-sitter: unexpected end of input".to_string());
    assert_eq!(
        categorize_error(&error.to_text()),
        ErrorCategory::Transient
    );
}

#[test]
fn capitals_do_not_matter_beyond_ascii_either() {
    assert_eq!(
        categorize_error("ОШИБКА: PERMISSION DENIED"),
        ErrorCategory::Permanent
    );
    // A sign that only becomes an ASCII letter when it is written small.
    assert_eq!(
        categorize_error("\u{212A}: file not found"),
        ErrorCategory::Permanent
    );
}

// Identities.

#[test]
fn metadata_cache_salt_separates_profiles_with_identical_chunking() {
    let cpu = EmbeddingBackend::default();
    let gpu = EmbeddingBackend::from_identity(
        "emb;v=2;rt=local-fastembed-onnx-migraphx;model=Xenova%2Fbge-small-en-v1.5;dim=384;max=512;query=prefix%3ARepresent%2520this%2520sentence%2520for%2520searching%2520relevant%2520passages%253A%2520",
    )
    .expect("parse gpu identity");
    let chunking = "chunk-split:v1:target300:hard900";

    assert_ne!(
        metadata_cache_salt(&cpu, chunking),
        metadata_cache_salt(&gpu, chunking),
    );
    assert_eq!(
        metadata_cache_salt(&cpu, chunking),
        metadata_cache_salt(&cpu, chunking),
    );
}

#[test]
fn indexing_identity_changes_by_backend() {
    let path = "/tmp/rust-code-mcp-test";
    let chunking = "chunk-split:v1:target768:hard1024";
    let mut alternate = EmbeddingBackend::default();
    alternate.max_len = 2048;

    assert_ne!(
        indexing_identity(path, &EmbeddingBackend::default(), chunking),
        indexing_identity(path, &alternate, chunking)
    );
}

#[test]
fn indexing_identity_changes_by_chunking() {
    let path = "/tmp/rust-code-mcp-test";
    let backend = EmbeddingBackend::default();

    assert_ne!(
        indexing_identity(path, &backend, "chunk-split:v1:target768:hard1024"),
        indexing_identity(path, &backend, "chunk-split:v1:target512:hard768")
    );
}

#[test]
fn identities_are_written_out() {
    let backend = EmbeddingBackend::default();
    assert_eq!(
        metadata_cache_salt(&backend, "c"),
        format!("embedder{}:chunkingc", backend.identity())
    );
    assert_eq!(
        indexing_identity("/p", &backend, "c"),
        format!("index:v1:path/p:embedder{}:chunkingc", backend.identity())
    );
    assert_eq!(
        identity_hash("abc"),
        "ba7816bf8f01cfea414140de5dae2223b00361a396177a9cb410ff61f20015ad"
    );
}

#[test]
fn digests_are_those_of_sha256() {
    assert_eq!(
        hex_digest(b""),
        "e3b0c44298fc1c149afbf4c8996fb92427ae41e4649b934ca495991b7852b855"
    );
    assert_eq!(
        hex_digest(b"abc"),
        "ba7816bf8f01cfea414140de5dae2223b00361a396177a9cb410ff61f20015ad"
    );
    assert_eq!(hex(&vec![0x00, 0x0f, 0xa5, 0xff], 3), "000fa5");
}

// The walk.

fn dir(path: &str, has_marker: bool, children: Vec<Entry>) -> Entry {
    let name = path.rsplit('/').next().unwrap_or("").to_string();
    Entry::Dir {
        path: path.to_string(),
        name,
        has_marker,
        children,
    }
}

fn file(path: &str) -> Entry {
    Entry::File {
        path: path.to_string(),
    }
}

/// A tree below `at` with a source in each of `dirs`; those in `marked` hold the
/// marker.
fn tree(at: &str, dirs: &[&str], marked: &[&str]) -> Entry {
    let below = |d: &str| -> Option<String> {
        let full = format!("/t/{d}");
        strip_base(&full, at).filter(|rest| !rest.is_empty())
    };
    let mut names: Vec<String> = dirs
        .iter()
        .filter_map(|d| below(d))
        .filter_map(|rest| rest.split('/').next().map(str::to_string))
        .collect();
    names.sort();
    names.dedup();
    let mut children: Vec<Entry> = names
        .iter()
        .map(|n| tree(&format!("{at}/{n}"), dirs, marked))
        .collect();
    if dirs.iter().any(|d| format!("/t/{d}") == at) {
        children.push(file(&format!("{at}/lib.rs")));
    }
    dir(at, marked.iter().any(|m| format!("/t/{m}") == at), children)
}

fn collected(root: &str, dirs: &[&str], marked: &[&str]) -> Vec<String> {
    let found = collect_project_rust_files(&tree(root, dirs, marked));
    assert_eq!(found.walk_errors, 0);
    let mut relative: Vec<String> = found
        .files
        .iter()
        .map(|f| strip_base(f, root).expect("walked file is under root"))
        .collect();
    relative.sort();
    relative
}

#[test]
fn a_root_that_is_a_file_gives_itself() {
    let rust = file("/w/one.rs");
    assert_eq!(collect_project_rust_files(&rust).files, vec!["/w/one.rs"]);
    assert!(collect_project_rust_files(&file("/w/one.txt")).files.is_empty());
    assert_eq!(collect_project_rust_files(&Entry::Unreadable).walk_errors, 1);
}

#[test]
fn skips_build_and_generated_trees() {
    let dirs = ["src", "target/debug", "vendor/foo/src", ".skeleton/src"];
    let found = collect_project_rust_files(&tree("/t", &dirs, &[]));
    assert_eq!(found.walk_errors, 0);
    assert_eq!(
        found.files.len(),
        1,
        "only src/lib.rs is a project file: {:?}",
        found.files
    );
    assert!(found.files[0].ends_with("src/lib.rs"));
}

#[test]
fn without_a_marker_the_whole_tree_belongs_to_the_root_project() {
    assert_eq!(
        collected("/t", &["src", "patches/eframe"], &[]),
        vec!["patches/eframe/lib.rs", "src/lib.rs"]
    );
}

#[test]
fn a_marked_subtree_is_left_out_of_the_parent_walk() {
    assert_eq!(
        collected("/t", &["src", "patches/eframe", "patches/ron"], &["patches"]),
        vec!["src/lib.rs"]
    );
}

#[test]
fn a_marked_subtree_walks_fully_when_it_is_itself_the_root() {
    assert_eq!(
        collected(
            "/t/patches",
            &["src", "patches/eframe", "patches/ron"],
            &["patches"]
        ),
        vec!["eframe/lib.rs", "ron/lib.rs"]
    );
}

#[test]
fn the_boundary_is_the_marked_directory_not_its_name() {
    assert_eq!(
        collected(
            "/t",
            &["patches/eframe", "crates/foo/patches"],
            &["patches"]
        ),
        vec!["crates/foo/patches/lib.rs"]
    );
}

#[test]
fn a_marked_subtree_may_sit_deep_in_the_tree() {
    assert_eq!(
        collected(
            "/t",
            &["src", "crates/legacy/old", "crates/live"],
            &["crates/legacy"]
        ),
        vec!["crates/live/lib.rs", "src/lib.rs"]
    );
}

#[test]
fn boundaries_below_a_nested_root_still_apply() {
    assert_eq!(
        collected(
            "/t/engine",
            &["engine/src", "engine/patches/fork"],
            &["engine", "engine/patches"]
        ),
        vec!["src/lib.rs"]
    );
}

#[test]
fn the_marker_and_skipped_dirs_are_independent() {
    assert_eq!(
        collected("/t", &["src", "target/debug"], &["target"]),
        vec!["src/lib.rs"]
    );
}

#[test]
fn what_cannot_be_read_is_counted() {
    let root = dir(
        "/t",
        false,
        vec![
            Entry::Unreadable,
            Entry::Other,
            file("/t/a.txt"),
            file("/t/a.rs"),
            dir("/t/sub", true, vec![Entry::Unreadable]),
            dir("/t/other", false, vec![Entry::Unreadable, file("/t/other/b.rs")]),
        ],
    );
    let found = collect_project_rust_files(&root);
    assert_eq!(found.walk_errors, 2);
    assert_eq!(found.files, vec!["/t/a.rs", "/t/other/b.rs"]);
    assert_eq!(found.nested_roots, vec!["/t/sub"]);
}

#[test]
fn directories_are_judged_by_name_then_by_marker() {
    assert!(is_skipped_dir_name("target"));
    assert!(!is_skipped_dir_name("targets"));
    assert_eq!(descent("target", true, true), Descent::Skip);
    assert_eq!(descent("src", true, true), Descent::Enter);
    assert_eq!(descent("src", false, true), Descent::Boundary);
    assert_eq!(marker_path("/t/sub"), format!("/t/sub/{NESTED_ROOT_MARKER}"));
    assert!(is_rust_file("/a/b.rs"));
    assert!(!is_rust_file("/a/.rs"));
    assert!(!is_rust_file("/a/b.rs.txt"));
}

// The cache of what was indexed, over the store that keeps it.

struct MetadataCache {
    db: sled::Db,
}

impl MetadataCache {
    fn new(path: &std::path::Path) -> Result<Self, String> {
        let mut waited_ms: u64 = 0;
        loop {
            match sled::open(path) {
                Ok(db) => return Ok(MetadataCache { db }),
                Err(e) => {
                    let message = e.to_string();
                    match after_failed_open(is_lock_contention(&message), waited_ms) {
                        Some(step) => waited_ms += step,
                        None => return Err(message),
                    }
                }
            }
        }
    }

    fn set(&self, path: &str, metadata: &FileMetadata) {
        self.db.insert(path, metadata.encode().unwrap()).unwrap();
        self.db.flush().unwrap();
    }

    fn get(&self, path: &str) -> Option<FileMetadata> {
        self.db
            .get(path)
            .unwrap()
            .map(|bytes| FileMetadata::decode(&bytes).unwrap())
    }

    fn has_changed(&self, path: &str, content: &str) -> bool {
        has_changed(self.get(path).as_ref(), content)
    }
}

#[test]
fn a_cache_held_by_a_live_handle_fails_within_the_wait_budget() {
    let temp = tempfile::TempDir::new().unwrap();
    let path = temp.path().join("cache");
    let holder = MetadataCache::new(&path).expect("first open");
    let error = MetadataCache::new(&path)
        .err()
        .expect("second open must fail while held");
    assert!(
        is_lock_contention(&error),
        "expected lock contention, got: {error:?}"
    );
    drop(holder);
    MetadataCache::new(&path).expect("reopen after release");
}

#[test]
fn a_broken_cache_path_is_not_mistaken_for_lock_contention() {
    let file = tempfile::NamedTempFile::new().unwrap();
    let error = MetadataCache::new(file.path()).err().expect("must fail");
    assert!(
        !is_lock_contention(&error),
        "a broken path must not be retried as contention: {error:?}"
    );
}

#[test]
fn waiting_for_a_lock_comes_to_an_end() {
    assert_eq!(after_failed_open(false, 0), None);
    assert_eq!(after_failed_open(true, 0), Some(10));
    assert_eq!(after_failed_open(true, LOCK_WAIT_BUDGET_MS), None);
}

#[test]
fn test_file_metadata_creation() {
    let content = "test content";
    let metadata = FileMetadata::from_content(content, 12345, 100, 1);
    assert_eq!(metadata.last_modified, 12345);
    assert_eq!(metadata.size, 100);
    assert!(!metadata.hash.is_empty());
    assert!(metadata.indexed_at > 0);
}

#[test]
fn test_hash_consistency() {
    let content = "same content";
    let hash1 = FileMetadata::hash_content(content);
    let hash2 = FileMetadata::hash_content(content);
    assert_eq!(hash1, hash2);
}

#[test]
fn test_hash_uniqueness() {
    let hash1 = FileMetadata::hash_content("content1");
    let hash2 = FileMetadata::hash_content("content2");
    assert_ne!(hash1, hash2);
}

#[test]
fn test_metadata_cache_new() {
    let temp_dir = tempfile::TempDir::new().unwrap();
    let cache = MetadataCache::new(&temp_dir.path().join("cache")).unwrap();
    assert!(cache.db.is_empty());
}

#[test]
fn test_metadata_cache_set_get() {
    let temp_dir = tempfile::TempDir::new().unwrap();
    let cache = MetadataCache::new(&temp_dir.path().join("cache")).unwrap();
    let metadata = FileMetadata::from_content("test", 123, 10, 7);
    cache.set("test.txt", &metadata);
    let retrieved = cache.get("test.txt").unwrap();
    assert_eq!(retrieved.hash, metadata.hash);
    assert_eq!(retrieved.last_modified, metadata.last_modified);
    assert_eq!(retrieved.size, metadata.size);
    assert_eq!(retrieved.indexed_at, metadata.indexed_at);
}

#[test]
fn test_metadata_cache_has_changed() {
    let temp_dir = tempfile::TempDir::new().unwrap();
    let cache = MetadataCache::new(&temp_dir.path().join("cache")).unwrap();
    let content1 = "original content";
    let content2 = "modified content";
    assert!(cache.has_changed("test.txt", content1));
    let metadata = FileMetadata::from_content(content1, 123, 10, 7);
    cache.set("test.txt", &metadata);
    assert!(!cache.has_changed("test.txt", content1));
    assert!(cache.has_changed("test.txt", content2));
}

#[test]
fn test_metadata_cache_remove() {
    let temp_dir = tempfile::TempDir::new().unwrap();
    let cache = MetadataCache::new(&temp_dir.path().join("cache")).unwrap();
    let metadata = FileMetadata::from_content("test", 123, 10, 7);
    cache.set("test.txt", &metadata);
    assert!(cache.get("test.txt").is_some());
    cache.db.remove("test.txt").unwrap();
    assert!(cache.get("test.txt").is_none());
}

#[test]
fn test_metadata_cache_persistence() {
    let temp_dir = tempfile::TempDir::new().unwrap();
    let cache_path = temp_dir.path().join("cache");
    {
        let cache = MetadataCache::new(&cache_path).unwrap();
        let metadata = FileMetadata::from_content("test", 123, 10, 7);
        cache.set("test.txt", &metadata);
    }
    {
        let cache = MetadataCache::new(&cache_path).unwrap();
        let retrieved = cache.get("test.txt").unwrap();
        assert_eq!(retrieved.hash, FileMetadata::hash_content("test"));
    }
}

#[test]
fn paths_for_salt_keeps_only_its_own_salt() {
    let keys = vec![
        "saltA::/repo/a.rs".to_string(),
        "saltB::/repo/b.rs".to_string(),
        "saltA::/repo/c.rs".to_string(),
        "/repo/unsalted.rs".to_string(),
    ];
    let mine = paths_for_salt(keys, "saltA");
    assert_eq!(mine.len(), 2);
    assert!(mine.contains("/repo/a.rs"));
    assert!(mine.contains("/repo/c.rs"));
    assert!(!mine.contains("/repo/b.rs"));
    assert!(!mine.contains("/repo/unsalted.rs"));
}

#[test]
fn paths_for_salt_without_salt_takes_every_key_verbatim() {
    let keys = vec!["/repo/a.rs".to_string(), "saltA::/repo/b.rs".to_string()];
    let all = paths_for_salt(keys, "");
    assert_eq!(all.len(), 2);
    assert!(all.contains("/repo/a.rs"));
    assert!(all.contains("saltA::/repo/b.rs"));
}

#[test]
fn entries_have_a_fixed_form() {
    let metadata = FileMetadata {
        hash: "ab".to_string(),
        last_modified: 1,
        size: 258,
        indexed_at: 3,
    };
    let bytes = metadata.encode().unwrap();
    let mut expected = vec![2u8, 0, 0, 0, 0, 0, 0, 0, b'a', b'b'];
    expected.extend_from_slice(&[1, 0, 0, 0, 0, 0, 0, 0]);
    expected.extend_from_slice(&[2, 1, 0, 0, 0, 0, 0, 0]);
    expected.extend_from_slice(&[3, 0, 0, 0, 0, 0, 0, 0]);
    assert_eq!(bytes, expected);
    let read = FileMetadata::decode(&bytes).unwrap();
    assert_eq!((read.hash.as_str(), read.size), ("ab", 258));
    assert_eq!(
        FileMetadata::decode(&bytes[..9]).err(),
        Some(MetadataError::Malformed)
    );
    assert_eq!(
        FileMetadata::decode(&[]).err(),
        Some(MetadataError::Malformed)
    );
}

#[test]
fn a_stat_is_compared_by_time_and_size() {
    let m = FileMetadata::from_content("x", 5, 1, 9);
    assert!(!has_stat_changed(
        Some(&m),
        &FileStat {
            last_modified: 5,
            size: 1
        }
    ));
    assert!(has_stat_changed(
        Some(&m),
        &FileStat {
            last_modified: 6,
            size: 1
        }
    ));
    assert!(has_stat_changed(
        Some(&m),
        &FileStat {
            last_modified: 5,
            size: 2
        }
    ));
    assert!(has_stat_changed(
        None,
        &FileStat {
            last_modified: 5,
            size: 1
        }
    ));
}

#[test]
fn keys_of_the_store_are_texts() {
    assert_eq!(cache_key("s", "/a"), "s::/a");
    assert_eq!(cache_key("", "/a"), "/a");
    assert_eq!(
        list_files(vec![b"a".to_vec(), "ж".as_bytes().to_vec()]).unwrap(),
        vec!["a", "ж"]
    );
    assert_eq!(
        list_files(vec![b"a".to_vec(), vec![0xff]]).err(),
        Some(MetadataError::KeyNotUtf8)
    );
}

// Texts, tables and paths.

#[test]
fn texts_are_handled_as_std_handles_them() {
    for s in ["", " a b ", "\u{a0}x\u{2003}", "\u{200b}y", "ÀB"] {
        assert_eq!(trim(s), s.trim());
        assert_eq!(lower(s), s.to_ascii_lowercase());
    }
    for (a, b) in [("", "a"), ("a", "ab"), ("b", "ab"), ("ж", "z"), ("x", "x")] {
        assert_eq!(before(a, b), a < b);
        assert_eq!(before(b, a), b < a);
        assert_eq!(contains(a, b), a.contains(b));
        assert_eq!(strip_prefix(b, a).as_deref(), b.strip_prefix(a));
        assert_eq!(strip_suffix(b, a).as_deref(), b.strip_suffix(a));
    }
    for n in [0u128, 9, 10, 1234567890, u128::MAX] {
        assert_eq!(number(n), n.to_string());
    }
}

#[test]
fn numbers_are_read_as_std_reads_them() {
    for s in [
        "0",
        "+7",
        "18446744073709551615",
        "18446744073709551616",
        "",
        "+",
        "-1",
        "1x",
        " 1",
        "007",
    ] {
        match (parse_u64(s), s.parse::<u64>()) {
            (Ok(a), Ok(b)) => assert_eq!(a, b),
            (Err(a), Err(b)) => assert_eq!(a.to_text(), b.to_string(), "{s:?}"),
            _ => panic!("{s:?} is read in two ways"),
        }
    }
    assert_eq!(parse_u64(""), Err(NumberError::Empty));
    assert_eq!(parse_u64("x"), Err(NumberError::InvalidDigit));
    assert_eq!(
        parse_u64("99999999999999999999"),
        Err(NumberError::TooLarge)
    );
    let mut bytes = Vec::new();
    push_le_bytes(&mut bytes, 258, 4);
    assert_eq!(bytes, vec![2, 1, 0, 0]);
}

#[test]
fn tables_keep_their_keys_in_order() {
    let mut t: Table<u8> = Table::new();
    for (k, v) in [("m", 1), ("a", 2), ("z", 3), ("m", 4)] {
        t.insert(k.to_string(), v);
    }
    let got: Vec<(&str, u8)> = (0..t.len())
        .map(|i| (t.key_at(i).as_str(), *t.value_at(i)))
        .collect();
    assert_eq!(got, vec![("a", 2), ("m", 4), ("z", 3)]);
    assert_eq!(t.remove("a"), Some(2));
    assert_eq!(t.remove("a"), None);
    assert_eq!(t.find("z"), Some(1));
    let all = set_of(&vec!["b".to_string(), "a".to_string(), "b".to_string()]);
    let taken = set_of(&vec!["a".to_string()]);
    assert_eq!(difference(&all, &taken), vec!["b"]);
}

#[test]
fn paths_are_handled_as_std_handles_them() {
    let paths = ["/", "/a", "/a/", "/a/b", "/a//b/./c", "a", "./a", "a/../b", "", "/ab", "..", "/a.b"];
    for a in paths {
        let p = std::path::Path::new(a);
        let parts: Vec<String> = p
            .components()
            .map(|c| c.as_os_str().to_string_lossy().to_string())
            .collect();
        assert_eq!(component_texts(a), parts, "{a:?}");
        for b in paths {
            let q = std::path::Path::new(b);
            assert_eq!(starts_with(a, b), p.starts_with(q), "{a:?} {b:?}");
            assert_eq!(same_path(a, b), p == q, "{a:?} {b:?}");
            assert_eq!(path_before(a, b), p < q, "{a:?} {b:?}");
            assert_eq!(
                strip_base(a, b).as_deref(),
                p.strip_prefix(q).ok().and_then(|r| r.to_str()),
                "{a:?} {b:?}"
            );
            assert_eq!(join(a, b), p.join(q).to_string_lossy(), "{a:?} {b:?}");
            assert_eq!(normalized(a) == normalized(b), p == q, "{a:?} {b:?}");
        }
    }
    let mut sorted: Vec<std::path::PathBuf> = paths.iter().map(std::path::PathBuf::from).collect();
    sorted.sort();
    let ours = sort_paths(&paths.iter().map(|s| s.to_string()).collect());
    assert!(ours
        .iter()
        .zip(sorted.iter())
        .all(|(a, b)| std::path::Path::new(a) == b));
}

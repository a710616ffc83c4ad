use rust_code_mcp::daemon::{
    daemon_args, daemon_disabled, default_socket_path, idle_from_env, key_from_parts, lock_path,
    log_path, resolve_mode, run_client, run_daemon, socket_dir, wait_for_daemon, workspace_key,
    ChildStatus, ClientStep, Connections, DaemonEvent, ExeFacts, KeyedEnv, Mode, ModeEnv, ModeError,
    SocketEnv, WaitStep, DEFAULT_IDLE_SECS, SPAWN_WAIT_MS, USAGE,
};
use rust_code_mcp::deep_stack::{
    access, gc_interval_from_env, Access, AnalysisFailure, DEFAULT_GC_INTERVAL_SECS,
};
use rust_code_mcp::embeddings::backend::{EmbeddingBackend, EmbeddingRuntime};
use rust_code_mcp::embeddings::ep_census::{ProviderCensus, CPU_EP, DIRECTML_EP, MIGRAPHX_EP};
use rust_code_mcp::embeddings::error::EmbeddingError;
use rust_code_mcp::embeddings::generator::Build;
use rust_code_mcp::mcp::defaults::{
    automatic_embedding_profile_name, cpu_profile_on_gpu_build, cpu_profile_on_gpu_build_warning,
    cuda_capable_features_compiled, ep_census_verdict, gpu_backends_compiled,
    is_background_embedding_backend, parse_background_sync_env, parse_enabled_env,
    probe_ep_census_on_startup, resolve_automatic_profile_name, validate_automatic_profile,
    wants_ep_census, CensusProbe, BACKGROUND_SYNC_ENABLED_VALUES,
    DEFAULT_AUTOMATIC_EMBEDDING_PROFILE, EMBEDDING_PROFILE_ENV,
};
use rust_code_mcp::mcp::runtime::{analysis_memory, clear_runtime, heaviest, RuntimeClearScope};
use rust_code_mcp::monitoring::health::{
    ComponentHealth, CoverageCheck, CoverageHealth, DiskChanges, FreshnessCheck, FreshnessHealth,
    HealthMonitor, Status,
};
use rust_code_mcp::search::relevance::{
    score_case, Fraction, Mean, RelevanceCase, RelevanceSummary, RepoRelPath,
};
use rust_code_mcp::semantic::loader::{load_settings, parse_build_scripts};
use rust_code_mcp::semantic::lru_sweep::{
    freed_by_collection, price_capacity, query_bytes, IngredientMemory, Measurement, Pricing,
    PricingEvent, PricingStep, Probe, PARSE_QUERY,
};
use rust_code_mcp::semantic::position::{
    file_position, find_references, find_references_by_name, find_references_by_name_with_exact,
    goto_definition, identifier_occurrences, is_swept, is_the_wanted_name, merge_locations,
    order_symbols, path_to_file_id, probe_offset, rank_and_filter_exact, rank_symbols,
    references_found, symbol_search, symbol_search_with_exact, to_line_col, to_offset, DeclKind,
    FoundDefinition, Location, NavTarget, ResolvedDecl, SourceFile, Spot, SymbolHit, TokenScan,
};
use rust_code_mcp::semantic::service::{
    apply_edits, classify_staleness, collect_stamps, max_projects_from_env, EditedFile, FileLookup,
    FileStamp, LoadKind, QueryStep, RefreshStep, SemanticService, Staleness, StampedFile,
};
use rust_code_mcp::table::Table;
use std::cell::Cell;

// Health.

#[test]
fn test_component_health_constructors() {
    let healthy = ComponentHealth::healthy("All good", Some(50));
    assert_eq!(healthy.status, Status::Healthy);
    assert_eq!(healthy.latency_ms, Some(50));

    let degraded = ComponentHealth::degraded("Some issues");
    assert_eq!(degraded.status, Status::Degraded);
    assert_eq!(degraded.latency_ms, None);

    let unhealthy = ComponentHealth::unhealthy("Critical error");
    assert_eq!(unhealthy.status, Status::Unhealthy);
}

fn coverage_ok() -> CoverageHealth {
    CoverageHealth {
        status: Status::Healthy,
        message: "ok".to_string(),
        files_tracked: Some(3),
        files_cached: Some(3),
        files_with_vectors: Some(3),
        stale_skips: Some(0),
        stale_skip_examples: Vec::new(),
    }
}

fn freshness_ok() -> FreshnessHealth {
    FreshnessHealth {
        status: Status::Healthy,
        message: "ok".to_string(),
        files_added: Some(0),
        files_modified: Some(0),
        files_deleted: Some(0),
        examples: Vec::new(),
    }
}

type Monitor = HealthMonitor<(), ()>;

fn monitor(store: bool) -> Monitor {
    HealthMonitor::new(
        None,
        if store { Some(()) } else { None },
        "/tmp/missing.snapshot".to_string(),
    )
}

#[test]
fn a_whole_with_a_failing_snapshot_is_degraded() {
    let monitor: Monitor = HealthMonitor::new(None, None, "/tmp/merkle.snapshot".to_string());
    for snapshot in [
        ComponentHealth::unhealthy("down"),
        ComponentHealth::degraded("missing"),
    ] {
        let overall = monitor.calculate_overall_status(
            &ComponentHealth::healthy("ok", None),
            &ComponentHealth::healthy("ok", None),
            &snapshot,
            &coverage_ok(),
            &freshness_ok(),
        );
        assert_eq!(overall, Status::Degraded);
    }
}

#[test]
fn test_overall_status_calculation() {
    let monitor: Monitor = HealthMonitor::new(None, None, "/tmp/merkle.snapshot".to_string());

    let all_healthy = monitor.calculate_overall_status(
        &ComponentHealth::healthy("ok", None),
        &ComponentHealth::healthy("ok", None),
        &ComponentHealth::healthy("ok", None),
        &coverage_ok(),
        &freshness_ok(),
    );
    assert_eq!(all_healthy, Status::Healthy);

    let one_degraded = monitor.calculate_overall_status(
        &ComponentHealth::degraded("issues"),
        &ComponentHealth::healthy("ok", None),
        &ComponentHealth::healthy("ok", None),
        &coverage_ok(),
        &freshness_ok(),
    );
    assert_eq!(one_degraded, Status::Degraded);

    let both_down = monitor.calculate_overall_status(
        &ComponentHealth::unhealthy("down"),
        &ComponentHealth::unhealthy("down"),
        &ComponentHealth::healthy("ok", None),
        &coverage_ok(),
        &freshness_ok(),
    );
    assert_eq!(both_down, Status::Unhealthy);

    let one_down = monitor.calculate_overall_status(
        &ComponentHealth::unhealthy("down"),
        &ComponentHealth::healthy("ok", None),
        &ComponentHealth::healthy("ok", None),
        &coverage_ok(),
        &freshness_ok(),
    );
    assert_eq!(one_down, Status::Degraded);

    let stale = monitor.calculate_overall_status(
        &ComponentHealth::healthy("ok", None),
        &ComponentHealth::healthy("ok", None),
        &ComponentHealth::healthy("ok", None),
        &coverage_ok(),
        &FreshnessHealth {
            status: Status::Degraded,
            message: "stale".to_string(),
            files_added: Some(0),
            files_modified: Some(133),
            files_deleted: Some(0),
            examples: Vec::new(),
        },
    );
    assert_eq!(stale, Status::Degraded);
}

fn strings(items: &[&str]) -> Vec<String> {
    items.iter().map(|s| s.to_string()).collect()
}

/// Runs a whole check of the coverage, with what each step of it finds.
fn coverage_of(monitor: &Monitor, keys: &[&str], indexed: &[&str]) -> CoverageHealth {
    let check = monitor.begin_coverage();
    let check = monitor.cache_found(check, true);
    let check = monitor.cache_read(check, Ok(strings(keys)));
    let check = monitor.indexed_listed(check, Ok(strings(indexed)));
    match monitor.snapshot_counted(check, None) {
        CoverageCheck::Reported(health) => health,
        _ => panic!("the check has to come to its end"),
    }
}

fn cached_under(salt: &str) -> Vec<String> {
    ["/proj/indexed.rs", "/proj/skipped.rs"]
        .iter()
        .map(|p| format!("{salt}::{p}"))
        .collect()
}

fn refs(items: &[String]) -> Vec<&str> {
    items.iter().map(String::as_str).collect()
}

#[test]
fn coverage_catches_file_cached_as_indexed_without_vectors() {
    let salt = "chunk-split:v1:target300:hard900";
    let monitor = monitor(true).with_metadata_cache("/cache".to_string(), salt.to_string());
    let coverage = coverage_of(&monitor, &refs(&cached_under(salt)), &["/proj/indexed.rs"]);
    let health = monitor.check_health(
        ComponentHealth::healthy("ok", None),
        ComponentHealth::healthy("ok", None),
        ComponentHealth::healthy("ok", None),
        coverage,
        freshness_ok(),
    );
    assert_eq!(health.coverage.stale_skips, Some(1));
    assert_eq!(health.coverage.files_cached, Some(2));
    assert_eq!(health.coverage.files_with_vectors, Some(1));
    assert_eq!(
        health.coverage.stale_skip_examples,
        vec!["/proj/skipped.rs".to_string()]
    );
    assert_eq!(health.coverage.status, Status::Degraded);
    assert_ne!(health.overall, Status::Healthy);
}

#[test]
fn coverage_is_healthy_when_every_cached_file_has_vectors() {
    let salt = "chunk-split:v1:target300:hard900";
    let monitor = monitor(true).with_metadata_cache("/cache".to_string(), salt.to_string());
    let key = format!("{salt}::/proj/indexed.rs");
    let coverage = coverage_of(&monitor, &[&key], &["/proj/indexed.rs"]);
    assert_eq!(coverage.stale_skips, Some(0));
    assert_eq!(coverage.status, Status::Healthy);
}

#[test]
fn coverage_with_wrong_salt_is_not_reported_as_verified() {
    let monitor = monitor(true).with_metadata_cache("/cache".to_string(), "salt-b".to_string());
    let coverage = coverage_of(&monitor, &refs(&cached_under("salt-a")), &["/proj/indexed.rs"]);
    assert_eq!(coverage.files_cached, Some(0));
    assert_eq!(coverage.status, Status::Degraded);
    assert_eq!(coverage.stale_skips, None);
}

#[test]
fn coverage_without_cache_but_with_vectors_does_not_advise_force_reindex() {
    let monitor = monitor(true).with_metadata_cache("/cache".to_string(), "salt-b".to_string());
    let coverage = coverage_of(&monitor, &refs(&cached_under("salt-a")), &["/proj/indexed.rs"]);
    assert_eq!(coverage.files_cached, Some(0));
    assert_eq!(coverage.files_with_vectors, Some(1));
    assert!(
        coverage.message.contains("force_reindex is not indicated"),
        "message must say force_reindex is NOT the fix here: {}",
        coverage.message
    );
    assert!(
        !coverage.message.contains("force_reindex: true"),
        "message must not carry the force_reindex recipe: {}",
        coverage.message
    );
}

#[test]
fn coverage_with_empty_cache_and_empty_store_says_nothing_is_indexed() {
    let monitor = monitor(true).with_metadata_cache("/cache".to_string(), "salt-a".to_string());
    let coverage = coverage_of(&monitor, &[], &[]);
    assert_eq!(coverage.files_cached, Some(0));
    assert_eq!(coverage.files_with_vectors, Some(0));
    assert!(
        coverage
            .message
            .contains("nothing is indexed under this profile yet"),
        "empty store must read as never-indexed, not as lost bookkeeping: {}",
        coverage.message
    );
    assert_eq!(coverage.status, Status::Degraded);
}

fn reported(check: CoverageCheck) -> CoverageHealth {
    match check {
        CoverageCheck::Reported(health) => health,
        _ => panic!("the check has to come to its end"),
    }
}

#[test]
fn coverage_says_why_it_is_unknown() {
    assert_eq!(
        reported(monitor(false).begin_coverage()).message,
        "Coverage unknown: vector store not open, nothing to compare against"
    );
    assert_eq!(
        reported(monitor(true).begin_coverage()).message,
        "Coverage unknown: no project metadata cache (system-wide check; pass 'directory')"
    );
    let m = monitor(true).with_metadata_cache("/c".to_string(), "s".to_string());
    let gone = reported(m.cache_found(m.begin_coverage(), false));
    assert_eq!(
        gone.message,
        "Coverage unknown: metadata cache missing at /c (project never indexed?)"
    );
    let held = m.cache_found(m.begin_coverage(), true);
    let held = reported(m.cache_read(held, Err("busy".to_string())));
    assert_eq!(
        held.message,
        "Coverage unknown: cannot read metadata cache at /c: busy"
    );
    let lost = m.cache_found(m.begin_coverage(), true);
    let lost = m.cache_read(lost, Ok(vec![]));
    let lost = reported(m.indexed_listed(lost, Err("gone".to_string())));
    assert_eq!(
        lost.message,
        "Coverage unknown: cannot list indexed files in vector store: gone"
    );
    assert_eq!(lost.status, Status::Degraded);
}

#[test]
fn coverage_lists_ten_examples_at_most() {
    let keys: Vec<String> = (0..14).map(|i| format!("/p/{i:02}.rs")).collect();
    let m = monitor(true).with_metadata_cache("/c".to_string(), String::new());
    let coverage = coverage_of(&m, &refs(&keys), &["/p/00.rs"]);
    assert_eq!(coverage.stale_skips, Some(13));
    assert!(coverage.stale_skip_examples.len() <= 10);
    assert_eq!(coverage.stale_skip_examples[0], "/p/01.rs");
}

fn freshness_of(
    monitor: &Monitor,
    snapshot: Result<Option<usize>, String>,
    changes: Result<DiskChanges, String>,
) -> FreshnessHealth {
    let check = monitor.begin_freshness();
    let check = monitor.snapshot_loaded(check, snapshot);
    match monitor.tree_compared(check, changes) {
        FreshnessCheck::Reported(health) => health,
        _ => panic!("the check has to come to its end"),
    }
}

fn changes(added: &[&str], modified: &[&str], deleted: &[&str]) -> DiskChanges {
    DiskChanges {
        added: strings(added),
        modified: strings(modified),
        deleted: strings(deleted),
    }
}

#[test]
fn freshness_is_healthy_when_the_tree_matches_the_snapshot() {
    let monitor = monitor(false).with_project_root("/proj".to_string());
    let freshness = freshness_of(&monitor, Ok(Some(1)), Ok(changes(&[], &[], &[])));
    assert_eq!(freshness.status, Status::Healthy);
    assert_eq!(freshness.files_modified, Some(0));
    assert_eq!(freshness.files_added, Some(0));
    assert_eq!(freshness.files_deleted, Some(0));
}

#[test]
fn freshness_catches_an_edit_made_after_indexing() {
    let monitor = monitor(false).with_project_root("/proj".to_string());
    let freshness = freshness_of(
        &monitor,
        Ok(Some(1)),
        Ok(changes(&["src/extra.rs"], &["src/lib.rs"], &[])),
    );
    assert_eq!(freshness.status, Status::Degraded);
    assert_eq!(freshness.files_modified, Some(1));
    assert_eq!(freshness.files_added, Some(1));
    assert!(
        freshness
            .examples
            .iter()
            .any(|e| e.starts_with("modified: ")),
        "examples must say what happened to each file: {:?}",
        freshness.examples
    );
}

#[test]
fn freshness_catches_a_file_deleted_after_indexing() {
    let monitor = monitor(false).with_project_root("/proj".to_string());
    let freshness = freshness_of(&monitor, Ok(Some(1)), Ok(changes(&[], &[], &["src/lib.rs"])));
    assert_eq!(freshness.status, Status::Degraded);
    assert_eq!(freshness.files_deleted, Some(1));
}

#[test]
fn freshness_without_a_snapshot_is_degraded_not_healthy() {
    let monitor = monitor(false).with_project_root("/proj".to_string());
    let freshness = freshness_of(&monitor, Ok(None), Ok(changes(&[], &[], &[])));
    assert_eq!(freshness.status, Status::Degraded);
    assert_eq!(freshness.files_modified, None);
}

#[test]
fn freshness_without_a_project_root_is_degraded_not_healthy() {
    let freshness = freshness_of(&monitor(false), Ok(Some(1)), Ok(changes(&[], &[], &[])));
    assert_eq!(freshness.status, Status::Degraded);
    assert!(freshness.message.contains("pass 'directory'"));
}

#[test]
fn coverage_without_metadata_cache_is_degraded_not_healthy() {
    let coverage = CoverageHealth::unknown("no cache");
    assert_eq!(coverage.status, Status::Degraded);
    assert_eq!(coverage.stale_skips, None);
}

#[test]
fn components_report_their_probes() {
    let both: Monitor = HealthMonitor::new(Some(()), Some(()), "/m".to_string());
    assert_eq!(both.check_bm25(Ok(15)).status, Status::Healthy);
    assert_eq!(both.check_bm25(Ok(15)).latency_ms, Some(15));
    assert_eq!(both.check_vector(Ok((7, 42))).status, Status::Healthy);
    assert_eq!(
        both.check_bm25(Err("down".to_string())).status,
        Status::Unhealthy
    );
    assert_eq!(
        monitor(false).check_bm25(Ok(1)).message,
        "BM25 search not configured"
    );
    assert_eq!(
        monitor(false).check_vector(Ok((1, 1))).message,
        "Vector store not configured"
    );
    assert_eq!(
        both.check_merkle(Some(Ok(2048))).message,
        "Merkle snapshot exists (2048 bytes)"
    );
    assert_eq!(
        both.check_merkle(None).message,
        "Merkle snapshot not found (first index pending)"
    );
    let unreadable = both.check_merkle(Some(Err("io".to_string())));
    assert_eq!(unreadable.status, Status::Degraded);
    assert_eq!(
        unreadable.message,
        "Merkle snapshot exists but unreadable: io"
    );
    assert!(both.bm25().is_some() && both.vector_store().is_some());
    assert_eq!(both.merkle_path(), "/m");
    assert!(both.cache_path().is_none() && both.project_root().is_none());
}

// Defaults.

#[test]
fn background_sync_env_is_disabled_by_default() {
    assert!(!parse_background_sync_env(None));
    assert!(!parse_background_sync_env(Some("")));
    assert!(!parse_background_sync_env(Some("0")));
    assert!(!parse_background_sync_env(Some("false")));
}

#[test]
fn background_sync_env_accepts_explicit_true_values() {
    assert!(parse_background_sync_env(Some("1")));
    assert!(parse_background_sync_env(Some("true")));
    assert!(parse_background_sync_env(Some("YES")));
    assert!(parse_background_sync_env(Some(" on ")));
    for word in BACKGROUND_SYNC_ENABLED_VALUES.split('/') {
        assert!(parse_background_sync_env(Some(word)));
    }
}

#[test]
fn cpu_profile_is_only_worth_warning_about_on_a_gpu_build() {
    let cpu = EmbeddingBackend::from_profile_name("local-cpu-small").unwrap();
    let gpu = EmbeddingBackend::from_profile_name("local-gpu-bge").unwrap();

    assert!(cpu_profile_on_gpu_build(&["migraphx"], &cpu));
    assert!(!cpu_profile_on_gpu_build(&[], &cpu));
    assert!(!cpu_profile_on_gpu_build(&["migraphx"], &gpu));
    assert!(!cpu_profile_on_gpu_build(&[], &gpu));
}

#[test]
fn profile_env_absent_or_blank_falls_back_to_cpu_default() {
    assert_eq!(resolve_automatic_profile_name(None), "local-cpu-small");
    assert_eq!(resolve_automatic_profile_name(Some("")), "local-cpu-small");
    assert_eq!(
        resolve_automatic_profile_name(Some("   ")),
        "local-cpu-small"
    );
}

#[test]
fn profile_env_selects_the_named_profile() {
    assert_eq!(
        resolve_automatic_profile_name(Some("local-gpu-bge")),
        "local-gpu-bge"
    );
    assert_eq!(
        resolve_automatic_profile_name(Some(" local-gpu-bge\n")),
        "local-gpu-bge"
    );
}

#[test]
fn default_profile_is_a_cpu_background_capable_backend() {
    let backend = EmbeddingBackend::from_profile_name(DEFAULT_AUTOMATIC_EMBEDDING_PROFILE)
        .expect("default profile resolves");

    assert_eq!(backend.profile.name(), "local-cpu-small");
    assert!(is_background_embedding_backend(&backend));
}

#[test]
fn unknown_profile_name_is_rejected() {
    let requested = resolve_automatic_profile_name(Some("local-gpu-bge-typo"));

    assert!(
        EmbeddingBackend::from_profile_name(&requested).is_err(),
        "a typo in the profile name must not resolve"
    );
}

#[test]
fn a_profile_of_the_project_is_as_good_as_a_built_in_one() {
    assert_eq!(
        validate_automatic_profile("x", None).unwrap_err(),
        "unknown embedding profile `x`"
    );
    let own = EmbeddingBackend::from_profile_name("local-cpu-small").ok();
    assert!(validate_automatic_profile("x", own).is_ok());
    assert_eq!(
        automatic_embedding_profile_name(Some("x"), None).unwrap_err(),
        format!(
            "{EMBEDDING_PROFILE_ENV}='x' is not a usable embedding profile: unknown embedding \
             profile `x`"
        )
    );
    assert_eq!(
        automatic_embedding_profile_name(None, None).unwrap(),
        "local-cpu-small"
    );
}

fn profile_json(nodes: &[(&str, &str)]) -> String {
    let events: Vec<String> = nodes
        .iter()
        .flat_map(|(name, provider)| {
            ["_fence_before", "_kernel_time", "_fence_after"]
                .into_iter()
                .map(move |phase| {
                    format!(
                        "{{\"cat\":\"Node\",\"name\":\"{name}{phase}\",\"dur\":7,\
                         \"args\":{{\"provider\":\"{provider}\"}}}}"
                    )
                })
        })
        .collect();
    format!("[{}]", events.join(","))
}

fn census(nodes: &[(&str, &str)]) -> ProviderCensus {
    match ProviderCensus::from_profile_json(&profile_json(nodes)) {
        Ok(census) => census,
        Err(e) => panic!("{}", e.to_text()),
    }
}

#[test]
fn ep_verdict_accepts_a_fused_migraphx_node() {
    let census = census(&[("MIGraphX_0", MIGRAPHX_EP)]);
    assert!(ep_census_verdict(
        EmbeddingRuntime::LocalFastembedOnnxMigraphx,
        "local-gpu-bge",
        &census
    )
    .is_ok());
}

#[test]
fn ep_verdict_accepts_a_directml_node() {
    let census = census(&[("MatMul_0", DIRECTML_EP)]);
    assert!(ep_census_verdict(
        EmbeddingRuntime::LocalFastembedOnnxDirectml,
        "local-dml-bge",
        &census
    )
    .is_ok());
}

#[test]
fn ep_verdict_asks_the_provider_that_matches_the_runtime() {
    let dml_only = census(&[("MatMul_0", DIRECTML_EP)]);
    assert!(
        ep_census_verdict(
            EmbeddingRuntime::LocalFastembedOnnxMigraphx,
            "local-gpu-bge",
            &dml_only
        )
        .is_err(),
        "a profile for MIGraphX passed without a node on it"
    );
    let migraphx_only = census(&[("MIGraphX_0", MIGRAPHX_EP)]);
    assert!(
        ep_census_verdict(
            EmbeddingRuntime::LocalFastembedOnnxDirectml,
            "local-dml-bge",
            &migraphx_only
        )
        .is_err(),
        "a profile for DirectML passed without a node on it"
    );
}

#[test]
fn ep_verdict_rejects_a_silent_cpu_fallback() {
    let census = census(&[("Add_1", CPU_EP), ("MatMul_2", CPU_EP)]);
    let verdict = ep_census_verdict(
        EmbeddingRuntime::LocalFastembedOnnxMigraphx,
        "local-gpu-bge",
        &census,
    );
    assert!(verdict.is_err(), "a fallback passed");
    let message = verdict.unwrap_err();
    assert!(message.contains("fell back to CPU"));
    assert_eq!(
        message,
        "profile `local-gpu-bge` asks for MIGraphX, but not a single graph node ran on it \
         (census: 2 nodes: CPUExecutionProvider=2) — the graph silently fell back to CPU"
    );
}

#[test]
fn ep_verdict_says_nothing_about_cpu_profiles() {
    let census = census(&[("Add_1", CPU_EP)]);
    assert!(ep_census_verdict(
        EmbeddingRuntime::LocalFastembedOnnxCpu,
        "local-cpu-small",
        &census
    )
    .is_ok());
}

#[test]
fn ep_census_env_shares_the_enabled_vocabulary() {
    assert!(!parse_enabled_env(None));
    assert!(!parse_enabled_env(Some("0")));
    assert!(parse_enabled_env(Some("1")));
    assert!(parse_enabled_env(Some(" ON\n")));
}

#[test]
fn the_census_at_the_start_is_taken_where_it_is_asked_for() {
    let cpu = EmbeddingBackend::from_profile_name("local-cpu-small").unwrap();
    let mut remote = EmbeddingBackend::from_profile_name("local-cpu-small").unwrap();
    remote.runtime = EmbeddingRuntime::OpenRouter;
    assert_eq!(wants_ep_census(None, &cpu), CensusProbe::NotAsked);
    assert_eq!(wants_ep_census(Some("1"), &remote), CensusProbe::NoGraph);
    assert_eq!(wants_ep_census(Some("1"), &cpu), CensusProbe::Probe);
    assert_eq!(
        probe_ep_census_on_startup(None, &cpu, Ok(census(&[("a", CPU_EP)]))),
        Ok(None)
    );
    assert_eq!(
        probe_ep_census_on_startup(Some("on"), &cpu, Ok(census(&[("a", CPU_EP)]))),
        Ok(Some("1 nodes: CPUExecutionProvider=1".to_string()))
    );
    assert_eq!(
        probe_ep_census_on_startup(Some("on"), &cpu, Err(EmbeddingError::model_init("x"))),
        Err(
            "EP census probe failed for profile `local-cpu-small`: Model initialization failed: x"
                .to_string()
        )
    );
    let gpu = EmbeddingBackend::from_profile_name("local-gpu-bge").unwrap();
    assert!(
        probe_ep_census_on_startup(Some("on"), &gpu, Ok(census(&[("a", CPU_EP)]))).is_err()
    );
}

#[test]
fn the_build_is_told() {
    let build = |cuda, migraphx, directml| Build {
        cuda,
        migraphx,
        directml,
    };
    assert_eq!(gpu_backends_compiled(build(false, false, false)), "none");
    assert_eq!(gpu_backends_compiled(build(true, false, true)), "cuda,directml");
    assert!(cuda_capable_features_compiled(build(true, false, false)));
    assert!(!cuda_capable_features_compiled(build(false, true, false)));
    let cpu = EmbeddingBackend::from_profile_name("local-cpu-small").unwrap();
    assert_eq!(
        cpu_profile_on_gpu_build_warning(build(false, false, false), &cpu),
        None
    );
    let warning = cpu_profile_on_gpu_build_warning(build(false, true, false), &cpu).unwrap();
    assert!(warning.starts_with("This binary is built with GPU backends (migraphx) but the "));
    assert!(warning.contains("Set RMC_EMBEDDING_PROFILE=local-gpu-bge for the GPU profile"));
    let mut cuda = EmbeddingBackend::from_profile_name("local-cpu-small").unwrap();
    cuda.runtime = EmbeddingRuntime::LocalQwen3CandleCuda;
    assert!(!is_background_embedding_backend(&cuda));
}

#[test]
fn build_scripts_are_on_unless_switched_off() {
    assert!(parse_build_scripts(None), "unset must mean on");
    for off in ["0", "off", "false", "no", " OFF ", "No"] {
        assert!(
            !parse_build_scripts(Some(off)),
            "{off:?} must switch build scripts off"
        );
    }
    for on in ["1", "true", "yes", "", "please"] {
        assert!(
            parse_build_scripts(Some(on)),
            "{on:?} is not an off-switch and must leave build scripts on"
        );
    }
    let full = load_settings(LoadKind::Full, Some("0"));
    assert!(full.all_targets && full.set_test && !full.build_scripts);
    assert!(load_settings(LoadKind::Fast, None).no_deps);
}

// Runtime tools.

#[test]
fn analysis_memory_will_not_load_a_project_to_answer() {
    let service: SemanticService<()> = SemanticService::new(None);
    let error = analysis_memory(&service, "/tmp/project", None)
        .err()
        .expect("an unloaded project has no memory report to give");
    assert!(
        error.contains("no analysis is loaded"),
        "unexpected error: {error}"
    );
    assert_eq!(service.status().project_count, 0);
}

#[test]
fn the_memory_of_a_loaded_analysis_is_told() {
    let mut service: SemanticService<u8> = SemanticService::new(None);
    service.enter("/p".to_string(), LoadKind::Fast, Table::new(), 9);
    let (project, top) = analysis_memory(&service, "/p", None).ok().unwrap();
    assert_eq!((project.context, top), (9, 25));
    assert_eq!(analysis_memory(&service, "/p", Some(0)).ok().unwrap().1, 0);
    assert!(service.loaded("/p").is_ok());
    assert_eq!(service.loaded("/q").err().unwrap(), "Project not loaded");
}

#[test]
fn runtime_clear_workspace_requires_workspace_param() {
    let error = clear_runtime(Some(RuntimeClearScope::Workspace), None)
        .expect_err("workspace scope should require workspace");
    assert!(error.contains("workspace is required"));
}

#[test]
fn clearing_is_of_everything_unless_said_otherwise() {
    let all = clear_runtime(None, None).unwrap();
    assert_eq!(all.scope, RuntimeClearScope::All);
    assert_eq!(all.workspace, None);
    let one = clear_runtime(Some(RuntimeClearScope::Workspace), Some("/w".to_string())).unwrap();
    assert_eq!(one.workspace.as_deref(), Some("/w"));
    assert!(clear_runtime(Some(RuntimeClearScope::SemanticOnly), None).is_ok());
}

#[test]
fn what_goes_wrong_around_an_analysis_is_said() {
    assert_eq!(access(true), Access::Exclusive);
    assert_eq!(access(false), Access::Shared);
    let what = || "graph".to_string();
    assert_eq!(
        AnalysisFailure::NotStarted {
            what: what(),
            cause: "no memory".to_string()
        }
        .to_text(),
        "graph: failed to spawn analysis thread: no memory"
    );
    assert_eq!(
        AnalysisFailure::Panicked { what: what() }.to_text(),
        "graph: analysis thread panicked"
    );
    assert_eq!(
        AnalysisFailure::NotLocked {
            cause: "poisoned".to_string()
        }
        .to_text(),
        "Failed to acquire lock: poisoned"
    );
}

// Relevance.

fn paths(items: &[&str]) -> Vec<RepoRelPath> {
    items.iter().map(|p| RepoRelPath::new(p)).collect()
}

fn case(expected: &[&str]) -> RelevanceCase {
    RelevanceCase {
        query: "where does indexing live".to_string(),
        expected_files: paths(expected),
        rationale: String::new(),
    }
}

fn share(f: Fraction) -> f64 {
    f.part as f64 / f.whole as f64
}

fn mean(m: &Mean) -> f64 {
    if m.terms.is_empty() {
        return 0.0;
    }
    m.terms.iter().map(|f| share(*f)).sum::<f64>() / m.terms.len() as f64
}

#[test]
fn perfect_ranking_scores_one() {
    let score = score_case(&case(&["a.rs", "b.rs"]), &paths(&["a.rs", "b.rs", "c.rs"])).unwrap();
    assert_eq!(share(score.recall_at_5), 1.0);
    assert_eq!(share(score.reciprocal_rank), 1.0);
    assert!(score.any_hit);
}

#[test]
fn reciprocal_rank_follows_the_first_hit() {
    let score = score_case(&case(&["b.rs"]), &paths(&["x.rs", "y.rs", "b.rs"])).unwrap();
    assert_eq!(share(score.reciprocal_rank), 1.0 / 3.0);
    assert_eq!(share(score.recall_at_5), 1.0);
}

#[test]
fn repeated_file_in_the_top_does_not_inflate_recall() {
    let score = score_case(
        &case(&["a.rs", "b.rs"]),
        &paths(&["a.rs", "a.rs", "a.rs", "a.rs", "a.rs", "b.rs"]),
    )
    .unwrap();
    assert_eq!(share(score.recall_at_5), 0.5);
    assert_eq!(share(score.recall_at_10), 1.0);
}

#[test]
fn cutoff_counts_results_not_distinct_files() {
    let score = score_case(
        &case(&["b.rs"]),
        &paths(&["x.rs", "x.rs", "x.rs", "x.rs", "x.rs", "b.rs"]),
    )
    .unwrap();
    assert_eq!(share(score.recall_at_5), 0.0);
    assert_eq!(share(score.recall_at_10), 1.0);
    assert!(score.any_hit, "a hit past the cutoff is still a hit");
}

#[test]
fn a_miss_is_a_miss_not_a_missing_measurement() {
    let score = score_case(&case(&["b.rs"]), &paths(&["x.rs", "y.rs"])).unwrap();
    assert_eq!(share(score.recall_at_10), 0.0);
    assert_eq!(share(score.reciprocal_rank), 0.0);
    assert!(!score.any_hit);
}

#[test]
fn unlabelled_case_is_rejected_rather_than_scored() {
    let err = score_case(&case(&[]), &paths(&["a.rs"])).unwrap_err();
    assert!(err.contains("no expected files"), "{err}");
    let empty_query = RelevanceCase {
        query: "   ".to_string(),
        expected_files: paths(&["a.rs"]),
        rationale: String::new(),
    };
    assert!(empty_query.validate().is_err());
}

#[test]
fn summary_keeps_missed_queries_in_the_denominator() {
    let hit = score_case(&case(&["a.rs"]), &paths(&["a.rs"])).unwrap();
    let miss = score_case(&case(&["a.rs"]), &paths(&["z.rs"])).unwrap();
    let summary = RelevanceSummary::from_scores(&vec![hit, miss], 0);
    assert_eq!(summary.queries, 2);
    assert_eq!(summary.queries_without_hit, 1);
    assert_eq!(mean(&summary.mrr), 0.5);
    assert_eq!(mean(&summary.mean_recall_at_10), 0.5);
}

#[test]
fn summary_reports_coverage_of_an_empty_run() {
    let summary = RelevanceSummary::from_scores(&vec![], 7);
    assert_eq!(summary.queries, 0);
    assert_eq!(summary.unjudgeable_results, 7);
    assert_eq!(mean(&summary.mrr), 0.0);
}

#[test]
fn indexed_paths_are_made_relative_to_the_repo_root() {
    let root = "/home/user/repo";
    assert_eq!(
        RepoRelPath::from_indexed_path("/home/user/repo/crates/a/src/lib.rs", root),
        Some(RepoRelPath::new("crates/a/src/lib.rs"))
    );
    assert_eq!(
        RepoRelPath::from_indexed_path("/elsewhere/lib.rs", root),
        None
    );
    assert_eq!(
        RepoRelPath::from_indexed_path("/home/user/repo/a\\b.rs", root),
        Some(RepoRelPath::new("a/b.rs"))
    );
}

// The daemon.

fn env() -> ModeEnv {
    ModeEnv {
        default_socket: Ok("/run/default.sock".to_string()),
        daemon: None,
        idle_secs: None,
    }
}

fn mode_of(args: &[&str]) -> Mode {
    resolve_mode(&strings(args), &env()).expect("mode")
}

#[test]
fn explicit_socket_wins_over_computed_key() {
    let mode = mode_of(&["--daemon", "--socket", "/tmp/x.sock", "--idle-secs", "5"]);
    assert_eq!(
        mode,
        Mode::Daemon {
            socket: "/tmp/x.sock".to_string(),
            idle_secs: 5,
        }
    );
}

#[test]
fn in_process_is_explicit_opt_out() {
    assert_eq!(
        mode_of(&["--in-process", "--socket", "/tmp/x.sock"]),
        Mode::InProcess
    );
}

#[test]
fn two_modes_at_once_are_rejected() {
    assert!(resolve_mode(&strings(&["--daemon", "--client"]), &env()).is_err());
}

#[test]
fn unknown_argument_is_rejected() {
    assert!(resolve_mode(&strings(&["--socks"]), &env()).is_err());
}

#[test]
fn wrong_arguments_are_named() {
    let said = |args: &[&str], env: &ModeEnv| -> String {
        resolve_mode(&strings(args), env).unwrap_err().to_text()
    };
    assert_eq!(
        said(&["--daemon", "--client"], &env()),
        "режимы --daemon и --client несовместимы"
    );
    assert_eq!(said(&["--socket"], &env()), "--socket требует путь");
    assert_eq!(said(&["--idle-secs"], &env()), "--idle-secs требует число");
    assert_eq!(
        said(&["--idle-secs", "x"], &env()),
        "invalid digit found in string"
    );
    assert_eq!(said(&["--socks"], &env()), "неизвестный аргумент --socks");
    let nowhere = ModeEnv {
        default_socket: Err("nowhere".to_string()),
        daemon: None,
        idle_secs: None,
    };
    assert_eq!(said(&[], &nowhere), "nowhere");
    assert!(matches!(
        resolve_mode(&strings(&["--socket"]), &env()),
        Err(ModeError::SocketNeedsPath)
    ));
}

#[test]
fn without_arguments_the_environment_decides() {
    assert_eq!(
        mode_of(&[]),
        Mode::Client {
            socket: "/run/default.sock".to_string()
        }
    );
    let off = ModeEnv {
        default_socket: Ok("/s".to_string()),
        daemon: Some(" OFF ".to_string()),
        idle_secs: Some("7".to_string()),
    };
    assert_eq!(resolve_mode(&vec![], &off).ok(), Some(Mode::InProcess));
    assert_eq!(
        resolve_mode(&strings(&["--client", "--socket", "/tmp/x.sock"]), &off).ok(),
        Some(Mode::InProcess),
        "the switch holds for a client that is named, too"
    );
    assert_eq!(
        mode_of(&["--client", "--socket", "/tmp/x.sock"]),
        Mode::Client {
            socket: "/tmp/x.sock".to_string()
        }
    );
    assert_eq!(
        resolve_mode(&daemon_args("/d.sock"), &off).ok(),
        Some(Mode::Daemon {
            socket: "/d.sock".to_string(),
            idle_secs: 7
        })
    );
    assert_eq!(mode_of(&["-h", "--nonsense"]), Mode::Help);
    assert_eq!(
        mode_of(&["--print-socket"]),
        Mode::PrintSocket {
            socket: "/run/default.sock".to_string()
        }
    );
    assert!(daemon_disabled(Some("no")) && !daemon_disabled(None));
    assert_eq!(idle_from_env(Some(" 0 ")), 0);
    assert_eq!(idle_from_env(Some("soon")), DEFAULT_IDLE_SECS);
    assert!(USAGE.contains("--print-socket"));
}

fn key(cwd: &str, exe: &str, len: u64, mtime: u128, profile: &str) -> String {
    key_from_parts(
        cwd.as_bytes(),
        exe.as_bytes(),
        len,
        mtime,
        &vec![(EMBEDDING_PROFILE_ENV.to_string(), profile.to_string())],
    )
}

#[test]
fn key_is_stable_for_same_inputs() {
    assert_eq!(
        key("/repo", "/bin/mcp", 10, 20, "gpu"),
        key("/repo", "/bin/mcp", 10, 20, "gpu")
    );
}

#[test]
fn key_depends_on_keyed_env() {
    assert_ne!(
        key("/repo", "/bin/mcp", 10, 20, "gpu"),
        key("/repo", "/bin/mcp", 10, 20, "cpu")
    );
}

#[test]
fn key_depends_on_project() {
    assert_ne!(
        key("/repo-a", "/bin/mcp", 10, 20, "gpu"),
        key("/repo-b", "/bin/mcp", 10, 20, "gpu")
    );
}

#[test]
fn key_depends_on_binary_identity() {
    assert_ne!(
        key("/repo", "/bin/mcp", 10, 20, "gpu"),
        key("/repo", "/bin/mcp", 10, 21, "gpu"),
        "another time of the binary is another daemon"
    );
    assert_ne!(
        key("/repo", "/bin/mcp", 10, 20, "gpu"),
        key("/repo", "/bin/mcp", 11, 20, "gpu"),
        "another size of the binary is another daemon"
    );
}

#[test]
fn the_key_of_a_workspace_holds_its_settings() {
    let values = |profile: Option<&str>| KeyedEnv {
        embedding_profile: profile.map(str::to_string),
        background_sync: None,
        ep_census: Some("1".to_string()),
    };
    let facts = Some(ExeFacts {
        len: 10,
        modified: Some(20),
    });
    let got = workspace_key(b"/repo", b"/bin/mcp", facts, &values(None));
    let expected = key_from_parts(
        b"/repo",
        b"/bin/mcp",
        10,
        20,
        &vec![
            ("RMC_EMBEDDING_PROFILE".to_string(), "<unset>".to_string()),
            ("RMC_BACKGROUND_SYNC".to_string(), "<unset>".to_string()),
            ("RMC_EP_CENSUS".to_string(), "1".to_string()),
        ],
    );
    assert_eq!(got, expected);
    assert_eq!(got.len(), 16);
    assert_ne!(
        got,
        workspace_key(b"/repo", b"/bin/mcp", facts, &values(Some("gpu")))
    );
    assert_ne!(got, workspace_key(b"/repo", b"/bin/mcp", None, &values(None)));
}

#[test]
fn a_key_is_the_head_of_a_digest() {
    // The digest of `/r`, a zero byte, `/b`, and the two numbers.
    let mut message = b"/r\0/b".to_vec();
    message.extend_from_slice(&5u64.to_le_bytes());
    message.extend_from_slice(&6u128.to_le_bytes());
    let whole = rust_code_mcp::digest::hex_digest(&message);
    assert_eq!(key_from_parts(b"/r", b"/b", 5, 6, &vec![]), whole[..16]);
}

#[test]
fn the_socket_of_a_project_is_its_key_in_the_directory_of_sockets() {
    let values = KeyedEnv {
        embedding_profile: None,
        background_sync: Some("1".to_string()),
        ep_census: None,
    };
    let env = |daemon_dir: Option<&str>, runtime_dir: Option<&str>| SocketEnv {
        daemon_dir: daemon_dir.map(str::to_string),
        runtime_dir: runtime_dir.map(str::to_string),
        user: Some("me".to_string()),
        temp_dir: "/tmp".to_string(),
    };
    let facts = Some(ExeFacts {
        len: 10,
        modified: None,
    });
    let at = |env: &SocketEnv, cwd: &str| {
        default_socket_path(env, cwd.as_bytes(), b"/bin/mcp", facts, &values)
    };
    let key = key_from_parts(
        b"/repo",
        b"/bin/mcp",
        10,
        0,
        &vec![
            ("RMC_EMBEDDING_PROFILE".to_string(), "<unset>".to_string()),
            ("RMC_BACKGROUND_SYNC".to_string(), "1".to_string()),
            ("RMC_EP_CENSUS".to_string(), "<unset>".to_string()),
        ],
    );
    assert_eq!(at(&env(Some("/d"), Some("/r")), "/repo"), format!("/d/{key}.sock"));
    assert_eq!(
        at(&env(None, Some("/r")), "/repo"),
        format!("/r/rust-code-mcp/{key}.sock")
    );
    assert_eq!(
        at(&env(None, None), "/repo"),
        format!("/tmp/rust-code-mcp-me/{key}.sock")
    );
    let named = env(Some("/d"), None);
    assert_eq!(at(&named, "/repo"), at(&named, "/repo"));
    assert_ne!(at(&named, "/repo"), at(&named, "/other"));
}

#[test]
fn sockets_have_their_places() {
    assert_eq!(socket_dir(Some("/d"), Some("/r"), None, "/tmp"), "/d");
    assert_eq!(socket_dir(None, Some("/r"), None, "/tmp"), "/r/rust-code-mcp");
    assert_eq!(
        socket_dir(None, Some(""), Some("me"), "/tmp"),
        "/tmp/rust-code-mcp-me"
    );
    assert_eq!(
        socket_dir(None, None, None, "/tmp"),
        "/tmp/rust-code-mcp-shared"
    );
    assert_eq!(lock_path("/d/k.sock"), "/d/k.lock");
    assert_eq!(log_path("/d/k.sock"), "/d/k.log");
}

#[test]
fn a_client_starts_a_daemon_under_the_lock_and_falls_back() {
    let mut step = ClientStep::Connect;
    let mut seen = vec![step];
    // Nothing answers, everything else works.
    while !matches!(step, ClientStep::Finished { .. } | ClientStep::Broken) {
        let ok = !matches!(
            step,
            ClientStep::Connect | ClientStep::Reconnect | ClientStep::LookForStale
        );
        step = run_client(step, ok, true);
        seen.push(step);
    }
    assert_eq!(
        seen,
        vec![
            ClientStep::Connect,
            ClientStep::PrepareDir,
            ClientStep::TakeLock,
            ClientStep::Reconnect,
            ClientStep::LookForStale,
            ClientStep::Spawn,
            ClientStep::Await,
            ClientStep::ReleaseLock { connected: true },
            ClientStep::Proxy,
            ClientStep::Finished { served: true },
        ]
    );
    assert_eq!(
        run_client(ClientStep::TakeLock, false, true),
        ClientStep::Finished { served: false }
    );
    assert_eq!(run_client(ClientStep::Proxy, false, true), ClientStep::Broken);
}

#[test]
fn a_daemon_is_waited_for_while_it_lives() {
    assert_eq!(
        wait_for_daemon(true, ChildStatus::Exited, 0),
        WaitStep::Connected
    );
    assert_eq!(
        wait_for_daemon(false, ChildStatus::Exited, 0),
        WaitStep::GiveUp
    );
    assert_eq!(
        wait_for_daemon(false, ChildStatus::Running, SPAWN_WAIT_MS),
        WaitStep::KillAndGiveUp
    );
}

#[test]
fn a_daemon_leaves_when_nobody_is_left() {
    let mut c = Connections::new(100);
    let accepted = run_daemon(&mut c, DaemonEvent::Accepted, 30, 110);
    assert!(accepted.serve && !accepted.stop);
    assert!(!run_daemon(&mut c, DaemonEvent::Tick, 30, 1000).stop);
    c.left(1000);
    assert!(!run_daemon(&mut c, DaemonEvent::Tick, 30, 1029).stop);
    assert!(run_daemon(&mut c, DaemonEvent::Tick, 30, 1030).stop);
    assert!(!run_daemon(&mut c, DaemonEvent::Tick, 0, 9999).stop);
    assert!(run_daemon(&mut c, DaemonEvent::AcceptFailed, 0, 0).stop);
    run_daemon(&mut c, DaemonEvent::Accepted, 0, 0);
    let told = run_daemon(&mut c, DaemonEvent::Terminated, 0, 0);
    assert!(told.stop && !told.serve, "a daemon that is told to end ends, whoever it serves");
}

// The semantic service.

fn stamps(files: &[(&str, i128)]) -> Table<FileStamp> {
    let files: Vec<StampedFile> = files
        .iter()
        .map(|(p, t)| StampedFile {
            path: p.to_string(),
            stamp: Some(FileStamp {
                modified: *t,
                len: 1,
            }),
        })
        .collect();
    collect_stamps(&files)
}

/// Asks a project, and loads it where that is needed.
fn ask(service: &mut SemanticService<u32>, path: &str) {
    service
        .get_or_load_kind(path, LoadKind::Fast, || stamps(&[]), |_, _| Ok(1), |_, _| Ok(()))
        .unwrap();
}

fn loaded(service: &SemanticService<u32>) -> Vec<String> {
    service.status().projects.into_iter().map(|p| p.path).collect()
}

#[test]
fn runtime_semantic_status_and_clear_are_workspace_scoped() {
    let mut service: SemanticService<u32> = SemanticService::new(None);
    service.enter("/w".to_string(), LoadKind::Fast, stamps(&[]), 1);

    let status = service.status();
    assert_eq!(status.project_count, 1);
    assert_eq!(status.projects[0].load_kind, "fast");

    assert_eq!(service.clear_project("/w"), 1);
    assert_eq!(service.project_count(), 0);
    assert_eq!(service.clear_all(), 0);
}

#[test]
fn references_see_an_edit_made_after_the_project_was_cached() {
    let mut service: SemanticService<u32> = SemanticService::new(None);
    service.enter(
        "/w".to_string(),
        LoadKind::Fast,
        stamps(&[("/w/src/lib.rs", 1)]),
        1,
    );
    let edited = stamps(&[("/w/src/lib.rs", 2)]);
    match service.refresh_step("/w", &edited) {
        RefreshStep::Patch(files) => assert_eq!(files, vec!["/w/src/lib.rs"]),
        other => panic!("the edit must be visible, got {other:?}"),
    }
    assert!(service.edits_applied("/w", edited));
    let same = stamps(&[("/w/src/lib.rs", 2)]);
    assert!(matches!(
        service.refresh_step("/w", &same),
        RefreshStep::Serve
    ));
}

#[test]
fn references_see_a_call_site_added_in_a_new_file() {
    let mut service: SemanticService<u32> = SemanticService::new(None);
    service.enter(
        "/w".to_string(),
        LoadKind::Fast,
        stamps(&[("/w/src/lib.rs", 1)]),
        1,
    );
    let grown = stamps(&[("/w/src/extra.rs", 2), ("/w/src/lib.rs", 2)]);
    assert!(matches!(
        service.refresh_step("/w", &grown),
        RefreshStep::Reload
    ));
}

#[test]
fn an_untouched_project_is_not_reloaded() {
    let before = stamps(&[("/w/src/lib.rs", 1)]);
    let mut service: SemanticService<u32> = SemanticService::new(None);
    service.enter(
        "/w".to_string(),
        LoadKind::Fast,
        stamps(&[("/w/src/lib.rs", 1)]),
        1,
    );
    let now = &service.get("/w").unwrap().stamps;
    assert!(
        matches!(classify_staleness(&before, now), Staleness::Fresh),
        "an untouched tree must classify as fresh"
    );
    assert_eq!(
        service.query_step("/w", LoadKind::Fast),
        QueryStep::Check
    );
}

#[test]
fn a_third_project_evicts_the_least_recently_used_not_the_oldest() {
    let mut service: SemanticService<u32> = SemanticService::with_max_projects(2);
    ask(&mut service, "/first");
    ask(&mut service, "/second");
    ask(&mut service, "/first");
    ask(&mut service, "/third");
    assert_eq!(
        loaded(&service),
        vec!["/first", "/third"],
        "the cap must keep the two most recently used projects"
    );
}

#[test]
fn the_project_being_used_is_never_the_victim() {
    let mut service: SemanticService<u32> = SemanticService::with_max_projects(1);
    ask(&mut service, "/first");
    ask(&mut service, "/second");
    assert_eq!(
        loaded(&service),
        vec!["/second"],
        "the project just queried is the one that stays"
    );
}

#[test]
fn a_cap_of_zero_evicts_nothing() {
    let mut service: SemanticService<u32> = SemanticService::with_max_projects(0);
    for path in ["/a", "/b", "/c"] {
        service.enter(path.to_string(), LoadKind::Fast, stamps(&[]), 1);
    }
    assert_eq!(service.used("/a"), 0);
    assert_eq!(
        service.project_count(),
        3,
        "an unlimited cap holds everything"
    );
    assert_eq!(max_projects_from_env(Some("0")), 0);
    assert_eq!(max_projects_from_env(None), 2);
    assert_eq!(max_projects_from_env(Some("many")), 2);
}

#[test]
fn a_rename_wants_the_whole_workspace() {
    let mut service: SemanticService<u32> = SemanticService::new(None);
    ask(&mut service, "/w");
    assert_eq!(
        service.query_step("/w", LoadKind::Full),
        QueryStep::Load
    );
    service.enter("/w".to_string(), LoadKind::Full, stamps(&[]), 2);
    assert_eq!(
        service.query_step("/w", LoadKind::Fast),
        QueryStep::Check
    );
    assert!(matches!(
        service.refresh_step("/other", &stamps(&[])),
        RefreshStep::NotLoaded
    ));
}

#[test]
fn edits_are_applied_all_or_not_at_all() {
    let edited = |lookup, text: Option<&str>| EditedFile {
        path: "/w/a.rs".to_string(),
        lookup,
        text: text.map(str::to_string),
    };
    let updates = apply_edits(vec![edited(FileLookup::Known(7), Some("x"))])
        .ok()
        .unwrap();
    assert_eq!((updates[0].file, updates[0].text.as_str()), (7, "x"));
    assert!(apply_edits(vec![edited(FileLookup::Missing, Some("x"))]).is_err());
    assert!(apply_edits(vec![edited(FileLookup::Excluded, Some("x"))]).is_err());
    assert!(apply_edits(vec![
        edited(FileLookup::Known(1), Some("x")),
        edited(FileLookup::Known(2), None)
    ])
    .is_err());
}

#[test]
fn a_file_that_cannot_be_asked_has_no_stamp() {
    let files = vec![
        StampedFile {
            path: "/a".to_string(),
            stamp: None,
        },
        StampedFile {
            path: "/b".to_string(),
            stamp: Some(FileStamp {
                modified: 1,
                len: 2,
            }),
        },
    ];
    let stamps = collect_stamps(&files);
    assert_eq!(stamps.len(), 1);
    assert_eq!(stamps.get("/b").map(|s| s.len), Some(2));
}

// Positions.

fn loc(name: &str, exact: bool, line: u32) -> Location {
    Location {
        file_path: format!("{name}.rs"),
        line,
        column: 1,
        name: name.to_string(),
        exact,
    }
}

#[test]
fn rank_and_filter_exact_keeps_substrings_by_default_but_ranks_exact_first() {
    let locations = vec![
        loc("VectorSearchResult", false, 2),
        loc("SearchResult", true, 1),
    ];
    let ranked = rank_and_filter_exact(locations, false);

    assert_eq!(ranked.len(), 2);
    assert_eq!(ranked[0].name, "SearchResult");
    assert!(ranked[0].exact);
    assert_eq!(ranked[1].name, "VectorSearchResult");
    assert!(!ranked[1].exact);
}

#[test]
fn rank_and_filter_exact_can_drop_substring_matches() {
    let locations = vec![
        loc("VectorSearchResult", false, 2),
        loc("SearchResult", true, 1),
    ];
    let ranked = rank_and_filter_exact(locations, true);

    assert_eq!(ranked.len(), 1);
    assert_eq!(ranked[0].name, "SearchResult");
    assert!(ranked[0].exact);
}

#[test]
fn symbols_are_marked_by_their_name() {
    let found = vec![loc("ab", false, 1), loc("a", false, 2), loc("xa", false, 3)];
    let names: Vec<String> = rank_symbols(found, "a", false)
        .iter()
        .map(|l| l.to_text())
        .collect();
    assert_eq!(
        names,
        vec![
            "a.rs:2:1 (a, exact=true)",
            "ab.rs:1:1 (ab, exact=false)",
            "xa.rs:3:1 (xa, exact=false)",
        ]
    );
}

#[test]
fn one_place_is_listed_once_and_the_exact_one_wins() {
    let at = |file: &str, line: u32, exact: bool| Location {
        file_path: file.to_string(),
        line,
        column: 1,
        name: "n".to_string(),
        exact,
    };
    let merged = merge_locations(&vec![
        at("/b.rs", 1, false),
        at("/a.rs", 2, false),
        at("/a.rs", 2, true),
        at("/a.rs", 1, false),
    ]);
    let got: Vec<(&str, u32, bool)> = merged
        .iter()
        .map(|l| (l.file_path.as_str(), l.line, l.exact))
        .collect();
    assert_eq!(
        got,
        vec![("/a.rs", 2, true), ("/a.rs", 1, false), ("/b.rs", 1, false)]
    );
}

#[test]
fn names_are_found_as_whole_words() {
    assert_eq!(identifier_occurrences("a.x + ax + x_ + x", "x"), vec![2, 16]);
    assert_eq!(identifier_occurrences("éx x", "x"), vec![4]);
    assert_eq!(identifier_occurrences("日x x日 x", "x"), vec![10]);
    assert!(identifier_occurrences("xx", "").is_empty());
}

#[test]
fn fields_and_variants_are_wanted_by_name() {
    let decl = |name: &str, kind| ResolvedDecl {
        name: name.to_string(),
        kind,
    };
    assert!(is_the_wanted_name(&decl("f", DeclKind::Field), "f"));
    assert!(is_the_wanted_name(&decl("V", DeclKind::Variant), "V"));
    assert!(!is_the_wanted_name(&decl("f", DeclKind::Other), "f"));
    assert!(!is_the_wanted_name(&decl("g", DeclKind::Field), "f"));
}

fn spot(line: u32) -> Spot {
    Spot {
        file_path: "/a.rs".to_string(),
        line,
        column: 0,
    }
}

fn definition(name: &str, at: u32, references: &[u32]) -> FoundDefinition {
    FoundDefinition {
        declaration: Some((
            ResolvedDecl {
                name: name.to_string(),
                kind: DeclKind::Field,
            },
            spot(at),
        )),
        references: references.iter().map(|l| spot(*l)).collect(),
    }
}

#[test]
fn references_are_harvested_with_their_declaration() {
    let found = vec![definition("f", 0, &[4, 5])];
    let locations = references_found(&found, "/a.rs", 1, 1).unwrap();
    assert_eq!(locations.len(), 3);
    let nothing = references_found(&vec![], "/a.rs", 1, 2);
    assert!(nothing.is_err());
}

#[test]
fn a_position_is_looked_up_before_it_is_asked() {
    let ask = |file: Option<u32>, offset: Option<u32>| {
        find_references(
            "/a.rs",
            1,
            1,
            |_| Ok(file),
            |_, line, column| {
                assert_eq!((line, column), (0, 0));
                Ok(offset)
            },
            |file, at| Ok(vec![definition("f", file + at, &[])]),
        )
    };
    let found = ask(Some(2), Some(3)).unwrap();
    assert_eq!((found.len(), found[0].line), (1, 6));
    assert_eq!(
        ask(None, Some(3)).err().unwrap(),
        "File not found in VFS: /a.rs"
    );
    assert_eq!(
        ask(Some(2), None).err().unwrap(),
        "Invalid position: line 1, col 1"
    );
    let failed = file_position("/a.rs", 1, 1, |_| Err("gone".to_string()), |_, _, _| Ok(None));
    assert_eq!(failed, Err("gone".to_string()));
}

#[test]
fn names_are_resolved_with_exact_ones_first() {
    let symbols: Vec<SymbolHit> = ["ab", "a", "xa", "a"]
        .iter()
        .map(|name| SymbolHit {
            name: name.to_string(),
            file: 0,
            offset: 0,
        })
        .collect();
    assert_eq!(
        order_symbols(&symbols, "a", false),
        (vec![1, 3, 0, 2], true)
    );
    assert_eq!(order_symbols(&symbols, "q", true), (vec![], false));
}

fn source(id: u32, path: &str) -> SourceFile {
    SourceFile {
        id,
        path: Some(path.to_string()),
    }
}

/// The line and the column of a byte.
fn mark(text: &str, at: u32) -> (u32, u32) {
    let before = &text[..at as usize];
    let line = before.matches('\n').count();
    let column = before.len() - before.rfind('\n').map_or(0, |n| n + 1);
    (line as u32, column as u32)
}

#[test]
fn a_name_of_the_index_is_not_swept_for() {
    let symbols = [("total_sum", 30), ("total", 4)];
    let asked = Cell::new(Vec::new());
    let symbols = || {
        symbols
            .iter()
            .map(|(name, offset): &(&str, u32)| SymbolHit {
                name: name.to_string(),
                file: 1,
                offset: *offset,
            })
            .collect::<Vec<_>>()
    };
    let out = find_references_by_name_with_exact(
        "total",
        false,
        &vec![source(1, "/w/a.rs")],
        "/w",
        |name, limit| {
            assert_eq!((name, limit), ("total", 50));
            Ok(symbols())
        },
        |_| panic!("the sources are read only for names that the index lacks"),
        |_, _| panic!("nothing is placed"),
        |file, at| {
            let mut all = asked.take();
            all.push((file, at));
            asked.set(all);
            Ok(vec![definition("total", if at == 4 { 0 } else { 9 }, &[2])])
        },
    )
    .unwrap();
    assert_eq!(asked.take(), vec![(1, 4), (1, 30)], "the exact one first");
    let lines: Vec<(u32, bool)> = out.iter().map(|l| (l.line, l.exact)).collect();
    assert_eq!(
        lines,
        vec![(1, true), (3, true), (10, false)],
        "each position once, the exact ones first"
    );
    let exact = find_references_by_name_with_exact(
        "total",
        true,
        &vec![],
        "/w",
        |_, _| Ok(symbols()),
        |_| Err("no".to_string()),
        |_, _| Err("no".to_string()),
        |_, at| {
            assert_eq!(at, 4);
            Ok(vec![definition("total", 0, &[])])
        },
    )
    .unwrap();
    assert_eq!(exact.len(), 1);
}

#[test]
fn a_field_costs_one_question() {
    let text = "struct S { radius: u8 }\nfn f(s: S) { s.radius; s.radius; }\n// radius_max\n";
    let files = vec![
        source(7, "/w/src/b.rs"),
        source(3, "/w/src/a.rs"),
        source(1, "/elsewhere/a.rs"),
        source(2, "/w/notes.txt"),
        SourceFile { id: 0, path: None },
    ];
    let read = Cell::new(Vec::new());
    let asked = Cell::new(Vec::new());
    let out = find_references_by_name(
        "radius",
        &files,
        "/w",
        |_, _| Ok(vec![]),
        |file| {
            let mut all = read.take();
            all.push(file);
            read.set(all);
            Ok(if file == 7 { text } else { "// a radius" }.to_string())
        },
        |file, at| Ok(mark(if file == 7 { text } else { "// a radius" }, at)),
        |file, at| {
            let mut all = asked.take();
            all.push((file, at));
            asked.set(all);
            if file != 7 {
                return Ok(vec![]);
            }
            let spot = |line, column| Spot {
                file_path: "/w/src/b.rs".to_string(),
                line,
                column,
            };
            Ok(vec![FoundDefinition {
                declaration: Some((
                    ResolvedDecl {
                        name: "radius".to_string(),
                        kind: DeclKind::Field,
                    },
                    spot(0, 11),
                )),
                references: vec![spot(1, 15), spot(1, 25)],
            }])
        },
    )
    .unwrap();
    assert_eq!(
        read.take(),
        vec![3, 7],
        "Rust files under the root, in the order of their numbers"
    );
    assert_eq!(
        asked.take(),
        vec![(3, 6), (7, 12)],
        "a comment, and the field once, each one byte into the name"
    );
    let found: Vec<(u32, u32)> = out.iter().map(|l| (l.line, l.column)).collect();
    assert_eq!(found, vec![(1, 12), (2, 16), (2, 26)]);
    assert!(out.iter().all(|l| l.exact));
}

#[test]
fn a_sweep_ends_at_the_first_file_that_fails() {
    let files = vec![source(9, "/w/c.rs"), source(4, "/w/b.rs"), source(2, "/w/a.rs")];
    let read = Cell::new(Vec::new());
    let failed = find_references_by_name(
        "x",
        &files,
        "/w",
        |_, _| Ok(vec![]),
        |file| {
            let mut all = read.take();
            all.push(file);
            read.set(all);
            if file == 4 {
                Err(format!("unread {file}"))
            } else {
                Ok("x".to_string())
            }
        },
        |_, _| Ok((0, 0)),
        |_, _| Ok(vec![]),
    );
    assert_eq!(failed.err().unwrap(), "unread 4");
    assert_eq!(read.take(), vec![2, 4], "in order, and no further");
}

#[test]
fn an_error_of_the_analysis_ends_a_search() {
    let files = vec![source(1, "/w/a.rs")];
    let unread = find_references_by_name(
        "x",
        &files,
        "/w",
        |_, _| Ok(vec![]),
        |_| Err("unread".to_string()),
        |_, _| Ok((0, 0)),
        |_, _| Ok(vec![]),
    );
    assert_eq!(unread.err().unwrap(), "unread");
    let unplaced = find_references_by_name(
        "x",
        &files,
        "/w",
        |_, _| Ok(vec![]),
        |_| Ok("x".to_string()),
        |_, _| Err("unplaced".to_string()),
        |_, _| Ok(vec![]),
    );
    assert_eq!(unplaced.err().unwrap(), "unplaced");
    let unsearched = find_references_by_name(
        "x",
        &files,
        "/w",
        |_, _| Err("unsearched".to_string()),
        |_| Ok("x".to_string()),
        |_, _| Ok((0, 0)),
        |_, _| Ok(vec![]),
    );
    assert_eq!(unsearched.err().unwrap(), "unsearched");
    let unasked = find_references_by_name(
        "x",
        &files,
        "/w",
        |_, _| Ok(vec![]),
        |_| Ok("x".to_string()),
        |_, _| Ok((0, 0)),
        |_, _| Err("unasked".to_string()),
    );
    assert_eq!(unasked.err().unwrap(), "unasked");
}

#[test]
fn an_edited_project_takes_the_edits_or_is_loaded_again() {
    let mut service: SemanticService<u32> = SemanticService::with_max_projects(2);
    let time = Cell::new(1);
    let loads = Cell::new(0);
    let stamp = || stamps(&[("/w/src/lib.rs", time.get())]);
    let load = |_: LoadKind, _: &Table<FileStamp>| {
        loads.set(loads.get() + 1);
        Ok(loads.get())
    };
    let ask = |service: &mut SemanticService<u32>, patched: Result<(), String>| {
        service
            .get_or_load_kind("/w", LoadKind::Fast, stamp, load, |_, files| {
                assert_eq!(files, &vec!["/w/src/lib.rs".to_string()]);
                patched.clone()
            })
            .unwrap()
    };
    let unpatched = || Err("is not part of the loaded analysis".to_string());
    assert_eq!(ask(&mut service, Ok(())), 0);
    assert_eq!(ask(&mut service, unpatched()), 0);
    assert_eq!(loads.get(), 1, "an untouched tree is served as it is");
    time.set(2);
    ask(&mut service, Ok(()));
    assert_eq!(loads.get(), 1, "an edit is handed over");
    ask(&mut service, unpatched());
    assert_eq!(loads.get(), 1, "and not twice");
    time.set(3);
    ask(&mut service, unpatched());
    assert_eq!(loads.get(), 2, "an edit that cannot be handed over reloads");
    assert_eq!(service.get("/w").unwrap().context, 2);
}

#[test]
fn what_is_edited_during_a_load_is_found_stale() {
    let mut service: SemanticService<u32> = SemanticService::with_max_projects(2);
    let time = Cell::new(1);
    let patches = Cell::new(0);
    for _ in 0..3 {
        service
            .get_or_load_kind(
                "/w",
                LoadKind::Fast,
                || stamps(&[("/w/src/lib.rs", time.get())]),
                |_, stamps| {
                    assert_eq!(stamps.value_at(0).modified, 1, "stamped before the load");
                    time.set(2);
                    Ok(1)
                },
                |_, _| {
                    patches.set(patches.get() + 1);
                    Ok(())
                },
            )
            .unwrap();
    }
    assert_eq!(patches.get(), 1, "handed over by the next query, and once");
}

#[test]
fn the_heaviest_ingredients_are_listed_first() {
    let rows = vec![
        row("light", 9, None, 10),
        row("heavy", 1, Some(80), 90),
        row("many", 7, None, 50),
        row("few", 2, None, 50),
        row("also_few", 2, None, 50),
    ];
    assert_eq!(heaviest(&rows, 0), vec![1, 2, 3, 4, 0]);
    assert_eq!(heaviest(&rows, 2), vec![1, 2]);
    assert_eq!(heaviest(&rows, 25), vec![1, 2, 3, 4, 0]);
    assert!(heaviest(&vec![], 3).is_empty());
}

#[test]
fn collections_come_every_five_minutes_unless_said_otherwise() {
    assert_eq!(gc_interval_from_env(None), DEFAULT_GC_INTERVAL_SECS);
    assert_eq!(gc_interval_from_env(Some(" 60 ")), 60);
    assert_eq!(gc_interval_from_env(Some("0")), 0);
    assert_eq!(gc_interval_from_env(Some("often")), 300);
}

#[test]
fn a_project_that_cannot_be_loaded_drops_no_other() {
    let mut service: SemanticService<u32> = SemanticService::with_max_projects(1);
    ask(&mut service, "/first");
    let failed = service.get_or_load_kind(
        "/second",
        LoadKind::Full,
        || stamps(&[]),
        |_, _| Err("no Cargo.toml".to_string()),
        |_, _| Ok(()),
    );
    assert_eq!(failed.err().unwrap(), "no Cargo.toml");
    assert_eq!(loaded(&service), vec!["/first"]);
    let gone = service.refresh_if_stale(
        "/second",
        LoadKind::Full,
        || stamps(&[]),
        |_, _| Ok(1),
        |_, _| Ok(()),
    );
    assert_eq!(gone.err().unwrap(), "Project not loaded");
}

#[test]
fn the_scan_asks_each_place_once() {
    let mut scan = TokenScan::new(vec![Location {
        file_path: "/a.rs".to_string(),
        line: 1,
        column: 1,
        name: "f".to_string(),
        exact: true,
    }]);
    assert!(!scan.should_probe("/a.rs", 1, 1));
    assert!(scan.should_probe("/a.rs", 9, 1));
    assert!(!scan.should_probe("/a.rs", 9, 1));
    scan.probed(&vec![definition("f", 8, &[9])], "f");
    scan.probed(&vec![definition("g", 20, &[21])], "f");
    assert!(!scan.should_probe("/a.rs", 10, 1));
    let lines: Vec<u32> = scan.finish().iter().map(|l| l.line).collect();
    assert_eq!(lines, vec![1, 9, 10]);
    assert!(is_swept("/p/a.rs", "/p") && !is_swept("/q/a.rs", "/p"));
    assert_eq!((probe_offset(5, 1), probe_offset(5, 3)), (5, 6));
}

#[test]
fn targets_are_told_from_one() {
    let target = |path: Option<&str>, focus| NavTarget {
        file_path: path.map(str::to_string),
        focus,
        full: (10, 20),
        name: "n".to_string(),
    };
    let both = || vec![target(Some("/a.rs"), Some((1, 2))), target(Some("/b.rs"), None)];
    let define = |define: &dyn Fn() -> Option<Vec<NavTarget>>| {
        goto_definition(
            "/a.rs",
            5,
            7,
            |path| {
                assert_eq!(path, "/a.rs");
                Ok(Some(3))
            },
            |file, line, column| {
                assert_eq!((file, line, column), (3, 4, 6));
                Ok(Some(40))
            },
            |file, at| {
                assert_eq!((file, at), (3, 40));
                Ok(define())
            },
        )
    };
    let got: Vec<(u32, u32)> = define(&|| Some(both()))
        .unwrap()
        .iter()
        .map(|l| (l.line, l.column))
        .collect();
    assert_eq!(got, vec![(2, 3), (11, 21)]);
    assert!(define(&|| None).unwrap().is_empty());
    assert_eq!(
        define(&|| Some(vec![target(None, None)])).err().unwrap(),
        "Not a real path"
    );
    let symbols = symbol_search_with_exact("n", 7, false, |name, limit| {
        assert_eq!((name, limit), ("n", 7));
        Ok(both())
    });
    assert!(symbols.unwrap().iter().all(|l| l.exact));
    let none = symbol_search("m", 7, |_, _| Err("no".to_string()));
    assert_eq!(none.err().unwrap(), "no");
    assert_eq!(to_line_col(0, 1), (0, 0));
    assert_eq!(to_line_col(5, 7), (4, 6));
    assert_eq!(to_offset(1, 1, Some(9)), Ok(9));
    assert_eq!(
        to_offset(3, 4, None),
        Err("Invalid position: line 3, col 4".to_string())
    );
    assert_eq!(path_to_file_id("/a", Some(1)), Ok(1));
    assert_eq!(
        path_to_file_id("/a", None),
        Err("File not found in VFS: /a".to_string())
    );
}

// The price of a capacity.

fn row(name: &str, count: usize, heap: Option<usize>, bytes: usize) -> IngredientMemory {
    IngredientMemory {
        family: "query".to_string(),
        name: name.to_string(),
        count,
        heap_bytes: heap,
        bytes,
    }
}

#[test]
fn what_a_collection_frees_is_listed_largest_first() {
    let before = vec![
        row("small", 1, Some(10), 0),
        row("untold", 1, None, 50),
        row("large", 1, Some(100), 0),
        row("grown", 1, Some(5), 0),
    ];
    let after = vec![
        row("small", 1, Some(7), 0),
        row("large", 1, Some(1), 0),
        row("grown", 1, Some(6), 0),
    ];
    let freed: Vec<(String, usize)> = freed_by_collection(&before, &after)
        .into_iter()
        .map(|f| (f.name, f.bytes))
        .collect();
    assert_eq!(
        freed,
        vec![("large".to_string(), 99), ("small".to_string(), 3)]
    );
}

fn measurement(answers: usize) -> Measurement {
    Measurement {
        capacity: Some(8),
        before: vec![row(PARSE_QUERY, 4, Some(400), 500)],
        after: vec![row(PARSE_QUERY, 4, Some(100), 150)],
        rebuilt: vec![row(PARSE_QUERY, 4, Some(300), 400)],
        settled_answers: 3,
        answers,
        warm_answers: 3,
        settle_us: 1,
        rebuild_us: 2,
        warm_us: 3,
        rss_kib_after: 4,
    }
}

#[test]
fn a_capacity_is_priced_only_where_it_costs_no_answer() {
    let priced = price_capacity(measurement(3)).unwrap();
    assert_eq!(priced.parse_memos, 4);
    assert_eq!(priced.parse_heap_before, 400);
    assert_eq!(priced.parse_heap_after, 100);
    assert_eq!(priced.parse_heap_rebuilt, 300);
    assert_eq!(priced.accounted_after, 150);
    assert_eq!(priced.freed_total(), 300);
    assert_eq!(priced.capacity_label(128), "8");
    assert!(price_capacity(measurement(2)).is_none());
    let rows = vec![row("x", 1, None, 2), row(PARSE_QUERY, 5, Some(6), 7)];
    assert_eq!(query_bytes(&rows, PARSE_QUERY), (5, 6));
    assert_eq!(query_bytes(&rows, "y"), (0, 0));
}

#[test]
fn a_capacity_is_applied_then_exercised_then_collected() {
    let weighed = |heap: usize| PricingEvent::Weighed {
        rows: vec![row(PARSE_QUERY, 4, Some(heap), heap)],
    };
    let answered = |us: u64| PricingEvent::Answered { answers: 3, us };
    let mut pricing = Pricing::begin(Some(1));
    assert_eq!(pricing.step, PricingStep::Apply);
    pricing = pricing.heard(PricingEvent::Collected);
    assert_eq!(pricing.step, PricingStep::Apply, "nothing is collected out of turn");
    let course = vec![
        (PricingEvent::Applied { missed: 0 }, PricingStep::Settle),
        (answered(5), PricingStep::WeighBefore),
        (weighed(400), PricingStep::Collect),
        (PricingEvent::Collected, PricingStep::WeighAfter),
        (weighed(100), PricingStep::Rebuild),
        (answered(9), PricingStep::WeighRebuilt),
        (weighed(300), PricingStep::Warm),
        (answered(4), PricingStep::WeighProcess),
        (PricingEvent::Resident { kib: 77 }, PricingStep::Done),
    ];
    for (event, next) in course {
        pricing = pricing.heard(event);
        assert_eq!(pricing.step, next);
    }
    let priced = price_capacity(pricing.measured).unwrap();
    assert_eq!(priced.capacity, Some(1));
    assert_eq!(priced.parse_heap_before, 400);
    assert_eq!(priced.parse_heap_after, 100);
    assert_eq!(priced.parse_heap_rebuilt, 300);
    assert_eq!(priced.freed_total(), 300);
    assert_eq!((priced.settle_us, priced.rebuild_us, priced.warm_us), (5, 9, 4));
    assert_eq!((priced.answers, priced.rss_kib_after), (3, 77));
}

#[test]
fn a_capacity_that_missed_a_query_is_not_priced() {
    let refused = PricingStep::Refused { missed: 2 };
    let mut pricing = Pricing::begin(None).heard(PricingEvent::Applied { missed: 2 });
    assert_eq!(pricing.step, refused);
    pricing = pricing.heard(PricingEvent::Answered { answers: 3, us: 1 });
    pricing = pricing.heard(PricingEvent::Collected);
    assert_eq!(pricing.step, refused);
}

#[test]
fn a_rename_is_put_to_the_full_analysis() {
    let mut service: SemanticService<u32> = SemanticService::with_max_projects(2);
    let kinds = Cell::new(0);
    let stamp = || stamps(&[]);
    let load = |kind: LoadKind, _: &Table<FileStamp>| {
        kinds.set(kinds.get() + 1);
        Ok(if kind == LoadKind::Full { 10 } else { 1 })
    };
    service.get_or_load("/w", stamp, load, |_, _| Ok(())).unwrap();
    assert_eq!(service.get("/w").unwrap().context, 1);
    let renamed = service.rename_by_position(
        "/w",
        "/w/src/lib.rs",
        1,
        11,
        "Engine",
        "RenamedEngine",
        stamp,
        load,
        |_, _| Ok(()),
        |context, file, line, column, from, to| {
            Ok(format!("{context} {file}:{line}:{column} {from} {to}"))
        },
    );
    assert_eq!(renamed.unwrap(), "10 /w/src/lib.rs:1:11 Engine RenamedEngine");
    assert_eq!(service.get("/w").unwrap().load_kind, LoadKind::Full);
    let refused: Result<u8, String> = service.rename_by_name(
        "/w",
        "Engine",
        "fn",
        stamp,
        load,
        |_, _| Ok(()),
        |_, _, to| Err(format!("`{to}` is no name")),
    );
    assert_eq!(refused.unwrap_err(), "`fn` is no name");
    assert_eq!(kinds.get(), 2, "what is loaded in full is not loaded again");
    let unloaded: Result<u8, String> = service.rename_by_name(
        "/none",
        "Engine",
        "Motor",
        stamp,
        |_, _| Err("no Cargo.toml".to_string()),
        |_, _| Ok(()),
        |_, _, _| Ok(1),
    );
    assert_eq!(unloaded.unwrap_err(), "no Cargo.toml");
}

#[test]
fn probes_are_named() {
    assert_eq!(
        Probe::from_env(None, None).unwrap().describe(),
        "symbols `main`"
    );
    assert_eq!(
        Probe::from_env(Some("references"), Some("f"))
            .unwrap()
            .describe(),
        "references of `f`"
    );
    assert!(Probe::from_env(Some("references"), None).is_err());
    assert!(Probe::from_env(Some("other"), None).is_err());
}

use rust_code_mcp::embeddings::backend::{
    percent_decode, percent_encode, EmbeddingBackend, EmbeddingRuntime, QueryPolicy,
};
use rust_code_mcp::embeddings::batching::{
    plan_batches, plan_fixed_rows, BatchPlan, BatchRows, BatchingPolicy,
};
use rust_code_mcp::embeddings::ep_census::{
    ProfileEvent, ProviderCensus, CPU_EP, DIRECTML_EP, MIGRAPHX_EP,
};
use rust_code_mcp::embeddings::error::{EmbeddingError, NonFinite};
use rust_code_mcp::embeddings::generator::{
    first_non_finite, non_finite, plan_onnx_session, plan_session, probe_provider_census,
    retries_non_finite, Build, EmbedSide, Embedding, EmbeddingGenerator, EmbeddingPipeline,
    FastembedOnnxModel, Guarded, NonFiniteHit, SessionPlan,
};
use rust_code_mcp::embeddings::kernel_cache::{
    cap_bytes_from_env, dir_size, ensure_migraphx_kernel_cache, parse_cap_bytes, plan_eviction,
    read_cached_shapes, sweep, CachedShape, ListedShape, Stored, CAP_ENV, DEFAULT_CAP_BYTES,
};

const BUDGET: usize = 49_152;

fn items(n: usize) -> Vec<usize> {
    (0..n).map(|i| 8 + (i % 17) * 64).collect()
}

fn plan(policy: BatchingPolicy, n: usize) -> Vec<BatchPlan> {
    policy.plan(&items(n), |len: &usize| *len)
}

#[test]
fn fixed_shape_ignores_indexer_batch_size() {
    let rows = BatchRows(32);
    let reference = plan(BatchingPolicy::new(Some(rows), 32, BUDGET), 1000);
    for configured_rows in [1usize, 7, 31, 32, 64, 100, 1000] {
        for configured_tokens in [1usize, 4096, BUDGET] {
            let policy = BatchingPolicy::new(Some(rows), configured_rows, configured_tokens);
            assert_eq!(
                plan(policy, 1000),
                reference,
                "({configured_rows}, {configured_tokens}) changed the cut"
            );
        }
    }
}

#[test]
fn fixed_shape_pads_only_the_tail() {
    let rows = 32usize;
    for n in [1usize, 31, 32, 33, 64, 100, 999, 1000] {
        let plans = plan(BatchingPolicy::new(Some(BatchRows(rows)), 100, BUDGET), n);
        let padded_rows: usize = plans.iter().map(|p| rows - (p.end - p.start)).sum();
        assert_eq!(
            padded_rows,
            rows * n.div_ceil(rows) - n,
            "more than one tail is padded at n={n}"
        );
        assert!(
            plans
                .iter()
                .take(plans.len().saturating_sub(1))
                .all(|p| p.end - p.start == rows),
            "a batch before the last is not full at n={n}"
        );
    }
}

#[test]
fn fixed_shape_covers_every_input_exactly_once() {
    for n in [0usize, 1, 5, 32, 33, 257] {
        let plans = plan(BatchingPolicy::new(Some(BatchRows(32)), 32, BUDGET), n);
        let covered: Vec<usize> = plans.iter().flat_map(|p| p.start..p.end).collect();
        assert_eq!(
            covered,
            (0..n).collect::<Vec<_>>(),
            "the cut does not cover n={n}"
        );
    }
}

#[test]
fn budget_policy_still_honours_both_limits() {
    let policy = BatchingPolicy::new(None, 8, BUDGET);
    assert!(policy.sorts_by_length());
    let plans = plan(policy, 20);
    assert!(plans.iter().all(|p| p.end - p.start <= 8));
    assert_eq!(plans.iter().map(|p| p.end - p.start).sum::<usize>(), 20);

    let long = vec![1000usize; 4];
    let plans = BatchingPolicy::new(None, 8, 2048).plan(&long, |len: &usize| *len);
    assert_eq!(plans.len(), 2, "the token budget does not cut any more");
}

#[test]
fn fixed_policy_does_not_sort_and_reports_its_rows() {
    let policy = BatchingPolicy::new(Some(BatchRows(32)), 100, BUDGET);
    assert!(!policy.sorts_by_length());
    assert_eq!(policy.rows_per_batch(), BatchRows(32));
    assert_eq!(policy.to_text(), "model-fixed(rows=32)");
}

#[test]
fn budget_policy_is_written_and_never_below_one() {
    let policy = BatchingPolicy::new(None, 0, 0);
    assert_eq!(policy.to_text(), "budget(rows=1,tokens=1)");
    assert_eq!(policy.rows_per_batch(), BatchRows(1));
    let plans = policy.plan(&[5usize, 6, 7], |len: &usize| *len);
    assert_eq!(
        plans,
        vec![
            BatchPlan { start: 0, end: 1 },
            BatchPlan { start: 1, end: 2 },
            BatchPlan { start: 2, end: 3 },
        ]
    );
}

#[test]
fn a_batch_is_priced_by_its_longest_row() {
    let lens = [10usize, 10, 30, 10];
    let plans = plan_batches(&lens, 10, 60, |len: &usize| *len);
    assert_eq!(
        plans,
        vec![BatchPlan { start: 0, end: 2 }, BatchPlan { start: 2, end: 4 }]
    );
}

#[test]
fn fixed_rows_of_zero_count_as_one() {
    assert_eq!(
        plan_fixed_rows(2, 0),
        vec![BatchPlan { start: 0, end: 1 }, BatchPlan { start: 1, end: 2 }]
    );
}

fn event(name: &str, provider: &str) -> String {
    format!(
        "{{\"cat\":\"Node\",\"name\":\"{name}\",\"dur\":7,\"args\":{{\"provider\":\"{provider}\",\"op_name\":\"Add\"}}}}"
    )
}

fn profile(nodes: &[(&str, &str)], runs: usize) -> String {
    let mut events =
        vec!["{\"cat\":\"Session\",\"name\":\"model_loading_uri\",\"dur\":1}".to_string()];
    for _ in 0..runs {
        for (name, provider) in nodes {
            for phase in ["_fence_before", "_kernel_time", "_fence_after"] {
                events.push(event(&format!("{name}{phase}"), provider));
            }
        }
    }
    format!("[{}]", events.join(","))
}

fn share(census: &ProviderCensus, provider: &str) -> f64 {
    let (part, whole) = census.share_on(provider);
    part as f64 / whole as f64
}

fn census_of(raw: &str) -> ProviderCensus {
    match ProviderCensus::from_profile_json(raw) {
        Ok(census) => census,
        Err(e) => panic!("{}", e.to_text()),
    }
}

fn refusal(raw: &str) -> String {
    match ProviderCensus::from_profile_json(raw) {
        Ok(census) => panic!("{}", census.to_text()),
        Err(e) => e.to_text(),
    }
}

#[test]
fn census_counts_nodes_not_events() {
    let raw = profile(&[("Add_1", MIGRAPHX_EP), ("Shape_2", CPU_EP)], 2);
    let census = census_of(&raw);
    assert_eq!(census.nodes_on(MIGRAPHX_EP), 1);
    assert_eq!(census.nodes_on(CPU_EP), 1);
    assert_eq!(census.total_nodes(), 2);
    assert!((share(&census, MIGRAPHX_EP) - 0.5).abs() < 1e-9);
}

#[test]
fn census_sees_silent_cpu_fallback() {
    let raw = profile(&[("Add_1", CPU_EP), ("MatMul_2", CPU_EP)], 1);
    let census = census_of(&raw);
    assert_eq!(census.nodes_on(MIGRAPHX_EP), 0);
    assert_eq!(share(&census, CPU_EP), 1.0);
}

#[test]
fn census_rejects_profile_without_provider_tags() {
    let raw = "[{\"cat\":\"Session\",\"name\":\"session_initialization\",\"dur\":1},\
               {\"cat\":\"Node\",\"name\":\"Add_1_kernel_time\",\"dur\":2,\"args\":{\"op_name\":\"Add\"}}]";
    let err = refusal(raw);
    assert!(
        err.contains("no provider-tagged node events"),
        "unexpected error: {err}"
    );
}

#[test]
fn census_rejects_malformed_profile() {
    assert!(ProviderCensus::from_profile_json("{}").is_err());
    assert!(ProviderCensus::from_profile_json("not json").is_err());
}

#[test]
fn census_tells_what_is_wrong_with_a_profile() {
    assert_eq!(
        refusal("{}"),
        "Model initialization failed: ORT profile is not a JSON array of events"
    );
    assert_eq!(
        refusal("not json"),
        "Model initialization failed: malformed ORT profile: expected ident at line 1 column 2"
    );
    assert_eq!(
        refusal("[]"),
        "Model initialization failed: ORT profile carries no provider-tagged node events \
         — profiling was probably not enabled for this session"
    );
}

#[test]
fn census_is_written_by_provider() {
    let raw = profile(
        &[("Add_1", MIGRAPHX_EP), ("Add_1", CPU_EP), ("Cast_2", CPU_EP)],
        3,
    );
    let census = census_of(&raw);
    assert_eq!(
        census.to_text(),
        "3 nodes: CPUExecutionProvider=2, MIGraphXExecutionProvider=1"
    );
    assert_eq!(census.per_provider().len(), 2);
    assert_eq!(census.share_on("nobody"), (0, 3));
}

#[test]
fn census_skips_events_that_are_not_of_nodes() {
    let named = |cat: Option<&str>, name: Option<&str>, provider: Option<&str>| ProfileEvent {
        cat: cat.map(str::to_string),
        name: name.map(str::to_string),
        provider: provider.map(str::to_string),
    };
    let events = vec![
        named(Some("Session"), Some("a"), Some(CPU_EP)),
        named(None, Some("b"), Some(CPU_EP)),
        named(Some("Node"), None, Some(CPU_EP)),
        named(Some("Node"), Some("c"), None),
        named(Some("Node"), Some("d_kernel_time"), Some(DIRECTML_EP)),
        named(Some("Node"), Some("d"), Some(DIRECTML_EP)),
        named(Some("Node"), Some("_fence_after"), Some(DIRECTML_EP)),
    ];
    let census = match ProviderCensus::from_events(&events) {
        Ok(census) => census,
        Err(e) => panic!("{}", e.to_text()),
    };
    assert_eq!(census.total_nodes(), 2);
    assert_eq!(census.nodes_on(DIRECTML_EP), 2);
    assert!(ProviderCensus::from_events(&vec![]).is_err());
}

fn shape(name: &str, bytes: u64, age_secs: u64) -> CachedShape {
    CachedShape {
        path: format!("/cache/{name}"),
        bytes,
        last_used: ((1_000_000 - age_secs) as i128) * 1_000_000_000,
    }
}

const CAP: u64 = 500;

#[test]
fn under_the_cap_nothing_is_evicted() {
    let shapes = vec![shape("a", 200, 10), shape("b", 200, 20)];
    let plan = plan_eviction(&shapes, "/cache/a", CAP);
    assert!(plan.remove.is_empty());
    assert_eq!(plan.bytes_after, 400);
    assert!(!plan.still_over_cap);
}

#[test]
fn evicts_the_least_recently_used_until_it_fits() {
    let shapes = vec![
        shape("fresh", 200, 1),
        shape("stale", 200, 100),
        shape("ancient", 200, 999),
        shape("current", 200, 50),
    ];
    let plan = plan_eviction(&shapes, "/cache/current", CAP);
    assert_eq!(plan.remove, vec!["/cache/ancient", "/cache/stale"]);
    assert_eq!(plan.bytes_after, 400);
    assert!(!plan.still_over_cap);
}

#[test]
fn the_shape_in_use_is_never_evicted() {
    let shapes = vec![
        shape("current", 400, 999),
        shape("fresh_a", 200, 1),
        shape("fresh_b", 200, 2),
    ];
    let plan = plan_eviction(&shapes, "/cache/current", CAP);
    assert!(
        !plan.remove.contains(&"/cache/current".to_string()),
        "the shape in use was dropped"
    );
    assert_eq!(plan.remove.len(), 2);
    assert_eq!(plan.bytes_after, 400);
}

#[test]
fn a_cap_below_one_shape_is_reported_not_hidden() {
    let shapes = vec![shape("current", 900, 5), shape("other", 200, 6)];
    let plan = plan_eviction(&shapes, "/cache/current", CAP);
    assert_eq!(plan.remove, vec!["/cache/other"]);
    assert_eq!(plan.bytes_after, 900);
    assert!(plan.still_over_cap, "the cache is over its cap in silence");
}

#[test]
fn zero_cap_disables_eviction() {
    let shapes = vec![shape("a", 10_000, 1), shape("b", 10_000, 2)];
    let plan = plan_eviction(&shapes, "/cache/a", 0);
    assert!(plan.remove.is_empty());
    assert_eq!(plan.bytes_after, 20_000);
    assert!(!plan.still_over_cap);
}

#[test]
fn equal_timestamps_evict_deterministically() {
    let shapes = vec![
        shape("z", 200, 42),
        shape("a", 200, 42),
        shape("m", 200, 42),
        shape("current", 200, 42),
    ];
    let first = plan_eviction(&shapes, "/cache/current", CAP);
    let reversed: Vec<CachedShape> = shapes.iter().rev().cloned().collect();
    let second = plan_eviction(&reversed, "/cache/current", CAP);
    assert_eq!(first, second);
    assert_eq!(first.remove, vec!["/cache/a", "/cache/m"]);
}

#[test]
fn the_shape_in_use_is_known_by_its_path_and_not_its_spelling() {
    let shapes = vec![shape("current", 400, 999), shape("other", 200, 1)];
    let plan = plan_eviction(&shapes, "/cache//current/", CAP);
    assert_eq!(plan.remove, vec!["/cache/other"]);
}

fn stored_files(lens: &[u64]) -> Stored {
    Stored::Dir {
        entries: lens.iter().map(|n| Stored::File { len: Some(*n) }).collect(),
    }
}

fn listed_shape(
    name: &str,
    marker: Option<Option<i128>>,
    own: Option<Option<i128>>,
    content: Stored,
) -> ListedShape {
    ListedShape {
        path: format!("/root/{name}"),
        is_dir: true,
        marker,
        own,
        content,
    }
}

#[test]
fn sweep_removes_directories_on_disk() {
    let listed = vec![
        listed_shape("keep", Some(Some(20)), Some(Some(1)), stored_files(&[300, 0])),
        listed_shape("stale", Some(Some(10)), Some(Some(2)), stored_files(&[300, 0])),
    ];
    let plan = sweep(&listed, "/root/keep", CAP);
    assert_eq!(plan.remove, vec!["/root/stale"]);
    assert_eq!(plan.bytes_after, 300);
}

#[test]
fn shapes_are_read_with_the_time_of_their_marker() {
    let mut listed = vec![
        listed_shape("marked", Some(Some(7)), Some(Some(1)), stored_files(&[1, 2])),
        listed_shape("old", None, Some(Some(5)), stored_files(&[3])),
        listed_shape("timeless", Some(None), Some(Some(9)), stored_files(&[])),
        listed_shape("gone", None, None, stored_files(&[])),
    ];
    listed.push(ListedShape {
        path: "/root/file".to_string(),
        is_dir: false,
        marker: None,
        own: Some(Some(1)),
        content: Stored::File { len: Some(100) },
    });
    let shapes = read_cached_shapes(&listed);
    let read: Vec<(&str, u64, i128)> = shapes
        .iter()
        .map(|s| (s.path.as_str(), s.bytes, s.last_used))
        .collect();
    assert_eq!(
        read,
        vec![
            ("/root/marked", 3, 7),
            ("/root/old", 3, 5),
            ("/root/timeless", 0, 0),
            ("/root/gone", 0, 0),
        ]
    );
}

#[test]
fn what_cannot_be_read_has_no_size() {
    let tree = Stored::Dir {
        entries: vec![
            Stored::File { len: Some(10) },
            Stored::File { len: None },
            Stored::Unknown,
            stored_files(&[5, 6]),
        ],
    };
    assert_eq!(dir_size(&tree), 21);
}

#[test]
fn cap_parser_takes_suffixes_and_rejects_garbage() {
    assert_eq!(parse_cap_bytes("0").unwrap(), 0);
    assert_eq!(parse_cap_bytes("1024").unwrap(), 1024);
    assert_eq!(parse_cap_bytes("512M").unwrap(), 512 * 1024 * 1024);
    assert_eq!(parse_cap_bytes(" 2G ").unwrap(), 2 * 1024 * 1024 * 1024);
    assert_eq!(parse_cap_bytes("1k").unwrap(), 1024);
    assert!(parse_cap_bytes("").is_err());
    assert!(parse_cap_bytes("много").is_err());
    assert!(parse_cap_bytes("2GB").is_err());
    assert!(parse_cap_bytes("-1").is_err());
    assert!(
        parse_cap_bytes("99999999999999999999G").is_err(),
        "an overflow passed in silence"
    );
}

#[test]
fn cap_errors_name_the_value_and_the_variable() {
    assert_eq!(
        parse_cap_bytes(" 2GB").unwrap_err(),
        "`2GB` is not a byte count (expected e.g. `2G`, `512M`, `0`)"
    );
    assert_eq!(
        parse_cap_bytes("18446744073709551615K").unwrap_err(),
        "`18446744073709551615K` overflows a byte count"
    );
    assert_eq!(cap_bytes_from_env(None), Ok(DEFAULT_CAP_BYTES));
    assert_eq!(cap_bytes_from_env(Some("  ")), Ok(1 << 30));
    assert_eq!(cap_bytes_from_env(Some("3 M")), Ok(3 * 1024 * 1024));
    assert_eq!(
        cap_bytes_from_env(Some("x")).unwrap_err(),
        format!("{CAP_ENV}: `x` is not a byte count (expected e.g. `2G`, `512M`, `0`)")
    );
}

#[test]
fn kernels_are_kept_where_the_variable_says_else_below_the_caches() {
    let named = ensure_migraphx_kernel_cache(Some("/k"), Some("/c")).unwrap();
    assert_eq!((named.path.as_str(), named.export), ("/k", false));
    let unnamed = ensure_migraphx_kernel_cache(Some(""), Some("/c")).unwrap();
    assert_eq!((unnamed.path.as_str(), unnamed.export), ("/c/migraphx", true));
    let nowhere = ensure_migraphx_kernel_cache(None, None).err().unwrap();
    assert_eq!(
        nowhere.to_text(),
        "Model initialization failed: cannot resolve a cache directory for MIGraphX kernels"
    );
}

fn batch(vectors: Vec<Vec<f32>>) -> Vec<Embedding> {
    vectors
        .into_iter()
        .map(|v| v.into_iter().map(f32::to_bits).collect())
        .collect()
}

#[test]
fn clean_batch_has_no_hit() {
    let batch = batch(vec![vec![0.1, -0.2, 0.3], vec![0.0, 1.0, -1.0]]);
    assert_eq!(first_non_finite(&batch), None);
}

#[test]
fn reports_first_nan_with_its_position() {
    let batch = batch(vec![
        vec![0.1, 0.2],
        vec![0.3, f32::NAN],
        vec![f32::NAN, 0.4],
    ]);
    let hit = first_non_finite(&batch).expect("NaN is not finite");
    assert_eq!(hit.index, 1);
    assert_eq!(hit.component, 1);
    assert_eq!(hit.value, NonFinite::Nan);
}

#[test]
fn infinity_counts_as_non_finite() {
    let batch = batch(vec![vec![0.1, f32::INFINITY], vec![0.2, 0.3]]);
    let hit = first_non_finite(&batch).expect("infinity is not finite");
    assert_eq!((hit.index, hit.component), (0, 1));
    assert_eq!(hit.value, NonFinite::Infinity);
}

#[test]
fn empty_batch_and_empty_vectors_are_clean() {
    assert_eq!(first_non_finite(&vec![]), None);
    assert_eq!(first_non_finite(&vec![vec![]]), None);
}

#[test]
fn error_carries_the_batch_length_the_caller_saw() {
    let hit = NonFiniteHit {
        index: 3,
        component: 7,
        value: NonFinite::Nan,
    };
    let message = hit.into_error(32).to_text();
    assert!(message.contains("item 3 of 32"), "{message}");
    assert!(message.contains("component 7"), "{message}");
}

#[test]
fn retry_is_limited_to_local_onnx_gpu_runtimes() {
    assert!(retries_non_finite(
        EmbeddingRuntime::LocalFastembedOnnxMigraphx
    ));
    assert!(retries_non_finite(
        EmbeddingRuntime::LocalFastembedOnnxDirectml
    ));

    assert!(!retries_non_finite(EmbeddingRuntime::LocalFastembedOnnxCpu));
    assert!(!retries_non_finite(EmbeddingRuntime::LocalQwen3CandleCuda));
    assert!(!retries_non_finite(EmbeddingRuntime::OpenRouter));
}

#[test]
fn bits_are_told_apart_as_the_machine_does() {
    for value in [
        0.0f32,
        -0.0,
        1.5,
        -3.25,
        f32::MAX,
        f32::MIN,
        f32::MIN_POSITIVE,
        f32::EPSILON,
        f32::NAN,
        -f32::NAN,
        f32::INFINITY,
        f32::NEG_INFINITY,
    ] {
        let told = non_finite(value.to_bits());
        assert_eq!(told.is_none(), value.is_finite(), "{value}");
        if let Some(kind) = told {
            assert_eq!(kind.as_str(), value.to_string());
        }
    }
    assert_eq!(non_finite(0x7F7F_FFFF), None);
    assert_eq!(non_finite(0x7F80_0001), Some(NonFinite::Nan));
    assert_eq!(non_finite(0xFF80_0000), Some(NonFinite::NegativeInfinity));
}

const ON_CPU: Build = Build {
    cuda: false,
    migraphx: false,
    directml: false,
};

const ON_AMD: Build = Build {
    cuda: false,
    migraphx: true,
    directml: false,
};

fn generator(profile: &str, build: Build) -> EmbeddingGenerator<&'static str> {
    let backend = EmbeddingBackend::from_profile_name(profile).unwrap();
    match EmbeddingGenerator::with_backend(backend, build, Ok("session")) {
        Ok(g) => g,
        Err(e) => panic!("{}", e.to_text()),
    }
}

fn strings(items: &[&str]) -> Vec<String> {
    items.iter().map(|s| s.to_string()).collect()
}

#[test]
fn a_finite_batch_passes() {
    let given = strings(&["a", "b"]);
    let vectors = batch(vec![vec![1.0], vec![2.0]]);
    match generator("local-cpu-small", ON_CPU).guard_finite(
        EmbedSide::Documents,
        &given,
        vectors.clone(),
    ) {
        Guarded::Passed(out) => assert_eq!(out, vectors),
        _ => panic!("a finite batch has to pass"),
    }
}

#[test]
fn the_processor_is_not_asked_twice() {
    let given = strings(&["a", "b"]);
    let vectors = batch(vec![vec![1.0], vec![f32::NEG_INFINITY]]);
    match generator("local-cpu-small", ON_CPU).guard_finite(
        EmbedSide::Documents,
        &given,
        vectors,
    ) {
        Guarded::Refused(e) => assert_eq!(
            e.to_text(),
            "Model returned a non-finite embedding: item 1 of 2, component 0 = -inf"
        ),
        _ => panic!("a defect has to be refused"),
    }
}

#[test]
fn a_gpu_is_asked_once_more_for_each_text_on_the_same_side() {
    let given = strings(&["a", "b"]);
    let guarded = generator("local-gpu-bge", ON_AMD).guard_finite(
        EmbedSide::Queries,
        &given,
        batch(vec![vec![f32::NAN], vec![2.0]]),
    );
    let mut again = match guarded {
        Guarded::Recompute(again) => again,
        _ => panic!("the batch has to be made once more"),
    };
    let mut asked = Vec::new();
    while let Some(text) = again.next_input() {
        asked.push(text.clone());
        let one = batch(vec![vec![asked.len() as f32]]);
        again = match again.take(Ok(one)) {
            Ok(next) => next,
            Err(e) => panic!("{}", e.to_text()),
        };
    }
    assert_eq!(
        asked,
        vec![
            "Represent this sentence for searching relevant passages: a",
            "Represent this sentence for searching relevant passages: b",
        ]
    );
    assert_eq!(again.finish(), batch(vec![vec![1.0], vec![2.0]]));
}

#[test]
fn what_is_not_finite_by_itself_ends_the_run() {
    let given = strings(&["a", "b"]);
    let guarded = generator("local-gpu-bge", ON_AMD).guard_finite(
        EmbedSide::Documents,
        &given,
        batch(vec![vec![f32::NAN], vec![2.0]]),
    );
    let again = match guarded {
        Guarded::Recompute(again) => again,
        _ => panic!("the batch has to be made once more"),
    };
    assert_eq!(again.next_input().map(String::as_str), Some("a"));
    match again.take(Ok(batch(vec![vec![0.5, f32::NAN]]))) {
        Ok(_) => panic!("the run has to stop"),
        Err(e) => assert_eq!(
            e.to_text(),
            "Model returned a non-finite embedding: item 0 of 2, component 1 = NaN"
        ),
    }
}

#[test]
fn a_failure_of_the_session_ends_the_run() {
    let given = strings(&["a"]);
    let guarded = generator("local-gpu-bge", ON_AMD).guard_finite(
        EmbedSide::Documents,
        &given,
        batch(vec![vec![f32::NAN]]),
    );
    match guarded {
        Guarded::Recompute(again) => match again.take(Err(EmbeddingError::embed_failed("lost"))) {
            Ok(_) => panic!("the run has to stop"),
            Err(e) => assert_eq!(e.to_text(), "Embedding generation failed: lost"),
        },
        _ => panic!("the batch has to be made once more"),
    }
}

#[test]
fn only_queries_get_the_prefix() {
    let g = generator("local-cpu-small", ON_CPU);
    assert_eq!(g.inputs(EmbedSide::Documents, &strings(&["x"])), vec!["x"]);
    assert_eq!(
        g.inputs(EmbedSide::Queries, &strings(&["x"])),
        vec!["Represent this sentence for searching relevant passages: x"]
    );
    assert_eq!(g.dimensions(), 384);
    assert_eq!(g.backend().profile.name(), "local-cpu-small");
    assert_eq!(*g.session_ref(), "session");
}

#[test]
fn chunks_get_their_embeddings_in_order() {
    let vectors = batch(vec![vec![1.0], vec![2.0], vec![3.0]]);
    let pairs = EmbeddingGenerator::<()>::embed_chunks(&vec![7, 8], &vectors);
    let got: Vec<(u128, Embedding)> = pairs
        .into_iter()
        .map(|p| (p.chunk_id, p.embedding))
        .collect();
    assert_eq!(got, vec![(7, vectors[0].clone()), (8, vectors[1].clone())]);
}

#[test]
fn the_session_follows_from_the_backend_and_the_build() {
    let cpu = EmbeddingBackend::from_profile_name("local-cpu-small").unwrap();
    assert_eq!(
        plan_session(&cpu, ON_CPU).unwrap(),
        SessionPlan::FastembedOnnx {
            model: FastembedOnnxModel::BgeSmallEnV15Q,
            max_len: cpu.max_len,
            on_gpu: false,
        }
    );
    let gpu = EmbeddingBackend::from_profile_name("local-gpu-bge").unwrap();
    assert_eq!(
        plan_session(&gpu, ON_AMD).unwrap(),
        SessionPlan::FastembedOnnx {
            model: FastembedOnnxModel::BgeSmallEnV15,
            max_len: gpu.max_len,
            on_gpu: true,
        }
    );
    assert_eq!(
        plan_session(&gpu, ON_CPU).unwrap_err().to_text(),
        "Model initialization failed: rmc-engine was built without the `embeddings-migraphx` \
         feature; rebuild with --features migraphx to use GPU embedding profiles"
    );
    let mut cuda = EmbeddingBackend::from_profile_name("local-cpu-small").unwrap();
    cuda.runtime = EmbeddingRuntime::LocalQwen3CandleCuda;
    assert_eq!(
        plan_session(&cuda, ON_CPU).unwrap_err().to_text(),
        "rmc-engine was built without the `embeddings-cuda` feature"
    );
    assert_eq!(
        plan_onnx_session(&cuda, ON_CPU).unwrap_err().to_text(),
        "Model initialization failed: embedding profile `local-cpu-small` is not a fastembed ONNX \
         profile"
    );
    let with_cuda = Build {
        cuda: true,
        migraphx: false,
        directml: false,
    };
    assert_eq!(plan_session(&cuda, with_cuda).unwrap(), SessionPlan::Qwen3);
    cuda.runtime = EmbeddingRuntime::OpenRouter;
    assert_eq!(plan_session(&cuda, ON_CPU).unwrap(), SessionPlan::OpenRouter);
    let mut other = EmbeddingBackend::from_profile_name("local-cpu-small").unwrap();
    other.model = "m".to_string();
    assert_eq!(
        plan_session(&other, ON_CPU).unwrap_err().to_text(),
        "Model initialization failed: model `m` is not a fastembed ONNX model"
    );
}

#[test]
fn a_generator_needs_its_session() {
    let opened: Result<(), EmbeddingError> = Err(EmbeddingError::task_join("gone"));
    match EmbeddingGenerator::new(ON_CPU, opened) {
        Ok(_) => panic!("there is no session"),
        Err(e) => assert_eq!(e.to_text(), "Async task failed: gone"),
    }
    let g = EmbeddingGenerator::new(ON_CPU, Ok(1u8)).ok().unwrap();
    assert_eq!(g.backend().profile.name(), "local-cpu-small");
}

#[test]
fn the_pipeline_reports_what_is_done() {
    let p = EmbeddingPipeline::with_batch_size(generator("local-cpu-small", ON_CPU), 3);
    let steps: Vec<(usize, usize, usize, usize)> = p
        .process_chunks(7)
        .into_iter()
        .map(|s| (s.batch.start, s.batch.end, s.processed, s.total))
        .collect();
    assert_eq!(steps, vec![(0, 3, 3, 7), (3, 6, 6, 7), (6, 7, 7, 7)]);
    assert_eq!(p.dimensions(), 384);
    let usual = EmbeddingPipeline::new(generator("local-cpu-small", ON_CPU));
    assert_eq!(usual.process_chunks(33).len(), 2);
    assert!(usual.process_chunks(0).is_empty());
}

#[test]
fn a_census_is_probed_of_graphs_only() {
    let cpu = EmbeddingBackend::from_profile_name("local-cpu-small").unwrap();
    let raw = profile(&[("Add_1", CPU_EP)], 1);
    let census = probe_provider_census(&cpu, ON_CPU, Ok(raw.clone())).ok().unwrap();
    assert_eq!(census.nodes_on(CPU_EP), 1);
    let mut remote = EmbeddingBackend::from_profile_name("local-cpu-small").unwrap();
    remote.runtime = EmbeddingRuntime::OpenRouter;
    assert!(probe_provider_census(&remote, ON_CPU, Ok(raw)).is_err());
    let lost = probe_provider_census(&cpu, ON_CPU, Err(EmbeddingError::model_init("lost")));
    assert_eq!(
        lost.err().unwrap().to_text(),
        "Model initialization failed: lost"
    );
}

#[test]
fn failures_have_their_words() {
    assert_eq!(
        EmbeddingError::NoEmbeddingGenerated.to_text(),
        "No embedding generated"
    );
    assert_eq!(
        EmbeddingError::invalid_identity("x").to_text(),
        "Invalid embedder identity: x"
    );
    assert_eq!(EmbeddingError::gpu_required("no GPU").to_text(), "no GPU");
}

#[test]
fn identities_read_back() {
    for name in ["local-cpu-small", "local-gpu-bge", "local-dml-bge"] {
        let backend = EmbeddingBackend::from_profile_name(name).unwrap();
        let identity = backend.identity();
        let read = EmbeddingBackend::from_identity(&identity).unwrap();
        assert_eq!(read.identity(), identity);
        assert_eq!(read.runtime, backend.runtime);
        assert_eq!(read.model, backend.model);
        assert_eq!((read.dim, read.max_len), (backend.dim, backend.max_len));
    }
    assert_eq!(
        EmbeddingBackend::from_profile_name("local-gpu-bge").unwrap().identity(),
        "emb;v=2;rt=local-fastembed-onnx-migraphx;model=Xenova%2Fbge-small-en-v1.5;dim=384;\
         max=512;query=prefix%3ARepresent%2520this%2520sentence%2520for%2520searching%2520relevant\
         %2520passages%253A%2520"
    );
    assert!(EmbeddingBackend::from_identity("emb;v=1").is_err());
    assert!(EmbeddingBackend::from_identity("").is_err());
}

#[test]
fn percent_coding_reads_back() {
    for text in ["", "plain-1.2_x~", "a/b c;=%", "жук"] {
        assert_eq!(percent_decode(&percent_encode(text)).as_deref(), Some(text));
    }
    assert_eq!(percent_encode("a/b:"), "a%2Fb%3A");
    assert_eq!(percent_encode("ж"), "%D0%B6");
    assert_eq!(percent_decode("%"), None);
    assert_eq!(percent_decode("%G0"), None);
    assert_eq!(percent_decode("%FF"), None);
}

#[test]
fn a_backend_without_a_prefix_leaves_queries_alone() {
    let mut backend = EmbeddingBackend::from_profile_name("local-cpu-small").unwrap();
    backend.query = QueryPolicy::Plain;
    assert_eq!(backend.format_query("q"), "q");
    assert!(backend.is_fastembed_onnx());
    assert_eq!(backend.dim(), 384);
}

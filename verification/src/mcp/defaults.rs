//! What the server does by itself: which profile it embeds with, whether it keeps the
//! index up to date in the background, and what it checks at its start.

use vstd::prelude::*;

use crate::embeddings::backend::{
    built_in, runs_onnx, three_profiles_are_built_in, EmbeddingBackend, EmbeddingRuntime,
};
use crate::embeddings::ep_census::{listed, ProviderCensus, DIRECTML_EP, MIGRAPHX_EP};
use crate::embeddings::error::EmbeddingError;
use crate::embeddings::generator::Build;
use crate::switches::{is_on, switched_on, text_at};
use crate::text::{
    decimal, is_space, join, joined, texts, trim, trimmed, white_space_around_does_not_count,
    white_space_is_blank,
};

verus! {

/// The variable that turns the background index on.
pub const BACKGROUND_SYNC_ENV: &'static str = "RMC_BACKGROUND_SYNC";

/// The words that turn it on.
pub const BACKGROUND_SYNC_ENABLED_VALUES: &'static str = "1/true/yes/on";

/// The variable that asks for the census of providers at the start.
pub const EP_CENSUS_ENV: &'static str = "RMC_EP_CENSUS";

/// The profile where none is chosen: it works on every machine.
pub const DEFAULT_AUTOMATIC_EMBEDDING_PROFILE: &'static str = "local-cpu-small";

/// The variable that chooses the profile.
pub const EMBEDDING_PROFILE_ENV: &'static str = "RMC_EMBEDDING_PROFILE";

/// Whether the value of a switch turns it on. All switches are turned on by the same
/// words.
pub fn parse_enabled_env(value: Option<&str>) -> (r: bool)
    ensures
        r == is_on(text_at(value)),
{
    switched_on(value)
}

/// Whether the value turns the background index on.
pub fn parse_background_sync_env(value: Option<&str>) -> (r: bool)
    ensures
        r == is_on(text_at(value)),
{
    parse_enabled_env(value)
}

/// The profile that a value of the variable asks for. A blank one asks for nothing.
pub open spec fn requested_profile(value: Option<Seq<char>>) -> Seq<char> {
    match value {
        Some(v) => if trimmed(v).len() > 0 {
            trimmed(v)
        } else {
            DEFAULT_AUTOMATIC_EMBEDDING_PROFILE@
        },
        None => DEFAULT_AUTOMATIC_EMBEDDING_PROFILE@,
    }
}

/// The profile that a value of the variable asks for.
pub fn resolve_automatic_profile_name(env_value: Option<&str>) -> (name: String)
    ensures
        name@ == requested_profile(text_at(env_value)),
{
    match env_value {
        Some(value) => {
            let name = trim(value);
            if name.as_str().is_empty() {
                DEFAULT_AUTOMATIC_EMBEDDING_PROFILE.to_owned()
            } else {
                name
            }
        },
        None => DEFAULT_AUTOMATIC_EMBEDDING_PROFILE.to_owned(),
    }
}

/// The backend of a profile: one that is built in, else what the project has under
/// this name.
pub open spec fn resolved(
    name: Seq<char>,
    project: Option<EmbeddingBackend>,
    r: Result<EmbeddingBackend, String>,
) -> bool {
    match (built_in(name), project) {
        (Some(view), _) => r matches Ok(b) && b@ == view && b.profile@ == name,
        (None, Some(p)) => r == Ok::<EmbeddingBackend, String>(p),
        (None, None) => r matches Err(e) && e@ == "unknown embedding profile `"@ + name + "`"@,
    }
}

/// The backend of the profile with this name. `project` is what the project has
/// under it.
pub fn resolve_startup_profile(name: &str, project: Option<EmbeddingBackend>) -> (r: Result<
    EmbeddingBackend,
    String,
>)
    ensures
        resolved(name@, project, r),
{
    match EmbeddingBackend::from_profile_name(name) {
        Ok(b) => Ok(b),
        Err(e) => match project {
            Some(p) => Ok(p),
            None => Err(e),
        },
    }
}

/// Whether there is a profile with this name. A wrong name is refused before the
/// server picks its mode, so that the mode does not decide whether it is.
pub fn validate_automatic_profile(name: &str, project: Option<EmbeddingBackend>) -> (r: Result<
    (),
    String,
>)
    ensures
        match r {
            Ok(_) => built_in(name@) is Some || project is Some,
            Err(e) => built_in(name@) is None && project is None && e@
                == "unknown embedding profile `"@ + name@ + "`"@,
        },
{
    match resolve_startup_profile(name, project) {
        Ok(_) => Ok(()),
        Err(e) => Err(e),
    }
}

/// The profile that the server embeds with, or why it cannot start.
pub fn automatic_embedding_profile_name(
    env_value: Option<&str>,
    project: Option<EmbeddingBackend>,
) -> (r: Result<String, String>)
    ensures
        ({
            let name = requested_profile(text_at(env_value));
            match r {
                Ok(n) => n@ == name && (built_in(name) is Some || project is Some),
                Err(e) => built_in(name) is None && project is None && e@ == EMBEDDING_PROFILE_ENV@
                    + "='"@ + name + "' is not a usable embedding profile: "@
                    + "unknown embedding profile `"@ + name + "`"@,
            }
        }),
{
    let requested = resolve_automatic_profile_name(env_value);
    match validate_automatic_profile(requested.as_str(), project) {
        Ok(_) => Ok(requested),
        Err(err) => {
            let mut e = EMBEDDING_PROFILE_ENV.to_owned();
            e.append("='");
            e.append(requested.as_str());
            e.append("' is not a usable embedding profile: ");
            e.append(err.as_str());
            proof {
                let name = requested@;
                assert(e@ =~= EMBEDDING_PROFILE_ENV@ + "='"@ + name
                    + "' is not a usable embedding profile: "@ + "unknown embedding profile `"@
                    + name + "`"@);
            }
            Err(e)
        },
    }
}

/// The default profile is there, and the background may use it.
pub proof fn default_profile_works()
    ensures
        built_in(DEFAULT_AUTOMATIC_EMBEDDING_PROFILE@) is Some,
        runs_in_background(built_in(DEFAULT_AUTOMATIC_EMBEDDING_PROFILE@)->Some_0.runtime),
{
}

/// What the census of providers is to a start.
#[derive(Debug, Clone, Copy, PartialEq, Eq, Structural)]
pub enum CensusProbe {
    /// Nobody asked for it.
    NotAsked,
    /// The profile has no graph in this process to look at.
    NoGraph,
    /// The graph is looked at.
    Probe,
}

/// Whether the census of providers is taken at the start.
pub open spec fn census_probe(value: Option<Seq<char>>, runtime: EmbeddingRuntime) -> CensusProbe {
    if !is_on(value) {
        CensusProbe::NotAsked
    } else if !runs_onnx(runtime) {
        CensusProbe::NoGraph
    } else {
        CensusProbe::Probe
    }
}

/// Whether the census of providers is taken at the start.
pub fn wants_ep_census(value: Option<&str>, backend: &EmbeddingBackend) -> (p: CensusProbe)
    ensures
        p == census_probe(text_at(value), backend.runtime),
{
    if !parse_enabled_env(value) {
        CensusProbe::NotAsked
    } else if !backend.is_fastembed_onnx() {
        CensusProbe::NoGraph
    } else {
        CensusProbe::Probe
    }
}

/// The provider that a runtime is to run its graph on, with its label, where the
/// runtime asks for a GPU.
pub open spec fn wanted_provider(runtime: EmbeddingRuntime) -> Option<(Seq<char>, Seq<char>)> {
    match runtime {
        EmbeddingRuntime::LocalFastembedOnnxMigraphx => Some((MIGRAPHX_EP@, "MIGraphX"@)),
        EmbeddingRuntime::LocalFastembedOnnxDirectml => Some((DIRECTML_EP@, "DirectML"@)),
        _ => None,
    }
}

/// The census in words.
pub open spec fn census_text(census: ProviderCensus) -> Seq<char> {
    decimal(census.total()) + " nodes: "@ + joined(
        listed(census.providers(), census.counts()),
        ", "@,
    )
}

/// The message for a graph none of whose nodes ran where it was to run.
pub open spec fn fallback_message(
    profile: Seq<char>,
    label: Seq<char>,
    census: ProviderCensus,
) -> Seq<char> {
    "profile `"@ + profile + "` asks for "@ + label
        + ", but not a single graph node ran on it (census: "@ + census_text(census)
        + ") — the graph silently fell back to CPU"@
}

/// The verdict on a census: a runtime that asks for a GPU is refused where no node
/// ran on the provider of that GPU. One node is enough: it may stand for the whole
/// graph.
pub open spec fn is_verdict(
    runtime: EmbeddingRuntime,
    profile: Seq<char>,
    census: ProviderCensus,
    r: Result<(), String>,
) -> bool {
    match wanted_provider(runtime) {
        None => r is Ok,
        Some((provider, label)) => if census.on(provider) > 0 {
            r is Ok
        } else {
            r matches Err(e) && e@ == fallback_message(profile, label, census)
        },
    }
}

/// The verdict on a census.
pub fn ep_census_verdict(runtime: EmbeddingRuntime, profile: &str, census: &ProviderCensus) -> (r:
    Result<(), String>)
    ensures
        is_verdict(runtime, profile@, *census, r),
{
    let (provider, label) = match runtime {
        EmbeddingRuntime::LocalFastembedOnnxMigraphx => (MIGRAPHX_EP, "MIGraphX"),
        EmbeddingRuntime::LocalFastembedOnnxDirectml => (DIRECTML_EP, "DirectML"),
        EmbeddingRuntime::LocalQwen3CandleCuda
        | EmbeddingRuntime::LocalFastembedOnnxCpu
        | EmbeddingRuntime::OpenRouter => {
            return Ok(());
        },
    };
    if census.nodes_on(provider) == 0 {
        let mut e = "profile `".to_owned();
        e.append(profile);
        e.append("` asks for ");
        e.append(label);
        e.append(", but not a single graph node ran on it (census: ");
        e.append(census.to_text().as_str());
        e.append(") — the graph silently fell back to CPU");
        return Err(e);
    }
    Ok(())
}

/// What the census at the start comes to: nothing where it is not taken, else the
/// census in words, or why it is a failure. `probed` is what came of taking it.
pub fn probe_ep_census_on_startup(
    value: Option<&str>,
    backend: &EmbeddingBackend,
    probed: Result<ProviderCensus, EmbeddingError>,
) -> (r: Result<Option<String>, String>)
    ensures
        if census_probe(text_at(value), backend.runtime) != CensusProbe::Probe {
            r == Ok::<Option<String>, String>(None)
        } else {
            match probed {
                Err(f) => r matches Err(e) && e@ == "EP census probe failed for profile `"@
                    + backend.profile@ + "`: "@ + f@.message(),
                Ok(census) => match r {
                    Ok(text) => text is Some && text->Some_0@ == census_text(census) && is_verdict(
                        backend.runtime,
                        backend.profile@,
                        census,
                        Ok(()),
                    ),
                    Err(e) => is_verdict(backend.runtime, backend.profile@, census, Err(e)),
                },
            }
        },
{
    match wants_ep_census(value, backend) {
        CensusProbe::NotAsked | CensusProbe::NoGraph => {
            return Ok(None);
        },
        CensusProbe::Probe => {},
    }
    match probed {
        Err(f) => {
            let mut e = "EP census probe failed for profile `".to_owned();
            e.append(backend.profile.name());
            e.append("`: ");
            e.append(f.to_text().as_str());
            Err(e)
        },
        Ok(census) => match ep_census_verdict(backend.runtime, backend.profile.name(), &census) {
            Err(e) => Err(e),
            Ok(()) => Ok(Some(census.to_text())),
        },
    }
}

/// Whether the binary was built for the GPUs of NVIDIA.
pub fn cuda_capable_features_compiled(build: Build) -> (r: bool)
    ensures
        r == build.cuda,
{
    build.cuda
}

/// The GPUs that the binary was built for, by name.
pub open spec fn backends_of(build: Build) -> Seq<Seq<char>> {
    (if build.cuda {
        seq!["cuda"@]
    } else {
        Seq::empty()
    }) + (if build.migraphx {
        seq!["migraphx"@]
    } else {
        Seq::empty()
    }) + (if build.directml {
        seq!["directml"@]
    } else {
        Seq::empty()
    })
}

/// The GPUs that the binary was built for, by name.
pub fn gpu_backends(build: Build) -> (names: Vec<String>)
    ensures
        texts(names@) == backends_of(build),
{
    let mut names: Vec<String> = Vec::new();
    if build.cuda {
        names.push("cuda".to_owned());
    }
    if build.migraphx {
        names.push("migraphx".to_owned());
    }
    if build.directml {
        names.push("directml".to_owned());
    }
    assert(texts(names@) =~= backends_of(build));
    names
}

/// The GPUs that the binary was built for, in words.
pub open spec fn backends_text(build: Build) -> Seq<char> {
    if backends_of(build).len() == 0 {
        "none"@
    } else {
        joined(backends_of(build), ","@)
    }
}

/// The GPUs that the binary was built for, in words.
pub fn gpu_backends_compiled(build: Build) -> (text: String)
    ensures
        text@ == backends_text(build),
{
    let names = gpu_backends(build);
    assert(names@.len() == texts(names@).len());
    if names.len() == 0 {
        "none".to_owned()
    } else {
        join(&names, ",")
    }
}

/// Whether the binary was built for a GPU and yet embeds on the processor. That is
/// no error, but it is slow, and it looks like ordinary work.
pub fn cpu_profile_on_gpu_build(compiled_backends: &[&str], automatic: &EmbeddingBackend) -> (r:
    bool)
    ensures
        r == (compiled_backends@.len() > 0 && automatic.runtime
            == EmbeddingRuntime::LocalFastembedOnnxCpu),
{
    compiled_backends.len() > 0 && match automatic.runtime {
        EmbeddingRuntime::LocalFastembedOnnxCpu => true,
        _ => false,
    }
}

/// What is to be warned of at the start: a binary that was built for a GPU and
/// embeds on the processor.
pub fn cpu_profile_on_gpu_build_warning(build: Build, automatic: &EmbeddingBackend) -> (r: Option<
    String,
>)
    ensures
        if backends_of(build).len() > 0 && automatic.runtime
            == EmbeddingRuntime::LocalFastembedOnnxCpu {
            r is Some && r->Some_0@ == "This binary is built with GPU backends ("@ + backends_text(
                build,
            ) + ") but the automatic/background embedding profile is "@ + automatic.profile@
                + ", which runs on CPU: background indexing will be roughly two orders of magnitude slower on the same model. Set "@
                + EMBEDDING_PROFILE_ENV@
                + "=local-gpu-bge for the GPU profile, or ignore this if the CPU profile is deliberate."@
        } else {
            r is None
        },
{
    let names = gpu_backends(build);
    assert(names@.len() == texts(names@).len());
    let on_cpu: bool = match automatic.runtime {
        EmbeddingRuntime::LocalFastembedOnnxCpu => true,
        _ => false,
    };
    if names.len() == 0 || !on_cpu {
        return None;
    }
    let mut text = "This binary is built with GPU backends (".to_owned();
    text.append(gpu_backends_compiled(build).as_str());
    text.append(") but the automatic/background embedding profile is ");
    text.append(automatic.profile.name());
    text.append(
        ", which runs on CPU: background indexing will be roughly two orders of magnitude slower on the same model. Set ",
    );
    text.append(EMBEDDING_PROFILE_ENV);
    text.append(
        "=local-gpu-bge for the GPU profile, or ignore this if the CPU profile is deliberate.",
    );
    Some(text)
}

/// A runtime that may work while nobody asked for it: all but the large models on
/// CUDA, which would take the memory of the GPU away from whoever works on it.
pub open spec fn runs_in_background(runtime: EmbeddingRuntime) -> bool {
    runtime != EmbeddingRuntime::LocalQwen3CandleCuda
}

/// Whether a backend may work in the background.
pub fn is_background_embedding_backend(backend: &EmbeddingBackend) -> (r: bool)
    ensures
        r == runs_in_background(backend.runtime),
{
    match backend.runtime {
        EmbeddingRuntime::LocalFastembedOnnxCpu
        | EmbeddingRuntime::LocalFastembedOnnxMigraphx
        | EmbeddingRuntime::LocalFastembedOnnxDirectml
        | EmbeddingRuntime::OpenRouter => true,
        EmbeddingRuntime::LocalQwen3CandleCuda => false,
    }
}

/// A profile for a GPU is never passed on what other providers ran.
pub proof fn a_fallback_is_never_passed(
    runtime: EmbeddingRuntime,
    profile: Seq<char>,
    census: ProviderCensus,
    r: Result<(), String>,
)
    requires
        is_verdict(runtime, profile, census, r),
        runtime == EmbeddingRuntime::LocalFastembedOnnxMigraphx && census.on(MIGRAPHX_EP@) == 0
            || runtime == EmbeddingRuntime::LocalFastembedOnnxDirectml && census.on(DIRECTML_EP@)
            == 0,
    ensures
        r is Err,
{
}

/// A graph that is to run on a GPU passes where one node at least ran on the provider of
/// that GPU, whatever else ran; any other graph passes as it is.
pub proof fn one_node_on_the_gpu_is_enough(
    runtime: EmbeddingRuntime,
    profile: Seq<char>,
    census: ProviderCensus,
    r: Result<(), String>,
)
    requires
        is_verdict(runtime, profile, census, r),
    ensures
        runtime is LocalFastembedOnnxMigraphx ==> (r is Ok <==> census.on(
            "MIGraphXExecutionProvider"@,
        ) > 0),
        runtime is LocalFastembedOnnxDirectml ==> (r is Ok <==> census.on("DmlExecutionProvider"@)
            > 0),
        !(runtime is LocalFastembedOnnxMigraphx) && !(runtime is LocalFastembedOnnxDirectml)
            ==> r is Ok,
{
}

/// The census is taken where the variable asks for it and the profile has a graph in this
/// process; where nobody asks, nothing is taken.
pub proof fn a_census_is_taken_on_request(value: Option<Seq<char>>, runtime: EmbeddingRuntime)
    ensures
        census_probe(value, runtime) == CensusProbe::Probe <==> is_on(value) && !(
        runtime is OpenRouter) && !(runtime is LocalQwen3CandleCuda),
        census_probe(value, runtime) == CensusProbe::NotAsked <==> !is_on(value),
        census_probe(None, runtime) == CensusProbe::NotAsked,
{
}

/// White space around the name of a profile does not count, and without a name the
/// profile for the processor is meant.
pub proof fn a_profile_is_asked_for_by_its_name(left: Seq<char>, name: Seq<char>, right: Seq<char>)
    requires
        forall|i: int| 0 <= i < left.len() ==> is_space(#[trigger] left[i]),
        forall|i: int| 0 <= i < right.len() ==> is_space(#[trigger] right[i]),
        name.len() > 0,
        !is_space(name[0]),
        !is_space(name.last()),
    ensures
        requested_profile(Some(left + name + right)) == name,
        requested_profile(Some(left)) == "local-cpu-small"@,
        requested_profile(None) == "local-cpu-small"@,
{
    white_space_around_does_not_count(left, name, right);
    white_space_is_blank(left);
}

/// A name is resolved to the profile that is built in before one of the project is looked
/// at: a project cannot change what a built-in name means.
pub proof fn a_project_does_not_hide_what_is_built_in(
    name: Seq<char>,
    project: Option<EmbeddingBackend>,
    r: Result<EmbeddingBackend, String>,
)
    requires
        resolved(name, project, r),
        name == "local-cpu-small"@ || name == "local-gpu-bge"@ || name == "local-dml-bge"@,
    ensures
        r is Ok,
        r->Ok_0.profile@ == name,
        r->Ok_0.runtime is LocalFastembedOnnxCpu <==> name == "local-cpu-small"@,
        r->Ok_0.runtime is LocalFastembedOnnxMigraphx <==> name == "local-gpu-bge"@,
        r->Ok_0.runtime is LocalFastembedOnnxDirectml <==> name == "local-dml-bge"@,
{
    three_profiles_are_built_in(name);
}

/// Any other name means what the project has under it, and is refused where the project
/// has nothing.
pub proof fn other_names_are_those_of_the_project(
    name: Seq<char>,
    project: Option<EmbeddingBackend>,
    r: Result<EmbeddingBackend, String>,
)
    requires
        resolved(name, project, r),
        name != "local-cpu-small"@ && name != "local-gpu-bge"@ && name != "local-dml-bge"@,
    ensures
        r is Ok <==> project is Some,
        r is Ok ==> r->Ok_0 == project->Some_0,
{
    three_profiles_are_built_in(name);
}

/// All runtimes work in the background but the models on CUDA.
pub proof fn only_models_on_cuda_wait_for_a_request(runtime: EmbeddingRuntime)
    ensures
        runs_in_background(runtime) <==> !(runtime is LocalQwen3CandleCuda),
{
}

/// The GPUs that a binary was built for are listed by name, each once, and those that it
/// was not built for are not.
pub proof fn the_gpus_of_a_binary_are_listed(build: Build)
    ensures
        backends_of(build).contains("cuda"@) <==> build.cuda,
        backends_of(build).contains("migraphx"@) <==> build.migraphx,
        backends_of(build).contains("directml"@) <==> build.directml,
        backends_of(build).no_duplicates(),
        !build.cuda && !build.migraphx && !build.directml ==> backends_text(build) == "none"@,
{
    reveal_strlit("cuda");
    reveal_strlit("migraphx");
    reveal_strlit("directml");
    assert("cuda"@.len() == 4);
    assert("migraphx"@[0] == 'm');
    assert("directml"@[0] == 'd');
    let all = backends_of(build);
    if build.cuda {
        assert(all[0] == "cuda"@);
    }
    if build.migraphx {
        assert(all[if build.cuda { 1int } else { 0int }] == "migraphx"@);
    }
    if build.directml {
        assert(all[all.len() - 1] == "directml"@);
    }
}

/// A profile is accepted exactly where there is one of its name, and the name that is taken
/// is the one that was asked for.
pub proof fn a_usable_profile_is_taken(
    value: Option<&str>,
    project: Option<EmbeddingBackend>,
    r: Result<String, String>,
)
    requires
        call_ensures(automatic_embedding_profile_name, (value, project), r),
    ensures
        r is Ok ==> r->Ok_0@ == requested_profile(text_at(value)),
        value is None ==> r is Ok && r->Ok_0@ == "local-cpu-small"@,
        project is Some ==> r is Ok,
        ({
            let name = requested_profile(text_at(value));
            project is None ==> (r is Ok <==> name == "local-cpu-small"@ || name
                == "local-gpu-bge"@ || name == "local-dml-bge"@)
        }),
{
    three_profiles_are_built_in(requested_profile(text_at(value)));
}

/// A census at the start is told of where it was taken and passed; where nobody asked for
/// it, or there is no graph, nothing is told, whatever came of it. A probe that failed and
/// a graph that fell back are errors.
pub proof fn a_census_at_the_start_is_passed_or_refused(
    value: Option<&str>,
    backend: EmbeddingBackend,
    probed: Result<ProviderCensus, EmbeddingError>,
    r: Result<Option<String>, String>,
)
    requires
        call_ensures(probe_ep_census_on_startup, (value, &backend, probed), r),
    ensures
        ({
            let taken = is_on(text_at(value)) && !(backend.runtime is OpenRouter) && !(
            backend.runtime is LocalQwen3CandleCuda);
            &&& !taken ==> r is Ok && r->Ok_0 is None
            &&& taken && probed is Err ==> r is Err
            &&& taken && probed is Ok && backend.runtime is LocalFastembedOnnxCpu ==> r is Ok
                && r->Ok_0 is Some
            &&& taken && probed is Ok && backend.runtime is LocalFastembedOnnxMigraphx ==> (r is Ok
                <==> probed->Ok_0.on("MIGraphXExecutionProvider"@) > 0)
            &&& taken && probed is Ok && backend.runtime is LocalFastembedOnnxDirectml ==> (r is Ok
                <==> probed->Ok_0.on("DmlExecutionProvider"@) > 0)
        }),
{
}

/// Whoever embeds on the processor with a binary that was built for a GPU is warned, and
/// nobody else.
pub proof fn an_idle_gpu_is_warned_of(
    build: Build,
    backend: EmbeddingBackend,
    r: Option<String>,
)
    requires
        call_ensures(cpu_profile_on_gpu_build_warning, (build, &backend), r),
    ensures
        r is Some <==> (build.cuda || build.migraphx || build.directml) && backend.runtime
            is LocalFastembedOnnxCpu,
{
    let names = backends_of(build);
    assert(names.len() > 0 <==> build.cuda || build.migraphx || build.directml);
}

} // verus!

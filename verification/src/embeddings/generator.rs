//! Making embeddings: which session is opened, what it is asked, and that nothing
//! comes out of it that is no number.
//!
//! A vector with a component that is not finite loses every comparison. Nothing
//! fails then: the text it stands for is no longer found. So each batch is checked.

use vstd::prelude::*;

use crate::embeddings::backend::{
    built_in, runs_onnx, EmbeddingBackend, EmbeddingRuntime, QueryView, CPU_MODEL, GPU_MODEL,
};
use crate::embeddings::batching::{
    at_least_one, covers, fixed_batches_follow_their_rows, is_fixed_plan, plan_fixed_rows, BatchPlan,
};
use crate::embeddings::ep_census::{is_census_of_text, ProviderCensus};
use crate::embeddings::error::{EmbeddingError, EmbeddingFailure, NonFinite};
use crate::text::{same, texts};

verus! {

/// An embedding. Each component is a single-precision number, given by its bits as
/// IEEE 754 lays them out.
pub type Embedding = Vec<u32>;

/// What number the bits are, where it is not finite. The exponent has all its bits
/// set then; the numbers with a fraction are no numbers.
pub open spec fn non_finite_of(bits: u32) -> Option<NonFinite> {
    let magnitude = bits as int % 0x8000_0000;
    if magnitude < 0x7F80_0000 {
        None
    } else if magnitude > 0x7F80_0000 {
        Some(NonFinite::Nan)
    } else if bits < 0x8000_0000 {
        Some(NonFinite::Infinity)
    } else {
        Some(NonFinite::NegativeInfinity)
    }
}

/// What number the bits are, where it is not finite.
pub fn non_finite(bits: u32) -> (r: Option<NonFinite>)
    ensures
        r == non_finite_of(bits),
{
    let magnitude: u32 = bits % 0x8000_0000;
    if magnitude < 0x7F80_0000 {
        None
    } else if magnitude > 0x7F80_0000 {
        Some(NonFinite::Nan)
    } else if bits < 0x8000_0000 {
        Some(NonFinite::Infinity)
    } else {
        Some(NonFinite::NegativeInfinity)
    }
}

/// Every component is a finite number.
pub open spec fn is_finite(embedding: Seq<u32>) -> bool {
    forall|j: int| 0 <= j < embedding.len() ==> non_finite_of(#[trigger] embedding[j]) is None
}

/// Every component of every embedding is a finite number.
pub open spec fn all_finite(embeddings: Seq<Embedding>) -> bool {
    forall|i: int| 0 <= i < embeddings.len() ==> is_finite((#[trigger] embeddings[i])@)
}

/// A component that is no finite number: of which vector, which component, and what
/// the model gave.
#[derive(Debug, Clone, Copy, PartialEq, Eq, Structural)]
pub struct NonFiniteHit {
    /// The vector.
    pub index: usize,
    /// The component.
    pub component: usize,
    /// What the model gave.
    pub value: NonFinite,
}

impl NonFiniteHit {
    /// The failure, for a batch of this length.
    pub fn into_error(self, batch_len: usize) -> (e: EmbeddingError)
        ensures
            e@ == self.failure(batch_len),
    {
        EmbeddingError::NonFiniteEmbedding {
            index: self.index,
            batch_len,
            component: self.component,
            value: self.value,
        }
    }

    /// The failure, for a batch of this length.
    pub open spec fn failure(&self, batch_len: usize) -> EmbeddingFailure {
        EmbeddingFailure::NonFiniteEmbedding {
            index: self.index,
            batch_len,
            component: self.component,
            value: self.value,
        }
    }
}

/// `hit` is the first component that is not finite.
pub open spec fn is_first_hit(embeddings: Seq<Embedding>, hit: NonFiniteHit) -> bool {
    &&& hit.index < embeddings.len()
    &&& hit.component < embeddings[hit.index as int]@.len()
    &&& non_finite_of(embeddings[hit.index as int]@[hit.component as int]) == Some(hit.value)
    &&& all_finite(embeddings.take(hit.index as int))
    &&& is_finite(embeddings[hit.index as int]@.take(hit.component as int))
}

/// There is one first hit: what a batch is refused for is determined.
pub proof fn first_hit_is_determined(embeddings: Seq<Embedding>, a: NonFiniteHit, b: NonFiniteHit)
    requires
        is_first_hit(embeddings, a),
        is_first_hit(embeddings, b),
    ensures
        a == b,
{
    if a.index < b.index {
        assert(embeddings.take(b.index as int)[a.index as int] == embeddings[a.index as int]);
        assert(is_finite(embeddings[a.index as int]@));
    }
    if b.index < a.index {
        assert(embeddings.take(a.index as int)[b.index as int] == embeddings[b.index as int]);
        assert(is_finite(embeddings[b.index as int]@));
    }
    let e = embeddings[a.index as int]@;
    if a.component < b.component {
        assert(e.take(b.component as int)[a.component as int] == e[a.component as int]);
    }
    if b.component < a.component {
        assert(e.take(a.component as int)[b.component as int] == e[b.component as int]);
    }
}

/// The first component in a batch that is not finite.
pub fn first_non_finite(embeddings: &Vec<Embedding>) -> (r: Option<NonFiniteHit>)
    ensures
        match r {
            Some(hit) => is_first_hit(embeddings@, hit),
            None => all_finite(embeddings@),
        },
{
    let mut index: usize = 0;
    while index < embeddings.len()
        invariant
            index <= embeddings@.len(),
            all_finite(embeddings@.take(index as int)),
        decreases embeddings@.len() - index,
    {
        let embedding = &embeddings[index];
        let mut component: usize = 0;
        while component < embedding.len()
            invariant
                index < embeddings@.len(),
                *embedding == embeddings@[index as int],
                component <= embedding@.len(),
                all_finite(embeddings@.take(index as int)),
                is_finite(embedding@.take(component as int)),
            decreases embedding@.len() - component,
        {
            match non_finite(embedding[component]) {
                Some(value) => {
                    return Some(NonFiniteHit { index, component, value });
                },
                None => {},
            }
            proof {
                assert(embedding@.take(component + 1) =~= embedding@.take(component as int).push(
                    embedding@[component as int],
                ));
            }
            component += 1;
        }
        proof {
            assert(embedding@.take(component as int) =~= embedding@);
            assert(embeddings@.take(index + 1) =~= embeddings@.take(index as int).push(*embedding));
        }
        index += 1;
    }
    assert(embeddings@.take(index as int) =~= embeddings@);
    None
}

/// A vector of this runtime that is not finite is made once more, by itself: on a
/// local GPU the fault is one of the place in the batch.
pub open spec fn is_retried(runtime: EmbeddingRuntime) -> bool {
    runtime == EmbeddingRuntime::LocalFastembedOnnxMigraphx || runtime
        == EmbeddingRuntime::LocalFastembedOnnxDirectml
}

/// Whether a vector of this runtime that is not finite is made once more.
pub fn retries_non_finite(runtime: EmbeddingRuntime) -> (r: bool)
    ensures
        r == is_retried(runtime),
{
    match runtime {
        EmbeddingRuntime::LocalFastembedOnnxMigraphx
        | EmbeddingRuntime::LocalFastembedOnnxDirectml => true,
        _ => false,
    }
}

/// What a text is embedded as.
#[derive(Debug, Clone, Copy, PartialEq, Eq, Structural)]
pub enum EmbedSide {
    /// A text to be found.
    Documents,
    /// A text to find by.
    Queries,
}

/// The text that the model gets.
pub open spec fn asked(side: EmbedSide, query: QueryView, text: Seq<char>) -> Seq<char> {
    match (side, query) {
        (EmbedSide::Queries, QueryView::Prefix(prefix)) => prefix + text,
        _ => text,
    }
}

/// The texts that the model gets.
pub open spec fn all_asked(side: EmbedSide, query: QueryView, given: Seq<Seq<char>>) -> Seq<
    Seq<char>,
> {
    Seq::new(given.len(), |i: int| asked(side, query, given[i]))
}

/// Which GPUs the binary was built for.
#[derive(Debug, Clone, Copy, PartialEq, Eq, Structural)]
pub struct Build {
    /// Those of NVIDIA.
    pub cuda: bool,
    /// Those of AMD.
    pub migraphx: bool,
    /// Those that Windows offers.
    pub directml: bool,
}

/// A model that is run as an ONNX graph.
#[derive(Debug, Clone, Copy, PartialEq, Eq, Structural)]
pub enum FastembedOnnxModel {
    /// The quantised one.
    BgeSmallEnV15Q,
    /// The one in full precision.
    BgeSmallEnV15,
}

/// The model of this name.
pub open spec fn onnx_model_of(name: Seq<char>) -> Option<FastembedOnnxModel> {
    if name == CPU_MODEL@ {
        Some(FastembedOnnxModel::BgeSmallEnV15Q)
    } else if name == GPU_MODEL@ {
        Some(FastembedOnnxModel::BgeSmallEnV15)
    } else {
        None
    }
}

/// The session that is opened for a backend.
#[derive(Debug, Clone, Copy, PartialEq, Eq, Structural)]
pub enum SessionPlan {
    /// Qwen3 on CUDA.
    Qwen3,
    /// A service.
    OpenRouter,
    /// An ONNX graph. On a GPU nothing but the GPU will do: where its provider does
    /// not come up, the session is not opened.
    FastembedOnnx { model: FastembedOnnxModel, max_len: usize, on_gpu: bool },
}

/// The session of an ONNX graph for a backend, or why there is none.
pub open spec fn onnx_plan_of(backend: EmbeddingBackend, build: Build) -> Result<
    SessionPlan,
    EmbeddingFailure,
> {
    let on_gpu = backend.runtime == EmbeddingRuntime::LocalFastembedOnnxMigraphx;
    if !runs_onnx(backend.runtime) {
        Err(
            EmbeddingFailure::ModelInit(
                "embedding profile `"@ + backend.profile@ + "` is not a fastembed ONNX profile"@,
            ),
        )
    } else {
        match onnx_model_of(backend.model@) {
            None => Err(
                EmbeddingFailure::ModelInit(
                    "model `"@ + backend.model@ + "` is not a fastembed ONNX model"@,
                ),
            ),
            Some(model) => if on_gpu && !build.migraphx {
                Err(
                    EmbeddingFailure::ModelInit(
                        "rmc-engine was built without the `embeddings-migraphx` feature; rebuild with --features migraphx to use GPU embedding profiles"@,
                    ),
                )
            } else {
                Ok(SessionPlan::FastembedOnnx { model, max_len: backend.max_len, on_gpu })
            },
        }
    }
}

/// The session for a backend, or why there is none.
pub open spec fn plan_of(backend: EmbeddingBackend, build: Build) -> Result<
    SessionPlan,
    EmbeddingFailure,
> {
    match backend.runtime {
        EmbeddingRuntime::LocalQwen3CandleCuda => if build.cuda {
            Ok(SessionPlan::Qwen3)
        } else {
            Err(
                EmbeddingFailure::GpuRequired(
                    "rmc-engine was built without the `embeddings-cuda` feature"@,
                ),
            )
        },
        EmbeddingRuntime::OpenRouter => Ok(SessionPlan::OpenRouter),
        _ => onnx_plan_of(backend, build),
    }
}

/// The session of an ONNX graph for a backend.
pub fn plan_onnx_session(backend: &EmbeddingBackend, build: Build) -> (r: Result<
    SessionPlan,
    EmbeddingError,
>)
    ensures
        match r {
            Ok(plan) => onnx_plan_of(*backend, build) == Ok::<SessionPlan, EmbeddingFailure>(plan),
            Err(e) => onnx_plan_of(*backend, build) == Err::<SessionPlan, EmbeddingFailure>(e@),
        },
{
    if !backend.is_fastembed_onnx() {
        let mut m = "embedding profile `".to_owned();
        m.append(backend.profile.name());
        m.append("` is not a fastembed ONNX profile");
        return Err(EmbeddingError::model_init(m.as_str()));
    }
    let model = if same(backend.model.as_str(), CPU_MODEL) {
        FastembedOnnxModel::BgeSmallEnV15Q
    } else if same(backend.model.as_str(), GPU_MODEL) {
        FastembedOnnxModel::BgeSmallEnV15
    } else {
        let mut m = "model `".to_owned();
        m.append(backend.model.as_str());
        m.append("` is not a fastembed ONNX model");
        return Err(EmbeddingError::model_init(m.as_str()));
    };
    let on_gpu: bool = match backend.runtime {
        EmbeddingRuntime::LocalFastembedOnnxMigraphx => true,
        _ => false,
    };
    if on_gpu && !build.migraphx {
        return Err(
            EmbeddingError::model_init(
                "rmc-engine was built without the `embeddings-migraphx` feature; rebuild with --features migraphx to use GPU embedding profiles",
            ),
        );
    }
    Ok(SessionPlan::FastembedOnnx { model, max_len: backend.max_len, on_gpu })
}

/// The session for a backend.
pub fn plan_session(backend: &EmbeddingBackend, build: Build) -> (r: Result<
    SessionPlan,
    EmbeddingError,
>)
    ensures
        match r {
            Ok(plan) => plan_of(*backend, build) == Ok::<SessionPlan, EmbeddingFailure>(plan),
            Err(e) => plan_of(*backend, build) == Err::<SessionPlan, EmbeddingFailure>(e@),
        },
{
    match backend.runtime {
        EmbeddingRuntime::LocalQwen3CandleCuda => {
            if build.cuda {
                Ok(SessionPlan::Qwen3)
            } else {
                Err(
                    EmbeddingError::gpu_required(
                        "rmc-engine was built without the `embeddings-cuda` feature",
                    ),
                )
            }
        },
        EmbeddingRuntime::OpenRouter => Ok(SessionPlan::OpenRouter),
        _ => plan_onnx_session(backend, build),
    }
}

/// Makes embeddings. `S` is the session that does it.
pub struct EmbeddingGenerator<S> {
    session: S,
    backend: EmbeddingBackend,
}

/// What becomes of a batch that was checked.
pub enum Guarded {
    /// It passes.
    Passed(Vec<Embedding>),
    /// It is refused.
    Refused(EmbeddingError),
    /// Its texts are embedded once more, each by itself.
    Recompute(Recomputation),
}

/// A batch that is made once more.
pub struct Recomputation {
    side: EmbedSide,
    inputs: Vec<String>,
    batch_len: usize,
    next: usize,
    made: Vec<Embedding>,
}

impl Recomputation {
    /// What was made so far is finite, of the texts up to the next.
    #[verifier::type_invariant]
    spec fn wf(&self) -> bool {
        self.next <= self.inputs@.len() && all_finite(self.made@)
    }

    /// As what the texts are embedded.
    pub closed spec fn side(&self) -> EmbedSide {
        self.side
    }

    /// The texts that the model gets.
    pub closed spec fn inputs(&self) -> Seq<Seq<char>> {
        texts(self.inputs@)
    }

    /// The length of the batch that was refused.
    pub closed spec fn batch_len(&self) -> usize {
        self.batch_len
    }

    /// How many texts are done.
    pub closed spec fn done(&self) -> nat {
        self.next as nat
    }

    /// What was made so far.
    pub closed spec fn made(&self) -> Seq<Embedding> {
        self.made@
    }

    /// The text to embed by itself next. There is none when all are done.
    pub fn next_input(&self) -> (r: Option<&String>)
        ensures
            match r {
                Some(text) => self.done() < self.inputs().len() && text@ == self.inputs()[self.done() as int],
                None => self.done() == self.inputs().len(),
            },
    {
        proof {
            use_type_invariant(self);
        }
        if self.next < self.inputs.len() {
            Some(&self.inputs[self.next])
        } else {
            None
        }
    }

    /// Takes what came for the text that was embedded by itself. What is still not
    /// finite then ends the run: it is not a fault of the place in the batch.
    pub fn take(self, one: Result<Vec<Embedding>, EmbeddingError>) -> (r: Result<
        Self,
        EmbeddingError,
    >)
        requires
            self.done() < self.inputs().len(),
        ensures
            match one {
                Err(e) => r matches Err(f) && f@ == e@,
                Ok(embeddings) => match r {
                    Ok(next) => {
                        &&& all_finite(embeddings@)
                        &&& next.made() == self.made() + embeddings@
                        &&& next.done() == self.done() + 1
                        &&& next.inputs() == self.inputs()
                        &&& next.side() == self.side()
                        &&& next.batch_len() == self.batch_len()
                    },
                    Err(e) => exists|hit: NonFiniteHit| #[trigger]
                        is_first_hit(embeddings@, hit) && e@ == hit.failure(self.batch_len()),
                },
            },
    {
        proof {
            use_type_invariant(&self);
        }
        let all: usize = self.inputs.len();
        match one {
            Err(e) => Err(e),
            Ok(mut embeddings) => {
                match first_non_finite(&embeddings) {
                    Some(hit) => Err(hit.into_error(self.batch_len)),
                    None => {
                        assert(self.next < all);
                        let mut made = self.made;
                        let ghost before = made@;
                        let ghost more = embeddings@;
                        made.append(&mut embeddings);
                        proof {
                            assert forall|i: int| 0 <= i < made@.len() implies is_finite(
                                (#[trigger] made@[i])@,
                            ) by {
                                if i < before.len() {
                                    assert(made@[i] == before[i]);
                                } else {
                                    assert(made@[i] == more[i - before.len()]);
                                }
                            }
                        }
                        Ok(
                            Recomputation {
                                side: self.side,
                                inputs: self.inputs,
                                batch_len: self.batch_len,
                                next: self.next + 1,
                                made,
                            },
                        )
                    },
                }
            },
        }
    }

    /// What was made, when all texts are done.
    pub fn finish(self) -> (made: Vec<Embedding>)
        requires
            self.done() == self.inputs().len(),
        ensures
            made@ == self.made(),
            all_finite(made@),
    {
        proof {
            use_type_invariant(&self);
        }
        self.made
    }
}

/// An embedding with the chunk it stands for.
pub struct ChunkWithEmbedding {
    /// The chunk.
    pub chunk_id: u128,
    /// Its embedding.
    pub embedding: Embedding,
}

impl<S> EmbeddingGenerator<S> {
    /// The session.
    pub closed spec fn session(&self) -> S {
        self.session
    }

    /// The backend.
    pub closed spec fn backend_spec(&self) -> EmbeddingBackend {
        self.backend
    }

    /// Makes embeddings with the backend that is used where none is chosen.
    pub fn new(build: Build, opened: Result<S, EmbeddingError>) -> (r: Result<
        Self,
        EmbeddingError,
    >)
        ensures
            match r {
                Ok(g) => opened == Ok::<S, EmbeddingError>(g.session()) && built_in(
                    "local-cpu-small"@,
                ) == Some(g.backend_spec()@) && g.backend_spec().profile@ == "local-cpu-small"@
                    && plan_of(g.backend_spec(), build) is Ok,
                Err(e) => opened is Err && opened->Err_0@ == e@,
            },
    {
        let backend = EmbeddingBackend::default();
        proof {
            built_in_cpu_is_onnx(backend, build);
        }
        Self::with_backend(backend, build, opened)
    }

    /// Makes embeddings with a backend. `opened` is what came of opening the session
    /// that [`plan_session`] gives; where it gives none, there is nothing to make
    /// embeddings with.
    pub fn with_backend(
        backend: EmbeddingBackend,
        build: Build,
        opened: Result<S, EmbeddingError>,
    ) -> (r: Result<Self, EmbeddingError>)
        ensures
            match plan_of(backend, build) {
                Err(f) => r matches Err(e) && e@ == f,
                Ok(_) => match opened {
                    Ok(s) => r matches Ok(g) && g.session() == s && g.backend_spec() == backend,
                    Err(e) => r == Err::<Self, EmbeddingError>(e),
                },
            },
    {
        match plan_session(&backend, build) {
            Err(e) => Err(e),
            Ok(_) => match opened {
                Ok(session) => Ok(EmbeddingGenerator { session, backend }),
                Err(e) => Err(e),
            },
        }
    }

    /// The number of components of an embedding.
    pub fn dimensions(&self) -> (n: usize)
        ensures
            n == self.backend_spec().dim,
    {
        self.backend.dim()
    }

    /// The backend.
    pub fn backend(&self) -> (b: &EmbeddingBackend)
        ensures
            *b == self.backend_spec(),
    {
        &self.backend
    }

    /// The session.
    pub fn session_ref(&self) -> (s: &S)
        ensures
            *s == self.session(),
    {
        &self.session
    }

    /// What the session is asked to embed for these texts.
    pub fn inputs(&self, side: EmbedSide, given: &Vec<String>) -> (out: Vec<String>)
        ensures
            texts(out@) == all_asked(side, self.backend_spec().query@, texts(given@)),
    {
        let mut out: Vec<String> = Vec::new();
        let mut i: usize = 0;
        while i < given.len()
            invariant
                i <= given@.len(),
                out@.len() == i,
                forall|k: int|
                    0 <= k < i ==> (#[trigger] out@[k])@ == asked(
                        side,
                        self.backend_spec().query@,
                        given@[k]@,
                    ),
            decreases given@.len() - i,
        {
            let input = match side {
                EmbedSide::Documents => given[i].clone(),
                EmbedSide::Queries => self.backend.format_query(given[i].as_str()),
            };
            out.push(input);
            i += 1;
        }
        assert(texts(out@) =~= all_asked(side, self.backend_spec().query@, texts(given@)));
        out
    }

    /// Checks a batch. A batch in which all is finite passes. Another one is made once more
    /// on the runtimes where that is known to help, and refused on the others: there
    /// it is a defect, and making it once more would hide it.
    pub fn guard_finite(
        &self,
        side: EmbedSide,
        given: &Vec<String>,
        embeddings: Vec<Embedding>,
    ) -> (r: Guarded)
        ensures
            match r {
                Guarded::Passed(passed) => passed@ == embeddings@ && all_finite(passed@),
                Guarded::Refused(e) => !is_retried(self.backend_spec().runtime) && exists|
                    hit: NonFiniteHit,
                | #[trigger]
                    is_first_hit(embeddings@, hit) && e@ == hit.failure(
                        embeddings@.len() as usize,
                    ),
                Guarded::Recompute(again) => {
                    &&& is_retried(self.backend_spec().runtime)
                    &&& !all_finite(embeddings@)
                    &&& again.side() == side
                    &&& again.inputs() == all_asked(
                        side,
                        self.backend_spec().query@,
                        texts(given@),
                    )
                    &&& again.batch_len() == embeddings@.len()
                    &&& again.done() == 0
                    &&& again.made() == Seq::<Embedding>::empty()
                },
            },
    {
        match first_non_finite(&embeddings) {
            None => Guarded::Passed(embeddings),
            Some(hit) => {
                assert(!is_finite(embeddings@[hit.index as int]@));
                if retries_non_finite(self.backend.runtime) {
                    Guarded::Recompute(
                        Recomputation {
                            side,
                            inputs: self.inputs(side, given),
                            batch_len: embeddings.len(),
                            next: 0,
                            made: Vec::new(),
                        },
                    )
                } else {
                    Guarded::Refused(hit.into_error(embeddings.len()))
                }
            },
        }
    }

    /// The embeddings with their chunks, in order. There are as many as there are of
    /// both.
    pub fn embed_chunks(chunks: &Vec<u128>, embeddings: &Vec<Embedding>) -> (pairs: Vec<
        ChunkWithEmbedding,
    >)
        ensures
            pairs@.len() == (if chunks@.len() < embeddings@.len() {
                chunks@.len()
            } else {
                embeddings@.len()
            }),
            forall|i: int|
                0 <= i < pairs@.len() ==> (#[trigger] pairs@[i]).chunk_id == chunks@[i]
                    && pairs@[i].embedding@ == embeddings@[i]@,
    {
        let mut pairs: Vec<ChunkWithEmbedding> = Vec::new();
        let mut i: usize = 0;
        while i < chunks.len() && i < embeddings.len()
            invariant
                i <= chunks@.len(),
                i <= embeddings@.len(),
                pairs@.len() == i,
                forall|k: int|
                    0 <= k < i ==> (#[trigger] pairs@[k]).chunk_id == chunks@[k]
                        && pairs@[k].embedding@ == embeddings@[k]@,
            decreases chunks@.len() - i,
        {
            let embedding = embeddings[i].clone();
            assert(embedding@ =~= embeddings@[i as int]@);
            pairs.push(ChunkWithEmbedding { chunk_id: chunks[i], embedding });
            i += 1;
        }
        pairs
    }
}

proof fn built_in_cpu_is_onnx(backend: EmbeddingBackend, build: Build)
    requires
        built_in("local-cpu-small"@) == Some(backend@),
    ensures
        plan_of(backend, build) is Ok,
{
}

/// A step of the pipeline: a batch, and what is reported after it.
pub struct PipelineStep {
    /// The batch.
    pub batch: BatchPlan,
    /// How many chunks are done then.
    pub processed: usize,
    /// Of how many.
    pub total: usize,
}

/// Embeds chunks batch by batch.
pub struct EmbeddingPipeline<S> {
    generator: EmbeddingGenerator<S>,
    batch_size: usize,
}

impl<S> EmbeddingPipeline<S> {
    /// What makes the embeddings.
    pub closed spec fn generator(&self) -> EmbeddingGenerator<S> {
        self.generator
    }

    /// The number of chunks of a batch.
    pub closed spec fn batch_size(&self) -> usize {
        self.batch_size
    }

    /// What makes the embeddings.
    pub fn generator_ref(&self) -> (g: &EmbeddingGenerator<S>)
        ensures
            *g == self.generator(),
    {
        &self.generator
    }

    /// A pipeline with batches of the usual size.
    pub fn new(generator: EmbeddingGenerator<S>) -> (p: Self)
        ensures
            p.generator() == generator,
            p.batch_size() == 32,
    {
        EmbeddingPipeline { generator, batch_size: 32 }
    }

    /// A pipeline with batches of this size.
    pub fn with_batch_size(generator: EmbeddingGenerator<S>, batch_size: usize) -> (p: Self)
        ensures
            p.generator() == generator,
            p.batch_size() == batch_size,
    {
        EmbeddingPipeline { generator, batch_size }
    }

    /// The steps for `total` chunks: full batches but for the last, and after each
    /// how many chunks are done.
    pub fn process_chunks(&self, total: usize) -> (steps: Vec<PipelineStep>)
        requires
            self.batch_size() > 0,
        ensures
            is_fixed_plan(batches(steps@), total as int, self.batch_size() as int),
            forall|k: int|
                0 <= k < steps@.len() ==> {
                    let all = (k + 1) * self.batch_size();
                    &&& (#[trigger] steps@[k]).total == total
                    &&& steps@[k].processed == (if all < total {
                        all
                    } else {
                        total as int
                    })
                },
    {
        let plans = plan_fixed_rows(total, self.batch_size);
        let mut steps: Vec<PipelineStep> = Vec::new();
        let mut k: usize = 0;
        while k < plans.len()
            invariant
                k <= plans@.len(),
                steps@.len() == k,
                is_fixed_plan(plans@, total as int, self.batch_size() as int),
                self.batch_size() > 0,
                forall|i: int| 0 <= i < k ==> (#[trigger] steps@[i]).batch == plans@[i],
                forall|i: int|
                    0 <= i < k ==> {
                        let all = (i + 1) * self.batch_size();
                        &&& (#[trigger] steps@[i]).total == total
                        &&& steps@[i].processed == (if all < total {
                            all
                        } else {
                            total as int
                        })
                    },
            decreases plans@.len() - k,
        {
            let batch = plans[k];
            proof {
                end_of_batch(plans@, total as int, self.batch_size() as int, k as int);
            }
            steps.push(PipelineStep { batch, processed: batch.end, total });
            k += 1;
        }
        assert(batches(steps@) =~= plans@);
        steps
    }

    /// The number of components of an embedding.
    pub fn dimensions(&self) -> (n: usize)
        ensures
            n == self.generator().backend_spec().dim,
    {
        self.generator.dimensions()
    }
}

/// The batches of the steps.
pub open spec fn batches(steps: Seq<PipelineStep>) -> Seq<BatchPlan> {
    Seq::new(steps.len(), |i: int| steps[i].batch)
}

proof fn end_of_batch(plans: Seq<BatchPlan>, n: int, rows: int, k: int)
    requires
        is_fixed_plan(plans, n, rows),
        rows > 0,
        0 <= k < plans.len(),
    ensures
        plans[k].start == k * rows,
        plans[k].end == (if (k + 1) * rows < n {
            (k + 1) * rows
        } else {
            n
        }),
    decreases k,
{
    if k > 0 {
        end_of_batch(plans, n, rows, k - 1);
        assert(plans[k - 1].end == plans[k].start);
        assert(plans[k - 1].end - plans[k - 1].start == at_least_one(rows));
    }
    assert(k * rows == (k - 1) * rows + rows) by (nonlinear_arith);
    assert((k + 1) * rows == k * rows + rows) by (nonlinear_arith);
    if k < plans.len() - 1 {
        assert(plans[k].end == plans[k + 1].start);
        batch_ends_within(plans, n, k + 1);
    }
}

proof fn batch_ends_within(plans: Seq<BatchPlan>, n: int, k: int)
    requires
        covers(plans, n),
        0 <= k < plans.len(),
    ensures
        plans[k].end <= n,
    decreases plans.len() - k,
{
    if k < plans.len() - 1 {
        batch_ends_within(plans, n, k + 1);
        assert(plans[k].end == plans[k + 1].start);
    }
}

/// The census of the providers that run a backend's graph. `profile` is what came of
/// running a session for it with profiling on: the text of the profile. A backend
/// without a graph of its own has none.
pub fn probe_provider_census(
    backend: &EmbeddingBackend,
    build: Build,
    profile: Result<String, EmbeddingError>,
) -> (r: Result<ProviderCensus, EmbeddingError>)
    ensures
        match onnx_plan_of(*backend, build) {
            Err(f) => r matches Err(e) && e@ == f,
            Ok(_) => match profile {
                Err(e) => r == Err::<ProviderCensus, EmbeddingError>(e),
                Ok(raw) => is_census_of_text(raw@, r),
            },
        },
{
    match plan_onnx_session(backend, build) {
        Err(e) => Err(e),
        Ok(_) => match profile {
            Err(e) => Err(e),
            Ok(raw) => ProviderCensus::from_profile_json(raw.as_str()),
        },
    }
}

/// The numbers that are not finite are those with all eight bits of the exponent set: no
/// number where the fraction has a bit, else infinite, by the sign.
pub proof fn not_finite_is_told_by_the_exponent(bits: u32)
    ensures
        ({
            let sign = bits as int / 0x8000_0000;
            let exponent = (bits as int / 0x80_0000) % 256;
            let fraction = bits as int % 0x80_0000;
            non_finite_of(bits) == (if exponent != 255 {
                None
            } else if fraction != 0 {
                Some(NonFinite::Nan)
            } else if sign == 0 {
                Some(NonFinite::Infinity)
            } else {
                Some(NonFinite::NegativeInfinity)
            })
        }),
{
}

/// A batch that is not finite is made once more on the two local GPU runtimes of ONNX
/// graphs, and on no other.
pub proof fn only_local_graphs_on_a_gpu_are_made_once_more(runtime: EmbeddingRuntime)
    ensures
        is_retried(runtime) <==> (runtime is LocalFastembedOnnxMigraphx
            || runtime is LocalFastembedOnnxDirectml),
{
}

/// A document is embedded as it is. A query is preceded by the backend's prefix, where it
/// has one; and so texts stay apart, and as many as they are.
pub proof fn only_a_query_gets_the_prefix(
    query: QueryView,
    prefix: Seq<char>,
    given: Seq<Seq<char>>,
    i: int,
)
    requires
        0 <= i < given.len(),
    ensures
        all_asked(EmbedSide::Documents, query, given) == given,
        all_asked(EmbedSide::Queries, QueryView::Prefix(prefix), given).len() == given.len(),
        all_asked(EmbedSide::Queries, QueryView::Prefix(prefix), given)[i] == prefix + given[i],
        !(query is Prefix) ==> all_asked(EmbedSide::Queries, query, given) == given,
{
    assert(all_asked(EmbedSide::Documents, query, given) =~= given);
    if !(query is Prefix) {
        assert(all_asked(EmbedSide::Queries, query, given) =~= given);
    }
}

/// Which session a backend gets. A graph runs on a GPU exactly where the backend asks for
/// one, and then only in a binary that was built for it: it never falls back to the
/// processor. It is cut at the backend's length. CUDA needs a binary that was built for
/// it, and the service needs none.
pub proof fn a_session_is_the_one_that_was_asked_for(backend: EmbeddingBackend, build: Build)
    ensures
        backend.runtime is OpenRouter ==> plan_of(backend, build) == Ok::<
            SessionPlan,
            EmbeddingFailure,
        >(SessionPlan::OpenRouter),
        backend.runtime is LocalQwen3CandleCuda ==> if build.cuda {
            plan_of(backend, build) == Ok::<SessionPlan, EmbeddingFailure>(SessionPlan::Qwen3)
        } else {
            plan_of(backend, build) is Err && plan_of(backend, build)->Err_0 is GpuRequired
        },
        backend.runtime is LocalFastembedOnnxMigraphx && !build.migraphx ==> plan_of(
            backend,
            build,
        ) is Err,
        !(backend.runtime is OpenRouter) && !(backend.runtime is LocalQwen3CandleCuda) ==> match plan_of(
            backend,
            build,
        ) {
            Ok(SessionPlan::FastembedOnnx { model, max_len, on_gpu }) => {
                &&& max_len == backend.max_len
                &&& on_gpu <==> backend.runtime is LocalFastembedOnnxMigraphx
                &&& on_gpu ==> build.migraphx
                &&& model is BgeSmallEnV15Q <==> backend.model@ == CPU_MODEL@
                &&& model is BgeSmallEnV15 ==> backend.model@ == GPU_MODEL@
            },
            Ok(_) => false,
            Err(e) => e is ModelInit,
        },
{
}

/// Embeddings are finite exactly where no component has all bits of its exponent set.
pub proof fn finite_is_told_by_every_component(embeddings: Seq<Embedding>, i: int, j: int)
    requires
        0 <= i < embeddings.len(),
        0 <= j < embeddings[i]@.len(),
    ensures
        all_finite(embeddings) ==> (embeddings[i]@[j] as int / 0x80_0000) % 256 != 255,
{
    if all_finite(embeddings) {
        assert(non_finite_of(embeddings[i]@[j]) is None);
    }
}

/// What the guard does with a batch: it passes unchanged where all of it is finite. Where
/// something is not, a local graph on a GPU makes the whole batch once more, text by text
/// and from the same texts; any other runtime is refused.
pub proof fn a_batch_is_passed_made_again_or_refused<S>(
    generator: EmbeddingGenerator<S>,
    side: EmbedSide,
    given: Vec<String>,
    embeddings: Vec<Embedding>,
    r: Guarded,
)
    requires
        call_ensures(
            EmbeddingGenerator::<S>::guard_finite,
            (&generator, side, &given, embeddings),
            r,
        ),
    ensures
        r is Passed ==> all_finite(embeddings@) && r->Passed_0@ == embeddings@,
        r is Recompute ==> {
            &&& !all_finite(embeddings@)
            &&& generator.backend_spec().runtime is LocalFastembedOnnxMigraphx
                || generator.backend_spec().runtime is LocalFastembedOnnxDirectml
            &&& r->Recompute_0.done() == 0
            &&& r->Recompute_0.made().len() == 0
            &&& r->Recompute_0.inputs().len() == given@.len()
            &&& side is Documents ==> r->Recompute_0.inputs() == texts(given@)
        },
        r is Refused ==> {
            &&& !all_finite(embeddings@)
            &&& !(generator.backend_spec().runtime is LocalFastembedOnnxMigraphx)
            &&& !(generator.backend_spec().runtime is LocalFastembedOnnxDirectml)
        },
{
    if r is Recompute {
        assert(all_asked(EmbedSide::Documents, generator.backend_spec().query@, texts(given@))
            =~= texts(given@));
    }
}

/// Each chunk gets the embedding at its place, as far as there are both.
pub proof fn a_chunk_gets_its_own_embedding<S>(
    chunks: Vec<u128>,
    embeddings: Vec<Embedding>,
    pairs: Vec<ChunkWithEmbedding>,
    i: int,
)
    requires
        call_ensures(EmbeddingGenerator::<S>::embed_chunks, (&chunks, &embeddings), pairs),
        0 <= i < chunks@.len(),
        chunks@.len() == embeddings@.len(),
    ensures
        pairs@.len() == chunks@.len(),
        pairs@[i].chunk_id == chunks@[i],
        pairs@[i].embedding@ == embeddings@[i]@,
{
}

/// Embeddings all of whose components leave a bit of their exponent clear are finite.
pub proof fn finite_components_make_it_finite(embeddings: Seq<Embedding>)
    requires
        forall|i: int, j: int|
            0 <= i < embeddings.len() && 0 <= j < embeddings[i]@.len() ==> (
            #[trigger] embeddings[i]@[j] as int / 0x80_0000) % 256 != 255,
    ensures
        all_finite(embeddings),
{
    assert forall|i: int| 0 <= i < embeddings.len() implies is_finite(
        #[trigger] embeddings[i]@,
    ) by {
        assert forall|j: int| 0 <= j < embeddings[i]@.len() implies non_finite_of(
            #[trigger] embeddings[i]@[j],
        ) is None by {
            assert((embeddings[i]@[j] as int / 0x80_0000) % 256 != 255);
        }
    }
}

/// What a batch is refused for is its first component that is not finite: that one is not,
/// and all before it, in the embeddings before and in its own, are.
pub proof fn the_first_bad_component_is_named(
    embeddings: Vec<Embedding>,
    r: Option<NonFiniteHit>,
    i: int,
    j: int,
)
    requires
        call_ensures(first_non_finite, (&embeddings,), r),
        0 <= i < embeddings@.len(),
        0 <= j < embeddings@[i]@.len(),
    ensures
        r is None ==> (embeddings@[i]@[j] as int / 0x80_0000) % 256 != 255,
        r is Some ==> {
            let hit = r->Some_0;
            &&& hit.index < embeddings@.len()
            &&& hit.component < embeddings@[hit.index as int]@.len()
            &&& (embeddings@[hit.index as int]@[hit.component as int] as int / 0x80_0000) % 256
                == 255
            &&& i < hit.index || (i == hit.index && j < hit.component) ==> (embeddings@[i]@[j]
                as int / 0x80_0000) % 256 != 255
        },
{
    match r {
        None => {
            assert(non_finite_of(embeddings@[i]@[j]) is None);
        },
        Some(hit) => {
            if i < hit.index {
                assert(embeddings@.take(hit.index as int)[i] == embeddings@[i]);
                assert(is_finite(embeddings@[i]@));
                assert(non_finite_of(embeddings@[i]@[j]) is None);
            }
            if i == hit.index && j < hit.component {
                let own = embeddings@[i]@.take(hit.component as int);
                assert(own[j] == embeddings@[i]@[j]);
                assert(non_finite_of(own[j]) is None);
            }
        },
    }
}

/// A graph with a known model gets its session: on the processor and on DirectML in every
/// binary, and on MIGraphX in one that was built for it.
pub proof fn a_known_model_gets_its_session(
    backend: EmbeddingBackend,
    build: Build,
    r: Result<SessionPlan, EmbeddingError>,
)
    requires
        call_ensures(plan_session, (&backend, build), r),
        backend.model@ == "Qdrant/bge-small-en-v1.5-onnx-Q"@ || backend.model@
            == "Xenova/bge-small-en-v1.5"@,
    ensures
        backend.runtime is LocalFastembedOnnxCpu || backend.runtime is LocalFastembedOnnxDirectml
            ==> r is Ok,
        backend.runtime is LocalFastembedOnnxMigraphx ==> (r is Ok <==> build.migraphx),
{
}

/// A generator is made for a backend exactly where its session can be had and was opened,
/// and it keeps both.
pub proof fn a_generator_keeps_its_backend<S>(
    backend: EmbeddingBackend,
    build: Build,
    opened: Result<S, EmbeddingError>,
    r: Result<EmbeddingGenerator<S>, EmbeddingError>,
)
    requires
        call_ensures(EmbeddingGenerator::<S>::with_backend, (backend, build, opened), r),
    ensures
        r is Ok <==> plan_of(backend, build) is Ok && opened is Ok,
        r is Ok ==> r->Ok_0.backend_spec() == backend && r->Ok_0.session() == opened->Ok_0,
{
}

/// A batch that is made once more goes on text by text: what was made is kept, and what is
/// not finite even so ends it.
pub proof fn a_batch_is_made_again_text_by_text(
    again: Recomputation,
    one: Result<Vec<Embedding>, EmbeddingError>,
    r: Result<Recomputation, EmbeddingError>,
)
    requires
        again.done() < again.inputs().len(),
        call_ensures(Recomputation::take, (again, one), r),
    ensures
        one is Err ==> r is Err,
        one is Ok && all_finite(one->Ok_0@) ==> r is Ok && r->Ok_0.made() == again.made()
            + one->Ok_0@ && r->Ok_0.done() == again.done() + 1 && r->Ok_0.inputs()
            == again.inputs(),
        one is Ok && !all_finite(one->Ok_0@) ==> r is Err,
{
    if one is Ok && r is Err && all_finite(one->Ok_0@) {
        let hit = choose|hit: NonFiniteHit| #[trigger]
            is_first_hit(one->Ok_0@, hit) && r->Err_0@ == hit.failure(again.batch_len());
        assert(is_finite(one->Ok_0@[hit.index as int]@));
        assert(non_finite_of(one->Ok_0@[hit.index as int]@[hit.component as int]) is None);
    }
}

/// Chunks are processed thirty-two at a time where nothing else is said, one batch after
/// the other until all are done, and each step says how many are.
pub proof fn chunks_are_processed_in_batches<S>(
    generator: EmbeddingGenerator<S>,
    pipeline: EmbeddingPipeline<S>,
    total: usize,
    steps: Vec<PipelineStep>,
    k: int,
)
    requires
        call_ensures(EmbeddingPipeline::<S>::new, (generator,), pipeline),
        call_ensures(EmbeddingPipeline::<S>::process_chunks, (&pipeline, total), steps),
        0 <= k < steps@.len(),
    ensures
        pipeline.generator() == generator,
        steps@[k].total == total,
        steps@[k].batch.start == 32 * k,
        steps@[k].processed == steps@[k].batch.end,
        k < steps@.len() - 1 ==> steps@[k].batch.end == 32 * (k + 1),
        k == steps@.len() - 1 ==> steps@[k].batch.end == total,
{
    let plans = batches(steps@);
    assert(plans.len() == steps@.len());
    fixed_batches_follow_their_rows(plans, total as int, 32, k);
    assert(plans[k] == steps@[k].batch);
}

} // verus!

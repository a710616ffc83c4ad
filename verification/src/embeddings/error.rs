//! Failures of embedding.

use vstd::prelude::*;

use crate::text::{decimal, number};

verus! {

/// A value that is no finite number.
#[derive(Debug, Clone, Copy, PartialEq, Eq, Structural)]
pub enum NonFinite {
    /// Not a number.
    Nan,
    /// Positive infinity.
    Infinity,
    /// Negative infinity.
    NegativeInfinity,
}

impl NonFinite {
    /// The value as it is written.
    pub open spec fn name(&self) -> Seq<char> {
        match *self {
            NonFinite::Nan => "NaN"@,
            NonFinite::Infinity => "inf"@,
            NonFinite::NegativeInfinity => "-inf"@,
        }
    }

    /// The value as it is written.
    pub fn as_str(&self) -> (s: &'static str)
        ensures
            s@ == self.name(),
    {
        match self {
            NonFinite::Nan => "NaN",
            NonFinite::Infinity => "inf",
            NonFinite::NegativeInfinity => "-inf",
        }
    }
}

/// A failure of embedding.
#[derive(Debug, Clone)]
pub enum EmbeddingError {
    /// The model could not be set up.
    ModelInit(String),
    /// The model failed.
    EmbedFailed(String),
    /// The model gave nothing.
    NoEmbeddingGenerated,
    /// The model gave a vector with a component that is no finite number. Nothing
    /// failed, but in an index such a vector would never be found again.
    NonFiniteEmbedding { index: usize, batch_len: usize, component: usize, value: NonFinite },
    /// A task did not come to its end.
    TaskJoin(String),
    /// A GPU is needed and there is none.
    GpuRequired(String),
    /// A text is no identity of an embedder.
    InvalidIdentity(String),
}

/// The content of a failure.
pub enum EmbeddingFailure {
    /// The model could not be set up.
    ModelInit(Seq<char>),
    /// The model failed.
    EmbedFailed(Seq<char>),
    /// The model gave nothing.
    NoEmbeddingGenerated,
    /// The model gave a component that is no finite number.
    NonFiniteEmbedding { index: usize, batch_len: usize, component: usize, value: NonFinite },
    /// A task did not come to its end.
    TaskJoin(Seq<char>),
    /// A GPU is needed and there is none.
    GpuRequired(Seq<char>),
    /// A text is no identity of an embedder.
    InvalidIdentity(Seq<char>),
}

impl View for EmbeddingError {
    type V = EmbeddingFailure;

    open spec fn view(&self) -> EmbeddingFailure {
        match *self {
            EmbeddingError::ModelInit(m) => EmbeddingFailure::ModelInit(m@),
            EmbeddingError::EmbedFailed(m) => EmbeddingFailure::EmbedFailed(m@),
            EmbeddingError::NoEmbeddingGenerated => EmbeddingFailure::NoEmbeddingGenerated,
            EmbeddingError::NonFiniteEmbedding { index, batch_len, component, value } => {
                EmbeddingFailure::NonFiniteEmbedding { index, batch_len, component, value }
            },
            EmbeddingError::TaskJoin(m) => EmbeddingFailure::TaskJoin(m@),
            EmbeddingError::GpuRequired(m) => EmbeddingFailure::GpuRequired(m@),
            EmbeddingError::InvalidIdentity(m) => EmbeddingFailure::InvalidIdentity(m@),
        }
    }
}

impl EmbeddingFailure {
    /// The message of a failure.
    pub open spec fn message(&self) -> Seq<char> {
        match *self {
            EmbeddingFailure::ModelInit(m) => "Model initialization failed: "@ + m,
            EmbeddingFailure::EmbedFailed(m) => "Embedding generation failed: "@ + m,
            EmbeddingFailure::NoEmbeddingGenerated => "No embedding generated"@,
            EmbeddingFailure::NonFiniteEmbedding { index, batch_len, component, value } => {
                "Model returned a non-finite embedding: item "@ + decimal(index as nat) + " of "@
                    + decimal(batch_len as nat) + ", component "@ + decimal(component as nat)
                    + " = "@ + value.name()
            },
            EmbeddingFailure::TaskJoin(m) => "Async task failed: "@ + m,
            EmbeddingFailure::GpuRequired(m) => m,
            EmbeddingFailure::InvalidIdentity(m) => "Invalid embedder identity: "@ + m,
        }
    }
}

fn said(kind: &str, cause: &str) -> (text: String)
    ensures
        text@ == kind@ + cause@,
{
    let mut text = kind.to_owned();
    text.append(cause);
    text
}

impl EmbeddingError {
    /// The model could not be set up.
    pub fn model_init(msg: &str) -> (e: Self)
        ensures
            e@ == EmbeddingFailure::ModelInit(msg@),
    {
        EmbeddingError::ModelInit(msg.to_owned())
    }

    /// The model failed.
    pub fn embed_failed(msg: &str) -> (e: Self)
        ensures
            e@ == EmbeddingFailure::EmbedFailed(msg@),
    {
        EmbeddingError::EmbedFailed(msg.to_owned())
    }

    /// A task did not come to its end.
    pub fn task_join(msg: &str) -> (e: Self)
        ensures
            e@ == EmbeddingFailure::TaskJoin(msg@),
    {
        EmbeddingError::TaskJoin(msg.to_owned())
    }

    /// A GPU is needed and there is none.
    pub fn gpu_required(msg: &str) -> (e: Self)
        ensures
            e@ == EmbeddingFailure::GpuRequired(msg@),
    {
        EmbeddingError::GpuRequired(msg.to_owned())
    }

    /// A text is no identity of an embedder.
    pub fn invalid_identity(msg: &str) -> (e: Self)
        ensures
            e@ == EmbeddingFailure::InvalidIdentity(msg@),
    {
        EmbeddingError::InvalidIdentity(msg.to_owned())
    }

    /// The message of a failure.
    pub fn to_text(&self) -> (text: String)
        ensures
            text@ == self@.message(),
    {
        match self {
            EmbeddingError::ModelInit(m) => said("Model initialization failed: ", m.as_str()),
            EmbeddingError::EmbedFailed(m) => said("Embedding generation failed: ", m.as_str()),
            EmbeddingError::NoEmbeddingGenerated => "No embedding generated".to_owned(),
            EmbeddingError::NonFiniteEmbedding { index, batch_len, component, value } => {
                let mut text = "Model returned a non-finite embedding: item ".to_owned();
                text.append(number(*index as u128).as_str());
                text.append(" of ");
                text.append(number(*batch_len as u128).as_str());
                text.append(", component ");
                text.append(number(*component as u128).as_str());
                text.append(" = ");
                text.append(value.as_str());
                text
            },
            EmbeddingError::TaskJoin(m) => said("Async task failed: ", m.as_str()),
            EmbeddingError::GpuRequired(m) => m.clone(),
            EmbeddingError::InvalidIdentity(m) => said("Invalid embedder identity: ", m.as_str()),
        }
    }
}

/// A message ends with the cause, word for word; that of a missing GPU is the cause.
pub proof fn a_failure_of_embedding_tells_its_cause(
    error: EmbeddingError,
    cause: String,
    text: String,
)
    requires
        call_ensures(EmbeddingError::to_text, (&error,), text),
        error == EmbeddingError::ModelInit(cause) || error == EmbeddingError::EmbedFailed(cause)
            || error == EmbeddingError::TaskJoin(cause) || error == EmbeddingError::GpuRequired(
            cause,
        ) || error == EmbeddingError::InvalidIdentity(cause),
    ensures
        text@.len() >= cause@.len(),
        text@.skip(text@.len() - cause@.len()) == cause@,
        error is GpuRequired ==> text@ == cause@,
{
    assert(text@.skip(text@.len() - cause@.len()) =~= cause@);
}

} // verus!

//! Failures of indexing.

use vstd::prelude::*;

verus! {

/// The text of a file that has not changed since it was indexed.
pub const OUTCOME_FILE_UNCHANGED: &'static str = "File unchanged";

/// The text of a file in which there is nothing to index.
pub const OUTCOME_NO_CHUNKS: &'static str = "No chunks generated";

/// The text of a file that is held back for what it contains.
pub const OUTCOME_CONTAINS_SECRETS: &'static str = "Contains secrets";

/// The text of a file that is held back for its name.
pub const OUTCOME_SECURITY_FILTERED: &'static str = "File filtered: security check failed";

/// A failure of indexing, with the text of its cause.
#[derive(Debug, Clone)]
pub enum IndexingError {
    /// Reading or writing failed.
    Io(String),
    /// An embedding could not be made.
    Embedding(String),
    /// The vector store failed.
    VectorStore(String),
    /// A file could not be parsed or cut into chunks, or was settled without it.
    Parser(String),
    /// The metadata cache failed.
    Cache(String),
}

impl IndexingError {
    /// The message of a failure.
    pub open spec fn message(&self) -> Seq<char> {
        match *self {
            IndexingError::Io(e) => "I/O error: "@ + e@,
            IndexingError::Embedding(e) => "Embedding error: "@ + e@,
            IndexingError::VectorStore(e) => "Vector store error: "@ + e@,
            IndexingError::Parser(e) => "Parser error: "@ + e@,
            IndexingError::Cache(e) => "Cache error: "@ + e@,
        }
    }

    /// The message of a failure.
    pub fn to_text(&self) -> (text: String)
        ensures
            text@ == self.message(),
    {
        let (kind, cause) = match self {
            IndexingError::Io(e) => ("I/O error: ", e),
            IndexingError::Embedding(e) => ("Embedding error: ", e),
            IndexingError::VectorStore(e) => ("Vector store error: ", e),
            IndexingError::Parser(e) => ("Parser error: ", e),
            IndexingError::Cache(e) => ("Cache error: ", e),
        };
        let mut text = kind.to_owned();
        text.append(cause.as_str());
        text
    }
}

/// A message says where it failed and ends with the cause, word for word.
pub proof fn a_failure_of_indexing_tells_its_cause(error: IndexingError, cause: String, text: String)
    requires
        call_ensures(IndexingError::to_text, (&error,), text),
        error == IndexingError::Io(cause) || error == IndexingError::Embedding(cause) || error
            == IndexingError::VectorStore(cause) || error == IndexingError::Parser(cause) || error
            == IndexingError::Cache(cause),
    ensures
        text@.len() > cause@.len(),
        text@.skip(text@.len() - cause@.len()) == cause@,
        error is Io ==> "I/O"@.is_prefix_of(text@),
        error is Embedding ==> "Embedding"@.is_prefix_of(text@),
        error is VectorStore ==> "Vector store"@.is_prefix_of(text@),
        error is Parser ==> "Parser"@.is_prefix_of(text@),
        error is Cache ==> "Cache"@.is_prefix_of(text@),
{
    reveal_strlit("I/O error: ");
    reveal_strlit("Embedding error: ");
    reveal_strlit("Vector store error: ");
    reveal_strlit("Parser error: ");
    reveal_strlit("Cache error: ");
    reveal_strlit("I/O");
    reveal_strlit("Embedding");
    reveal_strlit("Vector store");
    reveal_strlit("Parser");
    reveal_strlit("Cache");
    assert(text@.skip(text@.len() - cause@.len()) =~= cause@);
    assert(error is Io ==> text@.take(3) =~= "I/O"@);
    assert(error is Embedding ==> text@.take(9) =~= "Embedding"@);
    assert(error is VectorStore ==> text@.take(12) =~= "Vector store"@);
    assert(error is Parser ==> text@.take(6) =~= "Parser"@);
    assert(error is Cache ==> text@.take(5) =~= "Cache"@);
}

} // verus!

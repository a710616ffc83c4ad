//! Failures of indexing, collected and sorted.

use vstd::prelude::*;
use vstd::utf8::is_ascii_chars;

use crate::indexing::error::{
    OUTCOME_CONTAINS_SECRETS, OUTCOME_FILE_UNCHANGED, OUTCOME_NO_CHUNKS,
    OUTCOME_SECURITY_FILTERED,
};
use crate::text::{contains, lower, lowered, occurs_at, occurs_in};

verus! {

/// Whether a failure is worth another try.
#[derive(Debug, Clone, Copy, PartialEq, Eq, Structural)]
pub enum ErrorCategory {
    /// Another try reaches the same answer.
    Permanent,
    /// Another try may succeed.
    Transient,
}

/// A failure on one file.
#[derive(Debug, Clone)]
pub struct ErrorDetail {
    /// The file.
    pub file_path: String,
    /// Whether it is worth another try.
    pub category: ErrorCategory,
    /// What was said.
    pub message: String,
}

/// The content of a failure on one file.
pub struct ErrorRecord {
    /// The file.
    pub file_path: Seq<char>,
    /// Whether it is worth another try.
    pub category: ErrorCategory,
    /// What was said.
    pub message: Seq<char>,
}

impl View for ErrorDetail {
    type V = ErrorRecord;

    open spec fn view(&self) -> ErrorRecord {
        ErrorRecord {
            file_path: self.file_path@,
            category: self.category,
            message: self.message@,
        }
    }
}

impl ErrorDetail {
    /// A failure with the same content.
    fn copy(&self) -> (c: Self)
        ensures
            c@ == self@,
    {
        ErrorDetail {
            file_path: self.file_path.clone(),
            category: self.category,
            message: self.message.clone(),
        }
    }
}

/// The contents of failures.
pub open spec fn records(details: Seq<ErrorDetail>) -> Seq<ErrorRecord> {
    Seq::new(details.len(), |i: int| details[i]@)
}

/// The failures of a run, in the order in which they were recorded.
pub struct ErrorCollector {
    errors: Vec<ErrorDetail>,
}

impl View for ErrorCollector {
    type V = Seq<ErrorRecord>;

    closed spec fn view(&self) -> Seq<ErrorRecord> {
        records(self.errors@)
    }
}

/// The records of one category, in order.
pub open spec fn of_category(all: Seq<ErrorRecord>, category: ErrorCategory) -> Seq<ErrorRecord>
    decreases all.len(),
{
    if all.len() == 0 {
        Seq::empty()
    } else if all.last().category == category {
        of_category(all.drop_last(), category).push(all.last())
    } else {
        of_category(all.drop_last(), category)
    }
}

impl ErrorCollector {
    /// A collector without failures.
    pub fn new() -> (c: Self)
        ensures
            c@ == Seq::<ErrorRecord>::empty(),
    {
        let c = ErrorCollector { errors: Vec::new() };
        assert(c@ =~= Seq::<ErrorRecord>::empty());
        c
    }

    /// Records a failure.
    pub fn record(&mut self, error: ErrorDetail)
        ensures
            final(self)@ == old(self)@.push(error@),
    {
        let ghost held = self@;
        let ghost e = error@;
        self.errors.push(error);
        assert(self@ =~= held.push(e));
    }

    /// All failures.
    pub fn get_errors(&self) -> (all: Vec<ErrorDetail>)
        ensures
            records(all@) == self@,
    {
        let mut all: Vec<ErrorDetail> = Vec::new();
        let mut i: usize = 0;
        while i < self.errors.len()
            invariant
                i <= self.errors@.len(),
                all@.len() == i,
                records(all@) == self@.take(i as int),
            decreases self.errors@.len() - i,
        {
            all.push(self.errors[i].copy());
            i += 1;
            assert(records(all@) =~= self@.take(i as int));
        }
        assert(records(all@) =~= self@);
        all
    }

    /// The number of failures.
    pub fn error_count(&self) -> (n: usize)
        ensures
            n == self@.len(),
    {
        self.errors.len()
    }

    /// The failures of one category.
    pub fn errors_by_category(&self, category: ErrorCategory) -> (out: Vec<ErrorDetail>)
        ensures
            records(out@) == of_category(self@, category),
    {
        let mut out: Vec<ErrorDetail> = Vec::new();
        let mut i: usize = 0;
        proof {
            assert(records(out@) =~= of_category(self@.take(0), category));
        }
        while i < self.errors.len()
            invariant
                i <= self.errors@.len(),
                records(out@) == of_category(self@.take(i as int), category),
            decreases self.errors@.len() - i,
        {
            proof {
                assert(self@.take(i + 1).drop_last() =~= self@.take(i as int));
                assert(self@.take(i + 1).last() == self.errors@[i as int]@);
            }
            let ghost held = records(out@);
            if self.errors[i].category == category {
                out.push(self.errors[i].copy());
                assert(records(out@) =~= held.push(self.errors@[i as int]@));
            }
            i += 1;
        }
        assert(self@.take(i as int) =~= self@);
        out
    }

    /// Forgets all failures.
    pub fn clear(&mut self)
        ensures
            final(self)@ == Seq::<ErrorRecord>::empty(),
    {
        self.errors.clear();
        assert(self@ =~= Seq::<ErrorRecord>::empty());
    }
}

impl Default for ErrorCollector {
    fn default() -> (c: Self)
        ensures
            c@ == Seq::<ErrorRecord>::empty(),
    {
        ErrorCollector::new()
    }
}

/// Every failure is of exactly one category.
pub proof fn categories_part_the_failures(all: Seq<ErrorRecord>)
    ensures
        of_category(all, ErrorCategory::Permanent).len() + of_category(
            all,
            ErrorCategory::Transient,
        ).len() == all.len(),
    decreases all.len(),
{
    if all.len() > 0 {
        categories_part_the_failures(all.drop_last());
    }
}

/// What `str::to_lowercase` makes of a text.
pub uninterp spec fn lowercase_of(s: Seq<char>) -> Seq<char>;

/// `str::to_lowercase`: the text in small letters as Unicode has it. On a text of
/// ASCII characters only the capitals `A` to `Z` change.
#[verifier::external_body]
fn to_lowercase(s: &str) -> (out: String)
    ensures
        out@ == lowercase_of(s@),
        is_ascii_chars(s@) ==> out@ == lowered(s@),
{
    s.to_lowercase()
}

/// A message in small letters that tells of a file which was deliberately not indexed.
pub open spec fn is_settled(message: Seq<char>) -> bool {
    ||| occurs_in(message, lowered(OUTCOME_FILE_UNCHANGED@))
    ||| occurs_in(message, lowered(OUTCOME_NO_CHUNKS@))
    ||| occurs_in(message, lowered(OUTCOME_CONTAINS_SECRETS@))
    ||| occurs_in(message, lowered(OUTCOME_SECURITY_FILTERED@))
}

/// The category of a failure whose message is, in small letters, `message`.
pub open spec fn category_of(message: Seq<char>) -> ErrorCategory {
    if is_settled(message) || occurs_in(message, "permission denied"@) || occurs_in(
        message,
        "not found"@,
    ) || occurs_in(message, "invalid utf"@) || occurs_in(message, "is a directory"@) {
        ErrorCategory::Permanent
    } else {
        ErrorCategory::Transient
    }
}

/// The category of a failure whose message stands in small letters.
pub fn categorize_lowercase(message: &str) -> (c: ErrorCategory)
    ensures
        c == category_of(message@),
{
    if contains(message, lower(OUTCOME_FILE_UNCHANGED).as_str()) || contains(
        message,
        lower(OUTCOME_NO_CHUNKS).as_str(),
    ) || contains(message, lower(OUTCOME_CONTAINS_SECRETS).as_str()) || contains(
        message,
        lower(OUTCOME_SECURITY_FILTERED).as_str(),
    ) {
        return ErrorCategory::Permanent;
    }
    if contains(message, "permission denied") || contains(message, "not found") || contains(
        message,
        "invalid utf",
    ) || contains(message, "is a directory") {
        return ErrorCategory::Permanent;
    }
    ErrorCategory::Transient
}

/// The category of a failure by its message, small and capital letters alike.
pub fn categorize_error(message: &str) -> (c: ErrorCategory)
    ensures
        c == category_of(lowercase_of(message@)),
        is_ascii_chars(message@) ==> c == category_of(lowered(message@)),
{
    let small = to_lowercase(message);
    categorize_lowercase(small.as_str())
}

/// The texts of the outcomes that are settled.
pub open spec fn settled_outcomes() -> Seq<Seq<char>> {
    seq![
        OUTCOME_FILE_UNCHANGED@,
        OUTCOME_NO_CHUNKS@,
        OUTCOME_CONTAINS_SECRETS@,
        OUTCOME_SECURITY_FILTERED@,
    ]
}

/// A settled outcome is permanent, whatever stands before and after it in the
/// message: it is not tried again.
pub proof fn settled_outcomes_are_permanent(head: Seq<char>, i: int, tail: Seq<char>)
    requires
        0 <= i < settled_outcomes().len(),
    ensures
        category_of(lowered(head + settled_outcomes()[i] + tail)) == ErrorCategory::Permanent,
{
    let outcome = settled_outcomes()[i];
    let message = lowered(head + outcome + tail);
    assert(message.subrange(head.len() as int, head.len() as int + outcome.len()) =~= lowered(outcome));
    assert(occurs_at(message, lowered(outcome), head.len() as int));
}

/// What is not tried again, by the words of its message: a file that is unchanged, has
/// nothing to index or is held back, one that may not be read or is not there, a text that
/// is no UTF-8, and a directory. Everything else is tried again.
pub proof fn what_is_permanent_is_told_by_its_words(message: Seq<char>)
    ensures
        category_of(message) == ErrorCategory::Permanent <==> (occurs_in(
            message,
            lowered("File unchanged"@),
        ) || occurs_in(message, lowered("No chunks generated"@)) || occurs_in(
            message,
            lowered("Contains secrets"@),
        ) || occurs_in(message, lowered("File filtered: security check failed"@)) || occurs_in(
            message,
            "permission denied"@,
        ) || occurs_in(message, "not found"@) || occurs_in(message, "invalid utf"@) || occurs_in(
            message,
            "is a directory"@,
        )),
{
}

/// The failures of a category are listed in the order in which they were recorded: each
/// one that is of it, and no other. So what is recorded last is listed last.
pub proof fn failures_are_listed_by_their_category(
    all: Seq<ErrorRecord>,
    more: ErrorRecord,
    category: ErrorCategory,
)
    ensures
        of_category(all.push(more), category) == (if more.category == category {
            of_category(all, category).push(more)
        } else {
            of_category(all, category)
        }),
        of_category(Seq::empty(), category) == Seq::<ErrorRecord>::empty(),
{
    assert(all.push(more).drop_last() =~= all);
}

/// A failure that is recorded comes behind those that were recorded before, which stay as
/// they are.
pub proof fn a_failure_is_recorded_last(
    collector: &mut ErrorCollector,
    error: ErrorDetail,
    i: int,
)
    requires
        call_ensures(ErrorCollector::record, (collector, error), ()),
        0 <= i < old(collector)@.len(),
    ensures
        final(collector)@.len() == old(collector)@.len() + 1,
        final(collector)@[i] == old(collector)@[i],
        final(collector)@[old(collector)@.len() as int].file_path == error.file_path@,
        final(collector)@[old(collector)@.len() as int].category == error.category,
        final(collector)@[old(collector)@.len() as int].message == error.message@,
{
}

/// The failures that are given are those that were recorded, as many and in their order.
pub proof fn the_recorded_failures_are_given(
    collector: ErrorCollector,
    all: Vec<ErrorDetail>,
    n: usize,
    i: int,
)
    requires
        call_ensures(ErrorCollector::get_errors, (&collector,), all),
        call_ensures(ErrorCollector::error_count, (&collector,), n),
        0 <= i < collector@.len(),
    ensures
        n == collector@.len(),
        all@.len() == n,
        all@[i].file_path@ == collector@[i].file_path,
        all@[i].category == collector@[i].category,
        all@[i].message@ == collector@[i].message,
{
    assert(records(all@).len() == all@.len());
    assert(records(all@)[i] == all@[i]@);
}

} // verus!

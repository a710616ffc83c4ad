//! How an analysis runs: on a stack that is deep enough, and not beside a collection.

use vstd::prelude::*;

use crate::switches::text_at;
use crate::text::{
    a_number_is_read_between_white_space, decimal, is_space, parse_u64, parsed, trim, trimmed,
};

verus! {

/// The stack of an analysis. How deep it goes is up to the source that is analysed.
pub const ANALYSIS_STACK_BYTES: usize = 67108864;

/// The variable that says how many seconds pass between two collections; zero stands for
/// no collection.
pub const GC_INTERVAL_ENV: &'static str = "RMC_GC_INTERVAL_SECS";

/// How many seconds pass between two collections, where nothing says otherwise.
pub const DEFAULT_GC_INTERVAL_SECS: u64 = 300;

/// The seconds between two collections that a value asks for.
pub open spec fn gc_interval_of(value: Option<Seq<char>>) -> u64 {
    match value {
        None => DEFAULT_GC_INTERVAL_SECS,
        Some(v) => match parsed(trimmed(v)) {
            Ok(secs) => secs,
            Err(_) => DEFAULT_GC_INTERVAL_SECS,
        },
    }
}

/// The seconds between two collections that a value asks for; without a value, or where
/// it is no number, the default.
pub fn gc_interval_from_env(value: Option<&str>) -> (secs: u64)
    ensures
        secs == gc_interval_of(text_at(value)),
{
    match value {
        None => DEFAULT_GC_INTERVAL_SECS,
        Some(v) => match parse_u64(trim(v).as_str()) {
            Ok(secs) => secs,
            Err(_) => DEFAULT_GC_INTERVAL_SECS,
        },
    }
}

/// Who may be inside of the analysis at the same time.
#[derive(Debug, Clone, Copy, PartialEq, Eq, Structural)]
pub enum Access {
    /// Analyses: any number of them.
    Shared,
    /// A collection: nobody else, since it frees what an analysis in flight may hold.
    Exclusive,
}

/// How an analysis enters.
pub fn access(exclusive: bool) -> (g: Access)
    ensures
        g == if exclusive {
            Access::Exclusive
        } else {
            Access::Shared
        },
{
    if exclusive {
        Access::Exclusive
    } else {
        Access::Shared
    }
}

/// What can go wrong around an analysis.
#[derive(Debug)]
pub enum AnalysisFailure {
    /// Its thread could not be started.
    NotStarted { what: String, cause: String },
    /// It did not come to its end.
    Panicked { what: String },
    /// The service could not be taken hold of.
    NotLocked { cause: String },
}

impl AnalysisFailure {
    /// The message of a failure.
    pub open spec fn message(&self) -> Seq<char> {
        match *self {
            AnalysisFailure::NotStarted { what, cause } => what@
                + ": failed to spawn analysis thread: "@ + cause@,
            AnalysisFailure::Panicked { what } => what@ + ": analysis thread panicked"@,
            AnalysisFailure::NotLocked { cause } => "Failed to acquire lock: "@ + cause@,
        }
    }

    /// The message of a failure.
    pub fn to_text(&self) -> (text: String)
        ensures
            text@ == self.message(),
    {
        match self {
            AnalysisFailure::NotStarted { what, cause } => {
                let mut text = what.clone();
                text.append(": failed to spawn analysis thread: ");
                text.append(cause.as_str());
                text
            },
            AnalysisFailure::Panicked { what } => {
                let mut text = what.clone();
                text.append(": analysis thread panicked");
                text
            },
            AnalysisFailure::NotLocked { cause } => {
                let mut text = "Failed to acquire lock: ".to_owned();
                text.append(cause.as_str());
                text
            },
        }
    }
}

/// Collections come as often as the variable says, zero for never, with white space
/// around the number as without; where it is not set, every five minutes.
pub proof fn collections_come_as_often_as_said(left: Seq<char>, secs: u64, right: Seq<char>)
    requires
        forall|i: int| 0 <= i < left.len() ==> is_space(#[trigger] left[i]),
        forall|i: int| 0 <= i < right.len() ==> is_space(#[trigger] right[i]),
    ensures
        gc_interval_of(Some(left + decimal(secs as nat) + right)) == secs,
        gc_interval_of(None) == 300,
{
    a_number_is_read_between_white_space(left, secs, right);
}

/// What is no number asks for nothing: the default holds.
pub proof fn what_is_no_number_leaves_the_interval(value: Option<&str>, secs: u64)
    requires
        call_ensures(gc_interval_from_env, (value,), secs),
        value is Some ==> parsed(trimmed(value->Some_0@)) is Err,
    ensures
        secs == 300,
{
}

/// Analyses share, and a collection is alone.
pub proof fn only_a_collection_is_alone(exclusive: bool, g: Access)
    requires
        call_ensures(access, (exclusive,), g),
    ensures
        exclusive <==> g is Exclusive,
        !exclusive <==> g is Shared,
{
}

} // verus!

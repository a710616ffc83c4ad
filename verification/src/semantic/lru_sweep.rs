//! What a cache capacity of an analysis costs: the bytes that a collection hands
//! back, and the time that the next query then takes.

use vstd::prelude::*;

use crate::text::{decimal, number, same};

verus! {

/// The name of the query that parses a file.
pub const PARSE_QUERY: &'static str = "EditionedFileId::parse_";

/// The name of the query that expands a macro.
pub const MACRO_QUERY: &'static str = "MacroCallId::parse_macro_expansion_";

/// What fills the database before it is weighed.
#[derive(Debug, Clone)]
pub enum Probe {
    /// A search for symbols.
    Symbols { name: String },
    /// A search for all uses of a name.
    References { name: String },
}

/// The error of a search for uses that was given no name.
pub const REFERENCES_NEED_A_NAME: &'static str = "the `references` probe needs RMC_SALSA_MEMORY_SYMBOL: a name with one \
                     declaration and many use sites in the probe workspace";

/// What is said after a name that is no probe.
pub const NO_SUCH_PROBE: &'static str = " names no probe; use `symbols` (cheap, runs no \
                 type inference) or `references` (infers every body mentioning \
                 RMC_SALSA_MEMORY_SYMBOL)";

impl Probe {
    /// The probe that the values of two variables name, the kind and the symbol. A
    /// search for symbols has a default, a search for uses has none.
    pub fn from_env(kind: Option<&str>, name: Option<&str>) -> (r: Result<Probe, String>)
        ensures
            ({
                let k = match kind {
                    Some(k) => k@,
                    None => "symbols"@,
                };
                let n = match name {
                    Some(n) => n@,
                    None => Seq::empty(),
                };
                if k == "symbols"@ {
                    r matches Ok(Probe::Symbols { name }) && name@ == (if n.len() == 0 {
                        "main"@
                    } else {
                        n
                    })
                } else if k == "references"@ {
                    if n.len() == 0 {
                        r matches Err(e) && e@ == REFERENCES_NEED_A_NAME@
                    } else {
                        r matches Ok(Probe::References { name }) && name@ == n
                    }
                } else {
                    r matches Err(e) && e@ == "RMC_SALSA_MEMORY_PROBE=\""@ + k + "\""@
                        + NO_SUCH_PROBE@
                }
            }),
    {
        let kind: String = match kind {
            Some(k) => k.to_owned(),
            None => "symbols".to_owned(),
        };
        let name: String = match name {
            Some(n) => n.to_owned(),
            None => String::new(),
        };
        if same(kind.as_str(), "symbols") {
            if name.as_str().is_empty() {
                Ok(Probe::Symbols { name: "main".to_owned() })
            } else {
                Ok(Probe::Symbols { name })
            }
        } else if same(kind.as_str(), "references") {
            if name.as_str().is_empty() {
                Err(REFERENCES_NEED_A_NAME.to_owned())
            } else {
                Ok(Probe::References { name })
            }
        } else {
            let mut e = "RMC_SALSA_MEMORY_PROBE=\"".to_owned();
            e.append(kind.as_str());
            e.append("\"");
            e.append(NO_SUCH_PROBE);
            Err(e)
        }
    }

    /// The probe in words.
    pub fn describe(&self) -> (text: String)
        ensures
            text@ == (match *self {
                Probe::Symbols { name } => "symbols `"@ + name@ + "`"@,
                Probe::References { name } => "references of `"@ + name@ + "`"@,
            }),
    {
        match self {
            Probe::Symbols { name } => {
                let mut text = "symbols `".to_owned();
                text.append(name.as_str());
                text.append("`");
                text
            },
            Probe::References { name } => {
                let mut text = "references of `".to_owned();
                text.append(name.as_str());
                text.append("`");
                text
            },
        }
    }
}

/// One row of the breakdown of an analysis.
#[derive(Debug, Clone)]
pub struct IngredientMemory {
    /// What the row is about: a query, or something else.
    pub family: String,
    /// Its name.
    pub name: String,
    /// How many entries there are.
    pub count: usize,
    /// How many bytes they hold on the heap, where that is known.
    pub heap_bytes: Option<usize>,
    /// How many bytes they hold in all.
    pub bytes: usize,
}

/// The row is that of a query of this name.
pub open spec fn is_query_row(row: IngredientMemory, query: Seq<char>) -> bool {
    row.family@ == "query"@ && row.name@ == query
}

/// The entries and the heap of a row.
pub open spec fn row_weight(row: IngredientMemory) -> (usize, usize) {
    (
        row.count,
        match row.heap_bytes {
            Some(b) => b,
            None => 0,
        },
    )
}

/// The entries and the heap of a query: those of its first row, or nothing where it
/// has none.
pub open spec fn query_weight(rows: Seq<IngredientMemory>, query: Seq<char>) -> (usize, usize)
    decreases rows.len(),
{
    if rows.len() == 0 {
        (0, 0)
    } else if is_query_row(rows[0], query) {
        row_weight(rows[0])
    } else {
        query_weight(rows.drop_first(), query)
    }
}

proof fn query_weight_at(rows: Seq<IngredientMemory>, query: Seq<char>, i: int)
    requires
        0 <= i <= rows.len(),
        forall|k: int| 0 <= k < i ==> !is_query_row(#[trigger] rows[k], query),
    ensures
        query_weight(rows, query) == query_weight(rows.skip(i), query),
    decreases i,
{
    if i > 0 {
        let rest = rows.drop_first();
        assert forall|k: int| 0 <= k < i - 1 implies !is_query_row(#[trigger] rest[k], query) by {
            assert(rest[k] == rows[k + 1]);
        }
        assert(!is_query_row(rows[0], query));
        query_weight_at(rest, query, i - 1);
        assert(rest.skip(i - 1) =~= rows.skip(i));
    } else {
        assert(rows.skip(0) =~= rows);
    }
}

/// The entries and the heap of a query.
pub fn query_bytes(rows: &Vec<IngredientMemory>, query: &str) -> (r: (usize, usize))
    ensures
        r == query_weight(rows@, query@),
{
    let mut i: usize = 0;
    while i < rows.len()
        invariant
            i <= rows@.len(),
            forall|k: int| 0 <= k < i ==> !is_query_row(#[trigger] rows@[k], query@),
        decreases rows@.len() - i,
    {
        if same(rows[i].family.as_str(), "query") && same(rows[i].name.as_str(), query) {
            proof {
                query_weight_at(rows@, query@, i as int);
                assert(rows@.skip(i as int)[0] == rows@[i as int]);
            }
            return match rows[i].heap_bytes {
                Some(b) => (rows[i].count, b),
                None => (rows[i].count, 0),
            };
        }
        i += 1;
    }
    proof {
        query_weight_at(rows@, query@, rows@.len() as int);
    }
    (0, 0)
}

/// What a collection handed back for one name.
#[derive(Debug, Clone)]
pub struct Freed {
    /// The name.
    pub name: String,
    /// The bytes.
    pub bytes: usize,
}

/// The content of what was handed back.
pub open spec fn freed_pairs(v: Seq<Freed>) -> Seq<(Seq<char>, usize)> {
    Seq::new(v.len(), |i: int| (v[i].name@, v[i].bytes))
}

/// What each row of `before` has lost, in the order of the rows. A row whose heap is
/// not known, or that has lost nothing, is left out.
pub open spec fn losses(before: Seq<IngredientMemory>, after: Seq<IngredientMemory>) -> Seq<
    (Seq<char>, usize),
>
    decreases before.len(),
{
    if before.len() == 0 {
        Seq::empty()
    } else {
        let init = losses(before.drop_last(), after);
        let row = before.last();
        match row.heap_bytes {
            Some(was) => {
                let now = query_weight(after, row.name@).1;
                if was > now {
                    init.push((row.name@, (was - now) as usize))
                } else {
                    init
                }
            },
            None => init,
        }
    }
}

/// `out` is `all` with the largest first, and those of the same size in their order:
/// `order` says where each comes from.
pub open spec fn is_largest_first(
    all: Seq<(Seq<char>, usize)>,
    out: Seq<(Seq<char>, usize)>,
    order: Seq<int>,
) -> bool {
    &&& order.len() == all.len()
    &&& out.len() == all.len()
    &&& order.no_duplicates()
    &&& forall|k: int|
        0 <= k < order.len() ==> 0 <= #[trigger] order[k] < all.len() && out[k] == all[order[k]]
    &&& forall|j: int, k: int|
        0 <= j < k < order.len() ==> {
            let a = all[#[trigger] order[j]].1;
            let b = all[#[trigger] order[k]].1;
            a > b || (a == b && order[j] < order[k])
        }
}

/// `freed` is what a collection handed back, the largest first.
pub open spec fn is_freed(
    before: Seq<IngredientMemory>,
    after: Seq<IngredientMemory>,
    freed: Seq<(Seq<char>, usize)>,
) -> bool {
    exists|order: Seq<int>| is_largest_first(losses(before, after), freed, order)
}

/// What a collection handed back, the largest first.
pub fn freed_by_collection(before: &Vec<IngredientMemory>, after: &Vec<IngredientMemory>) -> (out:
    Vec<Freed>)
    ensures
        is_freed(before@, after@, freed_pairs(out@)),
{
    let mut out: Vec<Freed> = Vec::new();
    let ghost mut order: Seq<int> = Seq::empty();
    let mut i: usize = 0;
    proof {
        assert(before@.take(0) =~= Seq::<IngredientMemory>::empty());
        assert(is_largest_first(losses(before@.take(0), after@), freed_pairs(out@), order));
    }
    while i < before.len()
        invariant
            i <= before@.len(),
            is_largest_first(losses(before@.take(i as int), after@), freed_pairs(out@), order),
        decreases before@.len() - i,
    {
        let row = &before[i];
        let ghost all = losses(before@.take(i as int), after@);
        proof {
            assert(before@.take(i + 1).drop_last() =~= before@.take(i as int));
            assert(before@.take(i + 1).last() == *row);
        }
        match row.heap_bytes {
            Some(was) => {
                let now: usize = query_bytes(after, row.name.as_str()).1;
                if was > now {
                    let bytes: usize = was - now;
                    let ghost held = freed_pairs(out@);
                    let mut at: usize = out.len();
                    while at > 0 && out[at - 1].bytes < bytes
                        invariant
                            at <= out@.len(),
                            held == freed_pairs(out@),
                            forall|k: int|
                                at <= k < held.len() ==> (#[trigger] held[k]).1 < bytes,
                        decreases at,
                    {
                        at -= 1;
                        assert(held[at as int].1 == out@[at as int].bytes);
                    }
                    proof {
                        if at > 0 {
                            assert(held[at - 1].1 == out@[at - 1].bytes);
                        }
                    }
                    let ghost x = (row.name@, bytes);
                    let ghost old_order = order;
                    out.insert(at, Freed { name: row.name.clone(), bytes });
                    proof {
                        order = old_order.insert(at as int, all.len() as int);
                        assert(freed_pairs(out@) =~= held.insert(at as int, x));
                        insert_keeps_largest_first(all, held, old_order, x, at as int);
                    }
                }
            },
            None => {},
        }
        i += 1;
    }
    assert(before@.take(i as int) =~= before@);
    out
}

proof fn insert_keeps_largest_first(
    all: Seq<(Seq<char>, usize)>,
    out: Seq<(Seq<char>, usize)>,
    order: Seq<int>,
    x: (Seq<char>, usize),
    at: int,
)
    requires
        is_largest_first(all, out, order),
        0 <= at <= out.len(),
        forall|k: int| at <= k < out.len() ==> (#[trigger] out[k]).1 < x.1,
        at > 0 ==> out[at - 1].1 >= x.1,
    ensures
        is_largest_first(all.push(x), out.insert(at, x), order.insert(at, all.len() as int)),
{
    let n = all.len() as int;
    let all2 = all.push(x);
    let out2 = out.insert(at, x);
    let order2 = order.insert(at, n);
    assert forall|k: int| 0 <= k < order2.len() implies 0 <= #[trigger] order2[k] < all2.len()
        && out2[k] == all2[order2[k]] by {
        if k != at {
            let h = if k < at { k } else { k - 1 };
            assert(order2[k] == order[h]);
        }
    }
    assert forall|j: int, k: int| 0 <= j < k < order2.len() implies {
        let a = all2[#[trigger] order2[j]].1;
        let b = all2[#[trigger] order2[k]].1;
        a > b || (a == b && order2[j] < order2[k])
    } by {
        let g = if j < at { j } else { j - 1 };
        let h = if k < at { k } else { k - 1 };
        if j == at {
            assert(order2[k] == order[h]);
            assert(out[h].1 < x.1);
            assert(out[h] == all[order[h]]);
        } else if k == at {
            assert(order2[j] == order[g]);
            assert(out[g] == all[order[g]]);
            assert(out[at - 1] == all[order[at - 1]]);
            if g < at - 1 {
                assert(all[order[g]].1 >= all[order[at - 1]].1);
            }
        } else {
            assert(order2[j] == order[g] && order2[k] == order[h]);
        }
    }
    assert forall|j: int, k: int| 0 <= j < order2.len() && 0 <= k < order2.len() && j
        != k implies order2[j] != order2[k] by {
        let g = if j < at { j } else { j - 1 };
        let h = if k < at { k } else { k - 1 };
        if j != at && k != at {
            assert(order2[j] == order[g] && order2[k] == order[h]);
        } else if j == at {
            assert(order2[k] == order[h]);
        } else {
            assert(order2[j] == order[g]);
        }
    }
}

/// The sum of bytes.
pub open spec fn total_freed(v: Seq<Freed>) -> nat
    decreases v.len(),
{
    if v.len() == 0 {
        0
    } else {
        total_freed(v.drop_last()) + v.last().bytes as nat
    }
}

/// The sum of the bytes of rows.
pub open spec fn total_bytes(rows: Seq<IngredientMemory>) -> nat
    decreases rows.len(),
{
    if rows.len() == 0 {
        0
    } else {
        total_bytes(rows.drop_last()) + rows.last().bytes as nat
    }
}

proof fn total_freed_grows(v: Seq<Freed>, i: int)
    requires
        0 <= i <= v.len(),
    ensures
        total_freed(v.take(i)) <= total_freed(v),
    decreases v.len() - i,
{
    if i < v.len() {
        assert(v.take(i + 1).drop_last() =~= v.take(i));
        total_freed_grows(v, i + 1);
    } else {
        assert(v.take(i) =~= v);
    }
}

proof fn total_bytes_grows(rows: Seq<IngredientMemory>, i: int)
    requires
        0 <= i <= rows.len(),
    ensures
        total_bytes(rows.take(i)) <= total_bytes(rows),
    decreases rows.len() - i,
{
    if i < rows.len() {
        assert(rows.take(i + 1).drop_last() =~= rows.take(i));
        total_bytes_grows(rows, i + 1);
    } else {
        assert(rows.take(i) =~= rows);
    }
}

fn accounted(rows: &Vec<IngredientMemory>) -> (n: usize)
    requires
        total_bytes(rows@) <= usize::MAX,
    ensures
        n == total_bytes(rows@),
{
    let mut n: usize = 0;
    let mut i: usize = 0;
    while i < rows.len()
        invariant
            i <= rows@.len(),
            total_bytes(rows@) <= usize::MAX,
            n == total_bytes(rows@.take(i as int)),
        decreases rows@.len() - i,
    {
        proof {
            assert(rows@.take(i + 1).drop_last() =~= rows@.take(i as int));
            total_bytes_grows(rows@, i + 1);
        }
        n = n + rows[i].bytes;
        i += 1;
    }
    assert(rows@.take(i as int) =~= rows@);
    n
}

/// What was measured of one capacity: the rows before and after the collection and
/// after the rebuild, the answers of the three runs of the probe, their times in
/// microseconds, and the resident memory at the end.
pub struct Measurement {
    /// The capacity; nothing for the default.
    pub capacity: Option<u16>,
    /// The rows before the collection.
    pub before: Vec<IngredientMemory>,
    /// The rows after it.
    pub after: Vec<IngredientMemory>,
    /// The rows after the first repetition of the probe.
    pub rebuilt: Vec<IngredientMemory>,
    /// The answers before the collection.
    pub settled_answers: usize,
    /// The answers of the first repetition.
    pub answers: usize,
    /// The answers of the second repetition.
    pub warm_answers: usize,
    /// The time before the collection.
    pub settle_us: u64,
    /// The time of the first repetition.
    pub rebuild_us: u64,
    /// The time of the second repetition.
    pub warm_us: u64,
    /// The resident memory, in kibibytes.
    pub rss_kib_after: u64,
}

/// What was measured of one capacity, the rows as sequences.
pub struct MeasurementView {
    /// The capacity; nothing for the default.
    pub capacity: Option<u16>,
    /// The rows before the collection.
    pub before: Seq<IngredientMemory>,
    /// The rows after it.
    pub after: Seq<IngredientMemory>,
    /// The rows after the first repetition of the probe.
    pub rebuilt: Seq<IngredientMemory>,
    /// The answers before the collection.
    pub settled_answers: usize,
    /// The answers of the first repetition.
    pub answers: usize,
    /// The answers of the second repetition.
    pub warm_answers: usize,
    /// The time before the collection.
    pub settle_us: u64,
    /// The time of the first repetition.
    pub rebuild_us: u64,
    /// The time of the second repetition.
    pub warm_us: u64,
    /// The resident memory, in kibibytes.
    pub rss_kib_after: u64,
}

impl View for Measurement {
    type V = MeasurementView;

    open spec fn view(&self) -> MeasurementView {
        MeasurementView {
            capacity: self.capacity,
            before: self.before@,
            after: self.after@,
            rebuilt: self.rebuilt@,
            settled_answers: self.settled_answers,
            answers: self.answers,
            warm_answers: self.warm_answers,
            settle_us: self.settle_us,
            rebuild_us: self.rebuild_us,
            warm_us: self.warm_us,
            rss_kib_after: self.rss_kib_after,
        }
    }
}

/// What is done next to measure a capacity.
#[derive(Debug, Clone, Copy, PartialEq, Eq, Structural)]
pub enum PricingStep {
    /// The capacity is applied to the analysis.
    Apply,
    /// The probe runs under it, and so records the uses that eviction goes by.
    Settle,
    /// The analysis is weighed.
    WeighBefore,
    /// The garbage is collected.
    Collect,
    /// The analysis is weighed again.
    WeighAfter,
    /// The probe runs, and pays for what was evicted.
    Rebuild,
    /// The analysis is weighed for the last time.
    WeighRebuilt,
    /// The probe runs with everything back.
    Warm,
    /// The resident memory of the process is read.
    WeighProcess,
    /// All is measured.
    Done,
    /// So many of the capacities that the analysis sets matched no query: what would
    /// be measured is a capacity that was never applied.
    Refused { missed: usize },
}

/// What came of a step.
pub enum PricingEvent {
    /// The capacity was applied, and so many of its names matched no query.
    Applied { missed: usize },
    /// The probe gave so many answers in so many microseconds.
    Answered { answers: usize, us: u64 },
    /// The analysis holds these rows.
    Weighed { rows: Vec<IngredientMemory> },
    /// The garbage was collected.
    Collected,
    /// The process holds so many kibibytes.
    Resident { kib: u64 },
}

/// The measurement of a capacity under way.
pub struct Pricing {
    /// What is done next.
    pub step: PricingStep,
    /// What was measured so far.
    pub measured: Measurement,
}

/// The measurement of a capacity under way, the rows as sequences.
pub struct PricingView {
    /// What is done next.
    pub step: PricingStep,
    /// What was measured so far.
    pub measured: MeasurementView,
}

impl View for Pricing {
    type V = PricingView;

    open spec fn view(&self) -> PricingView {
        PricingView { step: self.step, measured: self.measured@ }
    }
}

/// The measurement of a capacity at its beginning.
pub open spec fn pricing_begun(capacity: Option<u16>) -> PricingView {
    PricingView {
        step: PricingStep::Apply,
        measured: MeasurementView {
            capacity,
            before: Seq::empty(),
            after: Seq::empty(),
            rebuilt: Seq::empty(),
            settled_answers: 0,
            answers: 0,
            warm_answers: 0,
            settle_us: 0,
            rebuild_us: 0,
            warm_us: 0,
            rss_kib_after: 0,
        },
    }
}

/// The measurement after an event. What does not belong to the step changes nothing.
pub open spec fn pricing_after(p: PricingView, event: PricingEvent) -> PricingView {
    let m = p.measured;
    match (p.step, event) {
        (PricingStep::Apply, PricingEvent::Applied { missed }) => PricingView {
            step: if missed == 0 {
                PricingStep::Settle
            } else {
                PricingStep::Refused { missed }
            },
            measured: m,
        },
        (PricingStep::Settle, PricingEvent::Answered { answers, us }) => PricingView {
            step: PricingStep::WeighBefore,
            measured: MeasurementView { settled_answers: answers, settle_us: us, ..m },
        },
        (PricingStep::WeighBefore, PricingEvent::Weighed { rows }) => PricingView {
            step: PricingStep::Collect,
            measured: MeasurementView { before: rows@, ..m },
        },
        (PricingStep::Collect, PricingEvent::Collected) => PricingView {
            step: PricingStep::WeighAfter,
            measured: m,
        },
        (PricingStep::WeighAfter, PricingEvent::Weighed { rows }) => PricingView {
            step: PricingStep::Rebuild,
            measured: MeasurementView { after: rows@, ..m },
        },
        (PricingStep::Rebuild, PricingEvent::Answered { answers, us }) => PricingView {
            step: PricingStep::WeighRebuilt,
            measured: MeasurementView { answers, rebuild_us: us, ..m },
        },
        (PricingStep::WeighRebuilt, PricingEvent::Weighed { rows }) => PricingView {
            step: PricingStep::Warm,
            measured: MeasurementView { rebuilt: rows@, ..m },
        },
        (PricingStep::Warm, PricingEvent::Answered { answers, us }) => PricingView {
            step: PricingStep::WeighProcess,
            measured: MeasurementView { warm_answers: answers, warm_us: us, ..m },
        },
        (PricingStep::WeighProcess, PricingEvent::Resident { kib }) => PricingView {
            step: PricingStep::Done,
            measured: MeasurementView { rss_kib_after: kib, ..m },
        },
        _ => p,
    }
}

/// The measurement after events, one by one.
pub open spec fn pricing_of(capacity: Option<u16>, events: Seq<PricingEvent>) -> PricingView
    decreases events.len(),
{
    if events.len() == 0 {
        pricing_begun(capacity)
    } else {
        pricing_after(pricing_of(capacity, events.drop_last()), events.last())
    }
}

impl Pricing {
    /// Begins to measure a capacity.
    pub fn begin(capacity: Option<u16>) -> (p: Pricing)
        ensures
            p@ == pricing_begun(capacity),
    {
        Pricing {
            step: PricingStep::Apply,
            measured: Measurement {
                capacity,
                before: Vec::new(),
                after: Vec::new(),
                rebuilt: Vec::new(),
                settled_answers: 0,
                answers: 0,
                warm_answers: 0,
                settle_us: 0,
                rebuild_us: 0,
                warm_us: 0,
                rss_kib_after: 0,
            },
        }
    }

    /// Takes what came of the step.
    pub fn heard(self, event: PricingEvent) -> (next: Pricing)
        ensures
            next@ == pricing_after(self@, event),
    {
        let step = self.step;
        let mut m = self.measured;
        let next = match (step, event) {
            (PricingStep::Apply, PricingEvent::Applied { missed }) => if missed == 0 {
                PricingStep::Settle
            } else {
                PricingStep::Refused { missed }
            },
            (PricingStep::Settle, PricingEvent::Answered { answers, us }) => {
                m.settled_answers = answers;
                m.settle_us = us;
                PricingStep::WeighBefore
            },
            (PricingStep::WeighBefore, PricingEvent::Weighed { rows }) => {
                m.before = rows;
                PricingStep::Collect
            },
            (PricingStep::Collect, PricingEvent::Collected) => PricingStep::WeighAfter,
            (PricingStep::WeighAfter, PricingEvent::Weighed { rows }) => {
                m.after = rows;
                PricingStep::Rebuild
            },
            (PricingStep::Rebuild, PricingEvent::Answered { answers, us }) => {
                m.answers = answers;
                m.rebuild_us = us;
                PricingStep::WeighRebuilt
            },
            (PricingStep::WeighRebuilt, PricingEvent::Weighed { rows }) => {
                m.rebuilt = rows;
                PricingStep::Warm
            },
            (PricingStep::Warm, PricingEvent::Answered { answers, us }) => {
                m.warm_answers = answers;
                m.warm_us = us;
                PricingStep::WeighProcess
            },
            (PricingStep::WeighProcess, PricingEvent::Resident { kib }) => {
                m.rss_kib_after = kib;
                PricingStep::Done
            },
            (step, _) => step,
        };
        Pricing { step: next, measured: m }
    }
}

/// The steps that come once the probe has run under the capacity.
pub open spec fn is_past_settling(step: PricingStep) -> bool {
    !(step is Apply || step is Settle || step is Refused)
}

/// Whatever happens, a capacity is weighed and collected only once all of it was applied
/// and the probe ran under it after that.
pub proof fn a_capacity_is_exercised_before_it_is_collected(
    capacity: Option<u16>,
    events: Seq<PricingEvent>,
)
    requires
        is_past_settling(pricing_of(capacity, events).step),
    ensures
        exists|i: int, j: int|
            0 <= i < j < events.len() && #[trigger] events[i] == (PricingEvent::Applied {
                missed: 0,
            }) && #[trigger] events[j] is Answered,
    decreases events.len(),
{
    let init = events.drop_last();
    let p = pricing_of(capacity, init);
    if is_past_settling(p.step) {
        a_capacity_is_exercised_before_it_is_collected(capacity, init);
        let (i, j) = choose|i: int, j: int|
            0 <= i < j < init.len() && #[trigger] init[i] == (PricingEvent::Applied { missed: 0 })
                && #[trigger] init[j] is Answered;
        assert(events[i] == init[i] && events[j] == init[j]);
    } else {
        settling_was_applied(capacity, init);
        let i = choose|i: int|
            0 <= i < init.len() && #[trigger] init[i] == (PricingEvent::Applied { missed: 0 });
        assert(events[i] == init[i]);
        assert(events[events.len() - 1] is Answered);
    }
}

proof fn settling_was_applied(capacity: Option<u16>, events: Seq<PricingEvent>)
    requires
        pricing_of(capacity, events).step is Settle,
    ensures
        exists|i: int|
            0 <= i < events.len() && #[trigger] events[i] == (PricingEvent::Applied { missed: 0 }),
    decreases events.len(),
{
    let init = events.drop_last();
    if pricing_of(capacity, init).step is Settle {
        settling_was_applied(capacity, init);
        let i = choose|i: int|
            0 <= i < init.len() && #[trigger] init[i] == (PricingEvent::Applied { missed: 0 });
        assert(events[i] == init[i]);
    } else {
        assert(events[events.len() - 1] == (PricingEvent::Applied { missed: 0 }));
    }
}

/// A capacity that did not reach all of its queries is never priced, whatever happens
/// after.
pub proof fn a_capacity_that_was_not_applied_is_never_measured(
    capacity: Option<u16>,
    missed: usize,
    events: Seq<PricingEvent>,
)
    requires
        missed > 0,
        events.len() > 0,
        events[0] == (PricingEvent::Applied { missed }),
    ensures
        pricing_of(capacity, events).step == (PricingStep::Refused { missed }),
    decreases events.len(),
{
    let init = events.drop_last();
    if events.len() > 1 {
        assert(init[0] == events[0]);
        a_capacity_that_was_not_applied_is_never_measured(capacity, missed, init);
    } else {
        assert(pricing_of(capacity, init) == pricing_begun(capacity));
    }
}

/// One capacity, priced.
pub struct Priced {
    /// The capacity; nothing for the default.
    pub capacity: Option<u16>,
    /// The entries of the parse query before the collection.
    pub parse_memos: usize,
    /// Its heap before the collection.
    pub parse_heap_before: usize,
    /// Its heap after the collection.
    pub parse_heap_after: usize,
    /// Its heap after the first repetition of the probe.
    pub parse_heap_rebuilt: usize,
    /// The heap of the macro query after the collection.
    pub macro_heap_after: usize,
    /// What the collection handed back, the largest first.
    pub freed: Vec<Freed>,
    /// What the rows hold in all after the collection.
    pub accounted_after: usize,
    /// The time before the collection.
    pub settle_us: u64,
    /// The time of the first repetition.
    pub rebuild_us: u64,
    /// The time of the second repetition.
    pub warm_us: u64,
    /// The answers.
    pub answers: usize,
    /// The resident memory, in kibibytes.
    pub rss_kib_after: u64,
}

/// Prices one capacity. There is no price, and nothing is given, where the three
/// runs did not answer alike: a capacity may cost time, never an answer.
pub fn price_capacity(m: Measurement) -> (r: Option<Priced>)
    requires
        total_bytes(m.after@) <= usize::MAX,
    ensures
        r is Some <==> m.settled_answers == m.warm_answers && m.answers == m.warm_answers,
        r matches Some(p) ==> {
            &&& p.capacity == m.capacity
            &&& p.parse_memos == query_weight(m.before@, PARSE_QUERY@).0
            &&& p.parse_heap_before == query_weight(m.before@, PARSE_QUERY@).1
            &&& p.parse_heap_after == query_weight(m.after@, PARSE_QUERY@).1
            &&& p.parse_heap_rebuilt == query_weight(m.rebuilt@, PARSE_QUERY@).1
            &&& p.macro_heap_after == query_weight(m.after@, MACRO_QUERY@).1
            &&& is_freed(m.before@, m.after@, freed_pairs(p.freed@))
            &&& p.accounted_after == total_bytes(m.after@)
            &&& p.settle_us == m.settle_us
            &&& p.rebuild_us == m.rebuild_us
            &&& p.warm_us == m.warm_us
            &&& p.answers == m.warm_answers
            &&& p.rss_kib_after == m.rss_kib_after
        },
{
    if m.settled_answers != m.warm_answers || m.answers != m.warm_answers {
        return None;
    }
    let parse_before = query_bytes(&m.before, PARSE_QUERY);
    let parse_after = query_bytes(&m.after, PARSE_QUERY);
    let parse_rebuilt = query_bytes(&m.rebuilt, PARSE_QUERY);
    let macro_after = query_bytes(&m.after, MACRO_QUERY);
    let freed = freed_by_collection(&m.before, &m.after);
    let accounted_after: usize = accounted(&m.after);
    Some(
        Priced {
            capacity: m.capacity,
            parse_memos: parse_before.0,
            parse_heap_before: parse_before.1,
            parse_heap_after: parse_after.1,
            parse_heap_rebuilt: parse_rebuilt.1,
            macro_heap_after: macro_after.1,
            freed,
            accounted_after,
            settle_us: m.settle_us,
            rebuild_us: m.rebuild_us,
            warm_us: m.warm_us,
            answers: m.answers,
            rss_kib_after: m.rss_kib_after,
        },
    )
}

impl Priced {
    /// The bytes that the collection handed back.
    pub fn freed_total(&self) -> (n: usize)
        requires
            total_freed(self.freed@) <= usize::MAX,
        ensures
            n == total_freed(self.freed@),
    {
        let mut n: usize = 0;
        let mut i: usize = 0;
        while i < self.freed.len()
            invariant
                i <= self.freed@.len(),
                total_freed(self.freed@) <= usize::MAX,
                n == total_freed(self.freed@.take(i as int)),
            decreases self.freed@.len() - i,
        {
            proof {
                assert(self.freed@.take(i + 1).drop_last() =~= self.freed@.take(i as int));
                total_freed_grows(self.freed@, i + 1);
            }
            n = n + self.freed[i].bytes;
            i += 1;
        }
        assert(self.freed@.take(i as int) =~= self.freed@);
        n
    }

    /// The capacity in words, `default_cap` being that of an analysis that was told none.
    pub fn capacity_label(&self, default_cap: u16) -> (text: String)
        ensures
            text@ == (match self.capacity {
                None => "default("@ + decimal(default_cap as nat) + ")"@,
                Some(cap) => decimal(cap as nat),
            }),
    {
        match self.capacity {
            None => {
                let mut text = "default(".to_owned();
                text.append(number(default_cap as u128).as_str());
                text.append(")");
                text
            },
            Some(cap) => number(cap as u128),
        }
    }
}

/// Nothing that was not held is handed back: each name gives back at most what its
/// row held.
pub proof fn losses_are_bounded(
    before: Seq<IngredientMemory>,
    after: Seq<IngredientMemory>,
    k: int,
)
    requires
        0 <= k < losses(before, after).len(),
    ensures
        losses(before, after)[k].1 > 0,
        exists|i: int|
            0 <= i < before.len() && (#[trigger] before[i]).name@ == losses(before, after)[k].0
                && before[i].heap_bytes is Some && losses(before, after)[k].1
                <= before[i].heap_bytes->Some_0,
    decreases before.len(),
{
    let init = losses(before.drop_last(), after);
    if k < init.len() {
        losses_are_bounded(before.drop_last(), after, k);
        let i = choose|i: int|
            0 <= i < before.drop_last().len() && (#[trigger] before.drop_last()[i]).name@
                == init[k].0 && before.drop_last()[i].heap_bytes is Some && init[k].1
                <= before.drop_last()[i].heap_bytes->Some_0;
        assert(before[i] == before.drop_last()[i]);
    } else {
        assert(before[before.len() - 1] == before.last());
    }
}

/// What a query holds is told by the first row of its family and name; rows of another
/// family or name do not count.
pub proof fn the_first_row_of_a_query_tells(rows: Seq<IngredientMemory>, query: Seq<char>, i: int)
    requires
        0 <= i < rows.len(),
        rows[i].family@ == "query"@ && rows[i].name@ == query,
        forall|k: int|
            0 <= k < i ==> (#[trigger] rows[k]).family@ != "query"@ || rows[k].name@ != query,
    ensures
        query_weight(rows, query).0 == rows[i].count,
        query_weight(rows, query).1 == (match rows[i].heap_bytes {
            Some(b) => b as int,
            None => 0int,
        }),
{
    query_weight_at(rows, query, i);
    assert(rows.skip(i)[0] == rows[i]);
}

/// A query without a row holds nothing.
pub proof fn a_query_without_a_row_holds_nothing(rows: Seq<IngredientMemory>, query: Seq<char>)
    requires
        forall|k: int|
            0 <= k < rows.len() ==> (#[trigger] rows[k]).family@ != "query"@ || rows[k].name@
                != query,
    ensures
        query_weight(rows, query) == (0usize, 0usize),
{
    query_weight_at(rows, query, rows.len() as int);
}

proof fn a_loss_is_listed(before: Seq<IngredientMemory>, after: Seq<IngredientMemory>, i: int) -> (k:
    int)
    requires
        0 <= i < before.len(),
        before[i].heap_bytes is Some,
        before[i].heap_bytes->Some_0 > query_weight(after, before[i].name@).1,
    ensures
        0 <= k < losses(before, after).len(),
        losses(before, after)[k] == (
            before[i].name@,
            (before[i].heap_bytes->Some_0 - query_weight(after, before[i].name@).1) as usize,
        ),
    decreases before.len(),
{
    let init = losses(before.drop_last(), after);
    if i == before.len() - 1 {
        init.len() as int
    } else {
        assert(before.drop_last()[i] == before[i]);
        a_loss_is_listed(before.drop_last(), after, i)
    }
}

proof fn an_order_reaches_all(order: Seq<int>, n: int, p: int) -> (k: int)
    requires
        order.len() == n,
        order.no_duplicates(),
        forall|k: int| 0 <= k < n ==> 0 <= #[trigger] order[k] < n,
        0 <= p < n,
    ensures
        0 <= k < n,
        order[k] == p,
{
    let all = vstd::set_lib::set_int_range(0, n);
    vstd::set_lib::lemma_int_range(0, n);
    order.unique_seq_to_set();
    let reached = order.to_set();
    assert(reached.subset_of(all));
    vstd::set_lib::lemma_subset_equality(reached, all);
    assert(reached.contains(p));
    order.index_of(p)
}

/// What a row held and its query no longer holds was handed back, to the byte.
pub proof fn every_loss_is_handed_back(
    before: Seq<IngredientMemory>,
    after: Seq<IngredientMemory>,
    freed: Seq<(Seq<char>, usize)>,
    i: int,
    j: int,
    was: usize,
    now: usize,
)
    requires
        is_freed(before, after, freed),
        0 <= i < before.len(),
        before[i].heap_bytes == Some(was),
        0 <= j < after.len(),
        after[j].family@ == "query"@ && after[j].name@ == before[i].name@,
        forall|k: int|
            0 <= k < j ==> (#[trigger] after[k]).family@ != "query"@ || after[k].name@
                != before[i].name@,
        after[j].heap_bytes == Some(now),
        was > now,
    ensures
        freed.contains((before[i].name@, (was - now) as usize)),
{
    the_first_row_of_a_query_tells(after, before[i].name@, j);
    let all = losses(before, after);
    let order = choose|order: Seq<int>| is_largest_first(all, freed, order);
    let p = a_loss_is_listed(before, after, i);
    let k = an_order_reaches_all(order, all.len() as int, p);
    assert(freed[k] == all[p]);
}

/// What a query held that has no row afterwards was handed back whole.
pub proof fn what_is_gone_is_handed_back(
    before: Seq<IngredientMemory>,
    after: Seq<IngredientMemory>,
    freed: Seq<(Seq<char>, usize)>,
    i: int,
    was: usize,
)
    requires
        is_freed(before, after, freed),
        0 <= i < before.len(),
        before[i].heap_bytes == Some(was),
        was > 0,
        forall|k: int|
            0 <= k < after.len() ==> (#[trigger] after[k]).family@ != "query"@ || after[k].name@
                != before[i].name@,
    ensures
        freed.contains((before[i].name@, was)),
{
    a_query_without_a_row_holds_nothing(after, before[i].name@);
    let all = losses(before, after);
    let order = choose|order: Seq<int>| is_largest_first(all, freed, order);
    let p = a_loss_is_listed(before, after, i);
    let k = an_order_reaches_all(order, all.len() as int, p);
    assert(freed[k] == all[p]);
}

/// What was handed back is listed with the largest first.
pub proof fn the_largest_is_handed_back_first(
    before: Seq<IngredientMemory>,
    after: Seq<IngredientMemory>,
    freed: Seq<(Seq<char>, usize)>,
    j: int,
    k: int,
)
    requires
        is_freed(before, after, freed),
        0 <= j < k < freed.len(),
    ensures
        freed[j].1 >= freed[k].1,
{
    let all = losses(before, after);
    let order = choose|order: Seq<int>| is_largest_first(all, freed, order);
    assert(freed[j] == all[order[j]] && freed[k] == all[order[k]]);
}

/// A measurement keeps what each of its steps brought: the answers and the time of the
/// three runs of the probe apart, and the rows before and after the collection and after
/// the rebuild.
pub proof fn a_measurement_keeps_what_was_measured(
    capacity: Option<u16>,
    settled: (usize, u64),
    before: Vec<IngredientMemory>,
    after: Vec<IngredientMemory>,
    first: (usize, u64),
    rebuilt: Vec<IngredientMemory>,
    warm: (usize, u64),
    kib: u64,
)
    ensures
        ({
            let events = seq![
                PricingEvent::Applied { missed: 0 },
                PricingEvent::Answered { answers: settled.0, us: settled.1 },
                PricingEvent::Weighed { rows: before },
                PricingEvent::Collected,
                PricingEvent::Weighed { rows: after },
                PricingEvent::Answered { answers: first.0, us: first.1 },
                PricingEvent::Weighed { rows: rebuilt },
                PricingEvent::Answered { answers: warm.0, us: warm.1 },
                PricingEvent::Resident { kib },
            ];
            let p = pricing_of(capacity, events);
            &&& p.step == PricingStep::Done
            &&& p.measured.capacity == capacity
            &&& p.measured.settled_answers == settled.0 && p.measured.settle_us == settled.1
            &&& p.measured.answers == first.0 && p.measured.rebuild_us == first.1
            &&& p.measured.warm_answers == warm.0 && p.measured.warm_us == warm.1
            &&& p.measured.before == before@
            &&& p.measured.after == after@
            &&& p.measured.rebuilt == rebuilt@
            &&& p.measured.rss_kib_after == kib
        }),
{
    let e = seq![
        PricingEvent::Applied { missed: 0 },
        PricingEvent::Answered { answers: settled.0, us: settled.1 },
        PricingEvent::Weighed { rows: before },
        PricingEvent::Collected,
        PricingEvent::Weighed { rows: after },
        PricingEvent::Answered { answers: first.0, us: first.1 },
        PricingEvent::Weighed { rows: rebuilt },
        PricingEvent::Answered { answers: warm.0, us: warm.1 },
        PricingEvent::Resident { kib },
    ];
    pricing_grows(capacity, e, 1);
    pricing_grows(capacity, e, 2);
    pricing_grows(capacity, e, 3);
    pricing_grows(capacity, e, 4);
    pricing_grows(capacity, e, 5);
    pricing_grows(capacity, e, 6);
    pricing_grows(capacity, e, 7);
    pricing_grows(capacity, e, 8);
    pricing_grows(capacity, e, 9);
    assert(e.take(9) =~= e);
    assert(pricing_of(capacity, e.take(0)) == pricing_begun(capacity));
}

proof fn pricing_grows(capacity: Option<u16>, events: Seq<PricingEvent>, n: int)
    requires
        0 < n <= events.len(),
    ensures
        pricing_of(capacity, events.take(n)) == pricing_after(
            pricing_of(capacity, events.take(n - 1)),
            events[n - 1],
        ),
{
    assert(events.take(n).drop_last() =~= events.take(n - 1));
    assert(events.take(n).last() == events[n - 1]);
}

/// A price is given exactly where all three runs of the probe gave as many answers. The
/// times of the runs are kept apart, and the rows after the collection are weighed.
pub proof fn a_price_costs_no_answer(m: Measurement, r: Option<Priced>)
    requires
        total_bytes(m.after@) <= usize::MAX,
        call_ensures(price_capacity, (m,), r),
    ensures
        r is Some <==> (m.settled_answers == m.answers && m.answers == m.warm_answers),
        r is Some ==> {
            let p = r->Some_0;
            &&& p.capacity == m.capacity
            &&& p.answers == m.answers
            &&& p.settle_us == m.settle_us && p.rebuild_us == m.rebuild_us && p.warm_us
                == m.warm_us
            &&& p.rss_kib_after == m.rss_kib_after
            &&& p.accounted_after == total_bytes(m.after@)
        },
{
}

/// What a price says of the two queries is what their first rows hold.
pub proof fn a_price_reads_the_rows_of_its_queries(
    m: Measurement,
    r: Option<Priced>,
    parse: int,
    parse_after: int,
    macros_after: int,
)
    requires
        total_bytes(m.after@) <= usize::MAX,
        call_ensures(price_capacity, (m,), r),
        r is Some,
        is_first_row(m.before@, "EditionedFileId::parse_"@, parse),
        is_first_row(m.after@, "EditionedFileId::parse_"@, parse_after),
        is_first_row(m.after@, "MacroCallId::parse_macro_expansion_"@, macros_after),
        m.before@[parse].heap_bytes is Some,
        m.after@[parse_after].heap_bytes is Some,
        m.after@[macros_after].heap_bytes is Some,
    ensures
        r->Some_0.parse_memos == m.before@[parse].count,
        r->Some_0.parse_heap_before == m.before@[parse].heap_bytes->Some_0,
        r->Some_0.parse_heap_after == m.after@[parse_after].heap_bytes->Some_0,
        r->Some_0.macro_heap_after == m.after@[macros_after].heap_bytes->Some_0,
{
    the_first_row_of_a_query_tells(m.before@, "EditionedFileId::parse_"@, parse);
    the_first_row_of_a_query_tells(m.after@, "EditionedFileId::parse_"@, parse_after);
    the_first_row_of_a_query_tells(m.after@, "MacroCallId::parse_macro_expansion_"@, macros_after);
}

/// The row at `i` is the first of its query.
pub open spec fn is_first_row(rows: Seq<IngredientMemory>, query: Seq<char>, i: int) -> bool {
    &&& 0 <= i < rows.len()
    &&& rows[i].family@ == "query"@ && rows[i].name@ == query
    &&& forall|k: int|
        0 <= k < i ==> (#[trigger] rows[k]).family@ != "query"@ || rows[k].name@ != query
}

/// Which probe is meant: a search for symbols where no kind is named, and that searches for
/// `main` where no symbol is; a search for uses needs a symbol; there is no other kind.
pub proof fn a_probe_is_named_by_its_kind(
    kind: Option<&str>,
    name: Option<&str>,
    r: Result<Probe, String>,
)
    requires
        call_ensures(Probe::from_env, (kind, name), r),
    ensures
        ({
            let symbols = kind is None || kind->Some_0@ == "symbols"@;
            let references = kind is Some && kind->Some_0@ == "references"@;
            let named = name is Some && name->Some_0@.len() > 0;
            &&& symbols && named ==> r is Ok && r->Ok_0 is Symbols && r->Ok_0->Symbols_name@
                == name->Some_0@
            &&& symbols && !named ==> r is Ok && r->Ok_0 is Symbols && r->Ok_0->Symbols_name@
                == "main"@
            &&& references && named ==> r is Ok && r->Ok_0 is References
                && r->Ok_0->References_name@ == name->Some_0@
            &&& references && !named ==> r is Err
            &&& !symbols && !references ==> r is Err
        }),
{
    reveal_strlit("symbols");
    reveal_strlit("references");
    assert("symbols"@.len() == 7);
    assert("references"@.len() == 10);
}

/// What was handed back in all is the sum of what was handed back for each name.
pub proof fn all_that_was_freed_is_summed(freed: Seq<Freed>, more: Freed)
    ensures
        total_freed(freed.push(more)) == total_freed(freed) + more.bytes,
        total_freed(Seq::empty()) == 0,
{
    assert(freed.push(more).drop_last() =~= freed);
}

/// What rows hold in all is the sum of what each holds.
pub proof fn all_that_rows_hold_is_summed(rows: Seq<IngredientMemory>, more: IngredientMemory)
    ensures
        total_bytes(rows.push(more)) == total_bytes(rows) + more.bytes,
        total_bytes(Seq::empty()) == 0,
{
    assert(rows.push(more).drop_last() =~= rows);
}

} // verus!

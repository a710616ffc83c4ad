//! Which execution providers ran the nodes of a graph.
//!
//! A profile of ONNX Runtime names at each event of a node the provider that ran it.
//! A node has several events, and a set of them for each run, so nodes are counted
//! and not events.

use vstd::prelude::*;

use crate::embeddings::error::{EmbeddingError, EmbeddingFailure};
use crate::table::{ascending_is_distinct, paired_at, Table};
use crate::text::{decimal, has_suffix, join, joined, number, same, strip_suffix, texts};

verus! {

/// The provider that runs nodes on a GPU of AMD.
pub const MIGRAPHX_EP: &'static str = "MIGraphXExecutionProvider";

/// The provider that runs nodes on the processor. Some nodes of a graph stay on it
/// where all is well too.
pub const CPU_EP: &'static str = "CPUExecutionProvider";

/// The provider that runs nodes on a GPU under Windows.
pub const DIRECTML_EP: &'static str = "DmlExecutionProvider";

/// A JSON document of `serde_json`. The library does not look into it by itself.
#[verifier::external_type_specification]
#[verifier::external_body]
pub struct ExValue(serde_json::Value);

/// The document that `serde_json` reads out of a text, or its message of what is
/// wrong with the text.
pub uninterp spec fn document(raw: Seq<char>) -> Result<serde_json::Value, Seq<char>>;

/// The elements of a document that is an array.
pub uninterp spec fn elements(value: serde_json::Value) -> Option<Seq<serde_json::Value>>;

/// The member of a document that is an object with a member of this name.
pub uninterp spec fn member(value: serde_json::Value, name: Seq<char>) -> Option<
    serde_json::Value,
>;

/// The text of a document that is a string.
pub uninterp spec fn string_in(value: serde_json::Value) -> Option<Seq<char>>;

/// Reads a document with `serde_json::from_str`. What it gives depends on the text
/// alone and is called [`document`]; of an error its message is kept. Which texts
/// are documents is not stated here.
#[verifier::external_body]
fn read_document(raw: &str) -> (r: Result<serde_json::Value, String>)
    ensures
        r is Ok ==> document(raw@) == Ok::<serde_json::Value, Seq<char>>(r->Ok_0),
        r is Err ==> document(raw@) == Err::<serde_json::Value, Seq<char>>(r->Err_0@),
{
    serde_json::from_str(raw).map_err(|e| e.to_string())
}

/// The elements of an array, with `serde_json::Value::as_array`. They are called
/// [`elements`]; there are none where the document is no array.
#[verifier::external_body]
fn elements_of(value: &serde_json::Value) -> (r: Option<&Vec<serde_json::Value>>)
    ensures
        r is Some <==> elements(*value) is Some,
        r is Some ==> elements(*value) == Some(r->Some_0@),
{
    value.as_array()
}

/// The member of an object, with `serde_json::Value::get`. It is called [`member`];
/// there is none where the document is no object or has no such member.
#[verifier::external_body]
fn member_of<'a>(value: &'a serde_json::Value, name: &str) -> (r: Option<&'a serde_json::Value>)
    ensures
        r is Some <==> member(*value, name@) is Some,
        r is Some ==> member(*value, name@) == Some(*r->Some_0),
{
    value.get(name)
}

/// The text of a string, with `serde_json::Value::as_str`. It is called
/// [`string_in`]; there is none where the document is no string.
#[verifier::external_body]
fn string_of(value: &serde_json::Value) -> (r: Option<&str>)
    ensures
        r is Some <==> string_in(*value) is Some,
        r is Some ==> string_in(*value) == Some(r->Some_0@),
{
    value.as_str()
}

/// What is read of an event.
pub struct ProfileEvent {
    /// Its category.
    pub cat: Option<String>,
    /// Its name.
    pub name: Option<String>,
    /// The provider in its arguments.
    pub provider: Option<String>,
}

/// What is read of an event, as texts.
pub struct EventFacts {
    /// Its category.
    pub cat: Option<Seq<char>>,
    /// Its name.
    pub name: Option<Seq<char>>,
    /// The provider in its arguments.
    pub provider: Option<Seq<char>>,
}

/// The text that may be there.
pub open spec fn held(text: Option<String>) -> Option<Seq<char>> {
    match text {
        Some(t) => Some(t@),
        None => None,
    }
}

impl View for ProfileEvent {
    type V = EventFacts;

    open spec fn view(&self) -> EventFacts {
        EventFacts { cat: held(self.cat), name: held(self.name), provider: held(self.provider) }
    }
}

/// What is read of these events.
pub open spec fn event_facts(events: Seq<ProfileEvent>) -> Seq<EventFacts> {
    Seq::new(events.len(), |i: int| events[i]@)
}

/// The text of the member of a document.
pub open spec fn member_text(value: serde_json::Value, name: Seq<char>) -> Option<Seq<char>> {
    match member(value, name) {
        Some(m) => string_in(m),
        None => None,
    }
}

/// What is read of an event that a document holds.
pub open spec fn event_in(value: serde_json::Value) -> EventFacts {
    EventFacts {
        cat: member_text(value, "cat"@),
        name: member_text(value, "name"@),
        provider: match member(value, "args"@) {
            Some(args) => member_text(args, "provider"@),
            None => None,
        },
    }
}

/// What is read of the events that documents hold.
pub open spec fn events_in(values: Seq<serde_json::Value>) -> Seq<EventFacts> {
    Seq::new(values.len(), |i: int| event_in(values[i]))
}

/// The name of a node: that of an event without the ending for its phase.
pub open spec fn node_of(event_name: Seq<char>) -> Seq<char> {
    if has_suffix(event_name, "_kernel_time"@) {
        event_name.take(event_name.len() - "_kernel_time"@.len())
    } else if has_suffix(event_name, "_fence_before"@) {
        event_name.take(event_name.len() - "_fence_before"@.len())
    } else if has_suffix(event_name, "_fence_after"@) {
        event_name.take(event_name.len() - "_fence_after"@.len())
    } else {
        event_name
    }
}

/// The node and its provider, where the event tells them.
pub open spec fn placement(event: EventFacts) -> Option<(Seq<char>, Seq<char>)> {
    match (event.cat, event.name, event.provider) {
        (Some(cat), Some(name), Some(provider)) => if cat == "Node"@ {
            Some((node_of(name), provider))
        } else {
            None
        },
        _ => None,
    }
}

/// The nodes with their providers that the first `n` events tell of.
pub open spec fn placements_of_first(events: Seq<EventFacts>, n: nat) -> Set<
    (Seq<char>, Seq<char>),
>
    decreases n,
{
    if n == 0 || n > events.len() {
        Set::empty()
    } else {
        let before = placements_of_first(events, (n - 1) as nat);
        match placement(events[n - 1]) {
            Some(p) => before.insert(p),
            None => before,
        }
    }
}

/// The nodes with their providers that a profile tells of.
pub open spec fn placements(events: Seq<EventFacts>) -> Set<(Seq<char>, Seq<char>)> {
    placements_of_first(events, events.len())
}

/// How many nodes are placed on a provider.
pub open spec fn placed_on(nodes: Set<(Seq<char>, Seq<char>)>, provider: Seq<char>) -> nat {
    nodes.filter(|p: (Seq<char>, Seq<char>)| p.1 == provider).len()
}

/// `counts` gives for each provider that has a node how many it has.
pub open spec fn is_count(
    counts: Map<Seq<char>, usize>,
    nodes: Set<(Seq<char>, Seq<char>)>,
) -> bool {
    forall|p: Seq<char>|
        {
            &&& counts.dom().contains(p) <==> #[trigger] placed_on(nodes, p) > 0
            &&& counts.dom().contains(p) ==> counts[p] == placed_on(nodes, p)
        }
}

/// The sum of numbers.
pub open spec fn sum(numbers: Seq<usize>) -> nat
    decreases numbers.len(),
{
    if numbers.len() == 0 {
        0
    } else {
        sum(numbers.drop_last()) + numbers.last() as nat
    }
}

/// How many nodes each provider ran. There is a node in every census.
pub struct ProviderCensus {
    per_provider: Table<usize>,
}

/// The failure for a profile whose events name no provider.
pub open spec fn untagged() -> EmbeddingFailure {
    EmbeddingFailure::ModelInit(
        "ORT profile carries no provider-tagged node events — profiling was probably not enabled for this session"@,
    )
}

/// `r` is the census of these events: it counts each node once for each provider
/// that is told of it, and it fails where no event tells of one.
pub open spec fn is_census(
    events: Seq<EventFacts>,
    r: Result<ProviderCensus, EmbeddingError>,
) -> bool {
    let nodes = placements(events);
    match r {
        Ok(census) => {
            &&& nodes.len() > 0
            &&& is_count(census@, nodes)
            &&& census.total() == nodes.len()
        },
        Err(e) => nodes.len() == 0 && e@ == untagged(),
    }
}

impl View for ProviderCensus {
    type V = Map<Seq<char>, usize>;

    closed spec fn view(&self) -> Map<Seq<char>, usize> {
        self.per_provider@
    }
}

impl ProviderCensus {
    /// There is a node, each provider that is listed ran one, and the number of nodes
    /// is one of the machine.
    #[verifier::type_invariant]
    spec fn wf(&self) -> bool {
        &&& self.per_provider.wf()
        &&& 0 < sum(self.per_provider.values()) <= usize::MAX
    }

    /// The providers in their order.
    pub closed spec fn providers(&self) -> Seq<Seq<char>> {
        self.per_provider.keys()
    }

    /// The numbers of nodes, in the order of the providers.
    pub closed spec fn counts(&self) -> Seq<usize> {
        self.per_provider.values()
    }

    /// The number of nodes of all providers.
    pub open spec fn total(&self) -> nat {
        sum(self.counts())
    }

    /// How many nodes a provider ran.
    pub open spec fn on(&self, provider: Seq<char>) -> usize {
        if self@.dom().contains(provider) {
            self@[provider]
        } else {
            0
        }
    }
}

proof fn sum_updated(numbers: Seq<usize>, i: int, n: usize)
    requires
        0 <= i < numbers.len(),
    ensures
        sum(numbers.update(i, n)) == sum(numbers) - numbers[i] + n,
    decreases numbers.len(),
{
    if i < numbers.len() - 1 {
        sum_updated(numbers.drop_last(), i, n);
        assert(numbers.update(i, n).drop_last() =~= numbers.drop_last().update(i, n));
    } else {
        assert(numbers.update(i, n).drop_last() =~= numbers.drop_last());
    }
}

proof fn sum_inserted(numbers: Seq<usize>, i: int, n: usize)
    requires
        0 <= i <= numbers.len(),
    ensures
        sum(numbers.insert(i, n)) == sum(numbers) + n,
    decreases numbers.len(),
{
    if i < numbers.len() {
        sum_inserted(numbers.drop_last(), i, n);
        assert(numbers.insert(i, n).drop_last() =~= numbers.drop_last().insert(i, n));
    } else {
        assert(numbers.insert(i, n).drop_last() =~= numbers);
    }
}

proof fn part_of_sum(numbers: Seq<usize>, i: int)
    requires
        0 <= i < numbers.len(),
    ensures
        numbers[i] <= sum(numbers),
    decreases numbers.len(),
{
    if i < numbers.len() - 1 {
        part_of_sum(numbers.drop_last(), i);
    }
}

proof fn sum_of_first(numbers: Seq<usize>, n: int)
    requires
        0 <= n <= numbers.len(),
    ensures
        sum(numbers.take(n)) <= sum(numbers),
    decreases numbers.len() - n,
{
    if n < numbers.len() {
        sum_of_first(numbers, n + 1);
        assert(numbers.take(n + 1).drop_last() =~= numbers.take(n));
    } else {
        assert(numbers.take(n) =~= numbers);
    }
}

/// Counts one more for a provider.
fn count_up(counts: &mut Table<usize>, provider: &str)
    requires
        old(counts).wf(),
        sum(old(counts).values()) < usize::MAX,
    ensures
        final(counts).wf(),
        old(counts)@.dom().contains(provider@) ==> final(counts)@ == old(counts)@.insert(
            provider@,
            (old(counts)@[provider@] + 1) as usize,
        ) && old(counts)@[provider@] < usize::MAX,
        !old(counts)@.dom().contains(provider@) ==> final(counts)@ == old(counts)@.insert(
            provider@,
            1,
        ),
        sum(final(counts).values()) == sum(old(counts).values()) + 1,
{
    let ghost keys = counts.keys();
    let ghost values = counts.values();
    match counts.find(provider) {
        Some(i) => {
            proof {
                part_of_sum(values, i as int);
                ascending_is_distinct(keys);
                assert(keys.contains(provider@));
            }
            let n: usize = *counts.value_at(i) + 1;
            counts.insert(provider.to_owned(), n);
            proof {
                sum_updated(values, i as int, n);
            }
        },
        None => {
            counts.insert(provider.to_owned(), 1);
            proof {
                let at = choose|at: int|
                    0 <= at <= keys.len() && counts.keys() == #[trigger] keys.insert(at, provider@)
                        && counts.values() == values.insert(at, 1);
                sum_inserted(values, at, 1);
            }
        },
    }
}

proof fn placements_are_few(events: Seq<EventFacts>, n: nat)
    requires
        n <= events.len(),
    ensures
        placements_of_first(events, n).finite(),
        placements_of_first(events, n).len() <= n,
    decreases n,
{
    if n > 0 {
        placements_are_few(events, (n - 1) as nat);
    }
}

/// Counts with one more node.
proof fn one_more_is_counted(
    counts: Map<Seq<char>, usize>,
    more: Map<Seq<char>, usize>,
    nodes: Set<(Seq<char>, Seq<char>)>,
    node: Seq<char>,
    provider: Seq<char>,
)
    requires
        nodes.finite(),
        !nodes.contains((node, provider)),
        is_count(counts, nodes),
        counts.dom().contains(provider) ==> counts[provider] < usize::MAX && more == counts.insert(
            provider,
            (counts[provider] + 1) as usize,
        ),
        !counts.dom().contains(provider) ==> more == counts.insert(provider, 1),
    ensures
        is_count(more, nodes.insert((node, provider))),
{
    let all = nodes.insert((node, provider));
    assert forall|p: Seq<char>|
        (more.dom().contains(p) <==> #[trigger] placed_on(all, p) > 0) && (more.dom().contains(p)
            ==> more[p] == placed_on(all, p)) by {
        let f = |x: (Seq<char>, Seq<char>)| x.1 == p;
        assert(counts.dom().contains(p) <==> placed_on(nodes, p) > 0);
        nodes.lemma_len_filter(f);
        if p == provider {
            assert(all.filter(f) =~= nodes.filter(f).insert((node, provider)));
        } else {
            assert(all.filter(f) =~= nodes.filter(f));
        }
    }
}

/// The name of a node by that of an event.
fn node_name(event_name: &str) -> (node: String)
    ensures
        node@ == node_of(event_name@),
{
    match strip_suffix(event_name, "_kernel_time") {
        Some(node) => node,
        None => match strip_suffix(event_name, "_fence_before") {
            Some(node) => node,
            None => match strip_suffix(event_name, "_fence_after") {
                Some(node) => node,
                None => event_name.to_owned(),
            },
        },
    }
}

/// The providers that are told of each node.
pub open spec fn told(seen: Map<Seq<char>, Table<()>>, node: Seq<char>, provider: Seq<char>) -> bool {
    seen.dom().contains(node) && seen[node]@.dom().contains(provider)
}

/// Notes that a node was run by a provider. Gives whether that is new.
fn note(seen: &mut Table<Table<()>>, node: String, provider: &str) -> (is_new: bool)
    requires
        old(seen).wf(),
        forall|n: Seq<char>| #[trigger] old(seen)@.dom().contains(n) ==> old(seen)@[n].wf(),
    ensures
        final(seen).wf(),
        forall|n: Seq<char>| #[trigger] final(seen)@.dom().contains(n) ==> final(seen)@[n].wf(),
        is_new == !told(old(seen)@, node@, provider@),
        forall|n: Seq<char>, p: Seq<char>| #[trigger]
            told(final(seen)@, n, p) <==> told(old(seen)@, n, p) || (n == node@ && p == provider@),
{
    let ghost before = seen@;
    let taken = seen.remove(node.as_str());
    let mut providers: Table<()> = match taken {
        Some(t) => t,
        None => Table::new(),
    };
    let is_new: bool = !providers.contains(provider);
    providers.insert(provider.to_owned(), ());
    let ghost now = providers;
    seen.insert(node, providers);
    proof {
        assert forall|n: Seq<char>| #[trigger] seen@.dom().contains(n) implies seen@[n].wf() by {
            if n != node@ {
                assert(before.dom().contains(n));
            }
        }
    }
    is_new
}

fn is_node(event: &ProfileEvent) -> (r: Option<(String, String)>)
    ensures
        r is Some <==> placement(event@) is Some,
        r matches Some(p) ==> placement(event@) == Some((p.0@, p.1@)),
{
    match (&event.cat, &event.name, &event.provider) {
        (Some(cat), Some(name), Some(provider)) => {
            if same(cat.as_str(), "Node") {
                Some((node_name(name.as_str()), provider.clone()))
            } else {
                None
            }
        },
        _ => None,
    }
}

impl ProviderCensus {
    /// The census of the events of a profile. Without an event that tells a node and
    /// its provider there is none: nothing was looked at then, and that is not the
    /// same as nothing being found.
    pub fn from_events(events: &Vec<ProfileEvent>) -> (r: Result<Self, EmbeddingError>)
        ensures
            is_census(event_facts(events@), r),
    {
        let ghost all = event_facts(events@);
        let mut seen: Table<Table<()>> = Table::new();
        let mut counts: Table<usize> = Table::new();
        let mut i: usize = 0;
        proof {
            assert forall|p: Seq<char>|
                (counts@.dom().contains(p) <==> #[trigger] placed_on(
                    placements_of_first(all, 0),
                    p,
                ) > 0) by {
                let f = |x: (Seq<char>, Seq<char>)| x.1 == p;
                assert(Set::<(Seq<char>, Seq<char>)>::empty().filter(f) =~= Set::empty());
            }
        }
        while i < events.len()
            invariant
                i <= events@.len(),
                all == event_facts(events@),
                seen.wf(),
                forall|n: Seq<char>| #[trigger] seen@.dom().contains(n) ==> seen@[n].wf(),
                forall|n: Seq<char>, p: Seq<char>| #[trigger]
                    told(seen@, n, p) <==> placements_of_first(all, i as nat).contains((n, p)),
                counts.wf(),
                is_count(counts@, placements_of_first(all, i as nat)),
                sum(counts.values()) == placements_of_first(all, i as nat).len(),
            decreases events@.len() - i,
        {
            let ghost before = placements_of_first(all, i as nat);
            let ghost now = placements_of_first(all, (i + 1) as nat);
            proof {
                placements_are_few(all, i as nat);
                assert(all[i as int] == events@[i as int]@);
            }
            match is_node(&events[i]) {
                Some((node, provider)) => {
                    let ghost n = node@;
                    let ghost p = provider@;
                    if note(&mut seen, node, provider.as_str()) {
                        let ghost held = counts@;
                        count_up(&mut counts, provider.as_str());
                        proof {
                            one_more_is_counted(held, counts@, before, n, p);
                        }
                    } else {
                        proof {
                            assert(before.contains((n, p)));
                            assert(now =~= before);
                        }
                    }
                },
                None => {},
            }
            i += 1;
        }
        proof {
            placements_are_few(all, all.len());
        }
        if counts.len() == 0 {
            proof {
                assert(counts.values() =~= Seq::empty());
            }
            return Err(
                EmbeddingError::model_init(
                    "ORT profile carries no provider-tagged node events — profiling was probably not enabled for this session",
                ),
            );
        }
        proof {
            let p = counts.keys()[0];
            paired_at(counts.keys(), counts.values(), 0);
            assert(placed_on(placements(all), p) > 0);
            part_of_sum(counts.values(), 0);
        }
        Ok(ProviderCensus { per_provider: counts })
    }
}

fn member_string(value: &serde_json::Value, name: &str) -> (r: Option<String>)
    ensures
        held(r) == member_text(*value, name@),
{
    match member_of(value, name) {
        Some(m) => match string_of(m) {
            Some(text) => Some(text.to_owned()),
            None => None,
        },
        None => None,
    }
}

fn event_of(value: &serde_json::Value) -> (event: ProfileEvent)
    ensures
        event@ == event_in(*value),
{
    let cat = member_string(value, "cat");
    let name = member_string(value, "name");
    let provider = match member_of(value, "args") {
        Some(args) => member_string(args, "provider"),
        None => None,
    };
    ProfileEvent { cat, name, provider }
}

/// `r` is what comes of the text of a profile: a failure where the text is no JSON
/// or no array, else the census of the events in the array.
pub open spec fn is_census_of_text(
    raw: Seq<char>,
    r: Result<ProviderCensus, EmbeddingError>,
) -> bool {
    match document(raw) {
        Err(m) => r matches Err(e) && e@ == EmbeddingFailure::ModelInit(
            "malformed ORT profile: "@ + m,
        ),
        Ok(value) => match elements(value) {
            None => r matches Err(e) && e@ == EmbeddingFailure::ModelInit(
                "ORT profile is not a JSON array of events"@,
            ),
            Some(values) => is_census(events_in(values), r),
        },
    }
}

impl ProviderCensus {
    /// The census of a profile by its text.
    pub fn from_profile_json(raw: &str) -> (r: Result<Self, EmbeddingError>)
        ensures
            is_census_of_text(raw@, r),
    {
        let value = match read_document(raw) {
            Ok(value) => value,
            Err(m) => {
                let mut message = "malformed ORT profile: ".to_owned();
                message.append(m.as_str());
                return Err(EmbeddingError::model_init(message.as_str()));
            },
        };
        match elements_of(&value) {
            None => Err(EmbeddingError::model_init("ORT profile is not a JSON array of events")),
            Some(values) => {
                let mut events: Vec<ProfileEvent> = Vec::new();
                let mut i: usize = 0;
                while i < values.len()
                    invariant
                        i <= values@.len(),
                        events@.len() == i,
                        forall|k: int| 0 <= k < i ==> (#[trigger] events@[k])@ == event_in(values@[k]),
                    decreases values@.len() - i,
                {
                    events.push(event_of(&values[i]));
                    i += 1;
                }
                assert(event_facts(events@) =~= events_in(values@));
                ProviderCensus::from_events(&events)
            },
        }
    }

    /// The numbers of nodes by provider.
    pub fn per_provider(&self) -> (counts: &Table<usize>)
        ensures
            counts.wf(),
            counts@ == self@,
            counts.keys() == self.providers(),
            counts.values() == self.counts(),
    {
        proof {
            use_type_invariant(self);
        }
        &self.per_provider
    }

    /// How many nodes a provider ran.
    pub fn nodes_on(&self, provider: &str) -> (n: usize)
        ensures
            n == self.on(provider@),
    {
        proof {
            use_type_invariant(self);
        }
        match self.per_provider.get(provider) {
            Some(n) => *n,
            None => 0,
        }
    }

    /// How many nodes all providers ran.
    pub fn total_nodes(&self) -> (n: usize)
        ensures
            n == self.total(),
            n > 0,
    {
        proof {
            use_type_invariant(self);
        }
        let ghost values = self.per_provider.values();
        let mut n: usize = 0;
        let mut i: usize = 0;
        while i < self.per_provider.len()
            invariant
                i <= values.len(),
                values == self.per_provider.values(),
                sum(values) <= usize::MAX,
                n == sum(values.take(i as int)),
            decreases values.len() - i,
        {
            proof {
                sum_of_first(values, i + 1);
                assert(values.take(i + 1).drop_last() =~= values.take(i as int));
            }
            n = n + *self.per_provider.value_at(i);
            i += 1;
        }
        assert(values.take(i as int) =~= values);
        n
    }

    /// The share of the nodes that a provider ran, as a fraction: how many of how
    /// many. The denominator is not zero.
    pub fn share_on(&self, provider: &str) -> (share: (usize, usize))
        ensures
            share.0 == self.on(provider@),
            share.1 == self.total(),
            share.1 > 0,
            share.0 <= share.1,
    {
        proof {
            use_type_invariant(self);
            self.part_of_all(provider@);
        }
        (self.nodes_on(provider), self.total_nodes())
    }

    proof fn part_of_all(&self, provider: Seq<char>)
        requires
            self.wf(),
        ensures
            self.on(provider) <= self.total(),
    {
        if self@.dom().contains(provider) {
            let i = self.per_provider.keys().index_of(provider);
            part_of_sum(self.per_provider.values(), i);
        }
    }

    /// The census in words.
    pub fn to_text(&self) -> (text: String)
        ensures
            text@ == decimal(self.total()) + " nodes: "@ + joined(
                listed(self.providers(), self.counts()),
                ", "@,
            ),
    {
        proof {
            use_type_invariant(self);
        }
        let ghost keys = self.per_provider.keys();
        let ghost values = self.per_provider.values();
        let mut parts: Vec<String> = Vec::new();
        let mut i: usize = 0;
        while i < self.per_provider.len()
            invariant
                i <= keys.len(),
                keys == self.per_provider.keys(),
                values == self.per_provider.values(),
                keys.len() == values.len(),
                parts@.len() == i,
                forall|k: int|
                    0 <= k < i ==> (#[trigger] parts@[k])@ == keys[k] + "="@ + decimal(
                        values[k] as nat,
                    ),
            decreases keys.len() - i,
        {
            let mut part = self.per_provider.key_at(i).clone();
            part.append("=");
            part.append(number(*self.per_provider.value_at(i) as u128).as_str());
            parts.push(part);
            i += 1;
        }
        assert(texts(parts@) =~= listed(keys, values));
        let mut text = number(self.total_nodes() as u128);
        text.append(" nodes: ");
        text.append(join(&parts, ", ").as_str());
        text
    }
}

/// Each provider with its number of nodes.
pub open spec fn listed(providers: Seq<Seq<char>>, counts: Seq<usize>) -> Seq<Seq<char>> {
    Seq::new(providers.len(), |i: int| providers[i] + "="@ + decimal(counts[i] as nat))
}

proof fn placements_of_a_prefix(a: Seq<EventFacts>, b: Seq<EventFacts>, n: nat)
    requires
        n <= a.len(),
    ensures
        placements_of_first(a + b, n) == placements_of_first(a, n),
    decreases n,
{
    if n > 0 {
        placements_of_a_prefix(a, b, (n - 1) as nat);
    }
}

proof fn placement_is_there(events: Seq<EventFacts>, i: int, n: nat)
    requires
        0 <= i < n <= events.len(),
        placement(events[i]) is Some,
    ensures
        placements_of_first(events, n).contains(placement(events[i])->Some_0),
    decreases n,
{
    if i < n - 1 {
        placement_is_there(events, i, (n - 1) as nat);
    }
}

/// How often a graph was run does not show in the census: the events of another run,
/// which tell of nodes that the first told of, add nothing.
pub proof fn runs_are_not_counted(first: Seq<EventFacts>, again: Seq<EventFacts>)
    requires
        forall|i: int|
            0 <= i < again.len() ==> placement(#[trigger] again[i]) is None || exists|j: int|
                0 <= j < first.len() && placement(#[trigger] first[j]) == placement(again[i]),
    ensures
        placements(first + again) == placements(first),
{
    more_runs_add_nothing(first, again, again.len());
}

proof fn more_runs_add_nothing(first: Seq<EventFacts>, again: Seq<EventFacts>, n: nat)
    requires
        n <= again.len(),
        forall|i: int|
            0 <= i < again.len() ==> placement(#[trigger] again[i]) is None || exists|j: int|
                0 <= j < first.len() && placement(#[trigger] first[j]) == placement(again[i]),
    ensures
        placements_of_first(first + again, first.len() + n) == placements(first),
    decreases n,
{
    if n == 0 {
        placements_of_a_prefix(first, again, first.len());
    } else {
        more_runs_add_nothing(first, again, (n - 1) as nat);
        let e = again[n - 1];
        assert((first + again)[first.len() + n - 1] == e);
        if placement(e) is Some {
            let j = choose|j: int|
                0 <= j < first.len() && placement(#[trigger] first[j]) == placement(e);
            placement_is_there(first, j, first.len());
            assert(placements(first).insert(placement(e)->Some_0) =~= placements(first));
        }
    }
}

/// The phases of a node are events of one node.
pub proof fn phases_are_of_one_node(node: Seq<char>)
    ensures
        node_of(node + "_kernel_time"@) == node,
        node_of(node + "_fence_before"@) == node,
        node_of(node + "_fence_after"@) == node,
{
    reveal_strlit("_kernel_time");
    reveal_strlit("_fence_before");
    reveal_strlit("_fence_after");
    let k = "_kernel_time"@;
    let b = "_fence_before"@;
    let a = "_fence_after"@;
    let n = node.len() as int;
    assert((node + k).skip(n) =~= k);
    assert((node + k).take(n) =~= node);
    assert((node + b).skip(n) =~= b);
    assert((node + b).take(n) =~= node);
    assert((node + a).skip(n) =~= a);
    assert((node + a).take(n) =~= node);
    assert((node + b).skip(n + 1)[10] == 'r' && k[10] == 'm');
    assert((node + a).skip((node + a).len() - k.len())[11] == 'r');
    if n > 0 {
        assert((node + a).skip(n - 1)[12] == 'r' && b[12] == 'e');
    }
}

proof fn a_placement_was_told(events: Seq<EventFacts>, n: nat, p: (Seq<char>, Seq<char>)) -> (i: int)
    requires
        n <= events.len(),
        placements_of_first(events, n).contains(p),
    ensures
        0 <= i < n,
        placement(events[i]) == Some(p),
    decreases n,
{
    if placement(events[n - 1]) == Some(p) {
        n - 1
    } else {
        a_placement_was_told(events, (n - 1) as nat, p)
    }
}

/// An event of a node that names a provider counts for that provider, wherever it stands
/// among the events.
pub proof fn every_event_of_a_node_counts(
    events: Seq<EventFacts>,
    i: int,
    name: Seq<char>,
    provider: Seq<char>,
)
    requires
        0 <= i < events.len(),
        events[i].cat == Some("Node"@),
        events[i].name == Some(name),
        events[i].provider == Some(provider),
    ensures
        placements(events).contains((node_of(name), provider)),
{
    placement_is_there(events, i, events.len());
}

/// What counts was told by an event of a node that names the provider: an event of
/// another category, without a name or without a provider counts for nothing.
pub proof fn only_events_of_nodes_count(
    events: Seq<EventFacts>,
    node: Seq<char>,
    provider: Seq<char>,
) -> (i: int)
    requires
        placements(events).contains((node, provider)),
    ensures
        0 <= i < events.len(),
        events[i].cat == Some("Node"@),
        events[i].provider == Some(provider),
        events[i].name is Some,
        events[i].name->Some_0 == node || events[i].name->Some_0 == node + "_kernel_time"@
            || events[i].name->Some_0 == node + "_fence_before"@ || events[i].name->Some_0 == node
            + "_fence_after"@,
{
    let i = a_placement_was_told(events, events.len(), (node, provider));
    let name = events[i].name->Some_0;
    assert(name =~= name.take(name.len() - "_kernel_time"@.len()) + name.skip(
        name.len() - "_kernel_time"@.len(),
    ) || "_kernel_time"@.len() > name.len());
    assert(name =~= name.take(name.len() - "_fence_before"@.len()) + name.skip(
        name.len() - "_fence_before"@.len(),
    ) || "_fence_before"@.len() > name.len());
    assert(name =~= name.take(name.len() - "_fence_after"@.len()) + name.skip(
        name.len() - "_fence_after"@.len(),
    ) || "_fence_after"@.len() > name.len());
    i
}

/// An event in a document has its category and its name among its members, and its
/// provider among those of its arguments.
pub proof fn an_event_is_read_by_its_members(
    value: serde_json::Value,
    args: serde_json::Value,
    cat: serde_json::Value,
    name: serde_json::Value,
    provider: serde_json::Value,
)
    requires
        member(value, "cat"@) == Some(cat),
        member(value, "name"@) == Some(name),
        member(value, "args"@) == Some(args),
        member(args, "provider"@) == Some(provider),
    ensures
        event_in(value).cat == string_in(cat),
        event_in(value).name == string_in(name),
        event_in(value).provider == string_in(provider),
{
}

/// A census is taken of a profile exactly where one of its events is of a node and names a
/// provider; such a provider then has a node at least.
pub proof fn a_census_counts_every_provider(
    events: Vec<ProfileEvent>,
    r: Result<ProviderCensus, EmbeddingError>,
    i: int,
)
    requires
        call_ensures(ProviderCensus::from_events, (&events,), r),
        0 <= i < events@.len(),
        events@[i].cat is Some,
        events@[i].cat->Some_0@ == "Node"@,
        events@[i].name is Some,
        events@[i].provider is Some,
    ensures
        r is Ok,
        r->Ok_0.on(events@[i].provider->Some_0@) >= 1,
{
    let all = event_facts(events@);
    let name = events@[i].name->Some_0@;
    let provider = events@[i].provider->Some_0@;
    assert(all[i] == events@[i]@);
    every_event_of_a_node_counts(all, i, name, provider);
    let nodes = placements(all);
    placements_are_few(all, all.len());
    a_node_counts_for_its_provider(nodes, node_of(name), provider);
    assert(nodes.len() > 0) by {
        if nodes.len() == 0 {
            assert(nodes =~= Set::<(Seq<char>, Seq<char>)>::empty());
        }
    }
    assert(placed_on(nodes, provider) > 0);
}

proof fn a_node_counts_for_its_provider(
    nodes: Set<(Seq<char>, Seq<char>)>,
    node: Seq<char>,
    provider: Seq<char>,
)
    requires
        nodes.finite(),
        nodes.contains((node, provider)),
    ensures
        placed_on(nodes, provider) > 0,
{
    assert forall|p: Seq<char>| p == provider implies #[trigger] placed_on(nodes, p) > 0 by {
        let f = |x: (Seq<char>, Seq<char>)| x.1 == p;
        nodes.lemma_len_filter(f);
        assert(nodes.filter(f).contains((node, provider)));
        if nodes.filter(f).len() == 0 {
            assert(nodes.filter(f) =~= Set::<(Seq<char>, Seq<char>)>::empty());
        }
    }
}

/// A profile none of whose events is of a node with a provider has no census.
pub proof fn a_profile_without_nodes_is_refused(
    events: Vec<ProfileEvent>,
    r: Result<ProviderCensus, EmbeddingError>,
)
    requires
        call_ensures(ProviderCensus::from_events, (&events,), r),
        forall|i: int|
            0 <= i < events@.len() ==> (#[trigger] events@[i]).cat is None
                || events@[i].cat->Some_0@ != "Node"@ || events@[i].name is None
                || events@[i].provider is None,
    ensures
        r is Err,
{
    let all = event_facts(events@);
    assert forall|p: (Seq<char>, Seq<char>)| !placements(all).contains(p) by {
        if placements(all).contains(p) {
            let i = a_placement_was_told(all, all.len(), p);
            assert(all[i] == events@[i]@);
        }
    }
    assert(placements(all) =~= Set::<(Seq<char>, Seq<char>)>::empty());
}

/// A share is what ran on a provider, of all that ran; a provider that ran nothing has
/// none of it.
pub proof fn a_share_is_of_all_nodes(
    census: ProviderCensus,
    provider: &str,
    share: (usize, usize),
    on: usize,
    total: usize,
)
    requires
        call_ensures(ProviderCensus::share_on, (&census, provider), share),
        call_ensures(ProviderCensus::nodes_on, (&census, provider), on),
        call_ensures(ProviderCensus::total_nodes, (&census,), total),
    ensures
        share == (on, total),
        on <= total,
        total > 0,
        !census@.dom().contains(provider@) ==> on == 0,
        census@.dom().contains(provider@) ==> on == census@[provider@],
{
}

} // verus!

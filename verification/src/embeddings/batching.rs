//! How inputs are cut into batches.

use vstd::prelude::*;

use crate::text::{decimal, number};

verus! {

/// A batch: the inputs from `start` up to `end`.
#[derive(Debug, Clone, Copy, PartialEq, Eq, Structural)]
pub struct BatchPlan {
    /// The first input.
    pub start: usize,
    /// The input after the last.
    pub end: usize,
}

/// At least one.
pub open spec fn at_least_one(n: int) -> int {
    if n < 1 {
        1
    } else {
        n
    }
}

/// The length of the longest of the inputs from `s` up to `e`, an empty one counting one.
pub open spec fn widest(lens: Seq<usize>, s: int, e: int) -> int
    decreases e - s,
{
    if e <= s {
        0
    } else {
        let before = widest(lens, s, e - 1);
        let last = at_least_one(lens[e - 1] as int);
        if before < last {
            last
        } else {
            before
        }
    }
}

/// The inputs from `s` up to `e` fit into one batch: into its rows, and padded to
/// the longest into its tokens.
pub open spec fn fits(lens: Seq<usize>, s: int, e: int, max_rows: int, max_tokens: int) -> bool {
    &&& e - s <= at_least_one(max_rows)
    &&& (e - s) * widest(lens, s, e) <= at_least_one(max_tokens)
}

/// The batches stand one after the other, none is empty, and together they are the
/// inputs from zero up to `n`.
pub open spec fn covers(plans: Seq<BatchPlan>, n: int) -> bool {
    &&& plans.len() == 0 <==> n == 0
    &&& plans.len() > 0 ==> plans[0].start == 0 && plans.last().end == n
    &&& forall|k: int| 0 <= k < plans.len() ==> (#[trigger] plans[k]).start < plans[k].end
    &&& forall|j: int, k: int|
        0 <= j < plans.len() - 1 && k == j + 1 ==> (#[trigger] plans[j]).end == (
        #[trigger] plans[k]).start
}

/// The batches of inputs of the given lengths: each takes as many as fit, and at
/// least one.
pub open spec fn is_plan(
    plans: Seq<BatchPlan>,
    lens: Seq<usize>,
    max_rows: int,
    max_tokens: int,
) -> bool {
    &&& covers(plans, lens.len() as int)
    &&& forall|k: int|
        0 <= k < plans.len() ==> (#[trigger] plans[k]).end - plans[k].start == 1 || fits(
            lens,
            plans[k].start as int,
            plans[k].end as int,
            max_rows,
            max_tokens,
        )
    &&& forall|k: int|
        0 <= k < plans.len() - 1 ==> !fits(
            lens,
            (#[trigger] plans[k]).start as int,
            plans[k].end + 1,
            max_rows,
            max_tokens,
        )
}

proof fn widest_grows(lens: Seq<usize>, s: int, e: int, f: int)
    requires
        s <= e <= f,
    ensures
        0 <= widest(lens, s, e) <= widest(lens, s, f),
        e > s ==> widest(lens, s, e) >= 1,
    decreases f - s,
{
    if f > e {
        widest_grows(lens, s, e, f - 1);
    } else if e > s {
        widest_grows(lens, s, e - 1, e - 1);
    }
}

proof fn fits_less(lens: Seq<usize>, s: int, e: int, f: int, max_rows: int, max_tokens: int)
    requires
        s <= e <= f,
        fits(lens, s, f, max_rows, max_tokens),
    ensures
        fits(lens, s, e, max_rows, max_tokens),
{
    widest_grows(lens, s, e, f);
    let a = widest(lens, s, e);
    let b = widest(lens, s, f);
    assert((e - s) * a <= (f - s) * b) by (nonlinear_arith)
        requires
            0 <= e - s <= f - s,
            0 <= a <= b,
    ;
}

/// The lengths that `token_len` gave for the items.
pub open spec fn are_lengths<T, F: Fn(&T) -> usize>(
    items: Seq<T>,
    token_len: F,
    lens: Seq<usize>,
) -> bool {
    lens.len() == items.len() && forall|i: int|
        0 <= i < items.len() ==> call_ensures(token_len, (&items[i],), #[trigger] lens[i])
}

/// Cuts items into batches of at most `max_batch_size` rows whose padded size is at
/// most `max_tokens_per_batch`. A single item makes a batch even where it is too
/// long for one.
pub fn plan_batches<T, F: Fn(&T) -> usize>(
    items: &[T],
    max_batch_size: usize,
    max_tokens_per_batch: usize,
    token_len: F,
) -> (plans: Vec<BatchPlan>)
    requires
        forall|i: int| 0 <= i < items@.len() ==> call_requires(token_len, (&#[trigger] items@[i],)),
    ensures
        exists|lens: Seq<usize>| #[trigger]
            are_lengths(items@, token_len, lens) && is_plan(
                plans@,
                lens,
                max_batch_size as int,
                max_tokens_per_batch as int,
            ),
{
    let mut lens: Vec<usize> = Vec::new();
    let mut i: usize = 0;
    while i < items.len()
        invariant
            i <= items@.len(),
            lens@.len() == i,
            forall|k: int| 0 <= k < items@.len() ==> call_requires(
                token_len,
                (&#[trigger] items@[k],),
            ),
            forall|k: int| 0 <= k < i ==> call_ensures(
                token_len,
                (&items@[k],),
                #[trigger] lens@[k],
            ),
        decreases items@.len() - i,
    {
        let n: usize = token_len(&items[i]);
        lens.push(n);
        i += 1;
    }
    let plans = plan_lengths(&lens, max_batch_size, max_tokens_per_batch);
    assert(are_lengths(items@, token_len, lens@));
    plans
}

/// Cuts inputs of the given lengths into batches.
pub fn plan_lengths(lens: &Vec<usize>, max_batch_size: usize, max_tokens_per_batch: usize) -> (plans:
    Vec<BatchPlan>)
    ensures
        is_plan(plans@, lens@, max_batch_size as int, max_tokens_per_batch as int),
{
    let rows: usize = if max_batch_size < 1 {
        1
    } else {
        max_batch_size
    };
    let tokens: usize = if max_tokens_per_batch < 1 {
        1
    } else {
        max_tokens_per_batch
    };
    let ghost mr = max_batch_size as int;
    let ghost mt = max_tokens_per_batch as int;
    let mut plans: Vec<BatchPlan> = Vec::new();
    let mut start: usize = 0;
    let mut longest: usize = 0;
    let mut i: usize = 0;
    let len: usize = lens.len();
    while i < len
        invariant
            len == lens@.len(),
            start <= i <= len,
            i > 0 ==> start < i,
            rows == at_least_one(mr),
            tokens == at_least_one(mt),
            longest == widest(lens@, start as int, i as int),
            i - start <= rows,
            i - start <= 1 || fits(lens@, start as int, i as int, mr, mt),
            covers(plans@, start as int),
            forall|k: int|
                0 <= k < plans@.len() ==> (#[trigger] plans@[k]).end - plans@[k].start == 1 || fits(
                    lens@,
                    plans@[k].start as int,
                    plans@[k].end as int,
                    mr,
                    mt,
                ),
            forall|k: int|
                0 <= k < plans@.len() ==> !fits(
                    lens@,
                    (#[trigger] plans@[k]).start as int,
                    plans@[k].end + 1,
                    mr,
                    mt,
                ),
        decreases len - i,
    {
        let item: usize = if lens[i] < 1 {
            1
        } else {
            lens[i]
        };
        let count: usize = i - start;
        let wider: usize = if longest < item {
            item
        } else {
            longest
        };
        proof {
            assert(wider == widest(lens@, start as int, i + 1));
            let a = (count + 1) as int;
            let b = wider as int;
            assert(0 <= a * b <= 0x1_0000_0000_0000_0000 * 0xffff_ffff_ffff_ffff) by (nonlinear_arith)
                requires
                    0 <= a <= 0x1_0000_0000_0000_0000,
                    0 <= b <= 0xffff_ffff_ffff_ffff,
            ;
        }
        let padded: u128 = (count as u128 + 1) * (wider as u128);
        let full: bool = count + 1 > rows || padded > tokens as u128;
        if count > 0 && full {
            let ghost held = plans@;
            plans.push(BatchPlan { start, end: i });
            proof {
                assert(!fits(lens@, start as int, i + 1, mr, mt));
                assert(plans@ =~= held.push(BatchPlan { start, end: i }));
                assert(plans@.last().end == i);
            }
            start = i;
            longest = item;
            proof {
                assert(widest(lens@, i as int, i as int) == 0);
                assert(longest == widest(lens@, start as int, i + 1));
            }
        } else {
            longest = wider;
        }
        i += 1;
    }
    if start < len {
        let ghost held = plans@;
        plans.push(BatchPlan { start, end: len });
        assert(plans@ =~= held.push(BatchPlan { start, end: len }));
    }
    plans
}

/// There is only one plan: two plans for the same lengths and limits are the same.
pub proof fn plan_is_determined(
    a: Seq<BatchPlan>,
    b: Seq<BatchPlan>,
    lens: Seq<usize>,
    max_rows: int,
    max_tokens: int,
)
    requires
        is_plan(a, lens, max_rows, max_tokens),
        is_plan(b, lens, max_rows, max_tokens),
    ensures
        a == b,
{
    let n = if a.len() < b.len() {
        a.len()
    } else {
        b.len()
    };
    plans_agree(a, b, lens, max_rows, max_tokens, n as int);
    if a.len() < b.len() && a.len() > 0 {
        assert(a[a.len() - 1] == b[a.len() - 1]);
        assert(b[a.len() as int].start == b[a.len() - 1].end);
        ends_stay_inside(b, lens.len() as int, a.len() as int);
    }
    if b.len() < a.len() && b.len() > 0 {
        assert(a[b.len() - 1] == b[b.len() - 1]);
        assert(a[b.len() as int].start == a[b.len() - 1].end);
        ends_stay_inside(a, lens.len() as int, b.len() as int);
    }
    assert(a =~= b);
}

proof fn ends_stay_inside(plans: Seq<BatchPlan>, n: int, k: int)
    requires
        covers(plans, n),
        0 <= k < plans.len(),
    ensures
        plans[k].end <= n,
    decreases plans.len() - k,
{
    if k < plans.len() - 1 {
        ends_stay_inside(plans, n, k + 1);
        assert(plans[k + 1 - 1].end == plans[k + 1].start);
    }
}

proof fn plans_agree(
    a: Seq<BatchPlan>,
    b: Seq<BatchPlan>,
    lens: Seq<usize>,
    max_rows: int,
    max_tokens: int,
    n: int,
)
    requires
        is_plan(a, lens, max_rows, max_tokens),
        is_plan(b, lens, max_rows, max_tokens),
        0 <= n <= a.len(),
        n <= b.len(),
    ensures
        forall|k: int| 0 <= k < n ==> a[k] == b[k],
    decreases n,
{
    if n > 0 {
        plans_agree(a, b, lens, max_rows, max_tokens, n - 1);
        let k = n - 1;
        if k > 0 {
            assert(a[k - 1] == b[k - 1]);
            assert(a[k].start == a[k - 1].end && b[k].start == b[k - 1].end);
        }
        let x = a[k];
        let y = b[k];
        ends_stay_inside(a, lens.len() as int, k);
        ends_stay_inside(b, lens.len() as int, k);
        none_is_longer(a, lens, max_rows, max_tokens, k, y);
        none_is_longer(b, lens, max_rows, max_tokens, k, x);
    }
}

proof fn none_is_longer(
    a: Seq<BatchPlan>,
    lens: Seq<usize>,
    max_rows: int,
    max_tokens: int,
    k: int,
    y: BatchPlan,
)
    requires
        is_plan(a, lens, max_rows, max_tokens),
        0 <= k < a.len(),
        a[k].start == y.start,
        y.end <= lens.len(),
        y.end - y.start == 1 || fits(lens, y.start as int, y.end as int, max_rows, max_tokens),
    ensures
        y.end <= a[k].end,
{
    if a[k].end < y.end {
        assert(a[k].start < a[k].end);
        assert(k < a.len() - 1);
        fits_less(lens, y.start as int, a[k].end + 1, y.end as int, max_rows, max_tokens);
    }
}

/// Every input stands in exactly one batch.
pub proof fn every_input_stands_in_one_batch(plans: Seq<BatchPlan>, n: int, i: int)
    requires
        covers(plans, n),
        0 <= i < n,
    ensures
        exists|k: int|
            0 <= k < plans.len() && (#[trigger] plans[k]).start <= i < plans[k].end,
        forall|j: int, k: int|
            0 <= j < plans.len() && 0 <= k < plans.len() && (#[trigger] plans[j]).start <= i
                < plans[j].end && (#[trigger] plans[k]).start <= i < plans[k].end ==> j == k,
{
    let last = plans.len() - 1;
    batch_up_to(plans, n, i, last);
    assert forall|j: int, k: int|
        0 <= j < plans.len() && 0 <= k < plans.len() && (#[trigger] plans[j]).start <= i
            < plans[j].end && (#[trigger] plans[k]).start <= i < plans[k].end implies j == k by {
        if j < k {
            starts_ascend(plans, n, j, k);
        } else if k < j {
            starts_ascend(plans, n, k, j);
        }
    }
}

proof fn batch_up_to(plans: Seq<BatchPlan>, n: int, i: int, m: int)
    requires
        covers(plans, n),
        0 <= m < plans.len(),
        0 <= i < plans[m].end,
    ensures
        exists|k: int| 0 <= k <= m && (#[trigger] plans[k]).start <= i < plans[k].end,
    decreases m,
{
    if i < plans[m].start {
        assert(m > 0);
        assert(plans[m - 1].end == plans[m].start);
        batch_up_to(plans, n, i, m - 1);
        let k = choose|k: int| 0 <= k <= m - 1 && (#[trigger] plans[k]).start <= i < plans[k].end;
        assert(plans[k].start <= i < plans[k].end);
    } else {
        assert(plans[m].start <= i < plans[m].end);
    }
}

proof fn starts_ascend(plans: Seq<BatchPlan>, n: int, j: int, k: int)
    requires
        covers(plans, n),
        0 <= j < k < plans.len(),
    ensures
        plans[j].end <= plans[k].start,
    decreases k - j,
{
    assert(plans[k - 1].end == plans[k].start);
    if j < k - 1 {
        starts_ascend(plans, n, j, k - 1);
        assert(plans[k - 1].start < plans[k - 1].end);
    }
}

/// The number of rows of a batch.
#[derive(Debug, Clone, Copy, PartialEq, Eq, Structural, Hash, PartialOrd, Ord)]
pub struct BatchRows(pub usize);

/// The shape that every input of a model has: so many rows of so many tokens.
#[derive(Debug, Clone, Copy, PartialEq, Eq, Structural, Hash)]
pub struct FixedInputShape {
    /// The rows.
    pub rows: BatchRows,
    /// The tokens of a row.
    pub seq_len: usize,
}

/// Who decides on the shape of a batch.
#[derive(Debug, Clone, Copy, PartialEq, Eq, Structural)]
pub enum BatchingPolicy {
    /// The model: it takes exactly so many rows, and fills up the last batch itself.
    FixedByModel(BatchRows),
    /// The indexer: at most so many rows, and at most so many tokens when every row
    /// is padded to the longest.
    ByBudget { max_rows: usize, max_tokens_per_batch: usize },
}

/// Batches of `rows` rows each but for the last, of `n` inputs.
pub open spec fn is_fixed_plan(plans: Seq<BatchPlan>, n: int, rows: int) -> bool {
    &&& covers(plans, n)
    &&& forall|k: int|
        0 <= k < plans.len() - 1 ==> (#[trigger] plans[k]).end - plans[k].start == at_least_one(rows)
    &&& plans.len() > 0 ==> plans.last().end - plans.last().start <= at_least_one(rows)
}

/// Cuts `len` inputs into batches of `rows` rows; all but the last are full.
pub fn plan_fixed_rows(len: usize, rows: usize) -> (plans: Vec<BatchPlan>)
    ensures
        is_fixed_plan(plans@, len as int, rows as int),
{
    let step: usize = if rows < 1 {
        1
    } else {
        rows
    };
    let mut plans: Vec<BatchPlan> = Vec::new();
    let mut start: usize = 0;
    while start < len
        invariant
            start <= len,
            step == at_least_one(rows as int),
            covers(plans@, start as int),
            forall|k: int|
                0 <= k < plans@.len() - 1 ==> (#[trigger] plans@[k]).end - plans@[k].start == step,
            plans@.len() > 0 ==> plans@.last().end - plans@.last().start <= step,
            start < len && plans@.len() > 0 ==> plans@.last().end - plans@.last().start == step,
        decreases len - start,
    {
        let end: usize = if len - start <= step {
            len
        } else {
            start + step
        };
        let ghost held = plans@;
        plans.push(BatchPlan { start, end });
        proof {
            assert(plans@ =~= held.push(BatchPlan { start, end }));
            assert forall|k: int| 0 <= k < plans@.len() - 1 implies (#[trigger] plans@[k]).end
                - plans@[k].start == step by {
                if k == held.len() - 1 {
                    assert(plans@[k] == held.last());
                } else {
                    assert(plans@[k] == held[k]);
                }
            }
        }
        start = end;
    }
    plans
}

/// Only the tail is filled up: in batches of a fixed shape the rows beyond the
/// inputs are fewer than one batch has.
pub proof fn only_the_tail_is_padded(plans: Seq<BatchPlan>, n: int, rows: int)
    requires
        is_fixed_plan(plans, n, rows),
        n > 0,
    ensures
        0 <= at_least_one(rows) * plans.len() - n < at_least_one(rows),
{
    full_batches(plans, n, rows, plans.len() - 1);
    let r = at_least_one(rows);
    let m = plans.len() - 1;
    assert(plans[m].start == m * r);
    assert(r * (m + 1) == m * r + r) by (nonlinear_arith);
    assert(plans[m].start < plans[m].end);
}

proof fn full_batches(plans: Seq<BatchPlan>, n: int, rows: int, k: int)
    requires
        is_fixed_plan(plans, n, rows),
        0 <= k < plans.len(),
    ensures
        plans[k].start == k * at_least_one(rows),
    decreases k,
{
    let r = at_least_one(rows);
    if k > 0 {
        full_batches(plans, n, rows, k - 1);
        assert(plans[k - 1].end == plans[k].start);
        assert((k - 1) * r + r == k * r) by (nonlinear_arith);
    } else {
        assert(0 * r == 0) by (nonlinear_arith);
    }
}

impl BatchingPolicy {
    /// The policy for a model that takes a fixed number of rows, or none. The model's
    /// rows count over the indexer's settings.
    pub fn new(fixed_rows: Option<BatchRows>, max_rows: usize, max_tokens_per_batch: usize) -> (p:
        Self)
        ensures
            p == (match fixed_rows {
                Some(rows) => BatchingPolicy::FixedByModel(rows),
                None => BatchingPolicy::ByBudget {
                    max_rows: at_least_one(max_rows as int) as usize,
                    max_tokens_per_batch: at_least_one(max_tokens_per_batch as int) as usize,
                },
            }),
    {
        match fixed_rows {
            Some(rows) => BatchingPolicy::FixedByModel(rows),
            None => BatchingPolicy::ByBudget {
                max_rows: if max_rows < 1 {
                    1
                } else {
                    max_rows
                },
                max_tokens_per_batch: if max_tokens_per_batch < 1 {
                    1
                } else {
                    max_tokens_per_batch
                },
            },
        }
    }

    /// The rows of a full batch.
    pub fn rows_per_batch(&self) -> (rows: BatchRows)
        ensures
            rows == (match *self {
                BatchingPolicy::FixedByModel(rows) => rows,
                BatchingPolicy::ByBudget { max_rows, .. } => BatchRows(max_rows),
            }),
    {
        match *self {
            BatchingPolicy::FixedByModel(rows) => rows,
            BatchingPolicy::ByBudget { max_rows, .. } => BatchRows(max_rows),
        }
    }

    /// Whether it helps to keep inputs of similar length together. With a fixed shape
    /// it does not: every row is as long as the shape.
    pub fn sorts_by_length(&self) -> (r: bool)
        ensures
            r == (self is ByBudget),
    {
        match *self {
            BatchingPolicy::FixedByModel(_) => false,
            BatchingPolicy::ByBudget { .. } => true,
        }
    }

    /// Cuts items into batches.
    pub fn plan<T, F: Fn(&T) -> usize>(&self, items: &[T], token_len: F) -> (plans: Vec<BatchPlan>)
        requires
            forall|i: int| 0 <= i < items@.len() ==> call_requires(
                token_len,
                (&#[trigger] items@[i],),
            ),
        ensures
            match *self {
                BatchingPolicy::FixedByModel(rows) => is_fixed_plan(
                    plans@,
                    items@.len() as int,
                    rows.0 as int,
                ),
                BatchingPolicy::ByBudget { max_rows, max_tokens_per_batch } => exists|
                    lens: Seq<usize>,
                | #[trigger]
                    are_lengths(items@, token_len, lens) && is_plan(
                        plans@,
                        lens,
                        max_rows as int,
                        max_tokens_per_batch as int,
                    ),
            },
    {
        match *self {
            BatchingPolicy::FixedByModel(rows) => plan_fixed_rows(items.len(), rows.0),
            BatchingPolicy::ByBudget { max_rows, max_tokens_per_batch } => plan_batches(
                items,
                max_rows,
                max_tokens_per_batch,
                token_len,
            ),
        }
    }

    /// The policy as text.
    pub fn to_text(&self) -> (text: String)
        ensures
            text@ == (match *self {
                BatchingPolicy::FixedByModel(rows) => "model-fixed(rows="@ + decimal(rows.0 as nat)
                    + ")"@,
                BatchingPolicy::ByBudget { max_rows, max_tokens_per_batch } => "budget(rows="@
                    + decimal(max_rows as nat) + ",tokens="@ + decimal(max_tokens_per_batch as nat)
                    + ")"@,
            }),
    {
        match *self {
            BatchingPolicy::FixedByModel(rows) => {
                let mut text = "model-fixed(rows=".to_owned();
                text.append(number(rows.0 as u128).as_str());
                text.append(")");
                text
            },
            BatchingPolicy::ByBudget { max_rows, max_tokens_per_batch } => {
                let mut text = "budget(rows=".to_owned();
                text.append(number(max_rows as u128).as_str());
                text.append(",tokens=");
                text.append(number(max_tokens_per_batch as u128).as_str());
                text.append(")");
                text
            },
        }
    }
}

/// With a fixed shape the indexer's settings change nothing: there is one plan for
/// each number of inputs.
pub proof fn fixed_shape_ignores_settings(a: Seq<BatchPlan>, b: Seq<BatchPlan>, n: int, rows: int)
    requires
        is_fixed_plan(a, n, rows),
        is_fixed_plan(b, n, rows),
    ensures
        a == b,
{
    if n > 0 {
        only_the_tail_is_padded(a, n, rows);
        only_the_tail_is_padded(b, n, rows);
        let r = at_least_one(rows);
        let x = a.len() as int;
        let y = b.len() as int;
        assert(x == y) by (nonlinear_arith)
            requires
                r >= 1,
                0 <= r * x - n < r,
                0 <= r * y - n < r,
        ;
        assert forall|k: int| 0 <= k < a.len() implies a[k] == b[k] by {
            full_batches(a, n, rows, k);
            full_batches(b, n, rows, k);
            if k < a.len() - 1 {
                full_batches(a, n, rows, k + 1);
                full_batches(b, n, rows, k + 1);
                assert(a[k + 1 - 1].end == a[k + 1].start);
                assert(b[k + 1 - 1].end == b[k + 1].start);
            }
        }
    }
    assert(a =~= b);
}

proof fn widest_is(lens: Seq<usize>, s: int, e: int)
    requires
        s <= e,
    ensures
        forall|i: int| s <= i < e ==> (#[trigger] lens[i]) <= widest(lens, s, e),
        widest(lens, s, e) > 1 ==> exists|i: int| s <= i < e && (#[trigger] lens[i]) == widest(lens, s, e),
        e > s ==> widest(lens, s, e) >= 1,
    decreases e - s,
{
    if s < e {
        widest_is(lens, s, e - 1);
        let last = lens[e - 1];
        if widest(lens, s, e) > 1 && widest(lens, s, e) == widest(lens, s, e - 1) && last
            != widest(lens, s, e) {
            let i = choose|i: int|
                s <= i < e - 1 && (#[trigger] lens[i]) == widest(lens, s, e - 1);
            assert(lens[i] == widest(lens, s, e));
        }
    }
}

/// No batch is over its limits, unless it is a single input: it has at most the rows that
/// are allowed, and as many rows as it has, each as long as any of its inputs, are at most
/// the tokens that are allowed. A limit of zero counts as one.
pub proof fn a_batch_keeps_its_limits(
    plans: Seq<BatchPlan>,
    lens: Seq<usize>,
    max_rows: int,
    max_tokens: int,
    k: int,
    i: int,
)
    requires
        is_plan(plans, lens, max_rows, max_tokens),
        0 <= k < plans.len(),
        plans[k].start <= i < plans[k].end,
        max_rows >= 0,
        max_tokens >= 0,
    ensures
        plans[k].end <= lens.len(),
        plans[k].end - plans[k].start == 1 || plans[k].end - plans[k].start <= max_rows,
        plans[k].end - plans[k].start == 1 || (plans[k].end - plans[k].start) * lens[i]
            <= max_tokens,
{
    let s = plans[k].start as int;
    let e = plans[k].end as int;
    ends_stay_inside(plans, lens.len() as int, k);
    if e - s > 1 {
        widest_is(lens, s, e);
        let w = widest(lens, s, e);
        let l = lens[i] as int;
        assert((e - s) * l <= (e - s) * w) by (nonlinear_arith)
            requires
                0 <= l <= w,
                e - s > 1,
        ;
        assert((e - s) * w >= 2) by (nonlinear_arith)
            requires
                e - s > 1,
                w >= 1,
        ;
    }
}

/// No batch ends early: with the next input it would have more rows than are allowed, or
/// as many rows as it then had, each as long as the longest, would be more tokens than
/// are allowed. An empty input counts as long as one token.
pub proof fn a_batch_is_full(
    plans: Seq<BatchPlan>,
    lens: Seq<usize>,
    max_rows: int,
    max_tokens: int,
    k: int,
)
    requires
        is_plan(plans, lens, max_rows, max_tokens),
        0 <= k < plans.len() - 1,
        max_rows >= 1,
        max_tokens >= 1,
    ensures
        plans[k].end < lens.len(),
        plans[k].end + 1 - plans[k].start > max_rows || plans[k].end + 1 - plans[k].start
            > max_tokens || exists|i: int|
            plans[k].start <= i <= plans[k].end && (plans[k].end + 1 - plans[k].start)
                * #[trigger] lens[i] > max_tokens,
{
    let s = plans[k].start as int;
    let e = plans[k].end + 1;
    assert(plans[k].end == plans[k + 1].start);
    ends_stay_inside(plans, lens.len() as int, k + 1);
    widest_is(lens, s, e);
    let w = widest(lens, s, e);
    assert(!fits(lens, s, e, max_rows, max_tokens));
    if w == 1 {
        assert((e - s) * w == e - s) by (nonlinear_arith)
            requires
                w == 1,
        ;
    } else {
        let i = choose|i: int| s <= i < e && (#[trigger] lens[i]) == w;
        assert((e - s) * lens[i] == (e - s) * w);
    }
}

/// The batches of a fixed shape: the one at `k` holds the inputs from `k` times the rows
/// up to the next one, and only the last one may hold fewer. Zero rows count as one.
pub proof fn fixed_batches_follow_their_rows(plans: Seq<BatchPlan>, n: int, rows: int, k: int)
    requires
        is_fixed_plan(plans, n, rows),
        0 <= k < plans.len(),
        rows >= 1,
    ensures
        plans[k].start == k * rows,
        plans[k].end == (if (k + 1) * rows <= n {
            (k + 1) * rows
        } else {
            n
        }),
        k == plans.len() - 1 <==> (k + 1) * rows >= n,
{
    full_batches(plans, n, rows, k);
    assert((k + 1) * rows == k * rows + rows) by (nonlinear_arith);
    if k < plans.len() - 1 {
        full_batches(plans, n, rows, k + 1);
        assert(plans[k + 1 - 1].end == plans[k + 1].start);
        ends_stay_inside(plans, n, k + 1);
        assert(plans[k + 1].start < plans[k + 1].end);
    } else {
        only_the_tail_is_padded(plans, n, rows);
        assert(rows * plans.len() == (k + 1) * rows) by (nonlinear_arith)
            requires
                plans.len() == k + 1,
        ;
    }
}

/// A model that fixes its rows gets them, whatever the budget is; else the budget holds,
/// and each of its limits is one at least. Only inputs under a budget are sorted.
pub proof fn a_model_fixes_its_rows(
    fixed: Option<BatchRows>,
    max_rows: usize,
    max_tokens: usize,
    p: BatchingPolicy,
    rows: BatchRows,
    sorts: bool,
)
    requires
        call_ensures(BatchingPolicy::new, (fixed, max_rows, max_tokens), p),
        call_ensures(BatchingPolicy::rows_per_batch, (&p,), rows),
        call_ensures(BatchingPolicy::sorts_by_length, (&p,), sorts),
    ensures
        fixed is Some ==> rows == fixed->Some_0 && !sorts,
        fixed is None ==> sorts && rows.0 >= 1 && (max_rows >= 1 ==> rows.0 == max_rows),
        fixed is None ==> p is ByBudget && p->max_tokens_per_batch >= 1 && (max_tokens >= 1
            ==> p->max_tokens_per_batch == max_tokens),
{
}

} // verus!

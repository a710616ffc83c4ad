//! Which compiled kernels are dropped to keep their cache under its cap.
//!
//! Kernels are compiled for a shape of the input, one directory for each. The
//! shapes that were used longest ago are dropped first.

use vstd::prelude::*;

use crate::embeddings::error::{EmbeddingError, EmbeddingFailure};
use crate::paths::{
    components, components_precede, components_precede_irreflexive, components_precede_total,
    components_precede_transitive, join, joined_path, path_before, path_precedes,
    path_precedes_asymmetric, same_path,
};
use crate::text::{
    a_number_is_read_between_white_space, chars_of, decimal, decimal_reads_back, is_digit, is_space,
    parse_u64, parsed, text_of, trim, trimmed, white_space_around_does_not_count,
    white_space_is_blank,
};

verus! {

/// The file whose time says when a shape was last used.
pub const LAST_USED_MARKER: &'static str = ".last-used";

/// The variable that sets the cap.
pub const CAP_ENV: &'static str = "RMC_MIGRAPHX_KERNEL_CACHE_MAX_BYTES";

/// The cap where nothing sets it: one gibibyte.
pub const DEFAULT_CAP_BYTES: u64 = 1073741824;

/// The kernels of one shape.
#[derive(Debug, Clone, PartialEq, Eq)]
pub struct CachedShape {
    /// Their directory.
    pub path: String,
    /// Their size.
    pub bytes: u64,
    /// When they were last used, in nanoseconds since 1970.
    pub last_used: i128,
}

/// What is dropped and what is left.
#[derive(Debug, Clone, PartialEq, Eq)]
pub struct EvictionPlan {
    /// The directories to drop, those used longest ago first.
    pub remove: Vec<String>,
    /// How many bytes are left then.
    pub bytes_after: u64,
    /// Whether that is still over the cap: all else is dropped, and the shape in use
    /// alone is too large.
    pub still_over_cap: bool,
}

/// The bytes of the first `n` shapes.
pub open spec fn bytes_of_first(shapes: Seq<CachedShape>, n: nat) -> nat
    decreases n,
{
    if n == 0 || n > shapes.len() {
        0
    } else {
        bytes_of_first(shapes, (n - 1) as nat) + shapes[n - 1].bytes as nat
    }
}

/// The bytes of all shapes.
pub open spec fn total_bytes(shapes: Seq<CachedShape>) -> nat {
    bytes_of_first(shapes, shapes.len())
}

/// The shape at `i` may be dropped.
pub open spec fn is_candidate(shapes: Seq<CachedShape>, keep: Seq<char>, i: int) -> bool {
    0 <= i < shapes.len() && components(shapes[i].path@) != components(keep)
}

/// The shape at `i` is dropped before the one at `j`: it was used longer ago, or at
/// the same time and its path comes first, or these are the same too and it stands
/// first.
pub open spec fn goes_before(shapes: Seq<CachedShape>, i: int, j: int) -> bool {
    let a = shapes[i];
    let b = shapes[j];
    ||| a.last_used < b.last_used
    ||| a.last_used == b.last_used && path_precedes(a.path@, b.path@)
    ||| a.last_used == b.last_used && !path_precedes(a.path@, b.path@) && !path_precedes(
        b.path@,
        a.path@,
    ) && i < j
}

/// The bytes of the shapes at these positions.
pub open spec fn bytes_at(shapes: Seq<CachedShape>, gone: Seq<int>) -> nat
    decreases gone.len(),
{
    if gone.len() == 0 {
        0
    } else {
        bytes_at(shapes, gone.drop_last()) + shapes[gone.last()].bytes as nat
    }
}

/// `gone` are the shapes that are dropped, in their order: those used longest ago,
/// and only while what is left is over the cap.
pub open spec fn is_dropped(
    shapes: Seq<CachedShape>,
    keep: Seq<char>,
    cap: u64,
    gone: Seq<int>,
) -> bool {
    &&& forall|k: int| 0 <= k < gone.len() ==> is_candidate(shapes, keep, #[trigger] gone[k])
    &&& forall|j: int, k: int|
        0 <= j < k < gone.len() ==> goes_before(shapes, #[trigger] gone[j], #[trigger] gone[k])
    &&& forall|i: int, k: int|
        #![trigger is_candidate(shapes, keep, i), gone[k]]
        is_candidate(shapes, keep, i) && 0 <= k < gone.len() && goes_before(shapes, i, gone[k])
            ==> gone.contains(i)
    &&& gone.len() > 0 ==> cap > 0 && total_bytes(shapes) - bytes_at(shapes, gone.drop_last()) > cap
    &&& cap > 0 && total_bytes(shapes) - bytes_at(shapes, gone) > cap ==> forall|i: int|
        #[trigger] is_candidate(shapes, keep, i) ==> gone.contains(i)
}

/// `plan` is the plan that drops the shapes at `gone`.
pub open spec fn is_eviction(
    shapes: Seq<CachedShape>,
    keep: Seq<char>,
    cap: u64,
    plan: EvictionPlan,
    gone: Seq<int>,
) -> bool {
    &&& is_dropped(shapes, keep, cap, gone)
    &&& plan.remove@.len() == gone.len()
    &&& forall|k: int| 0 <= k < gone.len() ==> (#[trigger] plan.remove@[k])@ == shapes[gone[k]].path@
    &&& plan.bytes_after == total_bytes(shapes) - bytes_at(shapes, gone)
    &&& plan.still_over_cap == (cap > 0 && plan.bytes_after > cap)
}

proof fn goes_before_is_strict(shapes: Seq<CachedShape>, i: int, j: int)
    requires
        goes_before(shapes, i, j),
    ensures
        !goes_before(shapes, j, i),
        i != j,
{
    let a = shapes[i];
    let b = shapes[j];
    if path_precedes(a.path@, b.path@) {
        path_precedes_asymmetric(a.path@, b.path@);
    }
    if path_precedes(b.path@, a.path@) {
        path_precedes_asymmetric(b.path@, a.path@);
    }
}

proof fn goes_before_is_total(shapes: Seq<CachedShape>, i: int, j: int)
    requires
        i != j,
    ensures
        goes_before(shapes, i, j) || goes_before(shapes, j, i),
{
}

proof fn goes_before_is_transitive(shapes: Seq<CachedShape>, i: int, j: int, k: int)
    requires
        goes_before(shapes, i, j),
        goes_before(shapes, j, k),
    ensures
        goes_before(shapes, i, k),
{
    let a = components(shapes[i].path@);
    let b = components(shapes[j].path@);
    let c = components(shapes[k].path@);
    if components_precede(a, b) && components_precede(b, c) {
        components_precede_transitive(a, b, c);
    }
    if a != b {
        components_precede_total(a, b);
    }
    if b != c {
        components_precede_total(b, c);
    }
    components_precede_irreflexive(a);
    components_precede_irreflexive(b);
    components_precede_irreflexive(c);
}

fn goes_first(shapes: &Vec<CachedShape>, i: usize, j: usize) -> (r: bool)
    requires
        i < shapes@.len(),
        j < shapes@.len(),
    ensures
        r == goes_before(shapes@, i as int, j as int),
{
    let a = &shapes[i];
    let b = &shapes[j];
    if a.last_used != b.last_used {
        return a.last_used < b.last_used;
    }
    if path_before(a.path.as_str(), b.path.as_str()) {
        return true;
    }
    !path_before(b.path.as_str(), a.path.as_str()) && i < j
}

/// The bytes of those of the first `n` shapes that are not removed.
spec fn bytes_kept(shapes: Seq<CachedShape>, removed: Seq<bool>, n: nat) -> nat
    decreases n,
{
    if n == 0 {
        0
    } else {
        bytes_kept(shapes, removed, (n - 1) as nat) + (if removed[n - 1] {
            0
        } else {
            shapes[n - 1].bytes as nat
        })
    }
}

proof fn bytes_kept_at_first(shapes: Seq<CachedShape>, removed: Seq<bool>, n: nat)
    requires
        n <= shapes.len(),
        removed.len() == shapes.len(),
        forall|i: int| 0 <= i < removed.len() ==> !removed[i],
    ensures
        bytes_kept(shapes, removed, n) == bytes_of_first(shapes, n),
    decreases n,
{
    if n > 0 {
        bytes_kept_at_first(shapes, removed, (n - 1) as nat);
    }
}

proof fn bytes_kept_after(shapes: Seq<CachedShape>, removed: Seq<bool>, n: nat, at: int)
    requires
        n <= shapes.len(),
        removed.len() == shapes.len(),
        0 <= at < removed.len(),
        !removed[at],
    ensures
        bytes_kept(shapes, removed.update(at, true), n) == bytes_kept(shapes, removed, n) - (if at
            < n {
            shapes[at].bytes as int
        } else {
            0
        }),
    decreases n,
{
    if n > 0 {
        bytes_kept_after(shapes, removed, (n - 1) as nat, at);
    }
}

fn total(shapes: &Vec<CachedShape>) -> (n: u64)
    requires
        total_bytes(shapes@) <= u64::MAX,
    ensures
        n == total_bytes(shapes@),
{
    let mut n: u64 = 0;
    let mut i: usize = 0;
    while i < shapes.len()
        invariant
            i <= shapes@.len(),
            total_bytes(shapes@) <= u64::MAX,
            n == bytes_of_first(shapes@, i as nat),
        decreases shapes@.len() - i,
    {
        proof {
            bytes_grow(shapes@, (i + 1) as nat);
        }
        n = n + shapes[i].bytes;
        i += 1;
    }
    n
}

proof fn bytes_grow(shapes: Seq<CachedShape>, n: nat)
    requires
        n <= shapes.len(),
    ensures
        bytes_of_first(shapes, n) <= total_bytes(shapes),
    decreases shapes.len() - n,
{
    if n < shapes.len() {
        bytes_grow(shapes, n + 1);
    }
}

/// The candidate that is dropped next, of those that are not removed.
fn next_to_go(shapes: &Vec<CachedShape>, keep: &str, removed: &Vec<bool>) -> (r: Option<usize>)
    requires
        removed@.len() == shapes@.len(),
    ensures
        match r {
            None => forall|i: int| #[trigger]
                is_candidate(shapes@, keep@, i) ==> removed@[i],
            Some(b) => {
                &&& is_candidate(shapes@, keep@, b as int)
                &&& !removed@[b as int]
                &&& forall|i: int| #[trigger]
                    is_candidate(shapes@, keep@, i) && !removed@[i] ==> !goes_before(
                        shapes@,
                        i,
                        b as int,
                    )
            },
        },
{
    let mut best: Option<usize> = None;
    let mut i: usize = 0;
    while i < shapes.len()
        invariant
            i <= shapes@.len(),
            removed@.len() == shapes@.len(),
            match best {
                None => forall|k: int| #[trigger]
                    is_candidate(shapes@, keep@, k) && k < i ==> removed@[k],
                Some(b) => {
                    &&& b < i
                    &&& is_candidate(shapes@, keep@, b as int)
                    &&& !removed@[b as int]
                    &&& forall|k: int| #[trigger]
                        is_candidate(shapes@, keep@, k) && k < i && !removed@[k] ==> !goes_before(
                            shapes@,
                            k,
                            b as int,
                        )
                },
            },
        decreases shapes@.len() - i,
    {
        if !removed[i] && !same_path(shapes[i].path.as_str(), keep) {
            assert(is_candidate(shapes@, keep@, i as int));
            match best {
                None => {
                    best = Some(i);
                    proof {
                        if goes_before(shapes@, i as int, i as int) {
                            goes_before_is_strict(shapes@, i as int, i as int);
                        }
                    }
                },
                Some(b) => {
                    if goes_first(shapes, i, b) {
                        proof {
                            assert forall|k: int| #[trigger]
                                is_candidate(shapes@, keep@, k) && k < i + 1
                                    && !removed@[k] implies !goes_before(shapes@, k, i as int) by {
                                if goes_before(shapes@, k, i as int) {
                                    goes_before_is_strict(shapes@, k, i as int);
                                    goes_before_is_transitive(shapes@, k, i as int, b as int);
                                }
                            }
                        }
                        best = Some(i);
                    }
                },
            }
        }
        i += 1;
    }
    best
}

/// Plans which shapes are dropped: those used longest ago, until what is left is
/// within the cap. The shape at `keep` is in use and is never dropped. A cap of zero
/// drops nothing.
pub fn plan_eviction(shapes: &Vec<CachedShape>, keep: &str, cap_bytes: u64) -> (plan: EvictionPlan)
    requires
        total_bytes(shapes@) <= u64::MAX,
    ensures
        exists|gone: Seq<int>| is_eviction(shapes@, keep@, cap_bytes, plan, gone),
{
    let all: u64 = total(shapes);
    let ghost mut gone: Seq<int> = Seq::empty();
    if cap_bytes == 0 || all <= cap_bytes {
        let plan = EvictionPlan { remove: Vec::new(), bytes_after: all, still_over_cap: false };
        assert(is_eviction(shapes@, keep@, cap_bytes, plan, gone));
        return plan;
    }
    let mut removed: Vec<bool> = Vec::new();
    let mut i: usize = 0;
    while i < shapes.len()
        invariant
            i <= shapes@.len(),
            removed@.len() == i,
            forall|k: int| 0 <= k < i ==> !removed@[k],
        decreases shapes@.len() - i,
    {
        removed.push(false);
        i += 1;
    }
    let mut remaining: u64 = all;
    let mut remove: Vec<String> = Vec::new();
    let mut more: bool = true;
    let mut left: usize = shapes.len();
    proof {
        bytes_kept_at_first(shapes@, removed@, shapes@.len());
    }
    while more && remaining > cap_bytes
        invariant
            cap_bytes > 0,
            all == total_bytes(shapes@),
            removed@.len() == shapes@.len(),
            left + gone.len() == shapes@.len(),
            gone.no_duplicates(),
            remaining == bytes_kept(shapes@, removed@, shapes@.len()),
            remaining == all - bytes_at(shapes@, gone),
            remove@.len() == gone.len(),
            forall|k: int|
                0 <= k < gone.len() ==> (#[trigger] remove@[k])@ == shapes@[gone[k]].path@,
            forall|k: int| 0 <= k < removed@.len() ==> #[trigger] removed@[k] == gone.contains(k),
            forall|k: int| 0 <= k < gone.len() ==> is_candidate(shapes@, keep@, #[trigger] gone[k]),
            forall|j: int, k: int|
                0 <= j < k < gone.len() ==> goes_before(
                    shapes@,
                    #[trigger] gone[j],
                    #[trigger] gone[k],
                ),
            forall|j: int, k: int|
                #![trigger is_candidate(shapes@, keep@, j), gone[k]]
                is_candidate(shapes@, keep@, j) && 0 <= k < gone.len() && goes_before(
                    shapes@,
                    j,
                    gone[k],
                ) ==> gone.contains(j),
            gone.len() > 0 ==> all - bytes_at(shapes@, gone.drop_last()) > cap_bytes,
            !more ==> forall|k: int| #[trigger]
                is_candidate(shapes@, keep@, k) ==> gone.contains(k),
        decreases left, more as nat,
    {
        match next_to_go(shapes, keep, &removed) {
            None => {
                more = false;
            },
            Some(b) => {
                let ghost held = gone;
                proof {
                    bytes_kept_after(shapes@, removed@, shapes@.len(), b as int);
                    assert(!held.contains(b as int));
                    distinct_positions(held.push(b as int), shapes@.len() as int);
                }
                remaining = remaining - shapes[b].bytes;
                remove.push(shapes[b].path.clone());
                removed.set(b, true);
                left = left - 1;
                proof {
                    gone = held.push(b as int);
                    assert(gone.drop_last() =~= held);
                    assert forall|j: int, k: int| 0 <= j < k < gone.len() implies goes_before(
                        shapes@,
                        #[trigger] gone[j],
                        #[trigger] gone[k],
                    ) by {
                        if k == held.len() {
                            assert(gone[j] == held[j]);
                            assert(is_candidate(shapes@, keep@, b as int));
                            if goes_before(shapes@, b as int, held[j]) {
                                assert(held.contains(b as int));
                            }
                            if held[j] == b {
                                assert(held.contains(held[j]));
                            }
                            goes_before_is_total(shapes@, held[j], b as int);
                        } else {
                            assert(gone[j] == held[j] && gone[k] == held[k]);
                        }
                    }
                    assert forall|j: int| held.contains(j) implies gone.contains(j) by {
                        assert(gone[held.index_of(j)] == j);
                    }
                    assert(gone[held.len() as int] == b);
                    assert forall|j: int, k: int|
                        #![trigger is_candidate(shapes@, keep@, j), gone[k]]
                        is_candidate(shapes@, keep@, j) && 0 <= k < gone.len() && goes_before(
                            shapes@,
                            j,
                            gone[k],
                        ) implies gone.contains(j) by {
                        if k == held.len() {
                            if !held.contains(j) {
                                assert(!removed@[j] || j == b);
                            }
                        } else {
                            assert(gone[k] == held[k]);
                        }
                    }
                    assert forall|k: int| 0 <= k < removed@.len() implies #[trigger] removed@[k]
                        == gone.contains(k) by {
                        if gone.contains(k) && k != b {
                            let h = gone.index_of(k);
                            assert(held[h] == k);
                        }
                    }
                }
            },
        }
    }
    let plan = EvictionPlan {
        remove,
        bytes_after: remaining,
        still_over_cap: remaining > cap_bytes,
    };
    assert(is_eviction(shapes@, keep@, cap_bytes, plan, gone));
    plan
}

proof fn distinct_positions(s: Seq<int>, n: int)
    requires
        0 <= n,
        s.no_duplicates(),
        forall|k: int| 0 <= k < s.len() ==> 0 <= #[trigger] s[k] < n,
    ensures
        s.len() <= n,
{
    s.unique_seq_to_set();
    let all = vstd::set_lib::set_int_range(0, n);
    vstd::set_lib::lemma_int_range(0, n);
    assert(s.to_set().subset_of(all)) by {
        assert forall|x: int| s.to_set().contains(x) implies all.contains(x) by {
            let k = s.index_of(x);
            assert(s[k] == x);
        }
    }
    vstd::set_lib::lemma_len_subset(s.to_set(), all);
}

/// The shape in use is never dropped.
pub proof fn the_shape_in_use_stays(
    shapes: Seq<CachedShape>,
    keep: Seq<char>,
    cap: u64,
    plan: EvictionPlan,
    gone: Seq<int>,
    k: int,
)
    requires
        is_eviction(shapes, keep, cap, plan, gone),
        0 <= k < plan.remove@.len(),
    ensures
        components(plan.remove@[k]@) != components(keep),
{
    assert(is_candidate(shapes, keep, gone[k]));
}

/// There is one plan: what is dropped, and in which order, is determined.
pub proof fn eviction_is_determined(
    shapes: Seq<CachedShape>,
    keep: Seq<char>,
    cap: u64,
    a: Seq<int>,
    b: Seq<int>,
)
    requires
        is_dropped(shapes, keep, cap, a),
        is_dropped(shapes, keep, cap, b),
    ensures
        a == b,
{
    let n = if a.len() < b.len() {
        a.len()
    } else {
        b.len()
    };
    drops_agree(shapes, keep, cap, a, b, n as int);
    if a.len() < b.len() {
        shorter_is_not_enough(shapes, keep, cap, a, b);
    } else if b.len() < a.len() {
        shorter_is_not_enough(shapes, keep, cap, b, a);
    }
    assert(a =~= b);
}

proof fn drops_agree(
    shapes: Seq<CachedShape>,
    keep: Seq<char>,
    cap: u64,
    a: Seq<int>,
    b: Seq<int>,
    n: int,
)
    requires
        is_dropped(shapes, keep, cap, a),
        is_dropped(shapes, keep, cap, b),
        0 <= n <= a.len(),
        n <= b.len(),
    ensures
        forall|k: int| 0 <= k < n ==> a[k] == b[k],
    decreases n,
{
    if n > 0 {
        drops_agree(shapes, keep, cap, a, b, n - 1);
        let k = n - 1;
        if a[k] != b[k] {
            goes_before_is_total(shapes, a[k], b[k]);
            if goes_before(shapes, a[k], b[k]) {
                first_is_missing(shapes, keep, cap, a, b, k);
            } else {
                first_is_missing(shapes, keep, cap, b, a, k);
            }
        }
    }
}

proof fn first_is_missing(
    shapes: Seq<CachedShape>,
    keep: Seq<char>,
    cap: u64,
    a: Seq<int>,
    b: Seq<int>,
    k: int,
)
    requires
        is_dropped(shapes, keep, cap, a),
        is_dropped(shapes, keep, cap, b),
        0 <= k < a.len(),
        k < b.len(),
        forall|i: int| 0 <= i < k ==> a[i] == b[i],
    ensures
        !goes_before(shapes, a[k], b[k]),
{
    if goes_before(shapes, a[k], b[k]) {
        assert(is_candidate(shapes, keep, a[k]));
        assert(b.contains(a[k]));
        let j = b.index_of(a[k]);
        if j < k {
            assert(a[j] == a[k]);
            assert(goes_before(shapes, a[j], a[k]));
            goes_before_is_strict(shapes, a[j], a[k]);
        } else if j > k {
            assert(goes_before(shapes, b[k], b[j]));
            goes_before_is_strict(shapes, b[k], b[j]);
        } else {
            goes_before_is_strict(shapes, a[k], b[k]);
        }
    }
}

proof fn shorter_is_not_enough(
    shapes: Seq<CachedShape>,
    keep: Seq<char>,
    cap: u64,
    a: Seq<int>,
    b: Seq<int>,
)
    requires
        is_dropped(shapes, keep, cap, a),
        is_dropped(shapes, keep, cap, b),
        forall|k: int| 0 <= k < a.len() && k < b.len() ==> a[k] == b[k],
    ensures
        a.len() >= b.len(),
{
    if a.len() < b.len() {
        bytes_at_grow(shapes, b, a.len() as int);
        assert(b.take(a.len() as int) =~= a);
        let x = b[a.len() as int];
        assert(is_candidate(shapes, keep, x));
        assert(a.contains(x));
        let j = a.index_of(x);
        assert(b[j] == x);
        assert(goes_before(shapes, b[j], b[a.len() as int]));
        goes_before_is_strict(shapes, b[j], b[a.len() as int]);
    }
}

proof fn bytes_at_grow(shapes: Seq<CachedShape>, gone: Seq<int>, n: int)
    requires
        0 <= n < gone.len(),
    ensures
        bytes_at(shapes, gone.take(n)) <= bytes_at(shapes, gone.drop_last()),
    decreases gone.len() - n,
{
    if n < gone.len() - 1 {
        bytes_at_grow(shapes, gone, n + 1);
        assert(gone.take(n + 1).drop_last() =~= gone.take(n));
    } else {
        assert(gone.take(n) =~= gone.drop_last());
    }
}

/// What is compared of a shape.
pub struct ShapeFacts {
    /// Its directory.
    pub path: Seq<char>,
    /// Its size.
    pub bytes: u64,
    /// When it was last used.
    pub last_used: i128,
}

impl View for CachedShape {
    type V = ShapeFacts;

    open spec fn view(&self) -> ShapeFacts {
        ShapeFacts { path: self.path@, bytes: self.bytes, last_used: self.last_used }
    }
}

/// What is compared of these shapes.
pub open spec fn facts(shapes: Seq<CachedShape>) -> Seq<ShapeFacts> {
    Seq::new(shapes.len(), |i: int| shapes[i]@)
}

/// No two shapes have the same directory.
pub open spec fn paths_differ(shapes: Seq<CachedShape>) -> bool {
    forall|i: int, j: int|
        0 <= i < j < shapes.len() ==> components((#[trigger] shapes[i]).path@) != components(
            (#[trigger] shapes[j]).path@,
        )
}

/// What is dropped does not depend on the order in which the shapes are listed, also
/// where some were last used at the same time.
pub proof fn eviction_ignores_the_listing(
    a: Seq<CachedShape>,
    b: Seq<CachedShape>,
    keep: Seq<char>,
    cap: u64,
    gone_a: Seq<int>,
    gone_b: Seq<int>,
)
    requires
        facts(a).to_multiset() == facts(b).to_multiset(),
        paths_differ(a),
        paths_differ(b),
        is_dropped(a, keep, cap, gone_a),
        is_dropped(b, keep, cap, gone_b),
    ensures
        gone_a.len() == gone_b.len(),
        forall|k: int| 0 <= k < gone_a.len() ==> a[#[trigger] gone_a[k]]@ == b[gone_b[k]]@,
        total_bytes(a) - bytes_at(a, gone_a) == total_bytes(b) - bytes_at(b, gone_b),
{
    let n = if gone_a.len() < gone_b.len() {
        gone_a.len()
    } else {
        gone_b.len()
    };
    listings_agree(a, b, keep, cap, gone_a, gone_b, n as int);
    totals_agree(a, b);
    if gone_a.len() < gone_b.len() {
        listings_are_as_long(a, b, keep, cap, gone_a, gone_b);
    } else if gone_b.len() < gone_a.len() {
        listings_are_as_long(b, a, keep, cap, gone_b, gone_a);
    }
    same_bytes_at(a, b, gone_a, gone_b);
}

proof fn same_bytes_at(
    a: Seq<CachedShape>,
    b: Seq<CachedShape>,
    gone_a: Seq<int>,
    gone_b: Seq<int>,
)
    requires
        gone_a.len() == gone_b.len(),
        forall|k: int| 0 <= k < gone_a.len() ==> a[#[trigger] gone_a[k]]@ == b[gone_b[k]]@,
    ensures
        bytes_at(a, gone_a) == bytes_at(b, gone_b),
    decreases gone_a.len(),
{
    if gone_a.len() > 0 {
        let n = gone_a.len() - 1;
        assert(a[gone_a[n]]@ == b[gone_b[n]]@);
        assert forall|k: int| 0 <= k < n implies a[#[trigger] gone_a.drop_last()[k]]@
            == b[gone_b.drop_last()[k]]@ by {
            assert(a[gone_a[k]]@ == b[gone_b[k]]@);
        }
        same_bytes_at(a, b, gone_a.drop_last(), gone_b.drop_last());
    }
}

/// The position at which `b` lists the shape that `a` lists at `i`.
proof fn counterpart(a: Seq<CachedShape>, b: Seq<CachedShape>, i: int) -> (j: int)
    requires
        facts(a).to_multiset() == facts(b).to_multiset(),
        0 <= i < a.len(),
    ensures
        0 <= j < b.len(),
        b[j]@ == a[i]@,
{
    broadcast use vstd::seq_lib::group_to_multiset_ensures;

    let x = facts(a)[i];
    assert(facts(a).contains(x));
    assert(facts(a).to_multiset().contains(x));
    assert(facts(b).contains(x));
    facts(b).index_of(x)
}

spec fn sum_of(s: Seq<ShapeFacts>) -> nat
    decreases s.len(),
{
    if s.len() == 0 {
        0
    } else {
        sum_of(s.drop_last()) + s.last().bytes as nat
    }
}

proof fn sum_without(s: Seq<ShapeFacts>, i: int)
    requires
        0 <= i < s.len(),
    ensures
        sum_of(s.remove(i)) + s[i].bytes == sum_of(s),
    decreases s.len(),
{
    if i < s.len() - 1 {
        sum_without(s.drop_last(), i);
        assert(s.remove(i).drop_last() =~= s.drop_last().remove(i));
    } else {
        assert(s.remove(i) =~= s.drop_last());
    }
}

proof fn sums_agree(s: Seq<ShapeFacts>, t: Seq<ShapeFacts>)
    requires
        s.to_multiset() == t.to_multiset(),
    ensures
        sum_of(s) == sum_of(t),
    decreases s.len(),
{
    broadcast use vstd::seq_lib::group_to_multiset_ensures;

    assert(s.len() == s.to_multiset().len());
    assert(t.len() == t.to_multiset().len());
    if s.len() > 0 {
        let x = s.last();
        assert(s.contains(x));
        assert(s.to_multiset().contains(x));
        assert(t.contains(x));
        let j = t.index_of(x);
        assert(t[j] == x);
        vstd::seq_lib::to_multiset_remove(s, s.len() - 1);
        vstd::seq_lib::to_multiset_remove(t, j);
        sums_agree(s.remove(s.len() - 1), t.remove(j));
        sum_without(s, s.len() - 1);
        sum_without(t, j);
    }
}

proof fn total_is_a_sum(shapes: Seq<CachedShape>, n: nat)
    requires
        n <= shapes.len(),
    ensures
        bytes_of_first(shapes, n) == sum_of(facts(shapes).take(n as int)),
    decreases n,
{
    if n > 0 {
        total_is_a_sum(shapes, (n - 1) as nat);
        assert(facts(shapes).take(n as int).drop_last() =~= facts(shapes).take(n - 1));
    }
}

proof fn totals_agree(a: Seq<CachedShape>, b: Seq<CachedShape>)
    requires
        facts(a).to_multiset() == facts(b).to_multiset(),
    ensures
        total_bytes(a) == total_bytes(b),
{
    sums_agree(facts(a), facts(b));
    total_is_a_sum(a, a.len());
    total_is_a_sum(b, b.len());
    assert(facts(a).take(a.len() as int) =~= facts(a));
    assert(facts(b).take(b.len() as int) =~= facts(b));
}

/// Of shapes with different directories the position decides nothing.
proof fn position_decides_nothing(
    a: Seq<CachedShape>,
    b: Seq<CachedShape>,
    i: int,
    j: int,
    x: int,
    y: int,
)
    requires
        goes_before(a, i, j),
        a[i]@ == b[x]@,
        a[j]@ == b[y]@,
        components(a[i].path@) != components(a[j].path@),
    ensures
        goes_before(b, x, y),
{
    components_precede_total(components(a[i].path@), components(a[j].path@));
}

proof fn listings_agree(
    a: Seq<CachedShape>,
    b: Seq<CachedShape>,
    keep: Seq<char>,
    cap: u64,
    gone_a: Seq<int>,
    gone_b: Seq<int>,
    n: int,
)
    requires
        facts(a).to_multiset() == facts(b).to_multiset(),
        paths_differ(a),
        paths_differ(b),
        is_dropped(a, keep, cap, gone_a),
        is_dropped(b, keep, cap, gone_b),
        0 <= n <= gone_a.len(),
        n <= gone_b.len(),
    ensures
        forall|k: int| 0 <= k < n ==> a[#[trigger] gone_a[k]]@ == b[gone_b[k]]@,
        forall|k: int| 0 <= k < n ==> b[#[trigger] gone_b[k]]@ == a[gone_a[k]]@,
    decreases n,
{
    if n > 0 {
        listings_agree(a, b, keep, cap, gone_a, gone_b, n - 1);
        let k = n - 1;
        let x = gone_a[k];
        let y = gone_b[k];
        assert(is_candidate(a, keep, x) && is_candidate(b, keep, y));
        if a[x]@ != b[y]@ {
            let z = counterpart(b, a, y);
            goes_before_is_total(a, x, z);
            if goes_before(a, x, z) {
                it_would_be_dropped(a, b, keep, cap, gone_a, gone_b, k, z);
            } else {
                let w = counterpart(a, b, x);
                position_decides_nothing(a, b, z, x, y, w);
                it_would_be_dropped(b, a, keep, cap, gone_b, gone_a, k, w);
            }
        }
    }
}

/// Where two lists of what is dropped agree up to `k`, the shape that is dropped at
/// `k` of the one is not to be dropped before that of the other.
proof fn it_would_be_dropped(
    a: Seq<CachedShape>,
    b: Seq<CachedShape>,
    keep: Seq<char>,
    cap: u64,
    gone_a: Seq<int>,
    gone_b: Seq<int>,
    k: int,
    z: int,
)
    requires
        facts(a).to_multiset() == facts(b).to_multiset(),
        paths_differ(a),
        paths_differ(b),
        is_dropped(a, keep, cap, gone_a),
        is_dropped(b, keep, cap, gone_b),
        0 <= k < gone_a.len(),
        k < gone_b.len(),
        forall|i: int| 0 <= i < k ==> b[#[trigger] gone_b[i]]@ == a[gone_a[i]]@,
        0 <= z < a.len(),
        a[z]@ == b[gone_b[k]]@,
    ensures
        !goes_before(a, gone_a[k], z),
{
    let x = gone_a[k];
    let y = gone_b[k];
    assert(is_candidate(a, keep, x) && is_candidate(b, keep, y));
    if goes_before(a, x, z) {
        goes_before_is_strict(a, x, z);
        let w = counterpart(a, b, x);
        if x < z {
            assert(components(a[x].path@) != components(a[z].path@));
        } else {
            assert(components(a[z].path@) != components(a[x].path@));
        }
        position_decides_nothing(a, b, x, z, w, y);
        assert(a[x].path@ == b[w].path@);
        assert(is_candidate(b, keep, w));
        assert(gone_b.contains(w));
        let j = gone_b.index_of(w);
        if j < k {
            let u = gone_a[j];
            assert(is_candidate(a, keep, u));
            assert(b[gone_b[j]]@ == a[u]@);
            assert(goes_before(a, u, x));
            goes_before_is_strict(a, u, x);
            assert(a[u].path@ == a[x].path@);
            if u < x {
                assert(components(a[u].path@) != components(a[x].path@));
            } else {
                assert(components(a[x].path@) != components(a[u].path@));
            }
        } else if j == k {
            goes_before_is_strict(b, w, y);
        } else {
            assert(goes_before(b, gone_b[k], gone_b[j]));
            goes_before_is_strict(b, w, y);
        }
    }
}

proof fn listings_are_as_long(
    a: Seq<CachedShape>,
    b: Seq<CachedShape>,
    keep: Seq<char>,
    cap: u64,
    gone_a: Seq<int>,
    gone_b: Seq<int>,
)
    requires
        facts(a).to_multiset() == facts(b).to_multiset(),
        paths_differ(a),
        paths_differ(b),
        is_dropped(a, keep, cap, gone_a),
        is_dropped(b, keep, cap, gone_b),
        forall|k: int|
            0 <= k < gone_a.len() && k < gone_b.len() ==> a[#[trigger] gone_a[k]]@ == b[gone_b[k]]@,
    ensures
        gone_a.len() >= gone_b.len(),
{
    if gone_a.len() < gone_b.len() {
        let n = gone_a.len() as int;
        let cut = gone_b.take(n);
        totals_agree(a, b);
        bytes_at_grow(b, gone_b, n);
        assert forall|k: int| 0 <= k < gone_a.len() implies a[#[trigger] gone_a[k]]@
            == b[cut[k]]@ by {
            assert(cut[k] == gone_b[k]);
        }
        same_bytes_at(a, b, gone_a, cut);
        let y = gone_b[n];
        assert(is_candidate(b, keep, y));
        let z = counterpart(b, a, y);
        assert(a[z].path@ == b[y].path@);
        assert(is_candidate(a, keep, z));
        assert(gone_a.contains(z));
        let j = gone_a.index_of(z);
        let w = gone_b[j];
        assert(is_candidate(b, keep, w));
        assert(a[gone_a[j]]@ == b[w]@);
        assert(goes_before(b, gone_b[j], gone_b[n]));
        goes_before_is_strict(b, w, y);
        assert(b[w].path@ == b[y].path@);
        if w < y {
            assert(components(b[w].path@) != components(b[y].path@));
        } else {
            assert(components(b[y].path@) != components(b[w].path@));
        }
    }
}

/// What stands in a directory, as far as it could be read.
pub enum Stored {
    /// A directory with what stands in it. One that could not be opened holds nothing.
    Dir { entries: Vec<Stored> },
    /// Anything else, with its length where it is known.
    File { len: Option<u64> },
    /// An entry of which not even the kind could be read.
    Unknown,
}

/// The bytes of an entry with all that stands below it. What could not be read
/// counts for nothing.
pub open spec fn stored_bytes(entry: Stored) -> nat
    decreases entry, 0nat,
{
    match entry {
        Stored::Dir { entries } => stored_bytes_of_first(entries@, entries@.len()),
        Stored::File { len } => match len {
            Some(n) => n as nat,
            None => 0,
        },
        Stored::Unknown => 0,
    }
}

/// The bytes of the first `n` entries.
pub open spec fn stored_bytes_of_first(entries: Seq<Stored>, n: nat) -> nat
    decreases entries, n,
{
    if n == 0 || n > entries.len() {
        0
    } else {
        stored_bytes_of_first(entries, (n - 1) as nat) + stored_bytes(entries[n - 1])
    }
}

proof fn stored_bytes_grow(entries: Seq<Stored>, n: nat)
    requires
        n <= entries.len(),
    ensures
        stored_bytes_of_first(entries, n) <= stored_bytes_of_first(entries, entries.len()),
    decreases entries.len() - n,
{
    if n < entries.len() {
        stored_bytes_grow(entries, n + 1);
    }
}

/// The size of a directory or of a file.
pub fn dir_size(entry: &Stored) -> (n: u64)
    requires
        stored_bytes(*entry) <= u64::MAX,
    ensures
        n == stored_bytes(*entry),
    decreases *entry,
{
    match entry {
        Stored::Dir { entries } => {
            let mut n: u64 = 0;
            let mut i: usize = 0;
            while i < entries.len()
                invariant
                    i <= entries@.len(),
                    *entry == (Stored::Dir { entries: *entries }),
                    stored_bytes_of_first(entries@, entries@.len()) <= u64::MAX,
                    n == stored_bytes_of_first(entries@, i as nat),
                decreases entries@.len() - i,
            {
                proof {
                    stored_bytes_grow(entries@, (i + 1) as nat);
                    assert(decreases_to!(*entry => entry->entries));
                    assert(decreases_to!(*entries => entries@));
                    assert(decreases_to!(entries@ => entries@[i as int]));
                }
                n = n + dir_size(&entries[i]);
                i += 1;
            }
            n
        },
        Stored::File { len } => match len {
            Some(n) => *n,
            None => 0,
        },
        Stored::Unknown => 0,
    }
}

/// The time of a file: none where the file is not there, and an inner none where it
/// is there and its time cannot be told.
pub type FileTime = Option<Option<i128>>;

/// An entry of the directory of kernels.
pub struct ListedShape {
    /// Its path.
    pub path: String,
    /// Whether it is known to be a directory.
    pub is_dir: bool,
    /// The time of the marker in it.
    pub marker: FileTime,
    /// The time of the entry itself.
    pub own: FileTime,
    /// What stands in it.
    pub content: Stored,
}

/// When a shape was last used: the time of its marker, else its own time, which is
/// when it was compiled.
pub open spec fn last_use(marker: FileTime, own: FileTime) -> i128 {
    match (marker, own) {
        (Some(Some(at)), _) => at,
        (Some(None), _) => 0,
        (None, Some(Some(at))) => at,
        (None, _) => 0,
    }
}

/// The shape that an entry stands for.
pub open spec fn shape_of(listed: ListedShape) -> ShapeFacts {
    ShapeFacts {
        path: listed.path@,
        bytes: stored_bytes(listed.content) as u64,
        last_used: last_use(listed.marker, listed.own),
    }
}

/// The shapes that the first `n` entries stand for: the directories among them.
pub open spec fn shapes_of_first(listed: Seq<ListedShape>, n: nat) -> Seq<ShapeFacts>
    decreases n,
{
    if n == 0 || n > listed.len() {
        Seq::empty()
    } else if listed[n - 1].is_dir {
        shapes_of_first(listed, (n - 1) as nat).push(shape_of(listed[n - 1]))
    } else {
        shapes_of_first(listed, (n - 1) as nat)
    }
}

/// The bytes of the directories among the first `n` entries.
pub open spec fn listed_bytes(listed: Seq<ListedShape>, n: nat) -> nat
    decreases n,
{
    if n == 0 || n > listed.len() {
        0
    } else {
        listed_bytes(listed, (n - 1) as nat) + (if listed[n - 1].is_dir {
            stored_bytes(listed[n - 1].content)
        } else {
            0
        })
    }
}

proof fn listed_bytes_grow(listed: Seq<ListedShape>, n: nat)
    requires
        n <= listed.len(),
    ensures
        listed_bytes(listed, n) <= listed_bytes(listed, listed.len()),
    decreases listed.len() - n,
{
    if n < listed.len() {
        listed_bytes_grow(listed, n + 1);
    }
}

proof fn bytes_of_a_prefix(shapes: Seq<CachedShape>, more: CachedShape, n: nat)
    requires
        n <= shapes.len(),
    ensures
        bytes_of_first(shapes.push(more), n) == bytes_of_first(shapes, n),
    decreases n,
{
    if n > 0 {
        bytes_of_a_prefix(shapes, more, (n - 1) as nat);
    }
}

/// The shapes in the cache, by the entries of its directory.
pub fn read_cached_shapes(listed: &Vec<ListedShape>) -> (shapes: Vec<CachedShape>)
    requires
        listed_bytes(listed@, listed@.len()) <= u64::MAX,
    ensures
        facts(shapes@) == shapes_of_first(listed@, listed@.len()),
        total_bytes(shapes@) == listed_bytes(listed@, listed@.len()),
{
    let mut shapes: Vec<CachedShape> = Vec::new();
    let mut i: usize = 0;
    assert(facts(shapes@) =~= Seq::empty());
    while i < listed.len()
        invariant
            i <= listed@.len(),
            listed_bytes(listed@, listed@.len()) <= u64::MAX,
            facts(shapes@) == shapes_of_first(listed@, i as nat),
            total_bytes(shapes@) == listed_bytes(listed@, i as nat),
        decreases listed@.len() - i,
    {
        let entry = &listed[i];
        proof {
            listed_bytes_grow(listed@, (i + 1) as nat);
        }
        if entry.is_dir {
            let last_used: i128 = match entry.marker {
                Some(time) => match time {
                    Some(at) => at,
                    None => 0,
                },
                None => match entry.own {
                    Some(time) => match time {
                        Some(at) => at,
                        None => 0,
                    },
                    None => 0,
                },
            };
            let ghost before = shapes@;
            let shape = CachedShape {
                path: entry.path.clone(),
                bytes: dir_size(&entry.content),
                last_used,
            };
            proof {
                bytes_of_a_prefix(before, shape, before.len());
            }
            shapes.push(shape);
            assert(facts(shapes@) =~= facts(before).push(shape_of(listed@[i as int])));
        }
        i += 1;
    }
    shapes
}

/// Plans which directories of the cache are removed to bring it under its cap.
pub fn sweep(listed: &Vec<ListedShape>, keep: &str, cap_bytes: u64) -> (plan: EvictionPlan)
    requires
        listed_bytes(listed@, listed@.len()) <= u64::MAX,
    ensures
        exists|shapes: Seq<CachedShape>, gone: Seq<int>|
            facts(shapes) == shapes_of_first(listed@, listed@.len()) && #[trigger] is_eviction(
                shapes,
                keep@,
                cap_bytes,
                plan,
                gone,
            ),
{
    let shapes = read_cached_shapes(listed);
    plan_eviction(&shapes, keep, cap_bytes)
}

/// The digits of a cap and what they are multiplied by.
pub open spec fn cap_parts(t: Seq<char>) -> (Seq<char>, u64) {
    if t.len() == 0 {
        (t, 1)
    } else if t.last() == 'K' || t.last() == 'k' {
        (t.drop_last(), 1024)
    } else if t.last() == 'M' || t.last() == 'm' {
        (t.drop_last(), 1048576)
    } else if t.last() == 'G' || t.last() == 'g' {
        (t.drop_last(), 1073741824)
    } else {
        (t, 1)
    }
}

/// The cap that a text denotes, or the message of what is wrong with it.
pub open spec fn cap_of(raw: Seq<char>) -> Result<u64, Seq<char>> {
    let t = trimmed(raw);
    let (digits, factor) = cap_parts(t);
    match parsed(trimmed(digits)) {
        Err(_) => Err("`"@ + t + "` is not a byte count (expected e.g. `2G`, `512M`, `0`)"@),
        Ok(n) => if n * factor <= u64::MAX {
            Ok((n * factor) as u64)
        } else {
            Err("`"@ + t + "` overflows a byte count"@)
        },
    }
}

/// Reads a cap: a number of bytes, or a number with `K`, `M` or `G` behind it for
/// powers of 1024. Anything else is an error and not the default.
pub fn parse_cap_bytes(raw: &str) -> (r: Result<u64, String>)
    ensures
        match r {
            Ok(n) => cap_of(raw@) == Ok::<u64, Seq<char>>(n),
            Err(e) => cap_of(raw@) == Err::<u64, Seq<char>>(e@),
        },
{
    let t = trim(raw);
    let chars = chars_of(t.as_str());
    let len: usize = chars.len();
    let mut digits_end: usize = len;
    let mut factor: u64 = 1;
    if len > 0 {
        let last = chars[len - 1];
        if last == 'K' || last == 'k' {
            digits_end = len - 1;
            factor = 1024;
        } else if last == 'M' || last == 'm' {
            digits_end = len - 1;
            factor = 1048576;
        } else if last == 'G' || last == 'g' {
            digits_end = len - 1;
            factor = 1073741824;
        }
    }
    let digits = text_of(&chars, 0, digits_end);
    proof {
        assert(digits@ =~= cap_parts(t@).0);
    }
    match parse_u64(trim(digits.as_str()).as_str()) {
        Err(_) => {
            let mut e = "`".to_owned();
            e.append(t.as_str());
            e.append("` is not a byte count (expected e.g. `2G`, `512M`, `0`)");
            Err(e)
        },
        Ok(n) => match n.checked_mul(factor) {
            Some(bytes) => Ok(bytes),
            None => {
                let mut e = "`".to_owned();
                e.append(t.as_str());
                e.append("` overflows a byte count");
                Err(e)
            },
        },
    }
}

/// The cap by the value of its variable: the default without a value or for a blank
/// one.
pub fn cap_bytes_from_env(value: Option<&str>) -> (r: Result<u64, String>)
    ensures
        ({
            let given = match value {
                Some(v) => if trimmed(v@).len() > 0 {
                    Some(v@)
                } else {
                    None
                },
                None => None,
            };
            match given {
                None => r matches Ok(n) && n == DEFAULT_CAP_BYTES,
                Some(v) => match cap_of(v) {
                    Ok(n) => r matches Ok(m) && m == n,
                    Err(e) => r matches Err(m) && m@ == CAP_ENV@ + ": "@ + e,
                },
            }
        }),
{
    match value {
        None => Ok(DEFAULT_CAP_BYTES),
        Some(v) => {
            if trim(v).as_str().is_empty() {
                return Ok(DEFAULT_CAP_BYTES);
            }
            match parse_cap_bytes(v) {
                Ok(n) => Ok(n),
                Err(e) => {
                    let mut m = CAP_ENV.to_owned();
                    m.append(": ");
                    m.append(e.as_str());
                    Err(m)
                },
            }
        },
    }
}

/// The variable that names the directory of compiled kernels.
pub const KERNEL_DIR_ENV: &'static str = "ORT_MIGRAPHX_MODEL_CACHE_PATH";

/// Where compiled kernels are kept.
pub struct KernelDir {
    /// The directory.
    pub path: String,
    /// Whether the variable has to be set to it.
    pub export: bool,
}

/// Where compiled kernels are kept: where the variable says, else below the
/// directory of caches. Without either there is no place.
pub fn ensure_migraphx_kernel_cache(named: Option<&str>, cache_dir: Option<&str>) -> (r: Result<
    KernelDir,
    EmbeddingError,
>)
    ensures
        match (named, cache_dir) {
            (Some(dir), _) if dir@.len() > 0 => r matches Ok(d) && d.path@ == dir@ && !d.export,
            (_, Some(dir)) => r matches Ok(d) && d.path@ == joined_path(dir@, "migraphx"@)
                && d.export,
            (_, None) => r matches Err(e) && e@ == EmbeddingFailure::ModelInit(
                "cannot resolve a cache directory for MIGraphX kernels"@,
            ),
        },
{
    match named {
        Some(dir) => {
            if !dir.is_empty() {
                return Ok(KernelDir { path: dir.to_owned(), export: false });
            }
        },
        None => {},
    }
    match cache_dir {
        Some(dir) => Ok(KernelDir { path: join(dir, "migraphx"), export: true }),
        None => Err(
            EmbeddingError::model_init("cannot resolve a cache directory for MIGraphX kernels"),
        ),
    }
}

/// A cap is read in bytes, or in powers of 1024 by the letter behind the number, capital
/// or small, with white space around it as without. What is more than 64 bits can count
/// is refused.
pub proof fn a_cap_is_read_with_its_unit(left: Seq<char>, n: u64, unit: char, right: Seq<char>)
    requires
        forall|i: int| 0 <= i < left.len() ==> is_space(#[trigger] left[i]),
        forall|i: int| 0 <= i < right.len() ==> is_space(#[trigger] right[i]),
    ensures
        cap_of(left + decimal(n as nat) + right) == Ok::<u64, Seq<char>>(n),
        ({
            let power: int = if unit == 'K' || unit == 'k' {
                1024
            } else if unit == 'M' || unit == 'm' {
                1024int * 1024
            } else {
                1024int * 1024 * 1024
            };
            let read = cap_of(left + decimal(n as nat).push(unit) + right);
            (unit == 'K' || unit == 'k' || unit == 'M' || unit == 'm' || unit == 'G' || unit == 'g')
                ==> (if n * power <= 0xffff_ffff_ffff_ffff {
                read == Ok::<u64, Seq<char>>((n * power) as u64)
            } else {
                read is Err
            })
        }),
{
    let d = decimal(n as nat);
    decimal_reads_back(n as nat);
    assert(is_digit(d[0]) && is_digit(d[d.len() - 1]));
    let none = Seq::<char>::empty();
    a_number_is_read_between_white_space(left, n, right);
    a_number_is_read_between_white_space(none, n, none);
    assert(none + d + none =~= d);
    assert(n * 1 == n);
    if unit == 'K' || unit == 'k' || unit == 'M' || unit == 'm' || unit == 'G' || unit == 'g' {
        let t = d.push(unit);
        assert(t[0] == d[0]);
        assert(!is_space(unit));
        white_space_around_does_not_count(left, t, right);
        assert(t.drop_last() =~= d);
    }
}

/// What a plan leaves. Without a cap, or within it, nothing is dropped. Else shapes are
/// dropped until what is left is within the cap, and not one more than that; what is left
/// over it is the shape in use, all else being dropped, and the plan says so. No shape is
/// dropped while another, not in use, that was used before it stays.
pub proof fn a_plan_keeps_to_its_cap(
    shapes: Seq<CachedShape>,
    keep: Seq<char>,
    cap: u64,
    plan: EvictionPlan,
    gone: Seq<int>,
)
    requires
        is_eviction(shapes, keep, cap, plan, gone),
    ensures
        cap == 0 || total_bytes(shapes) <= cap ==> plan.remove@.len() == 0 && plan.bytes_after
            == total_bytes(shapes) && !plan.still_over_cap,
        cap > 0 && total_bytes(shapes) > cap ==> plan.bytes_after <= cap || forall|i: int|
            0 <= i < shapes.len() && components((#[trigger] shapes[i]).path@) != components(keep)
                ==> exists|k: int|
                0 <= k < plan.remove@.len() && (#[trigger] plan.remove@[k])@ == shapes[i].path@,
        plan.still_over_cap <==> cap > 0 && plan.bytes_after > cap,
        gone.len() > 0 ==> cap > 0 && plan.bytes_after + shapes[gone.last()].bytes > cap,
        forall|k: int|
            0 <= k < plan.remove@.len() ==> 0 <= #[trigger] gone[k] < shapes.len()
                && plan.remove@[k]@ == shapes[gone[k]].path@,
        forall|i: int, k: int|
            #![trigger shapes[i], gone[k]]
            0 <= i < shapes.len() && !gone.contains(i) && components(shapes[i].path@) != components(
                keep,
            ) && 0 <= k < gone.len() ==> shapes[gone[k]].last_used <= shapes[i].last_used,
        forall|j: int, k: int|
            0 <= j < k < gone.len() ==> shapes[#[trigger] gone[j]].last_used
                <= shapes[#[trigger] gone[k]].last_used,
{
    if gone.len() > 0 {
        bytes_dropped_are_held(shapes, keep, cap, gone);
    }
    if cap > 0 && total_bytes(shapes) > cap && plan.bytes_after > cap {
        assert forall|i: int|
            0 <= i < shapes.len() && components((#[trigger] shapes[i]).path@) != components(
                keep,
            ) implies exists|k: int|
            0 <= k < plan.remove@.len() && (#[trigger] plan.remove@[k])@ == shapes[i].path@ by {
            assert(is_candidate(shapes, keep, i));
            let k = gone.index_of(i);
            assert(plan.remove@[k]@ == shapes[gone[k]].path@);
        }
    }
    assert forall|k: int| 0 <= k < gone.len() implies 0 <= #[trigger] gone[k] < shapes.len()
        && plan.remove@[k]@ == shapes[gone[k]].path@ by {
        assert(is_candidate(shapes, keep, gone[k]));
        assert(plan.remove@[k]@ == shapes[gone[k]].path@);
    }
    assert forall|i: int, k: int|
        #![trigger shapes[i], gone[k]]
        0 <= i < shapes.len() && !gone.contains(i) && components(shapes[i].path@) != components(
            keep,
        ) && 0 <= k < gone.len() implies shapes[gone[k]].last_used <= shapes[i].last_used by {
        assert(is_candidate(shapes, keep, i));
        if shapes[i].last_used < shapes[gone[k]].last_used {
            assert(goes_before(shapes, i, gone[k]));
        }
    }
    assert forall|j: int, k: int| 0 <= j < k < gone.len() implies shapes[#[trigger] gone[j]].last_used
        <= shapes[#[trigger] gone[k]].last_used by {
        assert(goes_before(shapes, gone[j], gone[k]));
    }
}

proof fn bytes_dropped_are_held(
    shapes: Seq<CachedShape>,
    keep: Seq<char>,
    cap: u64,
    gone: Seq<int>,
)
    requires
        is_dropped(shapes, keep, cap, gone),
        gone.len() > 0,
    ensures
        total_bytes(shapes) > cap,
        cap > 0,
{
    bytes_at_grow(shapes, gone, 0);
    assert(gone.take(0) =~= Seq::<int>::empty());
}

/// A shape is as old as its marker says, and without one as the directory itself; what
/// cannot be told is the oldest. Only directories are shapes.
pub proof fn a_shape_is_as_old_as_its_marker(at: i128, own: FileTime, other: FileTime)
    ensures
        last_use(Some(Some(at)), own) == at,
        last_use(None, Some(Some(at))) == at,
        last_use(None, None) == 0,
        last_use(Some(None), other) == 0,
{
}

/// What the shapes hold is the sum of what each of them holds.
pub proof fn every_shape_weighs(shapes: Seq<CachedShape>, more: CachedShape)
    ensures
        total_bytes(shapes.push(more)) == total_bytes(shapes) + more.bytes,
        total_bytes(Seq::empty()) == 0,
{
    bytes_of_a_prefix(shapes, more, shapes.len());
}

/// A file is as large as its length says, a directory as large as what stands in it, at
/// any depth; what cannot be read is nothing.
pub proof fn a_directory_is_as_large_as_its_entries(
    entries: Vec<Stored>,
    more: Stored,
    all: Vec<Stored>,
    len: u64,
    size: u64,
)
    requires
        all@ == entries@.push(more),
        stored_bytes(Stored::Dir { entries: all }) <= u64::MAX,
        call_ensures(dir_size, (&Stored::Dir { entries: all },), size),
    ensures
        stored_bytes(Stored::File { len: Some(len) }) == len,
        stored_bytes(Stored::File { len: None }) == 0,
        stored_bytes(Stored::Unknown) == 0,
        size == stored_bytes(Stored::Dir { entries }) + stored_bytes(more),
{
    stored_bytes_of_a_prefix(entries@, more, entries@.len());
}

proof fn stored_bytes_of_a_prefix(entries: Seq<Stored>, more: Stored, n: nat)
    requires
        n <= entries.len(),
    ensures
        stored_bytes_of_first(entries.push(more), n) == stored_bytes_of_first(entries, n),
    decreases n,
{
    if n > 0 {
        stored_bytes_of_a_prefix(entries, more, (n - 1) as nat);
    }
}

/// Each directory of the cache is a shape, under its path and with what stands in it.
pub proof fn every_directory_is_a_shape(listed: Seq<ListedShape>, n: nat, i: int) -> (k: int)
    requires
        n <= listed.len(),
        0 <= i < n,
        listed[i].is_dir,
        stored_bytes(listed[i].content) <= u64::MAX,
    ensures
        0 <= k < shapes_of_first(listed, n).len(),
        shapes_of_first(listed, n)[k].path == listed[i].path@,
        shapes_of_first(listed, n)[k].bytes == stored_bytes(listed[i].content),
    decreases n,
{
    if i == n - 1 {
        shapes_of_first(listed, (n - 1) as nat).len() as int
    } else {
        every_directory_is_a_shape(listed, (n - 1) as nat, i)
    }
}

/// Nothing in the cache but a directory is a shape.
pub proof fn only_directories_are_shapes(listed: Seq<ListedShape>, n: nat, k: int) -> (i: int)
    requires
        n <= listed.len(),
        0 <= k < shapes_of_first(listed, n).len(),
    ensures
        0 <= i < n,
        listed[i].is_dir,
        shapes_of_first(listed, n)[k].path == listed[i].path@,
    decreases n,
{
    if k < shapes_of_first(listed, (n - 1) as nat).len() {
        only_directories_are_shapes(listed, (n - 1) as nat, k)
    } else {
        n - 1
    }
}

/// Without a cap the cache may hold a gibibyte; a blank one is none.
pub proof fn a_cache_holds_a_gibibyte(value: Option<&str>, r: Result<u64, String>)
    requires
        call_ensures(cap_bytes_from_env, (value,), r),
        value is Some ==> forall|i: int|
            0 <= i < value->Some_0@.len() ==> is_space(#[trigger] value->Some_0@[i]),
    ensures
        r == Ok::<u64, String>(0x4000_0000),
{
    if value is Some {
        white_space_is_blank(value->Some_0@);
    }
}

/// Kernels are kept where the variable says, and then it is left as it is; else in a
/// directory of their own among the caches, and the variable is set to it. Without either
/// there is no place, and that is an error.
pub proof fn kernels_are_kept_where_it_is_said(
    named: Option<&str>,
    cache_dir: Option<&str>,
    r: Result<KernelDir, EmbeddingError>,
)
    requires
        call_ensures(ensure_migraphx_kernel_cache, (named, cache_dir), r),
    ensures
        named is Some && named->Some_0@.len() > 0 ==> r is Ok && r->Ok_0.path@ == named->Some_0@
            && !r->Ok_0.export,
        (named is None || named->Some_0@.len() == 0) && cache_dir is Some
            && cache_dir->Some_0@.len() > 0 && cache_dir->Some_0@.last() != '/' ==> r is Ok
            && r->Ok_0.path@ == cache_dir->Some_0@ + "/migraphx"@ && r->Ok_0.export,
        (named is None || named->Some_0@.len() == 0) && cache_dir is None ==> r is Err,
{
    reveal_strlit("migraphx");
    reveal_strlit("/migraphx");
    if cache_dir is Some {
        let d = cache_dir->Some_0@;
        assert(d.push('/') + "migraphx"@ =~= d + "/migraphx"@);
    }
}

/// Of shapes that were used at the same time the one whose path comes first goes first.
pub proof fn equal_ages_go_by_their_paths(
    shapes: Seq<CachedShape>,
    keep: Seq<char>,
    cap: u64,
    plan: EvictionPlan,
    gone: Seq<int>,
    j: int,
    k: int,
)
    requires
        is_eviction(shapes, keep, cap, plan, gone),
        0 <= j < k < gone.len(),
        shapes[gone[j]].last_used == shapes[gone[k]].last_used,
    ensures
        !path_precedes(shapes[gone[k]].path@, shapes[gone[j]].path@),
{
    assert(goes_before(shapes, gone[j], gone[k]));
    if path_precedes(shapes[gone[j]].path@, shapes[gone[k]].path@) {
        path_precedes_asymmetric(shapes[gone[j]].path@, shapes[gone[k]].path@);
    }
}

} // verus!

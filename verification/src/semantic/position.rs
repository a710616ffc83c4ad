//! Source positions: how what an analysis found is ranked and merged, and how
//! names that its symbol index does not carry are found in the text.

use vstd::prelude::*;
use vstd::utf8::{encode_scalar, encode_utf8};

use crate::indexing::traversal::{is_rust_file, is_rust_path};
use crate::paths::{
    components, components_precede_irreflexive, components_precede_total,
    components_precede_transitive, is_under, normal, normalized, path_before, path_precedes,
    path_precedes_asymmetric, same_path, starts_with,
};
use crate::text::{
    chars_of, decimal, number, occurs_at, same, stands_at,
};

verus! {

/// A place in the source; lines and columns count from one.
#[derive(Debug, Clone)]
pub struct Location {
    /// The file.
    pub file_path: String,
    /// The line.
    pub line: u32,
    /// The column.
    pub column: u32,
    /// What is there.
    pub name: String,
    /// Whether it is there under exactly the name that was asked for.
    pub exact: bool,
}

/// The content of a location.
pub struct Place {
    /// The file.
    pub file_path: Seq<char>,
    /// The line.
    pub line: u32,
    /// The column.
    pub column: u32,
    /// What is there.
    pub name: Seq<char>,
    /// Whether it is there under exactly the name that was asked for.
    pub exact: bool,
}

impl View for Location {
    type V = Place;

    open spec fn view(&self) -> Place {
        Place {
            file_path: self.file_path@,
            line: self.line,
            column: self.column,
            name: self.name@,
            exact: self.exact,
        }
    }
}

/// The contents of locations.
pub open spec fn places(locations: Seq<Location>) -> Seq<Place> {
    Seq::new(locations.len(), |i: int| locations[i]@)
}

impl Location {
    /// A location with the same content.
    fn copy(&self) -> (c: Self)
        ensures
            c@ == self@,
    {
        Location {
            file_path: self.file_path.clone(),
            line: self.line,
            column: self.column,
            name: self.name.clone(),
            exact: self.exact,
        }
    }

    /// The location as text.
    pub fn to_text(&self) -> (text: String)
        ensures
            text@ == self.file_path@ + ":"@ + decimal(self.line as nat) + ":"@ + decimal(
                self.column as nat,
            ) + " ("@ + self.name@ + ", exact="@ + (if self.exact {
                "true"@
            } else {
                "false"@
            }) + ")"@,
    {
        let mut text = self.file_path.clone();
        text.append(":");
        text.append(number(self.line as u128).as_str());
        text.append(":");
        text.append(number(self.column as u128).as_str());
        text.append(" (");
        text.append(self.name.as_str());
        text.append(", exact=");
        if self.exact {
            text.append("true");
        } else {
            text.append("false");
        }
        text.append(")");
        text
    }
}

/// Those of the places that are exact, or those that are not, in order.
pub open spec fn with_exactness(all: Seq<Place>, exact: bool) -> Seq<Place>
    decreases all.len(),
{
    if all.len() == 0 {
        Seq::empty()
    } else if all.last().exact == exact {
        with_exactness(all.drop_last(), exact).push(all.last())
    } else {
        with_exactness(all.drop_last(), exact)
    }
}

/// The exact places before the others, each in their order.
pub open spec fn ranked(all: Seq<Place>, exact_only: bool) -> Seq<Place> {
    if exact_only {
        with_exactness(all, true)
    } else {
        with_exactness(all, true) + with_exactness(all, false)
    }
}

fn push_with_exactness(out: &mut Vec<Location>, locations: &Vec<Location>, exact: bool)
    ensures
        places(final(out)@) == places(old(out)@) + with_exactness(places(locations@), exact),
{
    let ghost start = places(out@);
    let ghost all = places(locations@);
    let mut i: usize = 0;
    assert(start + with_exactness(all.take(0), exact) =~= start);
    while i < locations.len()
        invariant
            i <= locations@.len(),
            all == places(locations@),
            places(out@) == start + with_exactness(all.take(i as int), exact),
        decreases locations@.len() - i,
    {
        proof {
            assert(all.take(i + 1).drop_last() =~= all.take(i as int));
            assert(all.take(i + 1).last() == locations@[i as int]@);
        }
        let ghost held = places(out@);
        if locations[i].exact == exact {
            out.push(locations[i].copy());
            assert(places(out@) =~= held.push(locations@[i as int]@));
            assert(places(out@) =~= start + with_exactness(all.take(i + 1), exact));
        }
        i += 1;
    }
    assert(all.take(i as int) =~= all);
}

/// The exact places before the others, each in their order; only the exact ones
/// where nothing else is wanted.
pub fn rank_and_filter_exact(locations: Vec<Location>, exact_only: bool) -> (out: Vec<Location>)
    ensures
        places(out@) == ranked(places(locations@), exact_only),
{
    let mut out: Vec<Location> = Vec::new();
    push_with_exactness(&mut out, &locations, true);
    assert(places(out@) =~= with_exactness(places(locations@), true));
    if !exact_only {
        push_with_exactness(&mut out, &locations, false);
    }
    out
}

/// A place is exact where its name is the one that was asked for.
pub open spec fn marked(all: Seq<Place>, symbol: Seq<char>) -> Seq<Place> {
    Seq::new(all.len(), |i: int| Place { exact: all[i].name == symbol, ..all[i] })
}

/// The symbols that a search for a name found: marked, and the exact ones before
/// the others.
pub fn rank_symbols(found: Vec<Location>, symbol_name: &str, exact_only: bool) -> (out: Vec<Location>)
    ensures
        places(out@) == ranked(marked(places(found@), symbol_name@), exact_only),
{
    let mut all: Vec<Location> = Vec::new();
    let ghost wanted = marked(places(found@), symbol_name@);
    let mut i: usize = 0;
    while i < found.len()
        invariant
            i <= found@.len(),
            all@.len() == i,
            wanted == marked(places(found@), symbol_name@),
            places(all@) == wanted.take(i as int),
        decreases found@.len() - i,
    {
        let mut location = found[i].copy();
        location.exact = same(location.name.as_str(), symbol_name);
        all.push(location);
        i += 1;
        assert(places(all@) =~= wanted.take(i as int));
    }
    assert(places(all@) =~= wanted);
    rank_and_filter_exact(all, exact_only)
}

/// Two places at the same position of the same file.
pub open spec fn same_position(a: Place, b: Place) -> bool {
    components(a.file_path) == components(b.file_path) && a.line == b.line && a.column == b.column
}

/// The order of positions: by the path, then the line, then the column.
pub open spec fn position_precedes(a: Place, b: Place) -> bool {
    ||| path_precedes(a.file_path, b.file_path)
    ||| components(a.file_path) == components(b.file_path) && (a.line < b.line || (a.line == b.line
        && a.column < b.column))
}

/// Of all places at its position, the one at `i` is the first exact one, or the
/// first where none is exact.
pub open spec fn is_chosen(all: Seq<Place>, i: int) -> bool {
    &&& 0 <= i < all.len()
    &&& forall|k: int|
        0 <= k < all.len() && same_position(#[trigger] all[k], all[i]) ==> (if all[i].exact {
            k < i ==> !all[k].exact
        } else {
            !all[k].exact && k >= i
        })
}

/// `p` is the chosen place of its position.
pub open spec fn is_chosen_of(all: Seq<Place>, p: Place) -> bool {
    exists|i: int| #[trigger] is_chosen(all, i) && all[i] == p
}

/// Some place of `out` is at the position of `p`.
pub open spec fn is_covered(out: Seq<Place>, p: Place) -> bool {
    exists|j: int| 0 <= j < out.len() && same_position(#[trigger] out[j], p)
}

/// `out` has one place for each position of `all`: the chosen one. The exact ones
/// come first, and each kind stands in the order of positions.
pub open spec fn is_merged(all: Seq<Place>, out: Seq<Place>) -> bool {
    &&& forall|j: int| 0 <= j < out.len() ==> #[trigger] is_chosen_of(all, out[j])
    &&& forall|i: int| 0 <= i < all.len() ==> #[trigger] is_covered(out, all[i])
    &&& forall|j: int, k: int|
        0 <= j < k < out.len() ==> ((#[trigger] out[j]).exact && !(#[trigger] out[k]).exact) || (
        out[j].exact == out[k].exact && position_precedes(out[j], out[k]))
}

proof fn position_precedes_transitive(a: Place, b: Place, c: Place)
    requires
        position_precedes(a, b),
        position_precedes(b, c),
    ensures
        position_precedes(a, c),
{
    if path_precedes(a.file_path, b.file_path) && path_precedes(b.file_path, c.file_path) {
        components_precede_transitive(
            components(a.file_path),
            components(b.file_path),
            components(c.file_path),
        );
    }
}

proof fn position_trichotomy(a: Place, b: Place)
    ensures
        same_position(a, b) || position_precedes(a, b) || position_precedes(b, a),
        position_precedes(a, b) ==> !position_precedes(b, a) && !same_position(a, b),
{
    if components(a.file_path) != components(b.file_path) {
        components_precede_total(components(a.file_path), components(b.file_path));
    }
    components_precede_irreflexive(components(a.file_path));
    if path_precedes(a.file_path, b.file_path) {
        path_precedes_asymmetric(a.file_path, b.file_path);
    }
}

fn at_same_position(a: &Location, b: &Location) -> (r: bool)
    ensures
        r == same_position(a@, b@),
{
    a.line == b.line && a.column == b.column && same_path(
        a.file_path.as_str(),
        b.file_path.as_str(),
    )
}

fn position_before(a: &Location, b: &Location) -> (r: bool)
    ensures
        r == position_precedes(a@, b@),
{
    path_before(a.file_path.as_str(), b.file_path.as_str()) || (same_path(
        a.file_path.as_str(),
        b.file_path.as_str(),
    ) && (a.line < b.line || (a.line == b.line && a.column < b.column)))
}

/// The positions ascend.
spec fn positions_ascend(s: Seq<Place>) -> bool {
    forall|j: int, k: int|
        0 <= j < k < s.len() ==> position_precedes(#[trigger] s[j], #[trigger] s[k])
}

/// `s` has the chosen place of each position of `all`.
spec fn has_chosen(all: Seq<Place>, s: Seq<Place>) -> bool {
    &&& forall|j: int| 0 <= j < s.len() ==> #[trigger] is_chosen_of(all, s[j])
    &&& forall|i: int| 0 <= i < all.len() ==> #[trigger] is_covered(s, all[i])
}

proof fn chosen_stays(all: Seq<Place>, x: Place, i: int)
    requires
        is_chosen(all, i),
        !same_position(x, all[i]) || all[i].exact || !x.exact,
    ensures
        is_chosen(all.push(x), i),
{
    let now = all.push(x);
    assert forall|k: int| 0 <= k < now.len() && same_position(#[trigger] now[k], now[i]) implies (if now[i].exact {
        k < i ==> !now[k].exact
    } else {
        !now[k].exact && k >= i
    }) by {
        if k < all.len() {
            assert(now[k] == all[k]);
        }
    }
}

/// The places before `at` come before `p`, and the one at `at` does not.
spec fn is_place_for(held: Seq<Place>, p: Place, at: int) -> bool {
    &&& 0 <= at <= held.len()
    &&& forall|k: int| 0 <= k < at ==> position_precedes(#[trigger] held[k], p)
    &&& at < held.len() ==> !position_precedes(held[at], p)
}

proof fn only_one_is_there(held: Seq<Place>, p: Place, at: int)
    requires
        positions_ascend(held),
        is_place_for(held, p, at),
        at < held.len(),
        same_position(held[at], p),
    ensures
        forall|k: int| 0 <= k < held.len() && k != at ==> !same_position(p, #[trigger] held[k]),
{
    assert forall|k: int| 0 <= k < held.len() && k != at implies !same_position(
        p,
        #[trigger] held[k],
    ) by {
        if k < at {
            position_trichotomy(held[k], p);
        } else {
            assert(position_precedes(held[at], held[k]));
            position_trichotomy(held[at], held[k]);
        }
    }
}

proof fn merge_replaces(seen: Seq<Place>, held: Seq<Place>, p: Place, at: int)
    requires
        positions_ascend(held),
        has_chosen(seen, held),
        is_place_for(held, p, at),
        at < held.len(),
        same_position(held[at], p),
        p.exact,
        !held[at].exact,
    ensures
        positions_ascend(held.update(at, p)),
        has_chosen(seen.push(p), held.update(at, p)),
{
    let now = seen.push(p);
    let i = seen.len() as int;
    let s = held.update(at, p);
    only_one_is_there(held, p, at);
    assert(is_chosen(now, i)) by {
        assert(is_chosen_of(seen, held[at]));
            let c = choose|c: int| #[trigger] is_chosen(seen, c) && seen[c] == held[at];
        assert forall|k: int|
            0 <= k < now.len() && same_position(#[trigger] now[k], now[i]) && k < i implies !now[k].exact by {
            assert(now[k] == seen[k]);
            assert(same_position(seen[k], seen[c]));
        }
    }
    assert forall|j: int| 0 <= j < s.len() implies #[trigger] is_chosen_of(now, s[j]) by {
        if j == at {
            assert(now[i] == s[j]);
        } else {
            assert(s[j] == held[j]);
            assert(is_chosen_of(seen, held[j]));
            let c = choose|c: int| #[trigger] is_chosen(seen, c) && seen[c] == held[j];
            chosen_stays(seen, p, c);
            assert(now[c] == s[j]);
        }
    }
    assert forall|k: int| 0 <= k < now.len() implies #[trigger] is_covered(s, now[k]) by {
        if k == i {
            assert(same_position(s[at], now[k]));
        } else {
            assert(now[k] == seen[k]);
            assert(is_covered(held, seen[k]));
            let j = choose|j: int| 0 <= j < held.len() && same_position(#[trigger] held[j], seen[k]);
            assert(same_position(s[j], now[k]));
        }
    }
    assert forall|j: int, k: int| 0 <= j < k < s.len() implies position_precedes(
        #[trigger] s[j],
        #[trigger] s[k],
    ) by {
        assert(position_precedes(held[j], held[k]));
    }
}

proof fn merge_keeps(seen: Seq<Place>, held: Seq<Place>, p: Place, at: int)
    requires
        positions_ascend(held),
        has_chosen(seen, held),
        is_place_for(held, p, at),
        at < held.len(),
        same_position(held[at], p),
        !p.exact || held[at].exact,
    ensures
        has_chosen(seen.push(p), held),
{
    let now = seen.push(p);
    let i = seen.len() as int;
    only_one_is_there(held, p, at);
    assert forall|j: int| 0 <= j < held.len() implies #[trigger] is_chosen_of(now, held[j]) by {
        assert(is_chosen_of(seen, held[j]));
            let c = choose|c: int| #[trigger] is_chosen(seen, c) && seen[c] == held[j];
        chosen_stays(seen, p, c);
        assert(now[c] == held[j]);
    }
    assert forall|k: int| 0 <= k < now.len() implies #[trigger] is_covered(held, now[k]) by {
        if k == i {
            assert(same_position(held[at], now[k]));
        } else {
            assert(now[k] == seen[k]);
            assert(is_covered(held, seen[k]));
        }
    }
}

proof fn merge_inserts(seen: Seq<Place>, held: Seq<Place>, p: Place, at: int)
    requires
        positions_ascend(held),
        has_chosen(seen, held),
        is_place_for(held, p, at),
        at < held.len() ==> !same_position(held[at], p),
    ensures
        positions_ascend(held.insert(at, p)),
        has_chosen(seen.push(p), held.insert(at, p)),
{
    let now = seen.push(p);
    let i = seen.len() as int;
    let s = held.insert(at, p);
    assert forall|k: int| 0 <= k < held.len() implies !same_position(p, #[trigger] held[k]) && (k
        >= at ==> position_precedes(p, held[k])) by {
        position_trichotomy(held[k], p);
        position_trichotomy(p, held[k]);
        if k > at {
            position_trichotomy(held[at], p);
            assert(position_precedes(held[at], held[k]));
            position_precedes_transitive(p, held[at], held[k]);
            position_trichotomy(p, held[k]);
        }
    }
    assert(is_chosen(now, i)) by {
        assert forall|k: int|
            0 <= k < now.len() && same_position(#[trigger] now[k], now[i]) implies k == i by {
            if k < i {
                assert(now[k] == seen[k]);
                assert(is_covered(held, seen[k]));
            let j = choose|j: int| 0 <= j < held.len() && same_position(#[trigger] held[j], seen[k]);
                assert(same_position(p, held[j]));
            }
        }
    }
    assert forall|j: int| 0 <= j < s.len() implies #[trigger] is_chosen_of(now, s[j]) by {
        if j == at {
            assert(now[i] == s[j]);
        } else {
            let h = if j < at { j } else { j - 1 };
            assert(s[j] == held[h]);
            assert(is_chosen_of(seen, held[h]));
            let c = choose|c: int| #[trigger] is_chosen(seen, c) && seen[c] == held[h];
            chosen_stays(seen, p, c);
            assert(now[c] == s[j]);
        }
    }
    assert forall|k: int| 0 <= k < now.len() implies #[trigger] is_covered(s, now[k]) by {
        if k == i {
            assert(same_position(s[at], now[k]));
        } else {
            assert(now[k] == seen[k]);
            assert(is_covered(held, seen[k]));
            let j = choose|j: int| 0 <= j < held.len() && same_position(#[trigger] held[j], seen[k]);
            let t = if j < at { j } else { j + 1 };
            assert(s[t] == held[j]);
            assert(same_position(s[t], now[k]));
        }
    }
    assert forall|j: int, k: int| 0 <= j < k < s.len() implies position_precedes(
        #[trigger] s[j],
        #[trigger] s[k],
    ) by {
        let a = if j < at { j } else { j - 1 };
        let b = if k < at { k } else { k - 1 };
        if j != at && k != at {
            assert(s[j] == held[a] && s[k] == held[b]);
        } else if j == at {
            assert(s[k] == held[b]);
        } else {
            assert(s[j] == held[a]);
        }
    }
}

proof fn ranking_is_merged(all: Seq<Place>, sorted: Seq<Place>)
    requires
        positions_ascend(sorted),
        has_chosen(all, sorted),
    ensures
        is_merged(all, ranked(sorted, false)),
{
    let x = with_exactness(sorted, true);
    let y = with_exactness(sorted, false);
    let s = x + y;
    exactness_keeps_order(sorted, true);
    exactness_keeps_order(sorted, false);
    assert forall|j: int| 0 <= j < s.len() implies #[trigger] is_chosen_of(all, s[j]) by {
        if j < x.len() {
            assert(s[j] == x[j]);
            assert(sorted.contains(x[j]));
        } else {
            assert(s[j] == y[j - x.len()]);
            assert(sorted.contains(y[j - x.len()]));
        }
        let h = sorted.index_of(s[j]);
        assert(is_chosen_of(all, sorted[h]));
    }
    assert forall|k: int| 0 <= k < all.len() implies #[trigger] is_covered(s, all[k]) by {
        assert(is_covered(sorted, all[k]));
        let h = choose|h: int| 0 <= h < sorted.len() && same_position(#[trigger] sorted[h], all[k]);
        exactness_keeps_members(sorted, sorted[h].exact, h);
        if sorted[h].exact {
            let t = x.index_of(sorted[h]);
            assert(s[t] == sorted[h]);
            assert(same_position(s[t], all[k]));
        } else {
            let t = y.index_of(sorted[h]);
            assert(s[x.len() + t] == sorted[h]);
            assert(same_position(s[x.len() + t], all[k]));
        }
    }
    assert forall|j: int, k: int| 0 <= j < k < s.len() implies ((#[trigger] s[j]).exact && !(
    #[trigger] s[k]).exact) || (s[j].exact == s[k].exact && position_precedes(s[j], s[k])) by {
        if k < x.len() {
            assert(s[j] == x[j] && s[k] == x[k]);
        } else if j >= x.len() {
            assert(s[j] == y[j - x.len()] && s[k] == y[k - x.len()]);
        } else {
            assert(s[j] == x[j] && s[k] == y[k - x.len()]);
        }
    }
}

/// The place of each position, once.
pub fn merge_locations(locations: &Vec<Location>) -> (out: Vec<Location>)
    ensures
        is_merged(places(locations@), places(out@)),
{
    let ghost all = places(locations@);
    let mut best: Vec<Location> = Vec::new();
    let mut i: usize = 0;
    while i < locations.len()
        invariant
            i <= locations@.len(),
            all == places(locations@),
            positions_ascend(places(best@)),
            has_chosen(all.take(i as int), places(best@)),
        decreases locations@.len() - i,
    {
        let x = &locations[i];
        let ghost seen = all.take(i as int);
        let ghost held = places(best@);
        let ghost p = x@;
        let mut at: usize = 0;
        while at < best.len() && position_before(&best[at], x)
            invariant
                at <= best@.len(),
                held == places(best@),
                p == x@,
                forall|k: int| 0 <= k < at ==> position_precedes(#[trigger] held[k], p),
            decreases best@.len() - at,
        {
            assert(held[at as int] == best@[at as int]@);
            at += 1;
        }
        proof {
            assert(all.take(i + 1) =~= seen.push(p));
            if at < best@.len() {
                assert(held[at as int] == best@[at as int]@);
            }
        }
        if at < best.len() && at_same_position(&best[at], x) {
            if x.exact && !best[at].exact {
                best.set(at, x.copy());
                proof {
                    merge_replaces(seen, held, p, at as int);
                    assert(places(best@) =~= held.update(at as int, p));
                }
            } else {
                proof {
                    merge_keeps(seen, held, p, at as int);
                }
            }
        } else {
            proof {
                merge_inserts(seen, held, p, at as int);
            }
            best.insert(at, x.copy());
            assert(places(best@) =~= held.insert(at as int, p));
        }
        i += 1;
    }
    proof {
        assert(all.take(i as int) =~= all);
        ranking_is_merged(all, places(best@));
    }
    rank_and_filter_exact(best, false)
}

/// In a list of references `a` comes before `b`.
spec fn is_listed_before(a: Place, b: Place) -> bool {
    (a.exact && !b.exact) || (a.exact == b.exact && position_precedes(a, b))
}

proof fn listed_before_is_strict(a: Place, b: Place)
    ensures
        is_listed_before(a, b) ==> !is_listed_before(b, a) && a != b,
{
    position_trichotomy(a, b);
    position_trichotomy(b, a);
}

proof fn merged_lists_have_the_same_places(all: Seq<Place>, a: Seq<Place>, b: Seq<Place>, j: int)
    requires
        is_merged(all, a),
        is_merged(all, b),
        0 <= j < a.len(),
    ensures
        b.contains(a[j]),
{
    assert(is_chosen_of(all, a[j]));
    let i = choose|i: int| #[trigger] is_chosen(all, i) && all[i] == a[j];
    assert(is_covered(b, all[i]));
    let m = choose|m: int| 0 <= m < b.len() && same_position(#[trigger] b[m], all[i]);
    assert(is_chosen_of(all, b[m]));
    let k = choose|k: int| #[trigger] is_chosen(all, k) && all[k] == b[m];
    assert(same_position(all[k], all[i]) && same_position(all[i], all[k]));
    assert(k == i);
    assert(b[m] == a[j]);
}

proof fn merged_lists_agree_at(all: Seq<Place>, a: Seq<Place>, b: Seq<Place>, n: int)
    requires
        is_merged(all, a),
        is_merged(all, b),
        0 <= n < a.len(),
    ensures
        n < b.len() && a[n] == b[n],
    decreases n,
{
    assert forall|m: int| 0 <= m < n implies m < b.len() && a[m] == b[m] by {
        merged_lists_agree_at(all, a, b, m);
    }
    merged_lists_have_the_same_places(all, a, b, n);
    let m = b.index_of(a[n]);
    if m < n {
        listed_before_is_strict(a[m], a[n]);
    } else if m > n {
        listed_before_is_strict(b[n], b[m]);
        merged_lists_have_the_same_places(all, b, a, n);
        let q = a.index_of(b[n]);
        if q < n {
            assert(a[q] == b[q]);
            listed_before_is_strict(b[q], b[n]);
        } else if q > n {
            listed_before_is_strict(a[n], a[q]);
        }
    }
}

/// A list of references is determined by the places that it is made of.
pub proof fn reference_list_is_determined(all: Seq<Place>, a: Seq<Place>, b: Seq<Place>)
    requires
        is_merged(all, a),
        is_merged(all, b),
    ensures
        a == b,
{
    assert forall|n: int| 0 <= n < a.len() implies n < b.len() && a[n] == b[n] by {
        merged_lists_agree_at(all, a, b, n);
    }
    if a.len() < b.len() {
        merged_lists_agree_at(all, b, a, a.len() as int);
    } else if a.len() > 0 {
        merged_lists_agree_at(all, a, b, a.len() - 1);
    }
    assert(a =~= b);
}

proof fn exactness_keeps_order(s: Seq<Place>, exact: bool)
    requires
        positions_ascend(s),
    ensures
        positions_ascend(with_exactness(s, exact)),
        forall|j: int|
            0 <= j < with_exactness(s, exact).len() ==> s.contains(
                #[trigger] with_exactness(s, exact)[j],
            ) && with_exactness(s, exact)[j].exact == exact,
    decreases s.len(),
{
    if s.len() > 0 {
        let init = s.drop_last();
        assert(positions_ascend(init)) by {
            assert forall|j: int, k: int| 0 <= j < k < init.len() implies position_precedes(
                #[trigger] init[j],
                #[trigger] init[k],
            ) by {
                assert(init[j] == s[j] && init[k] == s[k]);
            }
        }
        exactness_keeps_order(init, exact);
        let r = with_exactness(s, exact);
        let q = with_exactness(init, exact);
        assert forall|j: int| 0 <= j < q.len() implies s.contains(#[trigger] q[j])
            && position_precedes(q[j], s.last()) by {
            assert(init.contains(q[j]));
            let h = init.index_of(q[j]);
            assert(s[h] == q[j]);
            assert(s[s.len() - 1] == s.last());
        }
        assert(s[s.len() - 1] == s.last());
        assert forall|j: int| 0 <= j < r.len() implies s.contains(#[trigger] r[j])
            && r[j].exact == exact by {
            if j < q.len() {
                assert(r[j] == q[j]);
            }
        }
        assert forall|j: int, k: int| 0 <= j < k < r.len() implies position_precedes(
            #[trigger] r[j],
            #[trigger] r[k],
        ) by {
            assert(r[j] == q[j]);
            if k < q.len() {
                assert(r[k] == q[k]);
            }
        }
    }
}

proof fn exactness_keeps_members(s: Seq<Place>, exact: bool, h: int)
    requires
        0 <= h < s.len(),
        s[h].exact == exact,
    ensures
        with_exactness(s, exact).contains(s[h]),
    decreases s.len(),
{
    let r = with_exactness(s, exact);
    if h == s.len() - 1 {
        assert(r[r.len() - 1] == s[h]);
    } else {
        let init = s.drop_last();
        assert(init[h] == s[h]);
        exactness_keeps_members(init, exact, h);
        let t = with_exactness(init, exact).index_of(s[h]);
        assert(r[t] == s[h]);
    }
}

/// What `char::is_alphanumeric` says of a character.
pub uninterp spec fn alphanumeric(c: char) -> bool;

/// `char::is_alphanumeric`: a letter or a number as Unicode has it. Of the ASCII
/// characters those are the letters and the digits.
#[verifier::external_body]
fn is_alphanumeric(c: char) -> (r: bool)
    ensures
        r == alphanumeric(c),
        (c as int) < 128 ==> r == ('0' <= c <= '9' || 'A' <= c <= 'Z' || 'a' <= c <= 'z'),
{
    c.is_alphanumeric()
}

/// A character that continues an identifier.
pub open spec fn is_ident_char(c: char) -> bool {
    alphanumeric(c) || c == '_'
}

/// Where `name` stands in `text` from `i` on, each place after the end of the one before.
pub open spec fn matches_from(text: Seq<char>, name: Seq<char>, i: int) -> Seq<int>
    decreases text.len() - i,
{
    if name.len() == 0 || i < 0 || i + name.len() > text.len() {
        Seq::empty()
    } else if occurs_at(text, name, i) {
        seq![i] + matches_from(text, name, i + name.len())
    } else {
        matches_from(text, name, i + 1)
    }
}

/// `name` stands at `at` as a whole identifier.
pub open spec fn is_whole_at(text: Seq<char>, name: Seq<char>, at: int) -> bool {
    &&& occurs_at(text, name, at)
    &&& at == 0 || !is_ident_char(text[at - 1])
    &&& at + name.len() == text.len() || !is_ident_char(text[at + name.len()])
}

/// The byte at which the character at `at` starts.
pub open spec fn byte_of(text: Seq<char>, at: int) -> nat {
    encode_utf8(text.take(at)).len()
}

/// The bytes at which those of the places start where `name` is a whole identifier.
pub open spec fn whole_bytes(text: Seq<char>, name: Seq<char>, at: Seq<int>) -> Seq<usize>
    decreases at.len(),
{
    if at.len() == 0 {
        Seq::empty()
    } else if is_whole_at(text, name, at[0]) {
        seq![byte_of(text, at[0]) as usize] + whole_bytes(text, name, at.drop_first())
    } else {
        whole_bytes(text, name, at.drop_first())
    }
}

/// How many bytes a character has in UTF-8.
pub open spec fn width_of(c: char) -> nat {
    if (c as int) < 0x80 {
        1
    } else if (c as int) < 0x800 {
        2
    } else if (c as int) < 0x10000 {
        3
    } else {
        4
    }
}

proof fn encoded_len_push(s: Seq<char>, c: char)
    ensures
        encode_utf8(s.push(c)).len() == encode_utf8(s).len() + width_of(c),
    decreases s.len(),
{
    if s.len() == 0 {
        assert(s.push(c).drop_first() =~= Seq::<char>::empty());
        assert(encode_utf8(s) =~= Seq::<u8>::empty());
        reveal_with_fuel(encode_utf8, 2);
        encoded_width(c);
    } else {
        assert(s.push(c).drop_first() =~= s.drop_first().push(c));
        encoded_len_push(s.drop_first(), c);
        assert(s.push(c)[0] == s[0]);
    }
}

proof fn encoded_width(c: char)
    ensures
        encode_scalar(c as u32).len() == width_of(c),
{
    broadcast use vstd::utf8::char_is_scalar;

    vstd::utf8::char_u32_cast(c, c as u32);
}

fn char_width(c: char) -> (n: usize)
    ensures
        n == width_of(c),
{
    let code: u32 = c as u32;
    proof {
        vstd::utf8::char_u32_cast(c, c as u32);
    }
    if code < 0x80 {
        1
    } else if code < 0x800 {
        2
    } else if code < 0x10000 {
        3
    } else {
        4
    }
}

fn continues_identifier(c: char) -> (r: bool)
    ensures
        r == is_ident_char(c),
{
    is_alphanumeric(c) || c == '_'
}

pub(crate) proof fn byte_of_next(text: Seq<char>, i: int)
    requires
        0 <= i < text.len(),
    ensures
        byte_of(text, i + 1) == byte_of(text, i) + width_of(text[i]),
{
    assert(text.take(i + 1) =~= text.take(i).push(text[i]));
    encoded_len_push(text.take(i), text[i]);
}

pub(crate) proof fn byte_of_grows(text: Seq<char>, i: int)
    requires
        0 <= i <= text.len(),
    ensures
        byte_of(text, i) <= encode_utf8(text).len(),
    decreases text.len() - i,
{
    if i < text.len() {
        byte_of_next(text, i);
        byte_of_grows(text, i + 1);
    } else {
        assert(text.take(i) =~= text);
    }
}

/// The bytes at which `name` stands in `text` as a whole identifier: among its
/// occurrences from the left, none overlapping the one before, those with nothing
/// on either side that would continue the identifier.
pub fn identifier_occurrences(text: &str, name: &str) -> (out: Vec<usize>)
    ensures
        out@ == whole_bytes(text@, name@, matches_from(text@, name@, 0)),
{
    let mut out: Vec<usize> = Vec::new();
    let n = chars_of(name);
    if n.len() == 0 {
        return out;
    }
    let bytes: usize = text.as_bytes().len();
    let t = chars_of(text);
    let len: usize = t.len();
    let mut i: usize = 0;
    let mut byte: usize = 0;
    let ghost whole = whole_bytes(text@, name@, matches_from(text@, name@, 0));
    proof {
        assert(text@.take(0) =~= Seq::<char>::empty());
        assert(out@ + whole =~= whole);
    }
    while i < len && n.len() <= len - i
        invariant
            t@ == text@,
            n@ == name@,
            len == t@.len(),
            n@.len() > 0,
            i <= len,
            bytes == encode_utf8(text@).len(),
            byte == byte_of(text@, i as int),
            whole == whole_bytes(text@, name@, matches_from(text@, name@, 0)),
            out@ + whole_bytes(text@, name@, matches_from(text@, name@, i as int)) == whole,
        decreases len - i,
    {
        let ghost rest = matches_from(text@, name@, i as int);
        if stands_at(&t, &n, i) {
            let end: usize = i + n.len();
            let free_before: bool = i == 0 || !continues_identifier(t[i - 1]);
            let free_after: bool = end == len || !continues_identifier(t[end]);
            proof {
                let later = matches_from(text@, name@, end as int);
                assert(rest == seq![i as int] + later);
                assert(rest[0] == i);
                assert(rest.drop_first() =~= later);
            }
            if free_before && free_after {
                let ghost held = out@;
                out.push(byte);
                proof {
                    byte_of_grows(text@, i as int);
                    let later = whole_bytes(text@, name@, rest.drop_first());
                    assert(held + (seq![byte] + later) =~= out@ + later);
                }
            }
            while i < end
                invariant
                    t@ == text@,
                    len == t@.len(),
                    i <= end <= len,
                    bytes == encode_utf8(text@).len(),
                    byte == byte_of(text@, i as int),
                decreases end - i,
            {
                proof {
                    byte_of_next(text@, i as int);
                    byte_of_grows(text@, i + 1);
                }
                byte = byte + char_width(t[i]);
                i += 1;
            }
        } else {
            proof {
                byte_of_next(text@, i as int);
                byte_of_grows(text@, i + 1);
            }
            byte = byte + char_width(t[i]);
            i += 1;
        }
    }
    proof {
        assert(matches_from(text@, name@, i as int) =~= Seq::<int>::empty());
        assert(out@ + Seq::<usize>::empty() =~= out@);
    }
    out
}

/// A name of nothing but characters of identifiers is found wherever it stands as
/// a whole identifier: no such place is hidden by an occurrence that overlaps it.
pub proof fn every_whole_occurrence_is_found(text: Seq<char>, name: Seq<char>, at: int)
    requires
        name.len() > 0,
        forall|k: int| 0 <= k < name.len() ==> is_ident_char(#[trigger] name[k]),
        is_whole_at(text, name, at),
    ensures
        matches_from(text, name, 0).contains(at),
{
    whole_occurrence_is_found_from(text, name, at, 0);
}

proof fn whole_occurrence_is_found_from(text: Seq<char>, name: Seq<char>, at: int, i: int)
    requires
        name.len() > 0,
        forall|k: int| 0 <= k < name.len() ==> is_ident_char(#[trigger] name[k]),
        is_whole_at(text, name, at),
        0 <= i <= at,
    ensures
        matches_from(text, name, i).contains(at),
    decreases at - i,
{
    let found = matches_from(text, name, i);
    if occurs_at(text, name, i) {
        let later = matches_from(text, name, i + name.len());
        assert(found == seq![i] + later);
        if i == at {
            assert(found[0] == at);
        } else if i + name.len() > at {
            let k = at - 1 - i;
            assert(text.subrange(i, i + name.len())[k] == text[at - 1]);
            assert(is_ident_char(name[k]));
        } else {
            whole_occurrence_is_found_from(text, name, at, i + name.len());
            let k = later.index_of(at);
            assert(found[k + 1] == at);
        }
    } else {
        whole_occurrence_is_found_from(text, name, at, i + 1);
    }
}

/// What a definition is.
#[derive(Debug, Clone, Copy, PartialEq, Eq, Structural)]
pub enum DeclKind {
    /// A field of a struct.
    Field,
    /// A variant of an enum.
    Variant,
    /// Anything else, or nothing that is known.
    Other,
}

/// What a position resolved to.
#[derive(Debug, Clone)]
pub struct ResolvedDecl {
    /// Its name.
    pub name: String,
    /// What it is.
    pub kind: DeclKind,
}

/// Whether a definition is one that the sweep of the text looks for: of the wanted
/// name, and of one of the two kinds that a symbol index leaves out.
pub fn is_the_wanted_name(decl: &ResolvedDecl, symbol_name: &str) -> (r: bool)
    ensures
        r == (decl.name@ == symbol_name@ && decl.kind != DeclKind::Other),
{
    same(decl.name.as_str(), symbol_name) && (decl.kind == DeclKind::Field || decl.kind
        == DeclKind::Variant)
}

/// A place as an analysis gives it; lines and columns count from zero.
pub struct Spot {
    /// The file.
    pub file_path: String,
    /// The line.
    pub line: u32,
    /// The column.
    pub column: u32,
}

/// A definition that an analysis found at a position, with its references.
pub struct FoundDefinition {
    /// The definition itself, with its place, where the analysis has it.
    pub declaration: Option<(ResolvedDecl, Spot)>,
    /// The places that refer to it.
    pub references: Vec<Spot>,
}

/// The lines and columns can be counted from one.
pub open spec fn is_countable(found: FoundDefinition) -> bool {
    &&& found.declaration matches Some((_, spot)) ==> spot.line < u32::MAX && spot.column < u32::MAX
    &&& forall|i: int|
        0 <= i < found.references@.len() ==> (#[trigger] found.references@[i]).line < u32::MAX
            && found.references@[i].column < u32::MAX
}

/// The location of a spot.
pub open spec fn place_of(spot: Spot, name: Seq<char>, exact: bool) -> Place {
    Place {
        file_path: spot.file_path@,
        line: (spot.line + 1) as u32,
        column: (spot.column + 1) as u32,
        name,
        exact,
    }
}

/// The places of one definition: the definition itself, then its references.
pub open spec fn places_of_one(found: FoundDefinition, exact: bool) -> Seq<Place> {
    (match found.declaration {
        Some((decl, spot)) => seq![place_of(spot, decl.name@, exact)],
        None => Seq::empty(),
    }) + reference_places(found.references@, exact)
}

/// The places of all definitions.
pub open spec fn places_of_all(found: Seq<FoundDefinition>, exact: bool) -> Seq<Place>
    decreases found.len(),
{
    if found.len() == 0 {
        Seq::empty()
    } else {
        places_of_all(found.drop_last(), exact) + places_of_one(found.last(), exact)
    }
}

/// The first definition of `found` that the analysis has, from `i` on.
pub open spec fn first_declaration(found: Seq<FoundDefinition>, i: int) -> Option<ResolvedDecl>
    decreases found.len() - i,
{
    if i < 0 || i >= found.len() {
        None
    } else {
        match found[i].declaration {
            Some((decl, _)) => Some(decl),
            None => first_declaration(found, i + 1),
        }
    }
}

fn location_of(spot: &Spot, name: &str, exact: bool) -> (l: Location)
    requires
        spot.line < u32::MAX,
        spot.column < u32::MAX,
    ensures
        l@ == place_of(*spot, name@, exact),
{
    Location {
        file_path: spot.file_path.clone(),
        line: spot.line + 1,
        column: spot.column + 1,
        name: name.to_owned(),
        exact,
    }
}

/// The places of references.
pub open spec fn reference_places(references: Seq<Spot>, exact: bool) -> Seq<Place> {
    Seq::new(references.len(), |i: int| place_of(references[i], "reference"@, exact))
}

fn push_references(out: &mut Vec<Location>, references: &Vec<Spot>, exact: bool)
    requires
        forall|i: int|
            0 <= i < references@.len() ==> (#[trigger] references@[i]).line < u32::MAX
                && references@[i].column < u32::MAX,
    ensures
        places(final(out)@) == places(old(out)@) + reference_places(references@, exact),
{
    let ghost head = places(out@);
    let ghost all = reference_places(references@, exact);
    let mut k: usize = 0;
    assert(head + all.take(0) =~= head);
    while k < references.len()
        invariant
            k <= references@.len(),
            forall|i: int|
                0 <= i < references@.len() ==> (#[trigger] references@[i]).line < u32::MAX
                    && references@[i].column < u32::MAX,
            all == reference_places(references@, exact),
            places(out@) == head + all.take(k as int),
        decreases references@.len() - k,
    {
        let ghost held = places(out@);
        out.push(location_of(&references[k], "reference", exact));
        proof {
            assert(places(out@) =~= held.push(all[k as int]));
            assert(held.push(all[k as int]) =~= head + all.take(k + 1));
        }
        k += 1;
    }
    assert(all.take(k as int) =~= all);
}

/// Appends the places of one definition.
fn push_definition(out: &mut Vec<Location>, found: &FoundDefinition, exact: bool)
    requires
        is_countable(*found),
    ensures
        places(final(out)@) == places(old(out)@) + places_of_one(*found, exact),
{
    let ghost before = places(out@);
    match &found.declaration {
        Some((decl, spot)) => {
            out.push(location_of(spot, decl.name.as_str(), exact));
            assert(places(out@) =~= before.push(place_of(*spot, decl.name@, exact)));
        },
        None => {},
    }
    push_references(out, &found.references, exact);
    assert(places(out@) =~= before + places_of_one(*found, exact));
}

/// Appends the places of what an analysis found at a position, and gives what the
/// position resolved to: nothing where it pointed at no name.
pub fn harvest_refs_at(found: &Vec<FoundDefinition>, exact: bool, out: &mut Vec<Location>) -> (r:
    Option<ResolvedDecl>)
    requires
        forall|i: int| 0 <= i < found@.len() ==> is_countable(#[trigger] found@[i]),
    ensures
        places(final(out)@) == places(old(out)@) + places_of_all(found@, exact),
        match r {
            Some(decl) => first_declaration(found@, 0) matches Some(first) && decl.name@
                == first.name@ && decl.kind == first.kind,
            None => first_declaration(found@, 0) is None,
        },
{
    let ghost start = places(out@);
    let mut resolved: Option<ResolvedDecl> = None;
    let mut i: usize = 0;
    assert(start + places_of_all(found@.take(0), exact) =~= start);
    while i < found.len()
        invariant
            i <= found@.len(),
            forall|k: int| 0 <= k < found@.len() ==> is_countable(#[trigger] found@[k]),
            places(out@) == start + places_of_all(found@.take(i as int), exact),
            match resolved {
                Some(decl) => first_declaration(found@, 0) matches Some(first) && decl.name@
                    == first.name@ && decl.kind == first.kind,
                None => first_declaration(found@, 0) == first_declaration(found@, i as int),
            },
        decreases found@.len() - i,
    {
        let one = &found[i];
        assert(is_countable(found@[i as int]));
        if resolved.is_none() {
            if let Some((decl, _)) = &one.declaration {
                resolved = Some(ResolvedDecl { name: decl.name.clone(), kind: decl.kind });
            }
        }
        push_definition(out, one, exact);
        proof {
            assert(found@.take(i + 1).drop_last() =~= found@.take(i as int));
            assert(found@.take(i + 1).last() == *one);
            assert(places(out@) =~= start + places_of_all(found@.take(i + 1), exact));
        }
        i += 1;
    }
    assert(found@.take(i as int) =~= found@);
    resolved
}

/// The message for a position that points at no name.
pub open spec fn no_symbol_message(file_path: Seq<char>, line: u32, column: u32) -> Seq<char> {
    "No symbol at "@ + file_path + ":"@ + decimal(line as nat) + ":"@ + decimal(column as nat)
        + " — the position does not point at a name (try a column inside the identifier)"@
}

/// The places that refer to what is at a position. That there is no name at the
/// position is an error and not an empty answer.
pub fn references_found(
    found: &Vec<FoundDefinition>,
    file_path: &str,
    line: u32,
    column: u32,
) -> (r: Result<Vec<Location>, String>)
    requires
        forall|i: int| 0 <= i < found@.len() ==> is_countable(#[trigger] found@[i]),
    ensures
        r is Ok <==> first_declaration(found@, 0) is Some,
        r matches Ok(locations) ==> places(locations@) == places_of_all(found@, false),
        r matches Err(e) ==> e@ == no_symbol_message(file_path@, line, column),
{
    let mut out: Vec<Location> = Vec::new();
    let resolved = harvest_refs_at(found, false, &mut out);
    assert(places(out@) =~= places_of_all(found@, false));
    if resolved.is_none() {
        let mut e = "No symbol at ".to_owned();
        e.append(file_path);
        e.append(":");
        e.append(number(line as u128).as_str());
        e.append(":");
        e.append(number(column as u128).as_str());
        e.append(
            " — the position does not point at a name (try a column inside the identifier)",
        );
        return Err(e);
    }
    Ok(out)
}

/// The positions below `n` of the names that are `symbol`, or that are not.
pub open spec fn positions_named(
    names: Seq<Seq<char>>,
    symbol: Seq<char>,
    is_it: bool,
    n: nat,
) -> Seq<usize>
    decreases n,
{
    if n == 0 {
        Seq::empty()
    } else {
        let init = positions_named(names, symbol, is_it, (n - 1) as nat);
        if (names[n - 1] == symbol) == is_it {
            init.push((n - 1) as usize)
        } else {
            init
        }
    }
}

/// A symbol that a search found: its name, its file, and the byte at which its name, or
/// else the whole of it, begins.
pub struct SymbolHit {
    /// Its name.
    pub name: String,
    /// Its file.
    pub file: u32,
    /// The byte at which it begins.
    pub offset: u32,
}

/// The names of symbols.
pub open spec fn names_of(symbols: Seq<SymbolHit>) -> Seq<Seq<char>> {
    Seq::new(symbols.len(), |i: int| symbols[i].name@)
}

/// The positions of the symbols that are asked for their references, in order: those of
/// exactly the name first, and only those where nothing else is wanted.
pub open spec fn asking_order(symbols: Seq<SymbolHit>, name: Seq<char>, exact_only: bool) -> Seq<
    usize,
> {
    let names = names_of(symbols);
    positions_named(names, name, true, names.len()) + (if exact_only {
        Seq::empty()
    } else {
        positions_named(names, name, false, names.len())
    })
}

/// In which order symbols are asked for their references. The second result says whether
/// there is one of exactly the name.
pub fn order_symbols(symbols: &Vec<SymbolHit>, symbol_name: &str, exact_only: bool) -> (r: (
    Vec<usize>,
    bool,
))
    ensures
        r.0@ == asking_order(symbols@, symbol_name@, exact_only),
        forall|k: int| 0 <= k < r.0@.len() ==> (#[trigger] r.0@[k]) < symbols@.len(),
        r.1 == names_of(symbols@).contains(symbol_name@),
{
    let mut exact: Vec<usize> = Vec::new();
    let mut other: Vec<usize> = Vec::new();
    let ghost names = names_of(symbols@);
    let mut i: usize = 0;
    while i < symbols.len()
        invariant
            i <= symbols@.len(),
            names == names_of(symbols@),
            exact@ == positions_named(names, symbol_name@, true, i as nat),
            other@ == positions_named(names, symbol_name@, false, i as nat),
            forall|k: int| 0 <= k < exact@.len() ==> (#[trigger] exact@[k]) < i,
            forall|k: int| 0 <= k < other@.len() ==> (#[trigger] other@[k]) < i,
            exact@.len() > 0 <==> exists|k: int| 0 <= k < i && #[trigger] names[k] == symbol_name@,
        decreases symbols@.len() - i,
    {
        assert(names[i as int] == symbols@[i as int].name@);
        if same(symbols[i].name.as_str(), symbol_name) {
            exact.push(i);
        } else {
            other.push(i);
        }
        i += 1;
    }
    let resolved: bool = exact.len() > 0;
    if !exact_only {
        exact.append(&mut other);
    } else {
        assert(exact@ + Seq::<usize>::empty() =~= exact@);
    }
    (exact, resolved)
}

/// The places of what the analysis found at the first symbols of `order`. They are exact
/// where the symbol has exactly the name.
pub open spec fn harvested(
    symbols: Seq<SymbolHit>,
    order: Seq<usize>,
    name: Seq<char>,
    answers: Seq<Vec<FoundDefinition>>,
) -> Seq<Place>
    decreases answers.len(),
{
    if answers.len() == 0 {
        Seq::empty()
    } else {
        harvested(symbols, order, name, answers.drop_last()) + places_of_all(
            answers.last()@,
            symbols[order[answers.len() - 1] as int].name@ == name,
        )
    }
}

/// `answers` is what the analysis found at the first symbols of `order`.
pub open spec fn are_asked<A: Fn(u32, u32) -> Result<Vec<FoundDefinition>, String>>(
    symbols: Seq<SymbolHit>,
    order: Seq<usize>,
    answers: Seq<Vec<FoundDefinition>>,
    ask: A,
) -> bool {
    &&& answers.len() <= order.len()
    &&& forall|k: int|
        0 <= k < answers.len() ==> call_ensures(
            ask,
            (symbols[order[k] as int].file, symbols[order[k] as int].offset),
            Ok(#[trigger] answers[k]),
        )
}

/// Whether a file is swept for a name: a Rust file under the project's root.
pub fn is_swept(path: &str, project_root: &str) -> (r: bool)
    ensures
        r == (is_rust_path(path@) && is_under(path@, project_root@)),
{
    is_rust_file(path) && starts_with(path, project_root)
}

/// The byte at which an occurrence of a name is asked: one byte into it, or at its
/// start where there is no inside. `name_len` is its length in bytes.
pub fn probe_offset(start: usize, name_len: usize) -> (at: usize)
    requires
        start < usize::MAX,
    ensures
        at == (if name_len > 1 {
            start + 1
        } else {
            start as int
        }),
{
    if name_len > 1 {
        start + 1
    } else {
        start
    }
}

/// A position of a file: its path in normal form, its line and its column.
pub open spec fn position_key(p: Place) -> (Seq<char>, u32, u32) {
    (normal(p.file_path), p.line, p.column)
}

/// The keys of places.
pub open spec fn position_keys(all: Seq<Place>) -> Set<(Seq<char>, u32, u32)> {
    Set::new(
        |k: (Seq<char>, u32, u32)|
            exists|i: int| 0 <= i < all.len() && position_key(#[trigger] all[i]) == k,
    )
}

/// A sweep of the text for a name: the locations found so far, and the positions
/// that are accounted for.
pub struct TokenScan {
    out: Vec<Location>,
    covered: Vec<(String, u32, u32)>,
}

/// The state of a sweep.
pub struct ScanState {
    /// The places found so far.
    pub out: Seq<Place>,
    /// The positions that are accounted for.
    pub covered: Set<(Seq<char>, u32, u32)>,
}

impl View for TokenScan {
    type V = ScanState;

    closed spec fn view(&self) -> ScanState {
        ScanState {
            out: places(self.out@),
            covered: Set::new(
                |k: (Seq<char>, u32, u32)|
                    exists|i: int|
                        0 <= i < self.covered@.len() && #[trigger] entry_key(self.covered@[i]) == k,
            ),
        }
    }
}

spec fn entry_key(e: (String, u32, u32)) -> (Seq<char>, u32, u32) {
    (e.0@, e.1, e.2)
}

/// The state of a sweep that goes on from places that were found already.
pub open spec fn scan_from(found: Seq<Place>) -> ScanState {
    ScanState { out: found, covered: position_keys(found) }
}

/// The state of a sweep after what an analysis found at an occurrence of `symbol`.
/// Where that is the wanted definition, its places are kept, and all of them are
/// accounted for; else the occurrence only looked right, and nothing is kept.
pub open spec fn with_answer(s: ScanState, found: Seq<FoundDefinition>, symbol: Seq<char>) -> ScanState {
    let wanted = first_declaration(found, 0) matches Some(decl) && decl.name@ == symbol && decl.kind
        != DeclKind::Other;
    if wanted {
        ScanState {
            out: s.out + places_of_all(found, true),
            covered: s.covered.union(position_keys(places_of_all(found, true))),
        }
    } else {
        s
    }
}

impl TokenScan {
    /// A sweep that goes on from locations that were found already.
    pub fn new(found: Vec<Location>) -> (s: Self)
        ensures
            s@ == scan_from(places(found@)),
    {
        let mut s = TokenScan { out: Vec::new(), covered: Vec::new() };
        assert(s@.covered =~= Set::empty());
        let ghost all = places(found@);
        s.cover(&found, 0);
        s.out = found;
        assert(s@.covered =~= position_keys(all)) by {
            assert(all.skip(0) =~= all);
        }
        s
    }

    fn cover(&mut self, locations: &Vec<Location>, from: usize)
        requires
            from <= locations@.len(),
        ensures
            final(self)@.out == old(self)@.out,
            final(self)@.covered == old(self)@.covered.union(
                position_keys(places(locations@).skip(from as int)),
            ),
    {
        let ghost all = places(locations@);
        let ghost start = self@.covered;
        let mut i: usize = from;
        proof {
            assert(position_keys(all.subrange(from as int, from as int)) =~= Set::empty());
            assert(start =~= start.union(position_keys(all.subrange(from as int, from as int))));
        }
        while i < locations.len()
            invariant
                from <= i <= locations@.len(),
                all == places(locations@),
                self@.out == old(self)@.out,
                self@.covered == start.union(
                    position_keys(all.subrange(from as int, i as int)),
                ),
            decreases locations@.len() - i,
        {
            let ghost seen = all.subrange(from as int, i as int);
            let ghost now = all.subrange(from as int, i + 1);
            self.add(locations[i].file_path.as_str(), locations[i].line, locations[i].column);
            proof {
                let p = locations@[i as int]@;
                assert(now =~= seen.push(p));
                assert forall|k: (Seq<char>, u32, u32)|
                    position_keys(now).contains(k) == (position_keys(seen).contains(k)
                        || position_key(p) == k) by {
                    if position_keys(seen).contains(k) {
                        let j = choose|j: int|
                            0 <= j < seen.len() && position_key(#[trigger] seen[j]) == k;
                        assert(position_key(now[j]) == k);
                    }
                    assert(now[seen.len() as int] == p);
                    if position_keys(now).contains(k) {
                        let j = choose|j: int|
                            0 <= j < now.len() && position_key(#[trigger] now[j]) == k;
                        if j < seen.len() {
                            assert(seen[j] == now[j]);
                        }
                    }
                }
                assert(self@.covered =~= start.union(position_keys(now)));
            }
            i += 1;
        }
        assert(all.subrange(from as int, i as int) =~= all.skip(from as int));
    }

    fn add(&mut self, file_path: &str, line: u32, column: u32)
        ensures
            final(self)@.out == old(self)@.out,
            final(self)@.covered == old(self)@.covered.insert((normal(file_path@), line, column)),
    {
        let ghost held = self.covered@;
        let path = normalized(file_path);
        let ghost e = (path, line, column);
        self.covered.push((path, line, column));
        proof {
            let now = self.covered@;
            assert(now =~= held.push(e));
            assert forall|k: (Seq<char>, u32, u32)|
                self@.covered.contains(k) == (old(self)@.covered.contains(k) || entry_key(e) == k) by {
                if old(self)@.covered.contains(k) {
                    let i = choose|i: int|
                        0 <= i < held.len() && #[trigger] entry_key(held[i]) == k;
                    assert(entry_key(now[i]) == k);
                }
                if entry_key(e) == k {
                    assert(entry_key(now[held.len() as int]) == k);
                }
                if self@.covered.contains(k) {
                    let i = choose|i: int| 0 <= i < now.len() && #[trigger] entry_key(now[i]) == k;
                    if i < held.len() {
                        assert(entry_key(held[i]) == k);
                    }
                }
            }
            assert(self@.covered =~= old(self)@.covered.insert(entry_key(e)));
        }
    }

    /// Whether an occurrence at a position is asked: not where the position is
    /// accounted for. From now on it is.
    pub fn should_probe(&mut self, file_path: &str, line: u32, column: u32) -> (r: bool)
        ensures
            r == !old(self)@.covered.contains((normal(file_path@), line, column)),
            final(self)@.out == old(self)@.out,
            final(self)@.covered == old(self)@.covered.insert((normal(file_path@), line, column)),
    {
        let path = normalized(file_path);
        let mut i: usize = 0;
        while i < self.covered.len()
            invariant
                i <= self.covered@.len(),
                *self == *old(self),
                path@ == normal(file_path@),
                forall|k: int|
                    0 <= k < i ==> #[trigger] entry_key(self.covered@[k]) != (path@, line, column),
            decreases self.covered@.len() - i,
        {
            if self.covered[i].1 == line && self.covered[i].2 == column && same(
                self.covered[i].0.as_str(),
                path.as_str(),
            ) {
                proof {
                    assert(entry_key(self.covered@[i as int]) == (path@, line, column));
                    assert(self@.covered.contains((path@, line, column)));
                    assert(self@.covered =~= self@.covered.insert((path@, line, column)));
                }
                return false;
            }
            i += 1;
        }
        self.add(file_path, line, column);
        true
    }

    /// Takes what an analysis found at an occurrence of `symbol_name`. Where it is
    /// the wanted definition, its places are kept, and all of them are accounted for;
    /// else the occurrence only looked right, and nothing is kept.
    pub fn probed(&mut self, found: &Vec<FoundDefinition>, symbol_name: &str)
        requires
            forall|i: int| 0 <= i < found@.len() ==> is_countable(#[trigger] found@[i]),
        ensures
            final(self)@ == with_answer(old(self)@, found@, symbol_name@),
    {
        let mut fresh: Vec<Location> = Vec::new();
        let resolved = harvest_refs_at(found, true, &mut fresh);
        assert(places(fresh@) =~= places_of_all(found@, true));
        let wanted: bool = match &resolved {
            Some(decl) => is_the_wanted_name(decl, symbol_name),
            None => false,
        };
        if wanted {
            self.cover(&fresh, 0);
            proof {
                assert(places(fresh@).skip(0) =~= places(fresh@));
            }
            let ghost held = self.out@;
            let ghost more = fresh@;
            let ghost covered = self@.covered;
            self.out.append(&mut fresh);
            proof {
                assert(places(self.out@) =~= places(held) + places(more));
                assert(self@.covered =~= covered);
            }
        }
    }

    /// The locations that were found.
    pub fn finish(self) -> (out: Vec<Location>)
        ensures
            places(out@) == self@.out,
    {
        self.out
    }
}

/// A file that the analysis knows: its number, and its path where it is on the disk.
pub struct SourceFile {
    /// Its number.
    pub id: u32,
    /// Its path.
    pub path: Option<String>,
}

/// Whether a file is swept.
pub open spec fn is_swept_file(file: SourceFile, root: Seq<char>) -> bool {
    file.path matches Some(path) && is_rust_path(path@) && is_under(path@, root)
}

/// `order` are the positions of the files that are swept, in the order of their numbers.
pub open spec fn is_sweep_order(order: Seq<usize>, files: Seq<SourceFile>, root: Seq<char>) -> bool {
    &&& forall|k: int|
        0 <= k < order.len() ==> #[trigger] order[k] < files.len() && is_swept_file(
            files[order[k] as int],
            root,
        )
    &&& forall|p: int|
        0 <= p < files.len() && is_swept_file(#[trigger] files[p], root) ==> order.contains(
            p as usize,
        )
    &&& forall|j: int, k: int|
        0 <= j < k < order.len() ==> comes_first(files, #[trigger] order[j], #[trigger] order[k])
}

/// The file at `a` is swept before the one at `b`.
pub open spec fn comes_first(files: Seq<SourceFile>, a: usize, b: usize) -> bool {
    files[a as int].id < files[b as int].id || (files[a as int].id == files[b as int].id && a < b)
}

/// `order` are the positions below `n` that are in `swept`, in the order of the files'
/// numbers.
spec fn is_order_below(order: Seq<usize>, files: Seq<SourceFile>, swept: Set<int>, n: int) -> bool {
    &&& forall|k: int|
        0 <= k < order.len() ==> #[trigger] order[k] < n && swept.contains(order[k] as int)
    &&& forall|p: int| 0 <= p < n && #[trigger] swept.contains(p) ==> order.contains(p as usize)
    &&& forall|j: int, k: int|
        0 <= j < k < order.len() ==> comes_first(files, #[trigger] order[j], #[trigger] order[k])
}

#[verifier::spinoff_prover]
#[verifier::rlimit(40)]
proof fn order_grows(order: Seq<usize>, files: Seq<SourceFile>, swept: Set<int>, i: usize, at: int)
    requires
        is_order_below(order, files, swept, i as int),
        swept.contains(i as int),
        0 <= at <= order.len(),
        at > 0 ==> files[order[at - 1] as int].id <= files[i as int].id,
        forall|k: int|
            at <= k < order.len() ==> files[#[trigger] order[k] as int].id > files[i as int].id,
    ensures
        is_order_below(order.insert(at, i), files, swept, i + 1),
{
    let now = order.insert(at, i);
    assert forall|k: int| 0 <= k < now.len() implies #[trigger] now[k] < i + 1 && swept.contains(
        now[k] as int,
    ) by {
        if k < at {
            assert(now[k] == order[k]);
        } else if k > at {
            assert(now[k] == order[k - 1]);
        }
    }
    assert forall|p: int| 0 <= p < i + 1 && #[trigger] swept.contains(p) implies now.contains(
        p as usize,
    ) by {
        if p < i {
            let k = order.index_of(p as usize);
            if k < at {
                assert(now[k] == p as usize);
            } else {
                assert(now[k + 1] == p as usize);
            }
        } else {
            assert(now[at] == i);
        }
    }
    assert forall|j: int, k: int| 0 <= j < k < now.len() implies comes_first(
        files,
        #[trigger] now[j],
        #[trigger] now[k],
    ) by {
        if k == at {
            assert(now[j] == order[j]);
            if j < at - 1 {
                assert(comes_first(files, order[j], order[at - 1]));
            }
        } else if j == at {
            assert(now[k] == order[k - 1]);
        } else {
            let a = if j < at {
                j
            } else {
                j - 1
            };
            let b = if k < at {
                k
            } else {
                k - 1
            };
            assert(now[j] == order[a] && now[k] == order[b]);
        }
    }
}

fn sweep_order(files: &Vec<SourceFile>, project_root: &str) -> (order: Vec<usize>)
    ensures
        is_sweep_order(order@, files@, project_root@),
{
    let mut order: Vec<usize> = Vec::new();
    let ghost swept = Set::new(|p: int| is_swept_file(files@[p], project_root@));
    let mut i: usize = 0;
    while i < files.len()
        invariant
            i <= files@.len(),
            swept == Set::new(|p: int| is_swept_file(files@[p], project_root@)),
            is_order_below(order@, files@, swept, i as int),
        decreases files@.len() - i,
    {
        if is_swept_here(&files[i], project_root) {
            assert(swept.contains(i as int));
            let at: usize = place_in_order(&order, files, i);
            proof {
                order_grows(order@, files@, swept, i, at as int);
            }
            order.insert(at, i);
        } else {
            assert(!swept.contains(i as int));
        }
        i += 1;
    }
    proof {
        assert forall|p: int|
            0 <= p < files@.len() && is_swept_file(
                #[trigger] files@[p],
                project_root@,
            ) implies order@.contains(p as usize) by {
            assert(swept.contains(p));
        }
    }
    order
}

/// Whether a file is swept.
fn is_swept_here(file: &SourceFile, project_root: &str) -> (r: bool)
    ensures
        r == is_swept_file(*file, project_root@),
{
    match &file.path {
        Some(path) => is_swept(path.as_str(), project_root),
        None => false,
    }
}

/// Where the file at `i` stands in the order.
fn place_in_order(order: &Vec<usize>, files: &Vec<SourceFile>, i: usize) -> (at: usize)
    requires
        i < files@.len(),
        forall|k: int| 0 <= k < order@.len() ==> #[trigger] order@[k] < files@.len(),
    ensures
        at <= order@.len(),
        at > 0 ==> files@[order@[at - 1] as int].id <= files@[i as int].id,
        forall|k: int|
            at <= k < order@.len() ==> files@[#[trigger] order@[k] as int].id > files@[i as int].id,
{
    let mut at: usize = order.len();
    while at > 0 && files[order[at - 1]].id > files[i].id
        invariant
            at <= order@.len(),
            i < files@.len(),
            forall|k: int| 0 <= k < order@.len() ==> #[trigger] order@[k] < files@.len(),
            forall|k: int|
                at <= k < order@.len() ==> files@[#[trigger] order@[k] as int].id
                    > files@[i as int].id,
        decreases at,
    {
        at -= 1;
    }
    at
}

/// What was heard of a file in a sweep: its text, and of each occurrence its line and
/// column, counted from zero, and what the analysis found there, if it was asked.
pub struct HeardFile {
    /// The text.
    pub text: String,
    /// The line and the column of each occurrence.
    pub marks: Seq<(u32, u32)>,
    /// What the analysis found at each occurrence.
    pub answers: Seq<Vec<FoundDefinition>>,
}

/// The bytes at which a name stands in a text as a whole identifier.
pub open spec fn starts_in(text: Seq<char>, name: Seq<char>) -> Seq<usize> {
    whole_bytes(text, name, matches_from(text, name, 0))
}

/// The position of an occurrence, with its line and column counted from one.
pub open spec fn mark_key(path: Seq<char>, mark: (u32, u32)) -> (Seq<char>, u32, u32) {
    (normal(path), (mark.0 + 1) as u32, (mark.1 + 1) as u32)
}

/// The state of a sweep after the occurrences of a file. One whose position is
/// accounted for says nothing new; any other is accounted for from then on, and
/// what the analysis found there is taken.
pub open spec fn after_marks(
    before: ScanState,
    path: Seq<char>,
    name: Seq<char>,
    marks: Seq<(u32, u32)>,
    answers: Seq<Vec<FoundDefinition>>,
) -> ScanState
    decreases marks.len(),
{
    if marks.len() == 0 {
        before
    } else {
        let s = after_marks(before, path, name, marks.drop_last(), answers.drop_last());
        let key = mark_key(path, marks.last());
        if s.covered.contains(key) {
            s
        } else {
            with_answer(
                ScanState { out: s.out, covered: s.covered.insert(key) },
                answers.last()@,
                name,
            )
        }
    }
}

/// The byte at which an occurrence that starts at `start` is asked.
pub open spec fn asked_at(start: usize, name: Seq<char>) -> u32 {
    if encode_utf8(name).len() > 1 {
        (start + 1) as u32
    } else {
        start as u32
    }
}

/// `h` is what was heard of a file up to some occurrence: its text was read, each
/// occurrence before was placed, and the analysis was asked at those that were not
/// accounted for.
pub open spec fn is_heard_so_far<
    T: Fn(u32) -> Result<String, String>,
    W: Fn(u32, u32) -> Result<(u32, u32), String>,
    A: Fn(u32, u32) -> Result<Vec<FoundDefinition>, String>,
>(
    before: ScanState,
    file: SourceFile,
    name: Seq<char>,
    h: HeardFile,
    read: T,
    place: W,
    ask: A,
) -> bool {
    let starts = starts_in(h.text@, name);
    &&& call_ensures(read, (file.id,), Ok(h.text))
    &&& h.marks.len() <= starts.len()
    &&& h.answers.len() == h.marks.len()
    &&& forall|i: int|
        0 <= i < h.marks.len() ==> is_heard_at(
            before,
            file,
            name,
            h.marks.take(i),
            h.answers.take(i),
            #[trigger] starts[i],
            h.marks[i],
            h.answers[i],
            place,
            ask,
        )
}

/// `h` is what was heard of a whole file.
pub open spec fn is_heard<
    T: Fn(u32) -> Result<String, String>,
    W: Fn(u32, u32) -> Result<(u32, u32), String>,
    A: Fn(u32, u32) -> Result<Vec<FoundDefinition>, String>,
>(
    before: ScanState,
    file: SourceFile,
    name: Seq<char>,
    h: HeardFile,
    read: T,
    place: W,
    ask: A,
) -> bool {
    &&& is_heard_so_far(before, file, name, h, read, place, ask)
    &&& h.marks.len() == starts_in(h.text@, name).len()
}

/// `e` is the error that ended the sweep of a file: its text was not read; or the
/// occurrence after those that were heard was not placed; or it was placed at a position
/// that was not accounted for, and there the analysis failed.
pub open spec fn is_file_refusal<
    T: Fn(u32) -> Result<String, String>,
    W: Fn(u32, u32) -> Result<(u32, u32), String>,
    A: Fn(u32, u32) -> Result<Vec<FoundDefinition>, String>,
>(
    before: ScanState,
    file: SourceFile,
    name: Seq<char>,
    e: String,
    read: T,
    place: W,
    ask: A,
) -> bool {
    ||| call_ensures(read, (file.id,), Err(e))
    ||| exists|h: HeardFile|
        {
            &&& #[trigger] is_heard_so_far(before, file, name, h, read, place, ask)
            &&& h.marks.len() < starts_in(h.text@, name).len()
            &&& is_refused_at(
                before,
                file,
                name,
                h,
                starts_in(h.text@, name)[h.marks.len() as int],
                e,
                place,
                ask,
            )
        }
}

/// `e` is the error at the occurrence that starts at `start`, after what was heard of the
/// file before.
pub open spec fn is_refused_at<
    W: Fn(u32, u32) -> Result<(u32, u32), String>,
    A: Fn(u32, u32) -> Result<Vec<FoundDefinition>, String>,
>(
    before: ScanState,
    file: SourceFile,
    name: Seq<char>,
    h: HeardFile,
    start: usize,
    e: String,
    place: W,
    ask: A,
) -> bool {
    let path = file.path->Some_0@;
    let covered = after_marks(before, path, name, h.marks, h.answers).covered;
    ||| call_ensures(place, (file.id, start as u32), Err(e))
    ||| exists|mark: (u32, u32)|
        {
            &&& #[trigger] call_ensures(place, (file.id, start as u32), Ok(mark))
            &&& !covered.contains(mark_key(path, mark))
            &&& call_ensures(ask, (file.id, asked_at(start, name)), Err(e))
        }
}

/// An occurrence was placed, and asked unless its position was accounted for by what
/// was heard of the file before.
pub open spec fn is_heard_at<
    W: Fn(u32, u32) -> Result<(u32, u32), String>,
    A: Fn(u32, u32) -> Result<Vec<FoundDefinition>, String>,
>(
    before: ScanState,
    file: SourceFile,
    name: Seq<char>,
    marks: Seq<(u32, u32)>,
    answers: Seq<Vec<FoundDefinition>>,
    start: usize,
    mark: (u32, u32),
    answer: Vec<FoundDefinition>,
    place: W,
    ask: A,
) -> bool {
    let path = file.path->Some_0@;
    &&& call_ensures(place, (file.id, start as u32), Ok(mark))
    &&& after_marks(before, path, name, marks, answers).covered.contains(mark_key(path, mark))
        || call_ensures(ask, (file.id, asked_at(start, name)), Ok(answer))
}

/// The state of a sweep after the files that were heard, which are the first of `order`.
pub open spec fn after_files(
    start: ScanState,
    files: Seq<SourceFile>,
    order: Seq<usize>,
    name: Seq<char>,
    heard: Seq<HeardFile>,
) -> ScanState
    decreases heard.len(),
{
    if heard.len() == 0 {
        start
    } else {
        after_marks(
            after_files(start, files, order, name, heard.drop_last()),
            files[order[heard.len() - 1] as int].path->Some_0@,
            name,
            heard.last().marks,
            heard.last().answers,
        )
    }
}

/// `heard` is what was heard of the first files of `order`, one after the other.
pub open spec fn are_heard<
    T: Fn(u32) -> Result<String, String>,
    W: Fn(u32, u32) -> Result<(u32, u32), String>,
    A: Fn(u32, u32) -> Result<Vec<FoundDefinition>, String>,
>(
    start: ScanState,
    files: Seq<SourceFile>,
    order: Seq<usize>,
    name: Seq<char>,
    heard: Seq<HeardFile>,
    read: T,
    place: W,
    ask: A,
) -> bool {
    &&& heard.len() <= order.len()
    &&& forall|k: int|
        0 <= k < heard.len() ==> is_heard(
            after_files(start, files, order, name, heard.take(k)),
            files[order[k] as int],
            name,
            #[trigger] heard[k],
            read,
            place,
            ask,
        )
}

/// `out` are the places of a sweep that went on from `start`: all files that are swept
/// were heard, in their order.
pub open spec fn is_sweep<
    T: Fn(u32) -> Result<String, String>,
    W: Fn(u32, u32) -> Result<(u32, u32), String>,
    A: Fn(u32, u32) -> Result<Vec<FoundDefinition>, String>,
>(
    start: Seq<Place>,
    files: Seq<SourceFile>,
    root: Seq<char>,
    name: Seq<char>,
    out: Seq<Place>,
    read: T,
    place: W,
    ask: A,
) -> bool {
    exists|order: Seq<usize>, heard: Seq<HeardFile>|
        {
            &&& is_sweep_order(order, files, root)
            &&& #[trigger] are_heard(scan_from(start), files, order, name, heard, read, place, ask)
            &&& heard.len() == order.len()
            &&& out == after_files(scan_from(start), files, order, name, heard).out
        }
}

/// `e` is the error that ended a sweep that went on from `start`: it came of the file
/// after those that were heard.
pub open spec fn is_sweep_refusal<
    T: Fn(u32) -> Result<String, String>,
    W: Fn(u32, u32) -> Result<(u32, u32), String>,
    A: Fn(u32, u32) -> Result<Vec<FoundDefinition>, String>,
>(
    start: Seq<Place>,
    files: Seq<SourceFile>,
    root: Seq<char>,
    name: Seq<char>,
    e: String,
    read: T,
    place: W,
    ask: A,
) -> bool {
    exists|order: Seq<usize>, heard: Seq<HeardFile>|
        {
            &&& is_sweep_order(order, files, root)
            &&& #[trigger] are_heard(scan_from(start), files, order, name, heard, read, place, ask)
            &&& heard.len() < order.len()
            &&& is_file_refusal(
                after_files(scan_from(start), files, order, name, heard),
                files[order[heard.len() as int] as int],
                name,
                e,
                read,
                place,
                ask,
            )
        }
}

/// A text can be read, and every byte of it has a number of 32 bits; places can be
/// counted from one.
pub open spec fn are_sources<
    T: Fn(u32) -> Result<String, String>,
    W: Fn(u32, u32) -> Result<(u32, u32), String>,
    A: Fn(u32, u32) -> Result<Vec<FoundDefinition>, String>,
>(read: T, place: W, ask: A) -> bool {
    &&& forall|file: u32| #[trigger] call_requires(read, (file,))
    &&& forall|file: u32, at: u32| #[trigger] call_requires(place, (file, at))
    &&& are_answers(ask)
    &&& forall|file: u32, text: String| #[trigger]
        call_ensures(read, (file,), Ok(text)) ==> encode_utf8(text@).len() <= u32::MAX
    &&& forall|file: u32, at: u32, mark: (u32, u32)| #[trigger]
        call_ensures(place, (file, at), Ok(mark)) ==> mark.0 < u32::MAX && mark.1 < u32::MAX
}

/// An analysis can be asked, and what it finds can be counted from one.
pub open spec fn are_answers<A: Fn(u32, u32) -> Result<Vec<FoundDefinition>, String>>(ask: A) -> bool {
    &&& forall|file: u32, at: u32| #[trigger] call_requires(ask, (file, at))
    &&& forall|file: u32, at: u32, found: Vec<FoundDefinition>| #[trigger]
        call_ensures(ask, (file, at), Ok(found)) ==> forall|i: int|
            0 <= i < found@.len() ==> is_countable(#[trigger] found@[i])
}

pub(crate) proof fn matches_are_occurrences(text: Seq<char>, name: Seq<char>, i: int)
    ensures
        forall|k: int|
            0 <= k < matches_from(text, name, i).len() ==> name.len() > 0 && 0 <= (
            #[trigger] matches_from(text, name, i)[k]) && matches_from(text, name, i)[k] + name.len()
                <= text.len(),
    decreases text.len() - i,
{
    let found = matches_from(text, name, i);
    if name.len() == 0 || i < 0 || i + name.len() > text.len() {
        assert(found.len() == 0);
    } else if occurs_at(text, name, i) {
        let later = matches_from(text, name, i + name.len());
        matches_are_occurrences(text, name, i + name.len());
        assert(found == seq![i] + later);
        assert forall|k: int| 0 <= k < found.len() implies 0 <= (#[trigger] found[k]) && found[k]
            + name.len() <= text.len() by {
            if k > 0 {
                assert(found[k] == later[k - 1]);
            }
        }
    } else {
        matches_are_occurrences(text, name, i + 1);
        assert(found == matches_from(text, name, i + 1));
    }
}

proof fn starts_are_inside(text: Seq<char>, name: Seq<char>, at: Seq<int>)
    requires
        encode_utf8(text).len() <= u32::MAX,
        forall|k: int| 0 <= k < at.len() ==> 0 <= (#[trigger] at[k]) < text.len(),
    ensures
        forall|k: int|
            0 <= k < whole_bytes(text, name, at).len() ==> (#[trigger] whole_bytes(
                text,
                name,
                at,
            )[k]) < u32::MAX,
    decreases at.len(),
{
    if at.len() > 0 {
        let rest = at.drop_first();
        starts_are_inside(text, name, rest);
        byte_of_next(text, at[0]);
        byte_of_grows(text, at[0] + 1);
        let all = whole_bytes(text, name, at);
        let later = whole_bytes(text, name, rest);
        assert forall|k: int| 0 <= k < all.len() implies (#[trigger] all[k]) < u32::MAX by {
            if is_whole_at(text, name, at[0]) {
                assert(all == seq![byte_of(text, at[0]) as usize] + later);
                if k > 0 {
                    assert(all[k] == later[k - 1]);
                }
            } else {
                assert(all == later);
            }
        }
    }
}

impl TokenScan {
    /// Sweeps a file.
    fn sweep_file<
        T: Fn(u32) -> Result<String, String> + Copy,
        W: Fn(u32, u32) -> Result<(u32, u32), String> + Copy,
        A: Fn(u32, u32) -> Result<Vec<FoundDefinition>, String> + Copy,
    >(&mut self, file: &SourceFile, path: &str, symbol_name: &str, read: T, place: W, ask: A) -> (r: (
        Result<(), String>,
        Ghost<HeardFile>,
    ))
        requires
            are_sources(read, place, ask),
            file.path matches Some(p) && p@ == path@,
        ensures
            match r.0 {
                Ok(()) => {
                    &&& is_heard(old(self)@, *file, symbol_name@, r.1@, read, place, ask)
                    &&& final(self)@ == after_marks(
                        old(self)@,
                        path@,
                        symbol_name@,
                        r.1@.marks,
                        r.1@.answers,
                    )
                },
                Err(e) => is_file_refusal(
                    old(self)@,
                    *file,
                    symbol_name@,
                    e,
                    read,
                    place,
                    ask,
                ),
            },
    {
        let ghost before = self@;
        let text = match read(file.id) {
            Ok(text) => text,
            Err(e) => {
                return (Err(e), Ghost(arbitrary()));
            },
        };
        let starts = identifier_occurrences(text.as_str(), symbol_name);
        let name_len: usize = symbol_name.as_bytes().len();
        let ghost mut marks: Seq<(u32, u32)> = Seq::empty();
        let ghost mut answers: Seq<Vec<FoundDefinition>> = Seq::empty();
        proof {
            let at = matches_from(text@, symbol_name@, 0);
            matches_are_occurrences(text@, symbol_name@, 0);
            starts_are_inside(text@, symbol_name@, at);
        }
        let mut i: usize = 0;
        while i < starts.len()
            invariant
                i <= starts@.len(),
                are_sources(read, place, ask),
                file.path matches Some(p) && p@ == path@,
                starts@ == starts_in(text@, symbol_name@),
                name_len == encode_utf8(symbol_name@).len(),
                forall|k: int| 0 <= k < starts@.len() ==> (#[trigger] starts@[k]) < u32::MAX,
                marks.len() == i,
                answers.len() == i,
                before == old(self)@,
                self@ == after_marks(before, path@, symbol_name@, marks, answers),
                is_heard_so_far(
                    before,
                    *file,
                    symbol_name@,
                    HeardFile { text, marks, answers },
                    read,
                    place,
                    ask,
                ),
            decreases starts@.len() - i,
        {
            let start: usize = starts[i];
            assert(start < u32::MAX);
            let ghost h = HeardFile { text, marks, answers };
            let mark = match place(file.id, start as u32) {
                Ok(mark) => mark,
                Err(e) => {
                    assert(is_refused_at(before, *file, symbol_name@, h, start, e, place, ask));
                    return (Err(e), Ghost(arbitrary()));
                },
            };
            let ghost held = self@;
            let ghost seen = marks;
            let ghost told = answers;
            let ghost mut answer: Vec<FoundDefinition> = arbitrary();
            if self.should_probe(path, mark.0 + 1, mark.1 + 1) {
                let at: usize = probe_offset(start, name_len);
                let found = match ask(file.id, at as u32) {
                    Ok(found) => found,
                    Err(e) => {
                        assert(is_refused_at(before, *file, symbol_name@, h, start, e, place, ask));
                        return (Err(e), Ghost(arbitrary()));
                    },
                };
                self.probed(&found, symbol_name);
                proof {
                    answer = found;
                }
            }
            proof {
                marks = seen.push(mark);
                answers = told.push(answer);
                assert(marks.drop_last() =~= seen);
                assert(answers.drop_last() =~= told);
                let key = mark_key(path@, mark);
                if held.covered.contains(key) {
                    assert(held.covered.insert(key) =~= held.covered);
                }
                assert forall|k: int| 0 <= k < i + 1 implies is_heard_at(
                    before,
                    *file,
                    symbol_name@,
                    marks.take(k),
                    answers.take(k),
                    #[trigger] starts@[k],
                    marks[k],
                    answers[k],
                    place,
                    ask,
                ) by {
                    if k < i {
                        assert(marks.take(k) =~= seen.take(k));
                        assert(answers.take(k) =~= told.take(k));
                    } else {
                        assert(marks.take(k) =~= seen);
                        assert(answers.take(k) =~= told);
                    }
                }
            }
            i += 1;
        }
        (Ok(()), Ghost(HeardFile { text, marks, answers }))
    }
}

/// Looks for a name in the files under the project's root and asks the analysis what
/// stands there, and gives the places that were found, after those in `found`. `read`
/// gives the text of a file, `place` the line and the column of a byte of it, counted
/// from zero, and `ask` what the analysis finds there.
///
/// An occurrence that a definition found before accounts for is not asked again.
pub fn collect_by_token_scan<
    T: Fn(u32) -> Result<String, String> + Copy,
    W: Fn(u32, u32) -> Result<(u32, u32), String> + Copy,
    A: Fn(u32, u32) -> Result<Vec<FoundDefinition>, String> + Copy,
>(
    files: &Vec<SourceFile>,
    project_root: &str,
    symbol_name: &str,
    found: Vec<Location>,
    read: T,
    place: W,
    ask: A,
) -> (r: Result<Vec<Location>, String>)
    requires
        are_sources(read, place, ask),
    ensures
        match r {
            Ok(out) => is_sweep(
                places(found@),
                files@,
                project_root@,
                symbol_name@,
                places(out@),
                read,
                place,
                ask,
            ),
            Err(e) => is_sweep_refusal(
                places(found@),
                files@,
                project_root@,
                symbol_name@,
                e,
                read,
                place,
                ask,
            ),
        },
{
    let order = sweep_order(files, project_root);
    let ghost start = scan_from(places(found@));
    let mut scan = TokenScan::new(found);
    let ghost mut heard: Seq<HeardFile> = Seq::empty();
    let mut k: usize = 0;
    while k < order.len()
        invariant
            k <= order@.len(),
            are_sources(read, place, ask),
            is_sweep_order(order@, files@, project_root@),
            start == scan_from(places(found@)),
            heard.len() == k,
            are_heard(start, files@, order@, symbol_name@, heard, read, place, ask),
            scan@ == after_files(start, files@, order@, symbol_name@, heard),
        decreases order@.len() - k,
    {
        let file = &files[order[k]];
        let path = match &file.path {
            Some(path) => path.as_str(),
            None => "",
        };
        let ghost before = heard;
        let (r, Ghost(h)) = scan.sweep_file(file, path, symbol_name, read, place, ask);
        if let Err(e) = r {
            return Err(e);
        }
        proof {
            heard = before.push(h);
            assert(heard.drop_last() =~= before);
            assert forall|j: int| 0 <= j < heard.len() implies is_heard(
                after_files(start, files@, order@, symbol_name@, heard.take(j)),
                files@[order@[j] as int],
                symbol_name@,
                #[trigger] heard[j],
                read,
                place,
                ask,
            ) by {
                if j < before.len() {
                    assert(heard.take(j) =~= before.take(j));
                    assert(heard[j] == before[j]);
                } else {
                    assert(heard.take(j) =~= before);
                }
            }
        }
        k += 1;
    }
    Ok(scan.finish())
}

/// `out` are the references to a name: those of the symbols that a search for it found,
/// and, where none of them has exactly the name, those that a sweep of the sources finds;
/// each position once.
pub open spec fn is_reference_list<
    T: Fn(u32) -> Result<String, String>,
    W: Fn(u32, u32) -> Result<(u32, u32), String>,
    A: Fn(u32, u32) -> Result<Vec<FoundDefinition>, String>,
>(
    symbols: Seq<SymbolHit>,
    files: Seq<SourceFile>,
    root: Seq<char>,
    name: Seq<char>,
    exact_only: bool,
    out: Seq<Place>,
    read: T,
    place: W,
    ask: A,
) -> bool {
    let order = asking_order(symbols, name, exact_only);
    exists|answers: Seq<Vec<FoundDefinition>>|
        {
            let found = harvested(symbols, order, name, answers);
            &&& #[trigger] are_asked(symbols, order, answers, ask)
            &&& answers.len() == order.len()
            &&& if names_of(symbols).contains(name) {
                is_merged(found, out)
            } else {
                exists|all: Seq<Place>| #[trigger]
                    is_sweep(found, files, root, name, all, read, place, ask) && is_merged(all, out)
            }
        }
}

/// How many symbols a search for a name is asked for.
pub const SYMBOL_LIMIT: usize = 50;

/// `e` is the error that ended a search for the references to a name: the analysis failed
/// at the symbol after those that were asked; or all of them were asked, none has exactly
/// the name, and the sweep of the sources ended with it.
pub open spec fn is_list_refusal<
    T: Fn(u32) -> Result<String, String>,
    W: Fn(u32, u32) -> Result<(u32, u32), String>,
    A: Fn(u32, u32) -> Result<Vec<FoundDefinition>, String>,
>(
    symbols: Seq<SymbolHit>,
    files: Seq<SourceFile>,
    root: Seq<char>,
    name: Seq<char>,
    exact_only: bool,
    e: String,
    read: T,
    place: W,
    ask: A,
) -> bool {
    let order = asking_order(symbols, name, exact_only);
    exists|answers: Seq<Vec<FoundDefinition>>|
        {
            let n = answers.len() as int;
            &&& #[trigger] are_asked(symbols, order, answers, ask)
            &&& if answers.len() < order.len() {
                call_ensures(
                    ask,
                    (symbols[order[n] as int].file, symbols[order[n] as int].offset),
                    Err(e),
                )
            } else {
                &&& !names_of(symbols).contains(name)
                &&& is_sweep_refusal(
                    harvested(symbols, order, name, answers),
                    files,
                    root,
                    name,
                    e,
                    read,
                    place,
                    ask,
                )
            }
        }
}

/// `r` are the references to a name, or the error of whatever was asked first and
/// refused.
pub open spec fn are_named_references<
    S: Fn(&str, usize) -> Result<Vec<SymbolHit>, String>,
    T: Fn(u32) -> Result<String, String>,
    W: Fn(u32, u32) -> Result<(u32, u32), String>,
    A: Fn(u32, u32) -> Result<Vec<FoundDefinition>, String>,
>(
    name: &str,
    exact_only: bool,
    files: Seq<SourceFile>,
    root: Seq<char>,
    search: S,
    read: T,
    place: W,
    ask: A,
    r: Result<Vec<Location>, String>,
) -> bool {
    exists|symbols: Result<Vec<SymbolHit>, String>|
        {
            &&& #[trigger] call_ensures(search, (name, SYMBOL_LIMIT), symbols)
            &&& match symbols {
                Err(e) => r == Err::<Vec<Location>, String>(e),
                Ok(symbols) => match r {
                    Ok(out) => is_reference_list(
                        symbols@,
                        files,
                        root,
                        name@,
                        exact_only,
                        places(out@),
                        read,
                        place,
                        ask,
                    ),
                    Err(e) => is_list_refusal(
                        symbols@,
                        files,
                        root,
                        name@,
                        exact_only,
                        e,
                        read,
                        place,
                        ask,
                    ),
                },
            }
        }
}

/// The references to a name in a project, by the files that the analysis knows. `search`
/// gives the symbols for a name, `read` the text of a file, `place` the line and the
/// column of a byte of it, counted from zero, and `ask` what the analysis finds there.
///
/// Fields and variants are in no index of symbols: where no symbol has exactly the name,
/// the sources are swept for it.
pub fn find_references_by_name_with_exact<
    S: Fn(&str, usize) -> Result<Vec<SymbolHit>, String>,
    T: Fn(u32) -> Result<String, String> + Copy,
    W: Fn(u32, u32) -> Result<(u32, u32), String> + Copy,
    A: Fn(u32, u32) -> Result<Vec<FoundDefinition>, String> + Copy,
>(
    symbol_name: &str,
    exact_only: bool,
    files: &Vec<SourceFile>,
    project_root: &str,
    search: S,
    read: T,
    place: W,
    ask: A,
) -> (r: Result<Vec<Location>, String>)
    requires
        call_requires(search, (symbol_name, SYMBOL_LIMIT)),
        are_sources(read, place, ask),
    ensures
        are_named_references(
            symbol_name,
            exact_only,
            files@,
            project_root@,
            search,
            read,
            place,
            ask,
            r,
        ),
{
    let symbols = match search(symbol_name, SYMBOL_LIMIT) {
        Ok(symbols) => symbols,
        Err(e) => {
            return Err(e);
        },
    };
    let (order, resolved) = order_symbols(&symbols, symbol_name, exact_only);
    let mut found: Vec<Location> = Vec::new();
    let ghost mut answers: Seq<Vec<FoundDefinition>> = Seq::empty();
    assert(places(found@) =~= Seq::<Place>::empty());
    let mut k: usize = 0;
    while k < order.len()
        invariant
            k <= order@.len(),
            call_ensures(search, (symbol_name, SYMBOL_LIMIT), Ok(symbols)),
            are_sources(read, place, ask),
            order@ == asking_order(symbols@, symbol_name@, exact_only),
            forall|j: int| 0 <= j < order@.len() ==> (#[trigger] order@[j]) < symbols@.len(),
            answers.len() == k,
            are_asked(symbols@, order@, answers, ask),
            places(found@) == harvested(symbols@, order@, symbol_name@, answers),
        decreases order@.len() - k,
    {
        let symbol = &symbols[order[k]];
        let exact: bool = same(symbol.name.as_str(), symbol_name);
        let answer = match ask(symbol.file, symbol.offset) {
            Ok(answer) => answer,
            Err(e) => {
                return Err(e);
            },
        };
        let _ = harvest_refs_at(&answer, exact, &mut found);
        proof {
            let told = answers;
            answers = told.push(answer);
            assert(answers.drop_last() =~= told);
        }
        k += 1;
    }
    let all = if resolved {
        found
    } else {
        match collect_by_token_scan(files, project_root, symbol_name, found, read, place, ask) {
            Ok(all) => all,
            Err(e) => {
                return Err(e);
            },
        }
    };
    Ok(merge_locations(&all))
}

/// The references to a name in a project, whether or not a symbol has exactly the name.
pub fn find_references_by_name<
    S: Fn(&str, usize) -> Result<Vec<SymbolHit>, String>,
    T: Fn(u32) -> Result<String, String> + Copy,
    W: Fn(u32, u32) -> Result<(u32, u32), String> + Copy,
    A: Fn(u32, u32) -> Result<Vec<FoundDefinition>, String> + Copy,
>(
    symbol_name: &str,
    files: &Vec<SourceFile>,
    project_root: &str,
    search: S,
    read: T,
    place: W,
    ask: A,
) -> (r: Result<Vec<Location>, String>)
    requires
        call_requires(search, (symbol_name, SYMBOL_LIMIT)),
        are_sources(read, place, ask),
    ensures
        are_named_references(symbol_name, false, files@, project_root@, search, read, place, ask, r),
{
    find_references_by_name_with_exact(
        symbol_name,
        false,
        files,
        project_root,
        search,
        read,
        place,
        ask,
    )
}

/// What the analysis gives for a definition.
pub struct NavTarget {
    /// The file; nothing where it is not on the disk.
    pub file_path: Option<String>,
    /// Where the name begins, as line and column counted from zero, where it has one.
    pub focus: Option<(u32, u32)>,
    /// Where the whole begins.
    pub full: (u32, u32),
    /// The name.
    pub name: String,
}

/// Where a target begins: at its name where it has one.
pub open spec fn start_of(target: NavTarget) -> (u32, u32) {
    match target.focus {
        Some(at) => at,
        None => target.full,
    }
}

/// The place of a target whose file is on the disk.
pub open spec fn place_of_target(target: NavTarget) -> Place {
    Place {
        file_path: target.file_path->Some_0@,
        line: (start_of(target).0 + 1) as u32,
        column: (start_of(target).1 + 1) as u32,
        name: target.name@,
        exact: false,
    }
}

/// The lines and columns of a target can be counted from one.
pub open spec fn counts_from_one(target: NavTarget) -> bool {
    start_of(target).0 < u32::MAX && start_of(target).1 < u32::MAX
}

/// The location of a target.
pub fn nav_target_to_location(target: &NavTarget) -> (r: Result<Location, String>)
    requires
        counts_from_one(*target),
    ensures
        match r {
            Ok(location) => target.file_path is Some && location@ == place_of_target(*target),
            Err(e) => target.file_path is None && e@ == "Not a real path"@,
        },
{
    let file_path = match &target.file_path {
        Some(path) => path.clone(),
        None => {
            return Err("Not a real path".to_owned());
        },
    };
    let (line, column) = match target.focus {
        Some(at) => at,
        None => target.full,
    };
    Ok(
        Location {
            file_path,
            line: line + 1,
            column: column + 1,
            name: target.name.clone(),
            exact: false,
        },
    )
}

/// The locations of targets, in their order. Where one is not on the disk there are none.
pub open spec fn are_locations(targets: Seq<NavTarget>, r: Result<Seq<Place>, Seq<char>>) -> bool {
    match r {
        Ok(found) => {
            &&& found.len() == targets.len()
            &&& forall|i: int|
                0 <= i < targets.len() ==> (#[trigger] targets[i]).file_path is Some && found[i]
                    == place_of_target(targets[i])
        },
        Err(e) => e == "Not a real path"@ && exists|i: int|
            0 <= i < targets.len() && (#[trigger] targets[i]).file_path is None,
    }
}

/// The places of locations, or the text of the error.
pub open spec fn places_or_error(r: Result<Vec<Location>, String>) -> Result<Seq<Place>, Seq<char>> {
    match r {
        Ok(locations) => Ok(places(locations@)),
        Err(e) => Err(e@),
    }
}

/// The locations of targets, in their order. Where one is not on the disk there are none.
pub fn targets_to_locations(targets: &Vec<NavTarget>) -> (r: Result<Vec<Location>, String>)
    requires
        forall|i: int| 0 <= i < targets@.len() ==> counts_from_one(#[trigger] targets@[i]),
    ensures
        are_locations(targets@, places_or_error(r)),
{
    let mut locations: Vec<Location> = Vec::new();
    let mut i: usize = 0;
    while i < targets.len()
        invariant
            i <= targets@.len(),
            forall|k: int| 0 <= k < targets@.len() ==> counts_from_one(#[trigger] targets@[k]),
            locations@.len() == i,
            forall|k: int|
                0 <= k < i ==> (#[trigger] targets@[k]).file_path is Some && locations@[k]@
                    == place_of_target(targets@[k]),
        decreases targets@.len() - i,
    {
        match nav_target_to_location(&targets[i]) {
            Ok(location) => {
                locations.push(location);
            },
            Err(e) => {
                assert(targets@[i as int].file_path is None);
                return Err(e);
            },
        }
        i += 1;
    }
    Ok(locations)
}

/// A search for symbols can be asked, and what it finds can be counted from one.
pub open spec fn is_symbol_search<S: Fn(&str, usize) -> Result<Vec<NavTarget>, String>>(search: S) -> bool {
    &&& forall|name: &str, limit: usize| #[trigger] call_requires(search, (name, limit))
    &&& forall|name: &str, limit: usize, found: Vec<NavTarget>| #[trigger]
        call_ensures(search, (name, limit), Ok(found)) ==> forall|i: int|
            0 <= i < found@.len() ==> counts_from_one(#[trigger] found@[i])
}

/// `r` are the symbols that a search for a name, of at most `limit`, found: those of
/// exactly the name before the others, or only those.
pub open spec fn are_symbols<S: Fn(&str, usize) -> Result<Vec<NavTarget>, String>>(
    name: &str,
    limit: usize,
    exact_only: bool,
    search: S,
    r: Result<Vec<Location>, String>,
) -> bool {
    exists|found: Result<Vec<NavTarget>, String>|
        {
            &&& #[trigger] call_ensures(search, (name, limit), found)
            &&& match found {
                Err(e) => r == Err::<Vec<Location>, String>(e),
                Ok(targets) => exists|all: Result<Seq<Place>, Seq<char>>|
                    {
                        &&& #[trigger] are_locations(targets@, all)
                        &&& places_or_error(r) == (match all {
                            Ok(all) => Ok(ranked(marked(all, name@), exact_only)),
                            Err(e) => Err(e),
                        })
                    },
            }
        }
}

/// The symbols that a search for a name finds.
pub fn symbol_search_with_exact<S: Fn(&str, usize) -> Result<Vec<NavTarget>, String>>(
    symbol_name: &str,
    limit: usize,
    exact_only: bool,
    search: S,
) -> (r: Result<Vec<Location>, String>)
    requires
        is_symbol_search(search),
    ensures
        are_symbols(symbol_name, limit, exact_only, search, r),
{
    let found = match search(symbol_name, limit) {
        Ok(found) => found,
        Err(e) => {
            return Err(e);
        },
    };
    let all = targets_to_locations(&found);
    let ghost listed = places_or_error(all);
    assert(are_locations(found@, listed));
    match all {
        Ok(locations) => Ok(rank_symbols(locations, symbol_name, exact_only)),
        Err(e) => Err(e),
    }
}

/// The symbols that a search for a name finds, whether or not they have exactly the name.
pub fn symbol_search<S: Fn(&str, usize) -> Result<Vec<NavTarget>, String>>(
    symbol_name: &str,
    limit: usize,
    search: S,
) -> (r: Result<Vec<Location>, String>)
    requires
        is_symbol_search(search),
    ensures
        are_symbols(symbol_name, limit, false, search, r),
{
    symbol_search_with_exact(symbol_name, limit, false, search)
}

/// A line and a column counted from zero, of ones that are counted from one.
pub fn to_line_col(line: u32, column: u32) -> (at: (u32, u32))
    ensures
        at == (from_zero(line), from_zero(column)),
{
    (line.saturating_sub(1), column.saturating_sub(1))
}

/// The offset of a line and a column, as far as the file has it.
pub fn to_offset(line: u32, column: u32, offset: Option<u32>) -> (r: Result<u32, String>)
    ensures
        match offset {
            Some(at) => r == Ok::<u32, String>(at),
            None => r matches Err(e) && e@ == "Invalid position: line "@ + decimal(line as nat)
                + ", col "@ + decimal(column as nat),
        },
{
    match offset {
        Some(at) => Ok(at),
        None => {
            let mut e = "Invalid position: line ".to_owned();
            e.append(number(line as u128).as_str());
            e.append(", col ");
            e.append(number(column as u128).as_str());
            Err(e)
        },
    }
}

/// The file that the analysis knows under a path.
pub fn path_to_file_id(file_path: &str, id: Option<u32>) -> (r: Result<u32, String>)
    ensures
        match id {
            Some(id) => r == Ok::<u32, String>(id),
            None => r matches Err(e) && e@ == "File not found in VFS: "@ + file_path@,
        },
{
    match id {
        Some(id) => Ok(id),
        None => {
            let mut e = "File not found in VFS: ".to_owned();
            e.append(file_path);
            Err(e)
        },
    }
}

/// A line or a column counted from zero, of one that is counted from one.
pub open spec fn from_zero(n: u32) -> u32 {
    if n == 0 {
        0
    } else {
        (n - 1) as u32
    }
}

/// `r` is the file and the byte of a position: the analysis is asked for the file, and
/// then for the line and the column in it, counted from zero.
pub open spec fn is_file_position<
    F: Fn(&str) -> Result<Option<u32>, String>,
    O: Fn(u32, u32, u32) -> Result<Option<u32>, String>,
>(
    file_path: &str,
    line: u32,
    column: u32,
    file_of: F,
    offset_of: O,
    r: Result<(u32, u32), String>,
) -> bool {
    exists|file: Result<Option<u32>, String>|
        {
            &&& #[trigger] call_ensures(file_of, (file_path,), file)
            &&& match file {
                Err(e) => r == Err::<(u32, u32), String>(e),
                Ok(None) => r matches Err(e) && e@ == "File not found in VFS: "@ + file_path@,
                Ok(Some(id)) => exists|offset: Result<Option<u32>, String>|
                    {
                        &&& #[trigger] call_ensures(
                            offset_of,
                            (id, from_zero(line), from_zero(column)),
                            offset,
                        )
                        &&& match offset {
                            Err(e) => r == Err::<(u32, u32), String>(e),
                            Ok(None) => r matches Err(e) && e@ == "Invalid position: line "@
                                + decimal(line as nat) + ", col "@ + decimal(column as nat),
                            Ok(Some(at)) => r == Ok::<(u32, u32), String>((id, at)),
                        }
                    },
            }
        }
}

/// The file and the byte of a position. `file_of` gives the file that the analysis knows
/// under a path, and `offset_of` the byte of a line and a column, counted from zero.
pub fn file_position<
    F: Fn(&str) -> Result<Option<u32>, String>,
    O: Fn(u32, u32, u32) -> Result<Option<u32>, String>,
>(file_path: &str, line: u32, column: u32, file_of: F, offset_of: O) -> (r: Result<
    (u32, u32),
    String,
>)
    requires
        call_requires(file_of, (file_path,)),
        forall|id: u32, l: u32, c: u32| #[trigger] call_requires(offset_of, (id, l, c)),
    ensures
        is_file_position(file_path, line, column, file_of, offset_of, r),
{
    let known = match file_of(file_path) {
        Ok(known) => known,
        Err(e) => {
            return Err(e);
        },
    };
    let id: u32 = match path_to_file_id(file_path, known) {
        Ok(id) => id,
        Err(e) => {
            return Err(e);
        },
    };
    let (l, c) = to_line_col(line, column);
    let offset = match offset_of(id, l, c) {
        Ok(offset) => offset,
        Err(e) => {
            return Err(e);
        },
    };
    match to_offset(line, column, offset) {
        Ok(at) => Ok((id, at)),
        Err(e) => Err(e),
    }
}

/// `r` are the definitions of what is at a position.
pub open spec fn are_definitions<
    F: Fn(&str) -> Result<Option<u32>, String>,
    O: Fn(u32, u32, u32) -> Result<Option<u32>, String>,
    D: Fn(u32, u32) -> Result<Option<Vec<NavTarget>>, String>,
>(
    file_path: &str,
    line: u32,
    column: u32,
    file_of: F,
    offset_of: O,
    define: D,
    r: Result<Vec<Location>, String>,
) -> bool {
    exists|position: Result<(u32, u32), String>|
        {
            &&& #[trigger] is_file_position(file_path, line, column, file_of, offset_of, position)
            &&& match position {
                Err(e) => r == Err::<Vec<Location>, String>(e),
                Ok((id, at)) => exists|found: Result<Option<Vec<NavTarget>>, String>|
                    {
                        &&& #[trigger] call_ensures(define, (id, at), found)
                        &&& match found {
                            Err(e) => r == Err::<Vec<Location>, String>(e),
                            Ok(None) => r matches Ok(locations) && locations@.len() == 0,
                            Ok(Some(targets)) => are_locations(targets@, places_or_error(r)),
                        }
                    },
            }
        }
}

/// The definitions of what is at a position. `define` gives what the analysis finds there.
pub fn goto_definition<
    F: Fn(&str) -> Result<Option<u32>, String>,
    O: Fn(u32, u32, u32) -> Result<Option<u32>, String>,
    D: Fn(u32, u32) -> Result<Option<Vec<NavTarget>>, String>,
>(file_path: &str, line: u32, column: u32, file_of: F, offset_of: O, define: D) -> (r: Result<
    Vec<Location>,
    String,
>)
    requires
        call_requires(file_of, (file_path,)),
        forall|id: u32, l: u32, c: u32| #[trigger] call_requires(offset_of, (id, l, c)),
        forall|id: u32, at: u32| #[trigger] call_requires(define, (id, at)),
        forall|id: u32, at: u32, found: Vec<NavTarget>| #[trigger]
            call_ensures(define, (id, at), Ok(Some(found))) ==> forall|i: int|
                0 <= i < found@.len() ==> counts_from_one(#[trigger] found@[i]),
    ensures
        are_definitions(file_path, line, column, file_of, offset_of, define, r),
{
    let position = file_position(file_path, line, column, file_of, offset_of);
    let ghost there = position;
    let (id, at) = match position {
        Ok(position) => position,
        Err(e) => {
            return Err(e);
        },
    };
    assert(is_file_position(file_path, line, column, file_of, offset_of, there));
    match define(id, at) {
        Err(e) => Err(e),
        Ok(None) => Ok(Vec::new()),
        Ok(Some(targets)) => targets_to_locations(&targets),
    }
}

/// `r` are the references to what is at a position. That there is no name at the
/// position is an error and not an empty answer.
pub open spec fn are_references<
    F: Fn(&str) -> Result<Option<u32>, String>,
    O: Fn(u32, u32, u32) -> Result<Option<u32>, String>,
    A: Fn(u32, u32) -> Result<Vec<FoundDefinition>, String>,
>(
    file_path: &str,
    line: u32,
    column: u32,
    file_of: F,
    offset_of: O,
    ask: A,
    r: Result<Vec<Location>, String>,
) -> bool {
    exists|position: Result<(u32, u32), String>|
        {
            &&& #[trigger] is_file_position(file_path, line, column, file_of, offset_of, position)
            &&& match position {
                Err(e) => r == Err::<Vec<Location>, String>(e),
                Ok((id, at)) => exists|found: Result<Vec<FoundDefinition>, String>|
                    {
                        &&& #[trigger] call_ensures(ask, (id, at), found)
                        &&& match found {
                            Err(e) => r == Err::<Vec<Location>, String>(e),
                            Ok(found) => if first_declaration(found@, 0) is Some {
                                places_or_error(r) == Ok::<Seq<Place>, Seq<char>>(
                                    places_of_all(found@, false),
                                )
                            } else {
                                places_or_error(r) == Err::<Seq<Place>, Seq<char>>(
                                    no_symbol_message(file_path@, line, column),
                                )
                            },
                        }
                    },
            }
        }
}

/// The references to what is at a position. `ask` gives what the analysis finds there.
pub fn find_references<
    F: Fn(&str) -> Result<Option<u32>, String>,
    O: Fn(u32, u32, u32) -> Result<Option<u32>, String>,
    A: Fn(u32, u32) -> Result<Vec<FoundDefinition>, String>,
>(file_path: &str, line: u32, column: u32, file_of: F, offset_of: O, ask: A) -> (r: Result<
    Vec<Location>,
    String,
>)
    requires
        call_requires(file_of, (file_path,)),
        forall|id: u32, l: u32, c: u32| #[trigger] call_requires(offset_of, (id, l, c)),
        are_answers(ask),
    ensures
        are_references(file_path, line, column, file_of, offset_of, ask, r),
{
    let position = file_position(file_path, line, column, file_of, offset_of);
    let ghost there = position;
    let (id, at) = match position {
        Ok(position) => position,
        Err(e) => {
            return Err(e);
        },
    };
    assert(is_file_position(file_path, line, column, file_of, offset_of, there));
    match ask(id, at) {
        Err(e) => Err(e),
        Ok(found) => references_found(&found, file_path, line, column),
    }
}

/// A name of characters of identifiers is found at each place where it stands as a whole
/// identifier, by the byte at which it begins there.
pub proof fn every_whole_identifier_is_found(text: &str, name: &str, out: Vec<usize>, at: int)
    requires
        call_ensures(identifier_occurrences, (text, name), out),
        name@.len() > 0,
        forall|k: int| 0 <= k < name@.len() ==> is_ident_char(#[trigger] name@[k]),
        0 <= at <= at + name@.len() <= text@.len(),
        text@.subrange(at, at + name@.len()) == name@,
        at == 0 || !is_ident_char(text@[at - 1]),
        at + name@.len() == text@.len() || !is_ident_char(text@[at + name@.len()]),
    ensures
        out@.contains(encode_utf8(text@.take(at)).len() as usize),
{
    every_whole_occurrence_is_found(text@, name@, at);
    let all = matches_from(text@, name@, 0);
    whole_bytes_hold(text@, name@, all, all.index_of(at));
}

proof fn whole_bytes_hold(text: Seq<char>, name: Seq<char>, at: Seq<int>, i: int)
    requires
        0 <= i < at.len(),
        is_whole_at(text, name, at[i]),
    ensures
        whole_bytes(text, name, at).contains(byte_of(text, at[i]) as usize),
    decreases at.len(),
{
    let all = whole_bytes(text, name, at);
    let b = byte_of(text, at[i]) as usize;
    if i == 0 {
        assert(all[0] == b);
    } else {
        whole_bytes_hold(text, name, at.drop_first(), i - 1);
        let rest = whole_bytes(text, name, at.drop_first());
        let k = rest.index_of(b);
        if is_whole_at(text, name, at[0]) {
            assert(all[k + 1] == b);
        } else {
            assert(all[k] == b);
        }
    }
}

/// Where a name is found it stands as a whole identifier.
pub proof fn only_whole_identifiers_are_found(
    text: &str,
    name: &str,
    out: Vec<usize>,
    i: int,
) -> (at: int)
    requires
        call_ensures(identifier_occurrences, (text, name), out),
        0 <= i < out@.len(),
    ensures
        0 <= at <= at + name@.len() <= text@.len(),
        text@.subrange(at, at + name@.len()) == name@,
        at == 0 || !is_ident_char(text@[at - 1]),
        at + name@.len() == text@.len() || !is_ident_char(text@[at + name@.len()]),
        out@[i] == encode_utf8(text@.take(at)).len() as usize,
{
    whole_bytes_are_whole(text@, name@, matches_from(text@, name@, 0), i)
}

proof fn whole_bytes_are_whole(text: Seq<char>, name: Seq<char>, at: Seq<int>, i: int) -> (whole: int)
    requires
        0 <= i < whole_bytes(text, name, at).len(),
    ensures
        is_whole_at(text, name, whole),
        whole_bytes(text, name, at)[i] == byte_of(text, whole) as usize,
    decreases at.len(),
{
    if is_whole_at(text, name, at[0]) {
        if i == 0 {
            at[0]
        } else {
            whole_bytes_are_whole(text, name, at.drop_first(), i - 1)
        }
    } else {
        whole_bytes_are_whole(text, name, at.drop_first(), i)
    }
}

/// Of places that were found more than once, one is listed for each position: an exact one
/// where there is any. The exact ones come first, and nothing is listed that was not found.
pub proof fn each_position_is_listed_once(
    found: Vec<Location>,
    out: Vec<Location>,
    i: int,
    j: int,
    k: int,
)
    requires
        call_ensures(merge_locations, (&found,), out),
        0 <= i < found@.len(),
        0 <= j < k < out@.len(),
    ensures
        exists|n: int|
            0 <= n < out@.len() && components((#[trigger] places(out@)[n]).file_path)
                == components(found@[i].file_path@) && places(out@)[n].line == found@[i].line
                && places(out@)[n].column == found@[i].column && (found@[i].exact
                ==> places(out@)[n].exact),
        places(found@).contains(places(out@)[j]),
        !(components(out@[j].file_path@) == components(out@[k].file_path@) && out@[j].line
            == out@[k].line && out@[j].column == out@[k].column),
        out@[k].exact ==> out@[j].exact,
{
    let all = places(found@);
    let listed = places(out@);
    assert(is_covered(listed, all[i]));
    let n = choose|n: int| 0 <= n < listed.len() && same_position(#[trigger] listed[n], all[i]);
    assert(is_chosen_of(all, listed[n]));
    let c = choose|c: int| #[trigger] is_chosen(all, c) && all[c] == listed[n];
    assert(same_position(all[i], all[c]));
    assert(is_chosen_of(all, listed[j]));
    let d = choose|d: int| #[trigger] is_chosen(all, d) && all[d] == listed[j];
    assert(all[d] == listed[j]);
    assert(listed[j] == out@[j]@ && listed[k] == out@[k]@);
    assert(is_chosen_of(all, listed[k]));
    let e = choose|e: int| #[trigger] is_chosen(all, e) && all[e] == listed[k];
    if same_position(listed[j], listed[k]) {
        assert(same_position(all[d], all[e]));
        components_precede_irreflexive(components(listed[j].file_path));
    }
}

/// An occurrence is asked inside the name where it has an inside, and at its start where
/// it has none.
pub proof fn a_name_is_asked_inside(start: usize, len: usize, at: usize)
    requires
        start < usize::MAX,
        call_ensures(probe_offset, (start, len), at),
    ensures
        len >= 2 ==> start < at < start + len,
        len < 2 ==> at == start,
{
}

/// The sweep looks for fields and variants of the wanted name, and for nothing else.
pub proof fn only_fields_and_variants_are_looked_for(decl: ResolvedDecl, name: &str, r: bool)
    requires
        call_ensures(is_the_wanted_name, (&decl, name), r),
    ensures
        r <==> decl.name@ == name@ && (decl.kind is Field || decl.kind is Variant),
{
}

/// A position is asked once: where it was not accounted for it is from then on.
pub proof fn a_position_is_asked_once(
    scan: &mut TokenScan,
    again: &mut TokenScan,
    file_path: &str,
    line: u32,
    column: u32,
    first: bool,
    second: bool,
)
    requires
        call_ensures(TokenScan::should_probe, (scan, file_path, line, column), first),
        old(again)@ == final(scan)@,
        call_ensures(TokenScan::should_probe, (again, file_path, line, column), second),
    ensures
        !second,
        final(scan)@.out == old(scan)@.out,
{
}

/// All places of a field or a variant that was found are accounted for, and so they are
/// not asked again.
pub proof fn what_was_found_is_not_asked_again(
    scan: &mut TokenScan,
    later: &mut TokenScan,
    found: Vec<FoundDefinition>,
    name: &str,
    k: int,
    file_path: &str,
    line: u32,
    column: u32,
    r: bool,
)
    requires
        found@.len() == 1,
        is_countable(found@[0]),
        found@[0].declaration is Some,
        found@[0].declaration->Some_0.0.name@ == name@,
        found@[0].declaration->Some_0.0.kind is Field || found@[0].declaration->Some_0.0.kind
            is Variant,
        call_ensures(TokenScan::probed, (scan, &found, name), ()),
        old(later)@ == final(scan)@,
        0 <= k < found@[0].references@.len(),
        file_path@ == found@[0].references@[k].file_path@,
        line == found@[0].references@[k].line + 1,
        column == found@[0].references@[k].column + 1,
        call_ensures(TokenScan::should_probe, (later, file_path, line, column), r),
    ensures
        !r,
{
    let all = places_of_all(found@, true);
    let one = places_of_one(found@[0], true);
    let refs = reference_places(found@[0].references@, true);
    assert(found@.drop_last() =~= Seq::<FoundDefinition>::empty());
    assert(places_of_all(found@.drop_last(), true) =~= Seq::<Place>::empty());
    assert(all =~= one);
    assert(one[1 + k] == refs[k]);
    assert(position_key(all[1 + k]) == (normal(file_path@), line, column));
    assert(position_keys(all).contains((normal(file_path@), line, column)));
}

} // verus!

//! What the lists of references hold.
//!
//! A search for a name is there so that no use of it is missed and nothing else is
//! listed. Here stands what that means of the list, whatever the analysis answers.

use vstd::prelude::*;
use vstd::utf8::encode_utf8;

use crate::indexing::traversal::is_rust_path;
use crate::paths::{
    components, components_precede_irreflexive, is_under, normal, path_precedes,
    same_path_iff_same_normal,
};
use crate::semantic::position::{
    after_files, after_marks, are_asked, are_heard, are_sources, asked_at, asking_order, byte_of,
    byte_of_grows, byte_of_next, comes_first, every_whole_occurrence_is_found, first_declaration,
    find_references_by_name, find_references_by_name_with_exact, harvested, is_chosen, is_chosen_of,
    is_countable, is_covered, is_heard, is_heard_at, is_ident_char, is_merged, is_reference_list,
    is_sweep, is_sweep_order, is_swept_file, is_whole_at, mark_key, matches_are_occurrences,
    matches_from, names_of, place_of, places, places_of_all, places_of_one, position_key,
    position_keys, positions_named, reference_places, same_position, scan_from, starts_in,
    whole_bytes, FoundDefinition, HeardFile, Location, Place, ScanState, SourceFile, Spot,
    SymbolHit,
};
use crate::text::occurs_at;

verus! {

/// A spot stands in a list, counted from one, and is marked as exact.
pub open spec fn is_listed_exact(out: Seq<Place>, spot: Spot) -> bool {
    exists|j: int|
        0 <= j < out.len() && (#[trigger] out[j]).exact && components(out[j].file_path)
            == components(spot.file_path@) && out[j].line == spot.line + 1 && out[j].column
            == spot.column + 1
}

/// A definition and all of its references stand in a list as exact.
pub open spec fn are_all_listed(out: Seq<Place>, found: Seq<FoundDefinition>) -> bool {
    forall|d: int|
        0 <= d < found.len() ==> ((#[trigger] found[d]).declaration matches Some((_, spot))
            ==> is_listed_exact(out, spot)) && forall|i: int|
            0 <= i < found[d].references@.len() ==> is_listed_exact(
                out,
                #[trigger] found[d].references@[i],
            )
}

/// The first definition that an analysis has at a position is a field or a variant of
/// this name.
pub open spec fn is_field_or_variant(found: Seq<FoundDefinition>, name: Seq<char>) -> bool {
    exists|d: int|
        0 <= d < found.len() && (#[trigger] found[d]).declaration is Some
            && found[d].declaration->Some_0.0.name@ == name && (
        found[d].declaration->Some_0.0.kind is Field
            || found[d].declaration->Some_0.0.kind is Variant) && forall|b: int|
            0 <= b < d ==> (#[trigger] found[b]).declaration is None
}

proof fn first_declaration_is(found: Seq<FoundDefinition>, i: int, d: int)
    requires
        0 <= i <= d < found.len(),
        found[d].declaration is Some,
        forall|b: int| i <= b < d ==> (#[trigger] found[b]).declaration is None,
    ensures
        first_declaration(found, i) == Some(found[d].declaration->Some_0.0),
    decreases d - i,
{
    if i < d {
        assert(found[i].declaration is None);
        first_declaration_is(found, i + 1, d);
    }
}

proof fn first_declaration_stands(found: Seq<FoundDefinition>, i: int) -> (d: int)
    requires
        0 <= i,
        first_declaration(found, i) is Some,
    ensures
        i <= d < found.len(),
        found[d].declaration is Some,
        first_declaration(found, i) == Some(found[d].declaration->Some_0.0),
        forall|b: int| i <= b < d ==> (#[trigger] found[b]).declaration is None,
    decreases found.len() - i,
{
    if found[i].declaration is Some {
        i
    } else {
        first_declaration_stands(found, i + 1)
    }
}

proof fn parts_are_in_all(found: Seq<FoundDefinition>, exact: bool, d: int)
    requires
        0 <= d < found.len(),
    ensures
        forall|k: int|
            0 <= k < places_of_one(found[d], exact).len() ==> places_of_all(found, exact).contains(
                #[trigger] places_of_one(found[d], exact)[k],
            ),
    decreases found.len(),
{
    let init = places_of_all(found.drop_last(), exact);
    let last = places_of_one(found.last(), exact);
    let all = places_of_all(found, exact);
    assert forall|k: int| 0 <= k < places_of_one(found[d], exact).len() implies all.contains(
        #[trigger] places_of_one(found[d], exact)[k],
    ) by {
        if d == found.len() - 1 {
            assert(all[init.len() + k] == last[k]);
        } else {
            parts_are_in_all(found.drop_last(), exact, d);
            let x = places_of_one(found.drop_last()[d], exact)[k];
            assert(init.contains(x));
            let i = init.index_of(x);
            assert(all[i] == x);
        }
    }
}

proof fn all_are_marked(found: Seq<FoundDefinition>, exact: bool)
    ensures
        forall|k: int|
            0 <= k < places_of_all(found, exact).len() ==> (#[trigger] places_of_all(
                found,
                exact,
            )[k]).exact == exact,
    decreases found.len(),
{
    if found.len() > 0 {
        all_are_marked(found.drop_last(), exact);
        let init = places_of_all(found.drop_last(), exact);
        let last = places_of_one(found.last(), exact);
        let all = places_of_all(found, exact);
        assert forall|k: int| 0 <= k < all.len() implies (#[trigger] all[k]).exact == exact by {
            if k < init.len() {
                assert(all[k] == init[k]);
            } else {
                assert(all[k] == last[k - init.len()]);
            }
        }
    }
}

/// What is in a list stands in the merged one at its position, and as exact where it is.
proof fn merged_lists(all: Seq<Place>, out: Seq<Place>, p: Place)
    requires
        is_merged(all, out),
        all.contains(p),
    ensures
        exists|j: int|
            0 <= j < out.len() && same_position(#[trigger] out[j], p) && (p.exact ==> out[j].exact),
{
    let i = all.index_of(p);
    assert(is_covered(out, all[i]));
    let j = choose|j: int| 0 <= j < out.len() && same_position(#[trigger] out[j], p);
    assert(is_chosen_of(all, out[j]));
    let c = choose|c: int| #[trigger] is_chosen(all, c) && all[c] == out[j];
    assert(same_position(all[i], all[c]));
}

proof fn found_is_listed(all: Seq<Place>, out: Seq<Place>, found: Seq<FoundDefinition>)
    requires
        is_merged(all, out),
        forall|d: int| 0 <= d < found.len() ==> is_countable(#[trigger] found[d]),
        forall|k: int|
            0 <= k < places_of_all(found, true).len() ==> all.contains(
                #[trigger] places_of_all(found, true)[k],
            ),
    ensures
        are_all_listed(out, found),
{
    let whole = places_of_all(found, true);
    assert forall|d: int| 0 <= d < found.len() implies ((#[trigger] found[d]).declaration matches Some(
        (_, spot),
    ) ==> is_listed_exact(out, spot)) && forall|i: int|
        0 <= i < found[d].references@.len() ==> is_listed_exact(
            out,
            #[trigger] found[d].references@[i],
        ) by {
        parts_are_in_all(found, true, d);
        assert(is_countable(found[d]));
        let one = places_of_one(found[d], true);
        let refs = reference_places(found[d].references@, true);
        if let Some((decl, spot)) = found[d].declaration {
            assert(one[0] == place_of(spot, decl.name@, true));
            let k = whole.index_of(one[0]);
            assert(whole[k] == one[0]);
            merged_lists(all, out, one[0]);
            let j = choose|j: int|
                0 <= j < out.len() && same_position(#[trigger] out[j], one[0]) && out[j].exact;
            assert(out[j].exact && components(out[j].file_path) == components(spot.file_path@));
        }
        assert forall|i: int| 0 <= i < found[d].references@.len() implies is_listed_exact(
            out,
            #[trigger] found[d].references@[i],
        ) by {
            let at = one.len() - refs.len() + i;
            assert(one[at] == refs[i]);
            let k = whole.index_of(one[at]);
            assert(whole[k] == one[at]);
            merged_lists(all, out, one[at]);
            let j = choose|j: int|
                0 <= j < out.len() && same_position(#[trigger] out[j], one[at]) && out[j].exact;
            assert(out[j].exact && components(out[j].file_path) == components(
                found[d].references@[i].file_path@,
            ));
        }
    }
}

proof fn marks_only_add(
    before: ScanState,
    path: Seq<char>,
    name: Seq<char>,
    marks: Seq<(u32, u32)>,
    answers: Seq<Vec<FoundDefinition>>,
)
    requires
        marks.len() == answers.len(),
    ensures
        before.out.is_prefix_of(after_marks(before, path, name, marks, answers).out),
    decreases marks.len(),
{
    if marks.len() > 0 {
        marks_only_add(before, path, name, marks.drop_last(), answers.drop_last());
        let s = after_marks(before, path, name, marks.drop_last(), answers.drop_last());
        let now = after_marks(before, path, name, marks, answers);
        assert(s.out.is_prefix_of(now.out)) by {
            if now.out != s.out {
                assert(now.out == s.out + places_of_all(answers.last()@, true));
                assert(now.out.subrange(0, s.out.len() as int) =~= s.out);
            } else {
                assert(now.out.subrange(0, s.out.len() as int) =~= s.out);
            }
        }
        prefixes_chain(before.out, s.out, now.out);
    } else {
        assert(before.out.subrange(0, before.out.len() as int) =~= before.out);
    }
}

proof fn prefixes_chain(a: Seq<Place>, b: Seq<Place>, c: Seq<Place>)
    requires
        a.is_prefix_of(b),
        b.is_prefix_of(c),
    ensures
        a.is_prefix_of(c),
{
    assert(c.subrange(0, a.len() as int) =~= b.subrange(0, a.len() as int));
}

proof fn later_marks_add(
    before: ScanState,
    path: Seq<char>,
    name: Seq<char>,
    marks: Seq<(u32, u32)>,
    answers: Seq<Vec<FoundDefinition>>,
    i: int,
)
    requires
        marks.len() == answers.len(),
        0 <= i <= marks.len(),
    ensures
        after_marks(before, path, name, marks.take(i), answers.take(i)).out.is_prefix_of(
            after_marks(before, path, name, marks, answers).out,
        ),
    decreases marks.len() - i,
{
    if i < marks.len() {
        let m = marks.take(i + 1);
        let a = answers.take(i + 1);
        assert(m.drop_last() =~= marks.take(i));
        assert(a.drop_last() =~= answers.take(i));
        let s = after_marks(before, path, name, marks.take(i), answers.take(i));
        let now = after_marks(before, path, name, m, a);
        assert(s.out.is_prefix_of(now.out)) by {
            if now.out != s.out {
                assert(now.out == s.out + places_of_all(a.last()@, true));
            }
            assert(now.out.subrange(0, s.out.len() as int) =~= s.out);
        }
        later_marks_add(before, path, name, marks, answers, i + 1);
        prefixes_chain(s.out, now.out, after_marks(before, path, name, marks, answers).out);
    } else {
        assert(marks.take(i) =~= marks);
        assert(answers.take(i) =~= answers);
        let s = after_marks(before, path, name, marks, answers).out;
        assert(s.subrange(0, s.len() as int) =~= s);
    }
}

proof fn later_files_add(
    start: ScanState,
    files: Seq<SourceFile>,
    order: Seq<usize>,
    name: Seq<char>,
    heard: Seq<HeardFile>,
    h: int,
)
    requires
        0 <= h <= heard.len(),
        forall|k: int|
            0 <= k < heard.len() ==> (#[trigger] heard[k]).marks.len() == heard[k].answers.len(),
    ensures
        after_files(start, files, order, name, heard.take(h)).out.is_prefix_of(
            after_files(start, files, order, name, heard).out,
        ),
    decreases heard.len() - h,
{
    if h < heard.len() {
        let now = heard.take(h + 1);
        assert(now.drop_last() =~= heard.take(h));
        let s = after_files(start, files, order, name, heard.take(h));
        assert(now.last() == heard[h]);
        marks_only_add(
            s,
            files[order[h] as int].path->Some_0@,
            name,
            heard[h].marks,
            heard[h].answers,
        );
        assert(after_files(start, files, order, name, now) == after_marks(
            s,
            files[order[h] as int].path->Some_0@,
            name,
            heard[h].marks,
            heard[h].answers,
        ));
        later_files_add(start, files, order, name, heard, h + 1);
        prefixes_chain(
            s.out,
            after_files(start, files, order, name, now).out,
            after_files(start, files, order, name, heard).out,
        );
    } else {
        assert(heard.take(h) =~= heard);
        let s = after_files(start, files, order, name, heard).out;
        assert(s.subrange(0, s.len() as int) =~= s);
    }
}

proof fn keys_grow(a: Seq<Place>, b: Seq<Place>)
    requires
        a.is_prefix_of(b),
    ensures
        position_keys(a).subset_of(position_keys(b)),
{
    assert forall|k: (Seq<char>, u32, u32)| #[trigger]
        position_keys(a).contains(k) implies position_keys(b).contains(k) by {
        let i = choose|i: int| 0 <= i < a.len() && position_key(#[trigger] a[i]) == k;
        assert(b.subrange(0, a.len() as int)[i] == b[i]);
        assert(position_key(b[i]) == k);
    }
}

/// A position is accounted for only where it was before, or is one of a place that was
/// found, or is that of an occurrence that was met.
proof fn accounted_in_a_file(
    before: ScanState,
    path: Seq<char>,
    name: Seq<char>,
    marks: Seq<(u32, u32)>,
    answers: Seq<Vec<FoundDefinition>>,
    key: (Seq<char>, u32, u32),
)
    requires
        marks.len() == answers.len(),
        after_marks(before, path, name, marks, answers).covered.contains(key),
    ensures
        before.covered.contains(key) || position_keys(
            after_marks(before, path, name, marks, answers).out,
        ).contains(key) || exists|i: int|
            0 <= i < marks.len() && mark_key(path, #[trigger] marks[i]) == key,
    decreases marks.len(),
{
    if marks.len() > 0 {
        let m = marks.drop_last();
        let a = answers.drop_last();
        let s = after_marks(before, path, name, m, a);
        let now = after_marks(before, path, name, marks, answers);
        let own = mark_key(path, marks.last());
        assert(marks[marks.len() - 1] == marks.last());
        if s.covered.contains(key) {
            accounted_in_a_file(before, path, name, m, a, key);
            if position_keys(s.out).contains(key) {
                if now.out != s.out {
                    assert(now.out == s.out + places_of_all(answers.last()@, true));
                }
                assert(now.out.subrange(0, s.out.len() as int) =~= s.out);
                keys_grow(s.out, now.out);
            } else if exists|i: int| 0 <= i < m.len() && mark_key(path, #[trigger] m[i]) == key {
                let i = choose|i: int| 0 <= i < m.len() && mark_key(path, #[trigger] m[i]) == key;
                assert(mark_key(path, marks[i]) == key);
            }
        } else if key != own {
            let fresh = places_of_all(answers.last()@, true);
            assert(position_keys(fresh).contains(key));
            assert(now.out == s.out + fresh);
            let i = choose|i: int|
                0 <= i < fresh.len() && position_key(#[trigger] fresh[i]) == key;
            assert(now.out[s.out.len() + i] == fresh[i]);
            assert(position_key(now.out[s.out.len() + i]) == key);
        }
    }
}

proof fn accounted_in_files(
    start: ScanState,
    files: Seq<SourceFile>,
    order: Seq<usize>,
    name: Seq<char>,
    heard: Seq<HeardFile>,
    key: (Seq<char>, u32, u32),
)
    requires
        heard.len() <= order.len(),
        forall|k: int|
            0 <= k < heard.len() ==> (#[trigger] heard[k]).marks.len() == heard[k].answers.len(),
        after_files(start, files, order, name, heard).covered.contains(key),
        start.covered == position_keys(start.out),
    ensures
        position_keys(after_files(start, files, order, name, heard).out).contains(key) || exists|
            h: int,
            i: int,
        |
            0 <= h < heard.len() && 0 <= i < heard[h].marks.len() && mark_key(
                files[order[h] as int].path->Some_0@,
                #[trigger] heard[h].marks[i],
            ) == key,
    decreases heard.len(),
{
    if heard.len() > 0 {
        let init = heard.drop_last();
        let n = heard.len() - 1;
        let s = after_files(start, files, order, name, init);
        let path = files[order[n] as int].path->Some_0@;
        let last = heard.last();
        assert(last.marks.len() == last.answers.len()) by {
            assert(heard[n] == last);
        }
        accounted_in_a_file(s, path, name, last.marks, last.answers, key);
        marks_only_add(s, path, name, last.marks, last.answers);
        let now = after_files(start, files, order, name, heard);
        if position_keys(now.out).contains(key) {
        } else if s.covered.contains(key) {
            assert forall|k: int| 0 <= k < init.len() implies (#[trigger] init[k]).marks.len()
                == init[k].answers.len() by {
                assert(heard[k] == init[k]);
            }
            accounted_in_files(start, files, order, name, init, key);
            if position_keys(s.out).contains(key) {
                keys_grow(s.out, now.out);
            } else {
                let (h, i) = choose|h: int, i: int|
                    0 <= h < init.len() && 0 <= i < init[h].marks.len() && mark_key(
                        files[order[h] as int].path->Some_0@,
                        #[trigger] init[h].marks[i],
                    ) == key;
                assert(heard[h] == init[h]);
                assert(mark_key(files[order[h] as int].path->Some_0@, heard[h].marks[i]) == key);
            }
        } else {
            let i = choose|i: int|
                0 <= i < last.marks.len() && mark_key(path, #[trigger] last.marks[i]) == key;
            assert(heard[n] == last);
            assert(mark_key(files[order[n] as int].path->Some_0@, heard[n].marks[i]) == key);
        }
    }
}

proof fn bytes_hold(text: Seq<char>, name: Seq<char>, at: Seq<int>, i: int) -> (k: int)
    requires
        0 <= i < at.len(),
        is_whole_at(text, name, at[i]),
    ensures
        0 <= k < whole_bytes(text, name, at).len(),
        whole_bytes(text, name, at)[k] == byte_of(text, at[i]) as usize,
    decreases at.len(),
{
    let rest = at.drop_first();
    let later = whole_bytes(text, name, rest);
    if i == 0 {
        0
    } else {
        assert(rest[i - 1] == at[i]);
        let k = bytes_hold(text, name, rest, i - 1);
        if is_whole_at(text, name, at[0]) {
            assert(whole_bytes(text, name, at)[k + 1] == later[k]);
            k + 1
        } else {
            k
        }
    }
}

proof fn matches_ascend(text: Seq<char>, name: Seq<char>, i: int)
    requires
        0 <= i,
    ensures
        forall|k: int|
            0 <= k < matches_from(text, name, i).len() ==> i <= #[trigger] matches_from(
                text,
                name,
                i,
            )[k],
        forall|j: int, k: int|
            0 <= j < k < matches_from(text, name, i).len() ==> #[trigger] matches_from(
                text,
                name,
                i,
            )[j] < #[trigger] matches_from(text, name, i)[k],
    decreases text.len() - i,
{
    let found = matches_from(text, name, i);
    if name.len() == 0 || i + name.len() > text.len() {
    } else if occurs_at(text, name, i) {
        let later = matches_from(text, name, i + name.len());
        matches_ascend(text, name, i + name.len());
        assert(found == seq![i] + later);
        assert forall|j: int, k: int| 0 <= j < k < found.len() implies #[trigger] found[j]
            < #[trigger] found[k] by {
            assert(found[k] == later[k - 1]);
            if j > 0 {
                assert(found[j] == later[j - 1]);
            }
        }
        assert forall|k: int| 0 <= k < found.len() implies i <= #[trigger] found[k] by {
            if k > 0 {
                assert(found[k] == later[k - 1]);
            }
        }
    } else {
        matches_ascend(text, name, i + 1);
        assert(found == matches_from(text, name, i + 1));
    }
}

proof fn bytes_ascend(text: Seq<char>, name: Seq<char>, at: Seq<int>)
    requires
        encode_utf8(text).len() <= u32::MAX,
        forall|k: int| 0 <= k < at.len() ==> 0 <= #[trigger] at[k] < text.len(),
        forall|j: int, k: int| 0 <= j < k < at.len() ==> #[trigger] at[j] < #[trigger] at[k],
    ensures
        forall|k: int|
            0 <= k < whole_bytes(text, name, at).len() ==> exists|i: int|
                0 <= i < at.len() && #[trigger] whole_bytes(text, name, at)[k] == byte_of(
                    text,
                    #[trigger] at[i],
                ),
        forall|j: int, k: int|
            0 <= j < k < whole_bytes(text, name, at).len() ==> #[trigger] whole_bytes(
                text,
                name,
                at,
            )[j] < #[trigger] whole_bytes(text, name, at)[k],
    decreases at.len(),
{
    if at.len() > 0 {
        let rest = at.drop_first();
        bytes_ascend(text, name, rest);
        let all = whole_bytes(text, name, at);
        let later = whole_bytes(text, name, rest);
        let first = byte_of(text, at[0]);
        byte_of_next(text, at[0]);
        byte_of_grows(text, at[0] + 1);
        assert forall|k: int| 0 <= k < later.len() implies first < #[trigger] later[k] && exists|
            i: int,
        | 0 <= i < at.len() && later[k] == byte_of(text, #[trigger] at[i]) by {
            let i = choose|i: int|
                0 <= i < rest.len() && later[k] == byte_of(text, #[trigger] rest[i]);
            assert(rest[i] == at[i + 1]);
            bytes_of_later(text, at[0], at[i + 1]);
        }
        if is_whole_at(text, name, at[0]) {
            assert(all == seq![first as usize] + later);
            assert forall|j: int, k: int| 0 <= j < k < all.len() implies #[trigger] all[j]
                < #[trigger] all[k] by {
                assert(all[k] == later[k - 1]);
                if j > 0 {
                    assert(all[j] == later[j - 1]);
                }
            }
            assert forall|k: int| 0 <= k < all.len() implies exists|i: int|
                0 <= i < at.len() && #[trigger] all[k] == byte_of(text, #[trigger] at[i]) by {
                if k > 0 {
                    assert(all[k] == later[k - 1]);
                } else {
                    assert(all[0] == byte_of(text, at[0]));
                }
            }
        } else {
            assert(all == later);
        }
    }
}

proof fn bytes_of_later(text: Seq<char>, a: int, b: int)
    requires
        0 <= a < b <= text.len(),
    ensures
        byte_of(text, a) < byte_of(text, b),
    decreases b - a,
{
    byte_of_next(text, b - 1);
    if a < b - 1 {
        bytes_of_later(text, a, b - 1);
    }
}

proof fn starts_ascend(text: Seq<char>, name: Seq<char>)
    requires
        encode_utf8(text).len() <= u32::MAX,
    ensures
        forall|j: int, k: int|
            0 <= j < k < starts_in(text, name).len() ==> #[trigger] starts_in(text, name)[j]
                < #[trigger] starts_in(text, name)[k],
{
    let at = matches_from(text, name, 0);
    matches_ascend(text, name, 0);
    matches_are_occurrences(text, name, 0);
    bytes_ascend(text, name, at);
}

/// Fields and variants are in no index of symbols, and still no use of one is missed,
/// whether or not only exact matches are wanted. Where no symbol has the name, take any
/// Rust file under the root and any place in its text where the name stands as a whole
/// identifier. If the analysis, asked there, finds a field or a variant of the name, then
/// all places of what it found are listed as exact, unless the place itself is listed
/// already, found by another question. The place is asked inside the name where the name
/// has more than one byte. `place` is taken to tell occurrences apart.
pub proof fn every_use_of_a_field_or_variant_is_listed<
    T: Fn(u32) -> Result<String, String>,
    W: Fn(u32, u32) -> Result<(u32, u32), String>,
    A: Fn(u32, u32) -> Result<Vec<FoundDefinition>, String>,
>(
    symbols: Seq<SymbolHit>,
    files: Seq<SourceFile>,
    root: Seq<char>,
    name: Seq<char>,
    exact_only: bool,
    out: Seq<Place>,
    read: T,
    place: W,
    ask: A,
    p: int,
    text: String,
    at: int,
    mark: (u32, u32),
    asked: u32,
    found: Vec<FoundDefinition>,
)
    requires
        is_reference_list(symbols, files, root, name, exact_only, out, read, place, ask),
        are_sources(read, place, ask),
        forall|i: int| 0 <= i < symbols.len() ==> (#[trigger] symbols[i]).name@ != name,
        0 <= p < files.len() <= usize::MAX,
        files[p].path is Some,
        is_rust_path(files[p].path->Some_0@),
        is_under(files[p].path->Some_0@, root),
        forall|r: Result<String, String>| #[trigger]
            call_ensures(read, (files[p].id,), r) ==> r == Ok::<String, String>(text),
        name.len() > 0,
        forall|k: int| 0 <= k < name.len() ==> is_ident_char(#[trigger] name[k]),
        0 <= at <= at + name.len() <= text@.len(),
        text@.subrange(at, at + name.len()) == name,
        at == 0 || !is_ident_char(text@[at - 1]),
        at + name.len() == text@.len() || !is_ident_char(text@[at + name.len()]),
        forall|r: Result<(u32, u32), String>| #[trigger]
            call_ensures(place, (files[p].id, encode_utf8(text@.take(at)).len() as u32), r) ==> r
                == Ok::<(u32, u32), String>(mark),
        asked == encode_utf8(text@.take(at)).len() + (if encode_utf8(name).len() > 1 {
            1int
        } else {
            0
        }),
        forall|r: Result<Vec<FoundDefinition>, String>| #[trigger]
            call_ensures(ask, (files[p].id, asked), r) ==> r == Ok::<Vec<FoundDefinition>, String>(
                found,
            ),
        is_field_or_variant(found@, name),
        forall|q: int, start: u32|
            0 <= q < files.len() && files[q].path is Some && components(files[q].path->Some_0@)
                == components(files[p].path->Some_0@) && #[trigger] call_ensures(
                place,
                (files[q].id, start),
                Ok(mark),
            ) ==> q == p && start == encode_utf8(text@.take(at)).len(),
    ensures
        are_all_listed(out, found@) || exists|j: int|
            0 <= j < out.len() && components((#[trigger] out[j]).file_path) == components(
                files[p].path->Some_0@,
            ) && out[j].line == mark.0 + 1 && out[j].column == mark.1 + 1,
{
    let order = asking_order(symbols, name, exact_only);
    let answers = choose|answers: Seq<Vec<FoundDefinition>>|
        {
            let start = harvested(symbols, order, name, answers);
            &&& #[trigger] are_asked(symbols, order, answers, ask)
            &&& answers.len() == order.len()
            &&& if names_of(symbols).contains(name) {
                is_merged(start, out)
            } else {
                exists|all: Seq<Place>| #[trigger]
                    is_sweep(start, files, root, name, all, read, place, ask) && is_merged(all, out)
            }
        };
    let start = harvested(symbols, order, name, answers);
    assert(!names_of(symbols).contains(name)) by {
        if names_of(symbols).contains(name) {
            let i = names_of(symbols).index_of(name);
            assert(symbols[i].name@ == name);
        }
    }
    let all = choose|all: Seq<Place>| #[trigger]
        is_sweep(start, files, root, name, all, read, place, ask) && is_merged(all, out);
    swept_occurrence_is_accounted_for(
        start,
        files,
        root,
        name,
        all,
        read,
        place,
        ask,
        p,
        text,
        at,
        mark,
        asked,
        found,
    );
    let path = files[p].path->Some_0@;
    let key = mark_key(path, mark);
    if position_keys(all).contains(key) {
        let k = choose|k: int| 0 <= k < all.len() && position_key(#[trigger] all[k]) == key;
        same_path_iff_same_normal(all[k].file_path, path);
        merged_lists(all, out, all[k]);
        let j = choose|j: int| 0 <= j < out.len() && same_position(#[trigger] out[j], all[k]);
        assert(components(out[j].file_path) == components(path));
        assert(out[j].line == mark.0 + 1 && out[j].column == mark.1 + 1);
    } else {
        found_is_listed(all, out, found@);
    }
}

proof fn swept_occurrence_is_accounted_for<
    T: Fn(u32) -> Result<String, String>,
    W: Fn(u32, u32) -> Result<(u32, u32), String>,
    A: Fn(u32, u32) -> Result<Vec<FoundDefinition>, String>,
>(
    start: Seq<Place>,
    files: Seq<SourceFile>,
    root: Seq<char>,
    name: Seq<char>,
    all: Seq<Place>,
    read: T,
    place: W,
    ask: A,
    p: int,
    text: String,
    at: int,
    mark: (u32, u32),
    asked: u32,
    found: Vec<FoundDefinition>,
)
    requires
        is_sweep(start, files, root, name, all, read, place, ask),
        are_sources(read, place, ask),
        0 <= p < files.len() <= usize::MAX,
        files[p].path is Some,
        is_rust_path(files[p].path->Some_0@),
        is_under(files[p].path->Some_0@, root),
        forall|r: Result<String, String>| #[trigger]
            call_ensures(read, (files[p].id,), r) ==> r == Ok::<String, String>(text),
        name.len() > 0,
        forall|k: int| 0 <= k < name.len() ==> is_ident_char(#[trigger] name[k]),
        0 <= at <= at + name.len() <= text@.len(),
        text@.subrange(at, at + name.len()) == name,
        at == 0 || !is_ident_char(text@[at - 1]),
        at + name.len() == text@.len() || !is_ident_char(text@[at + name.len()]),
        forall|r: Result<(u32, u32), String>| #[trigger]
            call_ensures(place, (files[p].id, encode_utf8(text@.take(at)).len() as u32), r) ==> r
                == Ok::<(u32, u32), String>(mark),
        asked == encode_utf8(text@.take(at)).len() + (if encode_utf8(name).len() > 1 {
            1int
        } else {
            0
        }),
        forall|r: Result<Vec<FoundDefinition>, String>| #[trigger]
            call_ensures(ask, (files[p].id, asked), r) ==> r == Ok::<Vec<FoundDefinition>, String>(
                found,
            ),
        is_field_or_variant(found@, name),
        forall|q: int, start: u32|
            0 <= q < files.len() && files[q].path is Some && components(files[q].path->Some_0@)
                == components(files[p].path->Some_0@) && #[trigger] call_ensures(
                place,
                (files[q].id, start),
                Ok(mark),
            ) ==> q == p && start == encode_utf8(text@.take(at)).len(),
    ensures
        mark.0 < u32::MAX,
        mark.1 < u32::MAX,
        forall|d: int| 0 <= d < found@.len() ==> is_countable(#[trigger] found@[d])
            || position_keys(all).contains(mark_key(files[p].path->Some_0@, mark)),
        position_keys(all).contains(mark_key(files[p].path->Some_0@, mark)) || forall|k: int|
            0 <= k < places_of_all(found@, true).len() ==> all.contains(
                #[trigger] places_of_all(found@, true)[k],
            ),
{
    let path = files[p].path->Some_0@;
    let byte = encode_utf8(text@.take(at)).len();
    let key = mark_key(path, mark);
    let s0 = scan_from(start);
    let (order, heard) = choose|order: Seq<usize>, heard: Seq<HeardFile>|
        {
            &&& is_sweep_order(order, files, root)
            &&& #[trigger] are_heard(s0, files, order, name, heard, read, place, ask)
            &&& heard.len() == order.len()
            &&& all == after_files(s0, files, order, name, heard).out
        };
    assert(is_swept_file(files[p], root));
    assert(order.contains(p as usize));
    let h = order.index_of(p as usize);
    let before = after_files(s0, files, order, name, heard.take(h));
    let own = heard[h];
    assert(is_heard(before, files[p], name, own, read, place, ask));
    assert(own.text == text);
    // The occurrence is one of those that are met.
    assert(is_whole_at(text@, name, at));
    every_whole_occurrence_is_found(text@, name, at);
    let matches = matches_from(text@, name, 0);
    let m = matches.index_of(at);
    assert(encode_utf8(text@).len() <= u32::MAX);
    byte_of_grows(text@, at);
    let i = bytes_hold(text@, name, matches, m);
    let starts = starts_in(text@, name);
    assert(starts[i] == byte);
    assert(is_heard_at(
        before,
        files[p],
        name,
        own.marks.take(i),
        own.answers.take(i),
        starts[i],
        own.marks[i],
        own.answers[i],
        place,
        ask,
    ));
    assert(own.marks[i] == mark);
    assert(call_ensures(place, (files[p].id, byte as u32), Ok(mark)));
    assert forall|k: int| 0 <= k < heard.len() implies (#[trigger] heard[k]).marks.len()
        == heard[k].answers.len() by {
        assert(is_heard(
            after_files(s0, files, order, name, heard.take(k)),
            files[order[k] as int],
            name,
            heard[k],
            read,
            place,
            ask,
        ));
    }
    let s = after_marks(before, path, name, own.marks.take(i), own.answers.take(i));
    let after = after_marks(before, path, name, own.marks, own.answers);
    let upto = heard.take(h + 1);
    assert(upto.drop_last() =~= heard.take(h));
    assert(upto.last() == own);
    assert(after_files(s0, files, order, name, upto) == after);
    later_files_add(s0, files, order, name, heard, h + 1);
    later_marks_add(before, path, name, own.marks, own.answers, i);
    prefixes_chain(s.out, after.out, all);
    if s.covered.contains(key) {
        if !position_keys(all).contains(key) {
            accounted_in_a_file(
                before,
                path,
                name,
                own.marks.take(i),
                own.answers.take(i),
                key,
            );
            if position_keys(s.out).contains(key) {
                keys_grow(s.out, all);
            }
            if before.covered.contains(key) {
                accounted_in_files(s0, files, order, name, heard.take(h), key);
                later_files_add(s0, files, order, name, heard, h);
                keys_grow(before.out, all);
                let (g, k) = choose|g: int, k: int|
                    0 <= g < heard.take(h).len() && 0 <= k < heard.take(h)[g].marks.len()
                        && mark_key(
                        files[order[g] as int].path->Some_0@,
                        #[trigger] heard.take(h)[g].marks[k],
                    ) == key;
                other_mark(s0, files, order, name, heard, read, place, ask, g, k, path, mark);
                let q = order[g] as int;
                assert(is_swept_file(files[q], root));
                same_path_iff_same_normal(files[q].path->Some_0@, path);
                let start_g = starts_in(heard[g].text@, name)[k];
                assert(call_ensures(place, (files[q].id, start_g as u32), Ok(mark)));
                assert(q == p);
                assert(comes_first(files, order[g], order[h]));
            } else {
                let k = choose|k: int|
                    0 <= k < own.marks.take(i).len() && mark_key(
                        path,
                        #[trigger] own.marks.take(i)[k],
                    ) == key;
                other_mark(s0, files, order, name, heard, read, place, ask, h, k, path, mark);
                let start_k = starts[k];
                assert(call_ensures(place, (files[p].id, start_k as u32), Ok(mark)));
                starts_ascend(text@, name);
                assert(starts[k] < starts[i]);
            }
        }
    } else {
        assert(asked_at(starts[i], name) == asked);
        assert(call_ensures(ask, (files[p].id, asked), Ok(own.answers[i])));
        assert(own.answers[i] == found);
        let d = choose|d: int|
            0 <= d < found@.len() && (#[trigger] found@[d]).declaration is Some
                && found@[d].declaration->Some_0.0.name@ == name && (
            found@[d].declaration->Some_0.0.kind is Field
                || found@[d].declaration->Some_0.0.kind is Variant) && forall|b: int|
                0 <= b < d ==> (#[trigger] found@[b]).declaration is None;
        first_declaration_is(found@, 0, d);
        let m1 = own.marks.take(i + 1);
        let a1 = own.answers.take(i + 1);
        assert(m1.drop_last() =~= own.marks.take(i));
        assert(a1.drop_last() =~= own.answers.take(i));
        let then = after_marks(before, path, name, m1, a1);
        assert(then.out == s.out + places_of_all(found@, true));
        later_marks_add(before, path, name, own.marks, own.answers, i + 1);
        prefixes_chain(then.out, after.out, all);
        let whole = places_of_all(found@, true);
        assert forall|k: int| 0 <= k < whole.len() implies all.contains(#[trigger] whole[k]) by {
            assert(then.out[s.out.len() + k] == whole[k]);
            assert(all.subrange(0, then.out.len() as int)[s.out.len() + k] == all[s.out.len() + k]);
        }
    }
}

proof fn other_mark<
    T: Fn(u32) -> Result<String, String>,
    W: Fn(u32, u32) -> Result<(u32, u32), String>,
    A: Fn(u32, u32) -> Result<Vec<FoundDefinition>, String>,
>(
    s0: ScanState,
    files: Seq<SourceFile>,
    order: Seq<usize>,
    name: Seq<char>,
    heard: Seq<HeardFile>,
    read: T,
    place: W,
    ask: A,
    g: int,
    k: int,
    path: Seq<char>,
    mark: (u32, u32),
)
    requires
        are_heard(s0, files, order, name, heard, read, place, ask),
        are_sources(read, place, ask),
        0 <= g < heard.len(),
        0 <= k < heard[g].marks.len(),
        mark.0 < u32::MAX,
        mark.1 < u32::MAX,
        mark_key(files[order[g] as int].path->Some_0@, heard[g].marks[k]) == mark_key(path, mark),
    ensures
        heard[g].marks[k] == mark,
        k < starts_in(heard[g].text@, name).len(),
        call_ensures(
            place,
            (files[order[g] as int].id, starts_in(heard[g].text@, name)[k] as u32),
            Ok(mark),
        ),
        normal(files[order[g] as int].path->Some_0@) == normal(path),
{
    let file = files[order[g] as int];
    let before = after_files(s0, files, order, name, heard.take(g));
    let h = heard[g];
    assert(is_heard(before, file, name, h, read, place, ask));
    assert(is_heard_at(
        before,
        file,
        name,
        h.marks.take(k),
        h.answers.take(k),
        starts_in(h.text@, name)[k],
        h.marks[k],
        h.answers[k],
        place,
        ask,
    ));
}

proof fn a_list_without_symbols<
    T: Fn(u32) -> Result<String, String>,
    W: Fn(u32, u32) -> Result<(u32, u32), String>,
    A: Fn(u32, u32) -> Result<Vec<FoundDefinition>, String>,
>(
    symbols: Seq<SymbolHit>,
    files: Seq<SourceFile>,
    root: Seq<char>,
    name: Seq<char>,
    exact_only: bool,
    out: Seq<Place>,
    read: T,
    place: W,
    ask: A,
)
    requires
        symbols.len() == 0,
    ensures
        is_reference_list(symbols, files, root, name, exact_only, out, read, place, ask)
            <==> exists|all: Seq<Place>| #[trigger]
            is_sweep(Seq::empty(), files, root, name, all, read, place, ask) && is_merged(all, out),
{
    let order = asking_order(symbols, name, exact_only);
    assert(order =~= Seq::<usize>::empty());
    assert(!names_of(symbols).contains(name));
    let none = Seq::<Vec<FoundDefinition>>::empty();
    assert(are_asked(symbols, order, none, ask));
    assert(harvested(symbols, order, name, none) == Seq::<Place>::empty());
    if is_reference_list(symbols, files, root, name, exact_only, out, read, place, ask) {
        let answers = choose|answers: Seq<Vec<FoundDefinition>>|
            {
                let start = harvested(symbols, order, name, answers);
                &&& #[trigger] are_asked(symbols, order, answers, ask)
                &&& answers.len() == order.len()
                &&& if names_of(symbols).contains(name) {
                    is_merged(start, out)
                } else {
                    exists|all: Seq<Place>| #[trigger]
                        is_sweep(start, files, root, name, all, read, place, ask) && is_merged(
                            all,
                            out,
                        )
                }
            };
        assert(answers =~= none);
    }
}

/// Where a search finds no symbol at all, it makes no difference whether only exact
/// matches are wanted: what may be answered is the same.
pub proof fn without_symbols_exactness_makes_no_difference<
    T: Fn(u32) -> Result<String, String>,
    W: Fn(u32, u32) -> Result<(u32, u32), String>,
    A: Fn(u32, u32) -> Result<Vec<FoundDefinition>, String>,
>(
    symbols: Seq<SymbolHit>,
    files: Seq<SourceFile>,
    root: Seq<char>,
    name: Seq<char>,
    out: Seq<Place>,
    read: T,
    place: W,
    ask: A,
)
    requires
        symbols.len() == 0,
    ensures
        is_reference_list(symbols, files, root, name, true, out, read, place, ask)
            == is_reference_list(symbols, files, root, name, false, out, read, place, ask),
{
    a_list_without_symbols(symbols, files, root, name, true, out, read, place, ask);
    a_list_without_symbols(symbols, files, root, name, false, out, read, place, ask);
}

/// Where a search finds no symbol at all, the first place in the first Rust file under
/// the root where the name stands as a whole identifier is asked, whether or not only
/// exact matches are wanted: if the analysis finds a field or a variant of the name there,
/// the definition and each of its references are listed as exact.
pub proof fn the_first_use_of_a_field_or_variant_is_asked<
    T: Fn(u32) -> Result<String, String>,
    W: Fn(u32, u32) -> Result<(u32, u32), String>,
    A: Fn(u32, u32) -> Result<Vec<FoundDefinition>, String>,
>(
    symbols: Seq<SymbolHit>,
    files: Seq<SourceFile>,
    root: Seq<char>,
    name: Seq<char>,
    exact_only: bool,
    out: Seq<Place>,
    read: T,
    place: W,
    ask: A,
    p: int,
    text: String,
    at: int,
    asked: u32,
    found: Vec<FoundDefinition>,
)
    requires
        is_reference_list(symbols, files, root, name, exact_only, out, read, place, ask),
        are_sources(read, place, ask),
        symbols.len() == 0,
        0 <= p < files.len() <= usize::MAX,
        files[p].path is Some,
        is_rust_path(files[p].path->Some_0@),
        is_under(files[p].path->Some_0@, root),
        forall|q: int|
            0 <= q < files.len() && q != p && (#[trigger] files[q]).path is Some && is_rust_path(
                files[q].path->Some_0@,
            ) && is_under(files[q].path->Some_0@, root) ==> files[p].id < files[q].id,
        forall|r: Result<String, String>| #[trigger]
            call_ensures(read, (files[p].id,), r) ==> r == Ok::<String, String>(text),
        name.len() > 0,
        forall|k: int| 0 <= k < name.len() ==> is_ident_char(#[trigger] name[k]),
        0 <= at <= at + name.len() <= text@.len(),
        text@.subrange(at, at + name.len()) == name,
        at == 0 || !is_ident_char(text@[at - 1]),
        at + name.len() == text@.len() || !is_ident_char(text@[at + name.len()]),
        forall|b: int| 0 <= b < at ==> !#[trigger] is_whole_at(text@, name, b),
        asked == encode_utf8(text@.take(at)).len() + (if encode_utf8(name).len() > 1 {
            1int
        } else {
            0
        }),
        forall|r: Result<Vec<FoundDefinition>, String>| #[trigger]
            call_ensures(ask, (files[p].id, asked), r) ==> r == Ok::<Vec<FoundDefinition>, String>(
                found,
            ),
        is_field_or_variant(found@, name),
    ensures
        are_all_listed(out, found@),
{
    a_list_without_symbols(symbols, files, root, name, exact_only, out, read, place, ask);
    let start = Seq::<Place>::empty();
    let all = choose|all: Seq<Place>| #[trigger]
        is_sweep(start, files, root, name, all, read, place, ask) && is_merged(all, out);
    let path = files[p].path->Some_0@;
    let s0 = scan_from(start);
    let (order, heard) = choose|order: Seq<usize>, heard: Seq<HeardFile>|
        {
            &&& is_sweep_order(order, files, root)
            &&& #[trigger] are_heard(s0, files, order, name, heard, read, place, ask)
            &&& heard.len() == order.len()
            &&& all == after_files(s0, files, order, name, heard).out
        };
    assert(is_swept_file(files[p], root));
    assert(order.contains(p as usize));
    let h = order.index_of(p as usize);
    if h > 0 {
        assert(comes_first(files, order[0], order[h]));
        assert(is_swept_file(files[order[0] as int], root));
        assert(order[0] != p as usize);
    }
    assert(h == 0);
    assert(heard.take(0) =~= Seq::<HeardFile>::empty());
    let own = heard[0];
    assert(is_heard(s0, files[p], name, own, read, place, ask));
    assert(is_whole_at(text@, name, at));
    every_whole_occurrence_is_found(text@, name, at);
    let matches = matches_from(text@, name, 0);
    let m = matches.index_of(at);
    byte_of_grows(text@, at);
    matches_ascend(text@, name, 0);
    first_whole_is_first(text@, name, matches, m);
    let starts = starts_in(text@, name);
    let byte = encode_utf8(text@.take(at)).len();
    assert(starts[0] == byte);
    assert(is_heard_at(
        s0,
        files[p],
        name,
        own.marks.take(0),
        own.answers.take(0),
        starts[0],
        own.marks[0],
        own.answers[0],
        place,
        ask,
    ));
    assert(own.marks.take(0) =~= Seq::<(u32, u32)>::empty());
    assert(s0.covered =~= Set::empty());
    let mark = own.marks[0];
    assert(asked_at(starts[0], name) == asked);
    assert(call_ensures(ask, (files[p].id, asked), Ok(own.answers[0])));
    assert(own.answers[0] == found);
    let d = choose|d: int|
        0 <= d < found@.len() && (#[trigger] found@[d]).declaration is Some
            && found@[d].declaration->Some_0.0.name@ == name && (
        found@[d].declaration->Some_0.0.kind is Field
            || found@[d].declaration->Some_0.0.kind is Variant) && forall|b: int|
            0 <= b < d ==> (#[trigger] found@[b]).declaration is None;
    first_declaration_is(found@, 0, d);
    let m1 = own.marks.take(1);
    let a1 = own.answers.take(1);
    assert(m1.drop_last() =~= own.marks.take(0));
    assert(a1.drop_last() =~= own.answers.take(0));
    let then = after_marks(s0, path, name, m1, a1);
    assert(after_marks(s0, path, name, m1.drop_last(), a1.drop_last()) == s0);
    let whole = places_of_all(found@, true);
    assert(then.out == s0.out + whole);
    later_marks_add(s0, path, name, own.marks, own.answers, 1);
    assert forall|k: int| 0 <= k < heard.len() implies (#[trigger] heard[k]).marks.len()
        == heard[k].answers.len() by {
        assert(is_heard(
            after_files(s0, files, order, name, heard.take(k)),
            files[order[k] as int],
            name,
            heard[k],
            read,
            place,
            ask,
        ));
    }
    let upto = heard.take(1);
    assert(upto.drop_last() =~= heard.take(0));
    assert(upto.last() == own);
    assert(after_files(s0, files, order, name, upto.drop_last()) == s0);
    assert(after_files(s0, files, order, name, upto) == after_marks(
        s0,
        path,
        name,
        own.marks,
        own.answers,
    ));
    later_files_add(s0, files, order, name, heard, 1);
    prefixes_chain(then.out, after_marks(s0, path, name, own.marks, own.answers).out, all);
    assert forall|k: int| 0 <= k < whole.len() implies all.contains(#[trigger] whole[k]) by {
        assert(then.out[k] == whole[k]);
        assert(all.subrange(0, then.out.len() as int)[k] == all[k]);
    }
    found_is_listed(all, out, found@);
}

proof fn first_whole_is_first(text: Seq<char>, name: Seq<char>, at: Seq<int>, m: int)
    requires
        0 <= m < at.len(),
        is_whole_at(text, name, at[m]),
        forall|j: int| 0 <= j < m ==> !is_whole_at(text, name, #[trigger] at[j]),
    ensures
        whole_bytes(text, name, at).len() > 0,
        whole_bytes(text, name, at)[0] == byte_of(text, at[m]) as usize,
    decreases m,
{
    if m > 0 {
        assert(!is_whole_at(text, name, at[0]));
        let rest = at.drop_first();
        assert(rest[m - 1] == at[m]);
        assert forall|j: int| 0 <= j < m - 1 implies !is_whole_at(text, name, #[trigger] rest[j]) by {
            assert(rest[j] == at[j + 1]);
        }
        first_whole_is_first(text, name, rest, m - 1);
    }
}

/// Every symbol of exactly the name is asked, and the definitions that the analysis finds
/// there are listed as exact with all their references, whatever other symbols there are;
/// where others are wanted too, so are those of any other symbol, at their positions.
pub proof fn every_symbol_is_asked<
    T: Fn(u32) -> Result<String, String>,
    W: Fn(u32, u32) -> Result<(u32, u32), String>,
    A: Fn(u32, u32) -> Result<Vec<FoundDefinition>, String>,
>(
    symbols: Seq<SymbolHit>,
    files: Seq<SourceFile>,
    root: Seq<char>,
    name: Seq<char>,
    exact_only: bool,
    out: Seq<Place>,
    read: T,
    place: W,
    ask: A,
    s: int,
    found: Vec<FoundDefinition>,
)
    requires
        is_reference_list(symbols, files, root, name, exact_only, out, read, place, ask),
        are_sources(read, place, ask),
        0 <= s < symbols.len() <= usize::MAX,
        forall|r: Result<Vec<FoundDefinition>, String>| #[trigger]
            call_ensures(ask, (symbols[s].file, symbols[s].offset), r) ==> r == Ok::<
                Vec<FoundDefinition>,
                String,
            >(found),
    ensures
        symbols[s].name@ == name ==> are_all_listed(out, found@),
        !exact_only ==> forall|k: int|
            0 <= k < places_of_all(found@, false).len() ==> is_covered(
                out,
                #[trigger] places_of_all(found@, false)[k],
            ),
{
    let order = asking_order(symbols, name, exact_only);
    let answers = choose|answers: Seq<Vec<FoundDefinition>>|
        {
            let start = harvested(symbols, order, name, answers);
            &&& #[trigger] are_asked(symbols, order, answers, ask)
            &&& answers.len() == order.len()
            &&& if names_of(symbols).contains(name) {
                is_merged(start, out)
            } else {
                exists|all: Seq<Place>| #[trigger]
                    is_sweep(start, files, root, name, all, read, place, ask) && is_merged(all, out)
            }
        };
    let start = harvested(symbols, order, name, answers);
    let all = if names_of(symbols).contains(name) {
        start
    } else {
        choose|all: Seq<Place>| #[trigger]
            is_sweep(start, files, root, name, all, read, place, ask) && is_merged(all, out)
    };
    assert(start.is_prefix_of(all)) by {
        if names_of(symbols).contains(name) {
            assert(start.subrange(0, start.len() as int) =~= start);
        } else {
            sweep_only_adds(start, files, root, name, all, read, place, ask);
        }
    }
    let names = names_of(symbols);
    assert(names[s] == symbols[s].name@);
    if symbols[s].name@ == name || !exact_only {
        let is_it = symbols[s].name@ == name;
        named_position_stands(names, name, is_it, names.len(), s);
        let exact = positions_named(names, name, true, names.len());
        let other = positions_named(names, name, false, names.len());
        let k = if is_it {
            exact.index_of(s as usize)
        } else {
            exact.len() + other.index_of(s as usize)
        };
        assert(order[k] == s as usize);
        assert(answers[k] == found) by {
            assert(call_ensures(
                ask,
                (symbols[order[k] as int].file, symbols[order[k] as int].offset),
                Ok(answers[k]),
            ));
        }
        let whole = places_of_all(found@, is_it);
        assert forall|i: int| 0 <= i < whole.len() implies all.contains(#[trigger] whole[i]) by {
            harvest_holds(symbols, order, name, answers, k, is_it, i);
            let j = start.index_of(whole[i]);
            assert(all.subrange(0, start.len() as int)[j] == all[j]);
        }
        if is_it {
            found_is_listed(all, out, found@);
        }
        if !exact_only {
            let plain = places_of_all(found@, false);
            marking_moves_nothing(found@);
            assert forall|i: int| 0 <= i < plain.len() implies is_covered(
                out,
                #[trigger] plain[i],
            ) by {
                assert(all.contains(whole[i]));
                merged_lists(all, out, whole[i]);
                let j = choose|j: int|
                    0 <= j < out.len() && same_position(#[trigger] out[j], whole[i]);
                assert(same_position(out[j], plain[i]));
            }
        }
    }
}

proof fn marking_moves_nothing(found: Seq<FoundDefinition>)
    ensures
        places_of_all(found, true).len() == places_of_all(found, false).len(),
        forall|k: int|
            0 <= k < places_of_all(found, true).len() ==> same_position(
                #[trigger] places_of_all(found, true)[k],
                places_of_all(found, false)[k],
            ),
    decreases found.len(),
{
    if found.len() > 0 {
        let init = found.drop_last();
        marking_moves_nothing(init);
        let a = places_of_all(found, true);
        let b = places_of_all(found, false);
        let n = places_of_all(init, true).len() as int;
        let x = places_of_one(found.last(), true);
        let y = places_of_one(found.last(), false);
        assert(a == places_of_all(init, true) + x);
        assert(b == places_of_all(init, false) + y);
        assert forall|k: int| 0 <= k < a.len() implies same_position(#[trigger] a[k], b[k]) by {
            if k < n {
                assert(a[k] == places_of_all(init, true)[k]);
            } else {
                assert(a[k] == x[k - n] && b[k] == y[k - n]);
            }
        }
    }
}

proof fn named_position_stands(
    names: Seq<Seq<char>>,
    name: Seq<char>,
    is_it: bool,
    n: nat,
    s: int,
)
    requires
        0 <= s < n <= names.len(),
        (names[s] == name) == is_it,
    ensures
        positions_named(names, name, is_it, n).contains(s as usize),
    decreases n,
{
    let init = positions_named(names, name, is_it, (n - 1) as nat);
    let now = positions_named(names, name, is_it, n);
    if s == n - 1 {
        assert(now[init.len() as int] == s as usize);
    } else {
        named_position_stands(names, name, is_it, (n - 1) as nat, s);
        let k = init.index_of(s as usize);
        assert(now[k] == s as usize);
    }
}

proof fn harvest_holds(
    symbols: Seq<SymbolHit>,
    order: Seq<usize>,
    name: Seq<char>,
    answers: Seq<Vec<FoundDefinition>>,
    k: int,
    exact: bool,
    i: int,
)
    requires
        0 <= k < answers.len() <= order.len(),
        exact == (symbols[order[k] as int].name@ == name),
        0 <= i < places_of_all(answers[k]@, exact).len(),
    ensures
        harvested(symbols, order, name, answers).contains(places_of_all(answers[k]@, exact)[i]),
    decreases answers.len(),
{
    let x = places_of_all(answers[k]@, exact)[i];
    let init = harvested(symbols, order, name, answers.drop_last());
    let now = harvested(symbols, order, name, answers);
    if k == answers.len() - 1 {
        assert(now[init.len() + i] == x);
    } else {
        assert(answers.drop_last()[k] == answers[k]);
        harvest_holds(symbols, order, name, answers.drop_last(), k, exact, i);
        let j = init.index_of(x);
        assert(now[j] == x);
    }
}

proof fn sweep_only_adds<
    T: Fn(u32) -> Result<String, String>,
    W: Fn(u32, u32) -> Result<(u32, u32), String>,
    A: Fn(u32, u32) -> Result<Vec<FoundDefinition>, String>,
>(
    start: Seq<Place>,
    files: Seq<SourceFile>,
    root: Seq<char>,
    name: Seq<char>,
    all: Seq<Place>,
    read: T,
    place: W,
    ask: A,
)
    requires
        is_sweep(start, files, root, name, all, read, place, ask),
    ensures
        start.is_prefix_of(all),
{
    let s0 = scan_from(start);
    let (order, heard) = choose|order: Seq<usize>, heard: Seq<HeardFile>|
        {
            &&& is_sweep_order(order, files, root)
            &&& #[trigger] are_heard(s0, files, order, name, heard, read, place, ask)
            &&& heard.len() == order.len()
            &&& all == after_files(s0, files, order, name, heard).out
        };
    assert forall|k: int| 0 <= k < heard.len() implies (#[trigger] heard[k]).marks.len()
        == heard[k].answers.len() by {
        assert(is_heard(
            after_files(s0, files, order, name, heard.take(k)),
            files[order[k] as int],
            name,
            heard[k],
            read,
            place,
            ask,
        ));
    }
    assert(heard.take(0) =~= Seq::<HeardFile>::empty());
    later_files_add(s0, files, order, name, heard, 0);
}

/// Nothing is made up. Each listed place is one that the analysis gave: an exact one at a
/// symbol of exactly the name or, where none has it, as a place of a field or variant of
/// the name; any other at a symbol of another name, and only where those are wanted.
pub proof fn every_listed_place_was_given<
    T: Fn(u32) -> Result<String, String>,
    W: Fn(u32, u32) -> Result<(u32, u32), String>,
    A: Fn(u32, u32) -> Result<Vec<FoundDefinition>, String>,
>(
    symbols: Seq<SymbolHit>,
    files: Seq<SourceFile>,
    root: Seq<char>,
    name: Seq<char>,
    exact_only: bool,
    out: Seq<Place>,
    read: T,
    place: W,
    ask: A,
    j: int,
)
    requires
        is_reference_list(symbols, files, root, name, exact_only, out, read, place, ask),
        symbols.len() <= usize::MAX,
        0 <= j < out.len(),
    ensures
        exists|file: u32, at: u32, found: Vec<FoundDefinition>| #[trigger]
            call_ensures(ask, (file, at), Ok(found)) && places_of_all(
                found@,
                out[j].exact,
            ).contains(out[j]) && if out[j].exact {
                (exists|s: int|
                    0 <= s < symbols.len() && (#[trigger] symbols[s]).name@ == name
                        && symbols[s].file == file && symbols[s].offset == at) || ((forall|s: int|
                    0 <= s < symbols.len() ==> (#[trigger] symbols[s]).name@ != name)
                    && is_field_or_variant(found@, name))
            } else {
                !exact_only && exists|s: int|
                    0 <= s < symbols.len() && (#[trigger] symbols[s]).name@ != name
                        && symbols[s].file == file && symbols[s].offset == at
            },
{
    let order = asking_order(symbols, name, exact_only);
    let answers = choose|answers: Seq<Vec<FoundDefinition>>|
        {
            let start = harvested(symbols, order, name, answers);
            &&& #[trigger] are_asked(symbols, order, answers, ask)
            &&& answers.len() == order.len()
            &&& if names_of(symbols).contains(name) {
                is_merged(start, out)
            } else {
                exists|all: Seq<Place>| #[trigger]
                    is_sweep(start, files, root, name, all, read, place, ask) && is_merged(all, out)
            }
        };
    let start = harvested(symbols, order, name, answers);
    let resolved = names_of(symbols).contains(name);
    let all = if resolved {
        start
    } else {
        choose|all: Seq<Place>| #[trigger]
            is_sweep(start, files, root, name, all, read, place, ask) && is_merged(all, out)
    };
    assert(is_chosen_of(all, out[j]));
    let c = choose|c: int| #[trigger] is_chosen(all, c) && all[c] == out[j];
    let x = all[c];
    if !resolved {
        assert forall|s: int| 0 <= s < symbols.len() implies (#[trigger] symbols[s]).name@
            != name by {
            if symbols[s].name@ == name {
                assert(names_of(symbols)[s] == name);
            }
        }
        swept_places_were_given(start, files, root, name, all, read, place, ask, c);
    }
    if start.contains(x) {
        let k = harvest_was_given(symbols, order, name, answers, x);
        let exact = symbols[order[k] as int].name@ == name;
        asked_symbols_are(symbols, name, exact_only, k);
        let s = order[k] as int;
        all_are_marked(answers[k]@, exact);
        let at = places_of_all(answers[k]@, exact).index_of(x);
        assert(x.exact == exact);
        assert(call_ensures(ask, (symbols[s].file, symbols[s].offset), Ok(answers[k])));
    } else {
        let (file, at, found) = choose|file: u32, at: u32, found: Vec<FoundDefinition>| #[trigger]
            call_ensures(ask, (file, at), Ok(found)) && places_of_all(found@, true).contains(x)
                && is_field_or_variant(found@, name);
        all_are_marked(found@, true);
        let i = places_of_all(found@, true).index_of(x);
        assert(x.exact);
    }
}

proof fn asked_symbols_are(symbols: Seq<SymbolHit>, name: Seq<char>, exact_only: bool, k: int)
    requires
        0 <= k < asking_order(symbols, name, exact_only).len(),
        symbols.len() <= usize::MAX,
    ensures
        asking_order(symbols, name, exact_only)[k] < symbols.len(),
        symbols[asking_order(symbols, name, exact_only)[k] as int].name@ != name ==> !exact_only,
{
    let names = names_of(symbols);
    let exact = positions_named(names, name, true, names.len());
    let other = positions_named(names, name, false, names.len());
    named_positions_are(names, name, true, names.len());
    named_positions_are(names, name, false, names.len());
    let order = asking_order(symbols, name, exact_only);
    if k < exact.len() {
        assert(order[k] == exact[k]);
        assert(names[order[k] as int] == name);
    } else {
        assert(order[k] == other[k - exact.len()]);
    }
}

proof fn named_positions_are(names: Seq<Seq<char>>, name: Seq<char>, is_it: bool, n: nat)
    requires
        n <= names.len() <= usize::MAX,
    ensures
        forall|k: int|
            0 <= k < positions_named(names, name, is_it, n).len() ==> (#[trigger] positions_named(
                names,
                name,
                is_it,
                n,
            )[k]) < n && (names[positions_named(names, name, is_it, n)[k] as int] == name) == is_it,
    decreases n,
{
    if n > 0 {
        named_positions_are(names, name, is_it, (n - 1) as nat);
        let init = positions_named(names, name, is_it, (n - 1) as nat);
        let now = positions_named(names, name, is_it, n);
        assert forall|k: int| 0 <= k < now.len() implies (#[trigger] now[k]) < n && (
        names[now[k] as int] == name) == is_it by {
            if k < init.len() {
                assert(now[k] == init[k]);
            }
        }
    }
}

proof fn harvest_was_given(
    symbols: Seq<SymbolHit>,
    order: Seq<usize>,
    name: Seq<char>,
    answers: Seq<Vec<FoundDefinition>>,
    x: Place,
) -> (k: int)
    requires
        answers.len() <= order.len(),
        harvested(symbols, order, name, answers).contains(x),
    ensures
        0 <= k < answers.len(),
        places_of_all(answers[k]@, symbols[order[k] as int].name@ == name).contains(x),
    decreases answers.len(),
{
    let n = answers.len() - 1;
    let init = harvested(symbols, order, name, answers.drop_last());
    let last = places_of_all(answers.last()@, symbols[order[n] as int].name@ == name);
    let i = (init + last).index_of(x);
    if i < init.len() {
        assert(init[i] == x);
        harvest_was_given(symbols, order, name, answers.drop_last(), x)
    } else {
        assert(last[i - init.len()] == x);
        n
    }
}

proof fn swept_places_were_given<
    T: Fn(u32) -> Result<String, String>,
    W: Fn(u32, u32) -> Result<(u32, u32), String>,
    A: Fn(u32, u32) -> Result<Vec<FoundDefinition>, String>,
>(
    start: Seq<Place>,
    files: Seq<SourceFile>,
    root: Seq<char>,
    name: Seq<char>,
    all: Seq<Place>,
    read: T,
    place: W,
    ask: A,
    c: int,
)
    requires
        is_sweep(start, files, root, name, all, read, place, ask),
        0 <= c < all.len(),
    ensures
        start.contains(all[c]) || exists|file: u32, at: u32, found: Vec<FoundDefinition>| #[trigger]
            call_ensures(ask, (file, at), Ok(found)) && places_of_all(found@, true).contains(all[c])
                && is_field_or_variant(found@, name),
{
    let s0 = scan_from(start);
    let (order, heard) = choose|order: Seq<usize>, heard: Seq<HeardFile>|
        {
            &&& is_sweep_order(order, files, root)
            &&& #[trigger] are_heard(s0, files, order, name, heard, read, place, ask)
            &&& heard.len() == order.len()
            &&& all == after_files(s0, files, order, name, heard).out
        };
    assert(heard.take(heard.len() as int) =~= heard);
    assert(all.contains(all[c]));
    files_were_given(s0, files, order, name, heard, read, place, ask, heard.len() as int, all[c]);
}

proof fn files_were_given<
    T: Fn(u32) -> Result<String, String>,
    W: Fn(u32, u32) -> Result<(u32, u32), String>,
    A: Fn(u32, u32) -> Result<Vec<FoundDefinition>, String>,
>(
    s0: ScanState,
    files: Seq<SourceFile>,
    order: Seq<usize>,
    name: Seq<char>,
    heard: Seq<HeardFile>,
    read: T,
    place: W,
    ask: A,
    n: int,
    x: Place,
)
    requires
        are_heard(s0, files, order, name, heard, read, place, ask),
        0 <= n <= heard.len(),
        after_files(s0, files, order, name, heard.take(n)).out.contains(x),
    ensures
        s0.out.contains(x) || exists|file: u32, at: u32, found: Vec<FoundDefinition>| #[trigger]
            call_ensures(ask, (file, at), Ok(found)) && places_of_all(found@, true).contains(x)
                && is_field_or_variant(found@, name),
    decreases n,
{
    if n == 0 {
        assert(heard.take(0) =~= Seq::<HeardFile>::empty());
    } else {
        let now = heard.take(n);
        assert(now.drop_last() =~= heard.take(n - 1));
        let h = heard[n - 1];
        assert(now.last() == h);
        let before = after_files(s0, files, order, name, heard.take(n - 1));
        let file = files[order[n - 1] as int];
        assert(is_heard(before, file, name, h, read, place, ask));
        if !before.out.contains(x) {
            assert(h.marks.take(h.marks.len() as int) =~= h.marks);
            assert(h.answers.take(h.marks.len() as int) =~= h.answers);
            marks_were_given(before, file, name, h, read, place, ask, h.marks.len() as int, x);
        } else {
            files_were_given(s0, files, order, name, heard, read, place, ask, n - 1, x);
        }
    }
}

proof fn marks_were_given<
    T: Fn(u32) -> Result<String, String>,
    W: Fn(u32, u32) -> Result<(u32, u32), String>,
    A: Fn(u32, u32) -> Result<Vec<FoundDefinition>, String>,
>(
    before: ScanState,
    file: SourceFile,
    name: Seq<char>,
    h: HeardFile,
    read: T,
    place: W,
    ask: A,
    n: int,
    x: Place,
)
    requires
        is_heard(before, file, name, h, read, place, ask),
        0 <= n <= h.marks.len(),
        !before.out.contains(x),
        after_marks(
            before,
            file.path->Some_0@,
            name,
            h.marks.take(n),
            h.answers.take(n),
        ).out.contains(x),
    ensures
        exists|file: u32, at: u32, found: Vec<FoundDefinition>| #[trigger]
            call_ensures(ask, (file, at), Ok(found)) && places_of_all(found@, true).contains(x)
                && is_field_or_variant(found@, name),
    decreases n,
{
    let path = file.path->Some_0@;
    let m = h.marks.take(n);
    let a = h.answers.take(n);
    if n > 0 {
        assert(m.drop_last() =~= h.marks.take(n - 1));
        assert(a.drop_last() =~= h.answers.take(n - 1));
        let s = after_marks(before, path, name, h.marks.take(n - 1), h.answers.take(n - 1));
        let now = after_marks(before, path, name, m, a);
        if s.out.contains(x) {
            marks_were_given(before, file, name, h, read, place, ask, n - 1, x);
        } else {
            let found = h.answers[n - 1];
            let fresh = places_of_all(found@, true);
            assert(a.last() == found);
            assert(now.out == s.out + fresh);
            let i = now.out.index_of(x);
            if i < s.out.len() {
                assert(s.out[i] == x);
            }
            assert(fresh[i - s.out.len()] == x);
            let d = first_declaration_stands(found@, 0);
            assert(is_field_or_variant(found@, name));
            assert(is_heard_at(
                before,
                file,
                name,
                h.marks.take(n - 1),
                h.answers.take(n - 1),
                starts_in(h.text@, name)[n - 1],
                h.marks[n - 1],
                h.answers[n - 1],
                place,
                ask,
            ));
            assert(call_ensures(
                ask,
                (file.id, asked_at(starts_in(h.text@, name)[n - 1], name)),
                Ok(found),
            ));
        }
    }
}

/// The order of a list: each position once, the exact places before all others, and each
/// kind by the path, the line and the column.
pub proof fn a_list_names_each_position_once<
    T: Fn(u32) -> Result<String, String>,
    W: Fn(u32, u32) -> Result<(u32, u32), String>,
    A: Fn(u32, u32) -> Result<Vec<FoundDefinition>, String>,
>(
    symbols: Seq<SymbolHit>,
    files: Seq<SourceFile>,
    root: Seq<char>,
    name: Seq<char>,
    exact_only: bool,
    out: Seq<Place>,
    read: T,
    place: W,
    ask: A,
    j: int,
    k: int,
)
    requires
        is_reference_list(symbols, files, root, name, exact_only, out, read, place, ask),
        0 <= j < k < out.len(),
    ensures
        !(components(out[j].file_path) == components(out[k].file_path) && out[j].line == out[k].line
            && out[j].column == out[k].column),
        out[k].exact ==> out[j].exact,
        out[j].exact == out[k].exact && components(out[j].file_path) == components(
            out[k].file_path,
        ) ==> out[j].line < out[k].line || (out[j].line == out[k].line && out[j].column
            < out[k].column),
{
    let order = asking_order(symbols, name, exact_only);
    let answers = choose|answers: Seq<Vec<FoundDefinition>>|
        {
            let start = harvested(symbols, order, name, answers);
            &&& #[trigger] are_asked(symbols, order, answers, ask)
            &&& answers.len() == order.len()
            &&& if names_of(symbols).contains(name) {
                is_merged(start, out)
            } else {
                exists|all: Seq<Place>| #[trigger]
                    is_sweep(start, files, root, name, all, read, place, ask) && is_merged(all, out)
            }
        };
    let start = harvested(symbols, order, name, answers);
    let all = if names_of(symbols).contains(name) {
        start
    } else {
        choose|all: Seq<Place>| #[trigger]
            is_sweep(start, files, root, name, all, read, place, ask) && is_merged(all, out)
    };
    assert(is_merged(all, out));
    assert(is_chosen_of(all, out[j]) && is_chosen_of(all, out[k]));
    let a = choose|c: int| #[trigger] is_chosen(all, c) && all[c] == out[j];
    let b = choose|c: int| #[trigger] is_chosen(all, c) && all[c] == out[k];
    if same_position(out[j], out[k]) {
        assert(same_position(all[a], all[b]) && same_position(all[b], all[a]));
        assert(all[a].exact == all[b].exact);
        assert(a == b);
        no_path_precedes_itself(out[j].file_path, out[k].file_path);
    }
    if components(out[j].file_path) == components(out[k].file_path) {
        no_path_precedes_itself(out[j].file_path, out[k].file_path);
    }
}

proof fn no_path_precedes_itself(a: Seq<char>, b: Seq<char>)
    requires
        components(a) == components(b),
    ensures
        !path_precedes(a, b),
{
    components_precede_irreflexive(components(a));
}

/// A search by name misses no use of a field or a variant, whether or not only exact
/// matches are wanted. The search for symbols found some, none of them of exactly the
/// name; the rest is as said of the list of references.
pub proof fn a_search_by_name_finds_fields_and_variants<
    S: Fn(&str, usize) -> Result<Vec<SymbolHit>, String>,
    T: Fn(u32) -> Result<String, String> + Copy,
    W: Fn(u32, u32) -> Result<(u32, u32), String> + Copy,
    A: Fn(u32, u32) -> Result<Vec<FoundDefinition>, String> + Copy,
>(
    name: &str,
    exact_only: bool,
    files: Vec<SourceFile>,
    root: &str,
    search: S,
    read: T,
    place: W,
    ask: A,
    symbols: Vec<SymbolHit>,
    r: Result<Vec<Location>, String>,
    p: int,
    text: String,
    at: int,
    mark: (u32, u32),
    asked: u32,
    found: Vec<FoundDefinition>,
)
    requires
        call_ensures(
            find_references_by_name_with_exact::<S, T, W, A>,
            (name, exact_only, &files, root, search, read, place, ask),
            r,
        ),
        forall|found: Result<Vec<SymbolHit>, String>| #[trigger]
            call_ensures(search, (name, 50usize), found) ==> found == Ok::<Vec<SymbolHit>, String>(
                symbols,
            ),
        r is Ok,
        are_sources(read, place, ask),
        forall|i: int| 0 <= i < symbols@.len() ==> (#[trigger] symbols@[i]).name@ != name@,
        0 <= p < files@.len() <= usize::MAX,
        files@[p].path is Some,
        is_rust_path(files@[p].path->Some_0@),
        is_under(files@[p].path->Some_0@, root@),
        forall|read_text: Result<String, String>| #[trigger]
            call_ensures(read, (files@[p].id,), read_text) ==> read_text == Ok::<String, String>(
                text,
            ),
        name@.len() > 0,
        forall|k: int| 0 <= k < name@.len() ==> is_ident_char(#[trigger] name@[k]),
        0 <= at <= at + name@.len() <= text@.len(),
        text@.subrange(at, at + name@.len()) == name@,
        at == 0 || !is_ident_char(text@[at - 1]),
        at + name@.len() == text@.len() || !is_ident_char(text@[at + name@.len()]),
        forall|placed: Result<(u32, u32), String>| #[trigger]
            call_ensures(place, (files@[p].id, encode_utf8(text@.take(at)).len() as u32), placed)
                ==> placed == Ok::<(u32, u32), String>(mark),
        asked == encode_utf8(text@.take(at)).len() + (if encode_utf8(name@).len() > 1 {
            1int
        } else {
            0
        }),
        forall|answer: Result<Vec<FoundDefinition>, String>| #[trigger]
            call_ensures(ask, (files@[p].id, asked), answer) ==> answer == Ok::<
                Vec<FoundDefinition>,
                String,
            >(found),
        is_field_or_variant(found@, name@),
        forall|q: int, start: u32|
            0 <= q < files@.len() && files@[q].path is Some && components(files@[q].path->Some_0@)
                == components(files@[p].path->Some_0@) && #[trigger] call_ensures(
                place,
                (files@[q].id, start),
                Ok(mark),
            ) ==> q == p && start == encode_utf8(text@.take(at)).len(),
    ensures
        are_all_listed(places(r->Ok_0@), found@) || exists|j: int|
            0 <= j < places(r->Ok_0@).len() && components(
                (#[trigger] places(r->Ok_0@)[j]).file_path,
            ) == components(files@[p].path->Some_0@) && places(r->Ok_0@)[j].line == mark.0 + 1
                && places(r->Ok_0@)[j].column == mark.1 + 1,
{
    every_use_of_a_field_or_variant_is_listed(
        symbols@,
        files@,
        root@,
        name@,
        exact_only,
        places(r->Ok_0@),
        read,
        place,
        ask,
        p,
        text,
        at,
        mark,
        asked,
        found,
    );
}

/// A search by name asks each symbol that it finds, and lists what is found of one that
/// has exactly the name as exact. Others are listed too unless only exact matches are
/// wanted.
pub proof fn a_search_by_name_asks_its_symbols<
    S: Fn(&str, usize) -> Result<Vec<SymbolHit>, String>,
    T: Fn(u32) -> Result<String, String> + Copy,
    W: Fn(u32, u32) -> Result<(u32, u32), String> + Copy,
    A: Fn(u32, u32) -> Result<Vec<FoundDefinition>, String> + Copy,
>(
    name: &str,
    exact_only: bool,
    files: Vec<SourceFile>,
    root: &str,
    search: S,
    read: T,
    place: W,
    ask: A,
    symbols: Vec<SymbolHit>,
    r: Result<Vec<Location>, String>,
    s: int,
    found: Vec<FoundDefinition>,
)
    requires
        call_ensures(
            find_references_by_name_with_exact::<S, T, W, A>,
            (name, exact_only, &files, root, search, read, place, ask),
            r,
        ),
        forall|found: Result<Vec<SymbolHit>, String>| #[trigger]
            call_ensures(search, (name, 50usize), found) ==> found == Ok::<Vec<SymbolHit>, String>(
                symbols,
            ),
        r is Ok,
        are_sources(read, place, ask),
        0 <= s < symbols@.len() <= usize::MAX,
        forall|answer: Result<Vec<FoundDefinition>, String>| #[trigger]
            call_ensures(ask, (symbols@[s].file, symbols@[s].offset), answer) ==> answer == Ok::<
                Vec<FoundDefinition>,
                String,
            >(found),
    ensures
        symbols@[s].name@ == name@ ==> are_all_listed(places(r->Ok_0@), found@),
        !exact_only ==> forall|k: int|
            0 <= k < places_of_all(found@, false).len() ==> is_covered(
                places(r->Ok_0@),
                #[trigger] places_of_all(found@, false)[k],
            ),
{
    every_symbol_is_asked(
        symbols@,
        files@,
        root@,
        name@,
        exact_only,
        places(r->Ok_0@),
        read,
        place,
        ask,
        s,
        found,
    );
}

/// A search by name in which nothing is said of exact names covers what is found of every
/// symbol.
pub proof fn a_plain_search_by_name_covers_its_symbols<
    S: Fn(&str, usize) -> Result<Vec<SymbolHit>, String>,
    T: Fn(u32) -> Result<String, String> + Copy,
    W: Fn(u32, u32) -> Result<(u32, u32), String> + Copy,
    A: Fn(u32, u32) -> Result<Vec<FoundDefinition>, String> + Copy,
>(
    name: &str,
    files: Vec<SourceFile>,
    root: &str,
    search: S,
    read: T,
    place: W,
    ask: A,
    symbols: Vec<SymbolHit>,
    r: Result<Vec<Location>, String>,
    s: int,
    found: Vec<FoundDefinition>,
    k: int,
)
    requires
        call_ensures(
            find_references_by_name::<S, T, W, A>,
            (name, &files, root, search, read, place, ask),
            r,
        ),
        forall|found: Result<Vec<SymbolHit>, String>| #[trigger]
            call_ensures(search, (name, 50usize), found) ==> found == Ok::<Vec<SymbolHit>, String>(
                symbols,
            ),
        r is Ok,
        are_sources(read, place, ask),
        0 <= s < symbols@.len() <= usize::MAX,
        forall|answer: Result<Vec<FoundDefinition>, String>| #[trigger]
            call_ensures(ask, (symbols@[s].file, symbols@[s].offset), answer) ==> answer == Ok::<
                Vec<FoundDefinition>,
                String,
            >(found),
        0 <= k < places_of_all(found@, false).len(),
    ensures
        is_covered(places(r->Ok_0@), places_of_all(found@, false)[k]),
{
    every_symbol_is_asked(
        symbols@,
        files@,
        root@,
        name@,
        false,
        places(r->Ok_0@),
        read,
        place,
        ask,
        s,
        found,
    );
}

/// A search by name ends with an error only where something that was asked ended with it:
/// the search for symbols, the reading of a file, the placing of an occurrence or the
/// analysis.
pub proof fn a_search_by_name_fails_with_what_was_asked<
    S: Fn(&str, usize) -> Result<Vec<SymbolHit>, String>,
    T: Fn(u32) -> Result<String, String> + Copy,
    W: Fn(u32, u32) -> Result<(u32, u32), String> + Copy,
    A: Fn(u32, u32) -> Result<Vec<FoundDefinition>, String> + Copy,
>(
    name: &str,
    exact_only: bool,
    files: Vec<SourceFile>,
    root: &str,
    search: S,
    read: T,
    place: W,
    ask: A,
    r: Result<Vec<Location>, String>,
)
    requires
        call_ensures(
            find_references_by_name_with_exact::<S, T, W, A>,
            (name, exact_only, &files, root, search, read, place, ask),
            r,
        ),
        forall|found: Result<Vec<SymbolHit>, String>| #[trigger]
            call_ensures(search, (name, 50usize), found) ==> found is Ok,
        forall|file: u32, found: Result<String, String>| #[trigger]
            call_ensures(read, (file,), found) ==> found is Ok,
        forall|file: u32, start: u32, found: Result<(u32, u32), String>| #[trigger]
            call_ensures(place, (file, start), found) ==> found is Ok,
        forall|file: u32, start: u32, found: Result<Vec<FoundDefinition>, String>| #[trigger]
            call_ensures(ask, (file, start), found) ==> found is Ok,
    ensures
        r is Ok,
{
}

} // verus!

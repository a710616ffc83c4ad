//! What holds of every search for symbols and of every question about a position,
//! whatever the analysis answers.

use vstd::prelude::*;

use crate::semantic::position::{
    are_locations, are_symbols, file_position, find_references, first_declaration, goto_definition,
    marked, place_of, place_of_target, places, places_of_all, places_of_one, places_or_error,
    ranked, reference_places, symbol_search, symbol_search_with_exact, with_exactness,
    FoundDefinition, Location, NavTarget, Place,
};

verus! {

proof fn with_exactness_holds(all: Seq<Place>, exact: bool, i: int) -> (k: int)
    requires
        0 <= i < all.len(),
        all[i].exact == exact,
    ensures
        0 <= k < with_exactness(all, exact).len(),
        with_exactness(all, exact)[k] == all[i],
    decreases all.len(),
{
    let init = with_exactness(all.drop_last(), exact);
    if i == all.len() - 1 {
        init.len() as int
    } else {
        assert(all.drop_last()[i] == all[i]);
        with_exactness_holds(all.drop_last(), exact, i)
    }
}

proof fn with_exactness_is_of_all(all: Seq<Place>, exact: bool, k: int) -> (i: int)
    requires
        0 <= k < with_exactness(all, exact).len(),
    ensures
        0 <= i < all.len(),
        all[i] == with_exactness(all, exact)[k],
        all[i].exact == exact,
    decreases all.len(),
{
    let init = with_exactness(all.drop_last(), exact);
    if k < init.len() {
        let i = with_exactness_is_of_all(all.drop_last(), exact, k);
        assert(all.drop_last()[i] == all[i]);
        i
    } else {
        all.len() - 1
    }
}

/// The place of a target, counted from one: at its name where it has one, else where the
/// whole of it begins.
pub open spec fn is_at(p: Place, target: NavTarget) -> bool {
    &&& target.file_path is Some
    &&& p.file_path == target.file_path->Some_0@
    &&& p.name == target.name@
    &&& target.focus is Some ==> p.line == target.focus->Some_0.0 + 1 && p.column
        == target.focus->Some_0.1 + 1
    &&& target.focus is None ==> p.line == target.full.0 + 1 && p.column == target.full.1 + 1
}

/// The lines and columns of a target can be counted from one.
pub open spec fn has_room(target: NavTarget) -> bool {
    &&& target.focus is Some ==> target.focus->Some_0.0 < u32::MAX && target.focus->Some_0.1
        < u32::MAX
    &&& target.full.0 < u32::MAX && target.full.1 < u32::MAX
}

proof fn a_found_symbol_is_listed<S: Fn(&str, usize) -> Result<Vec<NavTarget>, String>>(
    name: &str,
    limit: usize,
    exact_only: bool,
    search: S,
    targets: Vec<NavTarget>,
    r: Result<Vec<Location>, String>,
    i: int,
) -> (k: int)
    requires
        are_symbols(name, limit, exact_only, search, r),
        forall|found: Result<Vec<NavTarget>, String>| #[trigger]
            call_ensures(search, (name, limit), found) ==> found == Ok::<Vec<NavTarget>, String>(
                targets,
            ),
        forall|j: int|
            0 <= j < targets@.len() ==> (#[trigger] targets@[j]).file_path is Some && has_room(
                targets@[j],
            ),
        0 <= i < targets@.len(),
        targets@[i].name@ == name@ || !exact_only,
    ensures
        r is Ok,
        0 <= k < r->Ok_0@.len(),
        is_at(places(r->Ok_0@)[k], targets@[i]),
        places(r->Ok_0@)[k].exact <==> targets@[i].name@ == name@,
{
    let all = choose|all: Result<Seq<Place>, Seq<char>>|
        {
            &&& #[trigger] are_locations(targets@, all)
            &&& places_or_error(r) == (match all {
                Ok(all) => Ok(ranked(marked(all, name@), exact_only)),
                Err(e) => Err(e),
            })
        };
    let exact = targets@[i].name@ == name@;
    assert(all is Ok);
    let shown = marked(all->Ok_0, name@);
    assert(shown[i].exact == exact);
    let k = with_exactness_holds(shown, exact, i);
    assert(all->Ok_0[i] == place_of_target(targets@[i]));
    assert(places(r->Ok_0@) == ranked(shown, exact_only));
    assert(places(r->Ok_0@).len() == r->Ok_0@.len());
    if exact {
        k
    } else {
        with_exactness(shown, true).len() + k
    }
}

/// A search that answers finds all that it says: each symbol of exactly the name is listed
/// and marked as such, and each other one is listed too unless only exact ones are wanted.
pub proof fn every_found_symbol_is_listed<S: Fn(&str, usize) -> Result<Vec<NavTarget>, String>>(
    name: &str,
    limit: usize,
    exact_only: bool,
    search: S,
    targets: Vec<NavTarget>,
    r: Result<Vec<Location>, String>,
    i: int,
) -> (k: int)
    requires
        call_ensures(symbol_search_with_exact::<S>, (name, limit, exact_only, search), r),
        forall|found: Result<Vec<NavTarget>, String>| #[trigger]
            call_ensures(search, (name, limit), found) ==> found == Ok::<Vec<NavTarget>, String>(
                targets,
            ),
        forall|j: int|
            0 <= j < targets@.len() ==> (#[trigger] targets@[j]).file_path is Some && has_room(
                targets@[j],
            ),
        0 <= i < targets@.len(),
        targets@[i].name@ == name@ || !exact_only,
    ensures
        r is Ok,
        0 <= k < r->Ok_0@.len(),
        is_at(places(r->Ok_0@)[k], targets@[i]),
        places(r->Ok_0@)[k].exact <==> targets@[i].name@ == name@,
{
    a_found_symbol_is_listed(name, limit, exact_only, search, targets, r, i)
}

/// What is listed was found: nothing else is, nothing that has another name where only
/// exact ones are wanted, and the exact ones come before all others.
pub proof fn only_found_symbols_are_listed<S: Fn(&str, usize) -> Result<Vec<NavTarget>, String>>(
    name: &str,
    limit: usize,
    exact_only: bool,
    search: S,
    targets: Vec<NavTarget>,
    r: Result<Vec<Location>, String>,
    k: int,
) -> (i: int)
    requires
        call_ensures(symbol_search_with_exact::<S>, (name, limit, exact_only, search), r),
        forall|found: Result<Vec<NavTarget>, String>| #[trigger]
            call_ensures(search, (name, limit), found) ==> found == Ok::<Vec<NavTarget>, String>(
                targets,
            ),
        forall|j: int|
            0 <= j < targets@.len() ==> (#[trigger] targets@[j]).file_path is Some && has_room(
                targets@[j],
            ),
        r is Ok,
        0 <= k < r->Ok_0@.len(),
    ensures
        0 <= i < targets@.len(),
        is_at(places(r->Ok_0@)[k], targets@[i]),
        exact_only ==> targets@[i].name@ == name@,
        forall|j: int|
            0 <= j < k && targets@[i].name@ == name@ ==> (#[trigger] places(r->Ok_0@)[j]).name
                == name@,
{
    let all = choose|all: Result<Seq<Place>, Seq<char>>|
        {
            &&& #[trigger] are_locations(targets@, all)
            &&& places_or_error(r) == (match all {
                Ok(all) => Ok(ranked(marked(all, name@), exact_only)),
                Err(e) => Err(e),
            })
        };
    let shown = marked(all->Ok_0, name@);
    let first = with_exactness(shown, true);
    assert(places(r->Ok_0@) == ranked(shown, exact_only));
    assert(places(r->Ok_0@).len() == r->Ok_0@.len());
    assert forall|j: int| 0 <= j < k && k < first.len() implies (#[trigger] places(
        r->Ok_0@,
    )[j]).name == name@ by {
        let h = with_exactness_is_of_all(shown, true, j);
    }
    let i = if k < first.len() {
        with_exactness_is_of_all(shown, true, k)
    } else {
        with_exactness_is_of_all(shown, false, k - first.len())
    };
    assert(all->Ok_0[i] == place_of_target(targets@[i]));
    i
}

/// A search in which nothing is said of exact names lists all that was found.
pub proof fn a_plain_search_lists_all<S: Fn(&str, usize) -> Result<Vec<NavTarget>, String>>(
    name: &str,
    limit: usize,
    search: S,
    targets: Vec<NavTarget>,
    r: Result<Vec<Location>, String>,
    i: int,
) -> (k: int)
    requires
        call_ensures(symbol_search::<S>, (name, limit, search), r),
        forall|found: Result<Vec<NavTarget>, String>| #[trigger]
            call_ensures(search, (name, limit), found) ==> found == Ok::<Vec<NavTarget>, String>(
                targets,
            ),
        forall|j: int|
            0 <= j < targets@.len() ==> (#[trigger] targets@[j]).file_path is Some && has_room(
                targets@[j],
            ),
        0 <= i < targets@.len(),
    ensures
        r is Ok,
        0 <= k < r->Ok_0@.len(),
        is_at(places(r->Ok_0@)[k], targets@[i]),
        places(r->Ok_0@)[k].exact <==> targets@[i].name@ == name@,
{
    a_found_symbol_is_listed(name, limit, false, search, targets, r, i)
}

/// A search that fails is answered with its error.
pub proof fn a_failed_search_is_told<S: Fn(&str, usize) -> Result<Vec<NavTarget>, String>>(
    name: &str,
    limit: usize,
    exact_only: bool,
    search: S,
    e: String,
    r: Result<Vec<Location>, String>,
)
    requires
        call_ensures(symbol_search_with_exact::<S>, (name, limit, exact_only, search), r),
        forall|found: Result<Vec<NavTarget>, String>| #[trigger]
            call_ensures(search, (name, limit), found) ==> found == Err::<Vec<NavTarget>, String>(
                e,
            ),
    ensures
        r == Err::<Vec<Location>, String>(e),
{
}

/// A position is looked up one line and one column lower than it is counted: the analysis
/// counts from zero.
pub proof fn a_position_is_counted_from_one<
    F: Fn(&str) -> Result<Option<u32>, String>,
    O: Fn(u32, u32, u32) -> Result<Option<u32>, String>,
>(
    file_path: &str,
    line: u32,
    column: u32,
    file_of: F,
    offset_of: O,
    id: u32,
    at: u32,
    r: Result<(u32, u32), String>,
)
    requires
        line < u32::MAX,
        column < u32::MAX,
        call_ensures(
            file_position::<F, O>,
            (file_path, (line + 1) as u32, (column + 1) as u32, file_of, offset_of),
            r,
        ),
        forall|file: Result<Option<u32>, String>| #[trigger]
            call_ensures(file_of, (file_path,), file) ==> file == Ok::<Option<u32>, String>(
                Some(id),
            ),
        forall|offset: Result<Option<u32>, String>| #[trigger]
            call_ensures(offset_of, (id, line, column), offset) ==> offset == Ok::<
                Option<u32>,
                String,
            >(Some(at)),
    ensures
        r == Ok::<(u32, u32), String>((id, at)),
{
}

/// A file that the analysis does not know, and a line or a column that the file does not
/// have, are errors.
pub proof fn an_unknown_position_is_an_error<
    F: Fn(&str) -> Result<Option<u32>, String>,
    O: Fn(u32, u32, u32) -> Result<Option<u32>, String>,
>(
    file_path: &str,
    line: u32,
    column: u32,
    file_of: F,
    offset_of: O,
    r: Result<(u32, u32), String>,
)
    requires
        call_ensures(file_position::<F, O>, (file_path, line, column, file_of, offset_of), r),
        (forall|file: Result<Option<u32>, String>| #[trigger]
            call_ensures(file_of, (file_path,), file) ==> !(file is Ok && file->Ok_0 is Some)) || (
        forall|id: u32, l: u32, c: u32, offset: Result<Option<u32>, String>| #[trigger]
            call_ensures(offset_of, (id, l, c), offset) ==> !(offset is Ok && offset->Ok_0
                is Some)),
    ensures
        r is Err,
{
}

/// The definitions of what is at a position are those that the analysis finds at its byte:
/// all of them and in their order, and nothing where it finds nothing.
pub proof fn every_definition_is_listed<
    F: Fn(&str) -> Result<Option<u32>, String>,
    O: Fn(u32, u32, u32) -> Result<Option<u32>, String>,
    D: Fn(u32, u32) -> Result<Option<Vec<NavTarget>>, String>,
>(
    file_path: &str,
    line: u32,
    column: u32,
    file_of: F,
    offset_of: O,
    define: D,
    id: u32,
    at: u32,
    targets: Option<Vec<NavTarget>>,
    r: Result<Vec<Location>, String>,
)
    requires
        call_ensures(
            goto_definition::<F, O, D>,
            (file_path, (line + 1) as u32, (column + 1) as u32, file_of, offset_of, define),
            r,
        ),
        line < u32::MAX,
        column < u32::MAX,
        forall|file: Result<Option<u32>, String>| #[trigger]
            call_ensures(file_of, (file_path,), file) ==> file == Ok::<Option<u32>, String>(
                Some(id),
            ),
        forall|offset: Result<Option<u32>, String>| #[trigger]
            call_ensures(offset_of, (id, line, column), offset) ==> offset == Ok::<
                Option<u32>,
                String,
            >(Some(at)),
        forall|found: Result<Option<Vec<NavTarget>>, String>| #[trigger]
            call_ensures(define, (id, at), found) ==> found == Ok::<
                Option<Vec<NavTarget>>,
                String,
            >(targets),
        targets is Some ==> forall|j: int|
            0 <= j < targets->Some_0@.len() ==> (#[trigger] targets->Some_0@[j]).file_path is Some
                && has_room(targets->Some_0@[j]),
    ensures
        r is Ok,
        targets is None ==> r->Ok_0@.len() == 0,
        targets is Some ==> {
            &&& r->Ok_0@.len() == targets->Some_0@.len()
            &&& forall|j: int|
                0 <= j < targets->Some_0@.len() ==> is_at(
                    places(r->Ok_0@)[j],
                    #[trigger] targets->Some_0@[j],
                )
        },
{
    if targets is Some {
        assert(places(r->Ok_0@).len() == r->Ok_0@.len());
    }
}

proof fn of_all_holds(found: Seq<FoundDefinition>, exact: bool, i: int, k: int) -> (n: int)
    requires
        0 <= i < found.len(),
        0 <= k < places_of_one(found[i], exact).len(),
    ensures
        0 <= n < places_of_all(found, exact).len(),
        places_of_all(found, exact)[n] == places_of_one(found[i], exact)[k],
        n == places_of_all(found.take(i), exact).len() + k,
    decreases found.len(),
{
    let init = places_of_all(found.drop_last(), exact);
    if i == found.len() - 1 {
        assert(found.take(i) =~= found.drop_last());
        init.len() + k
    } else {
        assert(found.drop_last()[i] == found[i]);
        assert(found.drop_last().take(i) =~= found.take(i));
        of_all_holds(found.drop_last(), exact, i, k)
    }
}

proof fn a_declaration_is_found(found: Seq<FoundDefinition>, from: int, i: int)
    requires
        0 <= from <= i < found.len(),
        found[i].declaration is Some,
    ensures
        first_declaration(found, from) is Some,
    decreases i - from,
{
    if from < i && found[from].declaration is None {
        a_declaration_is_found(found, from + 1, i);
    }
}

proof fn no_declaration_is_found(found: Seq<FoundDefinition>, from: int)
    requires
        0 <= from,
        forall|i: int| 0 <= i < found.len() ==> (#[trigger] found[i]).declaration is None,
    ensures
        first_declaration(found, from) is None,
    decreases found.len() - from,
{
    if from < found.len() {
        no_declaration_is_found(found, from + 1);
    }
}

/// All places that refer to what is at a position are listed, counted from one, and before
/// them the definition itself.
pub proof fn every_reference_is_listed<
    F: Fn(&str) -> Result<Option<u32>, String>,
    O: Fn(u32, u32, u32) -> Result<Option<u32>, String>,
    A: Fn(u32, u32) -> Result<Vec<FoundDefinition>, String>,
>(
    file_path: &str,
    line: u32,
    column: u32,
    file_of: F,
    offset_of: O,
    ask: A,
    id: u32,
    at: u32,
    found: Vec<FoundDefinition>,
    r: Result<Vec<Location>, String>,
    i: int,
    k: int,
) -> (listed: (int, int))
    requires
        call_ensures(
            find_references::<F, O, A>,
            (file_path, (line + 1) as u32, (column + 1) as u32, file_of, offset_of, ask),
            r,
        ),
        line < u32::MAX,
        column < u32::MAX,
        forall|file: Result<Option<u32>, String>| #[trigger]
            call_ensures(file_of, (file_path,), file) ==> file == Ok::<Option<u32>, String>(
                Some(id),
            ),
        forall|offset: Result<Option<u32>, String>| #[trigger]
            call_ensures(offset_of, (id, line, column), offset) ==> offset == Ok::<
                Option<u32>,
                String,
            >(Some(at)),
        forall|answer: Result<Vec<FoundDefinition>, String>| #[trigger]
            call_ensures(ask, (id, at), answer) ==> answer == Ok::<Vec<FoundDefinition>, String>(
                found,
            ),
        0 <= i < found@.len(),
        found@[i].declaration is Some,
        found@[i].declaration->Some_0.1.line < u32::MAX,
        found@[i].declaration->Some_0.1.column < u32::MAX,
        0 <= k < found@[i].references@.len(),
        found@[i].references@[k].line < u32::MAX,
        found@[i].references@[k].column < u32::MAX,
    ensures
        r is Ok,
        0 <= listed.0 < listed.1 < r->Ok_0@.len(),
        ({
            let p = places(r->Ok_0@)[listed.0];
            let spot = found@[i].declaration->Some_0.1;
            &&& p.file_path == spot.file_path@
            &&& p.line == spot.line + 1
            &&& p.column == spot.column + 1
            &&& p.name == found@[i].declaration->Some_0.0.name@
        }),
        ({
            let p = places(r->Ok_0@)[listed.1];
            let spot = found@[i].references@[k];
            &&& p.file_path == spot.file_path@
            &&& p.line == spot.line + 1
            &&& p.column == spot.column + 1
            &&& p.name == "reference"@
        }),
{
    a_declaration_is_found(found@, 0, i);
    let one = places_of_one(found@[i], false);
    let refs = reference_places(found@[i].references@, false);
    assert(refs.len() == found@[i].references@.len());
    assert(one.len() == 1 + refs.len());
    assert(one[0] == place_of(
        found@[i].declaration->Some_0.1,
        found@[i].declaration->Some_0.0.name@,
        false,
    ));
    assert(one[1 + k] == refs[k]);
    let a = of_all_holds(found@, false, i, 0);
    let b = of_all_holds(found@, false, i, 1 + k);
    assert(places(r->Ok_0@) == places_of_all(found@, false));
    assert(places(r->Ok_0@).len() == r->Ok_0@.len());
    (a, b)
}

/// A position where the analysis knows no name is an error, not an empty answer.
pub proof fn no_name_is_an_error<
    F: Fn(&str) -> Result<Option<u32>, String>,
    O: Fn(u32, u32, u32) -> Result<Option<u32>, String>,
    A: Fn(u32, u32) -> Result<Vec<FoundDefinition>, String>,
>(
    file_path: &str,
    line: u32,
    column: u32,
    file_of: F,
    offset_of: O,
    ask: A,
    id: u32,
    at: u32,
    found: Vec<FoundDefinition>,
    r: Result<Vec<Location>, String>,
)
    requires
        call_ensures(
            find_references::<F, O, A>,
            (file_path, (line + 1) as u32, (column + 1) as u32, file_of, offset_of, ask),
            r,
        ),
        line < u32::MAX,
        column < u32::MAX,
        forall|file: Result<Option<u32>, String>| #[trigger]
            call_ensures(file_of, (file_path,), file) ==> file == Ok::<Option<u32>, String>(
                Some(id),
            ),
        forall|offset: Result<Option<u32>, String>| #[trigger]
            call_ensures(offset_of, (id, line, column), offset) ==> offset == Ok::<
                Option<u32>,
                String,
            >(Some(at)),
        forall|answer: Result<Vec<FoundDefinition>, String>| #[trigger]
            call_ensures(ask, (id, at), answer) ==> answer == Ok::<Vec<FoundDefinition>, String>(
                found,
            ),
        forall|i: int| 0 <= i < found@.len() ==> (#[trigger] found@[i]).declaration is None,
    ensures
        r is Err,
{
    no_declaration_is_found(found@, 0);
}

} // verus!

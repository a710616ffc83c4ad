//! What holds of every question that is put to the service, whatever is loaded, and
//! whatever the working tree and the analysis answer.

use vstd::prelude::*;

use crate::semantic::service::{
    a_query_drops_only_the_least_recently_used, a_ready_project_is_current,
    a_ready_project_is_loaded, apply_edits, classify_staleness, collect_stamps, edited_files,
    is_refresh_for, is_staleness, stamps_of_first, EditedFile, FileLookup, FileStamp, FileUpdate,
    LoadKind, QueryStep, RefreshStep, SemanticService, SemanticServiceStatus, Staleness,
    StampedFile,
};
use crate::table::Table;
use crate::text::texts;

verus! {

/// A project that was asked for stands for the working tree as it is now: what is kept of
/// the tree are its present stamps. Where files came or went since, or more is asked for
/// than was loaded, the analysis was loaded from that tree. Where nothing changed, it is
/// the one that was there. Otherwise it was either loaded or told of exactly the files
/// that changed.
pub proof fn a_question_is_put_to_the_present_tree<
    C,
    S: Fn() -> Table<FileStamp> + Copy,
    L: Fn(LoadKind, &Table<FileStamp>) -> Result<C, String> + Copy,
    P: Fn(&C, &Vec<String>) -> Result<(), String>,
>(
    service: &mut SemanticService<C>,
    path: &str,
    kind: LoadKind,
    stamp: S,
    load: L,
    patch: P,
    now: Table<FileStamp>,
    r: Result<usize, String>,
)
    requires
        old(service).wf(),
        old(service)@.clock < u64::MAX - 1,
        call_ensures(
            SemanticService::<C>::get_or_load_kind::<S, L, P>,
            (service, path, kind, stamp, load, patch),
            r,
        ),
        forall|stamps: Table<FileStamp>| #[trigger]
            call_ensures(stamp, (), stamps) ==> stamps == now,
        r is Ok,
    ensures
        final(service)@.projects.dom().contains(path@),
        final(service)@.projects[path@].stamps@ == now@,
        ({
            let was = old(service)@.projects[path@];
            let is = final(service)@.projects[path@];
            let held = old(service)@.projects.dom().contains(path@);
            let was_loaded = exists|loaded: Result<C, String>| #[trigger]
                call_ensures(load, (kind, &now), loaded) && loaded == Ok::<C, String>(is.context);
            let was_told = exists|files: Vec<String>, told: Result<(), String>| #[trigger]
                call_ensures(patch, (&was.context, &files), told) && told is Ok && forall|
                    f: Seq<char>,
                | #[trigger]
                    texts(files@).contains(f) <==> now@.dom().contains(f) && was.stamps@[f]
                        != now@[f];
            &&& !held || was.stamps@.dom() != now@.dom() || (kind is Full && was.load_kind is Fast)
                ==> was_loaded && is.load_kind == kind
            &&& was_loaded || (is.context == was.context && (was.stamps@ == now@ || was_told))
            &&& kind is Full ==> is.load_kind is Full
        }),
{
    a_ready_project_is_current(
        old(service)@,
        path@,
        kind,
        stamp,
        load,
        patch,
        r,
        final(service)@,
    );
    a_ready_project_is_loaded(
        old(service)@,
        path@,
        kind,
        stamp,
        load,
        patch,
        r,
        final(service)@,
    );
}

/// A question about a project alone loads the fast kind where nothing is loaded, and one
/// that its dependents are part of never goes to less than the full kind.
pub proof fn a_question_is_put_to_what_it_needs<
    C,
    S: Fn() -> Table<FileStamp> + Copy,
    L: Fn(LoadKind, &Table<FileStamp>) -> Result<C, String> + Copy,
    P: Fn(&C, &Vec<String>) -> Result<(), String>,
>(
    service: &mut SemanticService<C>,
    path: &str,
    stamp: S,
    load: L,
    patch: P,
    r: Result<usize, String>,
)
    requires
        old(service).wf(),
        old(service)@.clock < u64::MAX - 1,
        r is Ok,
    ensures
        call_ensures(
            SemanticService::<C>::get_or_load::<S, L, P>,
            (service, path, stamp, load, patch),
            r,
        ) ==> {
            &&& final(service)@.projects.dom().contains(path@)
            &&& !old(service)@.projects.dom().contains(path@)
                ==> final(service)@.projects[path@].load_kind is Fast
            &&& final(service)@.projects[path@].last_used == final(service)@.clock
        },
        call_ensures(
            SemanticService::<C>::get_or_load_full::<S, L, P>,
            (service, path, stamp, load, patch),
            r,
        ) ==> {
            &&& final(service)@.projects.dom().contains(path@)
            &&& final(service)@.projects[path@].load_kind is Full
            &&& final(service)@.projects[path@].last_used == final(service)@.clock
        },
{
    if call_ensures(
        SemanticService::<C>::get_or_load::<S, L, P>,
        (service, path, stamp, load, patch),
        r,
    ) {
        let (was, is) = (old(service)@, final(service)@);
        a_ready_project_is_loaded(was, path@, LoadKind::Fast, stamp, load, patch, r, is);
        a_ready_project_is_current(was, path@, LoadKind::Fast, stamp, load, patch, r, is);
    }
    if call_ensures(
        SemanticService::<C>::get_or_load_full::<S, L, P>,
        (service, path, stamp, load, patch),
        r,
    ) {
        let (was, is) = (old(service)@, final(service)@);
        a_ready_project_is_loaded(was, path@, LoadKind::Full, stamp, load, patch, r, is);
    }
}

/// A question that fails leaves everything as it was, and one whose loads do not fail does
/// not fail.
pub proof fn a_question_fails_only_with_a_load<
    C,
    S: Fn() -> Table<FileStamp> + Copy,
    L: Fn(LoadKind, &Table<FileStamp>) -> Result<C, String> + Copy,
    P: Fn(&C, &Vec<String>) -> Result<(), String>,
>(
    service: &mut SemanticService<C>,
    path: &str,
    kind: LoadKind,
    stamp: S,
    load: L,
    patch: P,
    r: Result<usize, String>,
)
    requires
        old(service).wf(),
        call_ensures(
            SemanticService::<C>::get_or_load_kind::<S, L, P>,
            (service, path, kind, stamp, load, patch),
            r,
        ),
    ensures
        r is Err ==> final(service)@ == old(service)@,
        (forall|stamps: &Table<FileStamp>, loaded: Result<C, String>| #[trigger]
            call_ensures(load, (kind, stamps), loaded) ==> loaded is Ok) ==> r is Ok,
{
}

/// No more projects stay than are kept, the one that was asked for stays, and those that
/// go were asked for before those that stay. As many as went are counted.
pub proof fn a_question_drops_the_longest_unasked<
    C,
    S: Fn() -> Table<FileStamp> + Copy,
    L: Fn(LoadKind, &Table<FileStamp>) -> Result<C, String> + Copy,
    P: Fn(&C, &Vec<String>) -> Result<(), String>,
>(
    service: &mut SemanticService<C>,
    path: &str,
    kind: LoadKind,
    stamp: S,
    load: L,
    patch: P,
    r: Result<usize, String>,
)
    requires
        old(service).wf(),
        old(service)@.clock < u64::MAX - 1,
        old(service)@.projects.dom().finite(),
        call_ensures(
            SemanticService::<C>::get_or_load_kind::<S, L, P>,
            (service, path, kind, stamp, load, patch),
            r,
        ),
        r is Ok,
    ensures
        final(service)@.max_projects == old(service)@.max_projects,
        r == Ok::<usize, String>(
            (old(service)@.projects.dom().insert(path@).len()
                - final(service)@.projects.dom().len()) as usize,
        ),
        old(service)@.max_projects > 0 && old(service)@.projects.dom().insert(path@).len()
            > old(service)@.max_projects ==> final(service)@.projects.dom().len()
            == old(service)@.max_projects,
        old(service)@.max_projects == 0 || old(service)@.projects.dom().insert(path@).len()
            <= old(service)@.max_projects ==> final(service)@.projects.dom()
            == old(service)@.projects.dom().insert(path@),
        forall|gone: Seq<char>, kept: Seq<char>|
            #![trigger old(service)@.projects.dom().contains(gone), final(service)@.projects.dom().contains(kept)]
            old(service)@.projects.dom().contains(gone) && gone != path@
                && !final(service)@.projects.dom().contains(gone)
                && final(service)@.projects.dom().contains(kept) && kept != path@
                ==> old(service)@.projects[gone].last_used < old(service)@.projects[kept].last_used,
{
    a_query_drops_only_the_least_recently_used(
        old(service)@,
        path@,
        kind,
        stamp,
        load,
        patch,
        r,
        final(service)@,
    );
}

/// A rename is asked of the whole: of the project with all that depends on it, and with
/// the names as they were given.
pub proof fn a_rename_is_asked_of_the_whole<
    C,
    S: Fn() -> Table<FileStamp> + Copy,
    L: Fn(LoadKind, &Table<FileStamp>) -> Result<C, String> + Copy,
    P: Fn(&C, &Vec<String>) -> Result<(), String>,
    R,
    Q: Fn(&C, &str, &str) -> Result<R, String>,
>(
    service: &mut SemanticService<C>,
    path: &str,
    name: &str,
    new_name: &str,
    stamp: S,
    load: L,
    patch: P,
    rename: Q,
    r: Result<R, String>,
)
    requires
        old(service).wf(),
        old(service)@.clock < u64::MAX - 1,
        call_ensures(
            SemanticService::<C>::rename_by_name::<S, L, P, R, Q>,
            (service, path, name, new_name, stamp, load, patch, rename),
            r,
        ),
        r is Ok,
    ensures
        final(service)@.projects.dom().contains(path@),
        final(service)@.projects[path@].load_kind is Full,
        call_ensures(rename, (&final(service)@.projects[path@].context, name, new_name), r),
{
}

/// All projects go, or the one that is named and no other; as many as went are counted.
pub proof fn what_is_cleared_is_gone<C>(
    service: &mut SemanticService<C>,
    path: &str,
    other: Seq<char>,
    n: usize,
)
    requires
        old(service).wf(),
    ensures
        call_ensures(SemanticService::<C>::clear_all, (service,), n) ==> {
            &&& !final(service)@.projects.dom().contains(other)
            &&& n == old(service)@.projects.dom().len()
            &&& final(service)@.max_projects == old(service)@.max_projects
        },
        call_ensures(SemanticService::<C>::clear_project, (service, path), n) ==> {
            &&& !final(service)@.projects.dom().contains(path@)
            &&& other != path@ ==> (final(service)@.projects.dom().contains(other)
                <==> old(service)@.projects.dom().contains(other))
            &&& other != path@ && final(service)@.projects.dom().contains(other)
                ==> final(service)@.projects[other] == old(service)@.projects[other]
            &&& n == 1 <==> old(service)@.projects.dom().contains(path@)
            &&& n == 0 <==> !old(service)@.projects.dom().contains(path@)
        },
{
}

/// Edits are applied all or not at all: where each file is known to the analysis and its
/// text is there, each update has the number of its file and its new text; where one is
/// not, there are none.
pub proof fn edits_are_applied_whole(files: Vec<EditedFile>, r: Result<Vec<FileUpdate>, String>)
    requires
        call_ensures(apply_edits, (files,), r),
    ensures
        r is Err <==> exists|i: int|
            0 <= i < files@.len() && (!((#[trigger] files@[i]).lookup is Known)
                || files@[i].text is None),
        r is Ok ==> r->Ok_0@.len() == files@.len() && forall|i: int|
            0 <= i < files@.len() ==> (#[trigger] files@[i]).lookup == FileLookup::Known(
                r->Ok_0@[i].file,
            ) && files@[i].text is Some && files@[i].text->Some_0@ == r->Ok_0@[i].text@,
{
    if r is Ok {
        assert forall|i: int| 0 <= i < files@.len() implies (#[trigger] files@[i]).lookup
            == FileLookup::Known(r->Ok_0@[i].file) && files@[i].text is Some
            && files@[i].text->Some_0@ == r->Ok_0@[i].text@ by {
            let update = r->Ok_0@[i];
        }
    }
}

/// The stamps of a tree are those of its files: each file that could be asked has one, and
/// where a path is listed once it is that of its file.
pub proof fn every_file_has_its_stamp(files: Vec<StampedFile>, stamps: Table<FileStamp>, i: int)
    requires
        call_ensures(collect_stamps, (&files,), stamps),
        0 <= i < files@.len(),
        forall|k: int|
            0 <= k < files@.len() && k != i ==> (#[trigger] files@[k]).path@ != files@[i].path@,
    ensures
        stamps@.dom().contains(files@[i].path@) <==> files@[i].stamp is Some,
        files@[i].stamp is Some ==> stamps@[files@[i].path@] == files@[i].stamp->Some_0,
{
    a_stamp_stays(files@, i, files@.len());
}

proof fn a_stamp_stays(files: Seq<StampedFile>, i: int, n: nat)
    requires
        0 <= i < files.len(),
        n <= files.len(),
        forall|k: int|
            0 <= k < files.len() && k != i ==> (#[trigger] files[k]).path@ != files[i].path@,
    ensures
        stamps_of_first(files, n).dom().contains(files[i].path@) <==> i < n && files[i].stamp
            is Some,
        i < n && files[i].stamp is Some ==> stamps_of_first(files, n)[files[i].path@]
            == files[i].stamp->Some_0,
    decreases n,
{
    if n > 0 {
        a_stamp_stays(files, i, (n - 1) as nat);
    }
}

/// What a tree did shows in its stamps: nothing where they are the same; its structure
/// changed where a path came or went; else the files whose stamps differ were edited.
pub proof fn a_change_shows_in_the_stamps(
    before: Table<FileStamp>,
    now: Table<FileStamp>,
    s: Staleness,
    f: Seq<char>,
)
    requires
        before.wf(),
        now.wf(),
        call_ensures(classify_staleness, (&before, &now), s),
    ensures
        s is Fresh <==> before@ == now@,
        s is StructureChanged <==> before@.dom() != now@.dom(),
        s is Edited ==> (texts(s->Edited_0@).contains(f) <==> now@.dom().contains(f) && before@[f]
            != now@[f]),
{
    if let Staleness::Edited(files) = s {
        assert(texts(files@).to_set().contains(texts(files@)[0]));
        assert(texts(files@).to_set().contains(f) <==> edited_files(before@, now@).contains(f));
    }
}

/// A refresh leaves a project that stands for the present tree. A tree whose files came or
/// went is loaded again, one in which nothing changed is served as it is and nothing else
/// happens, and where files were edited the analysis is told of exactly them, or loaded
/// again where it cannot take them.
pub proof fn a_refresh_brings_up_to_date<
    C,
    S: Fn() -> Table<FileStamp> + Copy,
    L: Fn(LoadKind, &Table<FileStamp>) -> Result<C, String> + Copy,
    P: Fn(&C, &Vec<String>) -> Result<(), String>,
>(
    service: &mut SemanticService<C>,
    path: &str,
    kind: LoadKind,
    stamp: S,
    load: L,
    patch: P,
    now: Table<FileStamp>,
    r: Result<(), String>,
)
    requires
        old(service).wf(),
        old(service)@.clock < u64::MAX,
        old(service)@.projects.dom().contains(path@),
        call_ensures(
            SemanticService::<C>::refresh_if_stale::<S, L, P>,
            (service, path, kind, stamp, load, patch),
            r,
        ),
        forall|stamps: Table<FileStamp>| #[trigger]
            call_ensures(stamp, (), stamps) ==> stamps == now,
    ensures
        ({
            let was = old(service)@.projects[path@];
            let is = final(service)@.projects[path@];
            let was_loaded = exists|loaded: Result<C, String>| #[trigger]
                call_ensures(load, (kind, &now), loaded) && loaded == Ok::<C, String>(is.context);
            &&& r is Ok ==> final(service)@.projects.dom().contains(path@) && is.stamps@ == now@
            &&& r is Ok && was.stamps@.dom() != now@.dom() ==> was_loaded && is.load_kind == kind
            &&& was.stamps@ == now@ ==> r is Ok && final(service)@ == old(service)@
            &&& r is Ok && !was_loaded ==> is.context == was.context && is.load_kind
                == was.load_kind
            &&& r is Err ==> final(service)@ == old(service)@ && exists|e: String| #[trigger]
                call_ensures(load, (kind, &now), Err(e))
        }),
{
    let before = old(service)@;
    let after = final(service)@;
    let (current, s) = choose|current: Table<FileStamp>, s: Staleness| #[trigger]
        call_ensures(stamp, (), current) && #[trigger] is_staleness(
            s,
            before.projects[path@].stamps@,
            current@,
        ) && is_refresh_for(before, path@, kind, s, current, stamp, load, patch, r, after);
    if let Staleness::Edited(files) = s {
        assert(texts(files@).to_set().contains(texts(files@)[0]));
        assert(edited_files(before.projects[path@].stamps@, now@).contains(texts(files@)[0]));
    }
}

/// A project is loaded before it is asked exactly where it is not loaded, or where the
/// full kind is asked for and only the fast one is there.
pub proof fn a_project_is_loaded_where_it_is_not<C>(
    service: SemanticService<C>,
    path: &str,
    kind: LoadKind,
    step: QueryStep,
)
    requires
        service.wf(),
        call_ensures(SemanticService::<C>::query_step, (&service, path, kind), step),
    ensures
        step is Load <==> (!service@.projects.dom().contains(path@) || (kind is Full
            && service@.projects[path@].load_kind is Fast)),
        step is Check <==> !(step is Load),
{
}

/// What is done for a loaded project by what its tree did.
pub proof fn a_refresh_goes_by_the_stamps<C>(
    service: SemanticService<C>,
    path: &str,
    now: Table<FileStamp>,
    step: RefreshStep,
)
    requires
        service.wf(),
        now.wf(),
        service@.projects.dom().contains(path@),
        call_ensures(SemanticService::<C>::refresh_step, (&service, path, &now), step),
    ensures
        step is Serve <==> service@.projects[path@].stamps@ == now@,
        step is Reload <==> service@.projects[path@].stamps@.dom() != now@.dom(),
        step is NotLoaded <==> false,
{
    if let RefreshStep::Patch(files) = step {
        assert(texts(files@).to_set().contains(texts(files@)[0]));
        assert(edited_files(service@.projects[path@].stamps@, now@).contains(texts(files@)[0]));
    }
}

/// The status lists each loaded project once, in the order of the paths, under the kind
/// that it was loaded with.
pub proof fn the_status_lists_what_is_loaded<C>(
    service: SemanticService<C>,
    s: SemanticServiceStatus,
    i: int,
)
    requires
        service.wf(),
        call_ensures(SemanticService::<C>::status, (&service,), s),
        0 <= i < s.projects@.len(),
    ensures
        s.project_count == service@.projects.dom().len(),
        s.projects@.len() == s.project_count,
        service@.projects.dom().contains(s.projects@[i].path@),
        service@.projects[s.projects@[i].path@].load_kind is Fast ==> s.projects@[i].load_kind@
            == "fast"@,
        service@.projects[s.projects@[i].path@].load_kind is Full ==> s.projects@[i].load_kind@
            == "full"@,
{
    let paths = Seq::new(s.projects@.len(), |k: int| s.projects@[k].path@);
    assert(paths[i] == s.projects@[i].path@);
    assert(paths.to_set().contains(paths[i]));
}

} // verus!

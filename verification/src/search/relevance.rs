//! Scores of search results against labelled questions.
//!
//! What is labelled is a file: a question names the files that answer it. Scores are
//! kept as fractions, so that nothing is lost until someone divides.

use vstd::prelude::*;

use crate::paths::{below, is_under, strip_base, what_is_below_goes_on};
use crate::table::{paired_len, Table, TextSet};
use crate::text::{
    chars_of, is_space, text_of, trim, trimmed, white_space_around_does_not_count,
    white_space_is_blank,
};

verus! {

/// The path of a file relative to the root of its repository, with `/` between its
/// parts.
#[derive(Debug, Clone, PartialEq, Eq, Hash, PartialOrd, Ord)]
pub struct RepoRelPath(pub String);

impl View for RepoRelPath {
    type V = Seq<char>;

    open spec fn view(&self) -> Seq<char> {
        self.0@
    }
}

/// The texts of these paths.
pub open spec fn path_texts(paths: Seq<RepoRelPath>) -> Seq<Seq<char>> {
    Seq::new(paths.len(), |i: int| paths[i]@)
}

/// The text with `/` for each `\`.
pub open spec fn with_slashes(s: Seq<char>) -> Seq<char> {
    Seq::new(
        s.len(),
        |i: int|
            if s[i] == '\\' {
                '/'
            } else {
                s[i]
            },
    )
}

fn slashes(s: &str) -> (out: String)
    ensures
        out@ == with_slashes(s@),
{
    let mut chars = chars_of(s);
    let mut i: usize = 0;
    while i < chars.len()
        invariant
            i <= chars@.len(),
            chars@.len() == s@.len(),
            forall|k: int| 0 <= k < i ==> chars@[k] == with_slashes(s@)[k],
            forall|k: int| i <= k < chars@.len() ==> chars@[k] == s@[k],
        decreases chars@.len() - i,
    {
        if chars[i] == '\\' {
            chars.set(i, '/');
        }
        i += 1;
    }
    let n: usize = chars.len();
    let out = text_of(&chars, 0, n);
    assert(out@ =~= with_slashes(s@));
    out
}

impl RepoRelPath {
    /// The path with this text.
    pub fn new(path: &str) -> (p: Self)
        ensures
            p@ == path@,
    {
        RepoRelPath(path.to_owned())
    }

    /// The path relative to the root of the repository, of one that the index holds.
    /// A path outside of the repository has none, and cannot be judged.
    pub fn from_indexed_path(indexed: &str, repo_root: &str) -> (r: Option<Self>)
        ensures
            match below(indexed@, repo_root@) {
                Some(rest) => r is Some && r->Some_0@ == with_slashes(rest),
                None => r is None,
            },
    {
        match strip_base(indexed, repo_root) {
            Some(rest) => Some(RepoRelPath(slashes(rest.as_str()))),
            None => None,
        }
    }
}

/// A labelled question.
#[derive(Debug, Clone)]
pub struct RelevanceCase {
    /// The question.
    pub query: String,
    /// The files that answer it.
    pub expected_files: Vec<RepoRelPath>,
    /// Why these.
    pub rationale: String,
}

/// What is wrong with a case, if anything.
pub open spec fn fault(case: RelevanceCase) -> Option<Seq<char>> {
    if trimmed(case.query@).len() == 0 {
        Some("relevance case has an empty query"@)
    } else if case.expected_files@.len() == 0 {
        Some(
            "relevance case `"@ + case.query@
                + "` has no expected files; an unlabelled case cannot be scored"@,
        )
    } else {
        None
    }
}

impl RelevanceCase {
    /// Refuses a case that cannot be scored: with nothing expected, neither none nor
    /// all of it is found.
    pub fn validate(&self) -> (r: Result<(), String>)
        ensures
            match r {
                Ok(_) => fault(*self) is None,
                Err(e) => fault(*self) == Some(e@),
            },
    {
        if trim(self.query.as_str()).as_str().is_empty() {
            return Err("relevance case has an empty query".to_owned());
        }
        if self.expected_files.len() == 0 {
            let mut e = "relevance case `".to_owned();
            e.append(self.query.as_str());
            e.append("` has no expected files; an unlabelled case cannot be scored");
            return Err(e);
        }
        Ok(())
    }
}

/// A fraction: so many of so many.
#[derive(Debug, Clone, Copy, PartialEq, Eq, Structural)]
pub struct Fraction {
    /// So many.
    pub part: usize,
    /// Of so many.
    pub whole: usize,
}

/// The score of one question.
#[derive(Debug, Clone, Copy, PartialEq, Eq, Structural)]
pub struct CaseScore {
    /// How many of the expected files are among the first five results.
    pub recall_at_5: Fraction,
    /// How many are among the first ten.
    pub recall_at_10: Fraction,
    /// One over the rank of the first result that was expected; zero without one.
    pub reciprocal_rank: Fraction,
    /// Whether a result was expected at all.
    pub any_hit: bool,
}

/// The first `k` members of a sequence, or all of it.
pub open spec fn top(ranked: Seq<Seq<char>>, k: int) -> Seq<Seq<char>> {
    if k < ranked.len() {
        ranked.take(k)
    } else {
        ranked
    }
}

/// The expected files among the first `k` results. Results are counted and not
/// files, so that a file with several results takes several places; but it is found
/// once.
pub open spec fn found(ranked: Seq<Seq<char>>, expected: Set<Seq<char>>, k: int) -> Set<
    Seq<char>,
> {
    top(ranked, k).to_set().intersect(expected)
}

/// `score` is the score of these results.
pub open spec fn is_score(
    ranked: Seq<Seq<char>>,
    expected: Set<Seq<char>>,
    score: CaseScore,
) -> bool {
    &&& score.recall_at_5.part == found(ranked, expected, 5).len()
    &&& score.recall_at_5.whole == expected.len()
    &&& score.recall_at_10.part == found(ranked, expected, 10).len()
    &&& score.recall_at_10.whole == expected.len()
    &&& score.any_hit <==> exists|i: int| 0 <= i < ranked.len() && expected.contains(
        #[trigger] ranked[i],
    )
    &&& if score.any_hit {
        &&& score.reciprocal_rank.part == 1
        &&& 1 <= score.reciprocal_rank.whole <= ranked.len()
        &&& expected.contains(ranked[score.reciprocal_rank.whole - 1])
        &&& forall|i: int|
            0 <= i < score.reciprocal_rank.whole - 1 ==> !expected.contains(#[trigger] ranked[i])
    } else {
        score.reciprocal_rank == (Fraction { part: 0, whole: 1 })
    }
}

/// The texts of a list of paths as a set.
fn path_set(paths: &Vec<RepoRelPath>) -> (set: TextSet)
    ensures
        set.wf(),
        set@.dom() == path_texts(paths@).to_set(),
        set.keys().len() == path_texts(paths@).to_set().len(),
{
    let mut set: TextSet = Table::new();
    let mut i: usize = 0;
    let ghost all = path_texts(paths@);
    assert(set@.dom() =~= all.take(0).to_set());
    while i < paths.len()
        invariant
            i <= paths@.len(),
            all == path_texts(paths@),
            set.wf(),
            set@.dom() == all.take(i as int).to_set(),
        decreases paths@.len() - i,
    {
        let ghost held = set@.dom();
        set.insert(paths[i].0.clone(), ());
        proof {
            assert(all.take(i + 1) =~= all.take(i as int).push(all[i as int]));
            all.take(i as int).lemma_push_to_set_commute(all[i as int]);
            assert(set@.dom() =~= held.insert(all[i as int]));
        }
        i += 1;
    }
    proof {
        assert(all.take(i as int) =~= all);
        paired_len(set.keys(), set.values());
    }
    set
}

fn count_found(ranked: &Vec<RepoRelPath>, expected: &TextSet, k: usize) -> (n: usize)
    requires
        expected.wf(),
    ensures
        n == found(path_texts(ranked@), expected@.dom(), k as int).len(),
{
    let ghost all = path_texts(ranked@);
    let ghost want = expected@.dom();
    let mut seen: TextSet = Table::new();
    let mut i: usize = 0;
    assert(seen@.dom() =~= all.take(0).to_set().intersect(want));
    while i < ranked.len() && i < k
        invariant
            i <= ranked@.len(),
            i <= k,
            all == path_texts(ranked@),
            want == expected@.dom(),
            expected.wf(),
            seen.wf(),
            seen@.dom() == all.take(i as int).to_set().intersect(want),
        decreases ranked@.len() - i,
    {
        let ghost held = seen@.dom();
        let ghost x = all[i as int];
        proof {
            assert(all.take(i + 1) =~= all.take(i as int).push(x));
            all.take(i as int).lemma_push_to_set_commute(x);
        }
        if expected.contains(ranked[i].0.as_str()) {
            seen.insert(ranked[i].0.clone(), ());
            assert(seen@.dom() =~= held.insert(x));
            assert(seen@.dom() =~= all.take(i + 1).to_set().intersect(want));
        } else {
            assert(held =~= all.take(i + 1).to_set().intersect(want));
        }
        i += 1;
    }
    proof {
        assert(all.take(i as int) =~= top(all, k as int));
        paired_len(seen.keys(), seen.values());
    }
    seen.len()
}

/// Scores the results for a question. They are given by their files, in their order,
/// and a file may stand there more than once.
pub fn score_case(case: &RelevanceCase, ranked: &Vec<RepoRelPath>) -> (r: Result<CaseScore, String>)
    ensures
        match r {
            Ok(score) => fault(*case) is None && is_score(
                path_texts(ranked@),
                path_texts(case.expected_files@).to_set(),
                score,
            ),
            Err(e) => fault(*case) == Some(e@),
        },
{
    match case.validate() {
        Err(e) => {
            return Err(e);
        },
        Ok(_) => {},
    }
    let expected = path_set(&case.expected_files);
    let ghost all = path_texts(ranked@);
    let ghost want = path_texts(case.expected_files@).to_set();
    let whole: usize = expected.len();
    let recall_at_5 = Fraction { part: count_found(ranked, &expected, 5), whole };
    let recall_at_10 = Fraction { part: count_found(ranked, &expected, 10), whole };
    let mut i: usize = 0;
    while i < ranked.len()
        invariant
            i <= ranked@.len(),
            all == path_texts(ranked@),
            want == expected@.dom(),
            expected.wf(),
            forall|k: int| 0 <= k < i ==> !want.contains(#[trigger] all[k]),
            want == path_texts(case.expected_files@).to_set(),
            fault(*case) is None,
            recall_at_5.part == found(all, want, 5).len(),
            recall_at_10.part == found(all, want, 10).len(),
            recall_at_5.whole == want.len(),
            recall_at_10.whole == want.len(),
        decreases ranked@.len() - i,
    {
        if expected.contains(ranked[i].0.as_str()) {
            assert(want.contains(all[i as int]));
            return Ok(
                CaseScore {
                    recall_at_5,
                    recall_at_10,
                    reciprocal_rank: Fraction { part: 1, whole: i + 1 },
                    any_hit: true,
                },
            );
        }
        i += 1;
    }
    Ok(
        CaseScore {
            recall_at_5,
            recall_at_10,
            reciprocal_rank: Fraction { part: 0, whole: 1 },
            any_hit: false,
        },
    )
}

/// There is one score.
pub proof fn score_is_determined(
    ranked: Seq<Seq<char>>,
    expected: Set<Seq<char>>,
    a: CaseScore,
    b: CaseScore,
)
    requires
        is_score(ranked, expected, a),
        is_score(ranked, expected, b),
    ensures
        a == b,
{
    if a.any_hit {
        let i = a.reciprocal_rank.whole - 1;
        let j = b.reciprocal_rank.whole - 1;
        if i < j {
            assert(!expected.contains(ranked[i]));
        }
        if j < i {
            assert(!expected.contains(ranked[j]));
        }
    }
}

/// A recall is a share of something: no more is found than is expected, however
/// often a file stands among the results; and looking at more results finds no less.
pub proof fn recall_is_a_share(
    ranked: Seq<Seq<char>>,
    expected: Set<Seq<char>>,
    score: CaseScore,
)
    requires
        is_score(ranked, expected, score),
        expected.finite(),
    ensures
        score.recall_at_5.part <= score.recall_at_10.part <= score.recall_at_10.whole,
        score.recall_at_5.whole == score.recall_at_10.whole,
{
    vstd::set_lib::lemma_len_subset(found(ranked, expected, 10), expected);
    assert(found(ranked, expected, 5).subset_of(found(ranked, expected, 10))) by {
        assert forall|x: Seq<char>| found(ranked, expected, 5).contains(x) implies found(
            ranked,
            expected,
            10,
        ).contains(x) by {
            let i = top(ranked, 5).index_of(x);
            assert(top(ranked, 10)[i] == x);
        }
    }
    assert(found(ranked, expected, 10).subset_of(expected));
    vstd::set_lib::lemma_len_subset(
        found(ranked, expected, 5),
        found(ranked, expected, 10),
    );
}

/// A mean: the sum of the terms over their number. Where there are none it is zero.
#[derive(Debug, Clone)]
pub struct Mean {
    /// The terms.
    pub terms: Vec<Fraction>,
}

/// What comes of a set of questions, with how much was looked at.
#[derive(Debug, Clone)]
pub struct RelevanceSummary {
    /// How many questions were scored.
    pub queries: usize,
    /// For how many of them nothing was found that was expected.
    pub queries_without_hit: usize,
    /// How many results could not be judged.
    pub unjudgeable_results: usize,
    /// The mean of the recalls among the first five results.
    pub mean_recall_at_5: Mean,
    /// The mean of the recalls among the first ten results.
    pub mean_recall_at_10: Mean,
    /// The mean of the reciprocal ranks.
    pub mrr: Mean,
}

/// How many of the first `n` questions have no hit.
pub open spec fn misses_of_first(scores: Seq<CaseScore>, n: nat) -> nat
    decreases n,
{
    if n == 0 || n > scores.len() {
        0
    } else {
        misses_of_first(scores, (n - 1) as nat) + (if scores[n - 1].any_hit {
            0nat
        } else {
            1nat
        })
    }
}

impl RelevanceSummary {
    /// The summary of these scores. A question without a hit counts in each mean.
    pub fn from_scores(scores: &Vec<CaseScore>, unjudgeable_results: usize) -> (s: Self)
        ensures
            s.queries == scores@.len(),
            s.queries_without_hit == misses_of_first(scores@, scores@.len()),
            s.unjudgeable_results == unjudgeable_results,
            s.mean_recall_at_5.terms@ == scores@.map_values(|c: CaseScore| c.recall_at_5),
            s.mean_recall_at_10.terms@ == scores@.map_values(|c: CaseScore| c.recall_at_10),
            s.mrr.terms@ == scores@.map_values(|c: CaseScore| c.reciprocal_rank),
    {
        let mut misses: usize = 0;
        let mut at_5: Vec<Fraction> = Vec::new();
        let mut at_10: Vec<Fraction> = Vec::new();
        let mut ranks: Vec<Fraction> = Vec::new();
        let mut i: usize = 0;
        while i < scores.len()
            invariant
                i <= scores@.len(),
                misses == misses_of_first(scores@, i as nat),
                misses <= i,
                at_5@.len() == i,
                at_10@.len() == i,
                ranks@.len() == i,
                forall|k: int| 0 <= k < i ==> at_5@[k] == (#[trigger] scores@[k]).recall_at_5,
                forall|k: int| 0 <= k < i ==> at_10@[k] == (#[trigger] scores@[k]).recall_at_10,
                forall|k: int| 0 <= k < i ==> ranks@[k] == (#[trigger] scores@[k]).reciprocal_rank,
            decreases scores@.len() - i,
        {
            let score = scores[i];
            if !score.any_hit {
                misses += 1;
            }
            at_5.push(score.recall_at_5);
            at_10.push(score.recall_at_10);
            ranks.push(score.reciprocal_rank);
            i += 1;
        }
        assert(at_5@ =~= scores@.map_values(|c: CaseScore| c.recall_at_5));
        assert(at_10@ =~= scores@.map_values(|c: CaseScore| c.recall_at_10));
        assert(ranks@ =~= scores@.map_values(|c: CaseScore| c.reciprocal_rank));
        RelevanceSummary {
            queries: scores.len(),
            queries_without_hit: misses,
            unjudgeable_results,
            mean_recall_at_5: Mean { terms: at_5 },
            mean_recall_at_10: Mean { terms: at_10 },
            mrr: Mean { terms: ranks },
        }
    }
}

/// A recall looks at the first five results, or the first ten, and at no other; a file
/// that stands among them more than once is found once.
pub proof fn a_recall_looks_at_the_first_results(
    ranked: Seq<Seq<char>>,
    expected: Set<Seq<char>>,
    score: CaseScore,
)
    requires
        is_score(ranked, expected, score),
    ensures
        ranked.len() >= 5 ==> score.recall_at_5.part == ranked.take(5).to_set().intersect(
            expected,
        ).len(),
        ranked.len() >= 10 ==> score.recall_at_10.part == ranked.take(10).to_set().intersect(
            expected,
        ).len(),
        ranked.len() <= 5 ==> score.recall_at_5.part == ranked.to_set().intersect(expected).len(),
        ranked.len() <= 10 ==> score.recall_at_10.part == ranked.to_set().intersect(
            expected,
        ).len(),
        score.recall_at_5.whole == expected.len(),
        score.recall_at_10.whole == expected.len(),
{
    if ranked.len() == 5 {
        assert(ranked.take(5) =~= ranked);
    }
    if ranked.len() == 10 {
        assert(ranked.take(10) =~= ranked);
    }
}

/// The rank is that of the first result that was expected, counted from one.
pub proof fn the_rank_is_that_of_the_first_hit(
    ranked: Seq<Seq<char>>,
    expected: Set<Seq<char>>,
    score: CaseScore,
    i: int,
)
    requires
        is_score(ranked, expected, score),
        0 <= i < ranked.len(),
        expected.contains(ranked[i]),
        forall|k: int| 0 <= k < i ==> !expected.contains(#[trigger] ranked[k]),
    ensures
        score.any_hit,
        score.reciprocal_rank.part == 1,
        score.reciprocal_rank.whole == i + 1,
{
    let j = score.reciprocal_rank.whole - 1;
    assert(j < i ==> !expected.contains(ranked[j]));
}

/// Without a result that was expected everything is zero.
pub proof fn without_a_hit_the_score_is_zero(
    ranked: Seq<Seq<char>>,
    expected: Set<Seq<char>>,
    score: CaseScore,
)
    requires
        is_score(ranked, expected, score),
        forall|k: int| 0 <= k < ranked.len() ==> !expected.contains(#[trigger] ranked[k]),
    ensures
        !score.any_hit,
        score.reciprocal_rank.part == 0,
        score.recall_at_5.part == 0,
        score.recall_at_10.part == 0,
{
    assert(found(ranked, expected, 5) =~= Set::<Seq<char>>::empty()) by {
        assert forall|x: Seq<char>| !found(ranked, expected, 5).contains(x) by {
            if found(ranked, expected, 5).contains(x) {
                let i = top(ranked, 5).index_of(x);
                assert(ranked[i] == x);
            }
        }
    }
    assert(found(ranked, expected, 10) =~= Set::<Seq<char>>::empty()) by {
        assert forall|x: Seq<char>| !found(ranked, expected, 10).contains(x) by {
            if found(ranked, expected, 10).contains(x) {
                let i = top(ranked, 10).index_of(x);
                assert(ranked[i] == x);
            }
        }
    }
}

/// A case is refused exactly where its question is blank or nothing is expected.
pub proof fn a_case_without_a_label_is_refused(case: RelevanceCase)
    ensures
        case.expected_files@.len() == 0 ==> fault(case) is Some,
        (forall|i: int| 0 <= i < case.query@.len() ==> is_space(#[trigger] case.query@[i]))
            ==> fault(case) is Some,
        case.expected_files@.len() > 0 && case.query@.len() > 0 && !is_space(case.query@[0])
            && !is_space(case.query@.last()) ==> fault(case) is None,
{
    let q = case.query@;
    let none = Seq::<char>::empty();
    if forall|i: int| 0 <= i < q.len() ==> is_space(#[trigger] q[i]) {
        white_space_is_blank(q);
    }
    if q.len() > 0 && !is_space(q[0]) && !is_space(q.last()) {
        white_space_around_does_not_count(none, q, none);
        assert(none + q + none =~= q);
    }
}

/// A path in the index is judged by its place below the repository, with `/` between its
/// parts and otherwise unchanged.
pub proof fn slashes_replace_backslashes(s: Seq<char>, i: int)
    requires
        0 <= i < s.len(),
    ensures
        with_slashes(s).len() == s.len(),
        s[i] == '\\' ==> with_slashes(s)[i] == '/',
        s[i] != '\\' ==> with_slashes(s)[i] == s[i],
{
}

/// The questions without a hit are counted one by one.
pub proof fn every_miss_is_counted(scores: Seq<CaseScore>)
    ensures
        misses_of_first(scores, scores.len()) == scores.filter(|c: CaseScore| !c.any_hit).len(),
{
    misses_are_filtered(scores, scores.len());
    assert(scores.take(scores.len() as int) =~= scores);
}

proof fn misses_are_filtered(scores: Seq<CaseScore>, n: nat)
    requires
        n <= scores.len(),
    ensures
        misses_of_first(scores, n) == scores.take(n as int).filter(
            |c: CaseScore| !c.any_hit,
        ).len(),
    decreases n,
{
    reveal(Seq::filter);
    if n > 0 {
        misses_are_filtered(scores, (n - 1) as nat);
        assert(scores.take(n as int).drop_last() =~= scores.take(n - 1));
    }
}

/// A summary counts every question, and those without a hit are counted in its means too,
/// each with its own terms.
pub proof fn every_question_counts(
    scores: Vec<CaseScore>,
    unjudgeable: usize,
    s: RelevanceSummary,
    i: int,
)
    requires
        call_ensures(RelevanceSummary::from_scores, (&scores, unjudgeable), s),
        0 <= i < scores@.len(),
    ensures
        s.queries == scores@.len(),
        s.unjudgeable_results == unjudgeable,
        s.queries_without_hit == scores@.filter(|c: CaseScore| !c.any_hit).len(),
        s.mean_recall_at_5.terms@.len() == scores@.len(),
        s.mean_recall_at_10.terms@.len() == scores@.len(),
        s.mrr.terms@.len() == scores@.len(),
        s.mean_recall_at_5.terms@[i] == scores@[i].recall_at_5,
        s.mean_recall_at_10.terms@[i] == scores@[i].recall_at_10,
        s.mrr.terms@[i] == scores@[i].reciprocal_rank,
{
    every_miss_is_counted(scores@);
}

/// A result is judged by its place below the repository, and one from elsewhere is not.
pub proof fn a_result_is_judged_below_its_repository(
    indexed: &str,
    root: &str,
    dir: Seq<char>,
    name: Seq<char>,
    r: Option<RepoRelPath>,
)
    requires
        call_ensures(RepoRelPath::from_indexed_path, (indexed, root), r),
        dir.len() > 0,
        dir.last() != '/',
        name.len() > 0,
        !name.contains('/'),
        !name.contains('\\'),
        name != seq!['.'],
    ensures
        r is Some <==> is_under(indexed@, root@),
        indexed@ == dir.push('/') + name && root@ == dir ==> r is Some && r->Some_0@ == name,
{
    what_is_below_goes_on(root@, dir, name);
    assert(with_slashes(name) =~= name) by {
        assert forall|k: int| 0 <= k < name.len() implies with_slashes(name)[k] == name[k] by {
            assert(name.contains(name[k]));
        }
    }
}

} // verus!

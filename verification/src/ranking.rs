//! Search results and the order of a launcher search: best score first,
//! equal scores in the order in which the documents were met, cut at a limit.

use vstd::prelude::*;
use crate::extensions::lowercase_chars;
use crate::scorer::launcher_score;
use crate::scorer::extension_view;
use crate::scorer::launcher_score_with;
use crate::scorer::lowered_extension_of;
use crate::scorer::score_with_classes;
use crate::text::alnum_flags_of;
use crate::text::chars_of;
use crate::text::lowercase_of;
use crate::text::part_views;

verus! {

/// How well a document matched a query.
#[derive(Debug, Clone, Copy, PartialEq, Eq, Structural)]
pub enum Score {
    /// The bits of the single-precision score that the index gave.
    Ranked(u32),
    /// A launcher score, in millionths of a point.
    Launcher(i128),
}

/// A document that a search found.
#[derive(Debug)]
pub struct SearchResult {
    pub path: String,
    pub file_name: String,
    pub score: Score,
    pub record_type: String,
}

/// A search result as mathematical values.
pub struct SearchResultView {
    pub path: Seq<char>,
    pub file_name: Seq<char>,
    pub score: Score,
    pub record_type: Seq<char>,
}

impl View for SearchResult {
    type V = SearchResultView;

    open spec fn view(&self) -> SearchResultView {
        SearchResultView {
            path: self.path@,
            file_name: self.file_name@,
            score: self.score,
            record_type: self.record_type@,
        }
    }
}

/// The views of a list of search results.
pub open spec fn result_views(results: Seq<SearchResult>) -> Seq<SearchResultView> {
    results.map_values(|r: SearchResult| r@)
}

/// What a stored document tells a search: its key, its display name and
/// its kind.
#[derive(Debug)]
pub struct Candidate {
    pub path: String,
    pub file_name: String,
    pub record_type: String,
}

/// A candidate as mathematical values.
pub struct CandidateView {
    pub path: Seq<char>,
    pub file_name: Seq<char>,
    pub record_type: Seq<char>,
}

impl View for Candidate {
    type V = CandidateView;

    open spec fn view(&self) -> CandidateView {
        CandidateView {
            path: self.path@,
            file_name: self.file_name@,
            record_type: self.record_type@,
        }
    }
}

/// The views of a list of candidates.
pub open spec fn candidate_views(candidates: Seq<Candidate>) -> Seq<CandidateView> {
    candidates.map_values(|c: Candidate| c@)
}

/// The launcher points of a result; a result that the index ranked has none.
pub open spec fn points_of(result: SearchResultView) -> int {
    match result.score {
        Score::Launcher(p) => p as int,
        Score::Ranked(_) => 0,
    }
}

/// The launcher result of a candidate: none for a candidate without a
/// name, or whose lower-case name the query does not match.
pub open spec fn launcher_result(parts: Seq<Seq<char>>, candidate: CandidateView) -> Option<
    SearchResultView,
> {
    result_for(candidate, launcher_score(parts, lowercase_of(candidate.file_name)))
}

/// The launcher result of a candidate whose lower-case name got the score
/// `score`: none for a candidate without a name, or without a score.
pub open spec fn result_for(candidate: CandidateView, score: Option<int>) -> Option<
    SearchResultView,
> {
    if candidate.file_name.len() == 0 {
        None
    } else {
        match score {
            Some(points) => Some(
                SearchResultView {
                    path: candidate.path,
                    file_name: candidate.file_name,
                    score: Score::Launcher(points as i128),
                    record_type: candidate.record_type,
                },
            ),
            None => None,
        }
    }
}

/// Where a new result goes into a ranked list: behind the last result that
/// scores at least as much.
pub open spec fn insert_position(ranked: Seq<SearchResultView>, result: SearchResultView) -> int
    decreases ranked.len(),
{
    if ranked.len() == 0 || points_of(ranked.last()) >= points_of(result) {
        ranked.len() as int
    } else {
        insert_position(ranked.drop_last(), result)
    }
}

/// The first `limit` members of `s`, or all of `s` when it has fewer.
pub open spec fn first(s: Seq<SearchResultView>, limit: int) -> Seq<SearchResultView> {
    if limit <= 0 {
        Seq::empty()
    } else if s.len() <= limit {
        s
    } else {
        s.take(limit)
    }
}

/// A ranked list after one more result, cut at `limit`.
pub open spec fn rank_in(ranked: Seq<SearchResultView>, result: SearchResultView, limit: int) -> Seq<
    SearchResultView,
> {
    first(ranked.insert(insert_position(ranked, result), result), limit)
}

/// The launcher ranking of the candidates, cut at `limit`: each candidate
/// that matches is ranked in, in the order of the candidates.
pub open spec fn launcher_ranking(
    parts: Seq<Seq<char>>,
    candidates: Seq<CandidateView>,
    limit: int,
) -> Seq<SearchResultView>
    decreases candidates.len(),
{
    if candidates.len() == 0 {
        Seq::empty()
    } else {
        let before = launcher_ranking(parts, candidates.drop_last(), limit);
        match launcher_result(parts, candidates.last()) {
            Some(result) => rank_in(before, result, limit),
            None => before,
        }
    }
}

/// Best first: no result scores less than a result behind it.
pub open spec fn is_ranked(results: Seq<SearchResultView>) -> bool {
    forall|i: int, j: int|
        0 <= i < j < results.len() ==> points_of(#[trigger] results[i]) >= points_of(
            #[trigger] results[j],
        )
}

/// The place of a new result in a list that is ranked: every result before
/// it scores at least as much, every result from it on scores less.
pub proof fn lemma_insert_position(ranked: Seq<SearchResultView>, result: SearchResultView)
    requires
        is_ranked(ranked),
    ensures
        0 <= insert_position(ranked, result) <= ranked.len(),
        forall|i: int|
            0 <= i < insert_position(ranked, result) ==> points_of(#[trigger] ranked[i])
                >= points_of(result),
        forall|i: int|
            insert_position(ranked, result) <= i < ranked.len() ==> points_of(#[trigger] ranked[i])
                < points_of(result),
    decreases ranked.len(),
{
    if ranked.len() > 0 {
        if points_of(ranked.last()) >= points_of(result) {
            assert forall|i: int| 0 <= i < ranked.len() implies points_of(#[trigger] ranked[i])
                >= points_of(result) by {
                if i < ranked.len() - 1 {
                    assert(points_of(ranked[i]) >= points_of(ranked[ranked.len() - 1]));
                }
            }
        } else {
            let rest = ranked.drop_last();
            assert forall|i: int, j: int| 0 <= i < j < rest.len() implies points_of(
                #[trigger] rest[i],
            ) >= points_of(#[trigger] rest[j]) by {
                assert(rest[i] == ranked[i] && rest[j] == ranked[j]);
            }
            lemma_insert_position(rest, result);
            let p = insert_position(rest, result);
            assert forall|i: int| 0 <= i < p implies points_of(#[trigger] ranked[i]) >= points_of(
                result,
            ) by {
                assert(ranked[i] == rest[i]);
            }
            assert forall|i: int| p <= i < ranked.len() implies points_of(#[trigger] ranked[i])
                < points_of(result) by {
                if i < rest.len() {
                    assert(ranked[i] == rest[i]);
                }
            }
        }
    }
}

/// A ranked list with one more result at its place is ranked.
pub proof fn lemma_insert_ranked(ranked: Seq<SearchResultView>, result: SearchResultView)
    requires
        is_ranked(ranked),
    ensures
        is_ranked(ranked.insert(insert_position(ranked, result), result)),
{
    lemma_insert_position(ranked, result);
    let p = insert_position(ranked, result);
    let grown = ranked.insert(p, result);
    assert forall|i: int, j: int| 0 <= i < j < grown.len() implies points_of(#[trigger] grown[i])
        >= points_of(#[trigger] grown[j]) by {
        if i < p {
            assert(grown[i] == ranked[i]);
        } else if i > p {
            assert(grown[i] == ranked[i - 1]);
        }
        if j < p {
            assert(grown[j] == ranked[j]);
        } else if j > p {
            assert(grown[j] == ranked[j - 1]);
        }
    }
}

/// The first members of a ranked list are ranked.
pub proof fn lemma_first_ranked(ranked: Seq<SearchResultView>, limit: int)
    requires
        is_ranked(ranked),
    ensures
        is_ranked(first(ranked, limit)),
        first(ranked, limit).len() <= ranked.len(),
        limit >= 0 ==> first(ranked, limit).len() <= limit,
{
    let cut = first(ranked, limit);
    assert forall|i: int, j: int| 0 <= i < j < cut.len() implies points_of(#[trigger] cut[i])
        >= points_of(#[trigger] cut[j]) by {
        assert(cut[i] == ranked[i] && cut[j] == ranked[j]);
    }
}

/// Ranking one more result into a ranked list leaves a ranked list of at
/// most `limit` results.
pub proof fn lemma_rank_in(ranked: Seq<SearchResultView>, result: SearchResultView, limit: int)
    requires
        is_ranked(ranked),
    ensures
        is_ranked(rank_in(ranked, result, limit)),
        rank_in(ranked, result, limit).len() <= limit || limit < 0,
        rank_in(ranked, result, limit).len() <= ranked.len() + 1,
{
    lemma_insert_position(ranked, result);
    lemma_insert_ranked(ranked, result);
    lemma_first_ranked(ranked.insert(insert_position(ranked, result), result), limit);
}

/// The place of a new result in a ranked list is the only place with no
/// lesser result before it and only lesser results from it on.
pub proof fn lemma_position_unique(ranked: Seq<SearchResultView>, result: SearchResultView, at: int)
    requires
        0 <= at <= ranked.len(),
        forall|i: int| 0 <= i < at ==> points_of(#[trigger] ranked[i]) >= points_of(result),
        forall|i: int| at <= i < ranked.len() ==> points_of(#[trigger] ranked[i]) < points_of(result),
    ensures
        insert_position(ranked, result) == at,
    decreases ranked.len(),
{
    if ranked.len() > 0 {
        let last = ranked.len() - 1;
        if points_of(ranked.last()) >= points_of(result) {
            if at < ranked.len() {
                assert(points_of(ranked[last]) < points_of(result));
            }
        } else {
            if at == ranked.len() {
                assert(points_of(ranked[last]) >= points_of(result));
            }
            let rest = ranked.drop_last();
            assert forall|i: int| 0 <= i < at implies points_of(#[trigger] rest[i]) >= points_of(
                result,
            ) by {
                assert(rest[i] == ranked[i]);
            }
            assert forall|i: int| at <= i < rest.len() implies points_of(#[trigger] rest[i])
                < points_of(result) by {
                assert(rest[i] == ranked[i]);
            }
            lemma_position_unique(rest, result, at);
        }
    }
}

/// Cutting a ranked list before a result is ranked in gives the same as
/// cutting it afterwards.
pub proof fn lemma_cut_then_rank(ranked: Seq<SearchResultView>, result: SearchResultView, limit: int)
    requires
        is_ranked(ranked),
        0 <= limit,
    ensures
        rank_in(first(ranked, limit), result, limit) == first(
            ranked.insert(insert_position(ranked, result), result),
            limit,
        ),
{
    lemma_insert_position(ranked, result);
    let p = insert_position(ranked, result);
    let cut = first(ranked, limit);
    if 0 < limit < ranked.len() {
        let q = if p < limit {
            p
        } else {
            limit
        };
        assert forall|i: int| 0 <= i < q implies points_of(#[trigger] cut[i]) >= points_of(
            result,
        ) by {
            assert(cut[i] == ranked[i]);
        }
        assert forall|i: int| q <= i < cut.len() implies points_of(#[trigger] cut[i]) < points_of(
            result,
        ) by {
            assert(cut[i] == ranked[i]);
        }
        lemma_position_unique(cut, result, q);
        assert(cut.insert(q, result).take(limit) =~= ranked.insert(p, result).take(limit));
    } else if limit == 0 {
        assert(cut.insert(insert_position(cut, result), result).len() > 0);
    }
}

/// The launcher ranking of the candidates without a cut: the matches,
/// best first, equal scores in the order of the candidates.
pub open spec fn full_ranking(parts: Seq<Seq<char>>, candidates: Seq<CandidateView>) -> Seq<
    SearchResultView,
>
    decreases candidates.len(),
{
    if candidates.len() == 0 {
        Seq::empty()
    } else {
        let before = full_ranking(parts, candidates.drop_last());
        match launcher_result(parts, candidates.last()) {
            Some(result) => before.insert(insert_position(before, result), result),
            None => before,
        }
    }
}

/// A launcher ranking cut at `limit` is the first `limit` results of the
/// ranking of all matches, which is ranked.
pub proof fn lemma_ranking_is_cut(parts: Seq<Seq<char>>, candidates: Seq<CandidateView>, limit: int)
    requires
        0 <= limit,
    ensures
        is_ranked(full_ranking(parts, candidates)),
        launcher_ranking(parts, candidates, limit) == first(full_ranking(parts, candidates), limit),
    decreases candidates.len(),
{
    if candidates.len() > 0 {
        let before = full_ranking(parts, candidates.drop_last());
        lemma_ranking_is_cut(parts, candidates.drop_last(), limit);
        if let Some(result) = launcher_result(parts, candidates.last()) {
            lemma_insert_ranked(before, result);
            lemma_cut_then_rank(before, result, limit);
        }
    }
}

/// The ranking of all matches holds the result of every candidate that
/// matches, and nothing else.
pub proof fn lemma_ranking_members(
    parts: Seq<Seq<char>>,
    candidates: Seq<CandidateView>,
    result: SearchResultView,
)
    ensures
        full_ranking(parts, candidates).contains(result) <==> exists|i: int|
            0 <= i < candidates.len() && launcher_result(parts, #[trigger] candidates[i]) == Some(
                result,
            ),
    decreases candidates.len(),
{
    if candidates.len() > 0 {
        let rest = candidates.drop_last();
        let before = full_ranking(parts, rest);
        let all = full_ranking(parts, candidates);
        lemma_ranking_members(parts, rest, result);
        if before.contains(result) {
            let k = choose|k: int| 0 <= k < before.len() && before[k] == result;
            if let Some(new) = launcher_result(parts, candidates.last()) {
                let p = insert_position(before, new);
                lemma_insert_position_bounds(before, new);
                if k < p {
                    assert(all[k] == result);
                } else {
                    assert(all[k + 1] == result);
                }
            }
            let i = choose|i: int|
                0 <= i < rest.len() && launcher_result(parts, #[trigger] rest[i]) == Some(result);
            assert(candidates[i] == rest[i]);
        }
        if launcher_result(parts, candidates.last()) == Some(result) {
            lemma_insert_position_bounds(before, result);
            assert(all[insert_position(before, result)] == result);
            assert(candidates[candidates.len() - 1] == candidates.last());
        }
        if all.contains(result) && !before.contains(result) {
            let k = choose|k: int| 0 <= k < all.len() && all[k] == result;
            if let Some(new) = launcher_result(parts, candidates.last()) {
                let p = insert_position(before, new);
                lemma_insert_position_bounds(before, new);
                if k < p {
                    assert(before[k] == result);
                } else if k > p {
                    assert(before[k - 1] == result);
                }
                assert(candidates[candidates.len() - 1] == candidates.last());
            }
        }
        if exists|i: int|
            0 <= i < candidates.len() && launcher_result(parts, #[trigger] candidates[i]) == Some(
                result,
            ) {
            let i = choose|i: int|
                0 <= i < candidates.len() && launcher_result(parts, #[trigger] candidates[i])
                    == Some(result);
            if i < rest.len() {
                assert(rest[i] == candidates[i]);
            }
        }
    }
}

/// The place of a new result lies within the list or at its end.
pub proof fn lemma_insert_position_bounds(ranked: Seq<SearchResultView>, result: SearchResultView)
    ensures
        0 <= insert_position(ranked, result) <= ranked.len(),
    decreases ranked.len(),
{
    if ranked.len() > 0 && points_of(ranked.last()) < points_of(result) {
        lemma_insert_position_bounds(ranked.drop_last(), result);
    }
}

/// A launcher ranking is ranked and holds at most `limit` results.
pub proof fn lemma_launcher_ranking(
    parts: Seq<Seq<char>>,
    candidates: Seq<CandidateView>,
    limit: int,
)
    requires
        0 <= limit,
    ensures
        is_ranked(launcher_ranking(parts, candidates, limit)),
        launcher_ranking(parts, candidates, limit).len() <= limit,
        launcher_ranking(parts, candidates, limit).len() <= candidates.len(),
    decreases candidates.len(),
{
    if candidates.len() > 0 {
        lemma_launcher_ranking(parts, candidates.drop_last(), limit);
        if let Some(result) = launcher_result(parts, candidates.last()) {
            lemma_rank_in(launcher_ranking(parts, candidates.drop_last(), limit), result, limit);
        }
    }
}

/// The launcher points of a result.
pub fn points(result: &SearchResult) -> (r: i128)
    ensures
        r == points_of(result@),
{
    match result.score {
        Score::Launcher(p) => p,
        Score::Ranked(_) => 0,
    }
}

/// Ranks one more result into a ranked list and cuts the list at `limit`.
pub(crate) fn rank_result(ranked: &mut Vec<SearchResult>, result: SearchResult, limit: usize)
    requires
        old(ranked).len() <= limit,
    ensures
        result_views(final(ranked)@) == rank_in(result_views(old(ranked)@), result@, limit as int),
        final(ranked).len() <= limit,
{
    let ghost before = result_views(ranked@);
    let mut at: usize = ranked.len();
    assert(before.take(ranked.len() as int) =~= before);
    while at > 0 && points(&ranked[at - 1]) < points(&result)
        invariant
            at <= ranked.len(),
            before == result_views(ranked@),
            insert_position(before, result@) == insert_position(before.take(at as int), result@),
        decreases at,
    {
        proof {
            assert(before.take(at as int).last() == ranked@[at - 1]@);
            assert(before.take(at as int).drop_last() =~= before.take(at - 1));
        }
        at = at - 1;
    }
    proof {
        assert(before.take(ranked.len() as int) =~= before);
        if at > 0 {
            assert(before.take(at as int).last() == ranked@[at - 1]@);
        }
        assert(insert_position(before, result@) == at);
    }
    if at < limit {
        ranked.insert(at, result);
        assert(result_views(ranked@) =~= before.insert(at as int, result@));
        if ranked.len() > limit {
            ranked.truncate(limit);
            assert(result_views(ranked@) =~= before.insert(at as int, result@).take(limit as int));
        }
    } else {
        assert(before.insert(at as int, result@).take(limit as int) =~= before);
    }
}

/// Scores a candidate for the query `parts`; none for a candidate without
/// a name or one that the query does not match.
pub fn score_candidate(parts: &Vec<Vec<char>>, candidate: &Candidate) -> (r: Option<SearchResult>)
    ensures
        match launcher_result(part_views(parts@), candidate@) {
            Some(result) => r matches Some(found) && found@ == result,
            None => r is None,
        },
{
    let lower = lowercase_chars(&chars_of(candidate.file_name.as_str()));
    let alnum = alnum_flags_of(&lower);
    let lower_ext = lowered_extension_of(&lower);
    score_candidate_with(parts, candidate, &lower, &alnum, &lower_ext)
}

/// Scores a candidate for the query `parts`, given the lower-case form of
/// its name, which characters of that form are letters or digits, and the
/// lower-case form of the extension of that form.
pub fn score_candidate_with(
    parts: &Vec<Vec<char>>,
    candidate: &Candidate,
    lower_name: &Vec<char>,
    alnum: &Vec<bool>,
    lower_ext: &Option<Vec<char>>,
) -> (r: Option<SearchResult>)
    ensures
        match result_for(
            candidate@,
            launcher_score_with(
                part_views(parts@),
                lower_name@,
                alnum@,
                extension_view(*lower_ext),
            ),
        ) {
            Some(result) => r matches Some(found) && found@ == result,
            None => r is None,
        },
{
    if candidate.file_name.as_str().unicode_len() == 0 {
        return None;
    }
    match score_with_classes(parts, lower_name, alnum, lower_ext) {
        Some(p) => Some(
            SearchResult {
                path: candidate.path.clone(),
                file_name: candidate.file_name.clone(),
                score: Score::Launcher(p),
                record_type: candidate.record_type.clone(),
            },
        ),
        None => None,
    }
}

/// Ranks the candidates for the query `parts` and keeps the best `limit`.
pub fn rank_candidates(parts: &Vec<Vec<char>>, candidates: &Vec<Candidate>, limit: usize) -> (r:
    Vec<SearchResult>)
    ensures
        result_views(r@) == launcher_ranking(
            part_views(parts@),
            candidate_views(candidates@),
            limit as int,
        ),
        is_ranked(result_views(r@)),
        r.len() <= limit,
{
    let ghost all = candidate_views(candidates@);
    let ghost pv = part_views(parts@);
    let mut ranked: Vec<SearchResult> = Vec::new();
    proof {
        assert(all.take(0) =~= Seq::<CandidateView>::empty());
        assert(result_views(ranked@) =~= Seq::<SearchResultView>::empty());
    }
    let mut i: usize = 0;
    while i < candidates.len()
        invariant
            i <= candidates.len(),
            all == candidate_views(candidates@),
            pv == part_views(parts@),
            ranked.len() <= limit,
            result_views(ranked@) == launcher_ranking(pv, all.take(i as int), limit as int),
        decreases candidates.len() - i,
    {
        proof {
            assert(all.take(i + 1).drop_last() =~= all.take(i as int));
            assert(all.take(i + 1).last() == candidates@[i as int]@);
        }
        match score_candidate(parts, &candidates[i]) {
            Some(found) => {
                rank_result(&mut ranked, found, limit);
            },
            None => {},
        }
        i = i + 1;
    }
    proof {
        assert(all.take(all.len() as int) =~= all);
        lemma_launcher_ranking(pv, all, limit as int);
    }
    ranked
}

} // verus!

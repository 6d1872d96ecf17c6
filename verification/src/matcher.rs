//! Fuzzy ranking of the candidates against a query.
//!
//! Scores are Jaro-Winkler similarities, kept as the bit patterns of their
//! `f64` values (`f64::to_bits`). For the non-negative values that the
//! similarity takes, the bit patterns order as the values do. Between 0.5
//! and 1.0 they are spaced evenly, `2^-53` apart, so the difference of two
//! bit patterns times `2^-53` is the difference of the values; there the
//! floating-point subtraction of two scores is exact as well (Sterbenz), so
//! the comparisons below are those of the `f64` arithmetic they stand for.
use vstd::prelude::*;
use crate::path_scan::{Candidate, CandidateView, candidates_view};
use crate::text::{str_lt, str_eq, seq_lt, lemma_seq_lt_irreflexive, lemma_seq_lt_transitive,
    lemma_seq_lt_total};
use crate::order::{is_strict_weak, is_stable_sort, sorts_by, lemma_insert_sorted};

verus! {

/// The lowest score kept: the bit pattern of the `f64` 0.8. Lower scores
/// are discarded, which keeps junk from matching short names.
pub const SCORE_FLOOR: u64 = 0x3FE999999999999A;

/// The score of an exact name match: the bit pattern of the `f64` 1.0.
pub const PERFECT_SCORE: u64 = 0x3FF0000000000000;

/// The bit pattern of the `f64` 0.5, the lowest score for which the score
/// arithmetic here is that of `f64`.
pub const HALF_SCORE: u64 = 0x3FE0000000000000;

/// The significand shared by the `f64` values 0.10 and 0.05: the first is
/// `BAND_SIGNIFICAND × 2^-56`, the second `BAND_SIGNIFICAND × 2^-57`.
pub const BAND_SIGNIFICAND: u64 = 0x1999999999999A;

/// Results are capped at this many.
pub const MAX_RESULTS: usize = 10;

/// A candidate with its score.
#[derive(Debug, PartialEq)]
pub struct Ranked {
    pub candidate: Candidate,
    /// The bit pattern of the `f64` similarity score.
    pub score: u64,
}

/// A ranked candidate seen as text and score.
pub struct RankedView {
    pub candidate: CandidateView,
    pub score: u64,
}

impl View for Ranked {
    type V = RankedView;

    open spec fn view(&self) -> RankedView {
        RankedView { candidate: self.candidate@, score: self.score }
    }
}

impl Clone for Ranked {
    fn clone(&self) -> (r: Self)
        ensures
            r@ == self@,
    {
        Ranked { candidate: self.candidate.clone(), score: self.score }
    }
}

/// A sequence of ranked candidates seen as text and scores.
pub open spec fn ranked_view(s: Seq<Ranked>) -> Seq<RankedView> {
    s.map_values(|r: Ranked| r@)
}

/// `s` lies more than 0.10 below `top`: the score is below the top one and
/// `(top - s) × 2^-53 > BAND_SIGNIFICAND × 2^-56`.
pub open spec fn below_band(top: u64, s: u64) -> bool {
    top > s && 8 * (top - s) > BAND_SIGNIFICAND
}

/// `s` drops more than 0.05 below its predecessor `prev`:
/// `(prev - s) × 2^-53 > BAND_SIGNIFICAND × 2^-57`.
pub open spec fn sharp_drop(prev: u64, s: u64) -> bool {
    prev > s && 16 * (prev - s) > BAND_SIGNIFICAND
}

/// The ranked list `sorted` ends before position `k`: the cap is reached,
/// or the `k`-th score is outside the band of the first or drops sharply
/// from the one before it.
pub open spec fn cliff_at(sorted: Seq<RankedView>, k: int) -> bool {
    ||| k >= MAX_RESULTS
    ||| k > 0 && below_band(sorted[0].score, sorted[k].score)
    ||| k > 0 && sharp_drop(sorted[k - 1].score, sorted[k].score)
}

/// `out` is `sorted` up to its first cliff.
pub open spec fn cut_at_cliff(sorted: Seq<RankedView>, out: Seq<RankedView>) -> bool {
    &&& out.len() <= sorted.len()
    &&& out == sorted.take(out.len() as int)
    &&& forall|k: int| 0 <= k < out.len() ==> !#[trigger] cliff_at(sorted, k)
    &&& out.len() < sorted.len() ==> cliff_at(sorted, out.len() as int)
}

/// Every score lies between 0.5 and 1.0.
pub open spec fn scores_in_unit_band(s: Seq<RankedView>) -> bool {
    forall|i: int| 0 <= i < s.len() ==> HALF_SCORE <= (#[trigger] s[i]).score <= PERFECT_SCORE
}

/// Keeps results within 0.10 of the best score, stops at the first drop
/// larger than 0.05 between consecutive results, and caps at
/// `MAX_RESULTS`. The input is meant to be sorted best-first. Its scores
/// lie between 0.5 and 1.0, where the bit-pattern arithmetic is that of
/// `f64`; the ranking passes only scores that reached the floor.
pub fn apply_cliff(sorted: Vec<Ranked>) -> (out: Vec<Ranked>)
    requires
        scores_in_unit_band(ranked_view(sorted@)),
    ensures
        cut_at_cliff(ranked_view(sorted@), ranked_view(out@)),
{
    let ghost sv = ranked_view(sorted@);
    let mut n: usize = 0;
    while n < sorted.len()
        invariant
            n <= sorted.len(),
            sv == ranked_view(sorted@),
            scores_in_unit_band(sv),
            forall|k: int| 0 <= k < n ==> !#[trigger] cliff_at(sv, k),
        ensures
            n <= sorted.len(),
            forall|k: int| 0 <= k < n ==> !#[trigger] cliff_at(sv, k),
            n < sorted.len() ==> cliff_at(sv, n as int),
        decreases sorted.len() - n,
    {
        if n >= MAX_RESULTS {
            break;
        }
        if n > 0 {
            let top = sorted[0].score;
            let prev = sorted[n - 1].score;
            let s = sorted[n].score;
            assert(sv[0].score == top && sv[n - 1].score == prev && sv[n as int].score == s);
            assert(HALF_SCORE <= sv[0].score <= PERFECT_SCORE);
            assert(HALF_SCORE <= sv[n - 1].score <= PERFECT_SCORE);
            assert(HALF_SCORE <= sv[n as int].score <= PERFECT_SCORE);
            if top > s && 8 * (top - s) > BAND_SIGNIFICAND {
                break;
            }
            if prev > s && 16 * (prev - s) > BAND_SIGNIFICAND {
                break;
            }
        }
        n = n + 1;
    }
    let mut out = sorted;
    out.truncate(n);
    assert(ranked_view(out@) =~= sv.take(n as int));
    out
}

} // verus!

verus! {

/// The ranking order: the higher score first, and of equal scores the name
/// that comes first in code-point order.
pub open spec fn by_rank() -> spec_fn(RankedView, RankedView) -> bool {
    |a: RankedView, b: RankedView|
        a.score > b.score || (a.score == b.score && seq_lt(a.candidate.name, b.candidate.name))
}

/// The ranking order is a strict weak order.
pub proof fn lemma_by_rank_strict_weak()
    ensures
        is_strict_weak(by_rank()),
{
    let f = by_rank();
    assert forall|x: RankedView, y: RankedView| #[trigger] f(x, y) implies !f(y, x) by {
        if f(y, x) && x.score == y.score {
            lemma_seq_lt_transitive(x.candidate.name, y.candidate.name, x.candidate.name);
            lemma_seq_lt_irreflexive(x.candidate.name);
        }
    }
    assert forall|x: RankedView, y: RankedView, z: RankedView| #[trigger] f(x, z) implies f(x, y)
        || #[trigger] f(y, z) by {
        if x.score == y.score && y.score == z.score {
            lemma_seq_lt_total(x.candidate.name, y.candidate.name);
            if seq_lt(y.candidate.name, x.candidate.name) {
                lemma_seq_lt_transitive(y.candidate.name, x.candidate.name, z.candidate.name);
            }
        }
    }
}

/// Whether `a` comes before `b` in the ranking order.
fn ranks_before(a: &Ranked, b: &Ranked) -> (r: bool)
    ensures
        r == by_rank()(a@, b@),
{
    if a.score != b.score {
        a.score > b.score
    } else {
        str_lt(a.candidate.name.as_str(), b.candidate.name.as_str())
    }
}

/// `v` sorted best-first, stably.
pub fn sort_ranked(v: Vec<Ranked>) -> (out: Vec<Ranked>)
    ensures
        is_stable_sort(ranked_view(v@), ranked_view(out@), by_rank()),
        ranked_view(out@).to_multiset() == ranked_view(v@).to_multiset(),
{
    let ghost src = ranked_view(v@);
    let mut rest = v;
    let mut out: Vec<Ranked> = Vec::new();
    let ghost mut p: Seq<int> = Seq::empty();
    let ghost mut j: int = 0;
    proof {
        lemma_by_rank_strict_weak();
        assert(ranked_view(out@) =~= Seq::<RankedView>::empty());
        assert(src.take(0) =~= Seq::<RankedView>::empty());
        assert(ranked_view(rest@) =~= src.skip(0));
    }
    while rest.len() > 0
        invariant
            is_strict_weak(by_rank()),
            0 <= j <= src.len(),
            ranked_view(rest@) == src.skip(j),
            sorts_by(src.take(j), ranked_view(out@), by_rank(), p),
        decreases rest.len(),
    {
        let ghost before_rest = rest@;
        let x = rest.remove(0);
        proof {
            assert(ranked_view(before_rest).len() == before_rest.len());
            assert(j < src.len());
            assert(ranked_view(before_rest)[0] == before_rest[0]@);
            assert(ranked_view(before_rest)[0] == src.skip(j)[0]);
            assert(x@ == src[j]);
            assert forall|i: int| 0 <= i < rest@.len() implies #[trigger] ranked_view(rest@)[i]
                == src.skip(j + 1)[i] by {
                assert(rest@[i] == before_rest[i + 1]);
                assert(ranked_view(before_rest)[i + 1] == src.skip(j)[i + 1]);
            }
            assert(ranked_view(rest@) =~= src.skip(j + 1));
        }
        let mut k: usize = 0;
        while k < out.len() && !ranks_before(&x, &out[k])
            invariant
                k <= out.len(),
                forall|a: int| 0 <= a < k ==> !by_rank()(x@, #[trigger] ranked_view(out@)[a]),
            decreases out.len() - k,
        {
            k = k + 1;
        }
        proof {
            let ov = ranked_view(out@);
            lemma_insert_sorted(src, ov, by_rank(), p, j, k as int);
            assert(src.take(j + 1).take(j) =~= src.take(j));
        }
        let ghost ov = ranked_view(out@);
        let ghost xv = x@;
        out.insert(k, x);
        proof {
            assert(ranked_view(out@) =~= ov.insert(k as int, xv));
            p = p.insert(k as int, j);
            j = j + 1;
        }
    }
    proof {
        assert(src.take(j) =~= src);
        crate::order::lemma_sorted_same_items(src, ranked_view(out@), by_rank(), p);
    }
    out
}

} // verus!

verus! {

/// The candidates paired with their scores, in order.
pub open spec fn scored(cands: Seq<CandidateView>, scores: Seq<u64>) -> Seq<RankedView> {
    Seq::new(cands.len(), |i: int| RankedView { candidate: cands[i], score: scores[i] })
}

/// The items whose score reaches the floor, in order.
pub open spec fn above_floor(items: Seq<RankedView>) -> Seq<RankedView> {
    items.filter(|r: RankedView| r.score >= SCORE_FLOOR)
}

/// `out` is the ranking of `items`: those that reach the floor, sorted
/// best-first with ties broken by name and then by their order in
/// `items`, and cut at the first cliff.
pub open spec fn is_ranking(items: Seq<RankedView>, out: Seq<RankedView>) -> bool {
    exists|sorted: Seq<RankedView>|
        is_stable_sort(above_floor(items), sorted, by_rank()) && #[trigger] cut_at_cliff(sorted, out)
}

/// Ranks `candidates` given `scores[i]`, the score of `candidates[i]`:
/// drops the scores below the floor, sorts best-first with ties broken by
/// name, and cuts the list at the first cliff.
pub fn rank_scores(candidates: &[Candidate], scores: &[u64]) -> (out: Vec<Ranked>)
    requires
        scores@.len() == candidates@.len(),
        forall|i: int| 0 <= i < scores@.len() ==> #[trigger] scores@[i] <= PERFECT_SCORE,
    ensures
        is_ranking(scored(candidates_view(candidates@), scores@), ranked_view(out@)),
{
    let ghost items = scored(candidates_view(candidates@), scores@);
    let mut kept: Vec<Ranked> = Vec::new();
    let mut i: usize = 0;
    proof {
        reveal(Seq::filter);
        assert(items.take(0) =~= Seq::<RankedView>::empty());
        assert(ranked_view(kept@) =~= Seq::<RankedView>::empty());
    }
    while i < candidates.len()
        invariant
            i <= candidates@.len(),
            scores@.len() == candidates@.len(),
            items == scored(candidates_view(candidates@), scores@),
            ranked_view(kept@) == above_floor(items.take(i as int)),
            forall|a: int| 0 <= a < kept@.len() ==> SCORE_FLOOR <= #[trigger] kept@[a].score <= PERFECT_SCORE,
            forall|a: int| 0 <= a < scores@.len() ==> #[trigger] scores@[a] <= PERFECT_SCORE,
        decreases candidates@.len() - i,
    {
        let ghost before = ranked_view(kept@);
        proof {
            reveal(Seq::filter);
            assert(items.take(i + 1).drop_last() =~= items.take(i as int));
            assert(items.take(i + 1).last() == items[i as int]);
        }
        if scores[i] >= SCORE_FLOOR {
            let r = Ranked { candidate: candidates[i].clone(), score: scores[i] };
            kept.push(r);
            proof {
                assert(ranked_view(kept@) =~= before.push(items[i as int]));
            }
        }
        i = i + 1;
    }
    proof {
        assert(items.take(candidates@.len() as int) =~= items);
    }
    let ghost kv = ranked_view(kept@);
    let sorted = sort_ranked(kept);
    let ghost sv = ranked_view(sorted@);
    proof {
        let p = choose|p: Seq<int>| sorts_by(kv, sv, by_rank(), p);
        assert forall|a: int| 0 <= a < sv.len() implies HALF_SCORE <= (#[trigger] sv[a]).score <= PERFECT_SCORE by {
            assert(sv[a] == kv[p[a]]);
            assert(kv[p[a]] == kept@[p[a]]@);
        }
    }
    let out = apply_cliff(sorted);
    proof {
        assert(is_stable_sort(above_floor(items), sv, by_rank()) && cut_at_cliff(sv, ranked_view(out@)));
    }
    out
}

/// The Unicode lowercase form of a string, as `str::to_lowercase` gives it.
pub uninterp spec fn lowercase(s: Seq<char>) -> Seq<char>;

/// The bit pattern of `strsim::jaro_winkler(a, b)`.
pub uninterp spec fn jaro_winkler_bits(a: Seq<char>, b: Seq<char>) -> u64;

/// Calls `str::to_lowercase`; the contract names its result `lowercase`.
#[verifier::external_body]
fn to_lowercase(s: &str) -> (r: String)
    ensures
        r@ == lowercase(s@),
{
    s.to_lowercase()
}

/// Calls `strsim::jaro_winkler` and returns the bit pattern of the score;
/// the contract names it `jaro_winkler_bits`. It also states that the score
/// lies between 0.0 and 1.0, which the source shows: the Jaro similarity is
/// the mean of three ratios of counts, each at most 1 (0.0 or 1.0 for empty
/// inputs), and the Winkler boost adds `0.1 × p × (1 - sim)` with `p` at
/// most 4, which keeps the sum at most 1. For such values, never negative
/// nor NaN, the bit pattern is at most that of 1.0.
#[verifier::external_body]
fn jaro_winkler_score(a: &str, b: &str) -> (r: u64)
    ensures
        r == jaro_winkler_bits(a@, b@),
        r <= PERFECT_SCORE,
{
    strsim::jaro_winkler(a, b).to_bits()
}

/// The score of each candidate against the query: case-insensitive
/// Jaro-Winkler similarity, as a bit pattern.
pub open spec fn fuzzy_scores(query: Seq<char>, cands: Seq<CandidateView>) -> Seq<u64> {
    Seq::new(cands.len(), |i: int| jaro_winkler_bits(lowercase(query), lowercase(cands[i].name)))
}

/// `i` is the first candidate whose name is exactly `query`.
pub open spec fn is_first_named(cands: Seq<CandidateView>, query: Seq<char>, i: int) -> bool {
    &&& 0 <= i < cands.len()
    &&& cands[i].name == query
    &&& forall|j: int| 0 <= j < i ==> (#[trigger] cands[j]).name != query
}

/// Ranks `candidates` against `query`. An exact name match returns just
/// the first candidate with that name, with a perfect score; otherwise the
/// candidates are scored with case-insensitive Jaro-Winkler similarity and
/// ranked by [`rank_scores`].
pub fn rank(query: &str, candidates: &[Candidate]) -> (out: Vec<Ranked>)
    ensures
        forall|i: int| is_first_named(candidates_view(candidates@), query@, i) ==> ranked_view(out@)
            == seq![RankedView { candidate: candidates_view(candidates@)[i], score: PERFECT_SCORE }],
        !crate::path_scan::has_name(candidates_view(candidates@), query@) ==> is_ranking(
            scored(candidates_view(candidates@), fuzzy_scores(query@, candidates_view(candidates@))),
            ranked_view(out@),
        ),
{
    let ghost cv = candidates_view(candidates@);
    let mut i: usize = 0;
    while i < candidates.len()
        invariant
            i <= candidates@.len(),
            cv == candidates_view(candidates@),
            forall|j: int| 0 <= j < i ==> (#[trigger] cv[j]).name != query@,
        decreases candidates@.len() - i,
    {
        if str_eq(candidates[i].name.as_str(), query) {
            let mut out: Vec<Ranked> = Vec::new();
            out.push(Ranked { candidate: candidates[i].clone(), score: PERFECT_SCORE });
            proof {
                assert(ranked_view(out@) =~= seq![RankedView { candidate: cv[i as int], score: PERFECT_SCORE }]);
                assert forall|k: int| is_first_named(cv, query@, k) implies k == i by {
                    if k < i {
                        assert(cv[k].name != query@);
                    } else if k > i {
                        assert(cv[i as int].name != query@);
                    }
                }
            }
            return out;
        }
        i = i + 1;
    }
    let q = to_lowercase(query);
    let mut scores: Vec<u64> = Vec::new();
    let mut k: usize = 0;
    while k < candidates.len()
        invariant
            k <= candidates@.len(),
            cv == candidates_view(candidates@),
            q@ == lowercase(query@),
            scores@ == fuzzy_scores(query@, cv).take(k as int),
            forall|a: int| 0 <= a < scores@.len() ==> #[trigger] scores@[a] <= PERFECT_SCORE,
        decreases candidates@.len() - k,
    {
        let name = to_lowercase(candidates[k].name.as_str());
        let s = jaro_winkler_score(q.as_str(), name.as_str());
        scores.push(s);
        proof {
            assert(cv[k as int].name == candidates@[k as int].name@);
            assert(scores@ =~= fuzzy_scores(query@, cv).take(k + 1));
        }
        k = k + 1;
    }
    proof {
        assert(scores@ =~= fuzzy_scores(query@, cv));
        assert forall|j: int| !is_first_named(cv, query@, j) by {
            if 0 <= j < cv.len() {
                assert(cv[j].name != query@);
            }
        }
        if crate::path_scan::has_name(cv, query@) {
            let j = choose|j: int| 0 <= j < cv.len() && (#[trigger] cv[j]).name == query@;
            assert(cv[j].name != query@);
        }
    }
    rank_scores(candidates, scores.as_slice())
}


/// Ranking is deterministic: the same items have one ranking.
pub proof fn lemma_ranking_unique(items: Seq<RankedView>, a: Seq<RankedView>, b: Seq<RankedView>)
    requires
        is_ranking(items, a),
        is_ranking(items, b),
    ensures
        a == b,
{
    let sa = choose|s: Seq<RankedView>| is_stable_sort(above_floor(items), s, by_rank()) && #[trigger] cut_at_cliff(s, a);
    let sb = choose|s: Seq<RankedView>| is_stable_sort(above_floor(items), s, by_rank()) && #[trigger] cut_at_cliff(s, b);
    lemma_by_rank_strict_weak();
    crate::order::lemma_stable_sort_unique(above_floor(items), sa, sb, by_rank());
    if a.len() < b.len() {
        assert(cliff_at(sa, a.len() as int));
    } else if b.len() < a.len() {
        assert(cliff_at(sa, b.len() as int));
    }
}

/// What a ranking looks like: at most `MAX_RESULTS` results, each one of
/// the items with a score at the floor or above; best first, equal scores
/// in name order; every score within 0.10 of the first, and no drop of
/// more than 0.05 between neighbours.
pub proof fn lemma_ranking_shape(items: Seq<RankedView>, out: Seq<RankedView>)
    requires
        is_ranking(items, out),
    ensures
        out.len() <= MAX_RESULTS,
        forall|k: int| 0 <= k < out.len() ==> items.contains(#[trigger] out[k]),
        forall|k: int| 0 <= k < out.len() ==> (#[trigger] out[k]).score >= SCORE_FLOOR,
        forall|i: int, j: int| 0 <= i < j < out.len() ==> !by_rank()(#[trigger] out[j], #[trigger] out[i]),
        forall|k: int| 0 <= k < out.len() ==> !below_band(out[0].score, (#[trigger] out[k]).score),
        forall|k: int| 0 < k < out.len() ==> !sharp_drop(out[k - 1].score, (#[trigger] out[k]).score),
{
    let kept = above_floor(items);
    let s = choose|s: Seq<RankedView>| is_stable_sort(kept, s, by_rank()) && #[trigger] cut_at_cliff(s, out);
    let p = choose|p: Seq<int>| crate::order::sorts_by(kept, s, by_rank(), p);
    lemma_by_rank_strict_weak();
    if out.len() > MAX_RESULTS {
        assert(cliff_at(s, MAX_RESULTS as int));
    }
    assert forall|k: int| 0 <= k < out.len() implies items.contains(#[trigger] out[k]) && out[k].score >= SCORE_FLOOR by {
        assert(out[k] == s[k]);
        assert(s[k] == kept[p[k]]);
        let pred = |r: RankedView| r.score >= SCORE_FLOOR;
        items.lemma_filter_pred(pred, p[k]);
        lemma_filter_subset(items, pred, p[k]);
    }
    assert forall|i: int, j: int| 0 <= i < j < out.len() implies !by_rank()(#[trigger] out[j], #[trigger] out[i]) by {
        assert(out[i] == s[i] && out[j] == s[j]);
    }
    assert forall|k: int| 0 <= k < out.len() implies !below_band(out[0].score, (#[trigger] out[k]).score) by {
        assert(!cliff_at(s, k));
        assert(out[0] == s[0] && out[k] == s[k]);
    }
    assert forall|k: int| 0 < k < out.len() implies !sharp_drop(out[k - 1].score, (#[trigger] out[k]).score) by {
        assert(!cliff_at(s, k));
        assert(out[k - 1] == s[k - 1] && out[k] == s[k]);
    }
}

proof fn lemma_filter_subset(items: Seq<RankedView>, pred: spec_fn(RankedView) -> bool, i: int)
    requires
        0 <= i < items.filter(pred).len(),
    ensures
        items.contains(items.filter(pred)[i]),
    decreases items.len(),
{
    reveal(Seq::filter);
    let prev = items.drop_last().filter(pred);
    if i < prev.len() {
        lemma_filter_subset(items.drop_last(), pred, i);
        let j = choose|j: int| 0 <= j < items.drop_last().len() && items.drop_last()[j] == prev[i];
        assert(items[j] == prev[i]);
    } else {
        assert(items[items.len() - 1] == items.filter(pred)[i]);
    }
}

/// Matching ignores case: two queries with the same lowercase form score
/// every candidate alike, so when neither names a candidate exactly they
/// have the same rankings.
pub proof fn lemma_rank_ignores_case(q1: Seq<char>, q2: Seq<char>, cands: Seq<CandidateView>, out: Seq<RankedView>)
    requires
        lowercase(q1) == lowercase(q2),
    ensures
        is_ranking(scored(cands, fuzzy_scores(q1, cands)), out) == is_ranking(
            scored(cands, fuzzy_scores(q2, cands)),
            out,
        ),
{
    assert(fuzzy_scores(q1, cands) =~= fuzzy_scores(q2, cands));
}


/// Each candidate's score is the Jaro-Winkler similarity of the lowercase
/// query and the lowercase candidate name.
pub proof fn lemma_score_is_lowercase_similarity(query: Seq<char>, cands: Seq<CandidateView>, i: int)
    requires
        0 <= i < cands.len(),
    ensures
        fuzzy_scores(query, cands).len() == cands.len(),
        fuzzy_scores(query, cands)[i] == jaro_winkler_bits(lowercase(query), lowercase(cands[i].name)),
{
}

/// Scoring ignores case on both sides: queries with the same lowercase
/// form, against candidate lists whose names agree after lowercasing,
/// give the same scores.
pub proof fn lemma_scores_ignore_case(
    q1: Seq<char>,
    q2: Seq<char>,
    c1: Seq<CandidateView>,
    c2: Seq<CandidateView>,
)
    requires
        lowercase(q1) == lowercase(q2),
        c1.len() == c2.len(),
        forall|i: int| 0 <= i < c1.len() ==> lowercase(#[trigger] c1[i].name) == lowercase(c2[i].name),
    ensures
        fuzzy_scores(q1, c1) == fuzzy_scores(q2, c2),
{
    assert(fuzzy_scores(q1, c1) =~= fuzzy_scores(q2, c2));
}


/// The exact match short-circuit goes by the name byte for byte: the first
/// candidate named exactly like the query, and no other.
pub proof fn lemma_first_named_is_exact(cands: Seq<CandidateView>, query: Seq<char>, i: int, j: int)
    requires
        is_first_named(cands, query, i),
    ensures
        cands[i].name == query,
        0 <= j < cands.len() && cands[j].name == query ==> i <= j,
        is_first_named(cands, query, j) ==> i == j,
{
    if is_first_named(cands, query, j) && j < i {
        assert(cands[j].name != query);
    }
}

/// The band and the drop in score units of `2^-53`: a score leaves the band
/// when it is more than `0.10 × 2^53 = 900719925474099.25` units below the
/// top, and drops sharply when it is more than `0.05 × 2^53 =
/// 450359962737049.625` units below its predecessor.
pub proof fn lemma_cliff_thresholds(top: u64, prev: u64, s: u64)
    ensures
        below_band(top, s) <==> top > s && top - s >= 900719925474100,
        sharp_drop(prev, s) <==> prev > s && prev - s >= 450359962737050,
{
}

/// The ranking order: a higher score always comes first, and among equal
/// scores the name that comes first in code-point order.
pub proof fn lemma_rank_order(a: RankedView, b: RankedView)
    ensures
        a.score > b.score ==> by_rank()(a, b) && !by_rank()(b, a),
        a.score == b.score ==> (by_rank()(a, b) <==> seq_lt(a.candidate.name, b.candidate.name)),
{
    if a.score > b.score {
        assert(!by_rank()(b, a));
    }
}

} // verus!

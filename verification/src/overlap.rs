//! From candidates to matches: where candidates cover the same token, all
//! but the best are eliminated; of those that are left, the ones with a
//! structural score at the threshold or above are reported.

use crate::candidates::Candidate;
use crate::candidates::CandidateView;
use crate::definitions::EntityExtraction;
use crate::definitions::ExtractionView;
use crate::numbers::ENTITY_SCORE_THRESHOLD;
use crate::numbers::SCORE_ONE;
use crate::primitives::sort_by;
use crate::primitives::sorted_as;
use crate::primitives::SortOrder;
use crate::text::views;
use crate::tokens::token_views;
use crate::tokens::Token;
use crate::tokens::TokenView;
use vstd::prelude::*;

verus! {

/// Whether the window of a candidate holds token `t`.
pub open spec fn covers(c: CandidateView, t: int) -> bool {
    c.token_start <= t <= c.token_end
}

/// Whether candidate `j` goes before candidate `i`: it has the higher length
/// score, or the same and comes first.
pub open spec fn outranks(candidates: Seq<CandidateView>, j: int, i: int) -> bool {
    candidates[j].length_score > candidates[i].length_score || (candidates[j].length_score
        == candidates[i].length_score && j < i)
}

/// Whether candidate `i` is still in play and covers token `t`.
pub open spec fn active(candidates: Seq<CandidateView>, eliminated: Seq<bool>, t: int, i: int) -> bool {
    0 <= i < candidates.len() && !eliminated[i] && covers(candidates[i], t)
}

/// Whether another candidate in play at token `t` goes before candidate `i`.
pub open spec fn beaten(candidates: Seq<CandidateView>, eliminated: Seq<bool>, t: int, i: int) -> bool {
    exists|j: int| #[trigger] active(candidates, eliminated, t, j) && j != i && outranks(candidates, j, i)
}

/// Which candidates are eliminated once token `t` has been looked at: those
/// that were, and those that cover `t` and are beaten there.
pub open spec fn eliminate_at(candidates: Seq<CandidateView>, eliminated: Seq<bool>, t: int) -> Seq<bool> {
    Seq::new(
        candidates.len(),
        |i: int| eliminated[i] || (covers(candidates[i], t) && beaten(candidates, eliminated, t, i)),
    )
}

/// Which candidates are eliminated once the first `t` tokens have been
/// looked at, one after the other.
pub open spec fn eliminated_upto(candidates: Seq<CandidateView>, t: int) -> Seq<bool>
    decreases t,
{
    if t <= 0 {
        Seq::new(candidates.len(), |i: int| false)
    } else {
        eliminate_at(candidates, eliminated_upto(candidates, t - 1), t - 1)
    }
}

/// Whether a candidate is reported: it was not eliminated, and its
/// structural score is at the threshold or above.
pub open spec fn reported(c: CandidateView, eliminated: bool) -> bool {
    !eliminated && c.struct_score >= ENTITY_SCORE_THRESHOLD
}

/// The match that a candidate stands for: its bytes run from the start of
/// its first token to the end of its last, its confidence is its structural score.
pub open spec fn extraction_of(tokens: Seq<TokenView>, c: CandidateView) -> ExtractionView {
    ExtractionView {
        name: c.name,
        confidence: c.struct_score,
        char_start: tokens[c.token_start as int].char_start,
        char_end: tokens[c.token_end as int].char_end,
        value: c.value,
        source: c.source,
    }
}

/// The matches among the first `k` candidates, in order.
pub open spec fn extractions_upto(
    tokens: Seq<TokenView>,
    candidates: Seq<CandidateView>,
    eliminated: Seq<bool>,
    k: int,
) -> Seq<ExtractionView>
    decreases k,
{
    if k <= 0 {
        Seq::empty()
    } else if reported(candidates[k - 1], eliminated[k - 1]) {
        extractions_upto(tokens, candidates, eliminated, k - 1).push(extraction_of(tokens, candidates[k - 1]))
    } else {
        extractions_upto(tokens, candidates, eliminated, k - 1)
    }
}

/// The matches that candidates over an utterance give.
pub open spec fn extractions(tokens: Seq<TokenView>, candidates: Seq<CandidateView>) -> Seq<ExtractionView> {
    extractions_upto(
        tokens,
        candidates,
        eliminated_upto(candidates, tokens.len() as int),
        candidates.len() as int,
    )
}

/// Whether the window of each candidate lies within `n` tokens.
pub open spec fn within(candidates: Seq<CandidateView>, n: nat) -> bool {
    forall|i: int|
        0 <= i < candidates.len() ==> (#[trigger] candidates[i]).token_start < n && candidates[i].token_end < n
}

/// Whether `x` is the match of candidate `i`, which is reported.
pub open spec fn is_match_of(
    tokens: Seq<TokenView>,
    candidates: Seq<CandidateView>,
    eliminated: Seq<bool>,
    i: int,
    x: ExtractionView,
) -> bool {
    0 <= i < candidates.len() && reported(candidates[i], eliminated[i]) && x == extraction_of(tokens, candidates[i])
}

/// Whether `x` is the match of some candidate that is reported.
pub open spec fn is_match(
    tokens: Seq<TokenView>,
    candidates: Seq<CandidateView>,
    eliminated: Seq<bool>,
    x: ExtractionView,
) -> bool {
    exists|i: int| #[trigger] is_match_of(tokens, candidates, eliminated, i, x)
}

/// Every match is that of a candidate that is reported.
pub proof fn lemma_matches_are_reported(
    tokens: Seq<TokenView>,
    candidates: Seq<CandidateView>,
    eliminated: Seq<bool>,
    k: int,
)
    requires
        0 <= k <= candidates.len(),
    ensures
        forall|r: int|
            0 <= r < extractions_upto(tokens, candidates, eliminated, k).len() ==> is_match(
                tokens,
                candidates,
                eliminated,
                #[trigger] extractions_upto(tokens, candidates, eliminated, k)[r],
            ),
    decreases k,
{
    if k > 0 {
        lemma_matches_are_reported(tokens, candidates, eliminated, k - 1);
        let before = extractions_upto(tokens, candidates, eliminated, k - 1);
        let now = extractions_upto(tokens, candidates, eliminated, k);
        assert forall|r: int| 0 <= r < now.len() implies is_match(
            tokens,
            candidates,
            eliminated,
            #[trigger] now[r],
        ) by {
            if r < before.len() {
                assert(now[r] == before[r]);
                assert(is_match(tokens, candidates, eliminated, before[r]));
            } else {
                assert(is_match_of(tokens, candidates, eliminated, k - 1, now[r]));
            }
        }
    }
}

/// The confidence of every match is at the threshold or above. Where no
/// candidate has a structural score above one, it is one at most.
pub proof fn lemma_confidence_range(tokens: Seq<TokenView>, candidates: Seq<CandidateView>)
    ensures
        forall|r: int|
            0 <= r < extractions(tokens, candidates).len() ==> (#[trigger] extractions(
                tokens,
                candidates,
            )[r]).confidence >= ENTITY_SCORE_THRESHOLD,
        (forall|i: int| 0 <= i < candidates.len() ==> (#[trigger] candidates[i]).struct_score <= SCORE_ONE)
            ==> forall|r: int|
            0 <= r < extractions(tokens, candidates).len() ==> (#[trigger] extractions(
                tokens,
                candidates,
            )[r]).confidence <= SCORE_ONE,
{
    let eliminated = eliminated_upto(candidates, tokens.len() as int);
    let found = extractions(tokens, candidates);
    lemma_matches_are_reported(tokens, candidates, eliminated, candidates.len() as int);
    assert forall|r: int| 0 <= r < found.len() implies (#[trigger] found[r]).confidence
        >= ENTITY_SCORE_THRESHOLD by {
        assert(is_match(tokens, candidates, eliminated, found[r]));
    }
    if forall|i: int| 0 <= i < candidates.len() ==> (#[trigger] candidates[i]).struct_score <= SCORE_ONE {
        assert forall|r: int| 0 <= r < found.len() implies (#[trigger] found[r]).confidence <= SCORE_ONE by {
            assert(is_match(tokens, candidates, eliminated, found[r]));
        }
    }
}

/// What was eliminated stays eliminated.
pub proof fn lemma_elimination_is_final(candidates: Seq<CandidateView>, t: int, later: int, i: int)
    requires
        0 <= t <= later,
        0 <= i < candidates.len(),
        eliminated_upto(candidates, t)[i],
    ensures
        eliminated_upto(candidates, later)[i],
    decreases later - t,
{
    if t < later {
        lemma_elimination_is_final(candidates, t, later - 1, i);
    }
}

/// The flags are as many as the candidates.
pub proof fn lemma_eliminated_len(candidates: Seq<CandidateView>, t: int)
    ensures
        eliminated_upto(candidates, t).len() == candidates.len(),
    decreases t,
{
    if t > 0 {
        lemma_eliminated_len(candidates, t - 1);
    }
}

/// Of two candidates that cover the same token of the utterance, one at
/// least is eliminated in the end: no token is covered by two survivors.
pub proof fn lemma_survivors_do_not_overlap(candidates: Seq<CandidateView>, n_tokens: int, t: int, i: int, j: int)
    requires
        0 <= t < n_tokens,
        0 <= i < candidates.len(),
        0 <= j < candidates.len(),
        i != j,
        covers(candidates[i], t),
        covers(candidates[j], t),
    ensures
        eliminated_upto(candidates, n_tokens)[i] || eliminated_upto(candidates, n_tokens)[j],
{
    let before = eliminated_upto(candidates, t);
    let after = eliminated_upto(candidates, t + 1);
    lemma_eliminated_len(candidates, t);
    if !after[i] && !after[j] {
        assert(active(candidates, before, t, i));
        assert(active(candidates, before, t, j));
        if outranks(candidates, i, j) {
            assert(beaten(candidates, before, t, j));
        } else {
            assert(outranks(candidates, j, i));
            assert(beaten(candidates, before, t, i));
        }
    }
    if after[i] {
        lemma_elimination_is_final(candidates, t + 1, n_tokens, i);
    } else {
        lemma_elimination_is_final(candidates, t + 1, n_tokens, j);
    }
}

/// Whether candidate `i` is listed at one of the places `from..to`.
spec fn listed(list: Seq<(usize, u64)>, from: int, to: int, i: int) -> bool {
    exists|k: int| from <= k < to && (#[trigger] list[k]).0 == i
}

/// Whether a list holds the candidates in play at token `t`, each once and
/// in order, with their length scores.
spec fn lists_active(
    candidates: Seq<CandidateView>,
    eliminated: Seq<bool>,
    t: int,
    list: Seq<(usize, u64)>,
) -> bool {
    &&& forall|k: int|
        0 <= k < list.len() ==> active(candidates, eliminated, t, (#[trigger] list[k]).0 as int) && list[k].1
            == candidates[list[k].0 as int].length_score
    &&& forall|a: int, b: int| 0 <= a < b < list.len() ==> (#[trigger] list[a]).0 < (#[trigger] list[b]).0
    &&& forall|i: int| active(candidates, eliminated, t, i) ==> listed(list, 0, list.len() as int, i)
}

/// Once the candidates in play at a token are sorted by falling length
/// score, those behind the first are the beaten ones.
proof fn lemma_losers_are_beaten(
    candidates: Seq<CandidateView>,
    eliminated: Seq<bool>,
    t: int,
    before: Seq<(usize, u64)>,
    keys: Seq<u64>,
    after: Seq<(usize, u64)>,
    p: Seq<int>,
)
    requires
        eliminated.len() == candidates.len(),
        lists_active(candidates, eliminated, t, before),
        keys.len() == before.len(),
        forall|k: int| 0 <= k < before.len() ==> #[trigger] keys[k] == before[k].1,
        sorted_as(before, keys, SortOrder::Descending, after, p),
    ensures
        forall|k: int| 0 <= k < after.len() ==> active(candidates, eliminated, t, (#[trigger] after[k]).0 as int),
        forall|i: int|
            0 <= i < candidates.len() ==> (listed(after, 1, after.len() as int, i) <==> (active(
                candidates,
                eliminated,
                t,
                i,
            ) && #[trigger] beaten(candidates, eliminated, t, i))),
{
    let n = after.len() as int;
    assert forall|k: int| 0 <= k < n implies active(candidates, eliminated, t, (#[trigger] after[k]).0 as int) by {
        assert(after[k] == before[p[k]]);
    }
    // each item of `before` is somewhere in `after`
    assert forall|m: int| 0 <= m < n implies listed(after, 0, n, (#[trigger] before[m]).0 as int) by {
        assert(p.contains(m));
        let k = choose|k: int| 0 <= k < p.len() && p[k] == m;
        assert(after[k] == before[p[k]]);
    }
    // the order of `after`, said of the candidates
    assert forall|a: int, b: int| 0 <= a < b < n implies outranks(
        candidates,
        (#[trigger] after[a]).0 as int,
        (#[trigger] after[b]).0 as int,
    ) by {
        assert(after[a] == before[p[a]]);
        assert(after[b] == before[p[b]]);
        assert(keys[p[a]] == before[p[a]].1);
        assert(keys[p[b]] == before[p[b]].1);
        if keys[p[a]] == keys[p[b]] {
            assert(p[a] < p[b]);
            assert(before[p[a]].0 < before[p[b]].0);
        }
    }
    assert forall|i: int| 0 <= i < candidates.len() implies (listed(after, 1, n, i) <==> (active(
        candidates,
        eliminated,
        t,
        i,
    ) && #[trigger] beaten(candidates, eliminated, t, i))) by {
        if listed(after, 1, n, i) {
            let k = choose|k: int| 1 <= k < n && (#[trigger] after[k]).0 == i;
            let w = after[0].0 as int;
            assert(outranks(candidates, after[0].0 as int, after[k].0 as int));
            assert(active(candidates, eliminated, t, w));
            assert(w != i);
        }
        if active(candidates, eliminated, t, i) && beaten(candidates, eliminated, t, i) {
            let j = choose|j: int|
                #[trigger] active(candidates, eliminated, t, j) && j != i && outranks(candidates, j, i);
            assert(listed(before, 0, n, i));
            assert(listed(before, 0, n, j));
            let mi = choose|m: int| 0 <= m < n && (#[trigger] before[m]).0 == i;
            let mj = choose|m: int| 0 <= m < n && (#[trigger] before[m]).0 == j;
            assert(listed(after, 0, n, before[mi].0 as int));
            assert(listed(after, 0, n, before[mj].0 as int));
            let ki = choose|k: int| 0 <= k < n && (#[trigger] after[k]).0 == i;
            let kj = choose|k: int| 0 <= k < n && (#[trigger] after[k]).0 == j;
            if ki == 0 {
                assert(kj != 0);
                assert(outranks(candidates, after[0].0 as int, after[kj].0 as int));
                assert(false);
            }
            assert(listed(after, 1, n, i));
        }
    }
}

/// The length score that a listed candidate carries.
spec fn carried(pair: (usize, u64)) -> u64 {
    pair.1
}

/// The length score that a listed candidate carries.
fn length_score_of(pair: &(usize, u64)) -> (key: u64)
    ensures
        key == carried(*pair),
{
    pair.1
}

/// The candidates in play at token `t`, in order, each with its place and
/// its length score.
fn active_at(candidates: &Vec<Candidate>, eliminated: &Vec<bool>, t: usize) -> (list: Vec<(usize, u64)>)
    requires
        eliminated.len() == candidates.len(),
    ensures
        lists_active(views(candidates@), eliminated@, t as int, list@),
{
    let ghost cv = views(candidates@);
    let mut list: Vec<(usize, u64)> = Vec::new();
    let mut i: usize = 0;
    while i < candidates.len()
        invariant
            0 <= i <= candidates.len(),
            eliminated.len() == candidates.len(),
            cv == views(candidates@),
            forall|k: int|
                0 <= k < list.len() ==> active(cv, eliminated@, t as int, (#[trigger] list@[k]).0 as int)
                    && list@[k].1 == cv[list@[k].0 as int].length_score && list@[k].0 < i,
            forall|a: int, b: int| 0 <= a < b < list.len() ==> (#[trigger] list@[a]).0 < (#[trigger] list@[b]).0,
            forall|m: int|
                0 <= m < i && active(cv, eliminated@, t as int, m) ==> listed(list@, 0, list.len() as int, m),
        decreases candidates.len() - i,
    {
        let c = &candidates[i];
        assert(cv[i as int] == c@);
        if c.token_start <= t && c.token_end >= t && !eliminated[i] {
            let ghost old_list = list@;
            list.push((i, c.length_score));
            assert forall|m: int| 0 <= m < i + 1 && active(cv, eliminated@, t as int, m) implies listed(
                list@,
                0,
                list.len() as int,
                m,
            ) by {
                if m < i {
                    assert(listed(old_list, 0, old_list.len() as int, m));
                    let k = choose|k: int| 0 <= k < old_list.len() && (#[trigger] old_list[k]).0 == m;
                    assert(list@[k].0 == m);
                } else {
                    assert(list@[list.len() - 1].0 == m);
                }
            }
        }
        i += 1;
    }
    list
}

/// Looks at token `t`: of the candidates in play that cover it, all but the
/// one with the highest length score are eliminated. Of candidates with the
/// same length score the earlier goes before the later.
fn eliminate_overlapping(candidates: &Vec<Candidate>, eliminated: &mut Vec<bool>, t: usize)
    requires
        old(eliminated).len() == candidates.len(),
    ensures
        final(eliminated)@ == eliminate_at(views(candidates@), old(eliminated)@, t as int),
{
    let ghost cv = views(candidates@);
    let ghost flags = eliminated@;
    let mut in_play = active_at(candidates, eliminated, t);
    let ghost before = in_play@;

    // the length score favours longer matches
    sort_by(&mut in_play, length_score_of, SortOrder::Descending);

    proof {
        let (keys, p) = choose|keys: Seq<u64>, p: Seq<int>|
            {
                &&& keys.len() == before.len()
                &&& forall|i: int| 0 <= i < before.len() ==> #[trigger] keys[i] == before[i].1
                &&& sorted_as(before, keys, SortOrder::Descending, in_play@, p)
            };
        lemma_losers_are_beaten(cv, flags, t as int, before, keys, in_play@, p);
    }
    if in_play.len() <= 1 {
        assert(eliminated@ =~= eliminate_at(cv, flags, t as int)) by {
            assert forall|i: int| 0 <= i < cv.len() implies !(covers(cv[i], t as int) && !flags[i] && beaten(
                cv,
                flags,
                t as int,
                i,
            )) by {
                if active(cv, flags, t as int, i) && beaten(cv, flags, t as int, i) {
                    assert(listed(in_play@, 1, in_play.len() as int, i));
                }
            }
        }
        return ;
    }
    let mut k: usize = 1;
    while k < in_play.len()
        invariant
            1 <= k <= in_play.len(),
            eliminated.len() == candidates.len(),
            cv == views(candidates@),
            flags.len() == cv.len(),
            forall|m: int|
                0 <= m < in_play.len() ==> active(cv, flags, t as int, (#[trigger] in_play@[m]).0 as int),
            forall|i: int|
                0 <= i < cv.len() ==> #[trigger] eliminated@[i] == (flags[i] || listed(in_play@, 1, k as int, i)),
        decreases in_play.len() - k,
    {
        let loser = in_play[k].0;
        eliminated[loser] = true;
        assert forall|i: int| 0 <= i < cv.len() implies #[trigger] eliminated@[i] == (flags[i] || listed(
            in_play@,
            1,
            k + 1,
            i,
        )) by {
            if i == loser {
                assert(in_play@[k as int].0 == i);
            } else if listed(in_play@, 1, k + 1, i) {
                let m = choose|m: int| 1 <= m < k + 1 && (#[trigger] in_play@[m]).0 == i;
                assert(m < k);
                assert(listed(in_play@, 1, k as int, i));
            } else {
                if listed(in_play@, 1, k as int, i) {
                    let m = choose|m: int| 1 <= m < k && (#[trigger] in_play@[m]).0 == i;
                    assert(listed(in_play@, 1, k + 1, i));
                }
            }
        }
        k += 1;
    }
    assert(eliminated@ =~= eliminate_at(cv, flags, t as int)) by {
        assert forall|i: int| 0 <= i < cv.len() implies eliminated@[i] == (flags[i] || (covers(cv[i], t as int)
            && beaten(cv, flags, t as int, i))) by {
            if !flags[i] && covers(cv[i], t as int) {
                assert(active(cv, flags, t as int, i));
            }
            if listed(in_play@, 1, in_play.len() as int, i) {
                assert(active(cv, flags, t as int, i) && beaten(cv, flags, t as int, i));
            }
        }
    }
}

/// Whether the window of each candidate lies within `n_tokens` tokens.
pub fn spans_within(candidates: &Vec<Candidate>, n_tokens: usize) -> (r: bool)
    ensures
        r == within(views(candidates@), n_tokens as nat),
{
    let mut i: usize = 0;
    while i < candidates.len()
        invariant
            0 <= i <= candidates.len(),
            forall|k: int|
                0 <= k < i ==> (#[trigger] views(candidates@)[k]).token_start < n_tokens && views(
                    candidates@,
                )[k].token_end < n_tokens,
        decreases candidates.len() - i,
    {
        assert(views(candidates@)[i as int] == candidates@[i as int]@);
        if candidates[i].token_start >= n_tokens || candidates[i].token_end >= n_tokens {
            return false;
        }
        i += 1;
    }
    true
}

/// Which candidates are eliminated over an utterance of `n_tokens` tokens:
/// each token is looked at in turn, and of the candidates still in play that
/// cover it, only the best stays.
pub fn resolve_overlaps(candidates: &Vec<Candidate>, n_tokens: usize) -> (eliminated: Vec<bool>)
    ensures
        eliminated@ == eliminated_upto(views(candidates@), n_tokens as int),
        eliminated.len() == candidates.len(),
{
    let n = candidates.len();
    let mut eliminated: Vec<bool> = vec![false; n];
    assert(eliminated@ =~= eliminated_upto(views(candidates@), 0));
    let mut token_idx: usize = 0;
    while token_idx < n_tokens
        invariant
            0 <= token_idx <= n_tokens,
            eliminated.len() == candidates.len(),
            eliminated@ == eliminated_upto(views(candidates@), token_idx as int),
        decreases n_tokens - token_idx,
    {
        eliminate_overlapping(candidates, &mut eliminated, token_idx);
        token_idx += 1;
    }
    eliminated
}

/// The matches that candidates over an utterance give. Candidates that
/// cover the same token compete there, and the best by length score stays;
/// what is left is reported if its structural score is at the threshold or
/// above. The window of each candidate must lie within the utterance.
pub fn resolve(tokens: &Vec<Token>, candidates: &Vec<Candidate>) -> (results: Vec<EntityExtraction>)
    requires
        within(views(candidates@), tokens@.len()),
    ensures
        views(results@) == extractions(token_views(tokens@), views(candidates@)),
{
    let ghost tv = token_views(tokens@);
    let ghost cv = views(candidates@);
    let eliminated = resolve_overlaps(candidates, tokens.len());

    let mut results: Vec<EntityExtraction> = Vec::new();
    let mut i: usize = 0;
    assert(views(results@) =~= extractions_upto(tv, cv, eliminated@, 0));
    while i < candidates.len()
        invariant
            0 <= i <= candidates.len(),
            eliminated.len() == candidates.len(),
            tv == token_views(tokens@),
            cv == views(candidates@),
            within(cv, tokens@.len()),
            views(results@) == extractions_upto(tv, cv, eliminated@, i as int),
        decreases candidates.len() - i,
    {
        let c = &candidates[i];
        assert(cv[i as int] == c@);
        if !eliminated[i] && c.struct_score >= ENTITY_SCORE_THRESHOLD {
            let result = EntityExtraction {
                name: c.name.clone(),
                confidence: c.struct_score,
                char_start: tokens[c.token_start].char_start,
                char_end: tokens[c.token_end].char_end,
                value: c.value.clone(),
                source: c.source.clone(),
            };
            assert(tv[c.token_start as int] == tokens@[c.token_start as int]@);
            assert(tv[c.token_end as int] == tokens@[c.token_end as int]@);
            assert(result@ == extraction_of(tv, cv[i as int]));
            let ghost old_views = views(results@);
            results.push(result);
            assert(views(results@) =~= old_views.push(result@));
        }
        i += 1;
    }
    results
}

} // verus!

//! The extraction of entities from an utterance, from its tokens to the
//! matches.
//!
//! The scores of a candidate are numbers that the library does not compute
//! itself: whoever calls hands in a function that gives, for a measure, the
//! keys of its structural score and of its length score. The library asks it
//! once for each measure and works with what it says.

use crate::candidates::all_measures;
use crate::candidates::all_measures_upto;
use crate::candidates::extract_synonym;
use crate::candidates::flatten_synonyms;
use crate::candidates::flattened;
use crate::candidates::is_measure_of;
use crate::candidates::is_synonym_text;
use crate::candidates::lemma_flattened_synonyms;
use crate::candidates::lemma_measures_of_entity;
use crate::candidates::never_matches;
use crate::candidates::scored;
use crate::candidates::spans_fit;
use crate::candidates::Candidate;
use crate::candidates::CandidateView;
use crate::candidates::Measure;
use crate::candidates::MeasureView;
use crate::definitions::EntityArray;
use crate::definitions::EntityDefinition;
use crate::definitions::EntityExtraction;
use crate::definitions::EntityView;
use crate::definitions::ExtractionArray;
use crate::definitions::ExtractionView;
use crate::definitions::StringArray;
use crate::overlap::eliminated_upto;
use crate::overlap::extractions;
use crate::overlap::is_match;
use crate::overlap::is_match_of;
use crate::overlap::lemma_matches_are_reported;
use crate::overlap::resolve;
use crate::numbers::SCORE_ONE;
use crate::text::byte_len;
use crate::text::concat;
use crate::text::lemma_concat_push;
use crate::text::views;
use crate::tokens::to_tokens;
use crate::tokens::token_views;
use crate::tokens::tokens_of;
use crate::tokens::Token;
use vstd::prelude::*;

verus! {

/// The candidates that measures give with a list of scores, each a pair of
/// the structural score and the length score.
pub open spec fn candidates_of(measures: Seq<MeasureView>, scores: Seq<(u64, u64)>) -> Seq<CandidateView> {
    Seq::new(measures.len(), |i: int| scored(measures[i], scores[i].0, scores[i].1))
}

/// The measures of an entity over an utterance given as texts: those of
/// each of its synonyms, value by value.
pub open spec fn measures(str_tokens: Seq<Seq<char>>, entity: EntityView) -> Seq<MeasureView> {
    all_measures(tokens_of(str_tokens), flattened(entity))
}

/// Whether `pair` holds the scores of the candidate of a measure: both
/// zero for a measure that never matches, and else what `score` said.
pub open spec fn is_score_of<F: Fn(&Measure) -> (u64, u64)>(score: F, measure: Measure, pair: (u64, u64)) -> bool {
    if never_matches(measure@) {
        pair == (0u64, 0u64)
    } else {
        score.ensures((&measure,), pair)
    }
}

/// Whether `scores` holds the scores of the candidate of each of `measures`.
pub open spec fn scored_by<F: Fn(&Measure) -> (u64, u64)>(
    score: F,
    measures: Seq<Measure>,
    scores: Seq<(u64, u64)>,
) -> bool {
    &&& scores.len() == measures.len()
    &&& forall|i: int| 0 <= i < measures.len() ==> is_score_of(score, measures[i], #[trigger] scores[i])
}

/// Whether `score` says the same of measures that are alike.
pub open spec fn answers_alike<F: Fn(&Measure) -> (u64, u64)>(score: F) -> bool {
    forall|m1: Measure, m2: Measure, s1: (u64, u64), s2: (u64, u64)|
        m1@ == m2@ && #[trigger] score.ensures((&m1,), s1) && #[trigger] score.ensures((&m2,), s2) ==> s1 == s2
}

/// Whether `results` is what an entity gives over an utterance: the matches
/// of the candidates made of its measures and of their scores.
pub open spec fn is_extraction<F: Fn(&Measure) -> (u64, u64)>(
    score: F,
    str_tokens: Seq<Seq<char>>,
    entity: EntityView,
    results: Seq<ExtractionView>,
) -> bool {
    exists|taken: Seq<Measure>, scores: Seq<(u64, u64)>|
        {
            &&& views(taken) == measures(str_tokens, entity)
            &&& #[trigger] scored_by(score, taken, scores)
            &&& results == extractions(tokens_of(str_tokens), candidates_of(views(taken), scores))
        }
}

/// Whether `parts` holds, for each entity of a list, what that entity gives
/// over an utterance by itself.
pub open spec fn are_extractions<F: Fn(&Measure) -> (u64, u64)>(
    score: F,
    str_tokens: Seq<Seq<char>>,
    entities: Seq<EntityView>,
    parts: Seq<Seq<ExtractionView>>,
) -> bool {
    &&& parts.len() == entities.len()
    &&& forall|k: int|
        0 <= k < entities.len() ==> is_extraction(score, str_tokens, entities[k], #[trigger] parts[k])
}

/// With a fuzzy floor of one or more, an entity gives exact matches only:
/// every match has the entity's name, and its text is that of a synonym of
/// its value.
pub proof fn lemma_exact_only<F: Fn(&Measure) -> (u64, u64)>(
    score: F,
    str_tokens: Seq<Seq<char>>,
    entity: EntityView,
    results: Seq<ExtractionView>,
)
    requires
        is_extraction(score, str_tokens, entity, results),
        entity.fuzzy >= SCORE_ONE,
    ensures
        forall|k: int|
            0 <= k < results.len() ==> (#[trigger] results[k]).name == entity.name && is_synonym_text(
                entity,
                results[k].value,
                results[k].source,
            ),
{
    let (taken, scores) = choose|taken: Seq<Measure>, scores: Seq<(u64, u64)>|
        {
            &&& views(taken) == measures(str_tokens, entity)
            &&& #[trigger] scored_by(score, taken, scores)
            &&& results == extractions(tokens_of(str_tokens), candidates_of(views(taken), scores))
        };
    let tokens = tokens_of(str_tokens);
    let candidates = candidates_of(views(taken), scores);
    let eliminated = eliminated_upto(candidates, tokens.len() as int);
    lemma_flattened_synonyms(entity, entity.values.len() as int);
    lemma_measures_of_entity(entity, tokens, flattened(entity), flattened(entity).len() as int);
    lemma_matches_are_reported(tokens, candidates, eliminated, candidates.len() as int);
    assert forall|k: int| 0 <= k < results.len() implies (#[trigger] results[k]).name == entity.name
        && is_synonym_text(entity, results[k].value, results[k].source) by {
        assert(is_match(tokens, candidates, eliminated, results[k]));
        let i = choose|i: int| #[trigger] is_match_of(tokens, candidates, eliminated, i, results[k]);
        let m = views(taken)[i];
        assert(m == taken[i]@);
        assert(is_measure_of(entity, measures(str_tokens, entity)[i]));
        assert(is_score_of(score, taken[i], scores[i]));
        assert(candidates[i].struct_score == scores[i].0);
        // a candidate with a score of zero is not reported
        assert(!never_matches(m));
        assert(m.exact);
    }
}

/// Where `score` says the same of measures that are alike, what an entity
/// gives over an utterance is one list of matches and no other.
pub proof fn lemma_extraction_is_one<F: Fn(&Measure) -> (u64, u64)>(
    score: F,
    str_tokens: Seq<Seq<char>>,
    entity: EntityView,
    first: Seq<ExtractionView>,
    second: Seq<ExtractionView>,
)
    requires
        answers_alike(score),
        is_extraction(score, str_tokens, entity, first),
        is_extraction(score, str_tokens, entity, second),
    ensures
        first == second,
{
    let (taken1, scores1) = choose|taken: Seq<Measure>, scores: Seq<(u64, u64)>|
        {
            &&& views(taken) == measures(str_tokens, entity)
            &&& #[trigger] scored_by(score, taken, scores)
            &&& first == extractions(tokens_of(str_tokens), candidates_of(views(taken), scores))
        };
    let (taken2, scores2) = choose|taken: Seq<Measure>, scores: Seq<(u64, u64)>|
        {
            &&& views(taken) == measures(str_tokens, entity)
            &&& #[trigger] scored_by(score, taken, scores)
            &&& second == extractions(tokens_of(str_tokens), candidates_of(views(taken), scores))
        };
    assert(taken1.len() == views(taken1).len());
    assert(taken2.len() == views(taken2).len());
    assert forall|i: int| 0 <= i < scores1.len() implies scores1[i] == scores2[i] by {
        assert(views(taken1)[i] == taken1[i]@);
        assert(views(taken2)[i] == taken2[i]@);
        assert(is_score_of(score, taken1[i], scores1[i]));
        assert(is_score_of(score, taken2[i], scores2[i]));
    }
    assert(scores1 =~= scores2);
}

/// Where `score` says the same of measures that are alike, what several
/// entities give over one utterance is what each gives by itself, one list
/// after the other: nothing is dropped because another entity matched the
/// same tokens.
pub proof fn lemma_multiple_is_singles<F: Fn(&Measure) -> (u64, u64)>(
    score: F,
    str_tokens: Seq<Seq<char>>,
    entities: Seq<EntityView>,
    parts: Seq<Seq<ExtractionView>>,
    singles: Seq<Seq<ExtractionView>>,
)
    requires
        answers_alike(score),
        are_extractions(score, str_tokens, entities, parts),
        are_extractions(score, str_tokens, entities, singles),
    ensures
        parts == singles,
        concat(parts) == concat(singles),
{
    assert forall|k: int| 0 <= k < parts.len() implies parts[k] == singles[k] by {
        lemma_extraction_is_one(score, str_tokens, entities[k], parts[k], singles[k]);
    }
    assert(parts =~= singles);
}

/// Measures every synonym of an entity over the tokens of an utterance.
fn measure_tokens(tokens: &Vec<Token>, entity_def: &EntityDefinition) -> (taken: Vec<Measure>)
    ensures
        views(taken@) == all_measures(token_views(tokens@), flattened(entity_def@)),
        spans_fit(views(taken@), tokens@.len()),
{
    let ghost tv = token_views(tokens@);
    let synonyms = flatten_synonyms(entity_def);
    let mut taken: Vec<Measure> = Vec::new();
    let mut i: usize = 0;
    assert(views(taken@) =~= all_measures_upto(tv, views(synonyms@), 0));
    while i < synonyms.len()
        invariant
            0 <= i <= synonyms.len(),
            tv == token_views(tokens@),
            views(synonyms@) == flattened(entity_def@),
            views(taken@) == all_measures_upto(tv, views(synonyms@), i as int),
            spans_fit(views(taken@), tokens@.len()),
        decreases synonyms.len() - i,
    {
        let mut new_measures = extract_synonym(tokens.as_slice(), &synonyms[i]);
        let ghost before = taken@;
        let ghost added = new_measures@;
        taken.append(&mut new_measures);
        assert(views(taken@) =~= views(before) + views(added));
        assert(views(synonyms@)[i as int] == synonyms@[i as int]@);
        i += 1;
    }
    taken
}

/// Measures every synonym of an entity over an utterance, where the tokens
/// of the utterance are not spaces. The texts of the utterance must together
/// have a length that fits the machine.
pub fn measure(str_tokens: &StringArray, entity_def: &EntityDefinition) -> (taken: Vec<Measure>)
    requires
        byte_len(concat(str_tokens@)) <= usize::MAX,
    ensures
        views(taken@) == measures(str_tokens@, entity_def@),
        spans_fit(views(taken@), str_tokens@.len()),
{
    let tokens = to_tokens(&str_tokens.0);
    measure_tokens(&tokens, entity_def)
}

/// Makes a candidate of each measure. A measure that never matches gives a
/// candidate with both scores at zero, and `score` is not asked; for every
/// other measure the scores are what `score` gives it.
fn score_all<F: Fn(&Measure) -> (u64, u64)>(taken: &Vec<Measure>, score: &F) -> (r: (
    Vec<Candidate>,
    Ghost<Seq<(u64, u64)>>,
))
    requires
        forall|m: &Measure| score.requires((m,)),
    ensures
        scored_by(*score, taken@, r.1@),
        views(r.0@) == candidates_of(views(taken@), r.1@),
{
    let mut candidates: Vec<Candidate> = Vec::new();
    let ghost mut scores: Seq<(u64, u64)> = Seq::empty();
    let mut i: usize = 0;
    while i < taken.len()
        invariant
            0 <= i <= taken.len(),
            forall|m: &Measure| score.requires((m,)),
            scores.len() == i,
            candidates.len() == i,
            forall|k: int| 0 <= k < i ==> is_score_of(*score, taken@[k], #[trigger] scores[k]),
            forall|k: int|
                0 <= k < i ==> (#[trigger] candidates@[k])@ == scored(taken@[k]@, scores[k].0, scores[k].1),
        decreases taken.len() - i,
    {
        let pair: (u64, u64) = if taken[i].never_matches() {
            (0, 0)
        } else {
            score(&taken[i])
        };
        let candidate = taken[i].candidate(pair.0, pair.1);
        candidates.push(candidate);
        proof {
            scores = scores.push(pair);
        }
        i += 1;
    }
    assert(views(candidates@) =~= candidates_of(views(taken@), scores));
    (candidates, Ghost(scores))
}

/// The matches of an entity over an utterance: its synonyms are measured at
/// every token, each measure becomes a candidate with two scores, candidates
/// that cover the same token compete, and the survivors with a structural
/// score at the threshold or above are reported. The scores of a measure
/// that never matches are zero; those of every other measure are asked of
/// `score`.
pub fn extract<F: Fn(&Measure) -> (u64, u64)>(
    str_tokens: &StringArray,
    entity_def: &EntityDefinition,
    score: &F,
) -> (results: Vec<EntityExtraction>)
    requires
        byte_len(concat(str_tokens@)) <= usize::MAX,
        forall|m: &Measure| score.requires((m,)),
    ensures
        is_extraction(*score, str_tokens@, entity_def@, views(results@)),
{
    let utt_tokens = to_tokens(&str_tokens.0);
    let taken = measure_tokens(&utt_tokens, entity_def);
    let (candidates, Ghost(scores)) = score_all(&taken, score);
    let results = resolve(&utt_tokens, &candidates);
    assert(scored_by(*score, taken@, scores));
    results
}

/// The matches of one entity over an utterance.
pub fn extract_single<F: Fn(&Measure) -> (u64, u64)>(
    str_tokens: StringArray,
    entity_def: EntityDefinition,
    score: F,
) -> (results: ExtractionArray)
    requires
        byte_len(concat(str_tokens@)) <= usize::MAX,
        forall|m: &Measure| score.requires((m,)),
    ensures
        is_extraction(score, str_tokens@, entity_def@, results@),
{
    let results = extract(&str_tokens, &entity_def, &score);
    ExtractionArray::from(results)
}

/// The matches of several entities over one utterance: those of the first
/// entity, then those of the second, and so on. Each entity is taken by
/// itself: matches of different entities may cover the same tokens.
pub fn extract_multiple<F: Fn(&Measure) -> (u64, u64)>(
    str_tokens: StringArray,
    entity_defs: EntityArray,
    score: F,
) -> (results: ExtractionArray)
    requires
        byte_len(concat(str_tokens@)) <= usize::MAX,
        forall|m: &Measure| score.requires((m,)),
    ensures
        exists|parts: Seq<Seq<ExtractionView>>|
            #[trigger] are_extractions(score, str_tokens@, entity_defs@, parts) && results@ == concat(parts),
{
    let mut results: Vec<EntityExtraction> = Vec::new();
    let ghost mut parts: Seq<Seq<ExtractionView>> = Seq::empty();
    let mut i: usize = 0;
    assert(views(results@) =~= concat(parts));
    while i < entity_defs.0.len()
        invariant
            0 <= i <= entity_defs.0.len(),
            byte_len(concat(str_tokens@)) <= usize::MAX,
            forall|m: &Measure| score.requires((m,)),
            parts.len() == i,
            forall|k: int|
                0 <= k < i ==> is_extraction(score, str_tokens@, entity_defs@[k], #[trigger] parts[k]),
            views(results@) == concat(parts),
        decreases entity_defs.0.len() - i,
    {
        let mut entity_results = extract(&str_tokens, &entity_defs.0[i], &score);
        let ghost before = results@;
        let ghost added = entity_results@;
        results.append(&mut entity_results);
        proof {
            assert(views(results@) =~= views(before) + views(added));
            lemma_concat_push(parts, views(added));
            assert(entity_defs@[i as int] == entity_defs.0@[i as int]@);
            parts = parts.push(views(added));
        }
        i += 1;
    }
    assert(are_extractions(score, str_tokens@, entity_defs@, parts));
    ExtractionArray::from(results)
}

} // verus!

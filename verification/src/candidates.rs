//! Candidates: what a synonym is worth at each place of an utterance.
//!
//! For every synonym and every token that is not a space, the window of
//! tokens from that token on that comes closest to the synonym's length is
//! measured against the synonym. From a measure and two scores a candidate is
//! made.

use crate::definitions::EntityDefinition;
use crate::definitions::EntityView;
use crate::definitions::ValueView;
use crate::numbers::SCORE_ONE;
use crate::scores::compute_exact_score;
use crate::scores::compute_fuzzy_score;
use crate::scores::compute_structural_score;
use crate::scores::fuzzy_score;
use crate::scores::structural_score;
use crate::scores::FuzzyParts;
use crate::scores::FuzzyView;
use crate::scores::StructuralParts;
use crate::scores::StructuralView;
use crate::text::byte_len;
use crate::text::concat;
use crate::text::copy_strings;
use crate::text::join;
use crate::text::lowercase_all;
use crate::text::lowered;
use crate::text::string_len;
use crate::text::texts;
use crate::text::views;
use crate::tokens::take_until;
use crate::tokens::token_views;
use crate::tokens::window_len;
use crate::tokens::Token;
use crate::tokens::TokenView;
use vstd::prelude::*;

verus! {

/// A synonym with what it belongs to: the entity's name and fuzzy floor, the
/// value, and the byte length of the longest synonym of that value.
#[derive(Debug)]
pub struct FlatSynonym {
    pub name: String,
    pub fuzzy: u64,
    pub value: String,
    pub tokens: Vec<String>,
    pub max_synonym_len: usize,
}

/// The mathematical counterpart of [`FlatSynonym`].
pub struct FlatSynonymView {
    pub name: Seq<char>,
    pub fuzzy: u64,
    pub value: Seq<char>,
    pub tokens: Seq<Seq<char>>,
    pub max_synonym_len: nat,
}

impl View for FlatSynonym {
    type V = FlatSynonymView;

    open spec fn view(&self) -> FlatSynonymView {
        FlatSynonymView {
            name: self.name@,
            fuzzy: self.fuzzy,
            value: self.value@,
            tokens: texts(self.tokens@),
            max_synonym_len: self.max_synonym_len as nat,
        }
    }
}

/// The byte length of the longest of a list of synonyms, zero if there is none.
pub open spec fn longest(synonyms: Seq<Seq<Seq<char>>>) -> nat
    decreases synonyms.len(),
{
    if synonyms.len() == 0 {
        0
    } else if byte_len(concat(synonyms.last())) > longest(synonyms.drop_last()) {
        byte_len(concat(synonyms.last()))
    } else {
        longest(synonyms.drop_last())
    }
}

/// The synonyms of one value, each with what it belongs to.
pub open spec fn flat_value(entity: EntityView, value: ValueView) -> Seq<FlatSynonymView> {
    Seq::new(
        value.synonyms.len(),
        |j: int|
            FlatSynonymView {
                name: entity.name,
                fuzzy: entity.fuzzy,
                value: value.name,
                tokens: value.synonyms[j],
                max_synonym_len: longest(value.synonyms),
            },
    )
}

/// The synonyms of the first `k` values of an entity.
pub open spec fn flattened_upto(entity: EntityView, k: int) -> Seq<FlatSynonymView>
    decreases k,
{
    if k <= 0 {
        Seq::empty()
    } else {
        flattened_upto(entity, k - 1) + flat_value(entity, entity.values[k - 1])
    }
}

/// All synonyms of an entity, value by value.
pub open spec fn flattened(entity: EntityView) -> Seq<FlatSynonymView> {
    flattened_upto(entity, entity.values.len() as int)
}

/// What was measured of one synonym at one place of an utterance.
///
/// The scores of the candidate follow from it. Where a fuzzy match does
/// not count and the match is not exact, both are zero. Else the fuzzy score
/// is the mean that `fuzzy` describes. The factor is the one that `used_factor` names
/// for that fuzzy score. The structural score of the candidate is the factor
/// times the number that `structural` describes, and its length score is
/// that product times the fifth root of `used_length`.
#[derive(Debug)]
pub struct Measure {
    /// The first token of the window.
    pub token_start: usize,
    /// The last token of the window.
    pub token_end: usize,
    /// The entity.
    pub name: String,
    /// The canonical value.
    pub value: String,
    /// The text of the window.
    pub source: String,
    /// Whether the text of the window is that of the synonym.
    pub exact: bool,
    /// Whether a fuzzy match counts: the entity allows it and the window has four bytes or more.
    pub is_fuzzy: bool,
    /// The key of the least fuzzy score that counts.
    pub fuzzy_floor: u64,
    /// The fuzzy score of window and synonym, both in lower case.
    pub fuzzy: FuzzyParts,
    /// The structural score of window and synonym.
    pub structural: StructuralParts,
    /// The byte length of the window, or that of the longest synonym of the value if that is less.
    pub used_length: usize,
}

/// The mathematical counterpart of [`Measure`].
pub struct MeasureView {
    pub token_start: nat,
    pub token_end: nat,
    pub name: Seq<char>,
    pub value: Seq<char>,
    pub source: Seq<char>,
    pub exact: bool,
    pub is_fuzzy: bool,
    pub fuzzy_floor: u64,
    pub fuzzy: FuzzyView,
    pub structural: StructuralView,
    pub used_length: nat,
}

impl View for Measure {
    type V = MeasureView;

    open spec fn view(&self) -> MeasureView {
        MeasureView {
            token_start: self.token_start as nat,
            token_end: self.token_end as nat,
            name: self.name@,
            value: self.value@,
            source: self.source@,
            exact: self.exact,
            is_fuzzy: self.is_fuzzy,
            fuzzy_floor: self.fuzzy_floor,
            fuzzy: self.fuzzy@,
            structural: self.structural@,
            used_length: self.used_length as nat,
        }
    }
}

/// The number by which the structural score of a window is multiplied.
#[derive(Clone, Copy, Debug, PartialEq, Eq)]
pub enum Factor {
    /// Zero: the window does not match.
    Zero,
    /// One: the window matches exactly.
    One,
    /// The fuzzy score.
    Fuzzy,
}

/// The factor of a measure whose fuzzy score has the given key. Where a
/// fuzzy match counts, it is the fuzzy score if that reaches the floor, and
/// zero if not. Where it does not count, it is one for an exact match and
/// zero otherwise.
pub open spec fn used_factor(measure: MeasureView, fuzzy_score: u64) -> Factor {
    if measure.is_fuzzy {
        if fuzzy_score >= measure.fuzzy_floor {
            Factor::Fuzzy
        } else {
            Factor::Zero
        }
    } else if measure.exact {
        Factor::One
    } else {
        Factor::Zero
    }
}

/// Whether the factor of a measure is zero whatever its fuzzy score is: a
/// fuzzy match does not count, and the match is not exact. The scores of its
/// candidate are then zero.
pub open spec fn never_matches(measure: MeasureView) -> bool {
    !measure.is_fuzzy && !measure.exact
}

/// A match of one synonym at one place of an utterance, with its scores as
/// keys. `length_score` is the structural score raised for longer matches.
#[derive(Debug)]
pub struct Candidate {
    pub struct_score: u64,
    pub length_score: u64,
    pub token_start: usize,
    pub token_end: usize,
    pub name: String,
    pub value: String,
    pub source: String,
}

/// The mathematical counterpart of [`Candidate`].
pub struct CandidateView {
    pub struct_score: u64,
    pub length_score: u64,
    pub token_start: nat,
    pub token_end: nat,
    pub name: Seq<char>,
    pub value: Seq<char>,
    pub source: Seq<char>,
}

impl View for Candidate {
    type V = CandidateView;

    open spec fn view(&self) -> CandidateView {
        CandidateView {
            struct_score: self.struct_score,
            length_score: self.length_score,
            token_start: self.token_start as nat,
            token_end: self.token_end as nat,
            name: self.name@,
            value: self.value@,
            source: self.source@,
        }
    }
}

/// The candidate that a measure gives with two scores.
pub open spec fn scored(measure: MeasureView, struct_score: u64, length_score: u64) -> CandidateView {
    CandidateView {
        struct_score,
        length_score,
        token_start: measure.token_start,
        token_end: measure.token_end,
        name: measure.name,
        value: measure.value,
        source: measure.source,
    }
}

impl Measure {
    /// The factor to use, given the key of the fuzzy score.
    pub fn used_factor(&self, fuzzy_score: u64) -> (r: Factor)
        ensures
            r == used_factor(self@, fuzzy_score),
    {
        if self.is_fuzzy {
            if fuzzy_score >= self.fuzzy_floor {
                Factor::Fuzzy
            } else {
                Factor::Zero
            }
        } else if self.exact {
            Factor::One
        } else {
            Factor::Zero
        }
    }

    /// Whether the factor is zero whatever the fuzzy score is.
    pub fn never_matches(&self) -> (r: bool)
        ensures
            r == never_matches(self@),
            r ==> forall|fuzzy_score: u64| used_factor(self@, fuzzy_score) == Factor::Zero,
    {
        !self.is_fuzzy && !self.exact
    }

    /// The candidate with the given scores.
    pub fn candidate(&self, struct_score: u64, length_score: u64) -> (r: Candidate)
        ensures
            r@ == scored(self@, struct_score, length_score),
    {
        Candidate {
            struct_score,
            length_score,
            token_start: self.token_start,
            token_end: self.token_end,
            name: self.name.clone(),
            value: self.value.clone(),
            source: self.source.clone(),
        }
    }
}

/// The texts of `n` tokens from `start` on.
pub open spec fn window_texts(tokens: Seq<TokenView>, start: int, n: int) -> Seq<Seq<char>> {
    Seq::new(n as nat, |k: int| tokens[start + k].value)
}

/// What is measured of a synonym at token `i`, where the window is not empty.
pub open spec fn measure_at(tokens: Seq<TokenView>, synonym: FlatSynonymView, i: int) -> MeasureView {
    let n = window_len(tokens, i, byte_len(concat(synonym.tokens)) as int);
    let window = window_texts(tokens, i, n);
    let source = concat(window);
    MeasureView {
        token_start: i as nat,
        token_end: (i + n - 1) as nat,
        name: synonym.name,
        value: synonym.value,
        source,
        exact: source == concat(synonym.tokens) && source.len() > 0,
        is_fuzzy: synonym.fuzzy < SCORE_ONE && byte_len(source) >= 4,
        fuzzy_floor: synonym.fuzzy,
        fuzzy: fuzzy_score(concat(lowered(window)), concat(lowered(synonym.tokens))),
        structural: structural_score(window, synonym.tokens),
        used_length: if byte_len(source) <= synonym.max_synonym_len {
            byte_len(source)
        } else {
            synonym.max_synonym_len
        },
    }
}

/// Whether a measure is taken at token `i`: the token is no space, and the
/// window from it is not empty (it is empty where the synonym has no text).
pub open spec fn measured_at(tokens: Seq<TokenView>, synonym: FlatSynonymView, i: int) -> bool {
    !tokens[i].is_space && window_len(tokens, i, byte_len(concat(synonym.tokens)) as int) > 0
}

/// The measures of a synonym at the first `k` tokens, in order.
pub open spec fn measures_upto(tokens: Seq<TokenView>, synonym: FlatSynonymView, k: int) -> Seq<MeasureView>
    decreases k,
{
    if k <= 0 {
        Seq::empty()
    } else if measured_at(tokens, synonym, k - 1) {
        measures_upto(tokens, synonym, k - 1).push(measure_at(tokens, synonym, k - 1))
    } else {
        measures_upto(tokens, synonym, k - 1)
    }
}

/// The measures of a synonym over an utterance.
pub open spec fn measures_of(tokens: Seq<TokenView>, synonym: FlatSynonymView) -> Seq<MeasureView> {
    measures_upto(tokens, synonym, tokens.len() as int)
}

/// The measures of the first `k` of a list of synonyms, synonym by synonym.
pub open spec fn all_measures_upto(tokens: Seq<TokenView>, synonyms: Seq<FlatSynonymView>, k: int) -> Seq<
    MeasureView,
>
    decreases k,
{
    if k <= 0 {
        Seq::empty()
    } else {
        all_measures_upto(tokens, synonyms, k - 1) + measures_of(tokens, synonyms[k - 1])
    }
}

/// The measures of a list of synonyms over an utterance.
pub open spec fn all_measures(tokens: Seq<TokenView>, synonyms: Seq<FlatSynonymView>) -> Seq<MeasureView> {
    all_measures_upto(tokens, synonyms, synonyms.len() as int)
}

/// Whether the window of each measure lies within `n` tokens.
pub open spec fn spans_fit(measures: Seq<MeasureView>, n: nat) -> bool {
    forall|k: int| 0 <= k < measures.len() ==> (#[trigger] measures[k]).token_start <= measures[k].token_end < n
}

/// Whether a text is that of a synonym of the value of that name.
pub open spec fn is_synonym_text(entity: EntityView, value: Seq<char>, text: Seq<char>) -> bool {
    exists|v: int, s: int|
        0 <= v < entity.values.len() && 0 <= s < entity.values[v].synonyms.len() && entity.values[v].name
            == value && concat(#[trigger] entity.values[v].synonyms[s]) == text
}

/// Whether a synonym is one of an entity: it has the entity's name and fuzzy
/// floor, and its text is that of a synonym of its value.
pub open spec fn is_synonym_of(entity: EntityView, synonym: FlatSynonymView) -> bool {
    &&& synonym.name == entity.name
    &&& synonym.fuzzy == entity.fuzzy
    &&& is_synonym_text(entity, synonym.value, concat(synonym.tokens))
}

/// Whether a measure can be one of an entity: it has the entity's name and
/// fuzzy floor, a fuzzy match counts only under a floor below one, and if it
/// is exact, its text is that of a synonym of its value.
pub open spec fn is_measure_of(entity: EntityView, measure: MeasureView) -> bool {
    &&& measure.name == entity.name
    &&& measure.fuzzy_floor == entity.fuzzy
    &&& measure.is_fuzzy ==> entity.fuzzy < SCORE_ONE
    &&& measure.exact ==> is_synonym_text(entity, measure.value, measure.source)
}

/// The synonyms listed for an entity are synonyms of that entity.
pub proof fn lemma_flattened_synonyms(entity: EntityView, k: int)
    requires
        0 <= k <= entity.values.len(),
    ensures
        forall|j: int|
            0 <= j < flattened_upto(entity, k).len() ==> is_synonym_of(entity, #[trigger] flattened_upto(entity, k)[j]),
    decreases k,
{
    if k > 0 {
        lemma_flattened_synonyms(entity, k - 1);
        let before = flattened_upto(entity, k - 1);
        let value = entity.values[k - 1];
        assert forall|j: int| 0 <= j < flattened_upto(entity, k).len() implies is_synonym_of(
            entity,
            #[trigger] flattened_upto(entity, k)[j],
        ) by {
            if j >= before.len() {
                let s = j - before.len();
                let f = flat_value(entity, value)[s];
                assert(flattened_upto(entity, k)[j] == f);
                assert(concat(entity.values[k - 1].synonyms[s]) == concat(f.tokens));
            } else {
                assert(flattened_upto(entity, k)[j] == before[j]);
            }
        }
    }
}

/// The measures of a synonym of an entity are measures of that entity.
pub proof fn lemma_measures_of_synonym(entity: EntityView, tokens: Seq<TokenView>, synonym: FlatSynonymView, k: int)
    requires
        is_synonym_of(entity, synonym),
    ensures
        forall|j: int|
            0 <= j < measures_upto(tokens, synonym, k).len() ==> is_measure_of(
                entity,
                #[trigger] measures_upto(tokens, synonym, k)[j],
            ),
    decreases k,
{
    if k > 0 {
        lemma_measures_of_synonym(entity, tokens, synonym, k - 1);
        let before = measures_upto(tokens, synonym, k - 1);
        assert forall|j: int| 0 <= j < measures_upto(tokens, synonym, k).len() implies is_measure_of(
            entity,
            #[trigger] measures_upto(tokens, synonym, k)[j],
        ) by {
            if j >= before.len() {
                let m = measure_at(tokens, synonym, k - 1);
                assert(measures_upto(tokens, synonym, k)[j] == m);
                if m.exact {
                    assert(m.source == concat(synonym.tokens));
                }
            } else {
                assert(measures_upto(tokens, synonym, k)[j] == before[j]);
            }
        }
    }
}

/// The measures of the synonyms of an entity are measures of that entity.
pub proof fn lemma_measures_of_entity(entity: EntityView, tokens: Seq<TokenView>, synonyms: Seq<FlatSynonymView>, k: int)
    requires
        0 <= k <= synonyms.len(),
        forall|j: int| 0 <= j < synonyms.len() ==> is_synonym_of(entity, #[trigger] synonyms[j]),
    ensures
        forall|j: int|
            0 <= j < all_measures_upto(tokens, synonyms, k).len() ==> is_measure_of(
                entity,
                #[trigger] all_measures_upto(tokens, synonyms, k)[j],
            ),
    decreases k,
{
    if k > 0 {
        lemma_measures_of_entity(entity, tokens, synonyms, k - 1);
        lemma_measures_of_synonym(entity, tokens, synonyms[k - 1], tokens.len() as int);
        let before = all_measures_upto(tokens, synonyms, k - 1);
        let added = measures_of(tokens, synonyms[k - 1]);
        assert forall|j: int| 0 <= j < all_measures_upto(tokens, synonyms, k).len() implies is_measure_of(
            entity,
            #[trigger] all_measures_upto(tokens, synonyms, k)[j],
        ) by {
            if j >= before.len() {
                assert(all_measures_upto(tokens, synonyms, k)[j] == added[j - before.len()]);
            } else {
                assert(all_measures_upto(tokens, synonyms, k)[j] == before[j]);
            }
        }
    }
}

/// The byte length of the longest synonym of a value.
fn longest_synonym(synonyms: &Vec<crate::definitions::SynonymDefinition>) -> (r: usize)
    ensures
        r == longest(views(synonyms@)),
{
    let mut r: usize = 0;
    let mut j: usize = 0;
    assert(views(synonyms@).take(0) =~= Seq::<Seq<Seq<char>>>::empty());
    while j < synonyms.len()
        invariant
            0 <= j <= synonyms.len(),
            r == longest(views(synonyms@).take(j as int)),
        decreases synonyms.len() - j,
    {
        let joined = join(synonyms[j].tokens.0.as_slice());
        let len = string_len(&joined);
        assert(views(synonyms@).take(j + 1).drop_last() =~= views(synonyms@).take(j as int));
        if len > r {
            r = len;
        }
        j += 1;
    }
    assert(views(synonyms@).take(synonyms.len() as int) =~= views(synonyms@));
    r
}

/// The synonyms of an entity, value by value, each with the entity's name
/// and fuzzy floor, its value, and the length of the value's longest synonym.
pub fn flatten_synonyms(list_model: &EntityDefinition) -> (flattened: Vec<FlatSynonym>)
    ensures
        views(flattened@) == self::flattened(list_model@),
{
    let mut flattened: Vec<FlatSynonym> = Vec::new();
    let ghost entity = list_model@;
    let mut i: usize = 0;
    assert(views(flattened@) =~= flattened_upto(entity, 0));
    while i < list_model.values.0.len()
        invariant
            0 <= i <= list_model.values.0.len(),
            entity == list_model@,
            views(flattened@) == flattened_upto(entity, i as int),
        decreases list_model.values.0.len() - i,
    {
        let value = &list_model.values.0[i];
        let max_synonym_len = longest_synonym(&value.synonyms.0);
        let ghost before = views(flattened@);
        assert(entity.values[i as int] == value@);
        let mut j: usize = 0;
        while j < value.synonyms.0.len()
            invariant
                0 <= j <= value.synonyms.0.len(),
                entity == list_model@,
                max_synonym_len == longest(value@.synonyms),
                views(flattened@) == before + flat_value(entity, value@).take(j as int),
            decreases value.synonyms.0.len() - j,
        {
            let synonym = &value.synonyms.0[j];
            let ghost old_views = views(flattened@);
            let flat = FlatSynonym {
                name: list_model.name.clone(),
                fuzzy: list_model.fuzzy,
                value: value.name.clone(),
                tokens: copy_strings(synonym.tokens.0.as_slice()),
                max_synonym_len,
            };
            assert(flat@ == flat_value(entity, value@)[j as int]);
            flattened.push(flat);
            assert(views(flattened@) =~= old_views.push(flat@));
            assert(before + flat_value(entity, value@).take(j + 1) =~= (before + flat_value(entity, value@).take(
                j as int,
            )).push(flat@));
            j += 1;
        }
        assert(flat_value(entity, value@).take(value.synonyms.0.len() as int) =~= flat_value(entity, value@));
        i += 1;
    }
    flattened
}

/// The texts of a window of tokens.
fn values_of(window: &Vec<Token>) -> (r: Vec<String>)
    ensures
        r.len() == window.len(),
        forall|k: int| 0 <= k < r.len() ==> (#[trigger] r@[k])@ == window@[k].value@,
{
    let mut r: Vec<String> = Vec::new();
    let mut k: usize = 0;
    while k < window.len()
        invariant
            0 <= k <= window.len(),
            r.len() == k,
            forall|m: int| 0 <= m < k ==> (#[trigger] r@[m])@ == window@[m].value@,
        decreases window.len() - k,
    {
        r.push(window[k].value.clone());
        k += 1;
    }
    r
}

/// Measures a synonym at every token of an utterance that is not a space:
/// the window from that token that comes closest to the synonym's length is
/// held against the synonym. A synonym without text has no window anywhere
/// and gives no measure.
pub fn extract_synonym(tokens: &[Token], synonym: &FlatSynonym) -> (measures: Vec<Measure>)
    ensures
        views(measures@) == measures_of(token_views(tokens@), synonym@),
        spans_fit(views(measures@), tokens@.len()),
{
    let ghost tv = token_views(tokens@);
    let mut measures: Vec<Measure> = Vec::new();
    let synonym_str = join(synonym.tokens.as_slice());
    let wanted = string_len(&synonym_str);
    let lowered_synonym = lowercase_all(synonym.tokens.as_slice());

    let mut token_idx: usize = 0;
    assert(views(measures@) =~= measures_upto(tv, synonym@, 0));
    while token_idx < tokens.len()
        invariant
            0 <= token_idx <= tokens.len(),
            tv == token_views(tokens@),
            synonym_str@ == concat(texts(synonym.tokens@)),
            wanted == byte_len(synonym_str@),
            texts(lowered_synonym@) == lowered(texts(synonym.tokens@)),
            views(measures@) == measures_upto(tv, synonym@, token_idx as int),
            spans_fit(views(measures@), tokens@.len()),
        decreases tokens.len() - token_idx,
    {
        assert(tv[token_idx as int].is_space == tokens@[token_idx as int].is_space);
        if !tokens[token_idx].is_space {
            let window = take_until(tokens, token_idx, wanted);
            let n = window.len();
            if n > 0 {
                let workset = values_of(&window);
                assert(texts(workset@) =~= window_texts(tv, token_idx as int, n as int));
                let source = join(workset.as_slice());
                let source_len = string_len(&source);
                let is_fuzzy = synonym.fuzzy < SCORE_ONE && source_len >= 4;
                let exact = compute_exact_score(workset.as_slice(), synonym.tokens.as_slice()).is_one();
                let lowered_workset = lowercase_all(workset.as_slice());
                let fuzzy = compute_fuzzy_score(lowered_workset.as_slice(), lowered_synonym.as_slice());
                let structural = compute_structural_score(workset.as_slice(), synonym.tokens.as_slice());
                let used_length = if source_len <= synonym.max_synonym_len {
                    source_len
                } else {
                    synonym.max_synonym_len
                };
                let measure = Measure {
                    token_start: token_idx,
                    token_end: token_idx + n - 1,
                    name: synonym.name.clone(),
                    value: synonym.value.clone(),
                    source,
                    exact,
                    is_fuzzy,
                    fuzzy_floor: synonym.fuzzy,
                    fuzzy,
                    structural,
                    used_length,
                };
                assert(measure@ == measure_at(tv, synonym@, token_idx as int));
                let ghost old_views = views(measures@);
                measures.push(measure);
                assert(views(measures@) =~= old_views.push(measure@));
            }
        }
        token_idx += 1;
    }
    measures
}

} // verus!

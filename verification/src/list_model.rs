//! An entity given as a list of values, each with its synonyms, and the
//! extraction over such a list.

use crate::candidates::Measure;
use crate::definitions::EntityDefinition;
use crate::definitions::EntityExtraction;
use crate::definitions::EntityView;
use crate::definitions::ExtractionView;
use crate::definitions::StringArray;
use crate::definitions::SynonymArray;
use crate::definitions::SynonymDefinition;
use crate::definitions::ValueArray;
use crate::definitions::ValueDefinition;
use crate::definitions::ValueView;
use crate::engine::extract;
use crate::engine::is_extraction;
use crate::text::byte_len;
use crate::text::concat;
use crate::text::copy_strings;
use crate::text::texts;
use crate::text::views;
use vstd::prelude::*;

verus! {

/// An entity whose values are listed with the token lists of their synonyms.
/// The values are taken in the order of the list, and no two of them have
/// the same name (`distinct_values`). `fuzzy` is the key of the least fuzzy
/// score with which a window matches.
#[derive(Debug)]
pub struct ListEntityModel {
    pub name: String,
    pub fuzzy: u64,
    pub tokens: Vec<(String, Vec<Vec<String>>)>,
}

/// Whether no two values of a list have the same name.
pub open spec fn distinct_values(tokens: Seq<(String, Vec<Vec<String>>)>) -> bool {
    forall|i: int, j: int| 0 <= i < j < tokens.len() ==> (#[trigger] tokens[i]).0@ != (#[trigger] tokens[j]).0@
}

/// The synonyms of a value as lists of texts.
pub open spec fn synonym_texts(synonyms: Seq<Vec<String>>) -> Seq<Seq<Seq<char>>> {
    Seq::new(synonyms.len(), |j: int| texts(synonyms[j]@))
}

/// The values of a list model.
pub open spec fn value_views(tokens: Seq<(String, Vec<Vec<String>>)>) -> Seq<ValueView> {
    Seq::new(tokens.len(), |i: int| ValueView { name: tokens[i].0@, synonyms: synonym_texts(tokens[i].1@) })
}

impl View for ListEntityModel {
    type V = EntityView;

    open spec fn view(&self) -> EntityView {
        EntityView { name: self.name@, fuzzy: self.fuzzy, values: value_views(self.tokens@) }
    }
}

impl ListEntityModel {
    /// Whether no two values have the same name.
    pub fn has_distinct_values(&self) -> (r: bool)
        ensures
            r == distinct_values(self.tokens@),
    {
        let mut j: usize = 0;
        while j < self.tokens.len()
            invariant
                0 <= j <= self.tokens.len(),
                forall|a: int, b: int|
                    0 <= a < b < j ==> (#[trigger] self.tokens@[a]).0@ != (#[trigger] self.tokens@[b]).0@,
            decreases self.tokens.len() - j,
        {
            let mut i: usize = 0;
            while i < j
                invariant
                    0 <= i <= j < self.tokens.len(),
                    forall|a: int| 0 <= a < i ==> (#[trigger] self.tokens@[a]).0@ != self.tokens@[j as int].0@,
                decreases j - i,
            {
                if self.tokens[i].0 == self.tokens[j].0 {
                    return false;
                }
                i += 1;
            }
            j += 1;
        }
        true
    }
}

/// A match found over a list model.
#[derive(Debug)]
pub struct ListEntityExtraction {
    pub name: String,
    pub confidence: u64,
    pub value: String,
    pub source: String,
    pub char_start: usize,
    pub char_end: usize,
}

impl View for ListEntityExtraction {
    type V = ExtractionView;

    open spec fn view(&self) -> ExtractionView {
        ExtractionView {
            name: self.name@,
            confidence: self.confidence,
            char_start: self.char_start as nat,
            char_end: self.char_end as nat,
            value: self.value@,
            source: self.source@,
        }
    }
}

/// The synonyms of a value as definitions.
fn synonyms_of(synonyms: &Vec<Vec<String>>) -> (r: SynonymArray)
    ensures
        r@ == synonym_texts(synonyms@),
{
    let mut list: Vec<SynonymDefinition> = Vec::new();
    let mut j: usize = 0;
    while j < synonyms.len()
        invariant
            0 <= j <= synonyms.len(),
            list.len() == j,
            forall|k: int| 0 <= k < j ==> (#[trigger] list@[k])@ == texts(synonyms@[k]@),
        decreases synonyms.len() - j,
    {
        let tokens = StringArray::from(copy_strings(synonyms[j].as_slice()));
        list.push(SynonymDefinition::new(tokens));
        j += 1;
    }
    let r = SynonymArray::from(list);
    r
}

/// The entity that a list model defines.
fn entity_of(list_model: &ListEntityModel) -> (r: EntityDefinition)
    ensures
        r@ == list_model@,
{
    let mut list: Vec<ValueDefinition> = Vec::new();
    let mut i: usize = 0;
    while i < list_model.tokens.len()
        invariant
            0 <= i <= list_model.tokens.len(),
            list.len() == i,
            forall|k: int|
                0 <= k < i ==> (#[trigger] list@[k])@ == (ValueView {
                    name: list_model.tokens@[k].0@,
                    synonyms: synonym_texts(list_model.tokens@[k].1@),
                }),
        decreases list_model.tokens.len() - i,
    {
        let entry = &list_model.tokens[i];
        let synonyms = synonyms_of(&entry.1);
        list.push(ValueDefinition::new(entry.0.clone(), synonyms));
        i += 1;
    }
    let values = ValueArray::from(list);
    assert(values@ =~= value_views(list_model.tokens@));
    EntityDefinition::new(list_model.name.clone(), list_model.fuzzy, values)
}

/// The matches of a list model over an utterance, found as `extract` finds
/// those of an entity. The values of the model must have names of their own.
pub fn extract_for_list_model<F: Fn(&Measure) -> (u64, u64)>(
    str_tokens: Vec<String>,
    list_model: ListEntityModel,
    score: F,
) -> (results: Vec<ListEntityExtraction>)
    requires
        byte_len(concat(texts(str_tokens@))) <= usize::MAX,
        distinct_values(list_model.tokens@),
        forall|m: &Measure| score.requires((m,)),
    ensures
        is_extraction(score, texts(str_tokens@), list_model@, views(results@)),
{
    let entity = entity_of(&list_model);
    let utterance = StringArray::from(str_tokens);
    let found: Vec<EntityExtraction> = extract(&utterance, &entity, &score);
    let mut results: Vec<ListEntityExtraction> = Vec::new();
    let mut i: usize = 0;
    while i < found.len()
        invariant
            0 <= i <= found.len(),
            results.len() == i,
            forall|k: int| 0 <= k < i ==> (#[trigger] results@[k])@ == found@[k]@,
        decreases found.len() - i,
    {
        let r = &found[i];
        results.push(
            ListEntityExtraction {
                name: r.name.clone(),
                confidence: r.confidence,
                value: r.value.clone(),
                source: r.source.clone(),
                char_start: r.char_start,
                char_end: r.char_end,
            },
        );
        i += 1;
    }
    assert(views(results@) =~= views(found@));
    results
}

} // verus!

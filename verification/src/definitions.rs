//! What a caller defines and what it gets back: entities with their values
//! and synonyms, and the matches found.

use crate::text::texts;
use crate::text::views;
use vstd::prelude::*;

verus! {

/// A list of strings: the tokens of an utterance, or those of a synonym.
#[derive(Clone)]
pub struct StringArray(pub Vec<String>);

impl View for StringArray {
    type V = Seq<Seq<char>>;

    open spec fn view(&self) -> Seq<Seq<char>> {
        texts(self.0@)
    }
}

impl StringArray {
    pub fn new() -> (r: StringArray)
        ensures
            r@ == Seq::<Seq<char>>::empty(),
    {
        let r = StringArray(Vec::new());
        r
    }

    pub fn push(&mut self, s: String)
        ensures
            final(self)@ == old(self)@.push(s@),
    {
        self.0.push(s);
    }

    pub fn from(vec: Vec<String>) -> (r: StringArray)
        ensures
            r@ == texts(vec@),
            r.0 == vec,
    {
        StringArray(vec)
    }
}

/// One way of writing a value: tokens whose texts in a row are the phrase
/// to look for.
#[derive(Clone)]
pub struct SynonymDefinition {
    pub tokens: StringArray,
}

impl View for SynonymDefinition {
    type V = Seq<Seq<char>>;

    open spec fn view(&self) -> Seq<Seq<char>> {
        self.tokens@
    }
}

impl SynonymDefinition {
    pub fn new(tokens: StringArray) -> (r: Self)
        ensures
            r@ == tokens@,
            r.tokens == tokens,
    {
        Self { tokens }
    }
}

/// A list of synonyms.
#[derive(Clone)]
pub struct SynonymArray(pub Vec<SynonymDefinition>);

impl View for SynonymArray {
    type V = Seq<Seq<Seq<char>>>;

    open spec fn view(&self) -> Seq<Seq<Seq<char>>> {
        views(self.0@)
    }
}

impl SynonymArray {
    pub fn new() -> (r: SynonymArray)
        ensures
            r@ == Seq::<Seq<Seq<char>>>::empty(),
    {
        let r = SynonymArray(Vec::new());
        r
    }

    pub fn push(&mut self, s: SynonymDefinition)
        ensures
            final(self)@ == old(self)@.push(s@),
    {
        self.0.push(s);
    }

    pub fn from(vec: Vec<SynonymDefinition>) -> (r: SynonymArray)
        ensures
            r@ == views(vec@),
            r.0 == vec,
    {
        SynonymArray(vec)
    }
}

/// A canonical value and the synonyms by which it is recognised.
#[derive(Clone)]
pub struct ValueDefinition {
    pub name: String,
    pub synonyms: SynonymArray,
}

/// The mathematical counterpart of [`ValueDefinition`].
pub struct ValueView {
    pub name: Seq<char>,
    pub synonyms: Seq<Seq<Seq<char>>>,
}

impl View for ValueDefinition {
    type V = ValueView;

    open spec fn view(&self) -> ValueView {
        ValueView { name: self.name@, synonyms: self.synonyms@ }
    }
}

impl ValueDefinition {
    pub fn new(name: String, synonyms: SynonymArray) -> (r: Self)
        ensures
            r@ == (ValueView { name: name@, synonyms: synonyms@ }),
            r.name == name,
            r.synonyms == synonyms,
    {
        Self { name, synonyms }
    }
}

/// A list of values.
#[derive(Clone)]
pub struct ValueArray(pub Vec<ValueDefinition>);

impl View for ValueArray {
    type V = Seq<ValueView>;

    open spec fn view(&self) -> Seq<ValueView> {
        views(self.0@)
    }
}

impl ValueArray {
    pub fn new() -> (r: ValueArray)
        ensures
            r@ == Seq::<ValueView>::empty(),
    {
        let r = ValueArray(Vec::new());
        r
    }

    pub fn push(&mut self, s: ValueDefinition)
        ensures
            final(self)@ == old(self)@.push(s@),
    {
        self.0.push(s);
    }

    pub fn from(vec: Vec<ValueDefinition>) -> (r: ValueArray)
        ensures
            r@ == views(vec@),
            r.0 == vec,
    {
        ValueArray(vec)
    }
}

/// A named entity with its values. `fuzzy` is the key of a number from zero
/// to one: the least fuzzy score with which a window matches. With the key of
/// one, only an exact match counts.
#[derive(Clone)]
pub struct EntityDefinition {
    pub name: String,
    pub fuzzy: u64,
    pub values: ValueArray,
}

/// The mathematical counterpart of [`EntityDefinition`].
pub struct EntityView {
    pub name: Seq<char>,
    pub fuzzy: u64,
    pub values: Seq<ValueView>,
}

impl View for EntityDefinition {
    type V = EntityView;

    open spec fn view(&self) -> EntityView {
        EntityView { name: self.name@, fuzzy: self.fuzzy, values: self.values@ }
    }
}

impl EntityDefinition {
    pub fn new(name: String, fuzzy: u64, values: ValueArray) -> (r: Self)
        ensures
            r@ == (EntityView { name: name@, fuzzy, values: values@ }),
            r.name == name,
            r.values == values,
    {
        Self { name, fuzzy, values }
    }
}

/// A list of entities.
#[derive(Clone)]
pub struct EntityArray(pub Vec<EntityDefinition>);

impl View for EntityArray {
    type V = Seq<EntityView>;

    open spec fn view(&self) -> Seq<EntityView> {
        views(self.0@)
    }
}

impl EntityArray {
    pub fn new() -> (r: EntityArray)
        ensures
            r@ == Seq::<EntityView>::empty(),
    {
        let r = EntityArray(Vec::new());
        r
    }

    pub fn push(&mut self, s: EntityDefinition)
        ensures
            final(self)@ == old(self)@.push(s@),
    {
        self.0.push(s);
    }

    pub fn from(vec: Vec<EntityDefinition>) -> (r: EntityArray)
        ensures
            r@ == views(vec@),
            r.0 == vec,
    {
        EntityArray(vec)
    }
}

/// A match: the entity and value found, the text that matched, the key of
/// its confidence, and the bytes of the utterance that it spans.
#[derive(Debug)]
pub struct EntityExtraction {
    pub name: String,
    pub confidence: u64,
    pub char_start: usize,
    pub char_end: usize,
    pub value: String,
    pub source: String,
}

/// The mathematical counterpart of [`EntityExtraction`].
pub struct ExtractionView {
    pub name: Seq<char>,
    pub confidence: u64,
    pub char_start: nat,
    pub char_end: nat,
    pub value: Seq<char>,
    pub source: Seq<char>,
}

impl View for EntityExtraction {
    type V = ExtractionView;

    open spec fn view(&self) -> ExtractionView {
        ExtractionView {
            name: self.name@,
            confidence: self.confidence,
            char_start: self.char_start as nat,
            char_end: self.char_end as nat,
            value: self.value@,
            source: self.source@,
        }
    }
}

impl Clone for EntityExtraction {
    fn clone(&self) -> (r: Self)
        ensures
            r == *self,
    {
        EntityExtraction {
            name: self.name.clone(),
            confidence: self.confidence,
            char_start: self.char_start,
            char_end: self.char_end,
            value: self.value.clone(),
            source: self.source.clone(),
        }
    }
}

/// A list of matches.
pub struct ExtractionArray(pub Vec<EntityExtraction>);

impl View for ExtractionArray {
    type V = Seq<ExtractionView>;

    open spec fn view(&self) -> Seq<ExtractionView> {
        views(self.0@)
    }
}

impl ExtractionArray {
    /// The match at place `idx`, which must be one of the list.
    pub fn get(&self, idx: usize) -> (r: EntityExtraction)
        requires
            idx < self@.len(),
        ensures
            r@ == self@[idx as int],
    {
        self.0[idx].clone()
    }

    pub fn len(&self) -> (n: usize)
        ensures
            n == self@.len(),
    {
        self.0.len()
    }

    pub fn from(vec: Vec<EntityExtraction>) -> (r: ExtractionArray)
        ensures
            r@ == views(vec@),
            r.0 == vec,
    {
        ExtractionArray(vec)
    }
}

} // verus!

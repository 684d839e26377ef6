//! Fuzzy extraction of list entities from a tokenized utterance.
//!
//! An entity is a named slot with a closed set of canonical values, each of
//! which is recognised through literal synonym phrases. Given the tokens of an
//! utterance and such a definition, the library finds the spans of the
//! utterance that match a value, and how well they do.
//!
//! # How it works
//!
//! The texts of the utterance become tokens with byte offsets (`tokens`).
//! The synonyms of the entity are listed one by one, and each is measured at
//! every token that is not a space: the window of tokens from there that
//! comes closest to the synonym's length is held against the synonym
//! (`candidates`, with the measures of `scores` and `strings`). Each measure
//! becomes a candidate with two scores. Where candidates cover the same
//! token, the one with the highest length score stays; of those that are
//! left, the ones with a structural score of six tenths or more are the
//! matches (`overlap`). `engine` runs all of this in a row.
//!
//! # Numbers
//!
//! Everything here is integer work. A score is a quotient, a mean, a root or
//! a power of such, taken in binary64, and that arithmetic is not done here.
//! The library hands out the integers that a score is made of, says in the
//! documentation of each type how the score follows from them, and takes the
//! score back as a key that orders as the score does (`numbers`). So the
//! functions of `engine` ask for a function from a measure to the two scores
//! of its candidate. Where a measure never matches (a fuzzy match does not
//! count and the match is not exact) both scores are zero and the function
//! is not asked. For every other measure:
//!
//! - the fuzzy score is the mean of the Levenshtein similarity and the
//!   Jaro-Winkler similarity;
//! - the factor is zero, one or the fuzzy score, as `Measure::used_factor`
//!   says for the key of the fuzzy score;
//! - the structural score of the candidate is the factor times the square
//!   root of the product of the mean of the two quotients of character sets,
//!   the quotient of token quantities and the quotient of token sizes;
//! - the length score is that structural score times the fifth root of the
//!   used length.

pub mod candidates;
pub mod definitions;
pub mod engine;
pub mod list_model;
pub mod numbers;
pub mod overlap;
pub mod primitives;
pub mod scores;
pub mod strings;
pub mod text;
pub mod tokens;

use entities::candidates::extract_synonym;
use entities::candidates::flatten_synonyms;
use entities::candidates::Candidate;
use entities::candidates::Factor;
use entities::candidates::FlatSynonym;
use entities::candidates::Measure;
use entities::definitions::EntityArray;
use entities::definitions::EntityDefinition;
use entities::definitions::EntityExtraction;
use entities::definitions::ExtractionArray;
use entities::definitions::StringArray;
use entities::definitions::SynonymArray;
use entities::definitions::SynonymDefinition;
use entities::definitions::ValueArray;
use entities::definitions::ValueDefinition;
use entities::engine::extract;
use entities::engine::extract_multiple;
use entities::engine::extract_single;
use entities::engine::measure;
use entities::list_model::extract_for_list_model;
use entities::list_model::ListEntityModel;
use entities::numbers::Ratio;
use entities::overlap::resolve;
use entities::overlap::resolve_overlaps;
use entities::scores::FuzzyParts;
use entities::scores::StructuralParts;
use entities::strings::JaroWinkler;
use entities::tokens::to_tokens;

// The numbers that the library leaves to its caller.

fn quotient(r: &Ratio) -> f64 {
    r.num as f64 / r.den as f64
}

fn jaro_winkler_value(parts: &JaroWinkler) -> f64 {
    match parts {
        JaroWinkler::Zero => 0.0,
        JaroWinkler::One => 1.0,
        JaroWinkler::Weighted { of_first, of_second, in_order, prefix } => {
            let weight = (quotient(of_first) + quotient(of_second) + quotient(in_order)) / 3.0;
            if weight > 0.7 {
                weight + (*prefix as f64) * 0.1 * (1.0 - weight)
            } else {
                weight
            }
        }
    }
}

fn fuzzy_value(parts: &FuzzyParts) -> f64 {
    (quotient(&parts.levenshtein) + jaro_winkler_value(&parts.jaro_winkler)) / 2.0
}

fn structural_value(parts: &StructuralParts) -> f64 {
    let charset = (quotient(&parts.charset) + quotient(&parts.charset_low)) / 2.0;
    (charset * quotient(&parts.token_qty) * quotient(&parts.token_size)).sqrt()
}

fn key(x: f64) -> u64 {
    assert!(x >= 0.0 && x.is_finite());
    if x == 0.0 {
        0
    } else {
        x.to_bits()
    }
}

fn number(key: u64) -> f64 {
    f64::from_bits(key)
}

fn scores(m: &Measure) -> (f64, f64) {
    let fuzzy_score = fuzzy_value(&m.fuzzy);
    let used_factor = match m.used_factor(key(fuzzy_score)) {
        Factor::Zero => 0.0,
        Factor::One => 1.0,
        Factor::Fuzzy => fuzzy_score,
    };
    let struct_score = used_factor * structural_value(&m.structural);
    let length_score = struct_score * (m.used_length as f64).powf(0.2);
    (struct_score, length_score)
}

fn score(m: &Measure) -> (u64, u64) {
    let (struct_score, length_score) = scores(m);
    (key(struct_score), key(length_score))
}

// Values to work on.

fn strings(parts: &[&str]) -> Vec<String> {
    parts.iter().map(|s| s.to_string()).collect()
}

fn utterance(parts: &[&str]) -> StringArray {
    StringArray::from(strings(parts))
}

fn entity(name: &str, fuzzy: f64, values: &[(&str, &[&[&str]])]) -> EntityDefinition {
    let mut list = ValueArray::new();
    for (value, synonyms) in values {
        let mut array = SynonymArray::new();
        for synonym in synonyms.iter() {
            let mut tokens = StringArray::new();
            for t in synonym.iter() {
                tokens.push(t.to_string());
            }
            array.push(SynonymDefinition::new(tokens));
        }
        list.push(ValueDefinition::new(value.to_string(), array));
    }
    EntityDefinition::new(name.to_string(), key(fuzzy), list)
}

fn fruit() -> EntityDefinition {
    entity("fruit", 0.8, &[("Watermelon", &[&["water", "melon"]])])
}

fn candidate(struct_score: f64, length_score: f64, token_start: usize, token_end: usize, name: &str) -> Candidate {
    Candidate {
        struct_score: key(struct_score),
        length_score: key(length_score),
        token_start,
        token_end,
        name: name.to_string(),
        value: "v".to_string(),
        source: "s".to_string(),
    }
}

fn summary(r: &EntityExtraction) -> (String, String, String, u64, usize, usize) {
    (r.name.clone(), r.value.clone(), r.source.clone(), r.confidence, r.char_start, r.char_end)
}

fn summaries(results: &ExtractionArray) -> Vec<(String, String, String, u64, usize, usize)> {
    (0..results.len()).map(|i| summary(&results.get(i))).collect()
}

const UTTERANCE: [&str; 8] = ["I", " ", "want", " ", "a", " ", "water", "melon"];

#[test]
fn synonyms_are_flattened_value_by_value() {
    let def = entity(
        "fruit",
        0.8,
        &[
            ("Watermelon", &[&["water", "melon"], &["water", "-", "melon"], &["melon"]]),
            ("Kiwi", &[&["kiwi"]]),
            ("Nothing", &[]),
            ("Egg", &[&["é"], &[]]),
        ],
    );
    let flat: Vec<FlatSynonym> = flatten_synonyms(&def);
    let seen: Vec<(String, String, Vec<String>, usize, u64)> =
        flat.iter().map(|f| (f.name.clone(), f.value.clone(), f.tokens.clone(), f.max_synonym_len, f.fuzzy)).collect();
    let fuzzy = 0.8f64.to_bits();
    assert_eq!(
        seen,
        vec![
            ("fruit".to_string(), "Watermelon".to_string(), strings(&["water", "melon"]), 11, fuzzy),
            ("fruit".to_string(), "Watermelon".to_string(), strings(&["water", "-", "melon"]), 11, fuzzy),
            ("fruit".to_string(), "Watermelon".to_string(), strings(&["melon"]), 11, fuzzy),
            ("fruit".to_string(), "Kiwi".to_string(), strings(&["kiwi"]), 4, fuzzy),
            ("fruit".to_string(), "Egg".to_string(), strings(&["é"]), 2, fuzzy),
            ("fruit".to_string(), "Egg".to_string(), strings(&[]), 2, fuzzy),
        ]
    );
    assert!(flatten_synonyms(&entity("none", 1.0, &[])).is_empty());
}

#[test]
fn a_synonym_is_measured_at_every_token_that_is_no_space() {
    let tokens = to_tokens(&strings(&UTTERANCE));
    let flat = flatten_synonyms(&fruit());
    let measures = extract_synonym(&tokens, &flat[0]);
    let spans: Vec<(usize, usize, String)> = measures.iter().map(|m| (m.token_start, m.token_end, m.source.clone())).collect();
    assert_eq!(
        spans,
        vec![
            (0, 4, "I want a".to_string()),
            (2, 6, "want a water".to_string()),
            (4, 7, "a watermelon".to_string()),
            (6, 7, "watermelon".to_string()),
            (7, 7, "melon".to_string()),
        ]
    );
    let exact = &measures[3];
    assert!(exact.exact);
    assert!(exact.is_fuzzy);
    assert_eq!(exact.fuzzy_floor, 0.8f64.to_bits());
    assert_eq!(exact.used_length, 10);
    assert_eq!(exact.name, "fruit");
    assert_eq!(exact.value, "Watermelon");
    assert_eq!(exact.fuzzy, FuzzyParts { levenshtein: Ratio { num: 10, den: 10 }, jaro_winkler: JaroWinkler::One });
    assert_eq!(exact.structural.charset, Ratio { num: 9, den: 9 });
    assert_eq!(exact.structural.token_size, Ratio { num: 10, den: 10 });
    assert_eq!(scores(exact), (1.0, 10f64.powf(0.2)));

    let longer = &measures[2];
    assert!(!longer.exact);
    assert_eq!(longer.used_length, 10);
    assert_eq!(longer.fuzzy.levenshtein, Ratio { num: 10, den: 12 });
    assert_eq!(longer.structural.token_size, Ratio { num: 10, den: 12 });

    let last = &measures[4];
    assert_eq!(last.used_length, 5);
    assert_eq!(last.fuzzy.levenshtein, Ratio { num: 5, den: 10 });
}

#[test]
fn measures_are_taken_in_lower_case() {
    let tokens = to_tokens(&strings(&["WATER", "Melon"]));
    let flat = flatten_synonyms(&entity("fruit", 0.8, &[("Watermelon", &[&["Water", "MELON"]])]));
    let measures = extract_synonym(&tokens, &flat[0]);
    assert_eq!(measures[0].source, "WATERMelon");
    assert!(!measures[0].exact);
    // in lower case both are "watermelon"
    assert_eq!(measures[0].fuzzy.levenshtein, Ratio { num: 10, den: 10 });
    assert_eq!(measures[0].fuzzy.jaro_winkler, JaroWinkler::One);
    // the structural score sees the texts as they are: of ten distinct
    // characters on each side, "W", "E", "M" and "e" are common
    assert_eq!(measures[0].structural.charset, Ratio { num: 4, den: 16 });
    // without case both sides have the same nine characters
    assert_eq!(measures[0].structural.charset_low, Ratio { num: 9, den: 9 });
}

#[test]
fn the_factor_follows_the_kind_of_match() {
    let tokens = to_tokens(&strings(&["watermelon", " ", "kiwi", " ", "abc"]));
    let fuzzy = flatten_synonyms(&entity("fruit", 0.8, &[("Watermelon", &[&["watermelon"]])]));
    let m = &extract_synonym(&tokens, &fuzzy[0])[0];
    assert!(m.is_fuzzy);
    assert_eq!(m.used_factor(key(0.8)), Factor::Fuzzy);
    assert_eq!(m.used_factor(key(1.0)), Factor::Fuzzy);
    assert_eq!(m.used_factor(key(0.7999)), Factor::Zero);
    assert_eq!(m.used_factor(key(0.0)), Factor::Zero);

    // with a floor of one only an exact match counts
    let exact = flatten_synonyms(&entity("fruit", 1.0, &[("Watermelon", &[&["watermelon"]])]));
    let measures = extract_synonym(&tokens, &exact[0]);
    assert!(!measures[0].is_fuzzy);
    assert_eq!(measures[0].used_factor(key(0.0)), Factor::One);
    assert_eq!(measures[1].used_factor(key(1.0)), Factor::Zero);

    // under four bytes only an exact match counts
    let short = flatten_synonyms(&entity("x", 0.1, &[("Abc", &[&["abd"]]), ("Abc", &[&["abc"]])]));
    let near = &extract_synonym(&tokens, &short[0])[2];
    assert_eq!(near.source, "abc");
    assert!(!near.is_fuzzy);
    assert_eq!(near.used_factor(key(0.9)), Factor::Zero);
    let same = &extract_synonym(&tokens, &short[1])[2];
    assert_eq!(same.used_factor(key(0.0)), Factor::One);
}

#[test]
fn a_candidate_keeps_what_was_measured() {
    let tokens = to_tokens(&strings(&UTTERANCE));
    let flat = flatten_synonyms(&fruit());
    let measures = extract_synonym(&tokens, &flat[0]);
    let c = measures[3].candidate(7, 9);
    assert_eq!((c.struct_score, c.length_score, c.token_start, c.token_end), (7, 9, 6, 7));
    assert_eq!((c.name.as_str(), c.value.as_str(), c.source.as_str()), ("fruit", "Watermelon", "watermelon"));
}

#[test]
fn a_synonym_without_text_is_not_measured() {
    let tokens = to_tokens(&strings(&UTTERANCE));
    let flat = flatten_synonyms(&entity("fruit", 0.8, &[("Nothing", &[&[], &[""]])]));
    assert_eq!(flat.len(), 2);
    assert!(extract_synonym(&tokens, &flat[0]).is_empty());
    assert!(extract_synonym(&tokens, &flat[1]).is_empty());
    assert_eq!(extract_single(utterance(&UTTERANCE), entity("fruit", 0.8, &[("Nothing", &[&[]])]), score).len(), 0);
}

#[test]
fn end_to_end() {
    let results = extract_single(utterance(&UTTERANCE), fruit(), score);
    assert_eq!(results.len(), 1);
    let r = results.get(0);
    assert_eq!(r.name, "fruit");
    assert_eq!(r.value, "Watermelon");
    assert_eq!(r.source, "watermelon");
    assert!(number(r.confidence) >= 0.6);
    assert_eq!(number(r.confidence), 1.0);
    assert_eq!((r.char_start, r.char_end), (9, 19));
    assert_eq!(&UTTERANCE.concat()[r.char_start..r.char_end], "watermelon");
}

#[test]
fn fuzzy_matches_are_found() {
    let def = entity("fruit", 0.8, &[("Watermelon", &[&["water", "melon"]]), ("Kiwi", &[&["kiwi"]])]);
    let results = extract_single(utterance(&["one", " ", "watermeln", " ", "and", " ", "a", " ", "kiwii"]), def, score);
    let found: Vec<(String, String, usize, usize)> =
        summaries(&results).into_iter().map(|r| (r.1, r.2, r.4, r.5)).collect();
    assert_eq!(
        found,
        vec![("Watermelon".to_string(), "watermeln".to_string(), 4, 13), ("Kiwi".to_string(), "kiwii".to_string(), 20, 25)]
    );
    for r in summaries(&results) {
        assert!(number(r.3) >= 0.6 && number(r.3) < 1.0);
    }
    // with a floor of one the same utterance gives nothing
    let def = entity("fruit", 1.0, &[("Watermelon", &[&["water", "melon"]]), ("Kiwi", &[&["kiwi"]])]);
    let results = extract_single(utterance(&["one", " ", "watermeln", " ", "and", " ", "a", " ", "kiwii"]), def, score);
    assert_eq!(results.len(), 0);
}

#[test]
fn extract_is_measure_then_score_then_resolve() {
    let tokens = utterance(&UTTERANCE);
    let def = entity("fruit", 0.5, &[("Watermelon", &[&["water", "melon"], &["melon"]]), ("Water", &[&["water"]])]);
    let measures = measure(&tokens, &def);
    assert_eq!(measures.len(), 15);
    let candidates: Vec<Candidate> = measures.iter().map(|m| { let (s, l) = score(m); m.candidate(s, l) }).collect();
    let by_hand: Vec<_> = resolve(&to_tokens(&tokens.0), &candidates).iter().map(summary).collect();
    let at_once: Vec<_> = extract(&tokens, &def, &score).iter().map(summary).collect();
    assert_eq!(by_hand, at_once);
    assert_eq!(at_once.len(), 1);
    assert_eq!(at_once[0].2, "watermelon");
}

#[test]
fn threshold_boundary() {
    let tokens = to_tokens(&strings(&["a", "b"]));
    let kept = resolve(&tokens, &vec![candidate(0.6, 0.6, 0, 0, "at")]);
    assert_eq!(kept.len(), 1);
    assert_eq!(number(kept[0].confidence), 0.6);
    let dropped = resolve(&tokens, &vec![candidate(0.599999, 0.599999, 0, 0, "below")]);
    assert!(dropped.is_empty());
    let both = resolve(&tokens, &vec![candidate(0.599999, 5.0, 0, 0, "below"), candidate(0.6, 0.1, 1, 1, "at")]);
    assert_eq!(both.len(), 1);
    assert_eq!(both[0].name, "at");
    assert_eq!((both[0].char_start, both[0].char_end), (1, 2));
    // a candidate that wins its tokens and is dropped takes the loser with it
    let none = resolve(&tokens, &vec![candidate(0.5, 5.0, 0, 1, "long"), candidate(0.9, 1.0, 1, 1, "short")]);
    assert!(none.is_empty());
}

#[test]
fn the_best_candidate_stays_at_each_token() {
    let candidates = vec![
        candidate(0.9, 1.0, 0, 1, "a"),
        candidate(0.9, 2.0, 1, 2, "b"),
        candidate(0.9, 1.5, 2, 3, "c"),
        candidate(0.9, 0.5, 3, 3, "d"),
        candidate(0.9, 0.1, 5, 5, "e"),
    ];
    // token 1: b beats a; token 2: b beats c; token 3: d is alone, c being out
    assert_eq!(resolve_overlaps(&candidates, 6), vec![true, false, true, false, false]);
    // nothing is looked at beyond the tokens of the utterance
    assert_eq!(resolve_overlaps(&candidates, 2), vec![true, false, false, false, false]);
    assert_eq!(resolve_overlaps(&candidates, 0), vec![false; 5]);
    assert!(resolve_overlaps(&vec![], 3).is_empty());
}

#[test]
fn of_equal_candidates_the_first_stays() {
    let candidates = vec![
        candidate(0.9, 1.0, 0, 0, "a"),
        candidate(0.9, 1.0, 0, 0, "b"),
        candidate(0.9, 1.0, 0, 0, "c"),
    ];
    assert_eq!(resolve_overlaps(&candidates, 1), vec![false, true, true]);
    let candidates = vec![
        candidate(0.9, 1.0, 0, 0, "a"),
        candidate(0.9, 3.0, 0, 0, "b"),
        candidate(0.9, 3.0, 0, 0, "c"),
    ];
    assert_eq!(resolve_overlaps(&candidates, 1), vec![true, false, true]);
}

#[test]
fn no_token_is_covered_by_two_survivors() {
    let n_tokens = 7;
    let mut candidates = Vec::new();
    let mut seed: u64 = 12345;
    for _ in 0..40 {
        seed = seed.wrapping_mul(6364136223846793005).wrapping_add(1442695040888963407);
        let start = ((seed >> 33) % n_tokens as u64) as usize;
        let len = ((seed >> 40) % 3) as usize;
        let end = (start + len).min(n_tokens - 1);
        let points = ((seed >> 45) % 5) as f64 / 4.0;
        candidates.push(candidate(points, points * 1.5, start, end, "x"));
    }
    let eliminated = resolve_overlaps(&candidates, n_tokens);
    for t in 0..n_tokens {
        let covering = (0..candidates.len())
            .filter(|i| !eliminated[*i] && candidates[*i].token_start <= t && t <= candidates[*i].token_end)
            .count();
        assert!(covering <= 1);
    }
    assert!(eliminated.iter().any(|e| !*e));
}

#[test]
fn several_entities_are_taken_one_by_one() {
    let fruit = entity("fruit", 0.8, &[("Watermelon", &[&["water", "melon"]])]);
    let drink = entity("drink", 0.8, &[("Water", &[&["water"]])]);
    let first = summaries(&extract_single(utterance(&UTTERANCE), fruit.clone(), score));
    let second = summaries(&extract_single(utterance(&UTTERANCE), drink.clone(), score));
    assert_eq!(first.len(), 1);
    assert_eq!(second.len(), 1);
    // the two matches share the token "water"
    assert_eq!((first[0].4, first[0].5), (9, 19));
    assert_eq!((second[0].4, second[0].5), (9, 14));

    let both = summaries(&extract_multiple(utterance(&UTTERANCE), EntityArray::from(vec![fruit.clone(), drink.clone()]), score));
    assert_eq!(both, [first.clone(), second.clone()].concat());
    let reversed = summaries(&extract_multiple(utterance(&UTTERANCE), EntityArray::from(vec![drink, fruit]), score));
    assert_eq!(reversed, [second, first].concat());
    assert_eq!(extract_multiple(utterance(&UTTERANCE), EntityArray::new(), score).len(), 0);
}

#[test]
fn within_one_entity_overlapping_values_compete() {
    let def = entity("thing", 0.8, &[("Watermelon", &[&["water", "melon"]]), ("Water", &[&["water"]])]);
    let found = summaries(&extract_single(utterance(&UTTERANCE), def, score));
    assert_eq!(found.len(), 1);
    assert_eq!(found[0].1, "Watermelon");
}

#[test]
fn arrays_hold_what_is_pushed() {
    let mut a = StringArray::new();
    a.push("x".to_string());
    a.push("y".to_string());
    assert_eq!(a.0, strings(&["x", "y"]));
    assert_eq!(StringArray::from(strings(&["x", "y"])).0, a.0);

    let mut entities = EntityArray::new();
    entities.push(fruit());
    assert_eq!(entities.0.len(), 1);
    assert_eq!(entities.0[0].name, "fruit");
    assert_eq!(entities.0[0].fuzzy, 0.8f64.to_bits());
    assert_eq!(entities.0[0].values.0[0].name, "Watermelon");
    assert_eq!(entities.0[0].values.0[0].synonyms.0[0].tokens.0, strings(&["water", "melon"]));

    let results = ExtractionArray::from(vec![EntityExtraction {
        name: "n".to_string(),
        confidence: 1.0f64.to_bits(),
        char_start: 1,
        char_end: 2,
        value: "v".to_string(),
        source: "s".to_string(),
    }]);
    assert_eq!(results.len(), 1);
    assert_eq!(summary(&results.get(0)), ("n".to_string(), "v".to_string(), "s".to_string(), 1.0f64.to_bits(), 1, 2));
}

#[test]
fn a_list_model_gives_what_its_entity_gives() {
    let model = ListEntityModel {
        name: "fruit".to_string(),
        fuzzy: key(0.8),
        tokens: vec![
            ("Kiwi".to_string(), vec![strings(&["kiwi"])]),
            ("Watermelon".to_string(), vec![strings(&["water", "-", "melon"]), strings(&["water", "melon"])]),
        ],
    };
    let found = extract_for_list_model(strings(&UTTERANCE), model, score);
    let same = entity("fruit", 0.8, &[("Kiwi", &[&["kiwi"]]), ("Watermelon", &[&["water", "-", "melon"], &["water", "melon"]])]);
    let expected = summaries(&extract_single(utterance(&UTTERANCE), same, score));
    let seen: Vec<_> = found
        .iter()
        .map(|r| (r.name.clone(), r.value.clone(), r.source.clone(), r.confidence, r.char_start, r.char_end))
        .collect();
    assert_eq!(seen, expected);
    assert_eq!(seen, vec![("fruit".to_string(), "Watermelon".to_string(), "watermelon".to_string(), key(1.0), 9, 19)]);

    let empty = ListEntityModel { name: "none".to_string(), fuzzy: key(1.0), tokens: vec![] };
    assert!(extract_for_list_model(strings(&UTTERANCE), empty, score).is_empty());
}

#[test]
fn with_a_floor_of_one_only_exact_windows_are_found() {
    // a scoring function that calls every window a perfect match
    let generous = |_: &Measure| (key(1.0), key(1.0));
    let def = entity("fruit", 1.0, &[("Watermelon", &[&["water", "melon"]]), ("Kiwi", &[&["kiwi"]])]);
    let found = summaries(&extract_single(utterance(&["watermelon", " ", "watermelom", " ", "Kiwi", " ", "kiwi"]), def, generous));
    let seen: Vec<(String, String, usize, usize)> = found.into_iter().map(|r| (r.1, r.2, r.4, r.5)).collect();
    assert_eq!(
        seen,
        vec![("Watermelon".to_string(), "watermelon".to_string(), 0, 10), ("Kiwi".to_string(), "kiwi".to_string(), 27, 31)]
    );
    // with the true scores the confidence of an exact match is one
    let def = entity("fruit", 1.0, &[("Watermelon", &[&["water", "melon"]]), ("Kiwi", &[&["kiwi"]])]);
    let found = summaries(&extract_single(utterance(&["watermelon", " ", "watermelom", " ", "Kiwi", " ", "kiwi"]), def, score));
    assert_eq!(found.len(), 2);
    for r in found {
        assert_eq!(number(r.3), 1.0);
    }
}

#[test]
fn a_measure_that_never_matches_is_not_scored() {
    let asked = std::cell::Cell::new(0);
    let counting = |m: &Measure| {
        assert!(!m.never_matches());
        asked.set(asked.get() + 1);
        score(m)
    };
    // five windows, one of them exact
    let found = extract_single(utterance(&UTTERANCE), entity("fruit", 1.0, &[("Watermelon", &[&["water", "melon"]])]), counting);
    assert_eq!(found.len(), 1);
    assert_eq!(asked.get(), 1);

    let tokens = to_tokens(&strings(&UTTERANCE));
    let flat = flatten_synonyms(&entity("fruit", 1.0, &[("Watermelon", &[&["water", "melon"]])]));
    let never: Vec<bool> = extract_synonym(&tokens, &flat[0]).iter().map(|m| m.never_matches()).collect();
    assert_eq!(never, vec![true, true, true, false, true]);
    for m in extract_synonym(&tokens, &flat[0]) {
        if m.never_matches() {
            assert_eq!(score(&m), (0, 0));
        }
    }
    // where a fuzzy match counts, every window of four bytes or more is scored
    let flat = flatten_synonyms(&fruit());
    let never: Vec<bool> = extract_synonym(&tokens, &flat[0]).iter().map(|m| m.never_matches()).collect();
    assert_eq!(never, vec![false; 5]);
}

#[test]
fn confidence_lies_between_the_threshold_and_one() {
    let def = entity("fruit", 0.5, &[("Watermelon", &[&["water", "melon"], &["melon"]]), ("Kiwi", &[&["kiwi"]])]);
    let found = summaries(&extract_single(utterance(&["a", " ", "watermeln", " ", "kiwii", " ", "melon", " ", "kiwi"]), def, score));
    assert!(found.len() >= 3);
    for r in found {
        assert!(number(r.3) >= 0.6 && number(r.3) <= 1.0);
    }
}

#[test]
fn value_names_of_a_list_model_are_distinct() {
    let model = |names: &[&str]| ListEntityModel {
        name: "fruit".to_string(),
        fuzzy: key(0.8),
        tokens: names.iter().map(|n| (n.to_string(), vec![strings(&["x"])])).collect(),
    };
    assert!(model(&["Kiwi", "Watermelon", "kiwi"]).has_distinct_values());
    assert!(model(&[]).has_distinct_values());
    assert!(model(&["Kiwi"]).has_distinct_values());
    assert!(!model(&["Kiwi", "Watermelon", "Kiwi"]).has_distinct_values());
    assert!(!model(&["", ""]).has_distinct_values());
}

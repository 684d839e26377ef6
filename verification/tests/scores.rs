use entities::numbers::Ratio;
use entities::numbers::ENTITY_SCORE_THRESHOLD;
use entities::numbers::SCORE_ONE;
use entities::scores::compute_exact_score;
use entities::scores::compute_fuzzy_score;
use entities::scores::compute_structural_score;
use entities::strings::JaroWinkler;

fn strings(parts: &[&str]) -> Vec<String> {
    parts.iter().map(|s| s.to_string()).collect()
}

fn quotient(r: &Ratio) -> f64 {
    r.num as f64 / r.den as f64
}

#[test]
fn score_keys_are_bit_patterns() {
    assert_eq!(SCORE_ONE, 1.0f64.to_bits());
    assert_eq!(ENTITY_SCORE_THRESHOLD, 0.6f64.to_bits());
    assert!(0.599999f64.to_bits() < ENTITY_SCORE_THRESHOLD);
    assert!(0.8f64.to_bits() < SCORE_ONE);
    assert_eq!(0.0f64.to_bits(), 0);
}

#[test]
fn ratio_is_one_when_both_are_equal_and_not_zero() {
    assert!(Ratio { num: 3, den: 3 }.is_one());
    assert!(!Ratio { num: 2, den: 3 }.is_one());
    assert!(!Ratio { num: 0, den: 0 }.is_one());
    assert_eq!(quotient(&Ratio { num: 3, den: 3 }), 1.0);
    assert!(quotient(&Ratio { num: 9007199254740990, den: 9007199254740991 }) < 1.0);
}

#[test]
fn exact_score_compares_bytes_in_place() {
    let water = strings(&["water", "melon"]);
    assert_eq!(compute_exact_score(&water, &strings(&["watermelon"])), Ratio { num: 10, den: 10 });
    assert!(compute_exact_score(&water, &strings(&["water", "-", "melon"])) == Ratio { num: 5, den: 11 });
    assert_eq!(compute_exact_score(&water, &strings(&["water"])), Ratio { num: 5, den: 10 });
    assert_eq!(compute_exact_score(&water, &strings(&["WaterMelon"])), Ratio { num: 8, den: 10 });
    assert_eq!(compute_exact_score(&strings(&["abc"]), &strings(&["xbz"])), Ratio { num: 1, den: 3 });
    assert_eq!(compute_exact_score(&strings(&[]), &strings(&[])), Ratio { num: 0, den: 0 });
    assert!(!compute_exact_score(&strings(&[]), &strings(&[""])).is_one());
    // two bytes of "é" against one of "e"
    assert_eq!(compute_exact_score(&strings(&["é"]), &strings(&["e"])), Ratio { num: 0, den: 2 });
    assert!(compute_exact_score(&strings(&["é", "t", "é"]), &strings(&["ét", "é"])).is_one());
}

#[test]
fn fuzzy_score_has_both_similarities() {
    let parts = compute_fuzzy_score(&strings(&["tes", "ing"]), &strings(&["testing"]));
    assert_eq!(parts.levenshtein, Ratio { num: 6, den: 7 });
    assert_eq!(
        parts.jaro_winkler,
        JaroWinkler::Weighted {
            of_first: Ratio { num: 6, den: 6 },
            of_second: Ratio { num: 6, den: 7 },
            in_order: Ratio { num: 6, den: 6 },
            prefix: 3,
        }
    );
    // case counts for the distance, not for Jaro-Winkler
    let parts = compute_fuzzy_score(&strings(&["Water"]), &strings(&["water"]));
    assert_eq!(parts.levenshtein, Ratio { num: 4, den: 5 });
    assert_eq!(parts.jaro_winkler, JaroWinkler::One);
}

#[test]
fn structural_score_parts() {
    let parts = compute_structural_score(&strings(&["a", " ", "water", "melon"]), &strings(&["water", "melon"]));
    // ten distinct characters against nine, nine in common
    assert_eq!(parts.charset, Ratio { num: 9, den: 10 });
    assert_eq!(parts.charset_low, Ratio { num: 9, den: 10 });
    assert_eq!(parts.token_qty, Ratio { num: 2, den: 2 });
    assert_eq!(parts.token_size, Ratio { num: 10, den: 12 });
}

#[test]
fn structural_score_compares_character_sets_with_and_without_case() {
    let parts = compute_structural_score(&strings(&["Aa"]), &strings(&["a"]));
    // 'A' and 'a' against 'a'
    assert_eq!(parts.charset, Ratio { num: 1, den: 2 });
    // without case: 'a' against 'a'
    assert_eq!(parts.charset_low, Ratio { num: 1, den: 1 });
    assert_eq!(parts.token_size, Ratio { num: 1, den: 2 });
    // only the letters of ASCII change
    let parts = compute_structural_score(&strings(&["É"]), &strings(&["é"]));
    assert_eq!(parts.charset_low, Ratio { num: 0, den: 2 });
}

#[test]
fn structural_score_of_a_letter_in_both_cases() {
    let parts = compute_structural_score(&strings(&["Aab"]), &strings(&["b"]));
    // 'A', 'a', 'b' against 'b'
    assert_eq!(parts.charset, Ratio { num: 1, den: 3 });
    // 'a', 'b' against 'b'
    assert_eq!(parts.charset_low, Ratio { num: 1, den: 2 });
    assert_eq!(parts.token_qty, Ratio { num: 1, den: 1 });
    assert_eq!(parts.token_size, Ratio { num: 1, den: 3 });
    let charset = (quotient(&parts.charset) + quotient(&parts.charset_low)) / 2.0;
    let score = (charset * quotient(&parts.token_qty) * quotient(&parts.token_size)).sqrt();
    assert!((score - 0.372678).abs() < 0.000001);
}

#[test]
fn token_quantity_is_always_one() {
    let cases: [(&[&str], &[&str]); 5] = [
        (&["water", "melon"], &["w"]),
        (&["w"], &["water", "melon", "juice"]),
        (&[], &["water"]),
        (&["a", "b", "cd"], &[]),
        (&["é"], &["x", "y"]),
    ];
    for (a, b) in cases {
        let parts = compute_structural_score(&strings(a), &strings(b));
        assert!(parts.token_qty.is_one());
        assert_eq!(quotient(&parts.token_qty), 1.0);
    }
    // the quantity itself comes from the first list: tokens of more than one byte
    assert_eq!(compute_structural_score(&strings(&["ab", "c", "é"]), &strings(&[])).token_qty, Ratio { num: 2, den: 2 });
    assert_eq!(compute_structural_score(&strings(&["a"]), &strings(&["bc", "de"])).token_qty, Ratio { num: 1, den: 1 });
}

use entities::numbers::Ratio;
use entities::strings::jaro_winkler_similarity;
use entities::strings::levenshtein_distance;
use entities::strings::levenshtein_similarity;
use entities::strings::JaroWinkler;

fn quotient(r: &Ratio) -> f64 {
    r.num as f64 / r.den as f64
}

fn jaro_winkler_value(parts: &JaroWinkler) -> f64 {
    match parts {
        JaroWinkler::Zero => 0.0,
        JaroWinkler::One => 1.0,
        JaroWinkler::Weighted { of_first, of_second, in_order, prefix } => {
            let weight = (quotient(of_first) + quotient(of_second) + quotient(in_order)) / 3.0;
            if weight > 0.7 {
                weight + (*prefix as f64) * 0.1 * (1.0 - weight)
            } else {
                weight
            }
        }
    }
}

fn similarity(s1: &str, s2: &str, case_sensitive: Option<bool>) -> f64 {
    jaro_winkler_value(&jaro_winkler_similarity(s1, s2, case_sensitive))
}

fn assert_eq_rounded(a: f64, b: f64) {
    let rounded_a = (a * 1000.0).round() / 1000.0;
    let rounded_b = (b * 1000.0).round() / 1000.0;
    assert_eq!(rounded_a, rounded_b);
}

#[test]
fn levenshtein() {
    assert_eq!(levenshtein_distance("testing", "tesing"), 1); // 1 x suppression
    assert_eq!(levenshtein_distance("testting", "testing"), 1); // 1 x addition
    assert_eq!(levenshtein_distance("tasting", "testing"), 1); // 1 x substitution
    assert_eq!(levenshtein_distance("teing", "testing"), 2); // 2 x suppression
    assert_eq!(levenshtein_distance("tesstting", "testing"), 2); // 2 x addition
    assert_eq!(levenshtein_distance("teasing", "testing"), 2); // 1 x suppression + 1 x addition
    assert_eq!(levenshtein_distance("teasing", "testing"), 2); // 1 x suppression + 1 x addition
    assert_eq!(levenshtein_distance("tastting", "testing"), 2); // 1 x substitution + 1 x addition
    assert_eq!(levenshtein_distance("tetsng", "testing"), 2); // 1 x suppression + 1 x substitution
    assert_eq!(levenshtein_distance("tetsing", "testing"), 2); // letterSwap (1 sup + 1 add)
    assert_eq!(levenshtein_distance("tetsig", "testing"), 3); // 1 x suppression + 1 x letterSwap (1 sup + 1 add)
    assert_eq!(levenshtein_distance("tetsinng", "testing"), 3); // 1 x letterSwap (1 sup + 1 add) + 1 x addition
    assert_eq!(levenshtein_distance("tetsinng", "testing"), 3); // 1 x letterSwap (1 sup + 1 add) + 1 x addition
    assert_eq!(levenshtein_distance("tetsong", "testing"), 3); // 1 x letterSwap (1 sup + 1 add) + 1 x substitution
}

#[test]
fn new_york() {
    // one more than the edit distance, which is 3
    assert_eq!(levenshtein_distance("new-york", "new-yorkers"), 4);
}

#[test]
fn jaro_winkler() {
    assert_eq_rounded(similarity("testing", "tesing", None), 0.967);
    assert_eq_rounded(similarity("testting", "testing", None), 0.975);
    assert_eq_rounded(similarity("tasting", "testing", None), 0.914);
    assert_eq_rounded(similarity("teing", "testing", None), 0.924);
    assert_eq_rounded(similarity("tesstting", "testing", None), 0.948);
    assert_eq_rounded(similarity("teasing", "testing", None), 0.924);
    assert_eq_rounded(similarity("teasing", "testing", None), 0.924);
    assert_eq_rounded(similarity("tastting", "testing", None), 0.882);
    assert_eq_rounded(similarity("tetsing", "testing", None), 0.962);
    assert_eq_rounded(similarity("tetsng", "testing", None), 0.917);
    assert_eq_rounded(similarity("tetsiing", "testing", None), 0.929);
    assert_eq_rounded(similarity("tetsiing", "testing", None), 0.929);
    assert_eq_rounded(similarity("tetsong", "testing", None), 0.879);
}

#[test]
fn levenshtein_of_an_empty_string_is_zero() {
    assert_eq!(levenshtein_distance("", "anything"), 0);
    assert_eq!(levenshtein_distance("anything", ""), 0);
    assert_eq!(levenshtein_distance("", ""), 0);
}

#[test]
fn levenshtein_can_lie_below_the_edit_distance() {
    // eight edits turn "x" into "abcdefgh"
    assert_eq!(levenshtein_distance("x", "abcdefgh"), 2);
    assert_eq!(levenshtein_distance("abcdefgh", "x"), 2);
    assert_eq!(levenshtein_distance("ab", "xxxxxxxx"), 3);
}

#[test]
fn levenshtein_counts_characters_and_orders_by_bytes() {
    // two characters of two bytes each against three of one byte
    assert_eq!(levenshtein_distance("éé", "abc"), 3);
    assert_eq!(levenshtein_distance("abc", "éé"), 3);
    assert_eq!(levenshtein_distance("é", "e"), 1);
    assert_eq!(levenshtein_distance("a", "abc"), 2);
}

#[test]
fn levenshtein_similarity_is_a_quotient_of_byte_lengths() {
    assert_eq!(levenshtein_similarity("testing", "tesing"), Ratio { num: 6, den: 7 });
    assert_eq!(levenshtein_similarity("new-york", "new-yorkers"), Ratio { num: 7, den: 11 });
    assert_eq!(levenshtein_similarity("é", "e"), Ratio { num: 1, den: 2 });
    assert_eq!(levenshtein_similarity("", "abc"), Ratio { num: 3, den: 3 });
}

#[test]
fn levenshtein_similarity_of_a_string_with_itself_is_one() {
    for s in ["a", "testing", "new-york", "é", " "] {
        let r = levenshtein_similarity(s, s);
        assert!(r.is_one());
        assert_eq!(quotient(&r), 1.0);
        assert_eq!(levenshtein_distance(s, s), 0);
    }
    for (a, b) in [("testing", "tesing"), ("abc", "xyz"), ("a", "abcdef")] {
        let q = quotient(&levenshtein_similarity(a, b));
        assert!(0.0 <= q && q <= 1.0);
    }
}

#[test]
fn jaro_winkler_of_a_string_with_itself_is_one() {
    for s in ["a", "testing", "Water Melon", "é"] {
        assert_eq!(jaro_winkler_similarity(s, s, None), JaroWinkler::One);
        assert_eq!(jaro_winkler_similarity(s, s, Some(true)), JaroWinkler::One);
        assert_eq!(jaro_winkler_similarity(s, s, Some(false)), JaroWinkler::One);
        assert_eq!(similarity(s, s, None), 1.0);
    }
}

#[test]
fn jaro_winkler_edge_cases() {
    assert_eq!(jaro_winkler_similarity("", "abc", None), JaroWinkler::Zero);
    assert_eq!(jaro_winkler_similarity("abc", "", None), JaroWinkler::Zero);
    assert_eq!(jaro_winkler_similarity("", "", None), JaroWinkler::Zero);
    assert_eq!(jaro_winkler_similarity("abc", "xyz", None), JaroWinkler::Zero);
    assert_eq!(jaro_winkler_similarity("a", "b", None), JaroWinkler::Zero);
    // case folding makes these equal
    assert_eq!(jaro_winkler_similarity("Testing", "tESTING", Some(false)), JaroWinkler::One);
    assert!(jaro_winkler_similarity("Testing", "tESTING", Some(true)) != JaroWinkler::One);
}

#[test]
fn jaro_winkler_parts() {
    assert_eq!(
        jaro_winkler_similarity("testing", "tesing", None),
        JaroWinkler::Weighted {
            of_first: Ratio { num: 6, den: 7 },
            of_second: Ratio { num: 6, den: 6 },
            in_order: Ratio { num: 6, den: 6 },
            prefix: 3,
        }
    );
    // "tetsing" against "testing": all seven match, two of them crosswise
    assert_eq!(
        jaro_winkler_similarity("tetsing", "testing", None),
        JaroWinkler::Weighted {
            of_first: Ratio { num: 7, den: 7 },
            of_second: Ratio { num: 7, den: 7 },
            in_order: Ratio { num: 6, den: 7 },
            prefix: 2,
        }
    );
    // the common prefix counts four characters at most
    assert_eq!(
        jaro_winkler_similarity("abcdefg", "abcdefx", None),
        JaroWinkler::Weighted {
            of_first: Ratio { num: 6, den: 7 },
            of_second: Ratio { num: 6, den: 7 },
            in_order: Ratio { num: 6, den: 6 },
            prefix: 4,
        }
    );
}

//! The three measures by which a window of an utterance is held against a
//! synonym. Each is handed out as the quotients it is made of.

use crate::numbers::Fraction;
use crate::numbers::Ratio;
use crate::primitives::clones_are_copies;
use crate::primitives::count_held;
use crate::primitives::dedup;
use crate::primitives::holds;
use crate::primitives::intersection_len;
use crate::primitives::lemma_count_held_len;
use crate::primitives::union_len;
use crate::primitives::uniq;
use crate::strings::jaro_winkler_similarity;
use crate::strings::jaro_winkler_similarity_spec;
use crate::strings::levenshtein_similarity;
use crate::strings::levenshtein_similarity_spec;
use crate::strings::JaroWinkler;
use crate::strings::JaroWinklerView;
use crate::text::byte_len;
use crate::text::chars_of;
use crate::text::concat;
use crate::text::join;
use crate::text::lemma_byte_len_concat;
use crate::text::lemma_concat_prefix_len;
use crate::text::lemma_concat_push;
use crate::text::string_len;
use crate::text::texts;
use vstd::prelude::*;
use vstd::std_specs::cmp::PartialEqSpec;
use vstd::utf8::encode_utf8;

verus! {

/// What the fuzzy score is made of: it is the mean of the two similarities.
#[derive(Clone, Copy, Debug, PartialEq, Eq)]
pub struct FuzzyParts {
    pub levenshtein: Ratio,
    pub jaro_winkler: JaroWinkler,
}

/// The mathematical counterpart of [`FuzzyParts`].
pub struct FuzzyView {
    pub levenshtein: Fraction,
    pub jaro_winkler: JaroWinklerView,
}

impl View for FuzzyParts {
    type V = FuzzyView;

    open spec fn view(&self) -> FuzzyView {
        FuzzyView { levenshtein: self.levenshtein@, jaro_winkler: self.jaro_winkler@ }
    }
}

/// What the structural score is made of: it is the square root of the
/// product of three factors, namely the mean of `charset` and `charset_low`,
/// `token_qty`, and `token_size`. `charset` is the Jaccard index of the
/// character sets of the two sides, `charset_low` that of their character
/// sets without regard to the case of the letters `A` to `Z`.
#[derive(Clone, Copy, Debug, PartialEq, Eq)]
pub struct StructuralParts {
    pub charset: Ratio,
    pub charset_low: Ratio,
    pub token_qty: Ratio,
    pub token_size: Ratio,
}

/// The mathematical counterpart of [`StructuralParts`].
pub struct StructuralView {
    pub charset: Fraction,
    pub charset_low: Fraction,
    pub token_qty: Fraction,
    pub token_size: Fraction,
}

impl View for StructuralParts {
    type V = StructuralView;

    open spec fn view(&self) -> StructuralView {
        StructuralView {
            charset: self.charset@,
            charset_low: self.charset_low@,
            token_qty: self.token_qty@,
            token_size: self.token_size@,
        }
    }
}

/// At how many of the first `n` places two byte strings hold the same byte.
pub open spec fn equal_bytes(x: Seq<u8>, y: Seq<u8>, n: int) -> nat
    decreases n,
{
    if n <= 0 {
        0
    } else {
        equal_bytes(x, y, n - 1) + if x[n - 1] == y[n - 1] {
            1nat
        } else {
            0nat
        }
    }
}

/// The exact score of two texts: the places at which their bytes agree, as
/// far as the shorter goes, over the length of the longer.
pub open spec fn exact_score(s1: Seq<char>, s2: Seq<char>) -> Fraction {
    let x = encode_utf8(s1);
    let y = encode_utf8(s2);
    let shorter = if x.len() <= y.len() {
        x.len()
    } else {
        y.len()
    };
    let longer = if x.len() >= y.len() {
        x.len()
    } else {
        y.len()
    };
    Fraction { num: equal_bytes(x, y, shorter as int), den: longer }
}

/// The fuzzy score of two texts, in parts. Case does not count for the
/// Jaro-Winkler similarity.
pub open spec fn fuzzy_score(s1: Seq<char>, s2: Seq<char>) -> FuzzyView {
    FuzzyView {
        levenshtein: levenshtein_similarity_spec(s1, s2),
        jaro_winkler: jaro_winkler_similarity_spec(s1, s2, false),
    }
}

/// The code points of a text.
pub open spec fn code_points(s: Seq<char>) -> Seq<u32> {
    s.map_values(|c: char| c as u32)
}

/// A code point with the letters `A` to `Z` moved to `a` to `z`.
pub open spec fn ascii_lowercase(x: u32) -> u32 {
    if 0x41 <= x <= 0x5a {
        (x + 32) as u32
    } else {
        x
    }
}

/// The Jaccard index of two lists: the items of `x` that `y` holds, over the
/// length of `x` and the items of `y` that `x` does not hold.
pub open spec fn jaccard(x: Seq<u32>, y: Seq<u32>) -> Fraction {
    Fraction { num: count_held(x, y), den: (x.len() + y.len() - count_held(y, x)) as nat }
}

/// The number of texts of a list that take more than one byte.
pub open spec fn long_tokens(a: Seq<Seq<char>>) -> nat
    decreases a.len(),
{
    if a.len() == 0 {
        0
    } else {
        long_tokens(a.drop_last()) + if byte_len(a.last()) > 1 {
            1nat
        } else {
            0nat
        }
    }
}

/// The quotient of the smaller of two numbers by the larger.
pub open spec fn smaller_over_larger(x: nat, y: nat) -> Fraction {
    Fraction {
        num: if x <= y {
            x
        } else {
            y
        },
        den: if x >= y {
            x
        } else {
            y
        },
    }
}

/// The distinct code points of a list once its letters `A` to `Z` are moved
/// to `a` to `z`.
pub open spec fn lowercase_set(set: Seq<u32>) -> Seq<u32> {
    dedup(set.map_values(|x: u32| ascii_lowercase(x)))
}

/// The structural score of two token lists, in parts. The character sets
/// are the distinct code points of each side, in order of first occurrence;
/// for `charset_low` they are the distinct code points once case no longer
/// counts. `token_qty` holds the number of long tokens of the first list, or
/// one if there is none, on both sides.
pub open spec fn structural_score(a: Seq<Seq<char>>, b: Seq<Seq<char>>) -> StructuralView {
    let set1 = dedup(code_points(concat(a)));
    let set2 = dedup(code_points(concat(b)));
    let quantity = if long_tokens(a) >= 1 {
        long_tokens(a)
    } else {
        1
    };
    StructuralView {
        charset: jaccard(set1, set2),
        charset_low: jaccard(lowercase_set(set1), lowercase_set(set2)),
        token_qty: smaller_over_larger(quantity, quantity),
        token_size: smaller_over_larger(byte_len(concat(a)), byte_len(concat(b))),
    }
}

/// The quotient of token quantities is one, whatever the two lists are.
pub proof fn lemma_token_quantity_one(a: Seq<Seq<char>>, b: Seq<Seq<char>>)
    ensures
        structural_score(a, b).token_qty.is_one(),
{
}

/// No more bytes agree than are compared.
pub proof fn lemma_equal_bytes_len(x: Seq<u8>, y: Seq<u8>, n: int)
    requires
        0 <= n,
    ensures
        equal_bytes(x, y, n) <= n,
        equal_bytes(x, y, n) == n <==> (forall|i: int| 0 <= i < n ==> x[i] == y[i]),
    decreases n,
{
    if n > 0 {
        lemma_equal_bytes_len(x, y, n - 1);
        if equal_bytes(x, y, n) == n {
            assert forall|i: int| 0 <= i < n implies x[i] == y[i] by {
                if i < n - 1 {
                }
            }
        }
    }
}

/// The exact score is one for equal texts that are not empty, and for no others.
pub proof fn lemma_exact_score_one(s1: Seq<char>, s2: Seq<char>)
    ensures
        exact_score(s1, s2).is_one() <==> s1 == s2 && s1.len() > 0,
{
    broadcast use vstd::utf8::encode_utf8_decode_utf8;

    let x = encode_utf8(s1);
    let y = encode_utf8(s2);
    let shorter = if x.len() <= y.len() {
        x.len()
    } else {
        y.len()
    };
    lemma_equal_bytes_len(x, y, shorter as int);
    crate::text::lemma_byte_len_bounds(s1);
    crate::text::lemma_byte_len_bounds(s2);
    if exact_score(s1, s2).is_one() {
        assert(x =~= y);
        assert(vstd::utf8::decode_utf8(x) == s1);
        assert(vstd::utf8::decode_utf8(y) == s2);
    }
}

/// The long tokens among the first texts of a list.
proof fn lemma_long_tokens_step(a: Seq<Seq<char>>, i: int)
    requires
        0 <= i < a.len(),
    ensures
        long_tokens(a.take(i + 1)) == long_tokens(a.take(i)) + if byte_len(a[i]) > 1 {
            1nat
        } else {
            0nat
        },
        long_tokens(a.take(i)) <= i,
    decreases i,
{
    assert(a.take(i + 1).drop_last() =~= a.take(i));
    if i > 0 {
        lemma_long_tokens_step(a, i - 1);
    }
}

/// A list with its repetitions removed holds nothing twice, and nothing
/// that the list did not hold.
proof fn lemma_dedup_distinct(s: Seq<u32>)
    ensures
        dedup(s).no_duplicates(),
        forall|i: int| 0 <= i < dedup(s).len() ==> s.contains(#[trigger] dedup(s)[i]),
    decreases s.len(),
{
    if s.len() > 0 {
        let r = dedup(s.drop_last());
        lemma_dedup_distinct(s.drop_last());
        assert forall|i: int| 0 <= i < dedup(s).len() implies s.contains(#[trigger] dedup(s)[i]) by {
            if i < r.len() {
                assert(s.drop_last().contains(r[i]));
                let k = choose|k: int| 0 <= k < s.drop_last().len() && s.drop_last()[k] == r[i];
                assert(s[k] == r[i]);
            } else {
                assert(dedup(s)[i] == s[s.len() - 1]);
            }
        }
        if !holds(r, s.last()) {
            assert forall|i: int, j: int| 0 <= i < j < r.len() + 1 implies r.push(s.last())[i] != r.push(
                s.last(),
            )[j] by {
                if j == r.len() {
                    assert(!r[i].eq_spec(&s.last()));
                }
            }
        }
    }
}

/// There are no more distinct code points than the code space has.
proof fn lemma_distinct_code_points(s: Seq<u32>)
    requires
        s.no_duplicates(),
        forall|i: int| 0 <= i < s.len() ==> #[trigger] s[i] <= 0x10ffff,
    ensures
        s.len() <= 0x110000,
{
    let t = s.map_values(|x: u32| x as int);
    assert forall|i: int, j: int| 0 <= i < t.len() && 0 <= j < t.len() && i != j implies t[i] != t[j] by {
        assert(t[i] == s[i] as int);
        assert(t[j] == s[j] as int);
    }
    t.unique_seq_to_set();
    vstd::set_lib::lemma_int_range(0, 0x110000);
    assert forall|v: int| t.to_set().contains(v) implies vstd::set_lib::set_int_range(0, 0x110000).contains(
        v,
    ) by {
        let i = choose|i: int| 0 <= i < t.len() && t[i] == v;
        assert(t[i] == s[i] as int);
    }
    vstd::set_lib::lemma_len_subset(t.to_set(), vstd::set_lib::set_int_range(0, 0x110000));
}

/// The distinct code points of a text are no more than the code space has.
proof fn lemma_charset_len(s: Seq<char>)
    ensures
        dedup(code_points(s)).len() <= 0x110000,
{
    let codes = code_points(s);
    lemma_dedup_distinct(codes);
    assert forall|i: int| 0 <= i < dedup(codes).len() implies #[trigger] dedup(codes)[i] <= 0x10ffff by {
        let k = choose|k: int| 0 <= k < codes.len() && codes[k] == dedup(codes)[i];
        vstd::utf8::char_is_scalar(s[k]);
        assert(codes[k] == s[k] as u32);
    }
    lemma_distinct_code_points(dedup(codes));
}

/// A clone of a code point is the code point.
proof fn lemma_code_point_clones()
    ensures
        clones_are_copies::<u32>(),
{
    assert forall|a: u32, b: u32| cloned(a, b) implies a == b by {}
}

/// The code points of the texts of a list, in a row.
fn code_points_of(parts: &[String]) -> (r: Vec<u32>)
    ensures
        r@ == code_points(concat(texts(parts@))),
{
    let joined = join(parts);
    let chars = chars_of(joined.as_str());
    let mut r: Vec<u32> = Vec::new();
    let mut i: usize = 0;
    while i < chars.len()
        invariant
            0 <= i <= chars.len(),
            r.len() == i,
            forall|k: int| 0 <= k < i ==> #[trigger] r@[k] == chars@[k] as u32,
        decreases chars.len() - i,
    {
        r.push(chars[i] as u32);
        i += 1;
    }
    assert(r@ =~= code_points(chars@));
    r
}

/// Each code point of a list with the letters `A` to `Z` moved to `a` to `z`.
fn lowercase_codes(codes: &Vec<u32>) -> (r: Vec<u32>)
    ensures
        r@ == codes@.map_values(|x: u32| ascii_lowercase(x)),
{
    let mut r: Vec<u32> = Vec::new();
    let mut i: usize = 0;
    while i < codes.len()
        invariant
            0 <= i <= codes.len(),
            r.len() == i,
            forall|k: int| 0 <= k < i ==> #[trigger] r@[k] == ascii_lowercase(codes@[k]),
        decreases codes.len() - i,
    {
        let x = codes[i];
        if 0x41 <= x && x <= 0x5a {
            r.push(x + 32);
        } else {
            r.push(x);
        }
        i += 1;
    }
    assert(r@ =~= codes@.map_values(|x: u32| ascii_lowercase(x)));
    r
}

/// The Jaccard index of two lists that together fit the machine.
fn jaccard_of(x: &Vec<u32>, y: &Vec<u32>) -> (r: Ratio)
    requires
        x.len() + y.len() <= usize::MAX,
    ensures
        r@ == jaccard(x@, y@),
{
    let num = intersection_len(x.as_slice(), y.as_slice());
    let den = union_len(x.as_slice(), y.as_slice());
    proof {
        lemma_count_held_len(y@, x@);
    }
    Ratio { num, den }
}

/// The exact score of two token lists: the places at which the bytes of
/// their texts agree, as far as the shorter goes, over the length of the
/// longer. It is one exactly when the texts are equal and not empty.
pub fn compute_exact_score(a: &[String], b: &[String]) -> (r: Ratio)
    ensures
        r@ == exact_score(concat(texts(a@)), concat(texts(b@))),
        r@.is_one() <==> concat(texts(a@)) == concat(texts(b@)) && concat(texts(a@)).len() > 0,
{
    let str1 = join(a);
    let str2 = join(b);
    let bytes1 = str1.as_str().as_bytes();
    let bytes2 = str2.as_str().as_bytes();
    let shorter = if bytes1.len() <= bytes2.len() {
        bytes1.len()
    } else {
        bytes2.len()
    };
    let longer = if bytes1.len() >= bytes2.len() {
        bytes1.len()
    } else {
        bytes2.len()
    };
    let mut score: usize = 0;
    let mut i: usize = 0;
    while i < shorter
        invariant
            0 <= i <= shorter,
            shorter <= bytes1.len(),
            shorter <= bytes2.len(),
            score <= i,
            score == equal_bytes(bytes1@, bytes2@, i as int),
        decreases shorter - i,
    {
        if bytes1[i] == bytes2[i] {
            score += 1;
        }
        i += 1;
    }
    proof {
        lemma_exact_score_one(str1@, str2@);
    }
    Ratio { num: score, den: longer }
}

/// The fuzzy score of two token lists, in parts: the Levenshtein similarity
/// of their texts and their Jaro-Winkler similarity without regard to case.
pub fn compute_fuzzy_score(a: &[String], b: &[String]) -> (r: FuzzyParts)
    ensures
        r@ == fuzzy_score(concat(texts(a@)), concat(texts(b@))),
{
    let str1 = join(a);
    let str2 = join(b);
    let d1 = levenshtein_similarity(str1.as_str(), str2.as_str());
    let d2 = jaro_winkler_similarity(str1.as_str(), str2.as_str(), Some(false));
    FuzzyParts { levenshtein: d1, jaro_winkler: d2 }
}

/// The number of strings of a list that take more than one byte.
fn count_long_tokens(a: &[String]) -> (n: usize)
    ensures
        n == long_tokens(texts(a@)),
{
    let mut n: usize = 0;
    let mut i: usize = 0;
    assert(texts(a@).take(0) =~= Seq::<Seq<char>>::empty());
    while i < a.len()
        invariant
            0 <= i <= a.len(),
            n <= i,
            n == long_tokens(texts(a@).take(i as int)),
        decreases a.len() - i,
    {
        proof {
            lemma_long_tokens_step(texts(a@), i as int);
        }
        if string_len(&a[i]) > 1 {
            n += 1;
        }
        i += 1;
    }
    assert(texts(a@).take(a.len() as int) =~= texts(a@));
    n
}

/// The bytes of the strings of a list together.
fn total_len(a: &[String]) -> (n: usize)
    requires
        byte_len(concat(texts(a@))) <= usize::MAX,
    ensures
        n == byte_len(concat(texts(a@))),
{
    let ghost values = texts(a@);
    let mut n: usize = 0;
    let mut i: usize = 0;
    assert(values.take(0) =~= Seq::<Seq<char>>::empty());
    assert(concat(values.take(0)) =~= Seq::<char>::empty());
    while i < a.len()
        invariant
            0 <= i <= a.len(),
            values == texts(a@),
            byte_len(concat(values)) <= usize::MAX,
            n == byte_len(concat(values.take(i as int))),
        decreases a.len() - i,
    {
        proof {
            assert(values.take(i + 1) =~= values.take(i as int).push(values[i as int]));
            lemma_concat_push(values.take(i as int), values[i as int]);
            lemma_byte_len_concat(concat(values.take(i as int)), values[i as int]);
            lemma_concat_prefix_len(values, i + 1);
        }
        n += string_len(&a[i]);
        i += 1;
    }
    assert(values.take(a.len() as int) =~= values);
    n
}

/// The quotient of the smaller of two numbers by the larger.
fn ratio_of(x: usize, y: usize) -> (r: Ratio)
    ensures
        r@ == smaller_over_larger(x as nat, y as nat),
{
    Ratio {
        num: if x <= y {
            x
        } else {
            y
        },
        den: if x >= y {
            x
        } else {
            y
        },
    }
}

/// The structural score of two token lists, in parts. The texts of each
/// list must together have a length that fits the machine. The quotient of
/// token quantities is always one.
pub fn compute_structural_score(a: &[String], b: &[String]) -> (r: StructuralParts)
    requires
        byte_len(concat(texts(a@))) <= usize::MAX,
        byte_len(concat(texts(b@))) <= usize::MAX,
    ensures
        r@ == structural_score(texts(a@), texts(b@)),
        r.token_qty@.is_one(),
{
    let codes1 = code_points_of(a);
    let codes2 = code_points_of(b);
    proof {
        lemma_code_point_clones();
        lemma_charset_len(concat(texts(a@)));
        lemma_charset_len(concat(texts(b@)));
    }
    let charset1 = uniq(codes1.as_slice());
    let charset2 = uniq(codes2.as_slice());
    let charset = jaccard_of(&charset1, &charset2);
    let charset_low1 = uniq(lowercase_codes(&charset1).as_slice());
    let charset_low2 = uniq(lowercase_codes(&charset2).as_slice());
    let charset_low = jaccard_of(&charset_low1, &charset_low2);

    let mut la = count_long_tokens(a);
    // the second quantity is taken from the first list as well
    let mut lb = count_long_tokens(a);
    if la < 1 {
        la = 1;
    }
    if lb < 1 {
        lb = 1;
    }
    let token_qty = ratio_of(la, lb);

    let size1 = total_len(a);
    let size2 = total_len(b);
    let token_size = ratio_of(size1, size2);

    StructuralParts { charset, charset_low, token_qty, token_size }
}

} // verus!

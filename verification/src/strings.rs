//! String metrics over Unicode code points.

use crate::numbers::Fraction;
use crate::numbers::Ratio;
use crate::primitives::min;
use crate::text::byte_len;
use crate::text::chars_of;
use crate::text::lemma_byte_len_bounds;
use crate::text::uppercase;
use vstd::prelude::*;

verus! {

/// What the Jaro-Winkler similarity of two texts is made of.
#[derive(Clone, Copy, Debug, PartialEq, Eq)]
pub enum JaroWinkler {
    /// The similarity is zero: a text is empty, or no character matches.
    Zero,
    /// The similarity is one: the texts are equal.
    One,
    /// The Jaro weight is the mean of the three quotients. Where the weight is
    /// above seven tenths, `prefix` tenths of what it lacks to one are added.
    Weighted { of_first: Ratio, of_second: Ratio, in_order: Ratio, prefix: usize },
}

/// The mathematical counterpart of [`JaroWinkler`].
pub enum JaroWinklerView {
    Zero,
    One,
    Weighted { of_first: Fraction, of_second: Fraction, in_order: Fraction, prefix: nat },
}

impl View for JaroWinkler {
    type V = JaroWinklerView;

    open spec fn view(&self) -> JaroWinklerView {
        match *self {
            JaroWinkler::Zero => JaroWinklerView::Zero,
            JaroWinkler::One => JaroWinklerView::One,
            JaroWinkler::Weighted { of_first, of_second, in_order, prefix } => JaroWinklerView::Weighted {
                of_first: of_first@,
                of_second: of_second@,
                in_order: in_order@,
                prefix: prefix as nat,
            },
        }
    }
}

/// How far from its own position a character may find its match: half the
/// longer length less one, and zero where that would be negative.
pub open spec fn search_radius(len_a: int, len_b: int) -> int {
    let longer = if len_a >= len_b { len_a } else { len_b };
    if longer / 2 >= 1 {
        longer / 2 - 1
    } else {
        0
    }
}

/// The first position of the other text at which character `i` may match.
pub open spec fn window_low(i: int, radius: int) -> int {
    if i >= radius {
        i - radius
    } else {
        0
    }
}

/// The last position of the other text at which character `i` may match.
pub open spec fn window_high(i: int, radius: int, len_b: int) -> int {
    if i + radius <= len_b - 1 {
        i + radius
    } else {
        len_b - 1
    }
}

/// The first position from `from` to `high` that holds `c` and is not taken.
pub open spec fn first_free(b: Seq<char>, taken: Seq<bool>, c: char, from: int, high: int) -> Option<int>
    decreases high - from + 1,
{
    if from > high {
        None
    } else if !taken[from] && b[from] == c {
        Some(from)
    } else {
        first_free(b, taken, c, from + 1, high)
    }
}

/// The position that character `i` of `a` matches, given what is taken.
pub open spec fn match_of(a: Seq<char>, b: Seq<char>, taken: Seq<bool>, i: int) -> Option<int> {
    let radius = search_radius(a.len() as int, b.len() as int);
    first_free(b, taken, a[i], window_low(i, radius), window_high(i, radius, b.len() as int))
}

/// Which characters of `b` are taken once the first `i` characters of `a`
/// have each, in order, taken the first free equal character in reach.
pub open spec fn taken_after(a: Seq<char>, b: Seq<char>, i: int) -> Seq<bool>
    decreases i,
{
    if i <= 0 {
        Seq::new(b.len(), |j: int| false)
    } else {
        let before = taken_after(a, b, i - 1);
        match match_of(a, b, before, i - 1) {
            Some(j) => before.update(j, true),
            None => before,
        }
    }
}

/// Which characters of `a` find a match in `b`.
pub open spec fn matched_of_first(a: Seq<char>, b: Seq<char>) -> Seq<bool> {
    Seq::new(a.len(), |i: int| match_of(a, b, taken_after(a, b, i), i) is Some)
}

/// Which characters of `b` are matched by one of `a`.
pub open spec fn matched_of_second(a: Seq<char>, b: Seq<char>) -> Seq<bool> {
    taken_after(a, b, a.len() as int)
}

/// The characters of a text whose flag is set, in order.
pub open spec fn picked(s: Seq<char>, flags: Seq<bool>) -> Seq<char>
    recommends
        s.len() == flags.len(),
    decreases s.len(),
{
    if s.len() == 0 {
        Seq::empty()
    } else if flags.last() {
        picked(s.drop_last(), flags.drop_last()).push(s.last())
    } else {
        picked(s.drop_last(), flags.drop_last())
    }
}

/// At how many positions two texts of one length differ.
pub open spec fn mismatches(x: Seq<char>, y: Seq<char>) -> nat
    recommends
        x.len() == y.len(),
    decreases x.len(),
{
    if x.len() == 0 {
        0
    } else {
        mismatches(x.drop_last(), y.drop_last()) + if x.last() != y.last() {
            1nat
        } else {
            0nat
        }
    }
}

/// The number of characters of `a` that find a match in `b`.
pub open spec fn match_count(a: Seq<char>, b: Seq<char>) -> nat {
    picked(a, matched_of_first(a, b)).len()
}

/// The number of matched characters that do not meet their like when the
/// matched characters of both texts are read in order.
pub open spec fn out_of_order(a: Seq<char>, b: Seq<char>) -> nat {
    mismatches(picked(a, matched_of_first(a, b)), picked(b, matched_of_second(a, b)))
}

/// The first position from `k` on, below `cap`, at which the texts differ or
/// one of them ends; `cap` if there is none.
pub open spec fn prefix_from(a: Seq<char>, b: Seq<char>, k: int, cap: int) -> int
    decreases cap - k,
{
    if k < cap && 0 <= k < a.len() && k < b.len() && a[k] == b[k] {
        prefix_from(a, b, k + 1, cap)
    } else {
        k
    }
}

/// The length of the common prefix of two texts, four at most.
pub open spec fn common_prefix(a: Seq<char>, b: Seq<char>) -> nat {
    prefix_from(a, b, 0, 4) as nat
}

/// The Jaro-Winkler similarity of two texts, in parts: one if they are equal,
/// zero if one is empty or no character matches.
pub open spec fn jaro_winkler(a: Seq<char>, b: Seq<char>) -> JaroWinklerView {
    if a == b {
        JaroWinklerView::One
    } else if a.len() == 0 || b.len() == 0 {
        JaroWinklerView::Zero
    } else if match_count(a, b) == 0 {
        JaroWinklerView::Zero
    } else {
        let m = match_count(a, b);
        let t = out_of_order(a, b) / 2;
        JaroWinklerView::Weighted {
            of_first: Fraction { num: m, den: a.len() },
            of_second: Fraction { num: m, den: b.len() },
            in_order: Fraction { num: (m - t) as nat, den: m },
            prefix: common_prefix(a, b),
        }
    }
}

/// The similarity of two texts as given: zero if one is empty; else that of
/// the texts themselves, or of their upper-case forms where case is not to count.
pub open spec fn jaro_winkler_similarity_spec(
    s1: Seq<char>,
    s2: Seq<char>,
    case_sensitive: bool,
) -> JaroWinklerView {
    if s1.len() == 0 || s2.len() == 0 {
        JaroWinklerView::Zero
    } else if case_sensitive {
        jaro_winkler(s1, s2)
    } else {
        jaro_winkler(uppercase(s1), uppercase(s2))
    }
}

/// Setting a flag that was clear picks one character more.
proof fn lemma_picked_set(s: Seq<char>, flags: Seq<bool>, j: int)
    requires
        s.len() == flags.len(),
        0 <= j < flags.len(),
        !flags[j],
    ensures
        picked(s, flags.update(j, true)).len() == picked(s, flags).len() + 1,
    decreases s.len(),
{
    let set = flags.update(j, true);
    if j == s.len() - 1 {
        assert(set.drop_last() =~= flags.drop_last());
    } else {
        assert(set.drop_last() =~= flags.drop_last().update(j, true));
        lemma_picked_set(s.drop_last(), flags.drop_last(), j);
    }
}

/// What one more position adds to the characters picked from a prefix.
proof fn lemma_picked_step(s: Seq<char>, flags: Seq<bool>, k: int)
    requires
        s.len() == flags.len(),
        0 <= k < s.len(),
    ensures
        picked(s.take(k + 1), flags.take(k + 1)) == if flags[k] {
            picked(s.take(k), flags.take(k)).push(s[k])
        } else {
            picked(s.take(k), flags.take(k))
        },
{
    assert(s.take(k + 1).drop_last() =~= s.take(k));
    assert(flags.take(k + 1).drop_last() =~= flags.take(k));
}

/// What is picked from a prefix is a prefix of what is picked from the whole.
proof fn lemma_picked_prefix(s: Seq<char>, flags: Seq<bool>, k: int)
    requires
        s.len() == flags.len(),
        0 <= k <= s.len(),
    ensures
        picked(s.take(k), flags.take(k)).len() <= picked(s, flags).len(),
        picked(s.take(k), flags.take(k)) =~= picked(s, flags).take(
            picked(s.take(k), flags.take(k)).len() as int,
        ),
    decreases s.len() - k,
{
    if k == s.len() {
        assert(s.take(k) =~= s);
        assert(flags.take(k) =~= flags);
    } else {
        lemma_picked_step(s, flags, k);
        lemma_picked_prefix(s, flags, k + 1);
    }
}

/// Two texts of one length differ at no more positions than they have.
proof fn lemma_mismatches_len(x: Seq<char>, y: Seq<char>)
    requires
        x.len() == y.len(),
    ensures
        mismatches(x, y) <= x.len(),
    decreases x.len(),
{
    if x.len() > 0 {
        lemma_mismatches_len(x.drop_last(), y.drop_last());
    }
}

/// The first free position from `low` to `high` that holds `c`.
fn find_free(b: &Vec<char>, taken: &Vec<bool>, c: char, low: usize, high: usize) -> (r: Option<usize>)
    requires
        taken.len() == b.len(),
        high < b.len(),
    ensures
        match r {
            Some(j) => first_free(b@, taken@, c, low as int, high as int) == Some(j as int) && low <= j
                <= high && !taken@[j as int],
            None => first_free(b@, taken@, c, low as int, high as int) is None,
        },
{
    let mut j: usize = low;
    while j <= high
        invariant
            taken.len() == b.len(),
            high < b.len(),
            low <= j,
            first_free(b@, taken@, c, j as int, high as int) == first_free(
                b@,
                taken@,
                c,
                low as int,
                high as int,
            ),
        decreases high + 1 - j,
    {
        if !taken[j] && b[j] == c {
            return Some(j);
        }
        j += 1;
    }
    None
}

/// Lets each character of `a`, in order, take the first free equal character
/// of `b` within reach. Returns the flags of both texts and the number of
/// matches.
fn match_characters(a: &Vec<char>, b: &Vec<char>) -> (r: (Vec<bool>, Vec<bool>, usize))
    requires
        a.len() > 0,
        b.len() > 0,
    ensures
        r.0@ == matched_of_first(a@, b@),
        r.1@ == matched_of_second(a@, b@),
        r.2 == match_count(a@, b@),
        r.2 == picked(b@, r.1@).len(),
        r.0.len() == a.len(),
        r.1.len() == b.len(),
        r.2 <= a.len(),
{
    let len_a = a.len();
    let len_b = b.len();
    let longer = if len_a >= len_b {
        len_a
    } else {
        len_b
    };
    let radius = if longer / 2 >= 1 {
        longer / 2 - 1
    } else {
        0
    };
    let mut of_a: Vec<bool> = Vec::new();
    let mut of_b: Vec<bool> = vec![false; len_b];
    let mut m: usize = 0;
    proof {
        lemma_picked_zero(b@, of_b@);
    }
    let mut i: usize = 0;
    while i < len_a
        invariant
            len_a == a.len(),
            len_b == b.len(),
            len_b > 0,
            radius == search_radius(len_a as int, len_b as int),
            0 <= i <= len_a,
            of_a.len() == i,
            of_b.len() == len_b,
            of_b@ == taken_after(a@, b@, i as int),
            forall|k: int| 0 <= k < i ==> of_a@[k] == (match_of(a@, b@, taken_after(a@, b@, k), k) is Some),
            m == picked(a@.take(i as int), of_a@).len(),
            m == picked(b@, of_b@).len(),
            m <= i,
        decreases len_a - i,
    {
        let low = if i >= radius {
            i - radius
        } else {
            0
        };
        let high = if i < len_b && radius < len_b - i {
            i + radius
        } else {
            len_b - 1
        };
        let ghost before = of_b@;
        let ghost flags = of_a@;
        let found = find_free(b, &of_b, a[i], low, high);
        match found {
            Some(j) => {
                of_b[j] = true;
                of_a.push(true);
                m += 1;
                proof {
                    lemma_picked_set(b@, before, j as int);
                }
            },
            None => {
                of_a.push(false);
            },
        }
        proof {
            assert(of_a@.take(i as int) =~= flags);
            lemma_picked_step(a@.take(i + 1), of_a@, i as int);
            assert(a@.take(i + 1).take(i as int) =~= a@.take(i as int));
        }
        i += 1;
    }
    assert(a@.take(len_a as int) =~= a@);
    assert(of_a@ =~= matched_of_first(a@, b@));
    (of_a, of_b, m)
}

/// With no flag set, nothing is picked.
proof fn lemma_picked_zero(s: Seq<char>, flags: Seq<bool>)
    requires
        s.len() == flags.len(),
        forall|j: int| 0 <= j < flags.len() ==> !flags[j],
    ensures
        picked(s, flags).len() == 0,
    decreases s.len(),
{
    if s.len() > 0 {
        lemma_picked_zero(s.drop_last(), flags.drop_last());
    }
}

/// Reads the flagged characters of both texts in order, pair by pair, and
/// counts the pairs that differ.
fn count_out_of_order(a: &Vec<char>, b: &Vec<char>, of_a: &Vec<bool>, of_b: &Vec<bool>) -> (n: usize)
    requires
        of_a.len() == a.len(),
        of_b.len() == b.len(),
        picked(a@, of_a@).len() == picked(b@, of_b@).len(),
    ensures
        n == mismatches(picked(a@, of_a@), picked(b@, of_b@)),
        n <= picked(a@, of_a@).len(),
{
    let len_a = a.len();
    let len_b = b.len();
    let mut n: usize = 0;
    let mut k: usize = 0;
    let mut i: usize = 0;
    while i < len_a
        invariant
            len_a == a.len(),
            len_b == b.len(),
            of_a.len() == a.len(),
            of_b.len() == b.len(),
            picked(a@, of_a@).len() == picked(b@, of_b@).len(),
            0 <= i <= len_a,
            0 <= k <= len_b,
            picked(a@.take(i as int), of_a@.take(i as int)).len() == picked(
                b@.take(k as int),
                of_b@.take(k as int),
            ).len(),
            n == mismatches(
                picked(a@.take(i as int), of_a@.take(i as int)),
                picked(b@.take(k as int), of_b@.take(k as int)),
            ),
            n <= i,
        decreases len_a - i,
    {
        let ghost pa = picked(a@.take(i as int), of_a@.take(i as int));
        let ghost pb = picked(b@.take(k as int), of_b@.take(k as int));
        proof {
            lemma_picked_step(a@, of_a@, i as int);
        }
        if of_a[i] {
            let mut j: usize = k;
            proof {
                lemma_picked_prefix(a@, of_a@, i + 1);
            }
            while j < len_b && !of_b[j]
                invariant
                    len_b == b.len(),
                    of_b.len() == b.len(),
                    k <= j <= len_b,
                    picked(b@.take(j as int), of_b@.take(j as int)) == pb,
                decreases len_b - j,
            {
                proof {
                    lemma_picked_step(b@, of_b@, j as int);
                }
                j += 1;
            }
            proof {
                if j == len_b {
                    assert(b@.take(j as int) =~= b@);
                    assert(of_b@.take(j as int) =~= of_b@);
                }
                lemma_picked_step(b@, of_b@, j as int);
                assert(pa.push(a@[i as int]).drop_last() =~= pa);
                assert(pb.push(b@[j as int]).drop_last() =~= pb);
            }
            if a[i] != b[j] {
                n += 1;
            }
            k = j + 1;
        }
        i += 1;
    }
    proof {
        assert(a@.take(len_a as int) =~= a@);
        assert(of_a@.take(len_a as int) =~= of_a@);
        lemma_picked_prefix(b@, of_b@, k as int);
        assert(picked(b@.take(k as int), of_b@.take(k as int)) =~= picked(b@, of_b@));
        lemma_mismatches_len(picked(a@, of_a@), picked(b@, of_b@));
    }
    n
}

/// The length of the common prefix of two texts, four at most.
fn common_prefix_len(a: &Vec<char>, b: &Vec<char>) -> (l: usize)
    ensures
        l == common_prefix(a@, b@),
        l <= 4,
{
    let mut l: usize = 0;
    while l < 4 && l < a.len() && l < b.len() && a[l] == b[l]
        invariant
            0 <= l <= 4,
            prefix_from(a@, b@, l as int, 4) == prefix_from(a@, b@, 0, 4),
        decreases 4 - l,
    {
        l += 1;
    }
    l
}

/// The Jaro-Winkler similarity of two strings, in parts. Without a value for
/// `case_sensitive`, case counts.
pub fn jaro_winkler_similarity(s1: &str, s2: &str, case_sensitive: Option<bool>) -> (r: JaroWinkler)
    ensures
        r@ == jaro_winkler_similarity_spec(
            s1@,
            s2@,
            match case_sensitive {
                Some(c) => c,
                None => true,
            },
        ),
{
    let case_sensitive = match case_sensitive {
        Some(c) => c,
        None => true,
    };
    if s1.is_empty() || s2.is_empty() {
        return JaroWinkler::Zero;
    }
    let (t1, t2) = if !case_sensitive {
        (s1.to_uppercase(), s2.to_uppercase())
    } else {
        (s1.to_owned(), s2.to_owned())
    };
    if t1 == t2 {
        return JaroWinkler::One;
    }
    let a = chars_of(t1.as_str());
    let b = chars_of(t2.as_str());
    if a.len() == 0 || b.len() == 0 {
        return JaroWinkler::Zero;
    }
    let (of_a, of_b, m) = match_characters(&a, &b);
    if m == 0 {
        return JaroWinkler::Zero;
    }
    let n = count_out_of_order(&a, &b, &of_a, &of_b);
    let t = n / 2;
    let prefix = common_prefix_len(&a, &b);
    JaroWinkler::Weighted {
        of_first: Ratio { num: m, den: a.len() },
        of_second: Ratio { num: m, den: b.len() },
        in_order: Ratio { num: m - t, den: m },
        prefix,
    }
}

/// What it costs to put `y` where `x` stands.
pub open spec fn substitution_cost(x: char, y: char) -> nat {
    if x == y {
        0
    } else {
        1
    }
}

/// The least of three numbers.
pub open spec fn min3(x: nat, y: nat, z: nat) -> nat {
    if x <= y && x <= z {
        x
    } else if y <= z {
        y
    } else {
        z
    }
}

/// The least number of insertions, deletions and substitutions of single
/// characters that turn `a` into `b`.
pub open spec fn edit_distance(a: Seq<char>, b: Seq<char>) -> nat
    decreases a.len() + b.len(),
{
    if a.len() == 0 {
        b.len()
    } else if b.len() == 0 {
        a.len()
    } else {
        min3(
            edit_distance(a.drop_last(), b.drop_last()) + substitution_cost(a.last(), b.last()),
            edit_distance(a.drop_last(), b) + 1,
            edit_distance(a, b.drop_last()) + 1,
        )
    }
}

/// The distance of two texts that are not empty, as this library defines it.
/// It is the edit distance with one change. Where the edit distance lets the
/// last character of `a` be matched against an earlier character of `b`, at
/// the edit distance of `a` and `b` without its last character and one, this
/// distance puts the length of `a` and one in that place. So it can lie
/// above the edit distance (`new-york` and `new-yorkers`: 4, not 3) and
/// below it (`x` and `abcdefgh`: 2, not 8).
pub open spec fn capped_distance(a: Seq<char>, b: Seq<char>) -> nat
    recommends
        a.len() > 0,
        b.len() > 0,
{
    min3(
        edit_distance(a.drop_last(), b.drop_last()) + substitution_cost(a.last(), b.last()),
        edit_distance(a.drop_last(), b) + 1,
        a.len() + 1,
    )
}

/// The distance of two texts: zero if one is empty; else the capped distance,
/// taken with the text of fewer bytes first (the first, if they have as many).
pub open spec fn levenshtein(a: Seq<char>, b: Seq<char>) -> nat {
    if a.len() == 0 || b.len() == 0 {
        0
    } else if byte_len(a) > byte_len(b) {
        capped_distance(b, a)
    } else {
        capped_distance(a, b)
    }
}

/// The larger of the byte lengths of two texts.
pub open spec fn longer_byte_len(a: Seq<char>, b: Seq<char>) -> nat {
    if byte_len(a) >= byte_len(b) {
        byte_len(a)
    } else {
        byte_len(b)
    }
}

/// The similarity of two texts: what the longer byte length exceeds the
/// distance by, over the longer byte length.
pub open spec fn levenshtein_similarity_spec(a: Seq<char>, b: Seq<char>) -> Fraction {
    Fraction { num: (longer_byte_len(a, b) - levenshtein(a, b)) as nat, den: longer_byte_len(a, b) }
}

/// A text that is not empty has the similarity one with itself, whether or
/// not case counts.
pub proof fn lemma_jaro_winkler_same(a: Seq<char>, case_sensitive: bool)
    requires
        a.len() > 0,
    ensures
        jaro_winkler_similarity_spec(a, a, case_sensitive) == JaroWinklerView::One,
{
}

/// Whether the cells `from..to` of a row hold the edit distances of the
/// prefixes of `a` of those lengths and the first `j` characters of `b`.
spec fn row_holds(row: Seq<usize>, a: Seq<char>, b: Seq<char>, from: int, to: int, j: int) -> bool {
    forall|k: int| from <= k < to ==> #[trigger] row[k] == edit_distance(a.take(k), b.take(j))
}

/// The edit distance is at most the length of the longer text.
pub proof fn lemma_edit_distance_bound(a: Seq<char>, b: Seq<char>)
    ensures
        edit_distance(a, b) <= a.len() || edit_distance(a, b) <= b.len(),
    decreases a.len() + b.len(),
{
    if a.len() > 0 && b.len() > 0 {
        lemma_edit_distance_bound(a.drop_last(), b.drop_last());
    }
}

/// A text is at distance zero from itself.
pub proof fn lemma_edit_distance_same(a: Seq<char>)
    ensures
        edit_distance(a, a) == 0,
    decreases a.len(),
{
    if a.len() > 0 {
        lemma_edit_distance_same(a.drop_last());
    }
}

/// The distance is at most the number of characters of the longer text, and
/// so at most the longer byte length.
pub proof fn lemma_levenshtein_bound(a: Seq<char>, b: Seq<char>)
    ensures
        levenshtein(a, b) <= a.len() || levenshtein(a, b) <= b.len(),
        levenshtein(a, b) <= longer_byte_len(a, b),
{
    lemma_byte_len_bounds(a);
    lemma_byte_len_bounds(b);
    if a.len() > 0 && b.len() > 0 {
        lemma_edit_distance_bound(a.drop_last(), b.drop_last());
        lemma_edit_distance_bound(b.drop_last(), a.drop_last());
    }
}

/// For texts that are not empty the similarity lies between zero and one, and
/// that of a text with itself is one.
pub proof fn lemma_levenshtein_similarity_unit(a: Seq<char>, b: Seq<char>)
    requires
        a.len() > 0,
        b.len() > 0,
    ensures
        levenshtein_similarity_spec(a, b).is_unit(),
        levenshtein(a, a) == 0,
        levenshtein_similarity_spec(a, a).is_one(),
{
    lemma_levenshtein_bound(a, b);
    lemma_byte_len_bounds(a);
    lemma_byte_len_bounds(b);
    lemma_edit_distance_same(a.drop_last());
}

/// The distance between two strings, counted in characters. It is zero when
/// one of them is empty, and otherwise the capped distance.
pub fn levenshtein_distance(a: &str, b: &str) -> (d: usize)
    ensures
        d == levenshtein(a@, b@),
        d <= a@.len() || d <= b@.len(),
{
    if a.is_empty() || b.is_empty() {
        return 0;
    }
    let (a, b) = if a.as_bytes().len() > b.as_bytes().len() {
        (b, a)
    } else {
        (a, b)
    };
    let a_chars = chars_of(a);
    let b_chars = chars_of(b);
    let alen = a_chars.len();
    let blen = b_chars.len();

    // row[i] is the edit distance of the first i characters of a and the
    // characters of b read so far. The cell for the whole of a is not kept:
    // its place is taken by the length of a.
    let mut row: Vec<usize> = Vec::new();
    let mut i: usize = 0;
    while i < alen
        invariant
            0 <= i <= alen,
            alen == a_chars.len(),
            row.len() == i,
            row_holds(row@, a_chars@, b_chars@, 0, i as int, 0),
        decreases alen - i,
    {
        row.push(i);
        i += 1;
    }
    let mut res: usize = 0;
    let mut j: usize = 0;
    while j < blen
        invariant
            0 <= j <= blen,
            alen == a_chars.len(),
            blen == b_chars.len(),
            alen > 0,
            row.len() == alen,
            row_holds(row@, a_chars@, b_chars@, 0, alen as int, j as int),
            j > 0 ==> res == capped_distance(a_chars@, b_chars@.take(j as int)),
        decreases blen - j,
    {
        res = j + 1;
        let mut i: usize = 0;
        while i < alen
            invariant
                0 <= i <= alen,
                0 <= j < blen,
                alen == a_chars.len(),
                blen == b_chars.len(),
                alen > 0,
                row.len() == alen,
                row_holds(row@, a_chars@, b_chars@, 0, i as int, j + 1),
                row_holds(row@, a_chars@, b_chars@, i as int, alen as int, j as int),
                i < alen ==> res == edit_distance(a_chars@.take(i as int), b_chars@.take(j + 1)),
                i == alen ==> res == capped_distance(a_chars@, b_chars@.take(j + 1)),
            decreases alen - i,
        {
            let tmp = row[i];
            row[i] = res;
            let cost: usize = if b_chars[j] == a_chars[i] {
                0
            } else {
                1
            };
            let beside = if i + 1 < alen {
                row[i + 1]
            } else {
                alen
            };
            proof {
                let x = a_chars@.take(i + 1);
                let y = b_chars@.take(j + 1);
                assert(x.drop_last() =~= a_chars@.take(i as int));
                assert(y.drop_last() =~= b_chars@.take(j as int));
                lemma_edit_distance_bound(a_chars@.take(i as int), b_chars@.take(j as int));
            }
            let cells: [usize; 3] = [tmp + cost, res.saturating_add(1), beside.saturating_add(1)];
            res = min(cells.as_slice());
            i += 1;
        }
        j += 1;
    }
    proof {
        assert(b_chars@.take(blen as int) =~= b_chars@);
        lemma_levenshtein_bound(a@, b@);
    }
    res
}

/// The similarity of two strings: what the longer byte length exceeds their
/// distance by, over the longer byte length. The quotient has no value when
/// both strings are empty.
pub fn levenshtein_similarity(a: &str, b: &str) -> (r: Ratio)
    ensures
        r@ == levenshtein_similarity_spec(a@, b@),
        r.num <= r.den,
{
    let la = a.as_bytes().len();
    let lb = b.as_bytes().len();
    let len = if la >= lb {
        la
    } else {
        lb
    };
    let dist = levenshtein_distance(a, b);
    proof {
        lemma_levenshtein_bound(a@, b@);
    }
    Ratio { num: len - dist, den: len }
}

} // verus!

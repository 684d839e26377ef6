//! Strings as sequences of characters, and their length in bytes.

use vstd::prelude::*;
use vstd::string::StringExecFns;
use vstd::utf8::encode_utf8;

verus! {

/// The number of bytes that a text takes in UTF-8.
pub open spec fn byte_len(s: Seq<char>) -> nat {
    encode_utf8(s).len()
}

/// The mathematical counterparts of the items of a list.
pub open spec fn views<T: View>(items: Seq<T>) -> Seq<T::V> {
    Seq::new(items.len(), |i: int| items[i]@)
}

/// The characters of each string of a list.
pub open spec fn texts(parts: Seq<String>) -> Seq<Seq<char>> {
    Seq::new(parts.len(), |i: int| parts[i]@)
}

/// The lists of a list written one after the other.
pub open spec fn concat<T>(parts: Seq<Seq<T>>) -> Seq<T>
    decreases parts.len(),
{
    if parts.len() == 0 {
        Seq::empty()
    } else {
        concat(parts.drop_last()) + parts.last()
    }
}

/// The lower-case form that the standard library gives a text.
pub uninterp spec fn lowercase(s: Seq<char>) -> Seq<char>;

/// Each text of a list in lower case.
pub open spec fn lowered(parts: Seq<Seq<char>>) -> Seq<Seq<char>> {
    Seq::new(parts.len(), |i: int| lowercase(parts[i]))
}

/// The upper-case form that the standard library gives a text.
pub uninterp spec fn uppercase(s: Seq<char>) -> Seq<char>;

/// `str::to_lowercase`: the result is a function of the text alone, here
/// called `lowercase`. Nothing else is claimed of it.
pub assume_specification[ str::to_lowercase ](s: &str) -> (r: String)
    ensures
        r@ == lowercase(s@),
;

/// `str::to_uppercase`: the result is a function of the text alone, here
/// called `uppercase`. Nothing else is claimed of it.
pub assume_specification[ str::to_uppercase ](s: &str) -> (r: String)
    ensures
        r@ == uppercase(s@),
;

/// Encoding goes character by character, so it distributes over `+`.
pub proof fn lemma_encode_concat(a: Seq<char>, b: Seq<char>)
    ensures
        encode_utf8(a + b) == encode_utf8(a) + encode_utf8(b),
    decreases a.len(),
{
    if a.len() > 0 {
        assert((a + b).drop_first() =~= a.drop_first() + b);
        lemma_encode_concat(a.drop_first(), b);
    }
}

/// The byte length of two texts in a row is the sum of their byte lengths.
pub proof fn lemma_byte_len_concat(a: Seq<char>, b: Seq<char>)
    ensures
        byte_len(a + b) == byte_len(a) + byte_len(b),
{
    lemma_encode_concat(a, b);
}

/// Every character takes one to four bytes.
pub proof fn lemma_byte_len_bounds(s: Seq<char>)
    ensures
        s.len() <= byte_len(s) <= 4 * s.len(),
    decreases s.len(),
{
    if s.len() > 0 {
        lemma_byte_len_bounds(s.drop_first());
    }
}

/// A list with one more list at its end.
pub proof fn lemma_concat_push<T>(parts: Seq<Seq<T>>, last: Seq<T>)
    ensures
        concat(parts.push(last)) == concat(parts) + last,
{
    assert(parts.push(last).drop_last() =~= parts);
}

/// The first texts of a list are together no longer than all of them.
pub proof fn lemma_concat_prefix_len(values: Seq<Seq<char>>, k: int)
    requires
        0 <= k <= values.len(),
    ensures
        byte_len(concat(values.take(k))) <= byte_len(concat(values)),
    decreases values.len() - k,
{
    if k == values.len() {
        assert(values.take(k) =~= values);
    } else {
        assert(values.take(k + 1) =~= values.take(k).push(values[k]));
        lemma_concat_push(values.take(k), values[k]);
        lemma_byte_len_concat(concat(values.take(k)), values[k]);
        lemma_concat_prefix_len(values, k + 1);
    }
}

/// The byte length of a string.
pub fn string_len(s: &String) -> (n: usize)
    ensures
        n == byte_len(s@),
{
    s.as_str().as_bytes().len()
}

/// The byte length of the strings of a list together, if the machine can
/// count it.
pub fn checked_total_len(parts: &[String]) -> (r: Option<usize>)
    ensures
        match r {
            Some(n) => n == byte_len(concat(texts(parts@))),
            None => byte_len(concat(texts(parts@))) > usize::MAX,
        },
{
    let ghost values = texts(parts@);
    let mut total: usize = 0;
    let mut i: usize = 0;
    while i < parts.len()
        invariant
            0 <= i <= parts.len(),
            values == texts(parts@),
            total == byte_len(concat(values.take(i as int))),
        decreases parts.len() - i,
    {
        proof {
            assert(values.take(i + 1) =~= values.take(i as int).push(values[i as int]));
            lemma_concat_push(values.take(i as int), values[i as int]);
            lemma_byte_len_concat(concat(values.take(i as int)), values[i as int]);
            lemma_concat_prefix_len(values, i + 1);
        }
        match total.checked_add(string_len(&parts[i])) {
            Some(sum) => {
                total = sum;
            },
            None => {
                return None;
            },
        }
        i += 1;
    }
    assert(values.take(parts.len() as int) =~= values);
    Some(total)
}

/// The characters of a string, in order.
pub fn chars_of(s: &str) -> (r: Vec<char>)
    ensures
        r@ == s@,
{
    broadcast use vstd::string::group_string_axioms;

    let mut r: Vec<char> = Vec::new();
    for c in it: s.chars()
        invariant
            it.seq() == s@,
            r@ == it.seq().take(it.index()),
    {
        r.push(c);
    }
    r
}

/// The strings of a list written one after the other, with nothing between.
pub fn join(parts: &[String]) -> (r: String)
    ensures
        r@ == concat(texts(parts@)),
{
    let mut r = String::new();
    let mut i: usize = 0;
    while i < parts.len()
        invariant
            0 <= i <= parts.len(),
            r@ == concat(texts(parts@).take(i as int)),
        decreases parts.len() - i,
    {
        r.append(parts[i].as_str());
        proof {
            let all = texts(parts@);
            assert(all.take(i + 1) =~= all.take(i as int).push(parts@[i as int]@));
            lemma_concat_push(all.take(i as int), parts@[i as int]@);
        }
        i += 1;
    }
    assert(texts(parts@).take(i as int) =~= texts(parts@));
    r
}

/// Each string of a list in lower case.
pub fn lowercase_all(parts: &[String]) -> (r: Vec<String>)
    ensures
        texts(r@) == lowered(texts(parts@)),
{
    let mut r: Vec<String> = Vec::new();
    let mut i: usize = 0;
    while i < parts.len()
        invariant
            0 <= i <= parts.len(),
            r.len() == i,
            forall|k: int| 0 <= k < i ==> (#[trigger] r@[k])@ == lowercase(parts@[k]@),
        decreases parts.len() - i,
    {
        r.push(parts[i].as_str().to_lowercase());
        i += 1;
    }
    r
}

/// A copy of a list of strings.
pub fn copy_strings(parts: &[String]) -> (r: Vec<String>)
    ensures
        r@ == parts@,
{
    let mut r: Vec<String> = Vec::new();
    let mut i: usize = 0;
    while i < parts.len()
        invariant
            0 <= i <= parts.len(),
            r@ == parts@.take(i as int),
        decreases parts.len() - i,
    {
        r.push(parts[i].clone());
        i += 1;
    }
    r
}

} // verus!

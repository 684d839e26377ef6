//! Tokens of an utterance, with their place in its text, and the window of
//! tokens that comes closest to a wanted length.

use crate::text::byte_len;
use crate::text::concat;
use crate::text::lemma_byte_len_concat;
use crate::text::lemma_concat_prefix_len;
use crate::text::lemma_concat_push;
use crate::text::string_len;
use crate::text::texts;
use vstd::prelude::*;

verus! {

/// A token of an utterance. `char_start` and `char_end` count bytes in the
/// text made of all tokens in a row.
#[derive(Debug)]
pub struct Token {
    pub value: String,
    pub is_space: bool,
    pub char_start: usize,
    pub char_end: usize,
}

/// The mathematical counterpart of [`Token`].
pub struct TokenView {
    pub value: Seq<char>,
    pub is_space: bool,
    pub char_start: nat,
    pub char_end: nat,
}

impl View for Token {
    type V = TokenView;

    open spec fn view(&self) -> TokenView {
        TokenView {
            value: self.value@,
            is_space: self.is_space,
            char_start: self.char_start as nat,
            char_end: self.char_end as nat,
        }
    }
}

impl Clone for Token {
    fn clone(&self) -> (r: Self)
        ensures
            r == *self,
    {
        Token {
            value: self.value.clone(),
            is_space: self.is_space,
            char_start: self.char_start,
            char_end: self.char_end,
        }
    }
}

/// The mathematical counterparts of a list of tokens.
pub open spec fn token_views(tokens: Seq<Token>) -> Seq<TokenView> {
    Seq::new(tokens.len(), |i: int| tokens[i]@)
}

/// Whether a text is made of the space character alone. The empty text is.
pub open spec fn all_spaces(s: Seq<char>) -> bool {
    forall|i: int| 0 <= i < s.len() ==> s[i] == ' '
}

/// The token that the text at place `i` of `values` gives.
pub open spec fn token_at(values: Seq<Seq<char>>, i: int) -> TokenView {
    TokenView {
        value: values[i],
        is_space: all_spaces(values[i]),
        char_start: byte_len(concat(values.take(i))),
        char_end: byte_len(concat(values.take(i + 1))),
    }
}

/// The tokens that a list of texts gives.
pub open spec fn tokens_of(values: Seq<Seq<char>>) -> Seq<TokenView> {
    Seq::new(values.len(), |i: int| token_at(values, i))
}

/// Whether tokens lie one after the other from byte 0 on, each as long as
/// its text, and each flagged as a space exactly if it is one.
pub open spec fn contiguous(tokens: Seq<TokenView>) -> bool {
    &&& forall|i: int|
        0 <= i < tokens.len() ==> (#[trigger] tokens[i]).char_end == tokens[i].char_start + byte_len(
            tokens[i].value,
        )
    &&& forall|i: int| 0 <= i < tokens.len() ==> (#[trigger] tokens[i]).is_space == all_spaces(tokens[i].value)
    &&& tokens.len() > 0 ==> tokens[0].char_start == 0
    &&& forall|i: int| 0 < i < tokens.len() ==> (#[trigger] tokens[i]).char_start == tokens[i - 1].char_end
}

/// The bytes of `k` tokens from `start` on.
pub open spec fn taken_len(tokens: Seq<TokenView>, start: int, k: int) -> nat
    decreases k,
{
    if k <= 0 {
        0
    } else {
        taken_len(tokens, start, k - 1) + byte_len(tokens[start + k - 1].value)
    }
}

/// Whether a window of `k` tokens from `start` takes no further token: there
/// is none, or the window has reached the wanted length, or it is not empty
/// and the next token would leave it farther from the wanted length than it is.
pub open spec fn window_stops(tokens: Seq<TokenView>, start: int, desired: int, k: int) -> bool {
    ||| start + k >= tokens.len()
    ||| taken_len(tokens, start, k) >= desired
    ||| (taken_len(tokens, start, k) > 0 && byte_len(tokens[start + k].value) > 2 * (desired - taken_len(
        tokens,
        start,
        k,
    )))
}

/// The least number of tokens, `k` or more, at which the window stops.
pub open spec fn window_grown(tokens: Seq<TokenView>, start: int, desired: int, k: int) -> int
    decreases tokens.len() - start - k,
{
    if window_stops(tokens, start, desired, k) {
        k
    } else {
        window_grown(tokens, start, desired, k + 1)
    }
}

/// The number of tokens in the window from `start` for a wanted length: as
/// many as it grows to, less a space at its end.
pub open spec fn window_len(tokens: Seq<TokenView>, start: int, desired: int) -> int {
    let n = window_grown(tokens, start, desired, 0);
    if n > 0 && tokens[start + n - 1].is_space {
        n - 1
    } else {
        n
    }
}

/// The tokens of a list of texts lie one after the other.
pub proof fn lemma_tokens_of_contiguous(values: Seq<Seq<char>>)
    ensures
        contiguous(tokens_of(values)),
{
    let tokens = tokens_of(values);
    assert forall|i: int| 0 <= i < tokens.len() implies (#[trigger] tokens[i]).char_end == tokens[i].char_start
        + byte_len(tokens[i].value) by {
        assert(values.take(i + 1) =~= values.take(i).push(values[i]));
        lemma_concat_push(values.take(i), values[i]);
        lemma_byte_len_concat(concat(values.take(i)), values[i]);
    }
    if tokens.len() > 0 {
        assert(values.take(0) =~= Seq::<Seq<char>>::empty());
        assert(concat(values.take(0)) =~= Seq::<char>::empty());
    }
    assert forall|i: int| 0 < i < tokens.len() implies (#[trigger] tokens[i]).char_start == tokens[i
        - 1].char_end by {
        assert(values.take(i - 1 + 1) =~= values.take(i));
    }
}

/// The window grows to a number of tokens that are there, and takes all
/// tokens that it does not stop before.
pub proof fn lemma_window_grown(tokens: Seq<TokenView>, start: int, desired: int, k: int)
    requires
        0 <= start,
        0 <= k,
        start + k <= tokens.len(),
    ensures
        k <= window_grown(tokens, start, desired, k) <= tokens.len() - start,
        window_stops(tokens, start, desired, window_grown(tokens, start, desired, k)),
        forall|n: int|
            k <= n < window_grown(tokens, start, desired, k) ==> !window_stops(tokens, start, desired, n),
    decreases tokens.len() - start - k,
{
    if !window_stops(tokens, start, desired, k) {
        lemma_window_grown(tokens, start, desired, k + 1);
    }
}

/// Whether a string is made of the space character alone.
pub fn is_space(s: &str) -> (r: bool)
    ensures
        r == all_spaces(s@),
{
    broadcast use vstd::string::group_string_axioms;

    let mut r = true;
    for c in it: s.chars()
        invariant
            it.seq() == s@,
            r == all_spaces(s@.take(it.index())),
    {
        assert(s@.take(it.index() + 1) =~= s@.take(it.index()).push(c));
        if c != ' ' {
            r = false;
            assert(s@.take(it.index() + 1)[it.index()] != ' ');
        }
    }
    assert(s@.take(s@.len() as int) =~= s@);
    r
}

/// The tokens of an utterance, from its texts in order. The texts together
/// must have a length that fits the machine.
pub fn to_tokens(str_tokens: &Vec<String>) -> (tokens: Vec<Token>)
    requires
        byte_len(concat(texts(str_tokens@))) <= usize::MAX,
    ensures
        tokens.len() == str_tokens.len(),
        token_views(tokens@) == tokens_of(texts(str_tokens@)),
        contiguous(token_views(tokens@)),
{
    let ghost values = texts(str_tokens@);
    let mut tokens: Vec<Token> = Vec::new();
    let mut char_index: usize = 0;
    let mut i: usize = 0;
    assert(values.take(0) =~= Seq::<Seq<char>>::empty());
    assert(concat(values.take(0)) =~= Seq::<char>::empty());
    while i < str_tokens.len()
        invariant
            0 <= i <= str_tokens.len(),
            values == texts(str_tokens@),
            byte_len(concat(values)) <= usize::MAX,
            tokens.len() == i,
            char_index == byte_len(concat(values.take(i as int))),
            forall|k: int| 0 <= k < i ==> (#[trigger] tokens@[k])@ == token_at(values, k),
        decreases str_tokens.len() - i,
    {
        let str_token = &str_tokens[i];
        let len = string_len(str_token);
        proof {
            assert(values.take(i + 1) =~= values.take(i as int).push(values[i as int]));
            lemma_concat_push(values.take(i as int), values[i as int]);
            lemma_byte_len_concat(concat(values.take(i as int)), values[i as int]);
            lemma_concat_prefix_len(values, i + 1);
        }
        let token = Token {
            value: str_token.clone(),
            is_space: is_space(str_token.as_str()),
            char_start: char_index,
            char_end: char_index + len,
        };
        tokens.push(token);
        char_index += len;
        i += 1;
    }
    proof {
        assert(token_views(tokens@) =~= tokens_of(values));
        lemma_tokens_of_contiguous(values);
    }
    tokens
}

/// The window of tokens from `start` that comes closest to `desired_length`
/// bytes. Tokens are added while the window is shorter than that; a token is
/// not added to a window that is not empty if the window would then be
/// farther from `desired_length` than it is. A space at the end of the window
/// is dropped.
pub fn take_until(arr: &[Token], start: usize, desired_length: usize) -> (result: Vec<Token>)
    requires
        start <= arr.len(),
    ensures
        result@ == arr@.subrange(
            start as int,
            start + window_len(token_views(arr@), start as int, desired_length as int),
        ),
        0 <= window_len(token_views(arr@), start as int, desired_length as int) <= arr.len() - start,
{
    let ghost tokens = token_views(arr@);
    let mut result: Vec<Token> = Vec::new();
    let mut total: usize = 0;
    let mut n: usize = 0;
    let mut growing = true;
    proof {
        lemma_window_grown(tokens, start as int, desired_length as int, 0);
    }
    while growing && n < arr.len() - start
        invariant
            start <= arr.len(),
            tokens == token_views(arr@),
            0 <= n <= arr.len() - start,
            result@ == arr@.subrange(start as int, start + n),
            window_grown(tokens, start as int, desired_length as int, n as int) == window_grown(
                tokens,
                start as int,
                desired_length as int,
                0,
            ),
            growing ==> total == taken_len(tokens, start as int, n as int),
            !growing ==> window_stops(tokens, start as int, desired_length as int, n as int),
        decreases (if growing { 1int } else { 0int }) + arr.len() - start - n,
    {
        let to_add = string_len(&arr[start + n].value);
        assert(tokens[start + n].value == arr@[start + n].value@);
        if total >= desired_length {
            growing = false;
        } else {
            let gap = desired_length - total;
            if total > 0 && to_add > gap && to_add - gap > gap {
                // better off as it is
                growing = false;
            } else {
                result.push(arr[start + n].clone());
                assert(result@ =~= arr@.subrange(start as int, start + n + 1));
                if to_add >= gap {
                    // the wanted length is reached
                    growing = false;
                    assert(taken_len(tokens, start as int, n + 1) >= desired_length);
                } else {
                    total += to_add;
                }
                n += 1;
            }
        }
    }
    if n > 0 && result[n - 1].is_space {
        result.pop();
        assert(result@ =~= arr@.subrange(start as int, start + n - 1));
    }
    result
}

} // verus!

//! Text as sequences of characters: finding and removing occurrences, the
//! button-marker rewrite and decimal numbers.

use vstd::prelude::*;
use crate::outside::string_of;

verus! {

/// The views of a sequence of strings.
pub open spec fn texts(strings: Seq<String>) -> Seq<Seq<char>> {
    strings.map_values(|s: String| s@)
}

/// Whether `pattern` stands in `text` at position `at`.
pub open spec fn occurs_at(text: Seq<char>, pattern: Seq<char>, at: int) -> bool {
    &&& 0 <= at
    &&& at + pattern.len() <= text.len()
    &&& text.subrange(at, at + pattern.len()) == pattern
}

/// The position of the first occurrence of `pattern` in `text` at or after
/// `from`.
pub open spec fn find_from(text: Seq<char>, pattern: Seq<char>, from: int) -> Option<int>
    decreases text.len() - from,
{
    if from < 0 || from + pattern.len() > text.len() {
        None
    } else if occurs_at(text, pattern, from) {
        Some(from)
    } else if from >= text.len() {
        None
    } else {
        find_from(text, pattern, from + 1)
    }
}

/// `text` with every occurrence of `token` removed: occurrences are found
/// from the left and do not overlap, and what a removal joins is not looked
/// at again. An empty token removes nothing.
pub open spec fn strip_token(text: Seq<char>, token: Seq<char>) -> Seq<char>
    decreases text.len(),
{
    if token.len() == 0 {
        text
    } else {
        match find_from(text, token, 0) {
            None => text,
            Some(at) => if 0 <= at && at + token.len() <= text.len() {
                text.take(at) + strip_token(text.skip(at + token.len()), token)
            } else {
                text
            },
        }
    }
}

/// The word that starts a button marker.
pub open spec fn marker_word() -> Seq<char> {
    seq!['s', 'i', 'n', 'g', 'l', 'e', '_', 'b', 'u', 't', 't', 'o', 'n']
}

/// The pattern of a button marker: the word, any run of characters other
/// than a double quote, and a double quote.
pub open spec fn marker_pattern() -> Seq<char> {
    marker_word() + seq!['[', '^', '"', ']', '*', '"']
}

/// What every button marker is rewritten to: the word and a double quote.
pub open spec fn marker_literal() -> Seq<char> {
    marker_word().push('"')
}

/// The position of the first `wanted` in `text` at or after `from`.
pub open spec fn index_of_from(text: Seq<char>, wanted: char, from: int) -> Option<int>
    decreases text.len() - from,
{
    if from < 0 || from >= text.len() {
        None
    } else if text[from] == wanted {
        Some(from)
    } else {
        index_of_from(text, wanted, from + 1)
    }
}

/// `text` with every button marker rewritten to the fixed literal. A marker
/// is an occurrence of the word together with everything up to and including
/// the next double quote; markers are found from the left and do not overlap.
/// Where no double quote follows an occurrence, nothing from there on is
/// rewritten.
pub open spec fn normalize_markers(text: Seq<char>) -> Seq<char>
    decreases text.len(),
{
    match find_from(text, marker_word(), 0) {
        None => text,
        Some(at) => match index_of_from(text, '"', at + marker_word().len()) {
            None => text,
            Some(quote) => if 0 <= at && at < quote && quote < text.len() {
                text.take(at) + marker_literal() + normalize_markers(text.skip(quote + 1))
            } else {
                text
            },
        },
    }
}

/// What `find_from` finds is the first occurrence at or after `from`.
pub proof fn lemma_find_from(text: Seq<char>, pattern: Seq<char>, from: int)
    requires
        0 <= from,
    ensures
        match find_from(text, pattern, from) {
            Some(at) => from <= at && occurs_at(text, pattern, at) && forall|j: int|
                from <= j < at ==> !occurs_at(text, pattern, j),
            None => forall|j: int| from <= j ==> !occurs_at(text, pattern, j),
        },
    decreases text.len() - from,
{
    if from + pattern.len() > text.len() {
    } else if occurs_at(text, pattern, from) {
    } else if from >= text.len() {
        assert(text.subrange(from, from + pattern.len()) =~= pattern);
    } else {
        lemma_find_from(text, pattern, from + 1);
    }
}

/// An occurrence in a suffix of a text is an occurrence in the text, moved
/// by the length of what was skipped.
pub proof fn lemma_occurs_at_skip(text: Seq<char>, pattern: Seq<char>, skipped: int, at: int)
    requires
        0 <= skipped <= text.len(),
        0 <= at,
    ensures
        occurs_at(text.skip(skipped), pattern, at) == occurs_at(text, pattern, skipped + at),
{
    let n = pattern.len() as int;
    if at + n <= text.len() - skipped {
        assert(text.skip(skipped).subrange(at, at + n) =~= text.subrange(
            skipped + at,
            skipped + at + n,
        ));
    }
}

/// Where a text does not start with the token, stripping keeps its first
/// character and goes on behind it.
pub proof fn lemma_strip_token_keep(text: Seq<char>, token: Seq<char>)
    requires
        text.len() > 0,
        token.len() > 0,
        !occurs_at(text, token, 0),
    ensures
        strip_token(text, token) == seq![text[0]] + strip_token(text.skip(1), token),
{
    let n = token.len() as int;
    let rest = text.skip(1);
    lemma_find_from(text, token, 0);
    lemma_find_from(rest, token, 0);
    assert forall|j: int| 0 <= j implies occurs_at(rest, token, j) == occurs_at(
        text,
        token,
        j + 1,
    ) by {
        lemma_occurs_at_skip(text, token, 1, j);
    }
    match find_from(text, token, 0) {
        None => {
            assert(find_from(rest, token, 0) is None);
            assert(text =~= seq![text[0]] + rest);
        },
        Some(at) => {
            assert(at >= 1);
            assert(occurs_at(rest, token, at - 1));
            assert(find_from(rest, token, 0) == Some(at - 1)) by {
                if find_from(rest, token, 0) is None {
                } else {
                    let other = find_from(rest, token, 0).unwrap();
                    if other < at - 1 {
                        assert(occurs_at(text, token, other + 1));
                    }
                }
            }
            assert(rest.skip(at - 1 + n) =~= text.skip(at + n));
            assert(text.take(at) =~= seq![text[0]] + rest.take(at - 1));
            assert(strip_token(rest, token) == rest.take(at - 1) + strip_token(
                text.skip(at + n),
                token,
            ));
            assert(strip_token(text, token) =~= seq![text[0]] + strip_token(rest, token));
        },
    }
}

/// Where a text starts with the token, stripping drops it and goes on behind it.
pub proof fn lemma_strip_token_drop(text: Seq<char>, token: Seq<char>)
    requires
        token.len() > 0,
        occurs_at(text, token, 0),
    ensures
        strip_token(text, token) == strip_token(text.skip(token.len() as int), token),
{
    assert(find_from(text, token, 0) == Some(0int));
    assert(text.take(0) + strip_token(text.skip(token.len() as int), token) =~= strip_token(
        text.skip(token.len() as int),
        token,
    ));
}

/// Whether `pattern` stands in `text` at position `at`.
pub fn matches_at(text: &Vec<char>, pattern: &Vec<char>, at: usize) -> (found: bool)
    ensures
        found == occurs_at(text@, pattern@, at as int),
{
    let n: usize = pattern.len();
    if at > text.len() || n > text.len() - at {
        return false;
    }
    let mut k: usize = 0;
    while k < n
        invariant
            n == pattern.len(),
            at + n <= text.len(),
            k <= n,
            forall|j: int| 0 <= j < k ==> text@[at + j] == pattern@[j],
        decreases n - k,
    {
        if text[at + k] != pattern[k] {
            proof {
                assert(text@.subrange(at as int, at + n)[k as int] == text@[at + k]);
            }
            return false;
        }
        k += 1;
    }
    proof {
        assert(text@.subrange(at as int, at + n) =~= pattern@);
    }
    true
}

/// Removes every occurrence of `token` from `text`.
pub fn strip_token_chars(text: &Vec<char>, token: &Vec<char>) -> (out: Vec<char>)
    ensures
        out@ == strip_token(text@, token@),
{
    let mut out: Vec<char> = Vec::new();
    let n: usize = token.len();
    let mut at: usize = 0;
    if n == 0 {
        while at < text.len()
            invariant
                at <= text.len(),
                out@ == text@.take(at as int),
            decreases text.len() - at,
        {
            out.push(text[at]);
            proof {
                assert(text@.take(at + 1) =~= text@.take(at as int).push(text@[at as int]));
            }
            at += 1;
        }
        proof {
            assert(text@.take(at as int) =~= text@);
        }
        return out;
    }
    proof {
        assert(text@.skip(0) =~= text@);
    }
    while at < text.len()
        invariant
            n == token.len(),
            n > 0,
            at <= text.len(),
            out@ + strip_token(text@.skip(at as int), token@) == strip_token(text@, token@),
        decreases text.len() - at,
    {
        let ghost rest = text@.skip(at as int);
        if matches_at(text, token, at) {
            proof {
                lemma_occurs_at_skip(text@, token@, at as int, 0);
                lemma_strip_token_drop(rest, token@);
                assert(rest.skip(n as int) =~= text@.skip(at + n));
            }
            at += n;
        } else {
            proof {
                lemma_occurs_at_skip(text@, token@, at as int, 0);
                lemma_strip_token_keep(rest, token@);
                assert(rest.skip(1) =~= text@.skip(at + 1));
                assert(rest[0] == text@[at as int]);
                assert(out@.push(text@[at as int]) + strip_token(text@.skip(at + 1), token@)
                    =~= out@ + (seq![rest[0]] + strip_token(rest.skip(1), token@)));
            }
            out.push(text[at]);
            at += 1;
        }
    }
    proof {
        assert(text@.skip(at as int).len() == 0);
        assert(strip_token(text@.skip(at as int), token@) =~= Seq::<char>::empty()) by {
            lemma_find_from(text@.skip(at as int), token@, 0);
        }
        assert(out@ + Seq::<char>::empty() =~= out@);
    }
    out
}

/// The characters of a string.
pub fn chars_of(text: &str) -> (out: Vec<char>)
    ensures
        out@ == text@,
{
    let mut out: Vec<char> = Vec::new();
    for c in it: text.chars()
        invariant
            out@ == it.seq().take(it.index()),
            it.seq() == text@,
    {
        proof {
            assert(it.seq().take(it.index() + 1) =~= it.seq().take(it.index()).push(c));
        }
        out.push(c);
    }
    proof {
        assert(text@.take(text@.len() as int) =~= text@);
    }
    out
}

/// The character of a decimal digit.
pub open spec fn digit_char(digit: nat) -> char {
    if digit == 0 {
        '0'
    } else if digit == 1 {
        '1'
    } else if digit == 2 {
        '2'
    } else if digit == 3 {
        '3'
    } else if digit == 4 {
        '4'
    } else if digit == 5 {
        '5'
    } else if digit == 6 {
        '6'
    } else if digit == 7 {
        '7'
    } else if digit == 8 {
        '8'
    } else {
        '9'
    }
}

/// A number in decimal, without leading zeros.
pub open spec fn decimal(n: nat) -> Seq<char>
    decreases n,
{
    if n < 10 {
        seq![digit_char(n)]
    } else {
        decimal(n / 10).push(digit_char(n % 10))
    }
}

fn digit_of(digit: u64) -> (c: char)
    requires
        digit < 10,
    ensures
        c == digit_char(digit as nat),
{
    if digit == 0 {
        '0'
    } else if digit == 1 {
        '1'
    } else if digit == 2 {
        '2'
    } else if digit == 3 {
        '3'
    } else if digit == 4 {
        '4'
    } else if digit == 5 {
        '5'
    } else if digit == 6 {
        '6'
    } else if digit == 7 {
        '7'
    } else if digit == 8 {
        '8'
    } else {
        '9'
    }
}

/// Appends a number in decimal to `out`.
pub fn push_decimal(out: &mut Vec<char>, n: u64)
    ensures
        final(out)@ == old(out)@ + decimal(n as nat),
    decreases n,
{
    if n < 10 {
        out.push(digit_of(n));
        proof {
            assert(old(out)@.push(digit_char(n as nat)) =~= old(out)@ + decimal(n as nat));
        }
    } else {
        push_decimal(out, n / 10);
        out.push(digit_of(n % 10));
        proof {
            assert((old(out)@ + decimal((n / 10) as nat)).push(digit_char((n % 10) as nat))
                =~= old(out)@ + decimal(n as nat));
        }
    }
}

/// A number in decimal.
pub fn decimal_string(n: u64) -> (out: String)
    ensures
        out@ == decimal(n as nat),
{
    let mut digits: Vec<char> = Vec::new();
    push_decimal(&mut digits, n);
    proof {
        assert(Seq::<char>::empty() + decimal(n as nat) =~= decimal(n as nat));
    }
    string_of(&digits)
}

/// Removes every occurrence of `token` from `text`.
pub fn strip(text: &str, token: &str) -> (out: String)
    ensures
        out@ == strip_token(text@, token@),
{
    let text_chars = chars_of(text);
    let token_chars = chars_of(token);
    string_of(&strip_token_chars(&text_chars, &token_chars))
}

} // verus!

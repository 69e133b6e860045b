use vstd::prelude::*;

use crate::text::chars_of;

verus! {

/// The code points with the Unicode `White_Space` property.
pub open spec fn is_unicode_whitespace(c: char) -> bool {
    let v = c as u32;
    (0x09 <= v && v <= 0x0d) || v == 0x20 || v == 0x85 || v == 0xa0 || v == 0x1680 || (0x2000 <= v
        && v <= 0x200a) || v == 0x2028 || v == 0x2029 || v == 0x202f || v == 0x205f || v == 0x3000
}

/// The ASCII punctuation characters: `!` to `/`, `:` to `@`, `[` to `` ` `` and `{` to `~`.
pub open spec fn is_ascii_punct(c: char) -> bool {
    let v = c as u32;
    (0x21 <= v && v <= 0x2f) || (0x3a <= v && v <= 0x40) || (0x5b <= v && v <= 0x60) || (0x7b <= v
        && v <= 0x7e)
}

pub open spec fn is_bracket(c: char) -> bool {
    c == '(' || c == ')' || c == '[' || c == ']' || c == '{' || c == '}'
}

pub open spec fn is_operator(c: char) -> bool {
    c == '+' || c == '-' || c == '*' || c == '/' || c == '=' || c == '<' || c == '>' || c == '&'
        || c == '|' || c == '!' || c == '@' || c == '#' || c == '$' || c == '%' || c == '^'
}

/// A character at which the token estimate splits the text.
pub open spec fn is_token_separator(c: char) -> bool {
    is_unicode_whitespace(c) || is_ascii_punct(c) || is_bracket(c) || is_operator(c)
}

/// Position `i` of `s` opens a token: it holds no separator, and it is the
/// first character or follows a separator.
pub open spec fn starts_token(s: Seq<char>, i: int) -> bool {
    !is_token_separator(s[i]) && (i == 0 || is_token_separator(s[i - 1]))
}

/// The number of non-empty pieces left when `s` is split at every separator.
pub open spec fn token_count(s: Seq<char>) -> nat
    decreases s.len(),
{
    if s.len() == 0 {
        0
    } else {
        token_count(s.drop_last()) + if starts_token(s, s.len() - 1) {
            1nat
        } else {
            0nat
        }
    }
}

pub proof fn lemma_token_count_bound(s: Seq<char>)
    ensures
        token_count(s) <= s.len(),
    decreases s.len(),
{
    if s.len() > 0 {
        lemma_token_count_bound(s.drop_last());
    }
}

/// Relies on `char::is_whitespace`: true exactly of the code points with the
/// Unicode `White_Space` property.
#[verifier::external_body]
fn char_is_whitespace(c: char) -> (r: bool)
    ensures
        r == is_unicode_whitespace(c),
{
    c.is_whitespace()
}

fn is_ascii_punctuation(c: char) -> (r: bool)
    ensures
        r == is_ascii_punct(c),
{
    let v = c as u32;
    (0x21 <= v && v <= 0x2f) || (0x3a <= v && v <= 0x40) || (0x5b <= v && v <= 0x60) || (0x7b <= v
        && v <= 0x7e)
}

/// Whether the token estimate splits at `c`.
pub fn is_separator(c: char) -> (r: bool)
    ensures
        r == is_token_separator(c),
{
    char_is_whitespace(c) || is_ascii_punctuation(c) || c == '(' || c == ')' || c == '[' || c
        == ']' || c == '{' || c == '}' || c == '+' || c == '-' || c == '*' || c == '/' || c == '='
        || c == '<' || c == '>' || c == '&' || c == '|' || c == '!' || c == '@' || c == '#' || c
        == '$' || c == '%' || c == '^'
}

/// Estimates the number of tokens of `content`: the count of non-empty pieces
/// between separators (whitespace, ASCII punctuation, brackets, operators).
pub fn estimate_tokens(content: &str) -> (r: usize)
    ensures
        r == token_count(content@),
{
    let cs = chars_of(content);
    let mut count: usize = 0;
    let mut i: usize = 0;
    while i < cs.len()
        invariant
            i <= cs.len(),
            cs@ == content@,
            count == token_count(cs@.take(i as int)),
        decreases cs.len() - i,
    {
        let ghost before = cs@.take(i as int);
        let ghost after = cs@.take(i + 1);
        proof {
            assert(after.drop_last() == before);
            lemma_token_count_bound(before);
        }
        let sep = is_separator(cs[i]);
        let opens = !sep && (i == 0 || is_separator(cs[i - 1]));
        assert(opens == starts_token(after, i as int));
        if opens {
            count = count + 1;
        }
        i = i + 1;
    }
    assert(cs@.take(cs@.len() as int) == cs@);
    count
}

} // verus!

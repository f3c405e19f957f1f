//! The identifier of a block: the token `<id:VALUE>` on the line of its start
//! marker.
//!
//! The token is the first place in the line where `<id:` is followed, before
//! the line ends, by `>`. Its value reaches from the colon to the first `>`,
//! and the identifier is the value without the white space around it.

use crate::text::{chars_of, string_of, trim_bounds, trimmed};
use vstd::prelude::*;
use vstd::slice::slice_subrange;

verus! {

/// Whether `<id:` stands in `s` at place `i`.
pub open spec fn opens_token(s: Seq<char>, i: int) -> bool {
    &&& 0 <= i
    &&& i + 4 <= s.len()
    &&& s[i] == '<'
    &&& s[i + 1] == 'i'
    &&& s[i + 2] == 'd'
    &&& s[i + 3] == ':'
}

/// Where a value that starts at `from` ends: the place of the first `>` at or
/// after `from`, if no line feed comes before it.
pub open spec fn value_end(s: Seq<char>, from: int) -> Option<int>
    decreases s.len() - from,
{
    if from < 0 || from >= s.len() {
        None
    } else if s[from] == '>' {
        Some(from)
    } else if s[from] == '\n' {
        None
    } else {
        value_end(s, from + 1)
    }
}

/// The value of the first token of `s` that starts at or after place `i`.
pub open spec fn token_value(s: Seq<char>, i: int) -> Option<Seq<char>>
    decreases s.len() - i,
{
    if i < 0 || i >= s.len() {
        None
    } else if opens_token(s, i) && value_end(s, i + 4) is Some {
        Some(s.subrange(i + 4, value_end(s, i + 4)->Some_0))
    } else {
        token_value(s, i + 1)
    }
}

/// The identifier that `line` gives to a block, if it holds a token.
pub open spec fn identifier_of(line: Seq<char>) -> Option<Seq<char>> {
    match token_value(line, 0) {
        Some(value) => Some(trimmed(value)),
        None => None,
    }
}

/// A value ends within the text, at or after the place where it starts.
pub proof fn lemma_value_end_bounds(s: Seq<char>, from: int)
    ensures
        value_end(s, from) matches Some(end) ==> 0 <= from <= end < s.len() && s[end] == '>',
    decreases s.len() - from,
{
    if 0 <= from < s.len() && s[from] != '>' && s[from] != '\n' {
        lemma_value_end_bounds(s, from + 1);
    }
}

fn opens_token_at(s: &[char], i: usize) -> (b: bool)
    ensures
        b == opens_token(s@, i as int),
{
    i < s.len() && s.len() - i >= 4 && s[i] == '<' && s[i + 1] == 'i' && s[i + 2] == 'd' && s[i + 3]
        == ':'
}

fn find_value_end(s: &[char], from: usize) -> (r: Option<usize>)
    ensures
        match r {
            Some(end) => value_end(s@, from as int) == Some(end as int),
            None => value_end(s@, from as int) is None,
        },
{
    let mut j: usize = from;
    while j < s.len() && s[j] != '>' && s[j] != '\n'
        invariant
            from <= j,
            value_end(s@, j as int) == value_end(s@, from as int),
        decreases s.len() - j,
    {
        j += 1;
    }
    if j < s.len() && s[j] == '>' {
        Some(j)
    } else {
        None
    }
}

/// The identifier that `line` gives to a block, if it holds a token.
pub fn find_identifier(line: &str) -> (r: Option<String>)
    ensures
        match r {
            Some(id) => identifier_of(line@) == Some(id@),
            None => identifier_of(line@) is None,
        },
{
    let chars = chars_of(line);
    let s = chars.as_slice();
    let mut i: usize = 0;
    while i < s.len()
        invariant
            s@ == line@,
            token_value(s@, i as int) == token_value(s@, 0),
        decreases s.len() - i,
    {
        if opens_token_at(s, i) {
            if let Some(end) = find_value_end(s, i + 4) {
                proof {
                    lemma_value_end_bounds(s@, i + 4);
                }
                let value = slice_subrange(s, i + 4, end);
                let (a, b) = trim_bounds(value);
                return Some(string_of(slice_subrange(value, a, b)));
            }
        }
        i += 1;
    }
    None
}

} // verus!

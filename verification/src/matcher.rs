//! What the library takes from the `regex` crate.
//!
//! A compiled expression is opaque here. What it finds in a text is not
//! proved: it is given a name, and the functions of this file are believed to
//! return what that name stands for. Everything else in the library is proved
//! from these statements.

use regex::Regex;
use vstd::prelude::*;

verus! {

/// `regex::Regex`, a compiled regular expression. Nothing inside it is seen
/// here.
#[verifier::external_type_specification]
#[verifier::external_body]
pub struct ExRegex(regex::Regex);

/// `regex::Error`, the error of an expression that does not compile. Nothing
/// inside it is seen here.
#[verifier::external_type_specification]
#[verifier::external_body]
pub struct ExRegexError(regex::Error);

/// What `Regex::new` makes of the text of an expression: the compiled
/// expression, or the message of the error that it reports.
pub uninterp spec fn regex_compiled(source: Seq<char>) -> Result<Regex, Seq<char>>;

/// What an error of the `regex` crate says when it is displayed.
pub uninterp spec fn regex_error_message(error: regex::Error) -> Seq<char>;

/// The text that `re` was compiled from, as `Regex::as_str` gives it.
pub uninterp spec fn regex_source(re: Regex) -> Seq<char>;

/// Whether `re` matches anywhere in `text`, as `Regex::is_match` decides it.
pub uninterp spec fn regex_is_match(re: Regex, text: Seq<char>) -> bool;

/// How many matches of `re` that do not overlap `Regex::captures_iter` finds
/// in `text`.
pub uninterp spec fn regex_match_count(re: Regex, text: Seq<char>) -> nat;

/// `text` after `Regex::replace_all` has put the empty string in the place of
/// each match of `re`.
pub uninterp spec fn regex_erased(re: Regex, text: Seq<char>) -> Seq<char>;

/// The first match of `re` in `text` with its capture groups, as
/// `Regex::captures` finds it.
pub uninterp spec fn regex_captures(re: Regex, text: Seq<char>) -> Option<CapturedView>;

/// The first match of an expression in a text: the text before the match, what
/// each capture group matched, and the text after the match. Group 0 is the
/// whole match; a group that took no part in the match is `None`.
#[derive(Debug)]
pub struct Captured {
    pub before: String,
    pub groups: Vec<Option<String>>,
    pub after: String,
}

pub struct CapturedView {
    pub before: Seq<char>,
    pub groups: Seq<Option<Seq<char>>>,
    pub after: Seq<char>,
}

impl View for Captured {
    type V = CapturedView;

    open spec fn view(&self) -> CapturedView {
        CapturedView {
            before: self.before@,
            groups: Seq::new(
                self.groups@.len(),
                |i: int|
                    match self.groups@[i] {
                        Some(s) => Some(s@),
                        None => None,
                    },
            ),
            after: self.after@,
        }
    }
}

impl CapturedView {
    /// What group `i` matched, if there is such a group and it took part.
    pub open spec fn group(self, i: int) -> Option<Seq<char>> {
        if 0 <= i < self.groups.len() {
            self.groups[i]
        } else {
            None
        }
    }

    /// Whether this is a match in `text`: the whole match stands in `text`
    /// between what was found before it and after it.
    pub open spec fn is_within(self, text: Seq<char>) -> bool {
        &&& self.groups.len() > 0
        &&& self.groups[0] is Some
        &&& self.before + self.groups[0]->Some_0 + self.after == text
    }
}

impl Captured {
    /// What group `i` matched, if there is such a group and it took part.
    pub fn group(&self, i: usize) -> (r: Option<&String>)
        ensures
            match r {
                Some(s) => self@.group(i as int) == Some(s@),
                None => self@.group(i as int) is None,
            },
    {
        if i < self.groups.len() {
            self.groups[i].as_ref()
        } else {
            None
        }
    }
}

/// Whether `Regex::new` compiles `source`, and to `re`.
pub open spec fn compiles_to(source: Seq<char>, re: Regex) -> bool {
    regex_compiled(source) matches Ok(made) && made == re
}

/// `text` without the matches of `re`: unchanged where `re` finds none.
pub open spec fn without_matches(re: Regex, text: Seq<char>) -> Seq<char> {
    if regex_is_match(re, text) {
        regex_erased(re, text)
    } else {
        text
    }
}

/// Whether `c` is one of the characters that have a meaning of their own in
/// an expression.
pub open spec fn is_meta_character(c: char) -> bool {
    ||| c == '\\'
    ||| c == '.'
    ||| c == '+'
    ||| c == '*'
    ||| c == '?'
    ||| c == '('
    ||| c == ')'
    ||| c == '|'
    ||| c == '['
    ||| c == ']'
    ||| c == '{'
    ||| c == '}'
    ||| c == '^'
    ||| c == '$'
    ||| c == '#'
    ||| c == '&'
    ||| c == '-'
    ||| c == '~'
}

/// `text` with a backslash before each of its meta characters.
pub open spec fn escaped(text: Seq<char>) -> Seq<char>
    decreases text.len(),
{
    if text.len() == 0 {
        Seq::empty()
    } else if is_meta_character(text.last()) {
        escaped(text.drop_last()) + seq!['\\', text.last()]
    } else {
        escaped(text.drop_last()) + seq![text.last()]
    }
}

/// `Regex::new`: compiles `source`, or reports why it cannot. The outcome
/// is named after `source`: the expression, or the message of the error.
#[verifier::external_body]
pub(crate) fn compile(source: &str) -> (r: Result<Regex, regex::Error>)
    ensures
        match r {
            Ok(re) => compiles_to(source@, re),
            Err(e) => regex_compiled(source@) matches Err(said) && said == regex_error_message(e),
        },
{
    Regex::new(source)
}

/// `Display` of `regex::Error`: the message of the error.
#[verifier::external_body]
pub(crate) fn error_message(error: &regex::Error) -> (r: String)
    ensures
        r@ == regex_error_message(*error),
{
    error.to_string()
}

/// `Regex::as_str`: the text that `re` was compiled from.
#[verifier::external_body]
pub(crate) fn source_of(re: &Regex) -> (r: String)
    ensures
        r@ == regex_source(*re),
{
    re.as_str().to_string()
}

/// `Regex::is_match`: whether `re` matches anywhere in `text`.
#[verifier::external_body]
pub(crate) fn is_match(re: &Regex, text: &str) -> (b: bool)
    ensures
        b == regex_is_match(*re, text@),
{
    re.is_match(text)
}

/// `Regex::captures_iter`, counted: the number of matches of `re` in `text`
/// that do not overlap.
#[verifier::external_body]
pub(crate) fn match_count(re: &Regex, text: &str) -> (n: usize)
    ensures
        n == regex_match_count(*re, text@),
{
    re.captures_iter(text).count()
}

/// `Regex::replace_all` with the empty string: `text` without the matches of
/// `re`. Where `re` finds no match, the crate hands the text back unchanged.
#[verifier::external_body]
pub(crate) fn erase_matches(re: &Regex, text: &str) -> (r: String)
    ensures
        regex_is_match(*re, text@) ==> r@ == regex_erased(*re, text@),
        !regex_is_match(*re, text@) ==> r@ == text@,
{
    re.replace_all(text, "").to_string()
}

/// `Regex::captures`: the first match of `re` in `text`, if there is one. The
/// groups come in the order of their opening parentheses, group 0 is the whole
/// match and always takes part, and the match is a part of `text`.
#[verifier::external_body]
pub(crate) fn captures(re: &Regex, text: &str) -> (r: Option<Captured>)
    ensures
        match r {
            Some(c) => regex_captures(*re, text@) == Some(c@) && c@.is_within(text@),
            None => regex_captures(*re, text@) is None,
        },
{
    re.captures(text).map(
        |found|
            {
                let whole = found.get_match();
                Captured {
                    before: text[..whole.start()].to_string(),
                    groups: found.iter().map(|g| g.map(|m| m.as_str().to_string())).collect(),
                    after: text[whole.end()..].to_string(),
                }
            },
    )
}

/// `regex::escape`: `text` with a backslash before each meta character, so
/// that an expression made of it matches `text` and nothing else.
#[verifier::external_body]
pub(crate) fn escape(text: &str) -> (r: String)
    ensures
        r@ == escaped(text@),
{
    regex::escape(text)
}

} // verus!

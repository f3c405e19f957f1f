//! The patterns that mark a block of content in a file.

use crate::matcher::{compiles_to, erase_matches, is_match, regex_is_match, without_matches};
use regex::Regex;
use vstd::prelude::*;

verus! {

/// The expression that marks the start of a block where none is configured.
pub const DEFAULT_START: &'static str = r"//\s*📖\s*#START";

/// The expression that marks the end of a block where none is configured.
pub const DEFAULT_END: &'static str = r"//\s*📖\s*#END";

/// The expression that is removed from a block where none is configured: the
/// prefix of a documentation comment.
pub const DEFAULT_CLEANUP: &'static str = r"//!";

/// How a block of content is marked in a file, and what is removed from it.
#[derive(Debug)]
pub struct Pattern {
    /// Matches a line that starts a block.
    pub start: Regex,
    /// Matches a line that ends a block.
    pub end: Regex,
    /// What is removed from a block, each expression in its turn.
    pub cleanups: Vec<Regex>,
}

/// `text` after each of `rules`, in their order, has removed its matches from
/// what the rules before it left.
pub open spec fn erased_all(rules: Seq<Regex>, text: Seq<char>) -> Seq<char>
    decreases rules.len(),
{
    if rules.len() == 0 {
        text
    } else {
        erased_all(rules.drop_first(), without_matches(rules[0], text))
    }
}

/// A rule leaves a clean text as it is: where `rule` does not match in `text`,
/// removing its matches yields `text`.
pub proof fn lemma_rule_keeps_clean_text(rule: Regex, text: Seq<char>)
    requires
        !regex_is_match(rule, text),
    ensures
        without_matches(rule, text) == text,
{
}

/// Rules leave a clean text as it is: where none of `rules` matches in
/// `text`, removing their matches yields `text`.
pub proof fn lemma_clean_text_is_kept(rules: Seq<Regex>, text: Seq<char>)
    requires
        forall|i: int| 0 <= i < rules.len() ==> !regex_is_match(#[trigger] rules[i], text),
    ensures
        erased_all(rules, text) == text,
    decreases rules.len(),
{
    if rules.len() > 0 {
        let rest = rules.drop_first();
        assert(!regex_is_match(rules[0], text));
        assert forall|i: int| 0 <= i < rest.len() implies !regex_is_match(
            #[trigger] rest[i],
            text,
        ) by {
            assert(rest[i] == rules[i + 1]);
        }
        lemma_clean_text_is_kept(rest, text);
    }
}

/// Cleanup leaves a clean text as it is: where none of the cleanup rules of
/// `pattern` matches in `text`, the cleanup of `text` is `text`.
pub proof fn lemma_cleanup_keeps_clean_text(pattern: Pattern, text: Seq<char>)
    requires
        forall|i: int|
            0 <= i < pattern.cleanups@.len() ==> !regex_is_match(
                #[trigger] pattern.cleanups@[i],
                text,
            ),
    ensures
        pattern.cleaned(text) == text,
{
    lemma_clean_text_is_kept(pattern.cleanups@, text);
}

/// `Regex::new` on the text of one of the three expressions above, each of
/// which the `regex` crate compiles.
#[verifier::external_body]
fn compile_default(source: &'static str) -> (r: Regex)
    requires
        source@ == DEFAULT_START@ || source@ == DEFAULT_END@ || source@ == DEFAULT_CLEANUP@,
    ensures
        compiles_to(source@, r),
{
    Regex::new(source).unwrap()
}

impl Default for Pattern {
    /// The pattern that is used where none is configured.
    fn default() -> (p: Self)
        ensures
            p.is_default(),
    {
        let mut cleanups: Vec<Regex> = Vec::new();
        cleanups.push(compile_default(DEFAULT_CLEANUP));
        Self {
            start: compile_default(DEFAULT_START),
            end: compile_default(DEFAULT_END),
            cleanups,
        }
    }
}

impl Pattern {
    /// Whether this is the pattern that is used where none is configured: its
    /// markers and its one cleanup rule are compiled from the three default
    /// expressions.
    pub open spec fn is_default(self) -> bool {
        &&& compiles_to(DEFAULT_START@, self.start)
        &&& compiles_to(DEFAULT_END@, self.end)
        &&& self.cleanups@.len() == 1
        &&& compiles_to(DEFAULT_CLEANUP@, self.cleanups@[0])
    }

    /// Whether `line` starts a block.
    pub open spec fn starts(self, line: Seq<char>) -> bool {
        regex_is_match(self.start, line)
    }

    /// Whether `line` ends a block.
    pub open spec fn ends(self, line: Seq<char>) -> bool {
        regex_is_match(self.end, line)
    }

    /// `text` after the cleanup rules have removed their matches.
    pub open spec fn cleaned(self, text: Seq<char>) -> Seq<char> {
        erased_all(self.cleanups@, text)
    }

    /// Whether `str` matches the start marker.
    #[must_use]
    pub fn start_with(&self, str: &str) -> (b: bool)
        ensures
            b == self.starts(str@),
    {
        is_match(&self.start, str)
    }

    /// Whether `str` matches the end marker.
    #[must_use]
    pub fn end_with(&self, str: &str) -> (b: bool)
        ensures
            b == self.ends(str@),
    {
        is_match(&self.end, str)
    }

    /// `text` after each cleanup rule, in the configured order, has removed
    /// its matches.
    #[must_use]
    pub fn cleanup(&self, text: &str) -> (r: String)
        ensures
            r@ == self.cleaned(text@),
    {
        let mut text_result = text.to_owned();
        let mut i: usize = 0;
        assert(self.cleanups@.skip(0) =~= self.cleanups@);
        while i < self.cleanups.len()
            invariant
                i <= self.cleanups@.len(),
                erased_all(self.cleanups@.skip(i as int), text_result@) == self.cleaned(text@),
            decreases self.cleanups@.len() - i,
        {
            let ghost rules = self.cleanups@.skip(i as int);
            assert(rules.drop_first() =~= self.cleanups@.skip(i + 1));
            text_result = erase_matches(&self.cleanups[i], text_result.as_str());
            i += 1;
        }
        text_result
    }
}

} // verus!

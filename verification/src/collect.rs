//! Which of the files under a folder are taken: those whose path, relative to
//! the folder, matches no exclude rule and, where there are include rules, at
//! least one of them.

use crate::matcher::{is_match, regex_is_match};
use regex::Regex;
use std::path::PathBuf;
use vstd::prelude::*;

verus! {

/// The rules by which files are taken or left.
#[derive(Debug)]
pub struct Config {
    /// Where this is not empty, only files that match one of these are taken.
    pub includes: Vec<Regex>,
    /// Files that match one of these are left.
    pub excludes: Vec<Regex>,
}

impl Default for Config {
    /// No rules: every file is taken.
    fn default() -> (config: Self)
        ensures
            config.includes@.len() == 0,
            config.excludes@.len() == 0,
    {
        Self { includes: Vec::new(), excludes: Vec::new() }
    }
}

/// A file that a walk of the folder found: its path, and its path relative to
/// the folder as text.
#[derive(Debug)]
pub struct Found {
    pub path: PathBuf,
    pub relative: String,
}

pub struct FoundView {
    pub path: PathBuf,
    pub relative: Seq<char>,
}

impl DeepView for Found {
    type V = FoundView;

    open spec fn deep_view(&self) -> FoundView {
        FoundView { path: self.path, relative: self.relative@ }
    }
}

/// Whether one of `rules` matches in `path`.
pub open spec fn matches_any(rules: Seq<Regex>, path: Seq<char>) -> bool {
    exists|i: int| 0 <= i < rules.len() && regex_is_match(#[trigger] rules[i], path)
}

/// Whether a file with the relative path `path` is taken under these rules.
pub open spec fn is_taken(includes: Seq<Regex>, excludes: Seq<Regex>, path: Seq<char>) -> bool {
    !matches_any(excludes, path) && (includes.len() == 0 || matches_any(includes, path))
}

/// The paths of the files among `found` that are taken, in their order.
pub open spec fn taken(
    includes: Seq<Regex>,
    excludes: Seq<Regex>,
    found: Seq<FoundView>,
) -> Seq<PathBuf>
    decreases found.len(),
{
    if found.len() == 0 {
        Seq::empty()
    } else {
        let before = taken(includes, excludes, found.drop_last());
        if is_taken(includes, excludes, found.last().relative) {
            before.push(found.last().path)
        } else {
            before
        }
    }
}

fn any_match(rules: &Vec<Regex>, path: &str) -> (b: bool)
    ensures
        b == matches_any(rules@, path@),
{
    let mut i: usize = 0;
    while i < rules.len()
        invariant
            i <= rules@.len(),
            !matches_any(rules@.take(i as int), path@),
        decreases rules@.len() - i,
    {
        if is_match(&rules[i], path) {
            return true;
        }
        proof {
            let seen = rules@.take(i as int);
            let more = rules@.take(i + 1);
            if matches_any(more, path@) {
                let k = choose|k: int| 0 <= k < more.len() && regex_is_match(#[trigger] more[k], path@);
                assert(seen[k] == more[k]);
            }
        }
        i += 1;
    }
    assert(rules@.take(i as int) =~= rules@);
    false
}

/// Takes or leaves the files under a folder by the rules of a configuration.
#[derive(Debug)]
pub struct Collector {
    /// The folder, as an absolute path.
    pub folder: PathBuf,
    /// The rules.
    pub config: Config,
}

impl Collector {
    /// The include rules.
    pub open spec fn includes(&self) -> Seq<Regex> {
        self.config.includes@
    }

    /// The exclude rules.
    pub open spec fn excludes(&self) -> Seq<Regex> {
        self.config.excludes@
    }

    /// A collector for `folder` that takes every file.
    pub fn new(folder: PathBuf) -> (collector: Self)
        ensures
            collector.folder == folder,
            collector.includes().len() == 0,
            collector.excludes().len() == 0,
    {
        Self { folder, config: Config::default() }
    }

    /// A collector for `folder` with the rules of `config`.
    pub fn from_config(folder: PathBuf, config: Config) -> (collector: Self)
        ensures
            collector.folder == folder,
            collector.includes() == config.includes@,
            collector.excludes() == config.excludes@,
    {
        Self { folder, config }
    }

    /// Whether an exclude rule matches the relative path `path`.
    pub fn should_exclude(&self, path: &str) -> (b: bool)
        ensures
            b == matches_any(self.excludes(), path@),
    {
        any_match(&self.config.excludes, path)
    }

    /// Whether the include rules admit the relative path `path`: there are
    /// none, or one of them matches.
    pub fn should_include(&self, path: &str) -> (b: bool)
        ensures
            b == (self.includes().len() == 0 || matches_any(self.includes(), path@)),
    {
        if self.config.includes.len() == 0 {
            return true;
        }
        any_match(&self.config.includes, path)
    }

    /// Whether the file with the relative path `path` is taken.
    pub fn accepts(&self, path: &str) -> (b: bool)
        ensures
            b == is_taken(self.includes(), self.excludes(), path@),
    {
        !self.should_exclude(path) && self.should_include(path)
    }

    /// The paths of the files among `found` that are taken, in their order.
    #[must_use]
    pub fn collect_files(&self, found: &Vec<Found>) -> (files: Vec<PathBuf>)
        ensures
            files@ == taken(self.includes(), self.excludes(), found.deep_view()),
    {
        let mut files: Vec<PathBuf> = Vec::new();
        let ghost all = found.deep_view();
        let mut i: usize = 0;
        assert(all.take(0) =~= Seq::<FoundView>::empty());
        while i < found.len()
            invariant
                i <= found@.len(),
                all == found.deep_view(),
                files@ == taken(self.includes(), self.excludes(), all.take(i as int)),
            decreases found@.len() - i,
        {
            proof {
                let upto = all.take(i + 1);
                assert(upto.drop_last() =~= all.take(i as int));
                assert(upto.last() == found@[i as int].deep_view());
            }
            if self.accepts(found[i].relative.as_str()) {
                files.push(found[i].path.clone());
            }
            i += 1;
        }
        assert(all.take(i as int) =~= all);
        files
    }
}

} // verus!

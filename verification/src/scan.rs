//! The scan of a file for the blocks of one pattern.
//!
//! Each pattern is followed on its own. A line that matches the start marker
//! and carries an identifier opens a new block; a line that matches the end
//! marker closes the pattern; any other line, while the pattern is open, goes
//! to the block that was opened last. A start marker without an identifier
//! changes nothing.
//!
//! A start marker inside an open block opens a new block without closing the
//! first, and the lines that follow go to the new block only: the outer block
//! ends there. The first end marker after that closes the pattern, so what
//! stands between it and the outer block's own end marker belongs to no block.

use crate::identifier::{find_identifier, identifier_of};
use crate::parser::{BlockView, ContentBlock, ContentMetadata};
use crate::pattern::Pattern;
use vstd::prelude::*;

verus! {

/// What a line is to a pattern.
#[derive(Debug)]
pub enum LineRole {
    /// It matches the start marker and carries this identifier.
    Opens(ContentMetadata),
    /// It matches the start marker and carries no identifier.
    Skipped,
    /// It matches the end marker, and not the start marker.
    Closes,
    /// It matches neither marker.
    Plain,
}

pub enum LineRoleView {
    Opens(Seq<char>),
    Skipped,
    Closes,
    Plain,
}

impl View for LineRole {
    type V = LineRoleView;

    open spec fn view(&self) -> LineRoleView {
        match self {
            LineRole::Opens(metadata) => LineRoleView::Opens(metadata@),
            LineRole::Skipped => LineRoleView::Skipped,
            LineRole::Closes => LineRoleView::Closes,
            LineRole::Plain => LineRoleView::Plain,
        }
    }
}

/// What `line` is to `pattern`.
pub open spec fn role_of(pattern: Pattern, line: Seq<char>) -> LineRoleView {
    if pattern.starts(line) {
        match identifier_of(line) {
            Some(id) => LineRoleView::Opens(id),
            None => LineRoleView::Skipped,
        }
    } else if pattern.ends(line) {
        LineRoleView::Closes
    } else {
        LineRoleView::Plain
    }
}

/// What `line` is to `pattern`.
pub fn classify(pattern: &Pattern, line: &str) -> (role: LineRole)
    ensures
        role@ == role_of(*pattern, line@),
{
    if pattern.start_with(line) {
        match find_identifier(line) {
            Some(id) => LineRole::Opens(ContentMetadata { id }),
            None => LineRole::Skipped,
        }
    } else if pattern.end_with(line) {
        LineRole::Closes
    } else {
        LineRole::Plain
    }
}

/// How far the scan for one pattern has come: the blocks opened so far, in
/// the order in which they were opened, and the line that opened the last of
/// them if the pattern has not been closed since. The number of the blocks is
/// the pattern's occurrence counter.
#[derive(Debug)]
pub struct PatternState {
    pub blocks: Vec<ContentBlock>,
    pub opened_at: Option<usize>,
}

pub struct ScanView {
    pub blocks: Seq<BlockView>,
    pub opened_at: Option<int>,
}

impl View for PatternState {
    type V = ScanView;

    open spec fn view(&self) -> ScanView {
        ScanView {
            blocks: self.blocks.deep_view(),
            opened_at: match self.opened_at {
                Some(index) => Some(index as int),
                None => None,
            },
        }
    }
}

impl ScanView {
    /// The state before the first line.
    pub open spec fn initial() -> ScanView {
        ScanView { blocks: Seq::empty(), opened_at: None }
    }

    /// The state after a line with the given role, text and index.
    pub open spec fn step(self, role: LineRoleView, line: Seq<char>, index: int) -> ScanView {
        match role {
            LineRoleView::Opens(id) => ScanView {
                blocks: self.blocks.push(BlockView { id, lines: Seq::empty() }),
                opened_at: Some(index),
            },
            LineRoleView::Skipped => self,
            LineRoleView::Closes => ScanView { blocks: self.blocks, opened_at: None },
            LineRoleView::Plain => if self.opened_at is Some && self.blocks.len() > 0 {
                let last = self.blocks.last();
                ScanView {
                    blocks: self.blocks.update(
                        self.blocks.len() - 1,
                        BlockView { id: last.id, lines: last.lines.push(line) },
                    ),
                    opened_at: self.opened_at,
                }
            } else {
                self
            },
        }
    }
}

/// The state of `pattern` after `lines`.
pub open spec fn scanned(pattern: Pattern, lines: Seq<Seq<char>>) -> ScanView
    decreases lines.len(),
{
    if lines.len() == 0 {
        ScanView::initial()
    } else {
        scanned(pattern, lines.drop_last()).step(
            role_of(pattern, lines.last()),
            lines.last(),
            lines.len() - 1,
        )
    }
}

/// How many of `lines` open a block of `pattern`: those that match its start
/// marker and carry an identifier.
pub open spec fn opening_lines(pattern: Pattern, lines: Seq<Seq<char>>) -> nat
    decreases lines.len(),
{
    if lines.len() == 0 {
        0
    } else {
        let before = opening_lines(pattern, lines.drop_last());
        if role_of(pattern, lines.last()) is Opens {
            before + 1
        } else {
            before
        }
    }
}

/// A pattern has one block for each line that opens one.
pub proof fn lemma_one_block_per_opening_line(pattern: Pattern, lines: Seq<Seq<char>>)
    ensures
        scanned(pattern, lines).blocks.len() == opening_lines(pattern, lines),
    decreases lines.len(),
{
    if lines.len() > 0 {
        lemma_one_block_per_opening_line(pattern, lines.drop_last());
    }
}

/// A start marker without an identifier changes nothing: it opens no block,
/// and the number of blocks, the pattern's occurrence counter, stays.
pub proof fn lemma_start_without_identifier(
    pattern: Pattern,
    lines: Seq<Seq<char>>,
    line: Seq<char>,
)
    requires
        pattern.starts(line),
        identifier_of(line) is None,
    ensures
        scanned(pattern, lines.push(line)) == scanned(pattern, lines),
{
    assert(lines.push(line).drop_last() =~= lines);
}

/// While a pattern is not open, lines that open no block are not captured:
/// the blocks stay as they were, and the pattern stays closed.
pub proof fn lemma_nothing_captured_while_closed(
    pattern: Pattern,
    lines: Seq<Seq<char>>,
    more: Seq<Seq<char>>,
)
    requires
        scanned(pattern, lines).opened_at is None,
        forall|k: int| 0 <= k < more.len() ==> !(role_of(pattern, #[trigger] more[k]) is Opens),
    ensures
        scanned(pattern, lines + more).blocks == scanned(pattern, lines).blocks,
        scanned(pattern, lines + more).opened_at is None,
    decreases more.len(),
{
    if more.len() == 0 {
        assert(lines + more =~= lines);
    } else {
        let shorter = more.drop_last();
        assert forall|k: int| 0 <= k < shorter.len() implies !(role_of(
            pattern,
            #[trigger] shorter[k],
        ) is Opens) by {
            assert(shorter[k] == more[k]);
        }
        lemma_nothing_captured_while_closed(pattern, lines, shorter);
        assert((lines + more).drop_last() =~= lines + shorter);
        assert((lines + more).last() == more[more.len() - 1]);
    }
}

impl PatternState {
    /// The state before the first line.
    pub fn new() -> (state: Self)
        ensures
            state@ == ScanView::initial(),
    {
        let state = PatternState { blocks: Vec::new(), opened_at: None };
        assert(state@.blocks =~= Seq::empty());
        state
    }

    /// The pattern's occurrence counter: how many blocks it has opened.
    pub fn counter(&self) -> (n: usize)
        ensures
            n == self@.blocks.len(),
    {
        self.blocks.len()
    }

    /// Takes the state over one line, given what the line is to the pattern.
    pub fn advance(&mut self, role: LineRole, line: &str, index: usize)
        ensures
            final(self)@ == old(self)@.step(role@, line@, index as int),
    {
        match role {
            LineRole::Opens(metadata) => {
                let ghost id = metadata@;
                self.blocks.push(ContentBlock { metadata, lines: Vec::new() });
                self.opened_at = Some(index);
                proof {
                    let opened = BlockView { id, lines: Seq::empty() };
                    assert(self.blocks@.last().lines.deep_view() =~= Seq::<Seq<char>>::empty());
                    assert(self@.blocks =~= old(self)@.blocks.push(opened));
                }
            },
            LineRole::Skipped => {},
            LineRole::Closes => {
                self.opened_at = None;
            },
            LineRole::Plain => {
                let n = self.blocks.len();
                if self.opened_at.is_some() && n > 0 {
                    let ghost last = old(self)@.blocks.last();
                    self.blocks[n - 1].lines.push(line.to_owned());
                    proof {
                        let grown = BlockView { id: last.id, lines: last.lines.push(line@) };
                        assert(self.blocks@[n - 1].lines.deep_view() =~= last.lines.push(line@));
                        assert(self@.blocks =~= old(self)@.blocks.update(n - 1, grown));
                    }
                }
            },
        }
    }
}

/// Scans `lines` for the blocks of each of `patterns`: one pass over the
/// lines, in which each line is shown to each pattern in turn.
pub fn scan_lines(patterns: &Vec<Pattern>, lines: &Vec<String>) -> (states: Vec<PatternState>)
    ensures
        states@.len() == patterns@.len(),
        forall|p: int|
            0 <= p < states@.len() ==> (#[trigger] states@[p])@ == scanned(
                patterns@[p],
                lines.deep_view(),
            ),
{
    let ghost all = lines.deep_view();
    let mut states: Vec<PatternState> = Vec::new();
    while states.len() < patterns.len()
        invariant
            states@.len() <= patterns@.len(),
            forall|p: int|
                0 <= p < states@.len() ==> (#[trigger] states@[p])@ == scanned(
                    patterns@[p],
                    all.take(0),
                ),
        decreases patterns@.len() - states@.len(),
    {
        states.push(PatternState::new());
    }
    let mut i: usize = 0;
    while i < lines.len()
        invariant
            i <= lines@.len(),
            all == lines.deep_view(),
            states@.len() == patterns@.len(),
            forall|p: int|
                0 <= p < states@.len() ==> (#[trigger] states@[p])@ == scanned(
                    patterns@[p],
                    all.take(i as int),
                ),
        decreases lines@.len() - i,
    {
        let line = lines[i].as_str();
        proof {
            let upto = all.take(i + 1);
            assert(upto.drop_last() =~= all.take(i as int));
            assert(upto.last() == line@);
        }
        let mut p: usize = 0;
        while p < patterns.len()
            invariant
                p <= patterns@.len(),
                all.take(i + 1).drop_last() == all.take(i as int),
                all.take(i + 1).last() == line@,
                all.take(i + 1).len() == i + 1,
                states@.len() == patterns@.len(),
                forall|q: int|
                    0 <= q < p ==> (#[trigger] states@[q])@ == scanned(
                        patterns@[q],
                        all.take(i + 1),
                    ),
                forall|q: int|
                    p <= q < states@.len() ==> (#[trigger] states@[q])@ == scanned(
                        patterns@[q],
                        all.take(i as int),
                    ),
            decreases patterns@.len() - p,
        {
            let role = classify(&patterns[p], line);
            states[p].advance(role, line, i);
            p += 1;
        }
        i += 1;
    }
    assert(all.take(i as int) =~= all);
    states
}

} // verus!

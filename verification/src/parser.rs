//! Extraction: from the text of a file and a list of patterns to the labelled
//! content of the blocks that the patterns mark.

use crate::errors::{ParseError, ParserResult};
use crate::identifier::{find_identifier, identifier_of};
use crate::matcher::{match_count, regex_match_count, regex_source, source_of};
use crate::pattern::Pattern;
use crate::scan::{lemma_one_block_per_opening_line, opening_lines, scan_lines, scanned};
use crate::text::{
    is_trimmed, join_lines, joined, lemma_trimmed_is_trimmed, lines_of, split_lines, string_of,
    trim, trimmed,
};
use vstd::prelude::*;

verus! {

/// What identifies a block.
#[derive(Debug, Clone, PartialEq, Eq)]
pub struct ContentMetadata {
    pub id: String,
}

/// A block while its file is scanned: its identifier and the lines collected
/// between its start marker and its end marker.
#[derive(Debug, Clone, PartialEq, Eq)]
pub struct ContentBlock {
    pub metadata: ContentMetadata,
    pub lines: Vec<String>,
}

/// A block as extraction hands it on: its identifier and its content, cleaned
/// and trimmed.
#[derive(Debug, Clone, PartialEq, Eq)]
pub struct ContentResults {
    pub metadata: ContentMetadata,
    pub data: String,
}

pub struct BlockView {
    pub id: Seq<char>,
    pub lines: Seq<Seq<char>>,
}

pub struct ResultView {
    pub id: Seq<char>,
    pub data: Seq<char>,
}

impl View for ContentMetadata {
    type V = Seq<char>;

    open spec fn view(&self) -> Seq<char> {
        self.id@
    }
}

impl DeepView for ContentBlock {
    type V = BlockView;

    open spec fn deep_view(&self) -> BlockView {
        BlockView { id: self.metadata@, lines: self.lines.deep_view() }
    }
}

impl View for ContentResults {
    type V = ResultView;

    open spec fn view(&self) -> ResultView {
        ResultView { id: self.metadata@, data: self.data@ }
    }
}

impl DeepView for ContentResults {
    type V = ResultView;

    open spec fn deep_view(&self) -> ResultView {
        self@
    }
}

impl ContentMetadata {
    /// The metadata that the line of a start marker gives to its block: the
    /// identifier of the line's `<id:VALUE>` token, if it holds one.
    #[must_use]
    pub fn new(str: &str) -> (r: Option<Self>)
        ensures
            match r {
                Some(metadata) => identifier_of(str@) == Some(metadata@),
                None => identifier_of(str@) is None,
            },
    {
        match find_identifier(str) {
            Some(id) => Some(Self { id }),
            None => None,
        }
    }
}

/// What a block of `pattern` becomes: its lines joined by line feeds, cleaned
/// by the pattern's rules, and trimmed.
pub open spec fn finished(pattern: Pattern, block: BlockView) -> ResultView {
    ResultView { id: block.id, data: trimmed(pattern.cleaned(joined(block.lines))) }
}

/// What `blocks` of `pattern` become, in their order.
pub open spec fn finished_all(pattern: Pattern, blocks: Seq<BlockView>) -> Seq<ResultView> {
    Seq::new(blocks.len(), |i: int| finished(pattern, blocks[i]))
}

/// The results of one pattern in `lines`, in the order in which its blocks
/// were opened.
pub open spec fn results_of(pattern: Pattern, lines: Seq<Seq<char>>) -> Seq<ResultView> {
    finished_all(pattern, scanned(pattern, lines).blocks)
}

/// Finishes a block of `pattern`: joins its lines by line feeds, removes what
/// the pattern's cleanup rules match, and trims what is left.
pub fn finish(pattern: &Pattern, block: &ContentBlock) -> (result: ContentResults)
    ensures
        result@ == finished(*pattern, block.deep_view()),
{
    let text = string_of(join_lines(&block.lines).as_slice());
    let cleaned = pattern.cleanup(text.as_str());
    ContentResults {
        metadata: ContentMetadata { id: block.metadata.id.clone() },
        data: trim(cleaned.as_str()),
    }
}

/// Finishes the blocks of `pattern`, in their order.
pub fn finish_all(pattern: &Pattern, blocks: &Vec<ContentBlock>) -> (results: Vec<ContentResults>)
    ensures
        results.deep_view() == finished_all(*pattern, blocks.deep_view()),
{
    let mut results: Vec<ContentResults> = Vec::new();
    let mut b: usize = 0;
    while b < blocks.len()
        invariant
            b <= blocks@.len(),
            results@.len() == b,
            forall|k: int|
                0 <= k < b ==> (#[trigger] results@[k])@ == finished(
                    *pattern,
                    blocks@[k].deep_view(),
                ),
        decreases blocks@.len() - b,
    {
        results.push(finish(pattern, &blocks[b]));
        b += 1;
    }
    assert(results.deep_view() =~= finished_all(*pattern, blocks.deep_view()));
    results
}

/// The results of `patterns` in `lines`: those of the first pattern, then
/// those of the second, and so on.
pub open spec fn extraction(patterns: Seq<Pattern>, lines: Seq<Seq<char>>) -> Seq<ResultView>
    decreases patterns.len(),
{
    if patterns.len() == 0 {
        Seq::empty()
    } else {
        extraction(patterns.drop_last(), lines) + results_of(patterns.last(), lines)
    }
}

/// How many lines open a block of one of `patterns`.
pub open spec fn total_opening_lines(patterns: Seq<Pattern>, lines: Seq<Seq<char>>) -> nat
    decreases patterns.len(),
{
    if patterns.len() == 0 {
        0
    } else {
        total_opening_lines(patterns.drop_last(), lines) + opening_lines(patterns.last(), lines)
    }
}

/// Extraction yields one result for each line that matches a pattern's start
/// marker and carries an identifier.
pub proof fn lemma_one_result_per_opening_line(patterns: Seq<Pattern>, lines: Seq<Seq<char>>)
    ensures
        extraction(patterns, lines).len() == total_opening_lines(patterns, lines),
    decreases patterns.len(),
{
    if patterns.len() > 0 {
        lemma_one_result_per_opening_line(patterns.drop_last(), lines);
        lemma_one_block_per_opening_line(patterns.last(), lines);
    }
}

/// The content of every result is trimmed: it neither begins nor ends with
/// white space.
pub proof fn lemma_results_are_trimmed(patterns: Seq<Pattern>, lines: Seq<Seq<char>>, i: int)
    requires
        0 <= i < extraction(patterns, lines).len(),
    ensures
        is_trimmed(extraction(patterns, lines)[i].data),
    decreases patterns.len(),
{
    let before = extraction(patterns.drop_last(), lines);
    if i < before.len() {
        lemma_results_are_trimmed(patterns.drop_last(), lines, i);
    } else {
        let pattern = patterns.last();
        let block = scanned(pattern, lines).blocks[i - before.len()];
        lemma_trimmed_is_trimmed(pattern.cleaned(joined(block.lines)));
    }
}

/// Whether the start marker of `pattern` occurs in `text` as often as its end
/// marker.
pub open spec fn is_balanced(pattern: Pattern, text: Seq<char>) -> bool {
    regex_match_count(pattern.start, text) == regex_match_count(pattern.end, text)
}

/// Whether every one of `patterns` is balanced in `text`.
pub open spec fn all_balanced(patterns: Seq<Pattern>, text: Seq<char>) -> bool {
    forall|i: int| 0 <= i < patterns.len() ==> is_balanced(#[trigger] patterns[i], text)
}

/// Whether pattern `i` is the first of `patterns` that is not balanced in `text`.
pub open spec fn is_first_unbalanced(patterns: Seq<Pattern>, text: Seq<char>, i: int) -> bool {
    &&& 0 <= i < patterns.len()
    &&& !is_balanced(patterns[i], text)
    &&& all_balanced(patterns.take(i), text)
}

/// How often the start markers of `patterns` occur in `text`, all together.
pub open spec fn start_count(patterns: Seq<Pattern>, text: Seq<char>) -> nat
    decreases patterns.len(),
{
    if patterns.len() == 0 {
        0
    } else {
        start_count(patterns.drop_last(), text) + regex_match_count(patterns.last().start, text)
    }
}

/// How often the two markers of a pattern occur in a text.
#[derive(Debug, Clone, Copy, PartialEq, Eq)]
pub struct MarkerCount {
    pub start: usize,
    pub end: usize,
}

/// Whether `counts` are those of the markers of `patterns` in `text`.
pub open spec fn are_counts_of(
    counts: Seq<MarkerCount>,
    patterns: Seq<Pattern>,
    text: Seq<char>,
) -> bool {
    &&& counts.len() == patterns.len()
    &&& forall|k: int|
        0 <= k < counts.len() ==> {
            &&& (#[trigger] counts[k]).start == regex_match_count(patterns[k].start, text)
            &&& counts[k].end == regex_match_count(patterns[k].end, text)
        }
}

/// Whether pattern `i` is the first whose two counts differ.
pub open spec fn is_first_uneven(counts: Seq<MarkerCount>, i: int) -> bool {
    &&& 0 <= i < counts.len()
    &&& counts[i].start != counts[i].end
    &&& forall|k: int| 0 <= k < i ==> (#[trigger] counts[k]).start == counts[k].end
}

/// The start markers that `counts` count, all together.
pub open spec fn starts_in(counts: Seq<MarkerCount>) -> nat
    decreases counts.len(),
{
    if counts.len() == 0 {
        0
    } else {
        starts_in(counts.drop_last()) + counts.last().start as nat
    }
}

/// `n`, or the largest `usize` where `n` is larger.
pub open spec fn saturated(n: nat) -> usize {
    if n > usize::MAX {
        usize::MAX
    } else {
        n as usize
    }
}

/// What extraction yields for one file: nothing where a pattern is not
/// balanced or where no start marker occurs, else the results of the patterns
/// in the file's lines.
pub open spec fn file_results(patterns: Seq<Pattern>, text: Seq<char>) -> Seq<ResultView> {
    if all_balanced(patterns, text) && start_count(patterns, text) > 0 {
        extraction(patterns, lines_of(text))
    } else {
        Seq::empty()
    }
}

/// A file whose markers are balanced, and in which a start marker occurs,
/// yields one result for each line that opens a block.
pub proof fn lemma_one_result_per_opening_line_of_a_file(patterns: Seq<Pattern>, text: Seq<char>)
    requires
        all_balanced(patterns, text),
        start_count(patterns, text) > 0,
    ensures
        file_results(patterns, text).len() == total_opening_lines(patterns, lines_of(text)),
{
    lemma_one_result_per_opening_line(patterns, lines_of(text));
}

/// What extraction yields for `files`: the results of the first file, then
/// those of the second, and so on.
pub open spec fn results_in(patterns: Seq<Pattern>, files: Seq<Seq<char>>) -> Seq<ResultView>
    decreases files.len(),
{
    if files.len() == 0 {
        Seq::empty()
    } else {
        results_in(patterns, files.drop_last()) + file_results(patterns, files.last())
    }
}

/// The patterns that a parser extracts by.
#[derive(Debug)]
pub struct Config {
    pub patterns: Vec<Pattern>,
}

impl Default for Config {
    /// The configuration that is used where none is given: the default
    /// pattern alone.
    fn default() -> (config: Self)
        ensures
            config.patterns@.len() == 1,
            config.patterns@[0].is_default(),
    {
        let mut patterns: Vec<Pattern> = Vec::new();
        patterns.push(Pattern::default());
        Self { patterns }
    }
}

/// Extracts the content of the blocks that its patterns mark.
#[derive(Debug)]
pub struct Parser {
    config: Config,
}

impl Default for Parser {
    fn default() -> (parser: Self)
        ensures
            parser.patterns().len() == 1,
            parser.patterns()[0].is_default(),
    {
        Self::new()
    }
}

impl Parser {
    /// The patterns that this parser extracts by.
    pub closed spec fn patterns(&self) -> Seq<Pattern> {
        self.config.patterns@
    }

    /// A parser with the default configuration.
    #[must_use]
    pub fn new() -> (parser: Self)
        ensures
            parser.patterns().len() == 1,
            parser.patterns()[0].is_default(),
    {
        Self { config: Config::default() }
    }

    /// A parser with the given configuration.
    #[must_use]
    pub fn with_config(config: Config) -> (parser: Self)
        ensures
            parser.patterns() == config.patterns@,
    {
        Self { config }
    }

    /// Extracts from the text of one file. Fails where a pattern's start
    /// marker occurs more or less often than its end marker, and names the
    /// first such pattern. Yields nothing where no start marker occurs.
    pub fn extract_text(&self, text: &str) -> (r: ParserResult<Vec<ContentResults>>)
        ensures
            match r {
                Ok(results) => {
                    &&& all_balanced(self.patterns(), text@)
                    &&& results.deep_view() == file_results(self.patterns(), text@)
                },
                Err(ParseError::PatterNotEqual { pattern_start, pattern_end }) => exists|i: int|
                    {
                        &&& #[trigger] is_first_unbalanced(self.patterns(), text@, i)
                        &&& pattern_start@ == regex_source(self.patterns()[i].start)
                        &&& pattern_end@ == regex_source(self.patterns()[i].end)
                    },
                Err(ParseError::IO(_)) => false,
            },
    {
        assert(self.patterns() == self.config.patterns@);
        match Content::new(text, &self.config.patterns) {
            Err(e) => Err(e),
            Ok(content) => {
                if content.expected_capture_count == 0 {
                    let results: Vec<ContentResults> = Vec::new();
                    assert(results.deep_view() =~= Seq::<ResultView>::empty());
                    Ok(results)
                } else {
                    Ok(content.extract())
                }
            },
        }
    }

    /// Extracts from the texts of many files, each on its own: a file in
    /// which a pattern is not balanced yields nothing and does not keep the
    /// others from yielding theirs.
    #[must_use]
    pub fn extract_content(&self, files: &Vec<String>) -> (results: Vec<ContentResults>)
        ensures
            results.deep_view() == results_in(self.patterns(), files.deep_view()),
    {
        let mut results: Vec<ContentResults> = Vec::new();
        let ghost texts = files.deep_view();
        let mut i: usize = 0;
        assert(texts.take(0) =~= Seq::<Seq<char>>::empty());
        assert(results.deep_view() =~= Seq::<ResultView>::empty());
        while i < files.len()
            invariant
                i <= files@.len(),
                texts == files.deep_view(),
                results.deep_view() == results_in(self.patterns(), texts.take(i as int)),
            decreases files@.len() - i,
        {
            let ghost before = results.deep_view();
            proof {
                let upto = texts.take(i + 1);
                assert(upto.drop_last() =~= texts.take(i as int));
                assert(upto.last() == files@[i as int]@);
            }
            match self.extract_text(files[i].as_str()) {
                Ok(mut found) => {
                    let ghost added = found.deep_view();
                    results.append(&mut found);
                    assert(results.deep_view() =~= before + added);
                },
                Err(_) => {
                    assert(before + Seq::<ResultView>::empty() =~= before);
                },
            }
            i += 1;
        }
        assert(texts.take(i as int) =~= texts);
        results
    }
}

/// The counts of the markers of `patterns` in `text` add up to the count of
/// its start markers.
pub proof fn lemma_starts_are_counted(
    patterns: Seq<Pattern>,
    text: Seq<char>,
    counts: Seq<MarkerCount>,
)
    requires
        are_counts_of(counts, patterns, text),
    ensures
        starts_in(counts) == start_count(patterns, text),
    decreases patterns.len(),
{
    if patterns.len() > 0 {
        let fewer = counts.drop_last();
        assert forall|k: int| 0 <= k < fewer.len() implies {
            &&& (#[trigger] fewer[k]).start == regex_match_count(patterns.drop_last()[k].start, text)
            &&& fewer[k].end == regex_match_count(patterns.drop_last()[k].end, text)
        } by {
            assert(fewer[k] == counts[k]);
        }
        lemma_starts_are_counted(patterns.drop_last(), text, fewer);
        assert(counts.last() == counts[counts.len() - 1]);
    }
}

/// Counts the markers of each of `patterns` in `text`.
pub fn count_markers(text: &str, patterns: &Vec<Pattern>) -> (counts: Vec<MarkerCount>)
    ensures
        are_counts_of(counts@, patterns@, text@),
{
    let mut counts: Vec<MarkerCount> = Vec::new();
    let mut i: usize = 0;
    while i < patterns.len()
        invariant
            i <= patterns@.len(),
            are_counts_of(counts@, patterns@.take(i as int), text@),
        decreases patterns@.len() - i,
    {
        let pattern = &patterns[i];
        counts.push(
            MarkerCount {
                start: match_count(&pattern.start, text),
                end: match_count(&pattern.end, text),
            },
        );
        i += 1;
    }
    assert(patterns@.take(i as int) =~= patterns@);
    counts
}

/// Checks that the two counts of each pattern are equal. Returns the number
/// of start markers, all patterns together, or the largest `usize` where that
/// is larger; fails with the index of the first pattern whose counts differ.
pub fn tally(counts: &Vec<MarkerCount>) -> (r: Result<usize, usize>)
    ensures
        match r {
            Ok(total) => {
                &&& forall|k: int|
                    0 <= k < counts@.len() ==> (#[trigger] counts@[k]).start == counts@[k].end
                &&& total == saturated(starts_in(counts@))
            },
            Err(i) => is_first_uneven(counts@, i as int),
        },
{
    let mut total: usize = 0;
    let mut i: usize = 0;
    assert(counts@.take(0) =~= Seq::<MarkerCount>::empty());
    while i < counts.len()
        invariant
            i <= counts@.len(),
            forall|k: int| 0 <= k < i ==> (#[trigger] counts@[k]).start == counts@[k].end,
            total == saturated(starts_in(counts@.take(i as int))),
        decreases counts@.len() - i,
    {
        if counts[i].start != counts[i].end {
            return Err(i);
        }
        proof {
            let upto = counts@.take(i + 1);
            assert(upto.drop_last() =~= counts@.take(i as int));
            assert(upto.last() == counts@[i as int]);
        }
        total = total.saturating_add(counts[i].start);
        i += 1;
    }
    assert(counts@.take(i as int) =~= counts@);
    Ok(total)
}

/// The text of a file whose markers are balanced, with the patterns to
/// extract by.
#[derive(Debug)]
pub struct Content<'a> {
    pub text: &'a str,
    pub patterns: &'a Vec<Pattern>,
    /// How often the start markers occur in the text, all patterns together;
    /// the largest `usize` where that is larger.
    pub expected_capture_count: usize,
}

impl<'a> Content<'a> {
    /// Checks that each pattern's start marker occurs in `text` as often as
    /// its end marker. The error names the first pattern for which it does
    /// not.
    pub fn new(text: &'a str, patterns: &'a Vec<Pattern>) -> (r: ParserResult<Self>)
        ensures
            match r {
                Ok(content) => {
                    &&& all_balanced(patterns@, text@)
                    &&& content.text@ == text@
                    &&& content.patterns@ == patterns@
                    &&& content.expected_capture_count == saturated(start_count(patterns@, text@))
                },
                Err(ParseError::PatterNotEqual { pattern_start, pattern_end }) => exists|i: int|
                    {
                        &&& #[trigger] is_first_unbalanced(patterns@, text@, i)
                        &&& pattern_start@ == regex_source(patterns@[i].start)
                        &&& pattern_end@ == regex_source(patterns@[i].end)
                    },
                Err(ParseError::IO(_)) => false,
            },
    {
        let counts = count_markers(text, patterns);
        match tally(&counts) {
            Ok(expected_capture_count) => {
                proof {
                    lemma_starts_are_counted(patterns@, text@, counts@);
                    assert forall|k: int| 0 <= k < patterns@.len() implies is_balanced(
                        #[trigger] patterns@[k],
                        text@,
                    ) by {
                        assert(counts@[k].start == counts@[k].end);
                    }
                }
                Ok(Self { text, patterns, expected_capture_count })
            },
            Err(i) => {
                proof {
                    let before = patterns@.take(i as int);
                    assert forall|k: int| 0 <= k < before.len() implies is_balanced(
                        #[trigger] before[k],
                        text@,
                    ) by {
                        assert(counts@[k].start == counts@[k].end);
                    }
                    assert(counts@[i as int].start != counts@[i as int].end);
                    assert(is_first_unbalanced(patterns@, text@, i as int));
                }
                Err(
                    ParseError::PatterNotEqual {
                        pattern_start: source_of(&patterns[i].start),
                        pattern_end: source_of(&patterns[i].end),
                    },
                )
            },
        }
    }

    /// The content of the blocks that the patterns mark in the text: first
    /// the blocks of the first pattern, in the order in which they open, then
    /// those of the second, and so on. There is one result for each line that
    /// matches a start marker and carries an identifier.
    pub fn extract(self) -> (results: Vec<ContentResults>)
        ensures
            results.deep_view() == extraction(self.patterns@, lines_of(self.text@)),
            results@.len() == total_opening_lines(self.patterns@, lines_of(self.text@)),
    {
        let patterns = self.patterns;
        let lines = split_lines(self.text);
        let ghost all = lines.deep_view();
        let states = scan_lines(patterns, &lines);
        let mut results: Vec<ContentResults> = Vec::new();
        let mut p: usize = 0;
        assert(patterns@.take(0) =~= Seq::<Pattern>::empty());
        assert(results.deep_view() =~= Seq::<ResultView>::empty());
        while p < patterns.len()
            invariant
                p <= patterns@.len(),
                states@.len() == patterns@.len(),
                forall|q: int|
                    0 <= q < states@.len() ==> (#[trigger] states@[q])@ == scanned(patterns@[q], all),
                results.deep_view() == extraction(patterns@.take(p as int), all),
            decreases patterns@.len() - p,
        {
            let ghost before = results.deep_view();
            let mut finished = finish_all(&patterns[p], &states[p].blocks);
            let ghost added = finished.deep_view();
            results.append(&mut finished);
            proof {
                assert(results.deep_view() =~= before + added);
                let upto = patterns@.take(p + 1);
                assert(upto.drop_last() =~= patterns@.take(p as int));
                assert(upto.last() == patterns@[p as int]);
            }
            p += 1;
        }
        proof {
            assert(patterns@.take(p as int) =~= patterns@);
            lemma_one_result_per_opening_line(patterns@, all);
            assert(results.deep_view().len() == results@.len());
        }
        results
    }
}

} // verus!

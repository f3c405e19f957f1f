//! Replacement: from the text of a target document and the extracted content
//! to the rewritten document and, for each identifier, what was done.
//!
//! A document marks the place of a block with a pair of markers that carry
//! the block's identifier. The markers are regular expressions, made from two
//! templates by putting the identifier, taken literally, in the place of
//! `ID`.

use crate::errors::{capture_not_found_text, ReplacerError, ReplacerResult};
use crate::matcher::{
    captures, compile, escape, escaped, regex_captures, regex_compiled, regex_error_message,
    Captured, CapturedView,
};
use crate::parser::{ContentResults, ResultView};
use crate::text::{
    chars_of, is_trimmed, lemma_trimmed_ignores_padding, lemma_trimmed_is_fixed, string_of, trim,
    trimmed,
};
use std::path::PathBuf;
use vstd::prelude::*;
use vstd::string::StringExecFns;

verus! {

/// The template of the start marker where none is configured.
pub const DEFAULT_START_PATTERN: &'static str = r"(<!--\s*📖(ID)\s*-->)";

/// The template of the end marker where none is configured.
pub const DEFAULT_END_PATTERN: &'static str = r"(<!--\s*(ID)📖\s*-->)";

/// What was done for one identifier in one document.
#[derive(Debug, Clone, PartialEq, Eq)]
pub enum ReplaceStatus {
    /// The markers of the identifier could not be searched for: the
    /// identifier and what went wrong.
    Error(String, String),
    /// The document holds no marker pair for the identifier.
    NotFound(String),
    /// The document holds the content already.
    Equal(String),
    /// The content was put between the markers: the identifier, the whole
    /// document as it is now, and the content.
    Replaced(String, String, String),
}

pub enum StatusView {
    Error(Seq<char>, Seq<char>),
    NotFound(Seq<char>),
    Equal(Seq<char>),
    Replaced(Seq<char>, Seq<char>, Seq<char>),
}

impl View for ReplaceStatus {
    type V = StatusView;

    open spec fn view(&self) -> StatusView {
        match self {
            ReplaceStatus::Error(id, message) => StatusView::Error(id@, message@),
            ReplaceStatus::NotFound(id) => StatusView::NotFound(id@),
            ReplaceStatus::Equal(id) => StatusView::Equal(id@),
            ReplaceStatus::Replaced(id, all, block) => StatusView::Replaced(id@, all@, block@),
        }
    }
}

impl StatusView {
    /// The word that a report shows for the status.
    pub open spec fn label(self) -> Seq<char> {
        match self {
            StatusView::Error(_, _) => "error"@,
            StatusView::NotFound(_) => "not found"@,
            StatusView::Equal(_) => "equal"@,
            StatusView::Replaced(_, _, _) => "replaced"@,
        }
    }

    /// What a report shows of the status beside its label: the identifier,
    /// and the content where it was put into the document. A report passes
    /// over an identifier that was not found or could not be searched for.
    pub open spec fn shown(self) -> Option<(Seq<char>, Seq<char>)> {
        match self {
            StatusView::NotFound(_) | StatusView::Error(_, _) => None,
            StatusView::Equal(id) => Some((id, Seq::empty())),
            StatusView::Replaced(id, _, block) => Some((id, block)),
        }
    }

    /// The document after this status, where it was `text` before.
    pub open spec fn text_after(self, text: Seq<char>) -> Seq<char> {
        match self {
            StatusView::Replaced(_, all, _) => all,
            _ => text,
        }
    }
}

impl ReplaceStatus {
    /// The word that a report shows for the status.
    pub fn label(&self) -> (r: String)
        ensures
            r@ == self@.label(),
    {
        match self {
            Self::Error(_, _) => "error".to_owned(),
            Self::NotFound(_) => "not found".to_owned(),
            Self::Equal(_) => "equal".to_owned(),
            Self::Replaced(_, _, _) => "replaced".to_owned(),
        }
    }

    /// What a report shows of the status beside its label: the identifier,
    /// and the content where it was put into the document. A status that a
    /// report passes over gives `None`.
    pub fn shown(&self) -> (r: Option<(String, String)>)
        ensures
            match r {
                Some((id, content)) => self@.shown() == Some((id@, content@)),
                None => self@.shown() is None,
            },
    {
        match self {
            Self::NotFound(_) | Self::Error(_, _) => None,
            Self::Equal(id) => Some((id.clone(), String::new())),
            Self::Replaced(id, _, block) => Some((id.clone(), block.clone())),
        }
    }

    /// Whether the content was put into the document.
    pub fn is_replaced(&self) -> (b: bool)
        ensures
            b == (self@ is Replaced),
    {
        match self {
            Self::Replaced(_, _, _) => true,
            _ => false,
        }
    }
}

/// The templates of the two markers. Each holds `ID` where the identifier
/// goes.
#[derive(Debug, Clone, PartialEq, Eq)]
pub struct Replace {
    pub start: String,
    pub end: String,
}

pub struct ReplaceView {
    pub start: Seq<char>,
    pub end: Seq<char>,
}

impl View for Replace {
    type V = ReplaceView;

    open spec fn view(&self) -> ReplaceView {
        ReplaceView { start: self.start@, end: self.end@ }
    }
}

/// What was done for one identifier in the document at `path`.
#[derive(Debug)]
pub struct ReplaceResult {
    pub path: PathBuf,
    pub status: ReplaceStatus,
}

/// A target document as it was read: where it lies and what it holds.
#[derive(Debug)]
pub struct Document {
    pub path: PathBuf,
    pub text: String,
}

/// `template` with `id` in the place of each `ID`, from left to right.
pub open spec fn with_identifier(template: Seq<char>, id: Seq<char>) -> Seq<char>
    decreases template.len(),
{
    if template.len() == 0 {
        Seq::empty()
    } else if template.len() >= 2 && template[0] == 'I' && template[1] == 'D' {
        id + with_identifier(template.skip(2), id)
    } else {
        seq![template[0]] + with_identifier(template.drop_first(), id)
    }
}

/// The text between a pair of markers after a replacement, with the markers.
pub open spec fn rewritten_block(
    start_marker: Seq<char>,
    data: Seq<char>,
    end_marker: Seq<char>,
) -> Seq<char> {
    start_marker + "\n"@ + data + "\n"@ + end_marker
}

/// What follows for `item` from a search for its markers. `found` is the
/// first match of the marker pair in the document, or `None`. In a match,
/// group 1 is the start marker, group 3 what stands between the markers, and
/// group 4 the end marker. `Err` holds the number of a group that the match
/// lacks.
pub open spec fn outcome(item: ResultView, found: Option<CapturedView>) -> Result<StatusView, int> {
    match found {
        None => Ok(StatusView::NotFound(item.id)),
        Some(c) => match c.group(3) {
            None => Err(3),
            Some(existing) => if trimmed(existing) == item.data {
                Ok(StatusView::Equal(item.id))
            } else {
                match c.group(1) {
                    None => Err(1),
                    Some(start_marker) => match c.group(4) {
                        None => Err(4),
                        Some(end_marker) => Ok(
                            StatusView::Replaced(
                                item.id,
                                c.before + rewritten_block(start_marker, item.data, end_marker)
                                    + c.after,
                                item.data,
                            ),
                        ),
                    },
                }
            },
        },
    }
}

/// Whether `r` is what `wanted` stands for.
pub open spec fn agrees(r: ReplacerResult<ReplaceStatus>, wanted: Result<StatusView, int>) -> bool {
    match r {
        Ok(status) => wanted == Ok::<StatusView, int>(status@),
        Err(ReplacerError::CaptureNotFound { index }) => wanted == Err::<StatusView, int>(
            index as int,
        ),
        Err(_) => false,
    }
}

impl ReplaceView {
    /// The expression that finds the marker pair of `id` with what stands
    /// between the markers, line feeds included.
    pub open spec fn marker_source(self, id: Seq<char>) -> Seq<char> {
        "(?s)"@ + with_identifier(self.start, escaped(id)) + "(.*)"@ + with_identifier(
            self.end,
            escaped(id),
        )
    }

    /// What is done for `item` in a document that holds `text`.
    pub open spec fn status_of(self, text: Seq<char>, item: ResultView) -> StatusView {
        match regex_compiled(self.marker_source(item.id)) {
            Err(message) => StatusView::Error(item.id, message),
            Ok(re) => match outcome(item, regex_captures(re, text)) {
                Ok(status) => status,
                Err(index) => StatusView::Error(item.id, capture_not_found_text(index)),
            },
        }
    }

    /// The document after `items` have been dealt with in their order, each
    /// in the document as the ones before it left it.
    pub open spec fn text_after(self, text: Seq<char>, items: Seq<ResultView>) -> Seq<char>
        decreases items.len(),
    {
        if items.len() == 0 {
            text
        } else {
            let before = self.text_after(text, items.drop_last());
            self.status_of(before, items.last()).text_after(before)
        }
    }

    /// What is done for each of `items`, in their order.
    pub open spec fn statuses(self, text: Seq<char>, items: Seq<ResultView>) -> Seq<StatusView> {
        Seq::new(
            items.len(),
            |i: int| self.status_of(self.text_after(text, items.take(i)), items[i]),
        )
    }
}

/// The statuses of `results`.
pub open spec fn status_views(results: Seq<ReplaceResult>) -> Seq<StatusView> {
    Seq::new(results.len(), |i: int| results[i].status@)
}

/// The paths of `results`.
pub open spec fn result_paths(results: Seq<ReplaceResult>) -> Seq<PathBuf> {
    Seq::new(results.len(), |i: int| results[i].path)
}

/// A document in contracts: its path and the characters of its text.
pub struct DocumentView {
    pub path: PathBuf,
    pub text: Seq<char>,
}

impl View for Document {
    type V = DocumentView;

    open spec fn view(&self) -> DocumentView {
        DocumentView { path: self.path, text: self.text@ }
    }
}

impl DeepView for Document {
    type V = DocumentView;

    open spec fn deep_view(&self) -> DocumentView {
        self@
    }
}

impl ReplaceView {
    /// What is done in `documents` for each of `items`: the statuses of the
    /// first document, then those of the second, and so on.
    pub open spec fn statuses_in(
        self,
        documents: Seq<DocumentView>,
        items: Seq<ResultView>,
    ) -> Seq<StatusView>
        decreases documents.len(),
    {
        if documents.len() == 0 {
            Seq::empty()
        } else {
            self.statuses_in(documents.drop_last(), items) + self.statuses(
                documents.last().text,
                items,
            )
        }
    }

    /// The documents among `documents` in which something was replaced, in
    /// their order, each with the text that it holds afterwards.
    pub open spec fn changed(
        self,
        documents: Seq<DocumentView>,
        items: Seq<ResultView>,
    ) -> Seq<DocumentView>
        decreases documents.len(),
    {
        if documents.len() == 0 {
            Seq::empty()
        } else {
            let before = self.changed(documents.drop_last(), items);
            let last = documents.last();
            if any_replaced(self.statuses(last.text, items)) {
                before.push(
                    DocumentView { path: last.path, text: self.text_after(last.text, items) },
                )
            } else {
                before
            }
        }
    }
}

/// The path that stands beside each status of a run over `documents`: that of
/// the first document for each of the `n` items, then that of the second, and
/// so on.
pub open spec fn paths_in(documents: Seq<DocumentView>, n: nat) -> Seq<PathBuf>
    decreases documents.len(),
{
    if documents.len() == 0 {
        Seq::empty()
    } else {
        paths_in(documents.drop_last(), n) + Seq::new(n, |i: int| documents.last().path)
    }
}

/// How many of `statuses` are errors.
pub open spec fn errors_among(statuses: Seq<StatusView>) -> nat
    decreases statuses.len(),
{
    if statuses.len() == 0 {
        0
    } else {
        let before = errors_among(statuses.drop_last());
        if statuses.last() is Error {
            before + 1
        } else {
            before
        }
    }
}

/// How many of `results` are errors.
pub fn error_count(results: &Vec<ReplaceResult>) -> (n: usize)
    ensures
        n == errors_among(status_views(results@)),
{
    let mut n: usize = 0;
    let mut i: usize = 0;
    let ghost all = status_views(results@);
    assert(all.take(0) =~= Seq::<StatusView>::empty());
    while i < results.len()
        invariant
            i <= results@.len(),
            all == status_views(results@),
            n <= i,
            n == errors_among(all.take(i as int)),
        decreases results@.len() - i,
    {
        proof {
            let upto = all.take(i + 1);
            assert(upto.drop_last() =~= all.take(i as int));
            assert(upto.last() == results@[i as int].status@);
        }
        if let ReplaceStatus::Error(_, _) = &results[i].status {
            n += 1;
        }
        i += 1;
    }
    assert(all.take(i as int) =~= all);
    n
}

/// Whether one of `statuses` is a replacement.
pub open spec fn any_replaced(statuses: Seq<StatusView>) -> bool {
    exists|i: int| 0 <= i < statuses.len() && #[trigger] statuses[i] is Replaced
}

/// A run that replaces nothing leaves the document as it was.
pub proof fn lemma_unchanged_without_replacement(
    replace: ReplaceView,
    text: Seq<char>,
    items: Seq<ResultView>,
)
    requires
        !any_replaced(replace.statuses(text, items)),
    ensures
        replace.text_after(text, items) == text,
    decreases items.len(),
{
    if items.len() > 0 {
        let shorter = items.drop_last();
        let all = replace.statuses(text, items);
        let fewer = replace.statuses(text, shorter);
        assert forall|i: int| 0 <= i < fewer.len() implies !(#[trigger] fewer[i] is Replaced) by {
            assert(shorter.take(i) =~= items.take(i));
            assert(fewer[i] == all[i]);
        }
        lemma_unchanged_without_replacement(replace, text, shorter);
        assert(items.take(items.len() - 1) =~= shorter);
        assert(all[items.len() - 1] == replace.status_of(text, items.last()));
    }
}

/// What a replacement writes between the markers is found equal by the next
/// search: a match whose markers stand around a line feed, trimmed content and
/// a line feed gives the status `Equal`.
pub proof fn lemma_rewritten_block_is_equal(item: ResultView, found: CapturedView)
    requires
        is_trimmed(item.data),
        found.group(3) == Some("\n"@ + item.data + "\n"@),
    ensures
        outcome(item, Some(found)) == Ok::<StatusView, int>(StatusView::Equal(item.id)),
{
    reveal_strlit("\n");
    assert("\n"@ =~= seq!['\n']);
    lemma_trimmed_ignores_padding("\n"@, item.data, "\n"@);
    lemma_trimmed_is_fixed(item.data);
}

/// `template` with `id` in the place of each `ID`.
pub fn substitute(template: &str, id: &str) -> (r: String)
    ensures
        r@ == with_identifier(template@, id@),
{
    let t = chars_of(template);
    let value = chars_of(id);
    let mut out: Vec<char> = Vec::new();
    let mut i: usize = 0;
    assert(t@.skip(0) =~= t@);
    while i < t.len()
        invariant
            i <= t@.len(),
            t@ == template@,
            value@ == id@,
            out@ + with_identifier(t@.skip(i as int), id@) == with_identifier(t@, id@),
        decreases t@.len() - i,
    {
        let ghost rest = t@.skip(i as int);
        let ghost before = out@;
        if t.len() - i >= 2 && t[i] == 'I' && t[i + 1] == 'D' {
            let mut copy = value.clone();
            out.append(&mut copy);
            i += 2;
            proof {
                assert(rest.skip(2) =~= t@.skip(i as int));
                assert(before + id@ + with_identifier(rest.skip(2), id@) =~= before + (id@
                    + with_identifier(rest.skip(2), id@)));
            }
        } else {
            out.push(t[i]);
            i += 1;
            proof {
                assert(rest.drop_first() =~= t@.skip(i as int));
                assert(before.push(rest[0]) + with_identifier(rest.drop_first(), id@) =~= before + (
                seq![rest[0]] + with_identifier(rest.drop_first(), id@)));
            }
        }
    }
    assert(with_identifier(t@.skip(i as int), id@) =~= Seq::<char>::empty());
    assert(out@ + Seq::<char>::empty() =~= out@);
    string_of(out.as_slice())
}

/// What follows for `item` from a search for its markers in a document:
/// `found` is the first match of the marker pair, or `None`.
pub fn status_for(item: &ContentResults, found: Option<Captured>) -> (r: ReplacerResult<
    ReplaceStatus,
>)
    ensures
        agrees(
            r,
            outcome(
                item@,
                match found {
                    Some(c) => Some(c@),
                    None => None,
                },
            ),
        ),
{
    let id = item.metadata.id.clone();
    let c = match found {
        Some(c) => c,
        None => {
            return Ok(ReplaceStatus::NotFound(id));
        },
    };
    let existing = match c.group(3) {
        Some(existing) => existing,
        None => {
            return Err(ReplacerError::CaptureNotFound { index: 3 });
        },
    };
    if trim(existing.as_str()) == item.data {
        return Ok(ReplaceStatus::Equal(id));
    }
    let keep_start = match c.group(1) {
        Some(keep_start) => keep_start,
        None => {
            return Err(ReplacerError::CaptureNotFound { index: 1 });
        },
    };
    let keep_end = match c.group(4) {
        Some(keep_end) => keep_end,
        None => {
            return Err(ReplacerError::CaptureNotFound { index: 4 });
        },
    };
    let mut all = c.before.clone();
    all.append(keep_start.as_str());
    all.append("\n");
    all.append(item.data.as_str());
    all.append("\n");
    all.append(keep_end.as_str());
    all.append(c.after.as_str());
    proof {
        let block = rewritten_block(keep_start@, item.data@, keep_end@);
        assert(all@ =~= c.before@ + block + c.after@);
    }
    Ok(ReplaceStatus::Replaced(id, all, item.data.clone()))
}

impl Default for Replace {
    /// The templates that are used where none are configured.
    fn default() -> (r: Self)
        ensures
            r.start@ == DEFAULT_START_PATTERN@,
            r.end@ == DEFAULT_END_PATTERN@,
    {
        Self { start: DEFAULT_START_PATTERN.to_owned(), end: DEFAULT_END_PATTERN.to_owned() }
    }
}

impl Replace {
    /// The expression that finds the marker pair of `id`.
    pub fn marker_source(&self, id: &str) -> (r: String)
        ensures
            r@ == self@.marker_source(id@),
    {
        let literal = escape(id);
        let mut r = "(?s)".to_owned();
        r.append(substitute(self.start.as_str(), literal.as_str()).as_str());
        r.append("(.*)");
        r.append(substitute(self.end.as_str(), literal.as_str()).as_str());
        r
    }

    /// Searches `content` for the marker pair of `parse_content` and says
    /// what is to be done: nothing where the pair is not found or holds the
    /// content already, else the document with the content between the
    /// markers. Fails where the markers do not compile, or where a match
    /// lacks a group.
    pub fn find_and_replace(&self, content: &str, parse_content: &ContentResults) -> (r:
        ReplacerResult<ReplaceStatus>)
        ensures
            match regex_compiled(self@.marker_source(parse_content@.id)) {
                Ok(re) => agrees(r, outcome(parse_content@, regex_captures(re, content@))),
                Err(message) => r matches Err(ReplacerError::Regex(e)) && regex_error_message(e)
                    == message,
            },
    {
        let source = self.marker_source(parse_content.metadata.id.as_str());
        let re = match compile(source.as_str()) {
            Ok(re) => re,
            Err(e) => {
                return Err(ReplacerError::Regex(e));
            },
        };
        status_for(parse_content, captures(&re, content))
    }

    /// What is done for `parse_content` in a document that holds `content`:
    /// as `find_and_replace`, with a failure as the status `Error`.
    pub fn status(&self, content: &str, parse_content: &ContentResults) -> (status: ReplaceStatus)
        ensures
            status@ == self@.status_of(content@, parse_content@),
    {
        match self.find_and_replace(content, parse_content) {
            Ok(status) => status,
            Err(e) => ReplaceStatus::Error(parse_content.metadata.id.clone(), e.message()),
        }
    }

    /// Deals with `parse_contents` in their order, each in the document as
    /// the ones before it left it. Returns the document as it is in the end,
    /// and what was done for each.
    pub fn replace(&self, path: &PathBuf, text: &str, parse_contents: &Vec<ContentResults>) -> (r: (
        String,
        Vec<ReplaceResult>,
    ))
        ensures
            r.0@ == self@.text_after(text@, parse_contents.deep_view()),
            status_views(r.1@) == self@.statuses(text@, parse_contents.deep_view()),
            forall|i: int| 0 <= i < r.1@.len() ==> (#[trigger] r.1@[i]).path == *path,
    {
        let mut content = text.to_owned();
        let mut results: Vec<ReplaceResult> = Vec::new();
        let ghost items = parse_contents.deep_view();
        let mut i: usize = 0;
        assert(items.take(0) =~= Seq::<ResultView>::empty());
        while i < parse_contents.len()
            invariant
                i <= parse_contents@.len(),
                items == parse_contents.deep_view(),
                content@ == self@.text_after(text@, items.take(i as int)),
                results@.len() == i,
                forall|k: int|
                    0 <= k < i ==> (#[trigger] results@[k]).status@ == self@.statuses(
                        text@,
                        items,
                    )[k],
                forall|k: int| 0 <= k < i ==> (#[trigger] results@[k]).path == *path,
            decreases parse_contents@.len() - i,
        {
            let status = self.status(content.as_str(), &parse_contents[i]);
            proof {
                let upto = items.take(i + 1);
                assert(upto.drop_last() =~= items.take(i as int));
                assert(upto.last() == parse_contents@[i as int]@);
            }
            if let ReplaceStatus::Replaced(_, all_content, _) = &status {
                content = all_content.clone();
            }
            results.push(ReplaceResult { path: path.clone(), status });
            i += 1;
        }
        assert(items.take(i as int) =~= items);
        assert(status_views(results@) =~= self@.statuses(text@, items));
        (content, results)
    }

    /// As `replace`, and says whether the document is to be written: the
    /// first part of the result is the new text of the document where
    /// something was replaced, and `None` where nothing was.
    pub fn replace_with_save(
        &self,
        path: &PathBuf,
        text: &str,
        parse_contents: &Vec<ContentResults>,
    ) -> (r: (Option<String>, Vec<ReplaceResult>))
        ensures
            status_views(r.1@) == self@.statuses(text@, parse_contents.deep_view()),
            forall|i: int| 0 <= i < r.1@.len() ==> (#[trigger] r.1@[i]).path == *path,
            r.0 is Some <==> any_replaced(status_views(r.1@)),
            r.0 matches Some(new_content) ==> new_content@ == self@.text_after(
                text@,
                parse_contents.deep_view(),
            ),
    {
        let (new_content, status) = self.replace(path, text, parse_contents);
        let mut is_changed = false;
        let mut i: usize = 0;
        while i < status.len()
            invariant
                i <= status@.len(),
                is_changed <==> any_replaced(status_views(status@).take(i as int)),
            decreases status@.len() - i,
        {
            let ghost seen = status_views(status@).take(i as int);
            let ghost more = status_views(status@).take(i + 1);
            if status[i].status.is_replaced() {
                is_changed = true;
                assert(more[i as int] is Replaced);
            } else {
                proof {
                    if any_replaced(more) {
                        let k = choose|k: int| 0 <= k < more.len() && #[trigger] more[k] is Replaced;
                        assert(seen[k] is Replaced);
                    }
                }
            }
            proof {
                if any_replaced(seen) {
                    let k = choose|k: int| 0 <= k < seen.len() && #[trigger] seen[k] is Replaced;
                    assert(more[k] is Replaced);
                }
            }
            i += 1;
        }
        assert(status_views(status@).take(i as int) =~= status_views(status@));
        if is_changed {
            (Some(new_content), status)
        } else {
            (None, status)
        }
    }

    /// What `replace_content` would do for `parse_contents` in each of
    /// `documents`, without the new texts.
    #[must_use]
    pub fn stats(&self, documents: &Vec<Document>, parse_contents: &Vec<ContentResults>) -> (r: Vec<
        ReplaceResult,
    >)
        ensures
            status_views(r@) == self@.statuses_in(
                documents.deep_view(),
                parse_contents.deep_view(),
            ),
            result_paths(r@) == paths_in(documents.deep_view(), parse_contents@.len() as nat),
    {
        let mut results: Vec<ReplaceResult> = Vec::new();
        let ghost all = documents.deep_view();
        let ghost items = parse_contents.deep_view();
        let ghost n = parse_contents@.len() as nat;
        let mut i: usize = 0;
        assert(all.take(0) =~= Seq::<DocumentView>::empty());
        assert(status_views(results@) =~= Seq::<StatusView>::empty());
        assert(result_paths(results@) =~= Seq::<PathBuf>::empty());
        while i < documents.len()
            invariant
                i <= documents@.len(),
                all == documents.deep_view(),
                items == parse_contents.deep_view(),
                n == parse_contents@.len(),
                status_views(results@) == self@.statuses_in(all.take(i as int), items),
                result_paths(results@) == paths_in(all.take(i as int), n),
            decreases documents@.len() - i,
        {
            let document = &documents[i];
            let ghost before = results@;
            let (_, mut status) = self.replace(&document.path, document.text.as_str(), parse_contents);
            let ghost added = status@;
            results.append(&mut status);
            proof {
                let upto = all.take(i + 1);
                assert(upto.drop_last() =~= all.take(i as int));
                assert(upto.last() == document@);
                assert(results@ == before + added);
                assert(status_views(results@) =~= status_views(before) + status_views(added));
                assert(result_paths(results@) =~= result_paths(before) + Seq::new(
                    n,
                    |k: int| document.path,
                ));
            }
            i += 1;
        }
        assert(all.take(i as int) =~= all);
        results
    }

    /// Deals with `parse_contents` in each of `documents`, each document on
    /// its own. Returns the documents in which something was replaced, each
    /// with its new text, and what was done for each identifier in each
    /// document. The documents in the first part of the result are those to
    /// write; a document in which nothing was replaced is not among them.
    #[must_use]
    pub fn replace_content(
        &self,
        documents: &Vec<Document>,
        parse_contents: &Vec<ContentResults>,
    ) -> (r: (Vec<Document>, Vec<ReplaceResult>))
        ensures
            r.0.deep_view() == self@.changed(documents.deep_view(), parse_contents.deep_view()),
            status_views(r.1@) == self@.statuses_in(
                documents.deep_view(),
                parse_contents.deep_view(),
            ),
            result_paths(r.1@) == paths_in(documents.deep_view(), parse_contents@.len() as nat),
    {
        let mut changed: Vec<Document> = Vec::new();
        let mut results: Vec<ReplaceResult> = Vec::new();
        let ghost all = documents.deep_view();
        let ghost items = parse_contents.deep_view();
        let ghost n = parse_contents@.len() as nat;
        let mut i: usize = 0;
        assert(all.take(0) =~= Seq::<DocumentView>::empty());
        assert(status_views(results@) =~= Seq::<StatusView>::empty());
        assert(result_paths(results@) =~= Seq::<PathBuf>::empty());
        assert(changed.deep_view() =~= Seq::<DocumentView>::empty());
        while i < documents.len()
            invariant
                i <= documents@.len(),
                all == documents.deep_view(),
                items == parse_contents.deep_view(),
                n == parse_contents@.len(),
                changed.deep_view() == self@.changed(all.take(i as int), items),
                status_views(results@) == self@.statuses_in(all.take(i as int), items),
                result_paths(results@) == paths_in(all.take(i as int), n),
            decreases documents@.len() - i,
        {
            let document = &documents[i];
            let ghost before = results@;
            let ghost changed_before = changed.deep_view();
            let (new_content, mut status) = self.replace_with_save(
                &document.path,
                document.text.as_str(),
                parse_contents,
            );
            let ghost added = status@;
            results.append(&mut status);
            if let Some(text) = new_content {
                let rewritten = Document { path: document.path.clone(), text };
                changed.push(rewritten);
                assert(changed.deep_view() =~= changed_before.push(rewritten@));
            }
            proof {
                let upto = all.take(i + 1);
                assert(upto.drop_last() =~= all.take(i as int));
                assert(upto.last() == document@);
                assert(results@ == before + added);
                assert(status_views(results@) =~= status_views(before) + status_views(added));
                assert(result_paths(results@) =~= result_paths(before) + Seq::new(
                    n,
                    |k: int| document.path,
                ));
            }
            i += 1;
        }
        assert(all.take(i as int) =~= all);
        (changed, results)
    }
}

} // verus!

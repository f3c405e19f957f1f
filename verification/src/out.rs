//! Where the extracted content goes, and in which form.

use crate::parser::{ContentResults, ResultView};
use std::path::PathBuf;
use vstd::prelude::*;

verus! {

/// The name of the file that holds the exported content where the given path
/// names a directory.
pub const DEFAULT_FILE_NAME: &'static str = "rdocs";

/// What is exported.
pub enum Content {
    /// The content of each block alone.
    Only(Output),
    /// Every block with its identifier, in the given format.
    All(Output, Format),
}

/// Where the export goes.
pub enum Output {
    /// To a file under the given path.
    Path(PathBuf),
    /// To the standard output.
    Stdout,
}

/// The format of an export of every block.
#[derive(Clone, Copy, Debug, PartialEq, Eq)]
pub enum Format {
    Json,
    Yaml,
}

impl Format {
    /// The extension of a file in this format.
    pub open spec fn extension(self) -> Seq<char> {
        match self {
            Format::Json => "json"@,
            Format::Yaml => "yaml"@,
        }
    }

    /// The extension of a file in this format.
    #[must_use]
    pub fn get_extension(&self) -> (r: &'static str)
        ensures
            r@ == self.extension(),
    {
        match self {
            Self::Json => "json",
            Self::Yaml => "yaml",
        }
    }
}

/// One thing to do for an export.
#[derive(Debug)]
pub enum ExportStep {
    /// Print the text, and a line feed after it, to the standard output.
    Print(String),
    /// Write the text to the file `name` under the directory `dir`.
    WriteIn { dir: PathBuf, name: String, text: String },
    /// Print every result, in the format, to the standard output.
    PrintAll(Format),
    /// Write every result, in the format, to a file: to `path` itself where
    /// it has an extension, else to the file `name` with `extension` under
    /// the directory `path`.
    WriteAll { path: PathBuf, name: String, extension: String, format: Format },
}

pub enum ExportStepView {
    Print(Seq<char>),
    WriteIn { dir: PathBuf, name: Seq<char>, text: Seq<char> },
    PrintAll(Format),
    WriteAll { path: PathBuf, name: Seq<char>, extension: Seq<char>, format: Format },
}

impl DeepView for ExportStep {
    type V = ExportStepView;

    open spec fn deep_view(&self) -> ExportStepView {
        match self {
            ExportStep::Print(text) => ExportStepView::Print(text@),
            ExportStep::WriteIn { dir, name, text } => ExportStepView::WriteIn {
                dir: *dir,
                name: name@,
                text: text@,
            },
            ExportStep::PrintAll(format) => ExportStepView::PrintAll(*format),
            ExportStep::WriteAll { path, name, extension, format } => ExportStepView::WriteAll {
                path: *path,
                name: name@,
                extension: extension@,
                format: *format,
            },
        }
    }
}

impl Output {
    /// What exports the content of one block to this output: the content is
    /// printed, or written to the file that is named by the identifier.
    pub open spec fn step_for(self, result: ResultView) -> ExportStepView {
        match self {
            Output::Path(dir) => ExportStepView::WriteIn {
                dir,
                name: result.id,
                text: result.data,
            },
            Output::Stdout => ExportStepView::Print(result.data),
        }
    }

    /// What exports every block to this output in `format`.
    pub open spec fn step_for_all(self, format: Format) -> ExportStepView {
        match self {
            Output::Path(path) => ExportStepView::WriteAll {
                path,
                name: DEFAULT_FILE_NAME@,
                extension: format.extension(),
                format,
            },
            Output::Stdout => ExportStepView::PrintAll(format),
        }
    }
}

impl Content {
    /// The steps of this export for `results`: one for each result, in their
    /// order, where the content alone is exported, and one for all of them
    /// where they are exported in a format.
    pub open spec fn steps(self, results: Seq<ResultView>) -> Seq<ExportStepView> {
        match self {
            Content::Only(output) => Seq::new(results.len(), |i: int| output.step_for(results[i])),
            Content::All(output, format) => seq![output.step_for_all(format)],
        }
    }

    /// What is to be done to export `results`. Nothing is printed or written
    /// here: the steps say what is, and in which order.
    pub fn export(&self, results: &Vec<ContentResults>) -> (steps: Vec<ExportStep>)
        ensures
            steps.deep_view() == self.steps(results.deep_view()),
    {
        let mut steps: Vec<ExportStep> = Vec::new();
        match self {
            Self::Only(output) => {
                let mut i: usize = 0;
                while i < results.len()
                    invariant
                        i <= results@.len(),
                        steps@.len() == i,
                        forall|k: int|
                            0 <= k < i ==> (#[trigger] steps@[k]).deep_view() == output.step_for(
                                results@[k]@,
                            ),
                    decreases results@.len() - i,
                {
                    let result = &results[i];
                    let step = match output {
                        Output::Path(path) => ExportStep::WriteIn {
                            dir: path.clone(),
                            name: result.metadata.id.clone(),
                            text: result.data.clone(),
                        },
                        Output::Stdout => ExportStep::Print(result.data.clone()),
                    };
                    steps.push(step);
                    i += 1;
                }
                assert(steps.deep_view() =~= self.steps(results.deep_view()));
            },
            Self::All(output, format) => {
                let step = match output {
                    Output::Path(path) => ExportStep::WriteAll {
                        path: path.clone(),
                        name: DEFAULT_FILE_NAME.to_owned(),
                        extension: format.get_extension().to_owned(),
                        format: *format,
                    },
                    Output::Stdout => ExportStep::PrintAll(*format),
                };
                steps.push(step);
                assert(steps.deep_view() =~= self.steps(results.deep_view()));
            },
        }
        steps
    }
}

impl Output {
    /// The output for an optional path: the file where a path is given, the
    /// standard output where none is.
    #[must_use]
    pub fn new(path: Option<PathBuf>) -> (r: Self)
        ensures
            r == match path {
                Some(p) => Output::Path(p),
                None => Output::Stdout,
            },
    {
        match path {
            Some(p) => Self::Path(p),
            None => Self::Stdout,
        }
    }
}

} // verus!

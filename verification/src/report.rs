//! Findings, the report they are collected in, and the lookup of line numbers.

use vstd::prelude::*;
use crate::ast::Span;
use crate::text::text_is;

verus! {

/// How serious a finding is, from least to most.
#[derive(Clone, Copy, Debug, PartialEq, Eq, Structural, PartialOrd, Ord, Hash)]
pub enum Severity {
    Low,
    Medium,
    High,
    Critical,
}

impl Severity {
    /// The place of a severity in the order `Low < Medium < High < Critical`.
    pub open spec fn rank_spec(self) -> nat {
        match self {
            Severity::Low => 0,
            Severity::Medium => 1,
            Severity::High => 2,
            Severity::Critical => 3,
        }
    }

    /// The place of a severity in the order, `Low` being 0.
    pub fn rank(self) -> (r: u8)
        ensures
            r == self.rank_spec(),
    {
        match self {
            Severity::Low => 0,
            Severity::Medium => 1,
            Severity::High => 2,
            Severity::Critical => 3,
        }
    }
}

/// One reported issue.
#[derive(Clone, Debug, PartialEq, Eq)]
pub struct Finding {
    pub path: String,
    /// The line the finding points at, counted from 1.
    pub line: usize,
    pub severity: Severity,
    pub message: String,
}

/// What a finding says, with its texts as sequences of characters.
pub struct FindingView {
    pub path: Seq<char>,
    pub line: nat,
    pub severity: Severity,
    pub message: Seq<char>,
}

impl View for Finding {
    type V = FindingView;

    open spec fn view(&self) -> FindingView {
        FindingView {
            path: self.path@,
            line: self.line as nat,
            severity: self.severity,
            message: self.message@,
        }
    }
}

/// The findings of one analysis, in the order in which they were made.
/// Findings are only ever added.
#[derive(Debug)]
pub struct Report {
    pub entries: Vec<Finding>,
}

impl View for Report {
    type V = Seq<FindingView>;

    open spec fn view(&self) -> Seq<FindingView> {
        self.entries@.map_values(|f: Finding| f@)
    }
}

impl Report {
    /// A report without findings.
    pub fn new() -> (report: Self)
        ensures
            report@ == Seq::<FindingView>::empty(),
    {
        let report = Report { entries: Vec::new() };
        assert(report@ =~= Seq::<FindingView>::empty());
        report
    }

    /// Adds one finding after those already there.
    pub fn add_entry(&mut self, path: &str, line: usize, severity: Severity, message: String)
        ensures
            final(self)@ == old(self)@.push(
                FindingView { path: path@, line: line as nat, severity, message: message@ },
            ),
    {
        let finding = Finding { path: String::from_str(path), line, severity, message };
        self.entries.push(finding);
        assert(self@ =~= old(self)@.push(finding@));
    }
}

/// Why an analysis stopped.
#[derive(Clone, Debug, PartialEq, Eq)]
pub enum Error {
    /// No source is known for the file.
    FileNotFound { path: String },
    /// The span does not lie within the file.
    LineNotFound { path: String, offset: usize },
}

/// Why an analysis stopped, with its texts as sequences of characters.
pub enum ErrorView {
    FileNotFound { path: Seq<char> },
    LineNotFound { path: Seq<char>, offset: nat },
}

impl View for Error {
    type V = ErrorView;

    open spec fn view(&self) -> ErrorView {
        match self {
            Error::FileNotFound { path } => ErrorView::FileNotFound { path: path@ },
            Error::LineNotFound { path, offset } => ErrorView::LineNotFound {
                path: path@,
                offset: *offset as nat,
            },
        }
    }
}

/// A file and its source text as bytes.
#[derive(Debug)]
pub struct SourceFile {
    pub path: String,
    pub source: Vec<u8>,
}

/// How many line breaks stand among the first `offset` bytes.
pub open spec fn newlines_before(source: Seq<u8>, offset: int) -> nat
    decreases offset,
{
    if offset <= 0 {
        0
    } else {
        newlines_before(source, offset - 1) + if source[offset - 1] == 10u8 {
            1nat
        } else {
            0nat
        }
    }
}

/// Whether `span` lies within a source of `len` bytes.
pub open spec fn span_within(span: Span, len: nat) -> bool {
    span.start <= span.end && span.end <= len && span.start < usize::MAX
}

proof fn lemma_newlines_bounded(source: Seq<u8>, offset: int)
    requires
        0 <= offset,
    ensures
        newlines_before(source, offset) <= offset,
    decreases offset,
{
    if offset > 0 {
        lemma_newlines_bounded(source, offset - 1);
    }
}

/// The sources of the files under analysis and the report being written.
#[derive(Debug)]
pub struct Project {
    pub files: Vec<SourceFile>,
    pub report: Report,
}

/// The place of the first file known under `path` at or after `from`, or the
/// number of files if there is none.
pub open spec fn file_index(files: Seq<SourceFile>, path: Seq<char>, from: int) -> int
    decreases files.len() - from,
{
    if from < 0 || from >= files.len() {
        from
    } else if files[from].path@ == path {
        from
    } else {
        file_index(files, path, from + 1)
    }
}

/// The line on which `span` begins in the file `path`, counted from 1: one
/// more than the line breaks before it.  There is none where no source is
/// known for the file, or where the span does not lie in the source.
pub open spec fn resolve_line(files: Seq<SourceFile>, path: Seq<char>, span: Span) -> Result<
    nat,
    ErrorView,
> {
    let i = file_index(files, path, 0);
    if i >= files.len() {
        Err(ErrorView::FileNotFound { path })
    } else if !span_within(span, files[i].source@.len()) {
        Err(ErrorView::LineNotFound { path, offset: span.start as nat })
    } else {
        Ok(newlines_before(files[i].source@, span.start as int) + 1)
    }
}

impl Project {
    /// A project with the given sources and an empty report.
    pub fn new(files: Vec<SourceFile>) -> (project: Self)
        ensures
            project.files == files,
            project.report@ == Seq::<FindingView>::empty(),
    {
        Project { files, report: Report::new() }
    }

    /// Resolves a span of the file `path` to the line it begins on.  Fails if
    /// no source is known for the file, or if the span does not lie in it.
    pub fn span_to_line(&self, path: &str, span: &Span) -> (result: Result<usize, Error>)
        ensures
            match result {
                Ok(line) => resolve_line(self.files@, path@, *span) == Ok::<nat, ErrorView>(
                    line as nat,
                ),
                Err(error) => resolve_line(self.files@, path@, *span) == Err::<nat, ErrorView>(
                    error@,
                ),
            },
    {
        let n: usize = self.files.len();
        let mut i: usize = 0;
        while i < n && !text_is(&self.files[i].path, path)
            invariant
                n == self.files@.len(),
                i <= n,
                file_index(self.files@, path@, 0) == file_index(self.files@, path@, i as int),
            decreases n - i,
        {
            i += 1;
        }
        if i >= n {
            return Err(Error::FileNotFound { path: String::from_str(path) });
        }
        let source = &self.files[i].source;
        if !(span.start <= span.end && span.end <= source.len() && span.start < usize::MAX) {
            return Err(Error::LineNotFound { path: String::from_str(path), offset: span.start });
        }
        let mut line: usize = 1;
        let mut k: usize = 0;
        while k < span.start
            invariant
                k <= span.start,
                span.start <= source@.len(),
                span.start < usize::MAX,
                line == newlines_before(source@, k as int) + 1,
            decreases span.start - k,
        {
            proof {
                lemma_newlines_bounded(source@, k as int);
            }
            if source[k] == 10u8 {
                line += 1;
            }
            k += 1;
        }
        Ok(line)
    }
}

} // verus!

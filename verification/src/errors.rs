//! The error taxonomy of the orchestrator.
//!
//! Every failure is a value of [`Error`]: configuration-shape errors from
//! the two document parsers, cardinality errors caught at orchestration
//! time, build and test failures, wrapped I/O errors, and an aggregate that
//! combines a pending failure with a cleanup failure so that neither is
//! lost. Rendering an error for the console is presentation and is left to
//! the caller.

use vstd::prelude::*;

verus! {

/// The abstract value of an [`Error`].
pub ghost enum ErrorView {
    /// The document text itself was not well-formed; carries the grammar's
    /// own message.
    Document(Seq<char>),
    /// The registry document has no top-level `days` node.
    MissingDaysNode,
    /// The `days` node has no block of children.
    DaysWithoutChildren,
    /// A day entry has no `root` property.
    DayMissingRoot,
    /// A day entry's `root` property is not a string.
    DayRootNotString,
    /// A day entry has no positional value for the day number.
    DayMissingNumber,
    /// A day entry's positional value is not an integer.
    DayNumberNotInteger,
    /// A day number does not fit an unsigned 8-bit integer.
    DayNumberOutOfRange(int),
    /// A `run` node has no entries at all.
    RunMissingParameters,
    /// An entry of a `run` node is not a string.
    RunArgumentNotString,
    /// A `delete` node has no entries.
    DeleteMissingParameters,
    /// A `delete` node has more than one entry.
    DeleteExtraParameters,
    /// The entry of a `delete` node is not a string.
    DeletePathNotString,
    /// A `test` block holds more than one `run` node.
    MultipleTestRuns,
    /// A top-level node of a run document is not `build`, `clean` or `test`.
    UnknownTopLevelNode(Seq<char>),
    /// A child of a `build` block is not `run`.
    UnknownBuildChild(Seq<char>),
    /// A child of a `clean` block is not `delete`.
    UnknownCleanChild(Seq<char>),
    /// A child of a `test` block is not `run`.
    UnknownTestChild(Seq<char>),
    /// A run document names more than one cleanup path in all.
    MultipleCleanPaths,
    /// A build step exited with a non-zero status; carries the step's index
    /// and its captured output.
    BuildStepFailed { step: int, output: Seq<char> },
    /// The program under test produced the wrong output for a case.
    TestCaseFailed { name: Seq<char> },
    /// The program under test exited with a non-zero status; carries its
    /// captured standard error.
    TestProcessFailed { stderr: Seq<char> },
    /// An operating-system error, rendered as a string by the caller.
    Io(Seq<char>),
    /// A pending failure together with a cleanup failure that followed it.
    WithCleanup { primary: Box<ErrorView>, cleanup: Box<ErrorView> },
}

/// A failure of configuration parsing, of a build, of a test run, or of
/// cleanup.
#[derive(Debug, PartialEq)]
pub enum Error {
    Document(String),
    MissingDaysNode,
    DaysWithoutChildren,
    DayMissingRoot,
    DayRootNotString,
    DayMissingNumber,
    DayNumberNotInteger,
    DayNumberOutOfRange(i128),
    RunMissingParameters,
    RunArgumentNotString,
    DeleteMissingParameters,
    DeleteExtraParameters,
    DeletePathNotString,
    MultipleTestRuns,
    UnknownTopLevelNode(String),
    UnknownBuildChild(String),
    UnknownCleanChild(String),
    UnknownTestChild(String),
    MultipleCleanPaths,
    BuildStepFailed { step: usize, output: String },
    TestCaseFailed { name: String },
    TestProcessFailed { stderr: String },
    Io(String),
    WithCleanup { primary: Box<Error>, cleanup: Box<Error> },
}

/// The abstract value of an error, written as a standalone recursive
/// function so that the aggregate variant can recurse structurally.
pub open spec fn error_view(e: Error) -> ErrorView
    decreases e,
{
    match e {
        Error::Document(m) => ErrorView::Document(m@),
        Error::MissingDaysNode => ErrorView::MissingDaysNode,
        Error::DaysWithoutChildren => ErrorView::DaysWithoutChildren,
        Error::DayMissingRoot => ErrorView::DayMissingRoot,
        Error::DayRootNotString => ErrorView::DayRootNotString,
        Error::DayMissingNumber => ErrorView::DayMissingNumber,
        Error::DayNumberNotInteger => ErrorView::DayNumberNotInteger,
        Error::DayNumberOutOfRange(v) => ErrorView::DayNumberOutOfRange(v as int),
        Error::RunMissingParameters => ErrorView::RunMissingParameters,
        Error::RunArgumentNotString => ErrorView::RunArgumentNotString,
        Error::DeleteMissingParameters => ErrorView::DeleteMissingParameters,
        Error::DeleteExtraParameters => ErrorView::DeleteExtraParameters,
        Error::DeletePathNotString => ErrorView::DeletePathNotString,
        Error::MultipleTestRuns => ErrorView::MultipleTestRuns,
        Error::UnknownTopLevelNode(n) => ErrorView::UnknownTopLevelNode(n@),
        Error::UnknownBuildChild(n) => ErrorView::UnknownBuildChild(n@),
        Error::UnknownCleanChild(n) => ErrorView::UnknownCleanChild(n@),
        Error::UnknownTestChild(n) => ErrorView::UnknownTestChild(n@),
        Error::MultipleCleanPaths => ErrorView::MultipleCleanPaths,
        Error::BuildStepFailed { step, output } => ErrorView::BuildStepFailed {
            step: step as int,
            output: output@,
        },
        Error::TestCaseFailed { name } => ErrorView::TestCaseFailed { name: name@ },
        Error::TestProcessFailed { stderr } => ErrorView::TestProcessFailed { stderr: stderr@ },
        Error::Io(m) => ErrorView::Io(m@),
        Error::WithCleanup { primary, cleanup } => ErrorView::WithCleanup {
            primary: Box::new(error_view(*primary)),
            cleanup: Box::new(error_view(*cleanup)),
        },
    }
}

impl View for Error {
    type V = ErrorView;

    open spec fn view(&self) -> ErrorView {
        error_view(*self)
    }
}

} // verus!

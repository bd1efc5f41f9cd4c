//! What can go wrong.

use vstd::prelude::*;

verus! {

/// Why the processing of a tree ends early.
pub enum ProcessError {
    /// The folder above the application's folder has no name to give the project.
    NoProjectName,
    /// The application's folder has no name to give the application.
    NoAppName,
    /// Templates are rendered with the entries of an object, and this is none.
    InvalidContext,
    /// A template could not be rendered, for the reason given.
    Render(String),
    /// A value could not be written as YAML, for the reason given.
    Yaml(String),
    /// The script of an application folder did not succeed.
    ScriptFailed,
}

/// What a `ProcessError` says.
#[verifier::ext_equal]
pub enum ErrorView {
    NoProjectName,
    NoAppName,
    InvalidContext,
    Render(Seq<char>),
    Yaml(Seq<char>),
    ScriptFailed,
}

impl View for ProcessError {
    type V = ErrorView;

    open spec fn view(&self) -> ErrorView {
        match *self {
            ProcessError::NoProjectName => ErrorView::NoProjectName,
            ProcessError::NoAppName => ErrorView::NoAppName,
            ProcessError::InvalidContext => ErrorView::InvalidContext,
            ProcessError::Render(message) => ErrorView::Render(message@),
            ProcessError::Yaml(message) => ErrorView::Yaml(message@),
            ProcessError::ScriptFailed => ErrorView::ScriptFailed,
        }
    }
}

/// Why a template filter refuses a value.
pub enum FilterError {
    /// The value could not be written as YAML, for the reason given.
    Yaml(String),
    /// The filter takes a string, and this is none.
    NotAString,
    /// The argument `spaces` is missing.
    MissingSpaces,
    /// The argument `spaces` is not a number of spaces.
    InvalidSpaces,
    /// No string is long enough to hold that many spaces.
    TooManySpaces,
}

} // verus!

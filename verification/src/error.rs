//! The errors of the library.

use vstd::prelude::*;

verus! {

/// What can go wrong. Errors of the outside world are kept as their text.
#[derive(Debug)]
pub enum CarterError {
    ModelNotFound(String),
    Config(String),
    Provider(String),
    Io(String),
    TomlParse(String),
    Other(String),
}

/// What an error holds.
pub enum ErrorView {
    ModelNotFound(Seq<char>),
    Config(Seq<char>),
    Provider(Seq<char>),
    Io(Seq<char>),
    TomlParse(Seq<char>),
    Other(Seq<char>),
}

impl View for CarterError {
    type V = ErrorView;

    open spec fn view(&self) -> ErrorView {
        match *self {
            CarterError::ModelNotFound(s) => ErrorView::ModelNotFound(s@),
            CarterError::Config(s) => ErrorView::Config(s@),
            CarterError::Provider(s) => ErrorView::Provider(s@),
            CarterError::Io(s) => ErrorView::Io(s@),
            CarterError::TomlParse(s) => ErrorView::TomlParse(s@),
            CarterError::Other(s) => ErrorView::Other(s@),
        }
    }
}

/// The text that an error shows.
pub open spec fn error_text(e: ErrorView) -> Seq<char> {
    match e {
        ErrorView::ModelNotFound(s) => "model not found: "@ + s,
        ErrorView::Config(s) => "config error: "@ + s,
        ErrorView::Provider(s) => "provider error: "@ + s,
        ErrorView::Io(s) => "io error: "@ + s,
        ErrorView::TomlParse(s) => "toml parse error: "@ + s,
        ErrorView::Other(s) => s,
    }
}

impl CarterError {
    /// The text that the error shows.
    pub fn message(&self) -> (r: String)
        ensures
            r@ == error_text(self@),
    {
        match self {
            CarterError::ModelNotFound(s) => "model not found: ".to_owned().concat(s.as_str()),
            CarterError::Config(s) => "config error: ".to_owned().concat(s.as_str()),
            CarterError::Provider(s) => "provider error: ".to_owned().concat(s.as_str()),
            CarterError::Io(s) => "io error: ".to_owned().concat(s.as_str()),
            CarterError::TomlParse(s) => "toml parse error: ".to_owned().concat(s.as_str()),
            CarterError::Other(s) => s.clone(),
        }
    }
}

/// Each error says what kind it is and then what happened; one of no kind says only that.
pub proof fn law_errors_told(s: Seq<char>)
    ensures
        error_text(ErrorView::ModelNotFound(s)) == "model not found: "@ + s,
        error_text(ErrorView::Config(s)) == "config error: "@ + s,
        error_text(ErrorView::Provider(s)) == "provider error: "@ + s,
        error_text(ErrorView::Io(s)) == "io error: "@ + s,
        error_text(ErrorView::TomlParse(s)) == "toml parse error: "@ + s,
        error_text(ErrorView::Other(s)) == s,
{
}

} // verus!

//! What can go wrong while a program is loaded or run.
use vstd::prelude::*;
use vstd::std_specs::convert::FromSpecImpl;

verus! {

/// The error of a failed read or write, as `std::io` reports it. Nothing is
/// known of what it holds.
#[verifier::external_type_specification]
#[verifier::external_body]
pub struct ExIoError(std::io::Error);

/// A failure of the interpreter.
#[derive(Debug)]
pub enum InterpreterError {
    /// A statement could not be carried out; `line_number` is its line.
    RuntimeError { line_number: u16, message: String },
    /// A variable was read before any value was stored in it.
    UnknownVariable { name: String },
    /// A token that had to be a number is none.
    NotANumber { value: String },
    /// A source line that is no statement; `code` is the line as given.
    SyntaxError { code: String },
    /// Input or output failed underneath the interpreter.
    IoError(std::io::Error),
}

/// An `InterpreterError` with its texts as sequences of characters.
pub enum ErrorView {
    RuntimeError { line_number: u16, message: Seq<char> },
    UnknownVariable { name: Seq<char> },
    NotANumber { value: Seq<char> },
    SyntaxError { code: Seq<char> },
    IoError,
}

impl View for InterpreterError {
    type V = ErrorView;

    open spec fn view(&self) -> ErrorView {
        match self {
            InterpreterError::RuntimeError { line_number, message } => ErrorView::RuntimeError {
                line_number: *line_number,
                message: message@,
            },
            InterpreterError::UnknownVariable { name } => ErrorView::UnknownVariable {
                name: name@,
            },
            InterpreterError::NotANumber { value } => ErrorView::NotANumber { value: value@ },
            InterpreterError::SyntaxError { code } => ErrorView::SyntaxError { code: code@ },
            InterpreterError::IoError(_) => ErrorView::IoError,
        }
    }
}

/// What `{:?}` writes for a string: the text between double quotes, with
/// the characters that need it escaped.
pub uninterp spec fn debug_quoted(text: Seq<char>) -> Seq<char>;

/// `format!` with `{:?}` on a `str` writes the quoted, escaped form of the
/// text, which depends on the text alone.
#[verifier::external_body]
pub(crate) fn quote(text: &str) -> (out: String)
    ensures
        out@ == debug_quoted(text@),
{
    format!("{:?}", text)
}

impl From<std::io::Error> for InterpreterError {
    fn from(source: std::io::Error) -> (e: InterpreterError) {
        InterpreterError::IoError(source)
    }
}

impl FromSpecImpl<std::io::Error> for InterpreterError {
    open spec fn obeys_from_spec() -> bool {
        true
    }

    open spec fn from_spec(source: std::io::Error) -> InterpreterError {
        InterpreterError::IoError(source)
    }
}

} // verus!

//! The errors of a run.

use crate::parser::failure::{ParseFailure, FailureModel};
use crate::text::{decimal_text, push_digits};
use vstd::prelude::*;
use vstd::string::StringExecFns;

verus! {

/// The error type of the template engine, which the library carries and
/// never looks into.
#[verifier::external_type_specification]
#[verifier::external_body]
pub struct ExTemplateError(minijinja::Error);

/// What ends a run. Every error aborts the rest of the script.
#[derive(Debug)]
pub enum SeeedError {
    /// The script is no text of the language.
    Parse(ParseFailure),
    /// A local file could not be read.
    IoError(String),
    /// The transport to the remote host failed.
    SshError(String),
    /// A local command ended with a status other than zero.
    LocalProcess(String),
    /// There is no target, the target address is malformed, or no identity
    /// was accepted.
    BadTarget,
    /// A call names no built-in function.
    UnknownFunction(),
    /// A built-in function was called with the wrong number of arguments:
    /// the number expected, then the number given.
    WrongArgCount(usize, usize),
    /// An argument of a built-in function is of the wrong kind.
    BadArgType(String),
    /// A variable was read that was never assigned.
    UndefinedVar(String),
    /// A loop runs over a value that is no array.
    NotIterable,
    /// The template engine refused a text.
    Template(minijinja::Error),
}

/// The mathematical model of a [`SeeedError`]. What the template engine
/// reports is not part of it.
pub enum ErrorView {
    Parse(FailureModel),
    IoError(Seq<char>),
    SshError(Seq<char>),
    LocalProcess(Seq<char>),
    BadTarget,
    UnknownFunction,
    WrongArgCount(int, int),
    BadArgType(Seq<char>),
    UndefinedVar(Seq<char>),
    NotIterable,
    Template,
}

impl View for SeeedError {
    type V = ErrorView;

    open spec fn view(&self) -> ErrorView {
        match self {
            SeeedError::Parse(failure) => ErrorView::Parse(failure@),
            SeeedError::IoError(text) => ErrorView::IoError(text@),
            SeeedError::SshError(text) => ErrorView::SshError(text@),
            SeeedError::LocalProcess(text) => ErrorView::LocalProcess(text@),
            SeeedError::BadTarget => ErrorView::BadTarget,
            SeeedError::UnknownFunction() => ErrorView::UnknownFunction,
            SeeedError::WrongArgCount(expected, given) => ErrorView::WrongArgCount(
                *expected as int,
                *given as int,
            ),
            SeeedError::BadArgType(text) => ErrorView::BadArgType(text@),
            SeeedError::UndefinedVar(name) => ErrorView::UndefinedVar(name@),
            SeeedError::NotIterable => ErrorView::NotIterable,
            SeeedError::Template(_) => ErrorView::Template,
        }
    }
}

/// The message that stands for each error. The message of a parse
/// failure names the line and the column; that of a wrong number of
/// arguments names both numbers; that of an undefined variable names the
/// variable.
pub open spec fn message_of(error: ErrorView) -> Seq<char> {
    match error {
        ErrorView::Parse(failure) => "parse error at line "@ + decimal_text(failure.line)
            + ", column "@ + decimal_text(failure.column) + ": "@ + failure.message,
        ErrorView::IoError(_) => "IO error while reading file"@,
        ErrorView::SshError(_) => "SSH error"@,
        ErrorView::LocalProcess(_) => "local command failed"@,
        ErrorView::BadTarget => "Incorrect target specified"@,
        ErrorView::UnknownFunction => "unknown function invocation"@,
        ErrorView::WrongArgCount(expected, given) => "wrong number of arguments, expected "@
            + decimal_text(expected) + ", got "@ + decimal_text(given),
        ErrorView::BadArgType(_) => "bad argument to function call"@,
        ErrorView::UndefinedVar(name) => "undefined variable "@ + name,
        ErrorView::NotIterable => "loop over a value that is no array"@,
        ErrorView::Template => "template error"@,
    }
}

/// Writes a count in decimal.
fn count_string(n: usize) -> (r: String)
    ensures
        r@ == decimal_text(n as int),
{
    let mut out = String::new();
    push_digits(&mut out, n as u64);
    assert(out@ =~= decimal_text(n as int));
    out
}

impl SeeedError {
    /// The message of the error, as it is shown at the end of a failed run.
    pub fn to_string(&self) -> (r: String)
        ensures
            r@ == message_of(self@),
    {
        match self {
            SeeedError::Parse(failure) => {
                let mut out: String = "parse error at line ".to_owned();
                out.append(count_string(failure.line).as_str());
                out.append(", column ");
                out.append(count_string(failure.column).as_str());
                out.append(": ");
                out.append(failure.message.as_str());
                out
            },
            SeeedError::IoError(_) => "IO error while reading file".to_owned(),
            SeeedError::SshError(_) => "SSH error".to_owned(),
            SeeedError::LocalProcess(_) => "local command failed".to_owned(),
            SeeedError::BadTarget => "Incorrect target specified".to_owned(),
            SeeedError::UnknownFunction() => "unknown function invocation".to_owned(),
            SeeedError::WrongArgCount(expected, given) => {
                let mut out: String = "wrong number of arguments, expected ".to_owned();
                out.append(count_string(*expected).as_str());
                out.append(", got ");
                out.append(count_string(*given).as_str());
                out
            },
            SeeedError::BadArgType(_) => "bad argument to function call".to_owned(),
            SeeedError::UndefinedVar(name) => {
                let mut out: String = "undefined variable ".to_owned();
                out.append(name.as_str());
                out
            },
            SeeedError::NotIterable => "loop over a value that is no array".to_owned(),
            SeeedError::Template(_) => "template error".to_owned(),
        }
    }
}

} // verus!

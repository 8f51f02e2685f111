//! The messages that the parser reports: a text and the place in the source
//! that it is about.

use vstd::prelude::*;
use crate::token::SourceRange;

verus! {

/// A message for the user about a place in the source.
#[derive(Debug, Clone, PartialEq, Eq)]
pub struct Diagnostic {
    pub message: String,
    pub range: SourceRange,
}

/// The model of a [`Diagnostic`].
pub struct DiagnosticView {
    pub message: Seq<char>,
    pub range: SourceRange,
}

impl View for Diagnostic {
    type V = DiagnosticView;

    open spec fn view(&self) -> DiagnosticView {
        DiagnosticView { message: self.message@, range: self.range }
    }
}

/// The diagnostic for a token that stands where `expected` should stand.
pub open spec fn unexpected_token_found(
    expected: Seq<char>,
    found: Seq<char>,
    range: SourceRange,
) -> DiagnosticView {
    DiagnosticView {
        message: "Unexpected token: expected "@ + expected + " but found "@ + found,
        range,
    }
}

/// The diagnostic for input that is no token of the language.
pub open spec fn unidentified_token(found: Seq<char>, range: SourceRange) -> DiagnosticView {
    DiagnosticView { message: "Unidentified token: "@ + found, range }
}

/// The text between single quotes.
pub open spec fn quoted(text: Seq<char>) -> Seq<char> {
    "'"@ + text + "'"@
}

impl Diagnostic {
    /// The diagnostic for the text `found` at `range`, where `expected` should stand.
    pub fn unexpected_token_found(expected: &str, found: &str, range: SourceRange) -> (result:
        Diagnostic)
        ensures
            result@ == unexpected_token_found(expected@, found@, range),
    {
        let mut message = String::from_str("Unexpected token: expected ");
        message.append(expected);
        message.append(" but found ");
        message.append(found);
        Diagnostic { message, range }
    }

    /// The diagnostic for the text `found` at `range`, which is no token of the language.
    pub fn unidentified_token(found: &str, range: SourceRange) -> (result: Diagnostic)
        ensures
            result@ == unidentified_token(found@, range),
    {
        let mut message = String::from_str("Unidentified token: ");
        message.append(found);
        Diagnostic { message, range }
    }

    /// The text of the diagnostic.
    pub fn get_message(&self) -> (result: &str)
        ensures
            result@ == self@.message,
    {
        self.message.as_str()
    }

    /// The place that the diagnostic is about.
    pub fn get_range(&self) -> (result: SourceRange)
        ensures
            result == self@.range,
    {
        self.range
    }
}

/// The text between single quotes.
pub fn quote(text: &str) -> (result: String)
    ensures
        result@ == quoted(text@),
{
    let mut result = String::from_str("'");
    result.append(text);
    result.append("'");
    result
}

} // verus!

//! Lexical-error diagnostics: the error taxonomy and the record handed to
//! the host alongside the token sequence.

use vstd::prelude::*;
use vstd::string::StringExecFns;

verus! {

/// The two recoverable lexical errors.  Neither interrupts a scan: the
/// scanner reports and goes on, so the token sequence is always complete.
#[derive(Clone, Copy, Debug, PartialEq, Eq, Structural)]
pub enum LexErrorKind {
    /// A character that matches no dispatch rule; it carries the
    /// offending character.
    UnknownCharacter(char),
    /// End of input reached inside a string literal, before its closing
    /// quote.
    UnterminatedString,
}

/// The mathematical value of a diagnostic: its 1-based line and its kind.
pub struct SpecDiagnostic {
    pub line: int,
    pub kind: LexErrorKind,
}

/// One lexical-error report: the 1-based line it was detected on and what
/// was found there.
#[derive(Clone, Copy, Debug, PartialEq, Eq, Structural)]
pub struct Diagnostic {
    pub line: usize,
    pub kind: LexErrorKind,
}

impl View for Diagnostic {
    type V = SpecDiagnostic;

    open spec fn view(&self) -> SpecDiagnostic {
        SpecDiagnostic { line: self.line as int, kind: self.kind }
    }
}

impl DeepView for Diagnostic {
    type V = SpecDiagnostic;

    open spec fn deep_view(&self) -> SpecDiagnostic {
        self.view()
    }
}

impl Diagnostic {
    /// A short description of the error, for the host to surface.
    pub fn message(&self) -> (r: String)
        ensures
            self.kind is UnknownCharacter ==> r@ == "Unexpected character."@,
            self.kind is UnterminatedString ==> r@ == "Unterminated string."@,
    {
        match self.kind {
            LexErrorKind::UnknownCharacter(_) => String::from_str("Unexpected character."),
            LexErrorKind::UnterminatedString => String::from_str("Unterminated string."),
        }
    }
}

} // verus!

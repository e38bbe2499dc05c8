//! Compilation failures.
//!
//! Every detected problem is fatal: the pipeline returns the first error it
//! meets and produces no output.  Lexical failures come from the lexer,
//! the rest from the parser's grammar and semantic checks.

use vstd::prelude::*;

verus! {

/// The reason a compilation was rejected.
#[derive(PartialEq, Eq, Clone, Copy, Debug, Structural)]
pub enum CompileError {
    /// A character that matches no token form.
    UnknownToken,
    /// A carriage return, newline, tab, backslash or percent sign inside a
    /// string literal.
    IllegalStringChar,
    /// A numeric literal with a trailing dot that no digit follows.
    IllegalNumberChar,
    /// The current token's category was not the one the grammar expects here.
    ExpectedToken,
    /// A statement that begins with no statement keyword.
    InvalidStatement,
    /// A `comparison` without a single comparison operator.
    MissingComparisonOperator,
    /// A `LABEL` whose name was already declared.
    DuplicateLabel,
    /// An identifier used in an expression or assignment before any `LET` or
    /// `INPUT` declared it.
    UndeclaredVariable,
    /// A `GOTO` whose label no `LABEL` in the whole program declares.
    UndeclaredLabel,
}

/// The failures that the lexer itself can report.
pub open spec fn is_lex_error(e: CompileError) -> bool {
    e == CompileError::UnknownToken || e == CompileError::IllegalStringChar
        || e == CompileError::IllegalNumberChar
}

impl CompileError {
    /// A short description, for callers that print the failure.
    pub fn describe(&self) -> (r: &'static str)
        ensures
            (match *self {
                CompileError::UnknownToken => r@ == "unknown token"@,
                CompileError::IllegalStringChar => r@ == "illegal character in string"@,
                CompileError::IllegalNumberChar => r@ == "illegal character in number"@,
                CompileError::ExpectedToken => r@ == "unexpected token"@,
                CompileError::InvalidStatement => r@ == "invalid statement"@,
                CompileError::MissingComparisonOperator => r@ == "expected comparison operator"@,
                CompileError::DuplicateLabel => r@ == "label already exists"@,
                CompileError::UndeclaredVariable => r@
                    == "referencing variable before assignment"@,
                CompileError::UndeclaredLabel => r@ == "attempting to GOTO an undeclared label"@,
            }),
    {
        match self {
            CompileError::UnknownToken => "unknown token",
            CompileError::IllegalStringChar => "illegal character in string",
            CompileError::IllegalNumberChar => "illegal character in number",
            CompileError::ExpectedToken => "unexpected token",
            CompileError::InvalidStatement => "invalid statement",
            CompileError::MissingComparisonOperator => "expected comparison operator",
            CompileError::DuplicateLabel => "label already exists",
            CompileError::UndeclaredVariable => "referencing variable before assignment",
            CompileError::UndeclaredLabel => "attempting to GOTO an undeclared label",
        }
    }
}

} // verus!

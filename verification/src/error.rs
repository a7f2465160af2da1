//! Failure reporting shared by the lexer, the parser and the evaluator.

use vstd::prelude::*;

verus! {

/// The kind of a failure.
///
/// `MalformedExpression` is a grammar violation seen by the parser,
/// `LexerError` a lexical fault propagated through the parser,
/// `ParserError` an internal shunting-yard invariant violation,
/// `EvaluatorError` a stack-machine fault (underflow, a non-value where a
/// value was needed, an undefined variable), `ArithmeticError` a division or
/// remainder by zero, and `ReassignConstant` an assignment to a name that was
/// marked constant.
#[derive(Clone, Copy, Debug, PartialEq, Eq, Structural)]
pub enum ErrorCode {
    MalformedExpression,
    LexerError,
    ParserError,
    EvaluatorError,
    ArithmeticError,
    ReassignConstant,
}

/// A failure: its kind together with a human-readable message.
#[derive(Debug)]
pub struct Error {
    pub code: ErrorCode,
    pub message: String,
}

/// The mathematical image of an [`Error`]: the kind with the message as a
/// character sequence.
pub struct ErrorModel {
    pub code: ErrorCode,
    pub message: Seq<char>,
}

impl View for Error {
    type V = ErrorModel;

    open spec fn view(&self) -> ErrorModel {
        ErrorModel { code: self.code, message: self.message@ }
    }
}

impl Error {
    /// Packs a kind and a message into an [`Error`].
    pub fn new(code: ErrorCode, message: String) -> (r: Error)
        ensures
            r@ == (ErrorModel { code, message: message@ }),
    {
        Error { code, message }
    }
}

} // verus!

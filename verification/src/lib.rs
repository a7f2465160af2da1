//! An arithmetic expression language in three verified stages.
//!
//! A [`TokenIterator`] turns a source string and a radix into a stream of
//! [`Token`]s; a [`Parser`] reorders that stream into postfix (reverse
//! Polish) form with the shunting-yard algorithm; an [`Evaluator`] executes
//! the postfix sequence against a stack machine with a persistent variable
//! environment.
//!
//! Numbers live in two forms.  The lexer emits each numeral exactly as
//! scanned, as a [`Numeral`] (sign, mantissa and decimal scale), and the
//! parser carries numerals through unchanged.  Arithmetic itself is
//! performed by the embedding program on IEEE-754 binary64 values: it
//! encodes each numeral as a 64-bit word before evaluation, and the
//! evaluator treats those words as opaque except for the test for zero.
//! Whenever an operation has to be computed, the evaluator hands the two
//! operand words out through [`EvalStep::Compute`] and is resumed with the
//! resulting word.  Every decision — scanning, precedence resolution, stack
//! discipline, the variable environment, zero-divisor and
//! constant-reassignment checks, the error taxonomy — is made and verified
//! here.

pub mod error;
pub mod evaluator;
pub mod lexer;
pub mod parser;
pub mod text;
pub mod token;

pub use error::Error;
pub use error::ErrorCode;
pub use evaluator::EvalStep;
pub use evaluator::Evaluator;
pub use lexer::TokenIterator;
pub use parser::Parser;
pub use token::Associativity;
pub use token::Numeral;
pub use token::OpCode;
pub use token::Operator;
pub use token::Scalar;
pub use token::Token;
pub use token::Tokens;

use grover::Error;
use grover::ErrorCode;
use grover::EvalStep;
use grover::Evaluator;
use grover::Numeral;
use grover::OpCode;
use grover::Parser;
use grover::Scalar;
use grover::Token;
use grover::TokenIterator;
use grover::Tokens;

/// The IEEE-754 binary64 value a scanned numeral denotes, read exactly as
/// the standard library parses the numeral's text.
fn numeral_value(n: &Numeral) -> f64 {
    let digits = n.mantissa.to_string();
    let text = if n.scale == 0 {
        digits
    } else if n.scale < digits.len() {
        format!("{}.{}", &digits[..digits.len() - n.scale], &digits[digits.len() - n.scale..])
    } else {
        format!("0.{}{}", "0".repeat(n.scale - digits.len()), digits)
    };
    let value: f64 = text.parse().expect("a numeral renders as a parsable text");
    if n.negative { -value } else { value }
}

/// Encodes every literal in the postfix sequence as a 64-bit word.
fn to_words(tokens: Tokens) -> Tokens {
    let mut out = Tokens::new();
    for t in tokens.raw {
        match t {
            Token::Number(Scalar::Literal(n)) => {
                out.push(Token::Number(Scalar::Word(f64::to_bits(numeral_value(&n)))));
            }
            other => out.push(other),
        }
    }
    out
}

/// Drives the evaluator, computing each requested operation on `f64`.
fn run_machine(eval: &mut Evaluator, tokens: Tokens) -> Result<f64, Error> {
    let mut step = eval.evaluate(tokens);
    loop {
        match step {
            EvalStep::Done(w) => return Ok(f64::from_bits(w)),
            EvalStep::Fail(e) => return Err(e),
            EvalStep::Compute(code, lhs, rhs) => {
                let x = f64::from_bits(lhs);
                let y = f64::from_bits(rhs);
                let r = match code {
                    OpCode::Addition => x + y,
                    OpCode::Subtraction => x - y,
                    OpCode::Multiplication => x * y,
                    OpCode::Division => x / y,
                    OpCode::Remainder => x % y,
                    OpCode::Power => x.powf(y),
                    other => panic!("the evaluator never asks for {:?}", other),
                };
                step = eval.resume(f64::to_bits(r));
            }
        }
    }
}

fn eval_text(eval: &mut Evaluator, source: &str) -> Result<f64, Error> {
    let lexer = TokenIterator::new(source, 10);
    let mut parser = Parser::new(lexer);
    let tokens = parser.intermediate()?;
    run_machine(eval, to_words(tokens))
}

fn eval_once(source: &str) -> Result<f64, Error> {
    let mut eval = Evaluator::new();
    eval_text(&mut eval, source)
}

#[test]
fn evaluates_parenthesized_sum_times_two() {
    assert_eq!(eval_once("(5 + 4) * 2").unwrap(), 18.0);
}

#[test]
fn evaluates_nested_power() {
    assert_eq!(eval_once("(1 + (1 * 1))^(1 + 1)").unwrap(), 4.0);
}

#[test]
fn assignment_emits_expected_tokens_and_sets_the_variable() {
    let mut lexer = TokenIterator::new("$age = 5", 10);
    assert_eq!(lexer.next(), Some(Token::Identifier("$age".to_string())));
    match lexer.next() {
        Some(Token::Operator(op)) => assert_eq!(op.code, OpCode::Assignment),
        other => panic!("expected the assignment operator, found {:?}", other),
    }
    assert_eq!(
        lexer.next(),
        Some(Token::Number(Scalar::Literal(Numeral { negative: false, mantissa: 5, scale: 0 })))
    );
    assert_eq!(lexer.next(), None);

    let mut eval = Evaluator::new();
    assert_eq!(eval_text(&mut eval, "$age = 5").unwrap(), 5.0);
    let stored = eval.get_variable(&"$age".to_string()).expect("the variable is set");
    assert_eq!(f64::from_bits(stored), 5.0);
}

#[test]
fn division_by_zero_fails() {
    let e = eval_once("5 / 0").unwrap_err();
    assert_eq!(e.code, ErrorCode::ArithmeticError);
    assert_eq!(e.message, "Division by zero is undefined.");
}

#[test]
fn remainder_by_zero_fails() {
    let e = eval_once("5 % 0").unwrap_err();
    assert_eq!(e.code, ErrorCode::ArithmeticError);
}

#[test]
fn division_by_fractional_zero_fails() {
    let e = eval_once("5 / 0.0").unwrap_err();
    assert_eq!(e.code, ErrorCode::ArithmeticError);
}

#[test]
fn division_assignment_by_zero_fails() {
    let mut eval = Evaluator::new();
    eval_text(&mut eval, "$x = 5").unwrap();
    let e = eval_text(&mut eval, "$x /= 0").unwrap_err();
    assert_eq!(e.code, ErrorCode::ArithmeticError);
}

#[test]
fn remainder_assignment_by_zero_fails() {
    let mut eval = Evaluator::new();
    eval_text(&mut eval, "$x = 5").unwrap();
    let e = eval_text(&mut eval, "$x %= 0").unwrap_err();
    assert_eq!(e.code, ErrorCode::ArithmeticError);
}

#[test]
fn assignment_persists_across_evaluations() {
    let mut eval = Evaluator::new();
    assert_eq!(eval_text(&mut eval, "$x = 5").unwrap(), 5.0);
    assert_eq!(eval_text(&mut eval, "$x").unwrap(), 5.0);
}

#[test]
fn compound_assignments_update_the_variable() {
    let mut eval = Evaluator::new();
    assert_eq!(eval_text(&mut eval, "$x = 5").unwrap(), 5.0);
    assert_eq!(eval_text(&mut eval, "$x += 3").unwrap(), 8.0);
    assert_eq!(eval_text(&mut eval, "$x *= 2").unwrap(), 16.0);
    assert_eq!(eval_text(&mut eval, "$x -= 6").unwrap(), 10.0);
    assert_eq!(eval_text(&mut eval, "$x /= 5").unwrap(), 2.0);
    assert_eq!(eval_text(&mut eval, "$x %= 2").unwrap(), 0.0);
}

#[test]
fn unseen_variable_reads_as_zero() {
    assert_eq!(eval_once("$y + 1").unwrap(), 1.0);
}

#[test]
fn constants_cannot_be_reassigned() {
    let mut eval = Evaluator::new();
    eval.mark_constant("$c".to_string());
    let e = eval_text(&mut eval, "$c = 1").unwrap_err();
    assert_eq!(e.code, ErrorCode::ReassignConstant);
    assert_eq!(e.message, "Can not reassign constant.");
}

#[test]
fn empty_input_is_an_evaluator_error() {
    let e = eval_once("").unwrap_err();
    assert_eq!(e.code, ErrorCode::EvaluatorError);
    assert_eq!(e.message, "Evaluator does not have a stack size of one.");
}

#[test]
fn trailing_operator_underflows_the_stack() {
    let e = eval_once("5 +").unwrap_err();
    assert_eq!(e.code, ErrorCode::EvaluatorError);
    assert_eq!(e.message, "No tokens on stack.");
}

#[test]
fn unary_minus_multiplies() {
    assert_eq!(eval_once("-5 + 3").unwrap(), -2.0);
    assert_eq!(eval_once("2 * -3").unwrap(), -6.0);
}

#[test]
fn precedence_drives_evaluation() {
    assert_eq!(eval_once("1 + 2 * 3").unwrap(), 7.0);
    assert_eq!(eval_once("2 ^ 3 ^ 2").unwrap(), 512.0);
    assert_eq!(eval_once("8 - 2 - 1").unwrap(), 5.0);
    assert_eq!(eval_once("7 % 4").unwrap(), 3.0);
    assert_eq!(eval_once("5.5 + 0.25").unwrap(), 5.75);
}

#[test]
fn radix_sixteen_pipeline() {
    let lexer = TokenIterator::new("ff + 1", 16);
    let mut parser = Parser::new(lexer);
    let tokens = parser.intermediate().unwrap();
    let mut eval = Evaluator::new();
    assert_eq!(run_machine(&mut eval, to_words(tokens)).unwrap(), 256.0);
}

#[test]
fn resume_without_pending_computation_fails() {
    let mut eval = Evaluator::new();
    match eval.resume(0) {
        EvalStep::Fail(e) => assert_eq!(e.code, ErrorCode::EvaluatorError),
        other => panic!("expected a failure, found {:?}", other),
    }
}

#[test]
fn literal_reaching_the_evaluator_unencoded_is_a_fault() {
    let mut tokens = Tokens::new();
    tokens.push(Token::Number(Scalar::Literal(Numeral { negative: false, mantissa: 5, scale: 0 })));
    let mut eval = Evaluator::new();
    match eval.evaluate(tokens) {
        EvalStep::Fail(e) => {
            assert_eq!(e.code, ErrorCode::EvaluatorError);
            assert_eq!(e.message, "Unhandled token.");
        }
        other => panic!("expected a failure, found {:?}", other),
    }
}

use grover::Numeral;
use grover::OpCode;
use grover::Scalar;
use grover::Token;
use grover::TokenIterator;

fn scan_all(source: &str, radix: u32) -> (Vec<Token>, Option<String>) {
    let mut lexer = TokenIterator::new(source, radix);
    let mut tokens = Vec::new();
    while let Some(t) = lexer.next() {
        tokens.push(t);
    }
    let error = lexer.get_error().cloned();
    (tokens, error)
}

fn literal(mantissa: u64, scale: usize) -> Token {
    Token::Number(Scalar::Literal(Numeral { negative: false, mantissa, scale }))
}

#[test]
fn lexes_binary_digits() {
    let (tokens, error) = scan_all("101", 2);
    assert_eq!(error, None);
    assert_eq!(tokens, vec![literal(5, 0)]);
}

#[test]
fn lexes_hexadecimal_digits() {
    let (tokens, error) = scan_all("ff", 16);
    assert_eq!(error, None);
    assert_eq!(tokens, vec![literal(255, 0)]);
}

#[test]
fn lexes_base_thirty_six() {
    let (tokens, error) = scan_all("zz", 36);
    assert_eq!(error, None);
    assert_eq!(tokens, vec![literal(35 * 36 + 35, 0)]);
}

#[test]
fn lexes_decimal_fraction() {
    let (tokens, error) = scan_all("5.5", 10);
    assert_eq!(error, None);
    assert_eq!(tokens, vec![literal(55, 1)]);
}

#[test]
fn lexes_leading_dot() {
    let (tokens, error) = scan_all(".25", 10);
    assert_eq!(error, None);
    assert_eq!(tokens, vec![literal(25, 2)]);
}

#[test]
fn rejects_two_dots() {
    let (tokens, error) = scan_all("1.2.3", 10);
    assert_eq!(tokens, vec![]);
    assert_eq!(error, Some("Could not parse '1.2.3' to f64.".to_string()));
}

#[test]
fn rejects_integer_beyond_i64_in_other_radix() {
    let (tokens, error) = scan_all("ffffffffffffffff", 16);
    assert_eq!(tokens, vec![]);
    assert_eq!(
        error,
        Some("Could not parse 'ffffffffffffffff' to f64.".to_string())
    );
}

#[test]
fn rejects_decimal_mantissa_beyond_u64() {
    let (tokens, error) = scan_all("999999999999999999999", 10);
    assert_eq!(tokens, vec![]);
    assert!(error.is_some());
}

#[test]
fn lexes_identifier() {
    let (tokens, error) = scan_all("$a_b1", 10);
    assert_eq!(error, None);
    assert_eq!(tokens, vec![Token::Identifier("$a_b1".to_string())]);
}

#[test]
fn rejects_identifier_starting_with_digit() {
    let (tokens, error) = scan_all("$1a", 10);
    assert_eq!(tokens, vec![]);
    assert_eq!(
        error,
        Some("Variable name must start with a letter or underscore. Found '1'.".to_string())
    );
}

#[test]
fn rejects_empty_identifier() {
    let (tokens, error) = scan_all("$", 10);
    assert_eq!(tokens, vec![]);
    assert_eq!(
        error,
        Some("Variable name must be at least one character long.".to_string())
    );
}

#[test]
fn rejects_invalid_character() {
    let (tokens, error) = scan_all("@", 10);
    assert_eq!(tokens, vec![]);
    assert_eq!(error, Some("Invalid character '@'.".to_string()));
}

#[test]
fn rejects_caret_equals() {
    let (tokens, error) = scan_all("^=", 10);
    assert_eq!(tokens, vec![]);
    assert_eq!(error, Some("Unhandled character '^'.".to_string()));
}

#[test]
fn skips_spaces_and_lexes_operators() {
    let (tokens, error) = scan_all("  ( ) = + +=  ", 10);
    assert_eq!(error, None);
    assert_eq!(tokens.len(), 5);
    assert_eq!(tokens[0], Token::LeftParenthesis);
    assert_eq!(tokens[1], Token::RightParenthesis);
    assert!(matches!(&tokens[2], Token::Operator(op) if op.code == OpCode::Assignment));
    assert!(matches!(&tokens[3], Token::Operator(op) if op.code == OpCode::Addition));
    assert!(matches!(&tokens[4], Token::Operator(op) if op.code == OpCode::AdditionAssignment));
}

#[test]
fn state_flags_follow_the_stream() {
    let mut lexer = TokenIterator::new("5", 10);
    assert!(lexer.good());
    assert!(!lexer.bad());
    assert!(!lexer.end());
    assert!(lexer.next().is_some());
    assert!(lexer.next().is_none());
    assert!(lexer.end());
    assert!(lexer.good());
    assert!(lexer.get_error().is_none());
}

#[test]
fn bad_stream_stays_bad() {
    let mut lexer = TokenIterator::new("@ 5", 10);
    assert!(lexer.next().is_none());
    assert!(lexer.bad());
    assert!(!lexer.good());
    assert!(lexer.next().is_none());
    assert_eq!(lexer.get_error(), Some(&"Invalid character '@'.".to_string()));
}

#[test]
fn operator_table_is_fixed() {
    let (tokens, error) = scan_all("^ * / % + - = += -= *= /= %=", 10);
    assert_eq!(error, None);
    let expected: Vec<(OpCode, u8, grover::Associativity)> = vec![
        (OpCode::Power, 0, grover::Associativity::Right),
        (OpCode::Multiplication, 1, grover::Associativity::Left),
        (OpCode::Division, 1, grover::Associativity::Left),
        (OpCode::Remainder, 1, grover::Associativity::Left),
        (OpCode::Addition, 2, grover::Associativity::Left),
        (OpCode::Subtraction, 2, grover::Associativity::Left),
        (OpCode::Assignment, 3, grover::Associativity::Right),
        (OpCode::AdditionAssignment, 3, grover::Associativity::Right),
        (OpCode::SubtractionAssignment, 3, grover::Associativity::Right),
        (OpCode::MultiplicationAssignment, 3, grover::Associativity::Right),
        (OpCode::DivisionAssignment, 3, grover::Associativity::Right),
        (OpCode::RemainderAssignment, 3, grover::Associativity::Right),
    ];
    assert_eq!(tokens.len(), expected.len());
    for (t, (code, precedence, associativity)) in tokens.iter().zip(expected) {
        match t {
            Token::Operator(op) => {
                assert_eq!(op.code, code);
                assert_eq!(op.precedence, precedence);
                assert_eq!(op.associativity, associativity);
            }
            other => panic!("expected an operator, found {:?}", other),
        }
    }
}

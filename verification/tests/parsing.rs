use grover::Error;
use grover::ErrorCode;
use grover::Parser;
use grover::TokenIterator;
use grover::Tokens;

fn parse_text(source: &str, radix: u32) -> Result<Tokens, Error> {
    let lexer = TokenIterator::new(source, radix);
    let mut parser = Parser::new(lexer);
    parser.intermediate()
}

fn rendered(source: &str) -> String {
    parse_text(source, 10).expect("the expression should parse").render()
}

#[test]
fn renders_postfix_of_parenthesized_sum() {
    assert_eq!(rendered("(5 + 4) * 2"), "5 4 + 2 * ");
}

#[test]
fn respects_precedence_of_multiplication() {
    assert_eq!(rendered("1 + 2 * 3"), "1 2 3 * + ");
}

#[test]
fn power_is_right_associative() {
    assert_eq!(rendered("2 ^ 3 ^ 2"), "2 3 2 ^ ^ ");
}

#[test]
fn subtraction_is_left_associative() {
    assert_eq!(rendered("8 - 2 - 1"), "8 2 - 1 - ");
}

#[test]
fn desugars_unary_minus() {
    assert_eq!(rendered("-5 + 3"), "-1 5 * 3 + ");
}

#[test]
fn desugars_unary_plus() {
    assert_eq!(rendered("+5"), "1 5 * ");
}

#[test]
fn empty_input_parses_to_nothing() {
    assert_eq!(rendered(""), "");
}

#[test]
fn trailing_operator_is_not_a_parse_error() {
    assert_eq!(rendered("5 +"), "5 + ");
}

#[test]
fn rejects_dangling_right_parenthesis() {
    let e = parse_text("5 + 4)", 10).unwrap_err();
    assert_eq!(e.code, ErrorCode::MalformedExpression);
    assert_eq!(e.message, "Dangling right parenthesis.");
}

#[test]
fn rejects_unterminated_parenthesis() {
    let e = parse_text("(5 + 6", 10).unwrap_err();
    assert_eq!(e.code, ErrorCode::MalformedExpression);
    assert_eq!(e.message, "Missing right parenthesis.");
}

#[test]
fn propagates_lexer_error() {
    let e = parse_text("5 + @", 10).unwrap_err();
    assert_eq!(e.code, ErrorCode::LexerError);
    assert_eq!(e.message, "Invalid character '@'.");
}

#[test]
fn rejects_two_values_in_a_row() {
    let e = parse_text("5 5", 10).unwrap_err();
    assert_eq!(e.code, ErrorCode::MalformedExpression);
    assert_eq!(
        e.message,
        "Expected {\"assignment-operator\", \"arithmetic-operator\", \"right-parenthesis\"} found number."
    );
}

#[test]
fn rejects_leading_binary_operator() {
    let e = parse_text("* 5", 10).unwrap_err();
    assert_eq!(e.code, ErrorCode::MalformedExpression);
    assert_eq!(
        e.message,
        "Expected {\"identifier\", \"number\", \"unary-plus\", \"unary-minus\", \"left-parenthesis\"} found times-operator."
    );
}

#[test]
fn rejects_assignment_to_nothing() {
    let e = parse_text("= 5", 10).unwrap_err();
    assert_eq!(e.code, ErrorCode::MalformedExpression);
}

#[test]
fn unary_sign_may_open_a_parenthesis() {
    assert_eq!(rendered("-(2 + 3)"), "-1 2 3 + * ");
}

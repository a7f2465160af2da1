//! Shunting-yard parsing: the lexer's token stream becomes a postfix
//! (reverse Polish) token sequence.

use vstd::prelude::*;
use vstd::string::StringExecFns;

use crate::error::Error;
use crate::error::ErrorCode;
use crate::error::ErrorModel;
use crate::lexer::LexerModel;
use crate::lexer::Scan;
use crate::lexer::TokenIterator;
use crate::lexer::lemma_scan_bounds;
use crate::lexer::lemma_state_bits;
use crate::lexer::scan;
use crate::token::Associativity;
use crate::token::Numeral;
use crate::token::OpCode;
use crate::token::Operator;
use crate::token::Scalar;
use crate::token::Token;
use crate::token::TokenModel;
use crate::token::Tokens;
use crate::token::operator_descriptor;

verus! {

/// The classes of token the parser is prepared to see next.
#[derive(Clone, Copy, Debug, PartialEq, Eq, Structural)]
pub struct Expected {
    pub identifier: bool,
    pub number: bool,
    pub unary_plus: bool,
    pub unary_minus: bool,
    pub left_parenthesis: bool,
    pub assignment_operator: bool,
    pub arithmetic_operator: bool,
    pub right_parenthesis: bool,
}

/// What may start a value: an identifier, a number, a unary sign or an
/// opening parenthesis.  This is also the initial expectation.
pub open spec fn expect_value_start() -> Expected {
    Expected {
        identifier: true,
        number: true,
        unary_plus: true,
        unary_minus: true,
        left_parenthesis: true,
        assignment_operator: false,
        arithmetic_operator: false,
        right_parenthesis: false,
    }
}

/// What may follow a completed value: an operator or a closing parenthesis.
pub open spec fn expect_after_value() -> Expected {
    Expected {
        identifier: false,
        number: false,
        unary_plus: false,
        unary_minus: false,
        left_parenthesis: false,
        assignment_operator: true,
        arithmetic_operator: true,
        right_parenthesis: true,
    }
}

/// One conditional entry of the expectation description: `name` is appended
/// behind a `", "` separator unless it is the first entry.
pub open spec fn desc_append(acc: Seq<char>, first: bool, present: bool, name: Seq<char>) -> (
    Seq<char>,
    bool,
) {
    if present {
        (
            if first {
                acc + name
            } else {
                acc + ", "@ + name
            },
            false,
        )
    } else {
        (acc, first)
    }
}

pub open spec fn desc1(e: Expected) -> (Seq<char>, bool) {
    desc_append("{"@, true, e.identifier, "\"identifier\""@)
}

pub open spec fn desc2(e: Expected) -> (Seq<char>, bool) {
    desc_append(desc1(e).0, desc1(e).1, e.number, "\"number\""@)
}

pub open spec fn desc3(e: Expected) -> (Seq<char>, bool) {
    desc_append(desc2(e).0, desc2(e).1, e.unary_plus, "\"unary-plus\""@)
}

pub open spec fn desc4(e: Expected) -> (Seq<char>, bool) {
    desc_append(desc3(e).0, desc3(e).1, e.unary_minus, "\"unary-minus\""@)
}

pub open spec fn desc5(e: Expected) -> (Seq<char>, bool) {
    desc_append(desc4(e).0, desc4(e).1, e.left_parenthesis, "\"left-parenthesis\""@)
}

pub open spec fn desc6(e: Expected) -> (Seq<char>, bool) {
    desc_append(desc5(e).0, desc5(e).1, e.assignment_operator, "\"assignment-operator\""@)
}

pub open spec fn desc7(e: Expected) -> (Seq<char>, bool) {
    desc_append(desc6(e).0, desc6(e).1, e.arithmetic_operator, "\"arithmetic-operator\""@)
}

pub open spec fn desc8(e: Expected) -> (Seq<char>, bool) {
    desc_append(desc7(e).0, desc7(e).1, e.right_parenthesis, "\"right-parenthesis\""@)
}

/// The expectation set written out, in a fixed order.
pub open spec fn expected_desc(e: Expected) -> Seq<char> {
    desc8(e).0 + "}"@
}

/// The message of an expectation violation: the set that was legal and the
/// class that arrived instead.
pub open spec fn msg_expected(e: Expected, found: Seq<char>) -> Seq<char> {
    "Expected "@ + expected_desc(e) + " found "@ + found + "."@
}

pub open spec fn msg_dangling_paren() -> Seq<char> {
    "Dangling right parenthesis."@
}

pub open spec fn msg_missing_paren() -> Seq<char> {
    "Missing right parenthesis."@
}

pub open spec fn msg_non_operator() -> Seq<char> {
    "Encountered a non-operator in operator stack."@
}

/// The class name under which each operator is reported when it arrives
/// unexpectedly.
pub open spec fn found_name(code: OpCode) -> Seq<char> {
    match code {
        OpCode::Addition => "unary-plus"@,
        OpCode::Subtraction => "unary-minus"@,
        OpCode::Multiplication => "times-operator"@,
        OpCode::Division => "division-operator"@,
        OpCode::Remainder => "remainder-operator"@,
        OpCode::Power => "power-operator"@,
        OpCode::Assignment => "assignment-operator"@,
        OpCode::AdditionAssignment => "addition-assignment-operator"@,
        OpCode::SubtractionAssignment => "subtraction-assignment-operator"@,
        OpCode::MultiplicationAssignment => "multiplication-assignment-operator"@,
        OpCode::DivisionAssignment => "division-assignment-operator"@,
        OpCode::RemainderAssignment => "remainder-assignment-operator"@,
    }
}

/// Whether the operator belongs to the arithmetic class (as opposed to the
/// assignment family).
pub open spec fn is_arithmetic(code: OpCode) -> bool {
    match code {
        OpCode::Addition => true,
        OpCode::Subtraction => true,
        OpCode::Multiplication => true,
        OpCode::Division => true,
        OpCode::Remainder => true,
        OpCode::Power => true,
        _ => false,
    }
}

pub open spec fn malformed(message: Seq<char>) -> ErrorModel {
    ErrorModel { code: ErrorCode::MalformedExpression, message }
}

/// The synthetic numeral `1` or `-1` that desugars a unary sign.
pub open spec fn unary_one(negative: bool) -> TokenModel {
    TokenModel::Number(Scalar::Literal(Numeral { negative, mantissa: 1, scale: 0 }))
}

/// The parser's working state: the postfix output so far, the operator
/// stack, the count of unmatched left parentheses, and the classes of token
/// that may come next.
pub struct ParseState {
    pub output: Seq<TokenModel>,
    pub operators: Seq<TokenModel>,
    pub depth: int,
    pub expected: Expected,
}

pub open spec fn initial_state() -> ParseState {
    ParseState {
        output: Seq::empty(),
        operators: Seq::empty(),
        depth: 0,
        expected: expect_value_start(),
    }
}

/// The precedence-resolution step: operators that bind tighter than the
/// incoming one (or equally tight, when the incoming one is
/// left-associative) move from the stack to the output; a left parenthesis
/// stops the popping; anything else on the stack is an internal fault.
pub open spec fn resolve_precedence(
    ops: Seq<TokenModel>,
    out: Seq<TokenModel>,
    op: Operator,
) -> Result<(Seq<TokenModel>, Seq<TokenModel>), ErrorModel>
    decreases ops.len(),
{
    if ops.len() == 0 {
        Ok((ops, out))
    } else {
        match ops.last() {
            TokenModel::Operator(top) => {
                if top.precedence < op.precedence || (top.precedence == op.precedence
                    && op.associativity == Associativity::Left) {
                    resolve_precedence(ops.drop_last(), out.push(TokenModel::Operator(top)), op)
                } else {
                    Ok((ops, out))
                }
            },
            TokenModel::LeftParenthesis => Ok((ops, out)),
            _ => Err(ErrorModel { code: ErrorCode::ParserError, message: msg_non_operator() }),
        }
    }
}

/// On a closing parenthesis: operators move to the output until a left
/// parenthesis tops the stack, and that parenthesis is discarded.
pub open spec fn pop_to_left_paren(ops: Seq<TokenModel>, out: Seq<TokenModel>) -> (
    Seq<TokenModel>,
    Seq<TokenModel>,
)
    decreases ops.len(),
{
    if ops.len() == 0 {
        (ops, out)
    } else if ops.last() is LeftParenthesis {
        (ops.drop_last(), out)
    } else {
        pop_to_left_paren(ops.drop_last(), out.push(ops.last()))
    }
}

/// One operator token, after its legality check: a legal unary `+` or `-`
/// desugars into a synthetic `1` or `-1` in the output and a multiplication
/// on the stack, skipping precedence resolution; every other operator
/// resolves precedence and is pushed.
pub open spec fn parse_operator(st: ParseState, op: Operator) -> Result<ParseState, ErrorModel> {
    if op.code == OpCode::Addition && st.expected.unary_plus {
        Ok(
            ParseState {
                output: st.output.push(unary_one(false)),
                operators: st.operators.push(
                    TokenModel::Operator(operator_descriptor(OpCode::Multiplication)),
                ),
                expected: expect_value_start(),
                ..st
            },
        )
    } else if op.code == OpCode::Subtraction && st.expected.unary_minus {
        Ok(
            ParseState {
                output: st.output.push(unary_one(true)),
                operators: st.operators.push(
                    TokenModel::Operator(operator_descriptor(OpCode::Multiplication)),
                ),
                expected: expect_value_start(),
                ..st
            },
        )
    } else {
        let legal = if is_arithmetic(op.code) {
            st.expected.arithmetic_operator
        } else {
            st.expected.assignment_operator
        };
        if !legal {
            Err(malformed(msg_expected(st.expected, found_name(op.code))))
        } else {
            match resolve_precedence(st.operators, st.output, op) {
                Ok(popped) => Ok(
                    ParseState {
                        operators: popped.0.push(TokenModel::Operator(op)),
                        output: popped.1,
                        expected: expect_value_start(),
                        ..st
                    },
                ),
                Err(e) => Err(e),
            }
        }
    }
}

/// One token of the stream changes the parser state, or stops the parse with
/// an error.
pub open spec fn parse_step(st: ParseState, t: TokenModel) -> Result<ParseState, ErrorModel> {
    match t {
        TokenModel::Identifier(_) => if !st.expected.identifier {
            Err(malformed(msg_expected(st.expected, "identifier"@)))
        } else {
            Ok(ParseState { output: st.output.push(t), expected: expect_after_value(), ..st })
        },
        TokenModel::Number(_) => if !st.expected.number {
            Err(malformed(msg_expected(st.expected, "number"@)))
        } else {
            Ok(ParseState { output: st.output.push(t), expected: expect_after_value(), ..st })
        },
        TokenModel::Operator(op) => parse_operator(st, op),
        TokenModel::LeftParenthesis => if !st.expected.left_parenthesis {
            Err(malformed(msg_expected(st.expected, "left-parenthesis"@)))
        } else {
            Ok(
                ParseState {
                    operators: st.operators.push(t),
                    depth: st.depth + 1,
                    expected: expect_value_start(),
                    ..st
                },
            )
        },
        TokenModel::RightParenthesis => if st.depth == 0 {
            Err(malformed(msg_dangling_paren()))
        } else {
            let popped = pop_to_left_paren(st.operators, st.output);
            Ok(ParseState { operators: popped.0, output: popped.1, depth: st.depth - 1, ..st })
        },
    }
}

/// The parser state after a sequence of tokens, or the first error.
pub open spec fn run_steps(st: ParseState, ts: Seq<TokenModel>) -> Result<ParseState, ErrorModel>
    decreases ts.len(),
{
    if ts.len() == 0 {
        Ok(st)
    } else {
        match parse_step(st, ts[0]) {
            Ok(st2) => run_steps(st2, ts.subrange(1, ts.len() as int)),
            Err(e) => Err(e),
        }
    }
}

/// Every token the lexer will emit from `pos` on, until it stops at the end
/// of the input or at a fault.
pub open spec fn lex_seq(s: Seq<char>, pos: int, radix: u32) -> Seq<TokenModel>
    decreases s.len() - pos,
{
    match scan(s, pos, radix) {
        Scan::Emit { token, next } => if pos < next <= s.len() {
            seq![token] + lex_seq(s, next, radix)
        } else {
            seq![token]
        },
        Scan::Fail { .. } => Seq::empty(),
        Scan::End => Seq::empty(),
    }
}

/// The fault, if any, at which the lexer will stop scanning from `pos` on.
pub open spec fn lex_err(s: Seq<char>, pos: int, radix: u32) -> Option<Seq<char>>
    decreases s.len() - pos,
{
    match scan(s, pos, radix) {
        Scan::Emit { token, next } => if pos < next <= s.len() {
            lex_err(s, next, radix)
        } else {
            Option::None
        },
        Scan::Fail { message, next } => Option::Some(message),
        Scan::End => Option::None,
    }
}

/// The tokens still to come from a lexer in the given state: none once it is
/// bad.
pub open spec fn stream_tokens(m: LexerModel) -> Seq<TokenModel> {
    if m.bad() {
        Seq::empty()
    } else {
        lex_seq(m.chars, m.pos, m.radix)
    }
}

/// The fault a lexer in the given state will report: its stored message once
/// it is bad, else the fault it will run into.
pub open spec fn stream_error(m: LexerModel) -> Option<Seq<char>> {
    if m.bad() {
        Option::Some(m.error)
    } else {
        lex_err(m.chars, m.pos, m.radix)
    }
}

/// At the end of the input the remaining operators are flushed to the
/// output in stack order.
pub open spec fn drain(st: ParseState) -> Seq<TokenModel> {
    st.output + st.operators.reverse()
}

/// The end of the parse: a lexical fault wins, then a nonzero residual
/// parenthesis depth is malformed, and otherwise the drained output stands.
pub open spec fn parse_finish(st: ParseState, err: Option<Seq<char>>) -> Result<
    Seq<TokenModel>,
    ErrorModel,
> {
    match err {
        Option::Some(m) => Err(ErrorModel { code: ErrorCode::LexerError, message: m }),
        Option::None => if st.depth != 0 {
            Err(malformed(msg_missing_paren()))
        } else {
            Ok(drain(st))
        },
    }
}

/// What parsing the whole stream of a lexer in state `m` returns.
pub open spec fn spec_parse(m: LexerModel) -> Result<Seq<TokenModel>, ErrorModel> {
    match run_steps(initial_state(), stream_tokens(m)) {
        Ok(st) => parse_finish(st, stream_error(m)),
        Err(e) => Err(e),
    }
}

} // verus!


verus! {

/// The token views of an owned token sequence.
pub open spec fn views_of(ts: Seq<Token>) -> Seq<TokenModel> {
    ts.map_values(|t: Token| t@)
}

/// What the precedence-resolution loop does with the token atop the operator
/// stack: pop it to the output, stop popping, or report an internal fault.
#[derive(Clone, Copy, Debug, PartialEq, Eq, Structural)]
enum StackTop {
    Pop,
    Stop,
    Fault,
}

/// Decides the fate of the token atop the operator stack against the
/// incoming operator, as [`resolve_precedence`] does.
fn classify_top(top: &Token, op: Operator) -> (r: StackTop)
    ensures
        r == (match top@ {
            TokenModel::Operator(t) => if t.precedence < op.precedence || (t.precedence
                == op.precedence && op.associativity == Associativity::Left) {
                StackTop::Pop
            } else {
                StackTop::Stop
            },
            TokenModel::LeftParenthesis => StackTop::Stop,
            _ => StackTop::Fault,
        }),
{
    match top {
        Token::Operator(t) => {
            if t.precedence < op.precedence || (t.precedence == op.precedence && op.associativity
                == Associativity::Left) {
                StackTop::Pop
            } else {
                StackTop::Stop
            }
        },
        Token::LeftParenthesis => StackTop::Stop,
        _ => StackTop::Fault,
    }
}

/// The initial expectation: anything that starts a value.
fn value_start_expected() -> (r: Expected)
    ensures
        r == expect_value_start(),
{
    Expected {
        identifier: true,
        number: true,
        unary_plus: true,
        unary_minus: true,
        left_parenthesis: true,
        assignment_operator: false,
        arithmetic_operator: false,
        right_parenthesis: false,
    }
}

/// The expectation after a completed value.
fn after_value_expected() -> (r: Expected)
    ensures
        r == expect_after_value(),
{
    Expected {
        identifier: false,
        number: false,
        unary_plus: false,
        unary_minus: false,
        left_parenthesis: false,
        assignment_operator: true,
        arithmetic_operator: true,
        right_parenthesis: true,
    }
}

/// The class name under which `code` is reported when it arrives
/// unexpectedly.
fn found_label(code: OpCode) -> (r: &'static str)
    ensures
        r@ == found_name(code),
{
    match code {
        OpCode::Addition => "unary-plus",
        OpCode::Subtraction => "unary-minus",
        OpCode::Multiplication => "times-operator",
        OpCode::Division => "division-operator",
        OpCode::Remainder => "remainder-operator",
        OpCode::Power => "power-operator",
        OpCode::Assignment => "assignment-operator",
        OpCode::AdditionAssignment => "addition-assignment-operator",
        OpCode::SubtractionAssignment => "subtraction-assignment-operator",
        OpCode::MultiplicationAssignment => "multiplication-assignment-operator",
        OpCode::DivisionAssignment => "division-assignment-operator",
        OpCode::RemainderAssignment => "remainder-assignment-operator",
    }
}

/// Whether the operator belongs to the arithmetic class.
fn is_arithmetic_code(code: OpCode) -> (r: bool)
    ensures
        r == is_arithmetic(code),
{
    match code {
        OpCode::Addition => true,
        OpCode::Subtraction => true,
        OpCode::Multiplication => true,
        OpCode::Division => true,
        OpCode::Remainder => true,
        OpCode::Power => true,
        _ => false,
    }
}

/// Appends `name` behind a `", "` separator unless `m` still ends at its
/// opening brace, as [`desc_append`] describes for a present entry.
fn append_entry(m: &mut String, first: bool, name: &str) -> (r: bool)
    ensures
        (final(m)@, r) == desc_append(old(m)@, first, true, name@),
{
    if !first {
        m.append(", ");
    }
    m.append(name);
    false
}

/// Builds the message of an expectation violation.
#[verifier::rlimit(100)]
#[verifier::spinoff_prover]
fn expected_message(e: Expected, found: &str) -> (r: String)
    ensures
        r@ == msg_expected(e, found@),
{
    let mut d = "{".to_owned();
    let mut first: bool = true;
    if e.identifier {
        first = append_entry(&mut d, first, "\"identifier\"");
    }
    proof {
        assert(d@ == desc1(e).0);
        assert(first == desc1(e).1);
    }
    if e.number {
        first = append_entry(&mut d, first, "\"number\"");
    }
    proof {
        assert(d@ == desc2(e).0);
        assert(first == desc2(e).1);
    }
    if e.unary_plus {
        first = append_entry(&mut d, first, "\"unary-plus\"");
    }
    proof {
        assert(d@ == desc3(e).0);
        assert(first == desc3(e).1);
    }
    if e.unary_minus {
        first = append_entry(&mut d, first, "\"unary-minus\"");
    }
    proof {
        assert(d@ == desc4(e).0);
        assert(first == desc4(e).1);
    }
    if e.left_parenthesis {
        first = append_entry(&mut d, first, "\"left-parenthesis\"");
    }
    proof {
        assert(d@ == desc5(e).0);
        assert(first == desc5(e).1);
    }
    if e.assignment_operator {
        first = append_entry(&mut d, first, "\"assignment-operator\"");
    }
    proof {
        assert(d@ == desc6(e).0);
        assert(first == desc6(e).1);
    }
    if e.arithmetic_operator {
        first = append_entry(&mut d, first, "\"arithmetic-operator\"");
    }
    proof {
        assert(d@ == desc7(e).0);
        assert(first == desc7(e).1);
    }
    if e.right_parenthesis {
        first = append_entry(&mut d, first, "\"right-parenthesis\"");
    }
    proof {
        assert(d@ == desc8(e).0);
        assert(first == desc8(e).1);
    }
    let mut m = "Expected ".to_owned();
    m.append(d.as_str());
    m.append("}");
    m.append(" found ");
    m.append(found);
    m.append(".");
    proof {
        assert(expected_desc(e) == desc8(e).0 + "}"@);
        assert(m@ =~= "Expected "@ + expected_desc(e) + " found "@ + found@ + "."@);
    }
    m
}

/// Moves operators that outrank `op` from the stack to the output, as
/// [`resolve_precedence`] describes, reporting the internal fault it can
/// hit.
fn resolve_loop(tokens: &mut Tokens, operators: &mut Vec<Token>, op: Operator) -> (r: Option<
    Error,
>)
    ensures
        match resolve_precedence(views_of(old(operators)@), old(tokens)@, op) {
            Ok(pair) => r is None && views_of(final(operators)@) == pair.0 && final(tokens)@
                == pair.1,
            Err(e) => r is Some && r->Some_0@ == e,
        },
{
    loop
        invariant
            resolve_precedence(views_of(operators@), tokens@, op) == resolve_precedence(
                views_of(old(operators)@),
                old(tokens)@,
                op,
            ),
        ensures
            resolve_precedence(views_of(old(operators)@), old(tokens)@, op) == Ok::<
                (Seq<TokenModel>, Seq<TokenModel>),
                ErrorModel,
            >((views_of(operators@), tokens@)),
        decreases operators@.len(),
    {
        let l = operators.len();
        if l == 0 {
            break;
        }
        let action = classify_top(&operators[l - 1], op);
        if matches!(action, StackTop::Stop) {
            break;
        }
        if matches!(action, StackTop::Fault) {
            return Some(
                Error::new(
                    ErrorCode::ParserError,
                    "Encountered a non-operator in operator stack.".to_owned(),
                ),
            );
        }
        let ghost ops_before = operators@;
        let popped = operators.pop().unwrap();
        tokens.push(popped);
        proof {
            assert(ops_before =~= operators@.push(popped));
            assert(views_of(ops_before) =~= views_of(operators@).push(popped@));
            assert(views_of(ops_before).drop_last() =~= views_of(operators@));
            assert(views_of(ops_before).last() == popped@);
        }
    }
    None
}

/// Moves operators to the output until a left parenthesis tops the stack and
/// discards that parenthesis, as [`pop_to_left_paren`] describes.
fn pop_paren_loop(tokens: &mut Tokens, operators: &mut Vec<Token>)
    ensures
        (views_of(final(operators)@), final(tokens)@) == pop_to_left_paren(
            views_of(old(operators)@),
            old(tokens)@,
        ),
{
    loop
        invariant_except_break
            pop_to_left_paren(views_of(operators@), tokens@) == pop_to_left_paren(
                views_of(old(operators)@),
                old(tokens)@,
            ),
        ensures
            pop_to_left_paren(views_of(old(operators)@), old(tokens)@) == (
                views_of(operators@),
                tokens@,
            ),
        decreases operators@.len(),
    {
        let l = operators.len();
        if l == 0 {
            break;
        }
        let is_left = matches!(&operators[l - 1], Token::LeftParenthesis);
        let ghost ops_before = operators@;
        if is_left {
            operators.pop();
            proof {
                assert(ops_before.drop_last() =~= operators@);
                assert(views_of(ops_before).drop_last() =~= views_of(operators@));
                assert(views_of(ops_before).last() is LeftParenthesis);
            }
            break;
        }
        let popped = operators.pop().unwrap();
        tokens.push(popped);
        proof {
            assert(ops_before =~= operators@.push(popped));
            assert(views_of(ops_before) =~= views_of(operators@).push(popped@));
            assert(views_of(ops_before).drop_last() =~= views_of(operators@));
            assert(views_of(ops_before).last() == popped@);
        }
    }
}

/// Flushes the whole operator stack to the output in stack order.
fn drain_loop(tokens: &mut Tokens, operators: &mut Vec<Token>)
    ensures
        final(operators)@.len() == 0,
        final(tokens)@ == old(tokens)@ + views_of(old(operators)@).reverse(),
{
    loop
        invariant
            tokens@ + views_of(operators@).reverse() == old(tokens)@ + views_of(
                old(operators)@,
            ).reverse(),
        ensures
            operators@.len() == 0,
            tokens@ + views_of(operators@).reverse() == old(tokens)@ + views_of(
                old(operators)@,
            ).reverse(),
        decreases operators@.len(),
    {
        let ghost ops_before = operators@;
        let ghost out_before = tokens@;
        match operators.pop() {
            Some(t) => {
                tokens.push(t);
                proof {
                    assert(ops_before =~= operators@.push(t));
                    assert(views_of(ops_before) =~= views_of(operators@).push(t@));
                    assert(tokens@ + views_of(operators@).reverse() =~= out_before + views_of(
                        ops_before,
                    ).reverse());
                }
            },
            None => {
                break;
            },
        }
    }
    proof {
        assert(views_of(operators@).reverse() =~= Seq::<TokenModel>::empty());
        assert(tokens@ =~= tokens@ + views_of(operators@).reverse());
    }
}

/// A shunting-yard parser over one token stream.
pub struct Parser {
    pub stream: TokenIterator,
}

impl Parser {
    /// A parser that will consume `stream`.
    pub fn new(stream: TokenIterator) -> (r: Parser)
        ensures
            r.stream == stream,
    {
        Parser { stream }
    }

    /// Consumes the whole stream and returns the expression in postfix
    /// order, exactly as [`spec_parse`] describes: grammatical legality is
    /// tracked token by token, unary signs are desugared, precedence is
    /// resolved over the operator stack, parentheses must balance, and a
    /// lexical fault is propagated once the stream is drained.
    pub fn intermediate(&mut self) -> (r: Result<Tokens, Error>)
        requires
            old(self).stream.wf(),
        ensures
            final(self).stream.wf(),
            match r {
                Ok(tokens) => spec_parse(old(self).stream@) == Ok::<Seq<TokenModel>, ErrorModel>(
                    tokens@,
                ),
                Err(e) => spec_parse(old(self).stream@) == Err::<Seq<TokenModel>, ErrorModel>(e@),
            },
    {
        let mut tokens = Tokens::new();
        let mut operators: Vec<Token> = Vec::new();
        let mut parenthesis_depth: usize = 0;
        let mut expected = value_start_expected();
        proof {
            assert(views_of(operators@) =~= Seq::<TokenModel>::empty());
            assert((ParseState {
                output: tokens@,
                operators: views_of(operators@),
                depth: parenthesis_depth as int,
                expected,
            }) == initial_state());
        }
        loop
            invariant
                self.stream.wf(),
                self.stream@.pos >= old(self).stream@.pos,
                parenthesis_depth as int <= self.stream@.pos - old(self).stream@.pos,
                ({
                    let st = ParseState {
                        output: tokens@,
                        operators: views_of(operators@),
                        depth: parenthesis_depth as int,
                        expected,
                    };
                    (match run_steps(st, stream_tokens(self.stream@)) {
                        Ok(st2) => parse_finish(st2, stream_error(self.stream@)),
                        Err(e) => Err(e),
                    }) == spec_parse(old(self).stream@)
                }),
            decreases self.stream@.chars.len() - self.stream@.pos,
        {
            let ghost cur0 = self.stream@;
            let ghost st0 = ParseState {
                output: tokens@,
                operators: views_of(operators@),
                depth: parenthesis_depth as int,
                expected,
            };
            let t_opt = self.stream.next();
            match t_opt {
                None => {
                    proof {
                        lemma_state_bits(cur0.state);
                        assert(stream_tokens(cur0) =~= Seq::<TokenModel>::empty());
                        assert(run_steps(st0, stream_tokens(cur0)) == Ok::<
                            ParseState,
                            ErrorModel,
                        >(st0));
                        assert(parse_finish(st0, stream_error(cur0)) == spec_parse(
                            old(self).stream@,
                        ));
                    }
                    match self.stream.get_error() {
                        Some(err) => {
                            let message = err.clone();
                            return Err(Error::new(ErrorCode::LexerError, message));
                        },
                        None => {},
                    }
                    if parenthesis_depth != 0 {
                        return Err(
                            Error::new(
                                ErrorCode::MalformedExpression,
                                "Missing right parenthesis.".to_owned(),
                            ),
                        );
                    }
                    drain_loop(&mut tokens, &mut operators);
                    proof {
                        assert(tokens@ == drain(st0));
                    }
                    return Ok(tokens);
                },
                Some(token) => {
                    proof {
                        lemma_scan_bounds(cur0.chars, cur0.pos, cur0.radix);
                        assert(stream_tokens(cur0) =~= seq![token@] + stream_tokens(
                            self.stream@,
                        ));
                        assert(stream_error(cur0) == stream_error(self.stream@));
                        assert(stream_tokens(cur0)[0] == token@);
                        assert(stream_tokens(cur0).subrange(
                            1,
                            stream_tokens(cur0).len() as int,
                        ) =~= stream_tokens(self.stream@));
                        assert(run_steps(st0, stream_tokens(cur0)) == (match parse_step(
                            st0,
                            token@,
                        ) {
                            Ok(st2) => run_steps(st2, stream_tokens(self.stream@)),
                            Err(e) => Err(e),
                        }));
                    }
                    match token {
                        Token::Identifier(_) => {
                            if !expected.identifier {
                                let msg = expected_message(expected, "identifier");
                                return Err(Error::new(ErrorCode::MalformedExpression, msg));
                            }
                            expected = after_value_expected();
                            tokens.push(token);
                        },
                        Token::Number(_) => {
                            if !expected.number {
                                let msg = expected_message(expected, "number");
                                return Err(Error::new(ErrorCode::MalformedExpression, msg));
                            }
                            expected = after_value_expected();
                            tokens.push(token);
                        },
                        Token::Operator(op) => {
                            if (matches!(op.code, OpCode::Addition) && expected.unary_plus) || (
                            matches!(op.code, OpCode::Subtraction) && expected.unary_minus) {
                                let negative = matches!(op.code, OpCode::Subtraction);
                                tokens.push(
                                    Token::Number(
                                        Scalar::Literal(
                                            Numeral { negative, mantissa: 1, scale: 0 },
                                        ),
                                    ),
                                );
                                operators.push(Token::Operator(Operator::of(
                                    OpCode::Multiplication,
                                )));
                                expected = value_start_expected();
                                proof {
                                    assert(views_of(operators@) =~= st0.operators.push(
                                        TokenModel::Operator(
                                            operator_descriptor(OpCode::Multiplication),
                                        ),
                                    ));
                                }
                            } else {
                                let legal = if is_arithmetic_code(op.code) {
                                    expected.arithmetic_operator
                                } else {
                                    expected.assignment_operator
                                };
                                if !legal {
                                    let msg = expected_message(expected, found_label(op.code));
                                    return Err(Error::new(ErrorCode::MalformedExpression, msg));
                                }
                                expected = value_start_expected();
                                match resolve_loop(&mut tokens, &mut operators, op) {
                                    Some(e) => {
                                        return Err(e);
                                    },
                                    None => {},
                                }
                                operators.push(Token::Operator(op));
                                proof {
                                    let resolved = resolve_precedence(
                                        st0.operators,
                                        st0.output,
                                        op,
                                    );
                                    assert(views_of(operators@) =~= resolved->Ok_0.0.push(
                                        TokenModel::Operator(op),
                                    ));
                                }
                            }
                        },
                        Token::LeftParenthesis => {
                            if !expected.left_parenthesis {
                                let msg = expected_message(expected, "left-parenthesis");
                                return Err(Error::new(ErrorCode::MalformedExpression, msg));
                            }
                            parenthesis_depth = parenthesis_depth + 1;
                            expected = value_start_expected();
                            operators.push(token);
                            proof {
                                assert(views_of(operators@) =~= st0.operators.push(
                                    TokenModel::LeftParenthesis,
                                ));
                            }
                        },
                        Token::RightParenthesis => {
                            if parenthesis_depth == 0 {
                                return Err(
                                    Error::new(
                                        ErrorCode::MalformedExpression,
                                        "Dangling right parenthesis.".to_owned(),
                                    ),
                                );
                            }
                            parenthesis_depth = parenthesis_depth - 1;
                            pop_paren_loop(&mut tokens, &mut operators);
                        },
                    }
                },
            }
        }
    }
}

} // verus!

verus! {

/// The number of unmatched left parentheses among the first `k` tokens: left
/// parentheses count one up, right parentheses one down.
pub open spec fn balance(ts: Seq<TokenModel>, k: int) -> int
    decreases k,
{
    if k <= 0 {
        0
    } else {
        balance(ts, k - 1) + (match ts[k - 1] {
            TokenModel::LeftParenthesis => 1int,
            TokenModel::RightParenthesis => -1int,
            _ => 0int,
        })
    }
}

proof fn lemma_run_steps_snoc(st: ParseState, a: Seq<TokenModel>, x: TokenModel)
    ensures
        run_steps(st, a.push(x)) == (match run_steps(st, a) {
            Ok(m) => parse_step(m, x),
            Err(e) => Err(e),
        }),
    decreases a.len(),
{
    let ts = a.push(x);
    assert(ts.len() == a.len() + 1);
    if a.len() == 0 {
        assert(ts[0] == x);
        assert(ts.subrange(1, ts.len() as int) =~= Seq::<TokenModel>::empty());
        assert(run_steps(st, a) == Ok::<ParseState, ErrorModel>(st));
        match parse_step(st, x) {
            Ok(st2) => {
                assert(run_steps(st2, ts.subrange(1, ts.len() as int)) == Ok::<
                    ParseState,
                    ErrorModel,
                >(st2));
            },
            Err(_) => {},
        }
    } else {
        assert(ts[0] == a[0]);
        assert(ts.subrange(1, ts.len() as int) =~= a.subrange(1, a.len() as int).push(x));
        match parse_step(st, a[0]) {
            Ok(st2) => {
                lemma_run_steps_snoc(st2, a.subrange(1, a.len() as int), x);
            },
            Err(_) => {},
        }
    }
}

proof fn lemma_run_steps_err_app(st: ParseState, a: Seq<TokenModel>, b: Seq<TokenModel>)
    requires
        run_steps(st, a) is Err,
    ensures
        run_steps(st, a + b) == run_steps(st, a),
    decreases a.len(),
{
    assert(a.len() > 0);
    assert((a + b)[0] == a[0]);
    match parse_step(st, a[0]) {
        Ok(st2) => {
            lemma_run_steps_err_app(st2, a.subrange(1, a.len() as int), b);
            assert((a + b).subrange(1, (a + b).len() as int) =~= a.subrange(1, a.len() as int)
                + b);
        },
        Err(_) => {},
    }
}

/// Law: as long as the parse has not failed, the parser's parenthesis depth
/// equals the number of unmatched left parentheses among the consumed
/// tokens, and that number is never negative.
pub proof fn lemma_parser_depth(ts: Seq<TokenModel>, k: int)
    requires
        0 <= k <= ts.len(),
        run_steps(initial_state(), ts.take(k)) is Ok,
    ensures
        run_steps(initial_state(), ts.take(k))->Ok_0.depth == balance(ts, k),
        balance(ts, k) >= 0,
    decreases k,
{
    if k > 0 {
        assert(ts.take(k) =~= ts.take(k - 1).push(ts[k - 1]));
        lemma_run_steps_snoc(initial_state(), ts.take(k - 1), ts[k - 1]);
        lemma_parser_depth(ts, k - 1);
    }
}

/// Law: a right parenthesis is accepted only where an unmatched left
/// parenthesis stands before it.
pub proof fn lemma_right_parenthesis_matched(ts: Seq<TokenModel>, k: int)
    requires
        0 <= k < ts.len(),
        ts[k] is RightParenthesis,
        run_steps(initial_state(), ts.take(k + 1)) is Ok,
    ensures
        balance(ts, k) >= 1,
{
    assert(ts.take(k + 1) =~= ts.take(k).push(ts[k]));
    lemma_run_steps_snoc(initial_state(), ts.take(k), ts[k]);
    lemma_parser_depth(ts, k);
}

/// Law: where a right parenthesis arrives with no unmatched left parenthesis
/// before it (and the parse has not already failed), the whole parse fails
/// with `MalformedExpression` and the message "Dangling right parenthesis.".
pub proof fn lemma_dangling_right_parenthesis(m: LexerModel, k: int)
    requires
        0 <= k < stream_tokens(m).len(),
        stream_tokens(m)[k] is RightParenthesis,
        balance(stream_tokens(m), k) == 0,
        run_steps(initial_state(), stream_tokens(m).take(k)) is Ok,
    ensures
        spec_parse(m) == Err::<Seq<TokenModel>, ErrorModel>(malformed(msg_dangling_paren())),
{
    let ts = stream_tokens(m);
    lemma_parser_depth(ts, k);
    assert(ts.take(k + 1) =~= ts.take(k).push(ts[k]));
    lemma_run_steps_snoc(initial_state(), ts.take(k), ts[k]);
    assert(run_steps(initial_state(), ts.take(k + 1)) == Err::<ParseState, ErrorModel>(
        malformed(msg_dangling_paren()),
    ));
    lemma_run_steps_err_app(initial_state(), ts.take(k + 1), ts.skip(k + 1));
    assert(ts =~= ts.take(k + 1) + ts.skip(k + 1));
}

} // verus!

verus! {

/// Whether `first` wins over `second` when both are binary: it binds
/// strictly tighter, or equally tight with `second` grouping from the left.
pub open spec fn binds_first(first: Operator, second: Operator) -> bool {
    first.precedence < second.precedence || (first.precedence == second.precedence
        && second.associativity == Associativity::Left)
}

/// Law: for any three values and any two arithmetic operators of the table,
/// the parse of `x o1 y o2 z` succeeds, and its postfix output groups
/// `(x o1 y) o2 z` exactly when `o1` binds first by precedence and
/// associativity, and `x o1 (y o2 z)` otherwise.
pub proof fn lemma_pairwise_precedence(
    x: TokenModel,
    y: TokenModel,
    z: TokenModel,
    c1: OpCode,
    c2: OpCode,
)
    requires
        x is Identifier || x is Number,
        y is Identifier || y is Number,
        z is Identifier || z is Number,
        is_arithmetic(c1),
        is_arithmetic(c2),
    ensures
        ({
            let d1 = operator_descriptor(c1);
            let d2 = operator_descriptor(c2);
            let ts = seq![
                x,
                TokenModel::Operator(d1),
                y,
                TokenModel::Operator(d2),
                z,
            ];
            let r = run_steps(initial_state(), ts);
            &&& r is Ok
            &&& r->Ok_0.depth == 0
            &&& drain(r->Ok_0) == (if binds_first(d1, d2) {
                seq![x, y, TokenModel::Operator(d1), z, TokenModel::Operator(d2)]
            } else {
                seq![x, y, z, TokenModel::Operator(d2), TokenModel::Operator(d1)]
            })
        }),
{
    reveal_with_fuel(run_steps, 7);
    reveal_with_fuel(resolve_precedence, 4);
    let d1 = operator_descriptor(c1);
    let d2 = operator_descriptor(c2);
    let ts = seq![x, TokenModel::Operator(d1), y, TokenModel::Operator(d2), z];
    assert(ts.subrange(1, 5) =~= seq![TokenModel::Operator(d1), y, TokenModel::Operator(d2), z]);
    assert(seq![TokenModel::Operator(d1), y, TokenModel::Operator(d2), z].subrange(1, 4) =~= seq![
        y,
        TokenModel::Operator(d2),
        z,
    ]);
    assert(seq![y, TokenModel::Operator(d2), z].subrange(1, 3) =~= seq![
        TokenModel::Operator(d2),
        z,
    ]);
    assert(seq![TokenModel::Operator(d2), z].subrange(1, 2) =~= seq![z]);
    assert(seq![z].subrange(1, 1) =~= Seq::<TokenModel>::empty());
    let st1 = parse_step(initial_state(), x)->Ok_0;
    let st2 = parse_step(st1, TokenModel::Operator(d1))->Ok_0;
    assert(st2.operators =~= seq![TokenModel::Operator(d1)]);
    let st3 = parse_step(st2, y)->Ok_0;
    let st4 = parse_step(st3, TokenModel::Operator(d2))->Ok_0;
    if binds_first(d1, d2) {
        assert(st3.operators.drop_last() =~= Seq::<TokenModel>::empty());
        assert(st4.operators =~= seq![TokenModel::Operator(d2)]);
    } else {
        assert(st4.operators =~= seq![TokenModel::Operator(d1), TokenModel::Operator(d2)]);
    }
    let st5 = parse_step(st4, z)->Ok_0;
    let r = run_steps(initial_state(), ts);
    assert(r == Ok::<ParseState, ErrorModel>(st5));
    if binds_first(d1, d2) {
        assert(drain(st5) =~= seq![x, y, TokenModel::Operator(d1), z, TokenModel::Operator(d2)]);
    } else {
        assert(drain(st5) =~= seq![x, y, z, TokenModel::Operator(d2), TokenModel::Operator(d1)]);
    }
}

} // verus!

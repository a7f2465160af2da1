//! Tokens, operators and token sequences.

use vstd::prelude::*;
use vstd::string::StrSliceExecFns;
use vstd::string::StringExecFns;

verus! {

/// Whether operators of equal precedence group from the left or the right.
#[derive(Clone, Copy, Debug, PartialEq, Eq, Structural)]
pub enum Associativity {
    Left,
    Right,
}

/// The twelve operators of the language.
#[derive(Clone, Copy, Debug, PartialEq, Eq, Structural)]
pub enum OpCode {
    Addition,
    Subtraction,
    Multiplication,
    Division,
    Remainder,
    Power,
    Assignment,
    AdditionAssignment,
    SubtractionAssignment,
    MultiplicationAssignment,
    DivisionAssignment,
    RemainderAssignment,
}

/// An operator descriptor: which operator it is, how tightly it binds
/// (a numerically lower precedence binds tighter) and how it groups.
#[derive(Clone, Copy, Debug, PartialEq, Eq, Structural)]
pub struct Operator {
    pub code: OpCode,
    pub precedence: u8,
    pub associativity: Associativity,
}

/// The fixed descriptor table: `^` binds tightest (precedence 0, right
/// associative), then `*` `/` `%` (1, left), then `+` `-` (2, left), and the
/// assignment family binds loosest (3, right associative).
pub open spec fn operator_descriptor(code: OpCode) -> Operator {
    match code {
        OpCode::Addition => Operator {
            code,
            precedence: 2,
            associativity: Associativity::Left,
        },
        OpCode::Subtraction => Operator {
            code,
            precedence: 2,
            associativity: Associativity::Left,
        },
        OpCode::Multiplication => Operator {
            code,
            precedence: 1,
            associativity: Associativity::Left,
        },
        OpCode::Division => Operator {
            code,
            precedence: 1,
            associativity: Associativity::Left,
        },
        OpCode::Remainder => Operator {
            code,
            precedence: 1,
            associativity: Associativity::Left,
        },
        OpCode::Power => Operator {
            code,
            precedence: 0,
            associativity: Associativity::Right,
        },
        OpCode::Assignment => Operator {
            code,
            precedence: 3,
            associativity: Associativity::Right,
        },
        OpCode::AdditionAssignment => Operator {
            code,
            precedence: 3,
            associativity: Associativity::Right,
        },
        OpCode::SubtractionAssignment => Operator {
            code,
            precedence: 3,
            associativity: Associativity::Right,
        },
        OpCode::MultiplicationAssignment => Operator {
            code,
            precedence: 3,
            associativity: Associativity::Right,
        },
        OpCode::DivisionAssignment => Operator {
            code,
            precedence: 3,
            associativity: Associativity::Right,
        },
        OpCode::RemainderAssignment => Operator {
            code,
            precedence: 3,
            associativity: Associativity::Right,
        },
    }
}

/// The printed symbol of each operator.
pub open spec fn symbol_spec(code: OpCode) -> Seq<char> {
    match code {
        OpCode::Addition => "+"@,
        OpCode::Subtraction => "-"@,
        OpCode::Multiplication => "*"@,
        OpCode::Division => "/"@,
        OpCode::Remainder => "%"@,
        OpCode::Power => "^"@,
        OpCode::Assignment => "="@,
        OpCode::AdditionAssignment => "+="@,
        OpCode::SubtractionAssignment => "-="@,
        OpCode::MultiplicationAssignment => "*="@,
        OpCode::DivisionAssignment => "/="@,
        OpCode::RemainderAssignment => "%="@,
    }
}

impl Operator {
    /// The descriptor of `code`, as the table gives it.
    pub fn of(code: OpCode) -> (r: Operator)
        ensures
            r == operator_descriptor(code),
    {
        match code {
            OpCode::Addition => Operator {
                code,
                precedence: 2,
                associativity: Associativity::Left,
            },
            OpCode::Subtraction => Operator {
                code,
                precedence: 2,
                associativity: Associativity::Left,
            },
            OpCode::Multiplication => Operator {
                code,
                precedence: 1,
                associativity: Associativity::Left,
            },
            OpCode::Division => Operator {
                code,
                precedence: 1,
                associativity: Associativity::Left,
            },
            OpCode::Remainder => Operator {
                code,
                precedence: 1,
                associativity: Associativity::Left,
            },
            OpCode::Power => Operator {
                code,
                precedence: 0,
                associativity: Associativity::Right,
            },
            OpCode::Assignment => Operator {
                code,
                precedence: 3,
                associativity: Associativity::Right,
            },
            OpCode::AdditionAssignment => Operator {
                code,
                precedence: 3,
                associativity: Associativity::Right,
            },
            OpCode::SubtractionAssignment => Operator {
                code,
                precedence: 3,
                associativity: Associativity::Right,
            },
            OpCode::MultiplicationAssignment => Operator {
                code,
                precedence: 3,
                associativity: Associativity::Right,
            },
            OpCode::DivisionAssignment => Operator {
                code,
                precedence: 3,
                associativity: Associativity::Right,
            },
            OpCode::RemainderAssignment => Operator {
                code,
                precedence: 3,
                associativity: Associativity::Right,
            },
        }
    }

    /// The operator's printed symbol.
    pub fn symbol(&self) -> (r: &'static str)
        ensures
            r@ == symbol_spec(self.code),
    {
        match self.code {
            OpCode::Addition => "+",
            OpCode::Subtraction => "-",
            OpCode::Multiplication => "*",
            OpCode::Division => "/",
            OpCode::Remainder => "%",
            OpCode::Power => "^",
            OpCode::Assignment => "=",
            OpCode::AdditionAssignment => "+=",
            OpCode::SubtractionAssignment => "-=",
            OpCode::MultiplicationAssignment => "*=",
            OpCode::DivisionAssignment => "/=",
            OpCode::RemainderAssignment => "%=",
        }
    }
}

/// A numeric literal exactly as scanned: its value is
/// `(-1)^negative * mantissa / 10^scale`.
///
/// The lexer only ever emits `negative == false` and, for a radix other than
/// ten, `scale == 0`; the parser synthesizes `-1` (and `1`) while desugaring
/// unary minus (and plus).
#[derive(Clone, Copy, Debug, PartialEq, Eq, Structural)]
pub struct Numeral {
    pub negative: bool,
    pub mantissa: u64,
    pub scale: usize,
}

/// The payload of a number token.
///
/// `Literal` is a numeral as scanned.  `Word` is an IEEE-754 binary64 bit
/// pattern: the embedding program encodes literals into words before
/// evaluation and computes every arithmetic operation on them; this library
/// treats a word as opaque except for the test for a zero value.
#[derive(Clone, Copy, Debug, PartialEq, Eq, Structural)]
pub enum Scalar {
    Literal(Numeral),
    Word(u64),
}

/// One token of the language.
#[derive(Debug, PartialEq, Eq)]
pub enum Token {
    Identifier(String),
    Number(Scalar),
    Operator(Operator),
    LeftParenthesis,
    RightParenthesis,
}

/// The mathematical image of a [`Token`]: identifier names become character
/// sequences.
pub enum TokenModel {
    Identifier(Seq<char>),
    Number(Scalar),
    Operator(Operator),
    LeftParenthesis,
    RightParenthesis,
}

impl View for Token {
    type V = TokenModel;

    open spec fn view(&self) -> TokenModel {
        match self {
            Token::Identifier(name) => TokenModel::Identifier(name@),
            Token::Number(s) => TokenModel::Number(*s),
            Token::Operator(op) => TokenModel::Operator(*op),
            Token::LeftParenthesis => TokenModel::LeftParenthesis,
            Token::RightParenthesis => TokenModel::RightParenthesis,
        }
    }
}

impl Token {
    /// An owned copy of the token.
    pub fn duplicate(&self) -> (r: Token)
        ensures
            r@ == self@,
    {
        match self {
            Token::Identifier(name) => Token::Identifier(name.clone()),
            Token::Number(s) => Token::Number(*s),
            Token::Operator(op) => Token::Operator(*op),
            Token::LeftParenthesis => Token::LeftParenthesis,
            Token::RightParenthesis => Token::RightParenthesis,
        }
    }
}

/// An ordered sequence of tokens; the parser fills one in postfix order and
/// the evaluator consumes it front to back.
#[derive(Debug, PartialEq, Eq)]
pub struct Tokens {
    pub raw: Vec<Token>,
}

impl View for Tokens {
    type V = Seq<TokenModel>;

    open spec fn view(&self) -> Seq<TokenModel> {
        self.raw@.map_values(|t: Token| t@)
    }
}

impl Tokens {
    /// An empty sequence.
    pub fn new() -> (r: Tokens)
        ensures
            r@ == Seq::<TokenModel>::empty(),
    {
        let r = Tokens { raw: Vec::new() };
        proof {
            assert(r@ =~= Seq::<TokenModel>::empty());
        }
        r
    }

    /// Appends `token` at the back.
    pub fn push(&mut self, token: Token)
        ensures
            final(self)@ == old(self)@.push(token@),
    {
        self.raw.push(token);
        proof {
            assert(self@ =~= old(self)@.push(token@));
        }
    }

    /// Removes and returns the last token, if any.
    pub fn pop(&mut self) -> (r: Option<Token>)
        ensures
            old(self)@.len() == 0 ==> r is None && final(self)@ == old(self)@,
            old(self)@.len() > 0 ==> r is Some && r->Some_0@ == old(self)@.last()
                && final(self)@ == old(self)@.drop_last(),
    {
        let r = self.raw.pop();
        proof {
            if old(self)@.len() > 0 {
                assert(self@ =~= old(self)@.drop_last());
            } else {
                assert(self@ =~= old(self)@);
            }
        }
        r
    }

    /// How many tokens the sequence holds.
    pub fn len(&self) -> (r: usize)
        ensures
            r == self@.len(),
    {
        self.raw.len()
    }

    /// A reference to the token at `index`.
    pub fn get(&self, index: usize) -> (r: &Token)
        requires
            index < self@.len(),
        ensures
            r@ == self@[index as int],
    {
        &self.raw[index]
    }
}

} // verus!

verus! {

/// `k` zero characters.
pub open spec fn zeros(k: int) -> Seq<char>
    decreases k,
{
    if k <= 0 {
        Seq::empty()
    } else {
        zeros(k - 1).push('0')
    }
}

/// A numeral written out in decimal: the mantissa's digits with a dot placed
/// `scale` digits from the right (zero-padded when the mantissa is shorter),
/// behind a minus sign when negative.
pub open spec fn numeral_text(n: Numeral) -> Seq<char> {
    let ds = crate::text::decimal_digits(n.mantissa as nat);
    let body = if n.scale == 0 {
        ds
    } else if (n.scale as int) < ds.len() {
        ds.subrange(0, ds.len() - n.scale) + seq!['.'] + ds.subrange(
            ds.len() - n.scale,
            ds.len() as int,
        )
    } else {
        seq!['0', '.'] + zeros(n.scale - ds.len()) + ds
    };
    if n.negative {
        seq!['-'] + body
    } else {
        body
    }
}

/// A number payload written out: a literal as a decimal numeral, a raw
/// 64-bit word as its decimal value behind a `#` marker.
pub open spec fn scalar_text(s: Scalar) -> Seq<char> {
    match s {
        Scalar::Literal(n) => numeral_text(n),
        Scalar::Word(w) => seq!['#'] + crate::text::decimal_digits(w as nat),
    }
}

/// One token written out.
pub open spec fn token_text(t: TokenModel) -> Seq<char> {
    match t {
        TokenModel::Identifier(name) => name,
        TokenModel::Number(s) => scalar_text(s),
        TokenModel::Operator(op) => symbol_spec(op.code),
        TokenModel::LeftParenthesis => "("@,
        TokenModel::RightParenthesis => ")"@,
    }
}

/// A token sequence written out: each token followed by one space.
pub open spec fn spec_render(ts: Seq<TokenModel>) -> Seq<char>
    decreases ts.len(),
{
    if ts.len() == 0 {
        Seq::empty()
    } else {
        spec_render(ts.drop_last()) + token_text(ts.last()) + " "@
    }
}

/// Appends the decimal rendering of `n` to `out`.
fn push_numeral(out: &mut String, n: Numeral)
    ensures
        final(out)@ == old(out)@ + numeral_text(n),
{
    if n.negative {
        out.push('-');
    }
    let mut ds = String::new();
    crate::text::push_decimal(&mut ds, n.mantissa);
    proof {
        assert(ds@ =~= crate::text::decimal_digits(n.mantissa as nat));
    }
    if n.scale == 0 {
        out.append(ds.as_str());
        proof {
            assert(out@ =~= old(out)@ + numeral_text(n));
        }
        return ;
    }
    let dl = ds.unicode_len();
    if n.scale < dl {
        let cut = dl - n.scale;
        out.append(ds.as_str().substring_char(0, cut));
        out.push('.');
        out.append(ds.as_str().substring_char(cut, dl));
        proof {
            assert(out@ =~= old(out)@ + numeral_text(n));
        }
    } else {
        out.push('0');
        out.push('.');
        let pad = n.scale - dl;
        let mut k: usize = 0;
        while k < pad
            invariant
                k <= pad,
                out@ == (if n.negative {
                    old(out)@ + seq!['-']
                } else {
                    old(out)@
                }) + seq!['0', '.'] + zeros(k as int),
            decreases pad - k,
        {
            out.push('0');
            k = k + 1;
            proof {
                assert(out@ =~= (if n.negative {
                    old(out)@ + seq!['-']
                } else {
                    old(out)@
                }) + seq!['0', '.'] + zeros(k as int));
            }
        }
        out.append(ds.as_str());
        proof {
            assert(out@ =~= old(out)@ + numeral_text(n));
        }
    }
}

/// Appends the rendering of a number payload to `out`.
fn push_scalar(out: &mut String, s: &Scalar)
    ensures
        final(out)@ == old(out)@ + scalar_text(*s),
{
    match s {
        Scalar::Literal(n) => {
            push_numeral(out, *n);
        },
        Scalar::Word(w) => {
            out.push('#');
            crate::text::push_decimal(out, *w);
            proof {
                assert(out@ =~= old(out)@ + scalar_text(*s));
            }
        },
    }
}

impl Tokens {
    /// Writes the sequence out, each token followed by one space: numbers as
    /// decimal numerals, operators as their symbols, identifiers and
    /// parentheses as themselves.
    pub fn render(&self) -> (r: String)
        ensures
            r@ == spec_render(self@),
    {
        let mut out = String::new();
        let mut i: usize = 0;
        let n = self.raw.len();
        proof {
            assert(out@ =~= spec_render(self@.take(0)));
        }
        while i < n
            invariant
                i <= n,
                n == self@.len(),
                out@ == spec_render(self@.take(i as int)),
            decreases n - i,
        {
            let ghost before = out@;
            match &self.raw[i] {
                Token::Identifier(name) => {
                    out.append(name.as_str());
                },
                Token::Number(s) => {
                    push_scalar(&mut out, s);
                },
                Token::Operator(op) => {
                    out.append(op.symbol());
                },
                Token::LeftParenthesis => {
                    out.append("(");
                },
                Token::RightParenthesis => {
                    out.append(")");
                },
            }
            out.append(" ");
            i = i + 1;
            proof {
                assert(self@.take(i as int).drop_last() =~= self@.take(i - 1));
                assert(self@.take(i as int).last() == self@[i - 1]);
                assert(out@ =~= before + token_text(self@[i - 1]) + " "@);
                assert(out@ =~= spec_render(self@.take(i as int)));
            }
        }
        proof {
            assert(self@.take(n as int) =~= self@);
        }
        out
    }
}

} // verus!

//! Lexical scanning: a source string and a radix become a stream of tokens.

use vstd::prelude::*;
use vstd::string::StrSliceExecFns;
use vstd::string::StringExecFns;

use crate::text::alphabetic_char;
use crate::text::alphanumeric_char;
use crate::text::digit_of;
use crate::text::is_digit_in;
use crate::text::to_digit_in;
use crate::token::Numeral;
use crate::token::OpCode;
use crate::token::Operator;
use crate::token::Scalar;
use crate::token::Token;
use crate::token::TokenModel;
use crate::token::operator_descriptor;

verus! {

/// State flag: scanning may continue.
pub const GOOD: u8 = 0b1;

/// State flag: a fatal lexical error occurred; scanning has stopped for good.
pub const BAD: u8 = 0b10;

/// State flag: the input was exhausted normally.
pub const END: u8 = 0b100;

/// The mathematical image of a [`TokenIterator`]: the characters of the
/// source, the cursor, the state flags, the stored error message and the
/// radix.
pub struct LexerModel {
    pub chars: Seq<char>,
    pub pos: int,
    pub state: u8,
    pub error: Seq<char>,
    pub radix: u32,
}

impl LexerModel {
    pub open spec fn good(self) -> bool {
        self.state & GOOD != 0
    }

    pub open spec fn bad(self) -> bool {
        self.state & BAD != 0
    }

    pub open spec fn end(self) -> bool {
        self.state & END != 0
    }
}

/// How the three state flags interact: they occupy distinct bits, recording a
/// fault sets [`BAD`] and clears [`GOOD`] without touching [`END`], and
/// recording exhaustion sets [`END`] without touching the other two.
pub proof fn lemma_state_bits(x: u8)
    ensures
        GOOD & BAD == 0,
        GOOD & END == 0,
        GOOD & GOOD != 0,
        ((x & !GOOD) | BAD) & BAD != 0,
        ((x & !GOOD) | BAD) & GOOD == 0,
        ((x & !GOOD) | BAD) & END == x & END,
        (x | END) & END != 0,
        (x | END) & BAD == x & BAD,
        (x | END) & GOOD == x & GOOD,
{
    assert(1u8 & 2 == 0) by (bit_vector);
    assert(1u8 & 4 == 0) by (bit_vector);
    assert(1u8 & 1 != 0) by (bit_vector);
    assert(((x & !1) | 2) & 2 != 0) by (bit_vector);
    assert(((x & !1) | 2) & 1 == 0) by (bit_vector);
    assert(((x & !1) | 2) & 4 == x & 4) by (bit_vector);
    assert((x | 4) & 4 != 0) by (bit_vector);
    assert((x | 4) & 2 == x & 2) by (bit_vector);
    assert((x | 4) & 1 == x & 1) by (bit_vector);
}

/// The outcome of one scan step: a token and the cursor after it, a fatal
/// error with its message and the cursor after it, or the end of the input.
pub enum Scan {
    Emit { token: TokenModel, next: int },
    Fail { message: Seq<char>, next: int },
    End,
}

pub open spec fn msg_ident_too_short() -> Seq<char> {
    "Variable name must be at least one character long."@
}

pub open spec fn msg_ident_bad_start(c: char) -> Seq<char> {
    "Variable name must start with a letter or underscore. Found '"@ + seq![c] + "'."@
}

pub open spec fn msg_invalid_char(c: char) -> Seq<char> {
    "Invalid character '"@ + seq![c] + "'."@
}

pub open spec fn msg_unhandled_char(c: char) -> Seq<char> {
    "Unhandled character '"@ + seq![c] + "'."@
}

pub open spec fn msg_unparsable(text: Seq<char>) -> Seq<char> {
    "Could not parse '"@ + text + "' to f64."@
}

/// Whether `c` may continue an identifier.
pub open spec fn ident_cont(c: char) -> bool {
    alphanumeric_char(c) || c == '_'
}

/// The first index at or after `i` whose character cannot continue an
/// identifier (or the end of the input).
pub open spec fn ident_end(s: Seq<char>, i: int) -> int
    decreases s.len() - i,
{
    if 0 <= i < s.len() && ident_cont(s[i]) {
        ident_end(s, i + 1)
    } else {
        i
    }
}

/// Whether `c` may continue a numeral scanned in `radix`.
pub open spec fn numeral_cont(c: char, radix: u32) -> bool {
    is_digit_in(c, radix) || (radix == 10 && c == '.')
}

/// The first index at or after `i` whose character cannot continue a numeral
/// (or the end of the input).
pub open spec fn numeral_end(s: Seq<char>, i: int, radix: u32) -> int
    decreases s.len() - i,
{
    if 0 <= i < s.len() && numeral_cont(s[i], radix) {
        numeral_end(s, i + 1, radix)
    } else {
        i
    }
}

/// What one left-to-right pass over a scanned numeral accumulates: how many
/// dots and digits were seen, the value of the digits read in the radix, and
/// how many digits followed the first dot.
pub struct NumRun {
    pub dots: nat,
    pub digits: nat,
    pub value: nat,
    pub scale: nat,
}

pub open spec fn num_step(run: NumRun, c: char, radix: u32) -> NumRun {
    if c == '.' {
        NumRun { dots: run.dots + 1, ..run }
    } else {
        NumRun {
            dots: run.dots,
            digits: run.digits + 1,
            value: (run.value * radix + digit_of(c)) as nat,
            scale: if run.dots > 0 {
                run.scale + 1
            } else {
                run.scale
            },
        }
    }
}

/// The accumulator after passing over `s[from .. to]`.
pub open spec fn num_run(s: Seq<char>, from: int, to: int, radix: u32) -> NumRun
    decreases to - from,
{
    if from >= to {
        NumRun { dots: 0, digits: 0, value: 0, scale: 0 }
    } else {
        num_step(num_run(s, from, to - 1, radix), s[to - 1], radix)
    }
}

/// Every character of a numeral is counted once, as a dot or as a digit, and
/// only digits after the first dot count towards the scale.
proof fn lemma_num_run_counts(s: Seq<char>, from: int, to: int, radix: u32)
    requires
        from <= to,
    ensures
        num_run(s, from, to, radix).dots + num_run(s, from, to, radix).digits == to - from,
        num_run(s, from, to, radix).scale <= num_run(s, from, to, radix).digits,
    decreases to - from,
{
    if from < to {
        lemma_num_run_counts(s, from, to - 1, radix);
    }
}

/// The arithmetic operator written as `c`.
pub open spec fn arithmetic_code(c: char) -> OpCode {
    if c == '+' {
        OpCode::Addition
    } else if c == '-' {
        OpCode::Subtraction
    } else if c == '*' {
        OpCode::Multiplication
    } else if c == '/' {
        OpCode::Division
    } else if c == '%' {
        OpCode::Remainder
    } else {
        OpCode::Power
    }
}

/// The compound-assignment operator written as `c` followed by `=`.
pub open spec fn compound_code(c: char) -> OpCode {
    if c == '+' {
        OpCode::AdditionAssignment
    } else if c == '-' {
        OpCode::SubtractionAssignment
    } else if c == '*' {
        OpCode::MultiplicationAssignment
    } else if c == '/' {
        OpCode::DivisionAssignment
    } else {
        OpCode::RemainderAssignment
    }
}

/// Scanning a numeral that starts at `pos` (whose first character is known to
/// continue a numeral): the greedily captured text is parsed exactly; a
/// decimal numeral fails on a second dot, on a text with no digit at all, or
/// on a mantissa beyond `u64::MAX`; a numeral in any other radix is an
/// integer and fails beyond `i64::MAX`.
pub open spec fn scan_number(s: Seq<char>, pos: int, radix: u32) -> Scan {
    let end = numeral_end(s, pos + 1, radix);
    let run = num_run(s, pos, end, radix);
    if radix == 10 {
        if run.dots >= 2 || run.digits == 0 || run.value > u64::MAX {
            Scan::Fail { message: msg_unparsable(s.subrange(pos, end)), next: end }
        } else {
            Scan::Emit {
                token: TokenModel::Number(
                    Scalar::Literal(
                        Numeral {
                            negative: false,
                            mantissa: run.value as u64,
                            scale: run.scale as usize,
                        },
                    ),
                ),
                next: end,
            }
        }
    } else {
        if run.value > 0x7fff_ffff_ffff_ffff {
            Scan::Fail { message: msg_unparsable(s.subrange(pos, end)), next: end }
        } else {
            Scan::Emit {
                token: TokenModel::Number(
                    Scalar::Literal(
                        Numeral { negative: false, mantissa: run.value as u64, scale: 0 },
                    ),
                ),
                next: end,
            }
        }
    }
}

/// Scanning an identifier whose `$` sits at `pos`: the next character must
/// exist and be a letter or `_`; the rest is captured greedily.
pub open spec fn scan_identifier(s: Seq<char>, pos: int) -> Scan {
    if pos + 1 >= s.len() {
        Scan::Fail { message: msg_ident_too_short(), next: pos + 1 }
    } else {
        let c = s[pos + 1];
        if alphabetic_char(c) || c == '_' {
            let end = ident_end(s, pos + 2);
            Scan::Emit { token: TokenModel::Identifier(s.subrange(pos, end)), next: end }
        } else {
            Scan::Fail { message: msg_ident_bad_start(c), next: pos + 1 }
        }
    }
}

/// One scan step from `pos`: spaces are skipped, then the first character
/// decides between identifier, parenthesis, operator, numeral and failure.
/// An operator character directly followed by `=` forms a compound
/// assignment, except `^`, which never combines with `=` and is a fatal
/// error there.
pub open spec fn scan(s: Seq<char>, pos: int, radix: u32) -> Scan
    decreases s.len() - pos,
{
    if pos < 0 || pos >= s.len() {
        Scan::End
    } else {
        let c = s[pos];
        if c == ' ' {
            scan(s, pos + 1, radix)
        } else if c == '$' {
            scan_identifier(s, pos)
        } else if c == '(' {
            Scan::Emit { token: TokenModel::LeftParenthesis, next: pos + 1 }
        } else if c == ')' {
            Scan::Emit { token: TokenModel::RightParenthesis, next: pos + 1 }
        } else if c == '=' {
            Scan::Emit {
                token: TokenModel::Operator(operator_descriptor(OpCode::Assignment)),
                next: pos + 1,
            }
        } else if c == '+' || c == '-' || c == '*' || c == '/' || c == '%' || c == '^' {
            if pos + 1 < s.len() && s[pos + 1] == '=' {
                if c == '^' {
                    Scan::Fail { message: msg_unhandled_char(c), next: pos + 1 }
                } else {
                    Scan::Emit {
                        token: TokenModel::Operator(operator_descriptor(compound_code(c))),
                        next: pos + 2,
                    }
                }
            } else {
                Scan::Emit {
                    token: TokenModel::Operator(operator_descriptor(arithmetic_code(c))),
                    next: pos + 1,
                }
            }
        } else if numeral_cont(c, radix) {
            scan_number(s, pos, radix)
        } else {
            Scan::Fail { message: msg_invalid_char(c), next: pos + 1 }
        }
    }
}

/// A lazy, finite, non-restartable stream of tokens over a source string.
///
/// The state starts [`GOOD`]; a fatal lexical fault clears [`GOOD`], sets
/// [`BAD`] and stores a message retrievable through
/// [`TokenIterator::get_error`]; normal exhaustion sets [`END`].  [`BAD`] and
/// [`END`] are terminal.
pub struct TokenIterator {
    pub chars: Vec<char>,
    pub pos: usize,
    pub state: u8,
    pub error: String,
    pub radix: u32,
}

impl View for TokenIterator {
    type V = LexerModel;

    open spec fn view(&self) -> LexerModel {
        LexerModel {
            chars: self.chars@,
            pos: self.pos as int,
            state: self.state,
            error: self.error@,
            radix: self.radix,
        }
    }
}

impl TokenIterator {
    /// The cursor is inside the input and the radix is one a numeral can be
    /// written in.
    pub open spec fn wf(&self) -> bool {
        self.pos <= self.chars@.len() && 2 <= self.radix <= 36
    }

    /// A fresh stream over `string`, scanning numerals in `radix`.
    pub fn new(string: &str, radix: u32) -> (r: TokenIterator)
        requires
            2 <= radix <= 36,
        ensures
            r.wf(),
            r@ == (LexerModel {
                chars: string@,
                pos: 0,
                state: GOOD,
                error: Seq::<char>::empty(),
                radix,
            }),
    {
        let n = string.unicode_len();
        let mut chars: Vec<char> = Vec::new();
        let mut i: usize = 0;
        while i < n
            invariant
                i <= n,
                n == string@.len(),
                chars@ == string@.subrange(0, i as int),
            decreases n - i,
        {
            let c = string.get_char(i);
            chars.push(c);
            proof {
                assert(chars@ =~= string@.subrange(0, i + 1 as int));
            }
            i = i + 1;
        }
        let error = String::new();
        proof {
            assert(chars@ =~= string@);
            assert(error@ =~= Seq::<char>::empty());
        }
        TokenIterator { chars, pos: 0, state: GOOD, error, radix }
    }

    /// Sets the state bits of `mask`.
    pub fn state(&mut self, mask: u8)
        ensures
            final(self)@ == (LexerModel { state: old(self)@.state | mask, ..old(self)@ }),
    {
        self.state = self.state | mask;
    }

    /// Clears the state bits of `mask`.
    pub fn clear(&mut self, mask: u8)
        ensures
            final(self)@ == (LexerModel { state: old(self)@.state & !mask, ..old(self)@ }),
    {
        self.state = self.state & !mask;
    }

    /// Whether scanning may continue.
    pub fn good(&self) -> (r: bool)
        ensures
            r == self@.good(),
    {
        self.state & GOOD != 0
    }

    /// Whether a fatal lexical error has occurred.
    pub fn bad(&self) -> (r: bool)
        ensures
            r == self@.bad(),
    {
        self.state & BAD != 0
    }

    /// Whether the input was exhausted normally.
    pub fn end(&self) -> (r: bool)
        ensures
            r == self@.end(),
    {
        self.state & END != 0
    }

    /// The stored error message, present exactly when the stream is bad.
    pub fn get_error(&self) -> (r: Option<&String>)
        ensures
            self@.bad() ==> r is Some && r->Some_0@ == self@.error,
            !self@.bad() ==> r is None,
    {
        if self.bad() {
            return Some(&self.error);
        }
        None
    }

    /// Records a fatal fault: moves the cursor to `next`, clears [`GOOD`],
    /// sets [`BAD`] and stores `message`.
    fn fail(&mut self, next: usize, message: String)
        requires
            old(self).wf(),
            next <= old(self).chars@.len(),
        ensures
            final(self).wf(),
            final(self)@ == (LexerModel {
                pos: next as int,
                state: (old(self)@.state & !GOOD) | BAD,
                error: message@,
                ..old(self)@
            }),
    {
        self.pos = next;
        self.state = self.state & !GOOD;
        self.state = self.state | BAD;
        self.error = message;
    }

    /// The next token of the stream.
    ///
    /// On a bad stream this returns `None` and changes nothing.  Otherwise it
    /// performs exactly the scan step [`scan`] describes: it returns the
    /// token and advances past it, or records the failure, or sets [`END`] on
    /// exhaustion.
    pub fn next(&mut self) -> (r: Option<Token>)
        requires
            old(self).wf(),
        ensures
            final(self).wf(),
            old(self)@.bad() ==> r is None && final(self)@ == old(self)@,
            !old(self)@.bad() ==> match scan(old(self)@.chars, old(self)@.pos, old(self)@.radix) {
                Scan::Emit { token, next } => r is Some && r->Some_0@ == token && final(self)@
                    == (LexerModel { pos: next, ..old(self)@ }),
                Scan::Fail { message, next } => r is None && final(self)@ == (LexerModel {
                    pos: next,
                    state: (old(self)@.state & !GOOD) | BAD,
                    error: message,
                    ..old(self)@
                }),
                Scan::End => r is None && final(self)@ == (LexerModel {
                    pos: old(self)@.chars.len() as int,
                    state: old(self)@.state | END,
                    ..old(self)@
                }),
            },
    {
        if self.bad() {
            return None;
        }
        // Skip spaces; the scan step from the cursor is unchanged by each
        // skipped space.
        while self.pos < self.chars.len() && self.chars[self.pos] == ' '
            invariant
                self.wf(),
                self.chars@ == old(self)@.chars,
                self.radix == old(self)@.radix,
                self.state == old(self)@.state,
                self.error@ == old(self)@.error,
                scan(self.chars@, self.pos as int, self.radix) == scan(
                    old(self)@.chars,
                    old(self)@.pos,
                    old(self)@.radix,
                ),
            decreases self.chars@.len() - self.pos,
        {
            self.pos = self.pos + 1;
        }
        if self.pos >= self.chars.len() {
            self.state = self.state | END;
            return None;
        }
        let ghost s = self.chars@;
        let ghost radix_g = self.radix;
        let start = self.pos;
        let c = self.chars[start];
        if c == '$' {
            self.scan_identifier_at(start)
        } else if c == '(' {
            self.pos = start + 1;
            Some(Token::LeftParenthesis)
        } else if c == ')' {
            self.pos = start + 1;
            Some(Token::RightParenthesis)
        } else if c == '=' {
            self.pos = start + 1;
            Some(Token::Operator(Operator::of(OpCode::Assignment)))
        } else if c == '+' || c == '-' || c == '*' || c == '/' || c == '%' || c == '^' {
            let has_eq = start + 1 < self.chars.len() && self.chars[start + 1] == '=';
            if has_eq {
                if c == '^' {
                    let mut msg = "Unhandled character '".to_owned();
                    msg.push(c);
                    msg.append("'.");
                    proof {
                        assert(msg@ =~= msg_unhandled_char(c));
                    }
                    self.fail(start + 1, msg);
                    None
                } else {
                    let code = if c == '+' {
                        OpCode::AdditionAssignment
                    } else if c == '-' {
                        OpCode::SubtractionAssignment
                    } else if c == '*' {
                        OpCode::MultiplicationAssignment
                    } else if c == '/' {
                        OpCode::DivisionAssignment
                    } else {
                        OpCode::RemainderAssignment
                    };
                    self.pos = start + 2;
                    Some(Token::Operator(Operator::of(code)))
                }
            } else {
                let code = if c == '+' {
                    OpCode::Addition
                } else if c == '-' {
                    OpCode::Subtraction
                } else if c == '*' {
                    OpCode::Multiplication
                } else if c == '/' {
                    OpCode::Division
                } else if c == '%' {
                    OpCode::Remainder
                } else {
                    OpCode::Power
                };
                self.pos = start + 1;
                Some(Token::Operator(Operator::of(code)))
            }
        } else {
            let is_digit = to_digit_in(c, self.radix).is_some();
            if is_digit || (self.radix == 10 && c == '.') {
                self.scan_number_at(start)
            } else {
                let mut msg = "Invalid character '".to_owned();
                msg.push(c);
                msg.append("'.");
                proof {
                    assert(msg@ =~= msg_invalid_char(c));
                }
                self.fail(start + 1, msg);
                None
            }
        }
    }

    /// Scans the identifier whose `$` sits at `start`, as
    /// [`scan_identifier`] describes.
    fn scan_identifier_at(&mut self, start: usize) -> (r: Option<Token>)
        requires
            old(self).wf(),
            start == old(self)@.pos,
            start < old(self)@.chars.len(),
            old(self)@.chars[start as int] == '$',
        ensures
            final(self).wf(),
            match scan_identifier(old(self)@.chars, start as int) {
                Scan::Emit { token, next } => r is Some && r->Some_0@ == token && final(self)@
                    == (LexerModel { pos: next, ..old(self)@ }),
                Scan::Fail { message, next } => r is None && final(self)@ == (LexerModel {
                    pos: next,
                    state: (old(self)@.state & !GOOD) | BAD,
                    error: message,
                    ..old(self)@
                }),
                Scan::End => false,
            },
    {
        let ghost s = self.chars@;
        let n = self.chars.len();
        if start + 1 >= n {
            let msg = "Variable name must be at least one character long.".to_owned();
            self.fail(start + 1, msg);
            return None;
        }
        let c2 = self.chars[start + 1];
        if !(c2.is_alphabetic() || c2 == '_') {
            let mut msg = "Variable name must start with a letter or underscore. Found '".to_owned();
            msg.push(c2);
            msg.append("'.");
            proof {
                assert(msg@ =~= msg_ident_bad_start(c2));
            }
            self.fail(start + 1, msg);
            return None;
        }
        let mut ident = String::new();
        ident.push('$');
        ident.push(c2);
        self.pos = start + 2;
        proof {
            assert(ident@ =~= s.subrange(start as int, start + 2 as int));
        }
        loop
            invariant
                self.wf(),
                self.chars@ == s,
                self.radix == old(self)@.radix,
                self.state == old(self)@.state,
                self.error@ == old(self)@.error,
                start + 2 <= self.pos <= s.len(),
                ident@ == s.subrange(start as int, self.pos as int),
                ident_end(s, self.pos as int) == ident_end(s, start + 2 as int),
            ensures
                self.wf(),
                self.chars@ == s,
                self.radix == old(self)@.radix,
                self.state == old(self)@.state,
                self.error@ == old(self)@.error,
                start + 2 <= self.pos <= s.len(),
                ident@ == s.subrange(start as int, self.pos as int),
                ident_end(s, self.pos as int) == ident_end(s, start + 2 as int),
                self.pos as int == s.len() || !ident_cont(s[self.pos as int]),
            decreases s.len() - self.pos,
        {
            if self.pos >= self.chars.len() {
                break;
            }
            let cc = self.chars[self.pos];
            if !(cc.is_alphanumeric() || cc == '_') {
                break;
            }
            ident.push(cc);
            self.pos = self.pos + 1;
            proof {
                assert(ident@ =~= s.subrange(start as int, self.pos as int));
            }
        }
        Some(Token::Identifier(ident))
    }

    /// Scans the numeral that starts at `start`, as [`scan_number`]
    /// describes.
    fn scan_number_at(&mut self, start: usize) -> (r: Option<Token>)
        requires
            old(self).wf(),
            start == old(self)@.pos,
            start < old(self)@.chars.len(),
            numeral_cont(old(self)@.chars[start as int], old(self)@.radix),
        ensures
            final(self).wf(),
            match scan_number(old(self)@.chars, start as int, old(self)@.radix) {
                Scan::Emit { token, next } => r is Some && r->Some_0@ == token && final(self)@
                    == (LexerModel { pos: next, ..old(self)@ }),
                Scan::Fail { message, next } => r is None && final(self)@ == (LexerModel {
                    pos: next,
                    state: (old(self)@.state & !GOOD) | BAD,
                    error: message,
                    ..old(self)@
                }),
                Scan::End => false,
            },
    {
        let ghost s = self.chars@;
        let ghost radix_g = self.radix;
        let n = self.chars.len();
        let mut text = String::new();
        let mut dots: usize = 0;
        let mut digits: usize = 0;
        let mut scale: usize = 0;
        let mut value: u64 = 0;
        let mut overflow: bool = false;
        let first = self.chars[start];
        self.consume_numeral_char(
            first,
            &mut text,
            &mut dots,
            &mut digits,
            &mut scale,
            &mut value,
            &mut overflow,
            Ghost(num_run(s, start as int, start as int, radix_g)),
        );
        self.pos = start + 1;
        proof {
            assert(text@ =~= s.subrange(start as int, start + 1 as int));
        }
        loop
            invariant
                self.wf(),
                self.chars@ == s,
                self.radix == radix_g,
                self.radix == old(self)@.radix,
                self.state == old(self)@.state,
                self.error@ == old(self)@.error,
                start + 1 <= self.pos <= s.len(),
                text@ == s.subrange(start as int, self.pos as int),
                numeral_end(s, self.pos as int, radix_g) == numeral_end(
                    s,
                    start + 1 as int,
                    radix_g,
                ),
                ({
                    let run = num_run(s, start as int, self.pos as int, radix_g);
                    dots == run.dots && digits == run.digits && scale == run.scale && (overflow
                        <==> run.value > u64::MAX) && (!overflow ==> value == run.value)
                }),
            ensures
                self.wf(),
                self.chars@ == s,
                self.radix == radix_g,
                self.radix == old(self)@.radix,
                self.state == old(self)@.state,
                self.error@ == old(self)@.error,
                start + 1 <= self.pos <= s.len(),
                text@ == s.subrange(start as int, self.pos as int),
                self.pos as int == numeral_end(s, start + 1 as int, radix_g),
                ({
                    let run = num_run(s, start as int, self.pos as int, radix_g);
                    dots == run.dots && digits == run.digits && scale == run.scale && (overflow
                        <==> run.value > u64::MAX) && (!overflow ==> value == run.value)
                }),
            decreases s.len() - self.pos,
        {
            if self.pos >= self.chars.len() {
                break;
            }
            let cc = self.chars[self.pos];
            let is_digit = to_digit_in(cc, self.radix).is_some();
            if !(is_digit || (self.radix == 10 && cc == '.')) {
                break;
            }
            proof {
                lemma_num_run_counts(s, start as int, self.pos as int, radix_g);
            }
            self.consume_numeral_char(
                cc,
                &mut text,
                &mut dots,
                &mut digits,
                &mut scale,
                &mut value,
                &mut overflow,
                Ghost(num_run(s, start as int, self.pos as int, radix_g)),
            );
            self.pos = self.pos + 1;
            proof {
                assert(text@ =~= s.subrange(start as int, self.pos as int));
            }
        }
        let end = self.pos;
        let failed = if self.radix == 10 {
            dots >= 2 || digits == 0 || overflow
        } else {
            overflow || value > 0x7fff_ffff_ffff_ffff
        };
        if failed {
            let mut msg = "Could not parse '".to_owned();
            msg.append(text.as_str());
            msg.append("' to f64.");
            proof {
                assert(msg@ =~= msg_unparsable(s.subrange(start as int, end as int)));
            }
            self.fail(end, msg);
            return None;
        }
        let result_scale: usize = if self.radix == 10 {
            scale
        } else {
            0
        };
        Some(Token::Number(Scalar::Literal(Numeral {
            negative: false,
            mantissa: value,
            scale: result_scale,
        })))
    }

    /// Folds one further character of a numeral into the accumulators, as
    /// [`num_step`] describes.
    fn consume_numeral_char(
        &self,
        c: char,
        text: &mut String,
        dots: &mut usize,
        digits: &mut usize,
        scale: &mut usize,
        value: &mut u64,
        overflow: &mut bool,
        run: Ghost<NumRun>,
    )
        requires
            self.wf(),
            numeral_cont(c, self.radix),
            *old(dots) == run@.dots,
            *old(digits) == run@.digits,
            *old(scale) == run@.scale,
            *old(overflow) <==> run@.value > u64::MAX,
            !*old(overflow) ==> *old(value) == run@.value,
            run@.dots + run@.digits < usize::MAX,
            run@.scale <= run@.digits,
        ensures
            ({
                let run2 = num_step(run@, c, self.radix);
                &&& *final(dots) == run2.dots
                &&& *final(digits) == run2.digits
                &&& *final(scale) == run2.scale
                &&& (*final(overflow) <==> run2.value > u64::MAX)
                &&& (!*final(overflow) ==> *final(value) == run2.value)
            }),
            final(text)@ == old(text)@.push(c),
    {
        text.push(c);
        if c == '.' {
            *dots = *dots + 1;
        } else {
            let d = to_digit_in(c, self.radix).unwrap();
            *digits = *digits + 1;
            if *dots > 0 {
                *scale = *scale + 1;
            }
            if !*overflow {
                let grown = (*value).checked_mul(self.radix as u64);
                match grown {
                    Some(g) => {
                        match g.checked_add(d as u64) {
                            Some(v2) => {
                                *value = v2;
                            },
                            None => {
                                *overflow = true;
                            },
                        }
                    },
                    None => {
                        *overflow = true;
                    },
                }
            }
            proof {
                let run2 = num_step(run@, c, self.radix);
                if run@.value > u64::MAX {
                    assert(run@.value * self.radix >= run@.value) by (nonlinear_arith)
                        requires
                            self.radix >= 1,
                            run@.value >= 0,
                    ;
                    assert(run2.value > u64::MAX);
                }
            }
        }
    }
}

} // verus!

verus! {

/// The base-`radix` integer value of a digit string, most significant digit
/// first.
pub open spec fn base_value(s: Seq<char>, radix: u32) -> nat
    decreases s.len(),
{
    if s.len() == 0 {
        0
    } else {
        (base_value(s.drop_last(), radix) * radix + digit_of(s.last())) as nat
    }
}

proof fn lemma_numeral_end_all(s: Seq<char>, i: int, radix: u32)
    requires
        0 <= i <= s.len(),
        forall|j: int| i <= j < s.len() ==> numeral_cont(s[j], radix),
    ensures
        numeral_end(s, i, radix) == s.len(),
    decreases s.len() - i,
{
    if i < s.len() {
        lemma_numeral_end_all(s, i + 1, radix);
    }
}

proof fn lemma_num_run_digits(s: Seq<char>, from: int, to: int, radix: u32)
    requires
        2 <= radix <= 36,
        0 <= from <= to <= s.len(),
        forall|j: int| from <= j < to ==> is_digit_in(s[j], radix),
    ensures
        num_run(s, from, to, radix) == (NumRun {
            dots: 0,
            digits: (to - from) as nat,
            value: base_value(s.subrange(from, to), radix),
            scale: 0,
        }),
    decreases to - from,
{
    if from < to {
        lemma_num_run_digits(s, from, to - 1, radix);
        let t = s.subrange(from, to);
        assert(t.drop_last() =~= s.subrange(from, to - 1));
        assert(t.last() == s[to - 1]);
    } else {
        assert(s.subrange(from, to) =~= Seq::<char>::empty());
    }
}

proof fn lemma_num_run_one_dot(s: Seq<char>, from: int, to: int, k: int, radix: u32)
    requires
        2 <= radix <= 36,
        0 <= from <= k < to <= s.len(),
        s[k] == '.',
        forall|j: int| from <= j < to && j != k ==> is_digit_in(s[j], radix),
    ensures
        num_run(s, from, to, radix) == (NumRun {
            dots: 1,
            digits: (to - from - 1) as nat,
            value: base_value(s.subrange(from, k) + s.subrange(k + 1, to), radix),
            scale: (to - k - 1) as nat,
        }),
    decreases to - from,
{
    let t = s.subrange(from, k) + s.subrange(k + 1, to);
    if to - 1 == k {
        lemma_num_run_digits(s, from, k, radix);
        assert(t =~= s.subrange(from, k));
    } else {
        lemma_num_run_one_dot(s, from, to - 1, k, radix);
        let t0 = s.subrange(from, k) + s.subrange(k + 1, to - 1);
        assert(t.drop_last() =~= t0);
        assert(t.last() == s[to - 1]);
    }
}

/// Law: scanning a non-empty string of digits of the radix yields exactly one
/// number token covering the whole input, whose mantissa is the base-`radix`
/// value of the digits and whose scale is zero, whenever that value is within
/// the range the lexer accepts (`u64::MAX` in radix ten, `i64::MAX`
/// otherwise).
pub proof fn lemma_lexes_digit_string(s: Seq<char>, radix: u32)
    requires
        2 <= radix <= 36,
        s.len() > 0,
        forall|i: int| 0 <= i < s.len() ==> is_digit_in(s[i], radix),
        radix == 10 ==> base_value(s, radix) <= u64::MAX,
        radix != 10 ==> base_value(s, radix) <= 0x7fff_ffff_ffff_ffff,
    ensures
        scan(s, 0, radix) == (Scan::Emit {
            token: TokenModel::Number(
                Scalar::Literal(
                    Numeral {
                        negative: false,
                        mantissa: base_value(s, radix) as u64,
                        scale: 0,
                    },
                ),
            ),
            next: s.len() as int,
        }),
{
    assert(is_digit_in(s[0], radix));
    lemma_numeral_end_all(s, 1, radix);
    lemma_num_run_digits(s, 0, s.len() as int, radix);
    assert(s.subrange(0, s.len() as int) =~= s);
}

/// Law: in radix ten a numeral may also contain one dot; scanning it yields
/// one number token whose mantissa is the decimal value of the digits with
/// the dot ignored and whose scale counts the digits after the dot, whenever
/// the mantissa fits `u64::MAX`.
pub proof fn lemma_lexes_decimal_string(s: Seq<char>, k: int)
    requires
        s.len() > 1,
        s.len() <= usize::MAX,
        0 <= k < s.len(),
        s[k] == '.',
        forall|i: int| 0 <= i < s.len() && i != k ==> is_digit_in(s[i], 10),
        base_value(s.subrange(0, k) + s.subrange(k + 1, s.len() as int), 10) <= u64::MAX,
    ensures
        scan(s, 0, 10) == (Scan::Emit {
            token: TokenModel::Number(
                Scalar::Literal(
                    Numeral {
                        negative: false,
                        mantissa: base_value(
                            s.subrange(0, k) + s.subrange(k + 1, s.len() as int),
                            10,
                        ) as u64,
                        scale: (s.len() - k - 1) as usize,
                    },
                ),
            ),
            next: s.len() as int,
        }),
{
    assert forall|j: int| 0 <= j < s.len() implies numeral_cont(s[j], 10) by {
        if j != k {
            assert(is_digit_in(s[j], 10));
        }
    }
    lemma_numeral_end_all(s, 1, 10);
    lemma_num_run_one_dot(s, 0, s.len() as int, k, 10);
}

} // verus!

verus! {

proof fn lemma_ident_end_bounds(s: Seq<char>, i: int)
    requires
        0 <= i <= s.len(),
    ensures
        i <= ident_end(s, i) <= s.len(),
    decreases s.len() - i,
{
    if i < s.len() && ident_cont(s[i]) {
        lemma_ident_end_bounds(s, i + 1);
    }
}

proof fn lemma_numeral_end_bounds(s: Seq<char>, i: int, radix: u32)
    requires
        0 <= i <= s.len(),
    ensures
        i <= numeral_end(s, i, radix) <= s.len(),
    decreases s.len() - i,
{
    if i < s.len() && numeral_cont(s[i], radix) {
        lemma_numeral_end_bounds(s, i + 1, radix);
    }
}

/// A scan step that produces a token or a fault always advances the cursor,
/// and never past the end of the input.
pub proof fn lemma_scan_bounds(s: Seq<char>, pos: int, radix: u32)
    requires
        0 <= pos <= s.len(),
    ensures
        match scan(s, pos, radix) {
            Scan::Emit { token, next } => pos < next <= s.len(),
            Scan::Fail { message, next } => pos < next <= s.len(),
            Scan::End => true,
        },
    decreases s.len() - pos,
{
    if pos < s.len() {
        let c = s[pos];
        if c == ' ' {
            lemma_scan_bounds(s, pos + 1, radix);
        } else if c == '$' {
            if pos + 1 < s.len() && (alphabetic_char(s[pos + 1]) || s[pos + 1] == '_') {
                lemma_ident_end_bounds(s, pos + 2);
            }
        } else if c == '(' || c == ')' || c == '=' || c == '+' || c == '-' || c == '*' || c == '/'
            || c == '%' || c == '^' {
        } else if numeral_cont(c, radix) {
            lemma_numeral_end_bounds(s, pos + 1, radix);
        }
    }
}

} // verus!

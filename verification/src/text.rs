//! Character classification and small text-building helpers.

use vstd::prelude::*;

verus! {

/// Whether `char::is_alphabetic` holds of `c`: a fixed property of the
/// character alone.
pub uninterp spec fn alphabetic_char(c: char) -> bool;

/// Whether `char::is_alphanumeric` holds of `c`: a fixed property of the
/// character alone.
pub uninterp spec fn alphanumeric_char(c: char) -> bool;

/// Relies on `char::is_alphabetic`: whether the character is a letter; the
/// answer depends on the character alone.
pub assume_specification[ char::is_alphabetic ](c: char) -> (r: bool)
    ensures
        r == alphabetic_char(c),
;

/// Relies on `char::is_alphanumeric`: whether the character is a letter or a
/// numeric character; the answer depends on the character alone.
pub assume_specification[ char::is_alphanumeric ](c: char) -> (r: bool)
    ensures
        r == alphanumeric_char(c),
;

/// Relies on `String::push`: appends the given character to the end of the
/// string.
pub assume_specification[ String::push ](s: &mut String, c: char)
    ensures
        final(s)@ == old(s)@.push(c),
;

/// The numeric value of `c` as a digit: `0`–`9` for the decimal digits,
/// `10`–`35` for the letters in either case, and an out-of-range marker
/// otherwise.
pub open spec fn digit_of(c: char) -> int {
    if ('0' as u32) <= (c as u32) && (c as u32) <= ('9' as u32) {
        (c as u32) - ('0' as u32)
    } else if ('a' as u32) <= (c as u32) && (c as u32) <= ('z' as u32) {
        (c as u32) - ('a' as u32) + 10
    } else if ('A' as u32) <= (c as u32) && (c as u32) <= ('Z' as u32) {
        (c as u32) - ('A' as u32) + 10
    } else {
        99
    }
}

/// Whether `c` is a digit of the given radix, exactly as `char::is_digit`
/// decides it for radices up to 36.
pub open spec fn is_digit_in(c: char, radix: u32) -> bool {
    digit_of(c) < radix
}

/// The digit value of `c` in `radix`, or `None` when `c` is no such digit.
pub fn to_digit_in(c: char, radix: u32) -> (r: Option<u32>)
    requires
        radix <= 36,
    ensures
        r is Some <==> is_digit_in(c, radix),
        r is Some ==> r->Some_0 == digit_of(c),
{
    let v = c as u32;
    let d: u32 = if v >= ('0' as u32) && v <= ('9' as u32) {
        v - ('0' as u32)
    } else if v >= ('a' as u32) && v <= ('z' as u32) {
        v - ('a' as u32) + 10
    } else if v >= ('A' as u32) && v <= ('Z' as u32) {
        v - ('A' as u32) + 10
    } else {
        return None;
    };
    if d < radix {
        Some(d)
    } else {
        None
    }
}

/// The character for the decimal digit `d`.
pub open spec fn digit_char(d: int) -> char {
    if d == 0 {
        '0'
    } else if d == 1 {
        '1'
    } else if d == 2 {
        '2'
    } else if d == 3 {
        '3'
    } else if d == 4 {
        '4'
    } else if d == 5 {
        '5'
    } else if d == 6 {
        '6'
    } else if d == 7 {
        '7'
    } else if d == 8 {
        '8'
    } else {
        '9'
    }
}

/// The decimal digits of `n`, most significant first.
pub open spec fn decimal_digits(n: nat) -> Seq<char>
    decreases n,
{
    if n < 10 {
        seq![digit_char(n as int)]
    } else {
        decimal_digits(n / 10).push(digit_char((n % 10) as int))
    }
}

/// Appends the decimal rendering of `n` to `out`.
pub fn push_decimal(out: &mut String, n: u64)
    ensures
        final(out)@ == old(out)@ + decimal_digits(n as nat),
    decreases n,
{
    if n >= 10 {
        push_decimal(out, n / 10);
    }
    let d = n % 10;
    let c: char = if d == 0 {
        '0'
    } else if d == 1 {
        '1'
    } else if d == 2 {
        '2'
    } else if d == 3 {
        '3'
    } else if d == 4 {
        '4'
    } else if d == 5 {
        '5'
    } else if d == 6 {
        '6'
    } else if d == 7 {
        '7'
    } else if d == 8 {
        '8'
    } else {
        '9'
    };
    out.push(c);
    proof {
        if n < 10 {
            assert(out@ =~= old(out)@ + decimal_digits(n as nat));
        } else {
            assert(out@ =~= old(out)@ + decimal_digits(n as nat));
        }
    }
}

} // verus!

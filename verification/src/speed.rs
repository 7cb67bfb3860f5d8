//! Spindle speeds: the accepted range, how a speed is read from user input
//! and how it is written into a command line.

use vstd::prelude::*;
use vstd::string::StringExecFns;
use crate::text::chars_of;

verus! {

/// The lowest speed a batch accepts, in revolutions per minute.
pub const MIN_SPEED: u32 = 1;

/// The highest speed a batch accepts, in revolutions per minute.
pub const MAX_SPEED: u32 = 24000;

/// Whether `speed` lies in the accepted range.
pub open spec fn is_valid_speed(speed: u32) -> bool {
    MIN_SPEED <= speed <= MAX_SPEED
}

/// The character that stands for the digit `d`.
pub open spec fn digit_char(d: nat) -> char
    recommends
        d < 10,
{
    (48 + d) as char
}

/// `n` written in decimal, without leading zeros.
pub open spec fn decimal(n: nat) -> Seq<char>
    decreases n,
{
    if n < 10 {
        seq![digit_char(n)]
    } else {
        decimal(n / 10).push(digit_char(n % 10))
    }
}

/// The command line that sets the spindle to `speed`: `S`, the speed in
/// decimal, a blank and `M3`.
pub open spec fn spindle_command(speed: u32) -> Seq<char> {
    seq!['S'] + decimal(speed as nat) + seq![' ', 'M', '3']
}

/// Whether `c` is one of the ten ASCII digits.
pub open spec fn is_digit(c: char) -> bool {
    48 <= c as u32 <= 57
}

/// The number a digit stands for.
pub open spec fn digit_value(c: char) -> nat {
    if is_digit(c) {
        (c as u32 - 48) as nat
    } else {
        0
    }
}

/// The number that a sequence of digits denotes in decimal.
pub open spec fn digits_value(digits: Seq<char>) -> nat
    decreases digits.len(),
{
    if digits.len() == 0 {
        0
    } else {
        digits_value(digits.drop_last()) * 10 + digit_value(digits.last())
    }
}

/// `input` without one leading plus sign.
pub open spec fn without_sign(input: Seq<char>) -> Seq<char> {
    if input.len() > 0 && input[0] == '+' {
        input.drop_first()
    } else {
        input
    }
}

/// Whether every character of `digits` is a digit.
pub open spec fn all_digits(digits: Seq<char>) -> bool {
    forall|i: int| 0 <= i < digits.len() ==> is_digit(#[trigger] digits[i])
}

/// The unsigned 32-bit number that `input` denotes: an optional plus sign
/// followed by at least one digit and nothing else, with a value that fits.
pub open spec fn parse_u32(input: Seq<char>) -> Option<u32> {
    let digits = without_sign(input);
    if digits.len() > 0 && all_digits(digits) && digits_value(digits) <= u32::MAX {
        Some(digits_value(digits) as u32)
    } else {
        None
    }
}

/// The value of a prefix of a digit sequence is at most the value of the whole.
pub proof fn lemma_digits_value_prefix(digits: Seq<char>, k: int)
    requires
        0 <= k <= digits.len(),
    ensures
        digits_value(digits.take(k)) <= digits_value(digits),
    decreases digits.len() - k,
{
    if k == digits.len() {
        assert(digits.take(k) =~= digits);
    } else {
        let shorter = digits.drop_last();
        assert(shorter.take(k) =~= digits.take(k));
        lemma_digits_value_prefix(shorter, k);
    }
}

/// A number written in decimal reads back as itself.
pub proof fn lemma_parse_decimal(n: u32)
    ensures
        parse_u32(decimal(n as nat)) == Some(n),
{
    lemma_decimal_value(n as nat);
}

/// The digits of a number written in decimal are digits, the first of them
/// is no sign, and their value is the number.
pub proof fn lemma_decimal_value(n: nat)
    ensures
        decimal(n).len() > 0,
        all_digits(decimal(n)),
        without_sign(decimal(n)) == decimal(n),
        digits_value(decimal(n)) == n,
    decreases n,
{
    if n >= 10 {
        lemma_decimal_value(n / 10);
        let shorter = decimal(n / 10);
        let all = decimal(n);
        assert(all.drop_last() =~= shorter);
        assert(all[0] == shorter[0]);
        assert forall|i: int| 0 <= i < all.len() implies is_digit(#[trigger] all[i]) by {
            if i < shorter.len() {
                assert(all[i] == shorter[i]);
            }
        }
        assert(all.last() == digit_char(n % 10));
        assert(digit_value(digit_char(n % 10)) == n % 10);
        assert(digits_value(all) == digits_value(shorter) * 10 + digit_value(all.last()));
    } else {
        let all = decimal(n);
        assert(all.drop_last() =~= Seq::<char>::empty());
        assert(all.last() == digit_char(n));
        assert(digit_value(digit_char(n)) == n);
        assert(digits_value(all.drop_last()) == 0);
        assert(digits_value(all) == digits_value(all.drop_last()) * 10 + digit_value(all.last()));
    }
}

/// The digit `d` as a character.
fn digit_of(d: u32) -> (c: char)
    requires
        d < 10,
    ensures
        c == digit_char(d as nat),
{
    let code: u8 = 48u8 + d as u8;
    code as char
}

/// Appends `n` in decimal to `out`.
pub fn push_decimal(out: &mut Vec<char>, n: u32)
    ensures
        final(out)@ == old(out)@ + decimal(n as nat),
    decreases n,
{
    if n >= 10 {
        push_decimal(out, n / 10);
    }
    out.push(digit_of(n % 10));
    proof {
        if n >= 10 {
            assert(final(out)@ =~= old(out)@ + decimal((n / 10) as nat).push(
                digit_char((n % 10) as nat),
            ));
        } else {
            assert(final(out)@ =~= old(out)@ + seq![digit_char(n as nat)]);
        }
    }
}

/// The command line that sets the spindle to `speed`.
pub fn command_line(speed: u32) -> (line: Vec<char>)
    ensures
        line@ == spindle_command(speed),
{
    let mut line: Vec<char> = Vec::new();
    line.push('S');
    push_decimal(&mut line, speed);
    line.push(' ');
    line.push('M');
    line.push('3');
    assert(line@ =~= spindle_command(speed));
    line
}

/// Reads an unsigned 32-bit number from `input`.
pub fn parse_speed(input: &str) -> (value: Option<u32>)
    ensures
        value == parse_u32(input@),
{
    let chars = chars_of(input);
    let n = chars.len();
    let start: usize = if n > 0 && chars[0] == '+' {
        1
    } else {
        0
    };
    let ghost digits = without_sign(chars@);
    assert(digits =~= chars@.skip(start as int));
    if start == n {
        return None;
    }
    let mut acc: u64 = 0;
    let mut i: usize = start;
    assert(digits.take(0) =~= Seq::<char>::empty());
    while i < n
        invariant
            start <= i <= n,
            n == chars.len(),
            chars@ == input@,
            digits == without_sign(input@),
            digits == chars@.skip(start as int),
            acc == digits_value(digits.take(i - start)),
            acc <= u32::MAX,
            all_digits(digits.take(i - start)),
        decreases n - i,
    {
        let code: u32 = chars[i] as u32;
        assert(digits[i - start] == chars@[i as int]);
        if code < 48 || code > 57 {
            assert(!is_digit(digits[i - start]));
            return None;
        }
        let ghost longer = digits.take(i - start + 1);
        proof {
            assert(longer.drop_last() =~= digits.take(i - start));
            assert(longer.last() == digits[i - start]);
            assert forall|j: int| 0 <= j < longer.len() implies is_digit(#[trigger] longer[j]) by {
                if j < i - start {
                    assert(longer[j] == digits.take(i - start)[j]);
                }
            }
        }
        acc = acc * 10 + (code - 48) as u64;
        assert(acc == digits_value(longer));
        if acc > u32::MAX as u64 {
            proof {
                lemma_digits_value_prefix(digits, i - start + 1);
            }
            return None;
        }
        i += 1;
    }
    proof {
        assert(digits.take(n - start) =~= digits);
    }
    Some(acc as u32)
}

/// What `validate_spindle_speed` answers to `input`: the speed, or the text
/// of the refusal.
pub open spec fn validated(input: Seq<char>) -> Result<u32, Seq<char>> {
    match parse_u32(input) {
        Some(speed) => if is_valid_speed(speed) {
            Ok(speed)
        } else {
            Err("Spindle speed must be between 1 and 24000 RPM"@)
        },
        None => Err("Invalid input. Please enter a valid number"@),
    }
}

/// Checks what the user typed as the target speed. The input is accepted if
/// it is a number from `MIN_SPEED` to `MAX_SPEED`; otherwise the refusal says
/// whether it was a number outside that range or no number at all.
pub fn validate_spindle_speed(input: &str) -> (res: Result<u32, String>)
    ensures
        match validated(input@) {
            Ok(speed) => res == Ok::<u32, String>(speed),
            Err(text) => res matches Err(refusal) && refusal@ == text,
        },
{
    match parse_speed(input) {
        Some(speed) => {
            if MIN_SPEED <= speed && speed <= MAX_SPEED {
                Ok(speed)
            } else {
                Err(String::from_str("Spindle speed must be between 1 and 24000 RPM"))
            }
        },
        None => Err(String::from_str("Invalid input. Please enter a valid number")),
    }
}

} // verus!

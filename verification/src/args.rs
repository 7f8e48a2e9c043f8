//! Options on the command line: a key, followed by its value.

use std::num::{IntErrorKind, ParseIntError};
use vstd::prelude::*;

verus! {

/// Why a string is no `u64`.
#[derive(Clone, Copy, Debug, PartialEq, Eq, Structural)]
pub enum NumberErrorKind {
    /// There is nothing in it.
    Empty,
    /// Something in it is not a digit, or there is no digit in it.
    InvalidDigit,
    /// The number is too large.
    PosOverflow,
    /// Any other reason that std may give.
    Other,
}

/// std's account of why a string is no number. It is only ever handed on.
#[verifier::external_type_specification]
#[verifier::external_body]
pub struct ExParseIntError(std::num::ParseIntError);

/// A value that should have been a `u64`: why it is none, and std's account.
#[derive(Debug)]
pub struct ParseU64Error {
    pub kind: NumberErrorKind,
    pub cause: ParseIntError,
}

/// `c` is one of the ten decimal digits.
pub open spec fn is_digit(c: char) -> bool {
    '0' <= c <= '9'
}

/// The number that the decimal digits `s` spell.
pub open spec fn decimal_value(s: Seq<char>) -> nat
    decreases s.len(),
{
    if s.len() == 0 {
        0
    } else {
        decimal_value(s.drop_last()) * 10 + (s.last() as nat - '0' as nat) as nat
    }
}

/// `s` without a leading plus sign.
pub open spec fn without_plus(s: Seq<char>) -> Seq<char> {
    if s.len() > 0 && s[0] == '+' {
        s.drop_first()
    } else {
        s
    }
}

/// `s` is an optional plus sign and one or more decimal digits.
pub open spec fn is_number(s: Seq<char>) -> bool {
    without_plus(s).len() > 0 && forall|i: int|
        0 <= i < without_plus(s).len() ==> is_digit(#[trigger] without_plus(s)[i])
}

/// The `u64` that `s` spells, if it spells one.
pub open spec fn parsed_u64(s: Seq<char>) -> Option<u64> {
    if is_number(s) && decimal_value(without_plus(s)) <= u64::MAX {
        Some(decimal_value(without_plus(s)) as u64)
    } else {
        None
    }
}

/// Calls `<u64 as std::str::FromStr>::from_str` through `str::parse`. It accepts
/// an optional plus sign followed by one or more digits, and nothing else, as
/// far as the number fits. The kind of its error is `Empty` for the empty string
/// alone, `PosOverflow` for a number that does not fit, and `InvalidDigit` for a
/// string that is no number and too short for any that does not fit. The kind
/// for a longer string that is no number is left open.
#[verifier::external_body]
fn u64_from_str(s: &str) -> (parsed: Result<u64, ParseU64Error>)
    ensures
        match parsed {
            Ok(value) => parsed_u64(s@) == Some(value),
            Err(error) => {
                &&& parsed_u64(s@) is None
                &&& error.kind is Empty <==> s@.len() == 0
                &&& is_number(s@) ==> error.kind is PosOverflow
                &&& !is_number(s@) && 0 < s@.len() < 20 ==> error.kind is InvalidDigit
            },
        },
{
    match s.parse::<u64>() {
        Ok(value) => Ok(value),
        Err(cause) => {
            let kind = match cause.kind() {
                IntErrorKind::Empty => NumberErrorKind::Empty,
                IntErrorKind::InvalidDigit => NumberErrorKind::InvalidDigit,
                IntErrorKind::PosOverflow => NumberErrorKind::PosOverflow,
                _ => NumberErrorKind::Other,
            };
            Err(ParseU64Error { kind, cause })
        },
    }
}

/// What follows the first `key` that has something following it.
pub open spec fn arg_value(args: Seq<String>, key: Seq<char>) -> Option<Seq<char>>
    decreases args.len(),
{
    if args.len() < 2 {
        None
    } else if args[0]@ == key {
        Some(args[1]@)
    } else {
        arg_value(args.drop_first(), key)
    }
}

/// The value of the option `key`.
pub fn get_arg(args: &[String], key: &str) -> (value: Option<String>)
    ensures
        match value {
            Some(value) => arg_value(args@, key@) == Some(value@),
            None => arg_value(args@, key@) is None,
        },
{
    let wanted: String = key.to_owned();
    let mut i: usize = 0;
    assert(args@.skip(0) =~= args@);
    while args.len() - i >= 2
        invariant
            i <= args.len(),
            wanted@ == key@,
            arg_value(args@.skip(i as int), key@) == arg_value(args@, key@),
        decreases args.len() - i,
    {
        assert(args@.skip(i as int).drop_first() =~= args@.skip(i + 1));
        if args[i] == wanted {
            return Some(args[i + 1].clone());
        }
        i = i + 1;
    }
    None
}

/// The value of the option `key`, or `default` if it is not given.
pub fn get_arg_or(args: &[String], key: &str, default: &str) -> (value: String)
    ensures
        value@ == match arg_value(args@, key@) {
            Some(given) => given,
            None => default@,
        },
{
    match get_arg(args, key) {
        Some(value) => value,
        None => default.to_owned(),
    }
}

/// The option `key` as a number, or `default` if it is not given. It is an
/// error, of the kind that fits, if it is given and is no number.
pub fn parse_u64_arg(args: &[String], key: &str, default: u64) -> (parsed: Result<
    u64,
    ParseU64Error,
>)
    ensures
        match arg_value(args@, key@) {
            None => parsed == Ok::<u64, ParseU64Error>(default),
            Some(given) => match parsed {
                Ok(value) => parsed_u64(given) == Some(value),
                Err(error) => {
                    &&& parsed_u64(given) is None
                    &&& error.kind is Empty <==> given.len() == 0
                    &&& is_number(given) ==> error.kind is PosOverflow
                    &&& !is_number(given) && 0 < given.len() < 20 ==> error.kind is InvalidDigit
                },
            },
        },
{
    match get_arg(args, key) {
        Some(value) => u64_from_str(value.as_str()),
        None => Ok(default),
    }
}

/// Where an option is given more than once, the first one counts; a key that
/// nothing follows does not count.
pub proof fn law_first_option_counts(args: Seq<String>, key: Seq<char>, i: int)
    requires
        0 <= i < args.len() - 1,
        args[i]@ == key,
        forall|j: int| 0 <= j < i ==> (#[trigger] args[j])@ != key,
    ensures
        arg_value(args, key) == Some(args[i + 1]@),
    decreases i,
{
    if i > 0 {
        assert(args[0]@ != key);
        let rest = args.drop_first();
        assert(rest[i - 1]@ == key);
        assert forall|j: int| 0 <= j < i - 1 implies (#[trigger] rest[j])@ != key by {
            assert(args[j + 1]@ != key);
        }
        law_first_option_counts(rest, key, i - 1);
    }
}

/// An option whose key stands nowhere but at the very end is not given.
pub proof fn law_missing_option_has_no_value(args: Seq<String>, key: Seq<char>)
    requires
        forall|j: int| 0 <= j < args.len() - 1 ==> (#[trigger] args[j])@ != key,
    ensures
        arg_value(args, key) is None,
    decreases args.len(),
{
    if args.len() >= 2 {
        assert(args[0]@ != key);
        let rest = args.drop_first();
        assert forall|j: int| 0 <= j < rest.len() - 1 implies (#[trigger] rest[j])@ != key by {
            assert(args[j + 1]@ != key);
        }
        law_missing_option_has_no_value(rest, key);
    }
}

/// Reading digits from the left, each after ten times what was read so far, gives
/// their value.
proof fn lemma_decimal_value_from_the_left(digits: Seq<char>)
    requires
        forall|i: int| 0 <= i < digits.len() ==> '0' <= #[trigger] digits[i] <= '9',
    ensures
        decimal_value(digits) == digits.fold_left(
            0int,
            |value: int, c: char| 10 * value + (c as int - '0' as int),
        ),
    decreases digits.len(),
{
    if digits.len() > 0 {
        let earlier = digits.drop_last();
        assert forall|i: int| 0 <= i < earlier.len() implies '0' <= #[trigger] earlier[i]
            <= '9' by {
            assert(earlier[i] == digits[i]);
        }
        lemma_decimal_value_from_the_left(earlier);
        assert('0' <= digits[digits.len() - 1] <= '9');
    }
}

/// A string spells a number exactly when one or more decimal digits stand in it,
/// and nothing else but perhaps a plus sign before them; the number is what its
/// digits make from the left, if that fits.
pub proof fn law_numbers_are_spelled_in_digits(digits: Seq<char>)
    ensures
        ({
            let spelled = digits.len() > 0 && forall|i: int|
                0 <= i < digits.len() ==> '0' <= #[trigger] digits[i] <= '9';
            let value = digits.fold_left(
                0int,
                |value: int, c: char| 10 * value + (c as int - '0' as int),
            );
            let number = if spelled && value <= u64::MAX {
                Some(value as u64)
            } else {
                None
            };
            let signed = seq!['+'] + digits;
            let unsigned = digits.len() == 0 || digits[0] != '+';
            &&& spelled ==> value >= 0
            &&& is_number(signed) <==> spelled
            &&& parsed_u64(signed) == number
            &&& unsigned ==> (is_number(digits) <==> spelled)
            &&& unsigned ==> parsed_u64(digits) == number
        }),
{
    let signed = seq!['+'] + digits;
    assert(signed.drop_first() =~= digits);
    let spelled = digits.len() > 0 && forall|i: int|
        0 <= i < digits.len() ==> '0' <= #[trigger] digits[i] <= '9';
    assert(is_number(signed) <==> spelled) by {
        if is_number(signed) {
            assert forall|i: int| 0 <= i < digits.len() implies '0' <= #[trigger] digits[i]
                <= '9' by {
                assert(is_digit(without_plus(signed)[i]));
            }
        }
    }
    if digits.len() == 0 || digits[0] != '+' {
        assert(without_plus(digits) == without_plus(signed));
    }
    if spelled {
        lemma_decimal_value_from_the_left(digits);
    }
}

} // verus!

//! Checks on the text of command-line arguments.

use vstd::prelude::*;

verus! {

/// An integer type that an argument may be asked to fit.
#[derive(Clone, Copy, Debug, PartialEq, Eq, Structural)]
pub enum Integer {
    /// Eight bits with a sign: the semitones of a transposition.
    I8,
    /// A size: the index of a device.
    Usize,
}

impl Integer {
    /// Whether a minus sign may stand before the digits.
    pub open spec fn signed(self) -> bool {
        self == Integer::I8
    }

    /// The smallest value of the type.
    pub open spec fn min(self) -> int {
        match self {
            Integer::I8 => i8::MIN as int,
            Integer::Usize => 0,
        }
    }

    /// The greatest value of the type.
    pub open spec fn max(self) -> int {
        match self {
            Integer::I8 => i8::MAX as int,
            Integer::Usize => usize::MAX as int,
        }
    }
}

/// Whether `c` is one of the ten decimal digits.
pub open spec fn is_digit(c: char) -> bool {
    '0' <= c <= '9'
}

/// Whether `text` is one decimal digit or more, and nothing else.
pub open spec fn all_digits(text: Seq<char>) -> bool {
    text.len() > 0 && forall|i: int| 0 <= i < text.len() ==> is_digit(#[trigger] text[i])
}

/// The number that the decimal digits `text` write.
pub open spec fn number(text: Seq<char>) -> nat
    decreases text.len(),
{
    if text.len() == 0 {
        0
    } else {
        number(text.drop_last()) * 10 + (text.last() as nat - '0' as nat) as nat
    }
}

/// The integer that `text` writes: decimal digits, with a plus sign before
/// them if one likes and, where `signed` allows it, a minus sign instead.
/// Anything else writes no integer: no digits at all, a blank, a second sign.
pub open spec fn integer_value(text: Seq<char>, signed: bool) -> Option<int> {
    if text.len() > 0 && text[0] == '+' {
        if all_digits(text.skip(1)) {
            Some(number(text.skip(1)) as int)
        } else {
            None
        }
    } else if signed && text.len() > 0 && text[0] == '-' {
        if all_digits(text.skip(1)) {
            Some(-(number(text.skip(1)) as int))
        } else {
            None
        }
    } else if all_digits(text) {
        Some(number(text) as int)
    } else {
        None
    }
}

/// Whether `text` writes a value of the integer type `kind`.
pub open spec fn parses_as(text: Seq<char>, kind: Integer) -> bool {
    match integer_value(text, kind.signed()) {
        Some(value) => kind.min() <= value <= kind.max(),
        None => false,
    }
}

/// Checks that the argument `text` writes a value of the integer type
/// `kind`. Where it does not, the error is the message `msg`.
pub fn validate(text: &str, kind: Integer, msg: &str) -> (r: Result<(), String>)
    ensures
        r is Ok <==> parses_as(text@, kind),
        r matches Err(message) ==> message@ == msg@,
{
    let len = text.unicode_len();
    let mut negative = false;
    let mut start: usize = 0;
    if len > 0 {
        let first = text.get_char(0);
        if first == '+' {
            start = 1;
        } else if first == '-' && matches!(kind, Integer::I8) {
            negative = true;
            start = 1;
        }
    }
    let ghost digits = text@.skip(start as int);
    proof {
        assert(text@.skip(0) =~= text@);
        assert(integer_value(text@, kind.signed()) == if all_digits(digits) {
            Some(if negative { -(number(digits) as int) } else { number(digits) as int })
        } else {
            None
        });
    }
    if start == len {
        return Err(String::from_str(msg));
    }
    // More than any value of a type above can be: from here on only the
    // digits are looked at.
    let limit: u128 = 0x1_0000_0000_0000_0000;
    let mut value: u128 = 0;
    let mut i: usize = start;
    while i < len
        invariant
            start <= i <= len,
            len == text@.len(),
            digits == text@.skip(start as int),
            limit == 0x1_0000_0000_0000_0000,
            digits.len() == len - start,
            !all_digits(digits) ==> !parses_as(text@, kind),
            forall|k: int| 0 <= k < i - start ==> is_digit(#[trigger] digits[k]),
            value <= limit,
            value < limit ==> value == number(digits.take(i - start)),
            value == limit ==> number(digits.take(i - start)) >= limit,
        decreases len - i,
    {
        let c = text.get_char(i);
        proof {
            let next = digits.take(i - start + 1);
            assert(digits[i - start] == c);
            assert(next.drop_last() =~= digits.take(i - start));
            assert(next.last() == c);
        }
        if c < '0' || c > '9' {
            proof {
                assert(!is_digit(digits[i - start]));
            }
            return Err(String::from_str(msg));
        }
        let digit: u128 = (c as u32 - '0' as u32) as u128;
        assert(digit == (c as nat - '0' as nat) as nat);
        if value < limit {
            value = value * 10 + digit;
            if value > limit {
                value = limit;
            }
        }
        i = i + 1;
    }
    proof {
        assert(digits.take(len - start) =~= digits);
        assert(all_digits(digits));
    }
    let fits = match kind {
        Integer::I8 => if negative {
            value <= 128
        } else {
            value <= 127
        },
        Integer::Usize => value <= usize::MAX as u128,
    };
    if fits {
        Ok(())
    } else {
        Err(String::from_str(msg))
    }
}

} // verus!

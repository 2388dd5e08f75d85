//! Numbers as ASCII digits: reading the number that stands at a position of
//! a text, and writing a number out in its shortest form.

use vstd::prelude::*;

verus! {

/// 10 or 16.
pub open spec fn radix_of(hex: bool) -> nat {
    if hex {
        16
    } else {
        10
    }
}

/// The value of the ASCII digit `byte`: `0` to `9`, and in hexadecimal also
/// `a` to `f` in either case.
pub open spec fn digit_of(byte: u8, hex: bool) -> Option<nat> {
    if 0x30 <= byte <= 0x39 {
        Some((byte - 0x30) as nat)
    } else if hex && 0x61 <= byte <= 0x66 {
        Some((byte - 0x61 + 10) as nat)
    } else if hex && 0x41 <= byte <= 0x46 {
        Some((byte - 0x41 + 10) as nat)
    } else {
        None
    }
}

/// How many digits stand in `text` from position `at` on without a break.
pub open spec fn digit_run(text: Seq<u8>, at: int, hex: bool) -> nat
    decreases text.len() - at,
{
    if 0 <= at < text.len() && digit_of(text[at], hex) is Some {
        1 + digit_run(text, at + 1, hex)
    } else {
        0
    }
}

/// The number that the digits of `text` from `from` up to `to` spell.
pub open spec fn digits_value(text: Seq<u8>, from: int, to: int, hex: bool) -> nat
    decreases to - from,
{
    if from >= to {
        0
    } else {
        digits_value(text, from, to - 1, hex) * radix_of(hex) + digit_of(text[to - 1], hex).unwrap()
    }
}

/// The number that stands in `text` at `at`, with the position just behind
/// it. The number is all the digits that follow one another from `at` on.
/// There must be at least one and, where `digit_limit` is given, no more
/// than that many; unless `zero_prefix` allows it, a number of several
/// digits must not begin with `0`; and its value must not exceed `max`.
pub open spec fn number_at(
    text: Seq<u8>,
    at: int,
    hex: bool,
    digit_limit: Option<nat>,
    zero_prefix: bool,
    max: nat,
) -> Option<(nat, int)> {
    let digits = digit_run(text, at, hex);
    let value = digits_value(text, at, at + digits, hex);
    if digits == 0 {
        None
    } else if digit_limit is Some && digits > digit_limit.unwrap() {
        None
    } else if !zero_prefix && digits > 1 && text[at] == 0x30 {
        None
    } else if value > max {
        None
    } else {
        Some((value, at + digits))
    }
}

/// The value of `byte` as a digit.
pub fn digit_value(byte: u8, hex: bool) -> (digit: Option<u8>)
    ensures
        match digit {
            Some(d) => digit_of(byte, hex) == Some(d as nat) && d < radix_of(hex),
            None => digit_of(byte, hex) is None,
        },
{
    if 0x30 <= byte && byte <= 0x39 {
        Some(byte - 0x30)
    } else if hex && 0x61 <= byte && byte <= 0x66 {
        Some(byte - 0x61 + 10)
    } else if hex && 0x41 <= byte && byte <= 0x46 {
        Some(byte - 0x41 + 10)
    } else {
        None
    }
}

proof fn lemma_value_grows(text: Seq<u8>, from: int, to: int, hex: bool)
    requires
        0 <= from <= to < text.len(),
        digit_of(text[to], hex) is Some,
    ensures
        digits_value(text, from, to + 1, hex) >= digits_value(text, from, to, hex),
{
    let before = digits_value(text, from, to, hex);
    let radix = radix_of(hex);
    assert(before * radix >= before) by (nonlinear_arith)
        requires
            radix >= 1,
            before >= 0,
    ;
}

/// A limit on the number of digits, as a mathematical value.
pub open spec fn limit_of(digit_limit: Option<usize>) -> Option<nat> {
    match digit_limit {
        Some(limit) => Some(limit as nat),
        None => None,
    }
}

/// Reads the number that stands in `text` at `at`: its value and the
/// position just behind it.
pub fn read_number(
    text: &[u8],
    at: usize,
    hex: bool,
    digit_limit: Option<usize>,
    zero_prefix: bool,
    max: u32,
) -> (number: Option<(u32, usize)>)
    ensures
        match number {
            Some((value, end)) => number_at(
                text@,
                at as int,
                hex,
                limit_of(digit_limit),
                zero_prefix,
                max as nat,
            ) == Some((value as nat, end as int)) && at < end <= text@.len(),
            None => number_at(
                text@,
                at as int,
                hex,
                limit_of(digit_limit),
                zero_prefix,
                max as nat,
            ) is None,
        },
{
    if at > text.len() {
        return None;
    }
    let radix: u64 = if hex {
        16
    } else {
        10
    };
    let mut end: usize = at;
    let mut value: u64 = 0;
    let mut exceeded: bool = false;
    loop
        invariant
            at <= end <= text@.len(),
            radix == radix_of(hex),
            digit_run(text@, at as int, hex) == (end - at) + digit_run(text@, end as int, hex),
            !exceeded ==> value == digits_value(text@, at as int, end as int, hex) && value <= max,
            exceeded ==> digits_value(text@, at as int, end as int, hex) > max,
        ensures
            digit_run(text@, at as int, hex) == end - at,
        decreases text@.len() - end,
    {
        if end >= text.len() {
            break ;
        }
        let digit = match digit_value(text[end], hex) {
            Some(d) => d,
            None => {
                break ;
            },
        };
        proof {
            lemma_value_grows(text@, at as int, end as int, hex);
        }
        if !exceeded {
            let next: u64 = value * radix + digit as u64;
            if next > max as u64 {
                exceeded = true;
            } else {
                value = next;
            }
        }
        end = end + 1;
    }
    let digits: usize = end - at;
    if digits == 0 {
        return None;
    }
    match digit_limit {
        Some(limit) => {
            if digits > limit {
                return None;
            }
        },
        None => {},
    }
    if !zero_prefix && digits > 1 && text[at] == 0x30 {
        return None;
    }
    if exceeded {
        return None;
    }
    Some((value as u32, end))
}

/// The ASCII digit for `digit`, in lower case above 9.
pub open spec fn digit_byte(digit: nat) -> u8 {
    if digit < 10 {
        (0x30 + digit) as u8
    } else {
        (0x61 + digit - 10) as u8
    }
}

/// `value` written in the shortest way: no leading zeros, `0` as a single
/// digit, lower case in hexadecimal.
pub open spec fn numeral(value: nat, hex: bool) -> Seq<u8>
    decreases value,
{
    if value < radix_of(hex) {
        seq![digit_byte(value)]
    } else {
        numeral(value / radix_of(hex), hex).push(digit_byte(value % radix_of(hex)))
    }
}

/// Appends the numeral of `value` to `out`.
pub fn push_numeral(out: &mut Vec<u8>, value: u32, hex: bool)
    ensures
        final(out)@ == old(out)@ + numeral(value as nat, hex),
    decreases value,
{
    let radix: u32 = if hex {
        16
    } else {
        10
    };
    if value >= radix {
        push_numeral(out, value / radix, hex);
    }
    let digit: u32 = value % radix;
    let byte: u8 = if digit < 10 {
        (0x30 + digit) as u8
    } else {
        (0x61 + digit - 10) as u8
    };
    out.push(byte);
    assert(out@ =~= old(out)@ + numeral(value as nat, hex));
}

} // verus!

//! Numbers as text: digits, and decimal numbers for addresses and messages.

use vstd::prelude::*;

verus! {

/// The lower-case hexadecimal digit for a value below sixteen, which for a
/// value below ten is its decimal digit.
pub open spec fn hex_digit(nibble: u64) -> char {
    if nibble == 0 {
        '0'
    } else if nibble == 1 {
        '1'
    } else if nibble == 2 {
        '2'
    } else if nibble == 3 {
        '3'
    } else if nibble == 4 {
        '4'
    } else if nibble == 5 {
        '5'
    } else if nibble == 6 {
        '6'
    } else if nibble == 7 {
        '7'
    } else if nibble == 8 {
        '8'
    } else if nibble == 9 {
        '9'
    } else if nibble == 10 {
        'a'
    } else if nibble == 11 {
        'b'
    } else if nibble == 12 {
        'c'
    } else if nibble == 13 {
        'd'
    } else if nibble == 14 {
        'e'
    } else {
        'f'
    }
}

/// The digit for `nibble` as a string of one character.
pub(crate) fn hex_digit_str(nibble: u64) -> (digit: &'static str)
    ensures
        digit@ == seq![hex_digit(nibble)],
{
    proof {
        reveal_strlit("0");
        reveal_strlit("1");
        reveal_strlit("2");
        reveal_strlit("3");
        reveal_strlit("4");
        reveal_strlit("5");
        reveal_strlit("6");
        reveal_strlit("7");
        reveal_strlit("8");
        reveal_strlit("9");
        reveal_strlit("a");
        reveal_strlit("b");
        reveal_strlit("c");
        reveal_strlit("d");
        reveal_strlit("e");
        reveal_strlit("f");
    }
    let digit = if nibble == 0 {
        "0"
    } else if nibble == 1 {
        "1"
    } else if nibble == 2 {
        "2"
    } else if nibble == 3 {
        "3"
    } else if nibble == 4 {
        "4"
    } else if nibble == 5 {
        "5"
    } else if nibble == 6 {
        "6"
    } else if nibble == 7 {
        "7"
    } else if nibble == 8 {
        "8"
    } else if nibble == 9 {
        "9"
    } else if nibble == 10 {
        "a"
    } else if nibble == 11 {
        "b"
    } else if nibble == 12 {
        "c"
    } else if nibble == 13 {
        "d"
    } else if nibble == 14 {
        "e"
    } else {
        "f"
    };
    digit
}

/// The decimal digits of `n`, without leading zeros.
pub open spec fn decimal(n: nat) -> Seq<char>
    decreases n,
{
    if n < 10 {
        seq![hex_digit(n as u64)]
    } else {
        decimal(n / 10).push(hex_digit((n % 10) as u64))
    }
}

/// The decimal digits of `n`, behind a minus sign where `n` is negative.
pub open spec fn signed_decimal(n: int) -> Seq<char> {
    if n < 0 {
        seq!['-'] + decimal((-n) as nat)
    } else {
        decimal(n as nat)
    }
}

/// Appends the decimal digits of `n` to `out`.
pub fn push_decimal(out: &mut String, n: u64)
    ensures
        final(out)@ == old(out)@ + decimal(n as nat),
    decreases n,
{
    if n >= 10 {
        push_decimal(out, n / 10);
    }
    out.append(hex_digit_str(n % 10));
}

/// Appends the decimal digits of `n` to `out`, behind a minus sign where `n`
/// is negative.
pub fn push_signed_decimal(out: &mut String, n: i64)
    ensures
        final(out)@ == old(out)@ + signed_decimal(n as int),
{
    if n < 0 {
        proof {
            reveal_strlit("-");
        }
        out.append("-");
        let magnitude: u64 = if n == i64::MIN {
            9223372036854775808u64
        } else {
            (-n) as u64
        };
        push_decimal(out, magnitude);
    } else {
        push_decimal(out, n as u64);
    }
}

} // verus!

//! Numbers and block roots as text.

use crate::types::Hash256;
use vstd::prelude::*;
use vstd::string::StringExecFns;

verus! {

/// The character of a decimal or hexadecimal digit.
pub open spec fn digit_char(digit: int) -> char {
    if digit == 0 {
        '0'
    } else if digit == 1 {
        '1'
    } else if digit == 2 {
        '2'
    } else if digit == 3 {
        '3'
    } else if digit == 4 {
        '4'
    } else if digit == 5 {
        '5'
    } else if digit == 6 {
        '6'
    } else if digit == 7 {
        '7'
    } else if digit == 8 {
        '8'
    } else if digit == 9 {
        '9'
    } else if digit == 10 {
        'a'
    } else if digit == 11 {
        'b'
    } else if digit == 12 {
        'c'
    } else if digit == 13 {
        'd'
    } else if digit == 14 {
        'e'
    } else {
        'f'
    }
}

/// A number in decimal notation.
pub open spec fn decimal(n: nat) -> Seq<char>
    decreases n,
{
    if n < 10 {
        seq![digit_char(n as int)]
    } else {
        decimal(n / 10).push(digit_char((n % 10) as int))
    }
}

fn digit_text(digit: u64) -> (r: &'static str)
    requires
        digit < 16,
    ensures
        r@ == seq![digit_char(digit as int)],
{
    proof {
        reveal_strlit("0");
        reveal_strlit("1");
        reveal_strlit("2");
        reveal_strlit("3");
        reveal_strlit("4");
        reveal_strlit("5");
        reveal_strlit("6");
        reveal_strlit("7");
        reveal_strlit("8");
        reveal_strlit("9");
        reveal_strlit("a");
        reveal_strlit("b");
        reveal_strlit("c");
        reveal_strlit("d");
        reveal_strlit("e");
        reveal_strlit("f");
    }
    let r = if digit == 0 {
        "0"
    } else if digit == 1 {
        "1"
    } else if digit == 2 {
        "2"
    } else if digit == 3 {
        "3"
    } else if digit == 4 {
        "4"
    } else if digit == 5 {
        "5"
    } else if digit == 6 {
        "6"
    } else if digit == 7 {
        "7"
    } else if digit == 8 {
        "8"
    } else if digit == 9 {
        "9"
    } else if digit == 10 {
        "a"
    } else if digit == 11 {
        "b"
    } else if digit == 12 {
        "c"
    } else if digit == 13 {
        "d"
    } else if digit == 14 {
        "e"
    } else {
        "f"
    };
    assert(r@ =~= seq![digit_char(digit as int)]);
    r
}

/// Adds a number in decimal notation to a text.
pub fn append_decimal(text: &mut String, n: u64)
    ensures
        final(text)@ == old(text)@ + decimal(n as nat),
    decreases n,
{
    if n >= 10 {
        append_decimal(text, n / 10);
    }
    text.append(digit_text(n % 10));
    assert(text@ =~= old(text)@ + decimal(n as nat));
}

/// The last `digits` hexadecimal digits of a number.
pub open spec fn hexadecimal(n: nat, digits: nat) -> Seq<char>
    decreases digits,
{
    if digits == 0 {
        Seq::<char>::empty()
    } else {
        hexadecimal(n / 16, (digits - 1) as nat).push(digit_char((n % 16) as int))
    }
}

/// Adds the last `digits` hexadecimal digits of a number to a text.
pub fn append_hexadecimal(text: &mut String, n: u128, digits: u32)
    ensures
        final(text)@ == old(text)@ + hexadecimal(n as nat, digits as nat),
    decreases digits,
{
    if digits > 0 {
        append_hexadecimal(text, n / 16, digits - 1);
        text.append(digit_text((n % 16) as u64));
    }
    assert(text@ =~= old(text)@ + hexadecimal(n as nat, digits as nat));
}

/// A block root as `0x` and sixty-four hexadecimal digits.
pub open spec fn root_text(root: Hash256) -> Seq<char> {
    "0x"@ + hexadecimal(root.hi as nat, 32) + hexadecimal(root.lo as nat, 32)
}

/// Adds a block root to a text.
pub fn append_root(text: &mut String, root: Hash256)
    ensures
        final(text)@ == old(text)@ + root_text(root),
{
    text.append("0x");
    append_hexadecimal(text, root.hi, 32);
    append_hexadecimal(text, root.lo, 32);
    assert(text@ =~= old(text)@ + root_text(root));
}

} // verus!

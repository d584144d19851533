//! Numbers and roots can be read back from their texts and bytes.

use crate::text::{decimal, digit_char, hexadecimal, root_text};
use crate::types::{low_byte, Hash256};
use vstd::arithmetic::div_mod::{
    lemma_basic_div, lemma_div_denominator, lemma_fundamental_div_mod,
};
use vstd::arithmetic::power::{lemma_pow0, lemma_pow1, lemma_pow_adds, lemma_pow_positive, pow};
use vstd::prelude::*;

verus! {

/// What a decimal or hexadecimal digit stands for.
pub open spec fn digit_value(digit: char) -> int {
    if digit as int <= '9' as int {
        digit as int - '0' as int
    } else {
        digit as int - 'a' as int + 10
    }
}

/// The number that a text of digits stands for.
pub open spec fn number_read(text: Seq<char>, base: int) -> int
    decreases text.len(),
{
    if text.len() == 0 {
        0
    } else {
        number_read(text.drop_last(), base) * base + digit_value(text.last())
    }
}

/// A number can be read back from its decimal notation, which has no leading zeros.
pub proof fn law_decimals_read_back(n: nat)
    ensures
        number_read(decimal(n), 10) == n,
        decimal(n).len() > 0,
        n > 0 ==> decimal(n)[0] != '0',
        n == 0 ==> decimal(n).len() == 1,
    decreases n,
{
    if n >= 10 {
        law_decimals_read_back(n / 10);
        assert(decimal(n).drop_last() =~= decimal(n / 10));
        assert(decimal(n).last() == digit_char((n % 10) as int));
        assert(decimal(n)[0] == decimal(n / 10)[0]);
    } else {
        assert(decimal(n).drop_last() =~= Seq::<char>::empty());
        assert(number_read(Seq::<char>::empty(), 10) == 0);
        assert(decimal(n).last() == digit_char(n as int));
    }
}

/// A number that has no more hexadecimal digits than asked for can be read back from them.
pub proof fn law_hexadecimals_read_back(n: nat, digits: nat)
    ensures
        hexadecimal(n, digits).len() == digits,
        n < pow(16, digits) ==> number_read(hexadecimal(n, digits), 16) == n,
    decreases digits,
{
    if digits > 0 {
        let fewer = (digits - 1) as nat;
        law_hexadecimals_read_back(n / 16, fewer);
        assert(hexadecimal(n, digits).drop_last() =~= hexadecimal(n / 16, fewer));
        lemma_pow1(16);
        lemma_pow_adds(16, fewer, 1);
    } else {
        lemma_pow0(16);
    }
}

/// A power with twice the exponent is the square.
proof fn lemma_squared(base: int, exponent: nat, value: int)
    requires
        pow(base, exponent) == value,
    ensures
        pow(base, exponent + exponent) == value * value,
{
    lemma_pow_adds(base, exponent, exponent);
}

/// A half of a root has thirty-two digits and sixteen bytes.
proof fn lemma_sixteen_bytes()
    ensures
        pow(16, 32) == u128::MAX + 1,
        pow(256, 16) == u128::MAX + 1,
{
    lemma_pow1(16);
    lemma_squared(16, 1, 16);
    lemma_squared(16, 2, 256);
    lemma_squared(16, 4, 65536);
    lemma_squared(16, 8, 0x100000000);
    lemma_squared(16, 16, 0x10000000000000000);
    lemma_pow1(256);
    lemma_squared(256, 1, 256);
    lemma_squared(256, 2, 65536);
    lemma_squared(256, 4, 0x100000000);
    lemma_squared(256, 8, 0x10000000000000000);
}

/// A root can be read back from its text: `0x`, and thirty-two digits for each half.
pub proof fn law_roots_read_back(root: Hash256)
    ensures
        root_text(root).len() == 66,
        root_text(root)[0] == '0',
        root_text(root)[1] == 'x',
        number_read(root_text(root).subrange(2, 34), 16) == root.hi,
        number_read(root_text(root).subrange(34, 66), 16) == root.lo,
{
    reveal_strlit("0x");
    lemma_sixteen_bytes();
    law_hexadecimals_read_back(root.hi as nat, 32);
    law_hexadecimals_read_back(root.lo as nat, 32);
    assert(root_text(root).subrange(2, 34) =~= hexadecimal(root.hi as nat, 32));
    assert(root_text(root).subrange(34, 66) =~= hexadecimal(root.lo as nat, 32));
}

/// The number that `n` bytes of a root stand for, the first of them being number `first`.
pub open spec fn bytes_read(root: Hash256, first: int, n: nat) -> int
    decreases n,
{
    if n == 0 {
        0
    } else {
        bytes_read(root, first, (n - 1) as nat) * 256 + root.byte(first + n - 1)
    }
}

/// The upper part of a number is read back from its upper bytes.
proof fn lemma_upper_bytes(root: Hash256, first: int, half: u128, n: nat)
    requires
        n <= 16,
        (first == 0 && half == root.hi) || (first == 16 && half == root.lo),
    ensures
        bytes_read(root, first, n) == half as int / pow(256, (16 - n) as nat),
    decreases n,
{
    lemma_sixteen_bytes();
    let rest = (16 - n) as nat;
    lemma_pow_positive(256, rest);
    if n == 0 {
        lemma_basic_div(half as int, pow(256, 16));
    } else {
        lemma_upper_bytes(root, first, half, (n - 1) as nat);
        lemma_pow1(256);
        lemma_pow_adds(256, rest, 1);
        lemma_div_denominator(half as int, pow(256, rest), 256);
        let here = half as int / pow(256, rest);
        lemma_fundamental_div_mod(here, 256);
        assert(root.byte(first + n - 1) == low_byte(half, rest as int));
    }
}

/// A root can be read back from its bytes: the first sixteen are its upper half, and the last
/// sixteen its lower half.
pub proof fn law_bytes_read_back(root: Hash256)
    ensures
        bytes_read(root, 0, 16) == root.hi,
        bytes_read(root, 16, 16) == root.lo,
{
    lemma_upper_bytes(root, 0, root.hi, 16);
    lemma_upper_bytes(root, 16, root.lo, 16);
    lemma_pow0(256);
}

} // verus!

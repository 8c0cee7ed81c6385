//! Numbers in decimal.

use vstd::prelude::*;

verus! {

/// A decimal digit.
pub open spec fn digit(d: nat) -> Seq<char> {
    if d == 0 {
        "0"@
    } else if d == 1 {
        "1"@
    } else if d == 2 {
        "2"@
    } else if d == 3 {
        "3"@
    } else if d == 4 {
        "4"@
    } else if d == 5 {
        "5"@
    } else if d == 6 {
        "6"@
    } else if d == 7 {
        "7"@
    } else if d == 8 {
        "8"@
    } else {
        "9"@
    }
}

/// A number in decimal, without leading zeros.
pub open spec fn decimal(n: nat) -> Seq<char>
    decreases n,
{
    if n < 10 {
        digit(n)
    } else {
        decimal(n / 10) + digit(n % 10)
    }
}

/// A digit of a number below ten.
fn digit_text(d: u32) -> (text: &'static str)
    requires
        d < 10,
    ensures
        text@ == digit(d as nat),
{
    match d {
        0 => "0",
        1 => "1",
        2 => "2",
        3 => "3",
        4 => "4",
        5 => "5",
        6 => "6",
        7 => "7",
        8 => "8",
        _ => "9",
    }
}

/// Writes a number in decimal.
pub fn decimal_text(n: u32) -> (text: String)
    ensures
        text@ == decimal(n as nat),
    decreases n,
{
    if n < 10 {
        digit_text(n).to_owned()
    } else {
        let mut text: String = decimal_text(n / 10);
        text.append(digit_text(n % 10));
        text
    }
}

/// A digit is one character.
proof fn lemma_digit_len(d: nat)
    ensures
        digit(d).len() == 1,
{
    reveal_strlit("0");
    reveal_strlit("1");
    reveal_strlit("2");
    reveal_strlit("3");
    reveal_strlit("4");
    reveal_strlit("5");
    reveal_strlit("6");
    reveal_strlit("7");
    reveal_strlit("8");
    reveal_strlit("9");
}

/// A number below a power of ten has at most as many digits.
proof fn lemma_decimal_len(n: nat, digits: nat, power: nat)
    requires
        digits >= 1,
        power == vstd::arithmetic::power::pow(10, digits),
        n < power,
    ensures
        decimal(n).len() <= digits,
    decreases digits,
{
    lemma_digit_len(n);
    lemma_digit_len(n % 10);
    if n >= 10 {
        if digits == 1 {
            vstd::arithmetic::power::lemma_pow1(10);
        } else {
            let smaller = (digits - 1) as nat;
            vstd::arithmetic::power::lemma_pow_adds(10, 1, smaller);
            vstd::arithmetic::power::lemma_pow1(10);
            vstd::arithmetic::power::lemma_pow_positive(10, smaller);
            let lower = vstd::arithmetic::power::pow(10, smaller) as nat;
            assert(n / 10 < lower) by (nonlinear_arith)
                requires
                    n < 10 * lower,
            ;
            lemma_decimal_len(n / 10, smaller, lower);
        }
    }
}

/// An index has at most ten digits.
pub proof fn lemma_index_len(n: u32)
    ensures
        decimal(n as nat).len() <= 10,
{
    assert(vstd::arithmetic::power::pow(10, 10) == 10_000_000_000) by {
        reveal_with_fuel(vstd::arithmetic::power::pow, 11);
    }
    lemma_decimal_len(n as nat, 10, 10_000_000_000);
}

} // verus!

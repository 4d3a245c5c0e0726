//! Numbers written as text: decimal, and lower-case hexadecimal as `{:x}`
//! writes them.

use vstd::prelude::*;

verus! {

/// The lower-case digit for `d < 16`.
pub open spec fn spec_digit(d: nat) -> char {
    if d == 0 {
        '0'
    } else if d == 1 {
        '1'
    } else if d == 2 {
        '2'
    } else if d == 3 {
        '3'
    } else if d == 4 {
        '4'
    } else if d == 5 {
        '5'
    } else if d == 6 {
        '6'
    } else if d == 7 {
        '7'
    } else if d == 8 {
        '8'
    } else if d == 9 {
        '9'
    } else if d == 10 {
        'a'
    } else if d == 11 {
        'b'
    } else if d == 12 {
        'c'
    } else if d == 13 {
        'd'
    } else if d == 14 {
        'e'
    } else {
        'f'
    }
}

/// `n` written in base `b` (2 to 16) without leading zeros; zero is `0`.
pub open spec fn spec_digits(n: nat, b: nat) -> Seq<char>
    decreases n,
{
    if b < 2 || n < b {
        seq![spec_digit(n)]
    } else {
        proof {
            assert(n / b < n) by (nonlinear_arith)
                requires
                    b >= 2,
                    n >= b,
            ;
        }
        spec_digits(n / b, b).push(spec_digit(n % b))
    }
}

fn digit(d: u64) -> (c: char)
    requires
        d < 16,
    ensures
        c == spec_digit(d as nat),
{
    match d {
        0 => '0',
        1 => '1',
        2 => '2',
        3 => '3',
        4 => '4',
        5 => '5',
        6 => '6',
        7 => '7',
        8 => '8',
        9 => '9',
        10 => 'a',
        11 => 'b',
        12 => 'c',
        13 => 'd',
        14 => 'e',
        _ => 'f',
    }
}

fn digits(n: u64, b: u64) -> (v: Vec<char>)
    requires
        2 <= b <= 16,
    ensures
        v@ == spec_digits(n as nat, b as nat),
    decreases n,
{
    if n < b {
        vec![digit(n)]
    } else {
        assert(n / b < n) by (nonlinear_arith)
            requires
                b >= 2,
                n >= b,
        ;
        let mut v = digits(n / b, b);
        v.push(digit(n % b));
        v
    }
}

/// `n` in decimal.
pub fn to_decimal(n: u64) -> (s: String)
    ensures
        s@ == spec_digits(n as nat, 10),
{
    let v = digits(n, 10);
    crate::utils::string_from_chars(v.as_slice())
}

/// `n` in lower-case hexadecimal, as `format!("{:x}", n)` writes it.
pub fn to_hex(n: u64) -> (s: String)
    ensures
        s@ == spec_digits(n as nat, 16),
{
    let v = digits(n, 16);
    crate::utils::string_from_chars(v.as_slice())
}

} // verus!

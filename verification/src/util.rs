//! Small verified helpers on strings used throughout the crate.

use vstd::prelude::*;
use vstd::string::StringExecFns;

verus! {

/// Compare two string slices for (character-sequence) equality.
pub fn str_eq(a: &str, b: &str) -> (r: bool)
    ensures
        r == (a@ == b@),
{
    let s1: String = a.to_owned();
    let s2: String = b.to_owned();
    s1 == s2
}

/// The one-character sequence for a decimal digit.
pub open spec fn spec_digit(d: int) -> Seq<char> {
    if d == 0 {
        "0"@
    } else if d == 1 {
        "1"@
    } else if d == 2 {
        "2"@
    } else if d == 3 {
        "3"@
    } else if d == 4 {
        "4"@
    } else if d == 5 {
        "5"@
    } else if d == 6 {
        "6"@
    } else if d == 7 {
        "7"@
    } else if d == 8 {
        "8"@
    } else {
        "9"@
    }
}

/// The decimal rendering of a natural number, most significant digit first.
pub open spec fn spec_u64_string(n: nat) -> Seq<char>
    decreases n,
{
    if n < 10 {
        spec_digit(n as int)
    } else {
        spec_u64_string(n / 10) + spec_digit((n % 10) as int)
    }
}

fn digit_str(d: u64) -> (r: &'static str)
    requires
        d < 10,
    ensures
        r@ == spec_digit(d as int),
{
    match d {
        0 => "0",
        1 => "1",
        2 => "2",
        3 => "3",
        4 => "4",
        5 => "5",
        6 => "6",
        7 => "7",
        8 => "8",
        _ => "9",
    }
}

/// Render a number in decimal.
pub fn u64_to_string(n: u64) -> (r: String)
    ensures
        r@ == spec_u64_string(n as nat),
    decreases n,
{
    if n < 10 {
        String::from_str(digit_str(n))
    } else {
        let mut s = u64_to_string(n / 10);
        s.append(digit_str(n % 10));
        s
    }
}

} // verus!

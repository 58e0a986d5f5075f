//! Decimal rendering of integers, used by every status message.

use vstd::prelude::*;

verus! {

/// The text of one decimal digit.
pub open spec fn digit_text(d: int) -> Seq<char> {
    if d == 0 { "0"@ }
    else if d == 1 { "1"@ }
    else if d == 2 { "2"@ }
    else if d == 3 { "3"@ }
    else if d == 4 { "4"@ }
    else if d == 5 { "5"@ }
    else if d == 6 { "6"@ }
    else if d == 7 { "7"@ }
    else if d == 8 { "8"@ }
    else { "9"@ }
}

/// The decimal digits of a natural number, most significant first, without
/// leading zeros (zero itself is "0").
pub open spec fn nat_text(n: nat) -> Seq<char>
    decreases n,
{
    if n < 10 {
        digit_text(n as int)
    } else {
        nat_text(n / 10) + digit_text((n % 10) as int)
    }
}

/// The decimal text of an integer, with a leading minus sign when negative,
/// as Rust's `Display` writes it.
pub open spec fn int_text(n: int) -> Seq<char> {
    if n < 0 {
        "-"@ + nat_text((-n) as nat)
    } else {
        nat_text(n as nat)
    }
}

fn digit_str(d: u32) -> (s: &'static str)
    requires
        d < 10,
    ensures
        s@ == digit_text(d as int),
{
    if d == 0 { "0" }
    else if d == 1 { "1" }
    else if d == 2 { "2" }
    else if d == 3 { "3" }
    else if d == 4 { "4" }
    else if d == 5 { "5" }
    else if d == 6 { "6" }
    else if d == 7 { "7" }
    else if d == 8 { "8" }
    else { "9" }
}

fn unsigned_string(n: u64) -> (s: String)
    ensures
        s@ == nat_text(n as nat),
    decreases n,
{
    if n < 10 {
        String::from_str(digit_str(n as u32))
    } else {
        let mut s = unsigned_string(n / 10);
        s.append(digit_str((n % 10) as u32));
        s
    }
}

/// Renders `n` in decimal.
pub fn i32_string(n: i32) -> (s: String)
    ensures
        s@ == int_text(n as int),
{
    if n < 0 {
        let m: i64 = -(n as i64);
        let mut s = String::from_str("-");
        let digits = unsigned_string(m as u64);
        s.append(digits.as_str());
        s
    } else {
        unsigned_string(n as u64)
    }
}

/// Renders `n` in decimal.
pub fn u8_string(n: u8) -> (s: String)
    ensures
        s@ == nat_text(n as nat),
{
    unsigned_string(n as u64)
}

/// Renders `n` in decimal.
pub fn usize_string(n: usize) -> (s: String)
    ensures
        s@ == nat_text(n as nat),
{
    unsigned_string(n as u64)
}

/// Renders `n` in decimal.
pub fn u16_string(n: u16) -> (s: String)
    ensures
        s@ == nat_text(n as nat),
{
    unsigned_string(n as u64)
}

} // verus!

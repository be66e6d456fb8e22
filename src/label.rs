use vstd::prelude::*;

verus! {

/// The character of a decimal digit.
pub open spec fn digit_char(d: nat) -> char {
    seq!['0', '1', '2', '3', '4', '5', '6', '7', '8', '9'][d as int]
}

/// A natural number written in decimal, without leading zeros.
pub open spec fn decimal(n: nat) -> Seq<char>
    decreases n,
{
    if n < 10 {
        seq![digit_char(n)]
    } else {
        decimal(n / 10).push(digit_char(n % 10))
    }
}

/// Relies on `ToString` for `u64` (through its `Display`), which writes the
/// number in decimal without sign or leading zeros.
#[verifier::external_body]
fn u64_to_string(n: u64) -> (r: String)
    ensures
        r@ == decimal(n as nat),
{
    n.to_string()
}

/// The gutter label of an item that starts at a zero-based row: the row
/// counted from one, in decimal.
pub fn line_number_label(start_row: u32) -> (r: String)
    ensures
        r@ == decimal(start_row as nat + 1),
{
    u64_to_string(start_row as u64 + 1)
}

} // verus!

//! The `link` column: a fixed URL template with the record identifier
//! interpolated in decimal.

use vstd::prelude::*;
use vstd::string::StringExecFns;

use crate::records::RecordId;

verus! {

/// The decimal digit character for a value below ten.
pub open spec fn dec_digit(v: int) -> char {
    if v == 0 {
        '0'
    } else if v == 1 {
        '1'
    } else if v == 2 {
        '2'
    } else if v == 3 {
        '3'
    } else if v == 4 {
        '4'
    } else if v == 5 {
        '5'
    } else if v == 6 {
        '6'
    } else if v == 7 {
        '7'
    } else if v == 8 {
        '8'
    } else {
        '9'
    }
}

/// The usual decimal rendering of a natural number, most significant digit
/// first, no leading zeros (a lone zero for zero).
pub open spec fn dec_of(n: int) -> Seq<char>
    decreases n,
{
    if n < 10 {
        seq![dec_digit(n)]
    } else {
        dec_of(n / 10).push(dec_digit(n % 10))
    }
}

/// The `link` column for a record identifier.
pub open spec fn link_of(id: RecordId) -> Seq<char> {
    "https://ordinals.com/inscription/"@ + dec_of(id.value as int)
}

fn dec_digit_str(v: u64) -> (r: &'static str)
    requires
        v < 10,
    ensures
        r@ == seq![dec_digit(v as int)],
{
    proof {
        reveal_strlit("0");
        reveal_strlit("1");
        reveal_strlit("2");
        reveal_strlit("3");
        reveal_strlit("4");
        reveal_strlit("5");
        reveal_strlit("6");
        reveal_strlit("7");
        reveal_strlit("8");
        reveal_strlit("9");
    }
    match v {
        0 => "0",
        1 => "1",
        2 => "2",
        3 => "3",
        4 => "4",
        5 => "5",
        6 => "6",
        7 => "7",
        8 => "8",
        _ => "9",
    }
}

/// Renders a natural number in decimal.
fn dec_string(n: u64) -> (r: String)
    ensures
        r@ == dec_of(n as int),
    decreases n,
{
    if n < 10 {
        String::from_str(dec_digit_str(n))
    } else {
        let mut r = dec_string(n / 10);
        r.append(dec_digit_str(n % 10));
        r
    }
}

/// Builds the `link` column for a record identifier by interpolating it into
/// the fixed URL template.
pub fn make_link(id: RecordId) -> (r: String)
    ensures
        r@ == link_of(id),
{
    let mut r = String::from_str("https://ordinals.com/inscription/");
    r.append(dec_string(id.value).as_str());
    r
}

} // verus!

//! Verified rendering of the error messages: a decimal formatter for ids
//! and the three message shapes the operations use.

use vstd::prelude::*;
use vstd::string::StringExecFns;

verus! {

/// The character for one decimal digit.
pub open spec fn digit_char(d: nat) -> char {
    if d == 0 {
        '0'
    } else if d == 1 {
        '1'
    } else if d == 2 {
        '2'
    } else if d == 3 {
        '3'
    } else if d == 4 {
        '4'
    } else if d == 5 {
        '5'
    } else if d == 6 {
        '6'
    } else if d == 7 {
        '7'
    } else if d == 8 {
        '8'
    } else {
        '9'
    }
}

/// The decimal rendering of a number, most significant digit first, with
/// no leading zeroes (zero itself is "0").
pub open spec fn spec_digits(n: nat) -> Seq<char>
    decreases n,
{
    if n < 10 {
        seq![digit_char(n)]
    } else {
        spec_digits(n / 10).push(digit_char(n % 10))
    }
}

/// The message a lookup that found nothing reports.
pub open spec fn msg_not_found(id: u64) -> Seq<char> {
    "an item with id="@ + spec_digits(id as nat) + " not found"@
}

/// The message a failed update reports.
pub open spec fn msg_update_not_found(id: u64) -> Seq<char> {
    "couldn't update an item with id="@ + spec_digits(id as nat) + ". item not found"@
}

/// The message a failed deletion reports.
pub open spec fn msg_delete_not_found(id: u64) -> Seq<char> {
    "couldn't delete an item with id="@ + spec_digits(id as nat) + ". item not found."@
}

fn digit_to_str(d: u64) -> (r: &'static str)
    requires
        d < 10,
    ensures
        r@ == seq![digit_char(d as nat)],
{
    proof {
        reveal_strlit("0");
        reveal_strlit("1");
        reveal_strlit("2");
        reveal_strlit("3");
        reveal_strlit("4");
        reveal_strlit("5");
        reveal_strlit("6");
        reveal_strlit("7");
        reveal_strlit("8");
        reveal_strlit("9");
    }
    let r = match d {
        0 => "0",
        1 => "1",
        2 => "2",
        3 => "3",
        4 => "4",
        5 => "5",
        6 => "6",
        7 => "7",
        8 => "8",
        _ => "9",
    };
    proof {
        assert(r@ =~= seq![digit_char(d as nat)]);
    }
    r
}

/// Appends the decimal rendering of `n` to `s`.
fn push_digits(s: &mut String, n: u64)
    ensures
        final(s)@ == old(s)@ + spec_digits(n as nat),
    decreases n,
{
    if n < 10 {
        s.append(digit_to_str(n));
        proof {
            assert(s@ =~= old(s)@ + spec_digits(n as nat));
        }
    } else {
        push_digits(s, n / 10);
        s.append(digit_to_str(n % 10));
        proof {
            assert(s@ =~= old(s)@ + spec_digits(n as nat));
        }
    }
}

/// Renders a number in decimal.
pub fn u64_to_string(n: u64) -> (r: String)
    ensures
        r@ == spec_digits(n as nat),
{
    let mut s = String::new();
    push_digits(&mut s, n);
    proof {
        assert(s@ =~= spec_digits(n as nat));
    }
    s
}

/// Builds the message of [`msg_not_found`].
pub fn not_found_message(id: u64) -> (r: String)
    ensures
        r@ == msg_not_found(id),
{
    let mut s = String::from_str("an item with id=");
    push_digits(&mut s, id);
    s.append(" not found");
    proof {
        assert(s@ =~= msg_not_found(id));
    }
    s
}

/// Builds the message of [`msg_update_not_found`].
pub fn update_not_found_message(id: u64) -> (r: String)
    ensures
        r@ == msg_update_not_found(id),
{
    let mut s = String::from_str("couldn't update an item with id=");
    push_digits(&mut s, id);
    s.append(". item not found");
    proof {
        assert(s@ =~= msg_update_not_found(id));
    }
    s
}

/// Builds the message of [`msg_delete_not_found`].
pub fn delete_not_found_message(id: u64) -> (r: String)
    ensures
        r@ == msg_delete_not_found(id),
{
    let mut s = String::from_str("couldn't delete an item with id=");
    push_digits(&mut s, id);
    s.append(". item not found.");
    proof {
        assert(s@ =~= msg_delete_not_found(id));
    }
    s
}

} // verus!

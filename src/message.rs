use vstd::prelude::*;
use vstd::string::*;

verus! {

/// The character of decimal digit `d`, for `d < 10`.
pub open spec fn digit_char(d: nat) -> char {
    seq!['0', '1', '2', '3', '4', '5', '6', '7', '8', '9'][d as int]
}

/// The decimal digits of `n`, most significant first, without leading zeros.
pub open spec fn decimal_digits(n: nat) -> Seq<char>
    decreases n,
{
    if n < 10 {
        seq![digit_char(n)]
    } else {
        decimal_digits(n / 10).push(digit_char(n % 10))
    }
}

/// `i` written in decimal, with a leading `-` when negative.
pub open spec fn decimal(i: int) -> Seq<char> {
    if i < 0 {
        seq!['-'] + decimal_digits((-i) as nat)
    } else {
        decimal_digits(i as nat)
    }
}

/// The message of an insertion past the end of the list.
pub open spec fn no_item_message(index: int) -> Seq<char> {
    "no item with index "@ + decimal(index)
}

/// The message of an insertion that found no node to insert after.
pub open spec fn cannot_insert_message(index: int) -> Seq<char> {
    "can't insert after item with index "@ + decimal(index)
}

fn digit_str(d: u32) -> (r: &'static str)
    requires
        d < 10,
    ensures
        r@ == seq![digit_char(d as nat)],
{
    proof {
        reveal_strlit("0");
        reveal_strlit("1");
        reveal_strlit("2");
        reveal_strlit("3");
        reveal_strlit("4");
        reveal_strlit("5");
        reveal_strlit("6");
        reveal_strlit("7");
        reveal_strlit("8");
        reveal_strlit("9");
    }
    let r = match d {
        0 => "0",
        1 => "1",
        2 => "2",
        3 => "3",
        4 => "4",
        5 => "5",
        6 => "6",
        7 => "7",
        8 => "8",
        _ => "9",
    };
    assert(r@ =~= seq![digit_char(d as nat)]);
    r
}

fn append_digits(s: &mut String, n: u32)
    ensures
        final(s)@ == old(s)@ + decimal_digits(n as nat),
    decreases n,
{
    if n >= 10 {
        append_digits(s, n / 10);
    }
    s.append(digit_str(n % 10));
    assert(final(s)@ =~= old(s)@ + decimal_digits(n as nat));
}

fn append_decimal(s: &mut String, i: i32)
    ensures
        final(s)@ == old(s)@ + decimal(i as int),
{
    if i < 0 {
        s.append("-");
        proof {
            reveal_strlit("-");
        }
        let m: u32 = (-(i as i64)) as u32;
        append_digits(s, m);
        assert(final(s)@ =~= old(s)@ + decimal(i as int));
    } else {
        append_digits(s, i as u32);
    }
}

/// Builds the message of an insertion past the end of the list.
pub(crate) fn no_item(index: i32) -> (r: String)
    ensures
        r@ == no_item_message(index as int),
{
    let mut s = String::from_str("no item with index ");
    append_decimal(&mut s, index);
    s
}

/// Builds the message of an insertion that found no node to insert after.
pub(crate) fn cannot_insert(index: i32) -> (r: String)
    ensures
        r@ == cannot_insert_message(index as int),
{
    let mut s = String::from_str("can't insert after item with index ");
    append_decimal(&mut s, index);
    s
}

} // verus!

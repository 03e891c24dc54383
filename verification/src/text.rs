//! Decimal numbers in message text.

use vstd::prelude::*;
use vstd::string::*;

verus! {

/// The character of a decimal digit.
pub open spec fn digit_char(d: nat) -> char {
    if d == 0 {
        '0'
    } else if d == 1 {
        '1'
    } else if d == 2 {
        '2'
    } else if d == 3 {
        '3'
    } else if d == 4 {
        '4'
    } else if d == 5 {
        '5'
    } else if d == 6 {
        '6'
    } else if d == 7 {
        '7'
    } else if d == 8 {
        '8'
    } else {
        '9'
    }
}

/// A number in decimal, without leading zeros.
pub open spec fn decimal(n: nat) -> Seq<char>
    decreases n,
{
    if n < 10 {
        seq![digit_char(n)]
    } else {
        decimal(n / 10) + seq![digit_char(n % 10)]
    }
}

fn digit_text(d: u64) -> (s: &'static str)
    requires
        d < 10,
    ensures
        s@ == seq![digit_char(d as nat)],
{
    proof {
        reveal_strlit("0");
        reveal_strlit("1");
        reveal_strlit("2");
        reveal_strlit("3");
        reveal_strlit("4");
        reveal_strlit("5");
        reveal_strlit("6");
        reveal_strlit("7");
        reveal_strlit("8");
        reveal_strlit("9");
    }
    if d == 0 {
        "0"
    } else if d == 1 {
        "1"
    } else if d == 2 {
        "2"
    } else if d == 3 {
        "3"
    } else if d == 4 {
        "4"
    } else if d == 5 {
        "5"
    } else if d == 6 {
        "6"
    } else if d == 7 {
        "7"
    } else if d == 8 {
        "8"
    } else {
        "9"
    }
}

/// Appends a number in decimal.
pub fn append_decimal(s: &mut String, n: u64)
    ensures
        final(s)@ == old(s)@ + decimal(n as nat),
    decreases n,
{
    if n >= 10 {
        append_decimal(s, n / 10);
    }
    s.append(digit_text(n % 10));
    assert(final(s)@ =~= old(s)@ + decimal(n as nat));
}

/// A number in decimal followed by text.
pub fn number_then_text(n: u64, after: &str) -> (s: String)
    ensures
        s@ == decimal(n as nat) + after@,
{
    let mut s = String::new();
    append_decimal(&mut s, n);
    s.append(after);
    assert(s@ =~= decimal(n as nat) + after@);
    s
}

/// Text followed by a number in decimal.
pub fn text_then_number(before: &str, n: u64) -> (s: String)
    ensures
        s@ == before@ + decimal(n as nat),
{
    let mut s = String::from_str(before);
    append_decimal(&mut s, n);
    s
}

/// The message for channel `i` whose length `got` differs from channel 0's `want`:
/// `チャンネル{i}{mid}{got} != {want})`.
pub fn channel_length_text(i: u64, mid: &str, got: u64, want: u64) -> (s: String)
    ensures
        s@ == channel_length_message(i as nat, mid@, got as nat, want as nat),
{
    let mut s = String::from_str("チャンネル");
    append_decimal(&mut s, i);
    s.append(mid);
    append_decimal(&mut s, got);
    s.append(" != ");
    append_decimal(&mut s, want);
    s.append(")");
    s
}

/// `チャンネル{i}{mid}{got} != {want})`
pub open spec fn channel_length_message(i: nat, mid: Seq<char>, got: nat, want: nat) -> Seq<char> {
    "チャンネル"@ + decimal(i) + mid + decimal(got) + " != "@ + decimal(want) + ")"@
}

/// Whether channel `i` is the first whose length differs from channel 0's.
pub open spec fn is_first_mismatch(x: Seq<Seq<i32>>, i: int) -> bool {
    &&& 0 <= i < x.len()
    &&& x[i].len() != x[0].len()
    &&& forall|j: int| 0 <= j < i ==> #[trigger] x[j].len() == x[0].len()
}

} // verus!

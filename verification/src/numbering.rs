//! The gutter of a numbered line: the line's index in decimal, set to the
//! right of a field of fixed width, and a tab between it and the text.

use crate::count::{all_digits, decimal_value, digit_value, is_digit, positive_count};
use vstd::prelude::*;
use vstd::string::StringExecFns;

verus! {

/// The width of the field that holds a line's index. An index with more
/// digits than this is written in full and widens its own line.
pub const GUTTER_WIDTH: usize = 6;

/// The character for the digit `d`.
pub open spec fn digit_char(d: nat) -> char
    recommends
        d < 10,
{
    ('0' as nat + d) as char
}

/// `n` in decimal, most significant digit first, without leading zeros.
pub open spec fn decimal(n: nat) -> Seq<char>
    decreases n,
{
    if n < 10 {
        seq![digit_char(n)]
    } else {
        decimal(n / 10).push(digit_char(n % 10))
    }
}

/// `k` spaces.
pub open spec fn padding(k: nat) -> Seq<char> {
    Seq::new(k, |i: int| ' ')
}

/// The index `n` as it stands in front of a line: its decimal digits,
/// with spaces on their left up to the width of the gutter.
pub open spec fn gutter(n: nat) -> Seq<char> {
    let digits = decimal(n);
    if digits.len() < GUTTER_WIDTH {
        padding((GUTTER_WIDTH - digits.len()) as nat) + digits
    } else {
        digits
    }
}

/// The line `line` with the index `n` in front of it.
pub open spec fn numbered(n: nat, line: Seq<char>) -> Seq<char> {
    gutter(n) + seq!['\t'] + line
}

/// What `decimal` writes, `decimal_value` reads back: the digits of `n`
/// are digits, and they denote `n`.
pub proof fn lemma_decimal_denotes(n: nat)
    ensures
        decimal(n).len() >= 1,
        all_digits(decimal(n)),
        decimal_value(decimal(n)) == n,
    decreases n,
{
    let digits = decimal(n);
    if n < 10 {
        assert(decimal_value(digits.drop_last()) == 0);
    } else {
        lemma_decimal_denotes(n / 10);
        assert(digits.drop_last() =~= decimal(n / 10));
        assert forall|i: int| 0 <= i < digits.len() implies is_digit(#[trigger] digits[i]) by {
            if i < digits.len() - 1 {
                assert(digits[i] == decimal(n / 10)[i]);
            }
        }
    }
}

/// Every positive count has a text that is read as that count: the one that
/// `decimal` writes.
pub proof fn lemma_written_count_is_read_back(n: usize)
    requires
        n > 0,
    ensures
        positive_count(decimal(n as nat)) == Some(n),
{
    lemma_decimal_denotes(n as nat);
}

/// The text of one digit.
fn digit_text(d: usize) -> (text: &'static str)
    requires
        d < 10,
    ensures
        text@ == seq![digit_char(d as nat)],
{
    proof {
        reveal_strlit("0");
        reveal_strlit("1");
        reveal_strlit("2");
        reveal_strlit("3");
        reveal_strlit("4");
        reveal_strlit("5");
        reveal_strlit("6");
        reveal_strlit("7");
        reveal_strlit("8");
        reveal_strlit("9");
    }
    match d {
        0 => "0",
        1 => "1",
        2 => "2",
        3 => "3",
        4 => "4",
        5 => "5",
        6 => "6",
        7 => "7",
        8 => "8",
        _ => "9",
    }
}

/// Appends the decimal digits of `n` to `text`.
fn push_decimal(text: &mut String, n: usize)
    ensures
        final(text)@ == old(text)@ + decimal(n as nat),
    decreases n,
{
    if n >= 10 {
        push_decimal(text, n / 10);
    }
    text.append(digit_text(n % 10));
}

/// The number of decimal digits of `n`.
fn decimal_width(n: usize) -> (width: usize)
    ensures
        width == decimal(n as nat).len(),
        1 <= width <= n + 1,
    decreases n,
{
    if n < 10 {
        1
    } else {
        1 + decimal_width(n / 10)
    }
}

/// Writes the line `line` with the index `n` in front of it: the index
/// to the right of the gutter, a tab, and the line as it is.
pub fn number_line(n: usize, line: &str) -> (text: String)
    ensures
        text@ == numbered(n as nat, line@),
{
    let width = decimal_width(n);
    let mut text = String::new();
    let mut spaces: usize = 0;
    proof {
        reveal_strlit(" ");
        reveal_strlit("\t");
    }
    let wanted: usize = if width < GUTTER_WIDTH {
        GUTTER_WIDTH - width
    } else {
        0
    };
    while spaces < wanted
        invariant
            spaces <= wanted,
            text@ == padding(spaces as nat),
            " "@ == seq![' '],
        decreases wanted - spaces,
    {
        text.append(" ");
        spaces = spaces + 1;
    }
    push_decimal(&mut text, n);
    text.append("\t");
    text.append(line);
    text
}

} // verus!

//! Count arguments: a text that must denote a positive integer.

use vstd::prelude::*;

verus! {

/// Whether `c` is one of the ten decimal digits.
pub open spec fn is_digit(c: char) -> bool {
    '0' <= c <= '9'
}

/// The number that the decimal digit `c` stands for.
pub open spec fn digit_value(c: char) -> nat
    recommends
        is_digit(c),
{
    (c as nat - '0' as nat) as nat
}

/// Whether every character of `digits` is a decimal digit.
pub open spec fn all_digits(digits: Seq<char>) -> bool {
    forall|i: int| 0 <= i < digits.len() ==> is_digit(#[trigger] digits[i])
}

/// The number written by `digits` in base ten, most significant digit first.
pub open spec fn decimal_value(digits: Seq<char>) -> nat
    decreases digits.len(),
{
    if digits.len() == 0 {
        0
    } else {
        10 * decimal_value(digits.drop_last()) + digit_value(digits.last())
    }
}

/// What is left of `text` once one leading plus sign, if there is one, is set aside.
pub open spec fn unsigned_part(text: Seq<char>) -> Seq<char> {
    if text.len() > 0 && text[0] == '+' {
        text.subrange(1, text.len() as int)
    } else {
        text
    }
}

/// The non-negative integer that `text` denotes: at least one decimal digit,
/// with at most one plus sign in front and nothing else around. `None` for
/// every other text, the empty one and one with a minus sign included.
pub open spec fn denoted(text: Seq<char>) -> Option<nat> {
    let digits = unsigned_part(text);
    if digits.len() > 0 && all_digits(digits) {
        Some(decimal_value(digits))
    } else {
        None
    }
}

/// The count that `text` asks for: the integer it denotes, provided that it
/// is not zero and that the machine's word can hold it.
pub open spec fn positive_count(text: Seq<char>) -> Option<usize> {
    match denoted(text) {
        Some(n) => if 0 < n <= usize::MAX {
            Some(n as usize)
        } else {
            None
        },
        None => None,
    }
}

/// A count argument that was refused. It keeps the text as it was given.
#[derive(Debug)]
pub struct InvalidCountError {
    pub value: String,
}

impl InvalidCountError {
    /// The refused text, unchanged.
    pub fn to_string(&self) -> (text: String)
        ensures
            text@ == self.value@,
    {
        self.value.clone()
    }
}

/// A prefix of a digit string never denotes more than the whole string.
pub proof fn lemma_prefix_value_bounded(digits: Seq<char>, k: int)
    requires
        0 <= k <= digits.len(),
    ensures
        decimal_value(digits.take(k)) <= decimal_value(digits),
    decreases digits.len(),
{
    if k == digits.len() {
        assert(digits.take(k) =~= digits);
    } else {
        assert(digits.drop_last().take(k) =~= digits.take(k));
        lemma_prefix_value_bounded(digits.drop_last(), k);
    }
}

/// Reads `val` as a positive count.
///
/// The result is `Ok` exactly for the texts that denote an integer from 1 to
/// the largest value of `usize`; every other text comes back inside the error.
pub fn parse_positive_int(val: &str) -> (result: Result<usize, InvalidCountError>)
    ensures
        match result {
            Ok(n) => positive_count(val@) == Some(n),
            Err(e) => positive_count(val@) is None && e.value@ == val@,
        },
{
    if !val.is_ascii() {
        proof {
            lemma_not_ascii_not_denoting(val@);
        }
        return Err(InvalidCountError { value: val.to_owned() });
    }
    let n: usize = val.unicode_len();
    let start: usize = if n > 0 && val.get_ascii(0) == 43u8 {
        1
    } else {
        0
    };
    let ghost digits = unsigned_part(val@);
    if start == n {
        return Err(InvalidCountError { value: val.to_owned() });
    }
    let mut acc: usize = 0;
    let mut i: usize = start;
    while i < n
        invariant
            start <= i <= n,
            n == val@.len(),
            val.is_ascii(),
            digits == unsigned_part(val@),
            digits.len() == n - start,
            forall|j: int| 0 <= j < digits.len() ==> digits[j] == val@[j + start],
            all_digits(digits.take(i - start)),
            acc == decimal_value(digits.take(i - start)),
        decreases n - i,
    {
        let b: u8 = val.get_ascii(i);
        let ghost c = val@[i as int];
        assert(c == digits[i - start]);
        if b < 48u8 || b > 57u8 {
            return Err(InvalidCountError { value: val.to_owned() });
        }
        let d: usize = (b - 48u8) as usize;
        let ghost next = digits.take(i - start + 1);
        proof {
            assert(next.drop_last() =~= digits.take(i - start));
            assert forall|j: int| 0 <= j < next.len() implies is_digit(#[trigger] next[j]) by {
                if j < i - start {
                    assert(next[j] == digits.take(i - start)[j]);
                }
            }
        }
        if acc > (usize::MAX - d) / 10 {
            proof {
                lemma_prefix_value_bounded(digits, i - start + 1);
            }
            return Err(InvalidCountError { value: val.to_owned() });
        }
        acc = acc * 10 + d;
        i = i + 1;
    }
    assert(digits.take(i - start) =~= digits);
    if acc == 0 {
        Err(InvalidCountError { value: val.to_owned() })
    } else {
        Ok(acc)
    }
}

/// A text with a character outside ASCII denotes no integer.
proof fn lemma_not_ascii_not_denoting(text: Seq<char>)
    requires
        !vstd::utf8::is_ascii_chars(text),
    ensures
        denoted(text) is None,
{
    let j = choose|j: int| 0 <= j < text.len() && !('\0' <= #[trigger] text[j] <= '\u{7f}');
    let digits = unsigned_part(text);
    if text[0] == '+' {
        assert(!is_digit(digits[j - 1]));
    } else {
        assert(!is_digit(digits[j]));
    }
}

} // verus!

//! Reading what the user typed: trimming names and reading task ids.

use vstd::prelude::*;
use crate::vals::{MAX_TASKS, TaskStatus};

verus! {

/// A character with the Unicode `White_Space` property.
pub open spec fn is_white_space(c: char) -> bool {
    let u = c as u32;
    ||| 0x09 <= u <= 0x0D
    ||| u == 0x20
    ||| u == 0x85
    ||| u == 0xA0
    ||| u == 0x1680
    ||| 0x2000 <= u <= 0x200A
    ||| u == 0x2028
    ||| u == 0x2029
    ||| u == 0x202F
    ||| u == 0x205F
    ||| u == 0x3000
}

/// `s` without its leading white space.
pub open spec fn trim_front(s: Seq<char>) -> Seq<char>
    decreases s.len(),
{
    if s.len() > 0 && is_white_space(s[0]) {
        trim_front(s.drop_first())
    } else {
        s
    }
}

/// `s` without its trailing white space.
pub open spec fn trim_back(s: Seq<char>) -> Seq<char>
    decreases s.len(),
{
    if s.len() > 0 && is_white_space(s.last()) {
        trim_back(s.drop_last())
    } else {
        s
    }
}

/// `s` without leading and trailing white space.
pub open spec fn trimmed(s: Seq<char>) -> Seq<char> {
    trim_back(trim_front(s))
}

/// An ASCII decimal digit.
pub open spec fn is_digit(c: char) -> bool {
    '0' as u32 <= c as u32 <= '9' as u32
}

/// The number that a string of decimal digits writes.
pub open spec fn digits_value(s: Seq<char>) -> int
    decreases s.len(),
{
    if s.len() == 0 {
        0
    } else {
        digits_value(s.drop_last()) * 10 + (s.last() as u32 - '0' as u32)
    }
}

/// The character of a decimal digit `d` (for `0 <= d <= 9`).
pub open spec fn digit_char(d: int) -> char {
    if d == 0 { '0' }
    else if d == 1 { '1' }
    else if d == 2 { '2' }
    else if d == 3 { '3' }
    else if d == 4 { '4' }
    else if d == 5 { '5' }
    else if d == 6 { '6' }
    else if d == 7 { '7' }
    else if d == 8 { '8' }
    else { '9' }
}

/// How `n` is written in decimal, without sign or leading zeros.
pub open spec fn decimal(n: nat) -> Seq<char>
    decreases n,
{
    if n < 10 {
        seq![digit_char(n as int)]
    } else {
        decimal(n / 10).push(digit_char((n % 10) as int))
    }
}

/// What reading `s` as a `u16` gives: an optional `+`, then at least one
/// decimal digit and nothing else, with a value that fits in 16 bits.
pub open spec fn parsed_u16(s: Seq<char>) -> Option<u16> {
    let d = if s.len() > 0 && s[0] == '+' {
        s.drop_first()
    } else {
        s
    };
    if d.len() > 0 && (forall|i: int| 0 <= i < d.len() ==> is_digit(#[trigger] d[i]))
        && digits_value(d) <= u16::MAX {
        Some(digits_value(d) as u16)
    } else {
        None
    }
}

/// Calls `str::trim`, which returns the slice of `s` without its leading
/// and trailing characters of the Unicode `White_Space` property.
#[verifier::external_body]
pub(crate) fn trim_str<'a>(s: &'a str) -> (r: &'a str)
    ensures
        r@ == trimmed(s@),
{
    s.trim()
}

/// Calls `str::parse::<u16>`: an optional `+` followed by decimal digits,
/// whose value fits in a `u16`; anything else (white space too) is an error.
#[verifier::external_body]
pub(crate) fn parse_u16(s: &str) -> (r: Option<u16>)
    ensures
        r == parsed_u16(s@),
{
    s.parse::<u16>().ok()
}

/// Why a typed task id was refused.
#[derive(PartialEq, Eq, Structural, Debug, Clone, Copy)]
pub enum TaskIdError {
    /// The text, once trimmed, is not a number in `0..=65535`.
    Invalid,
    /// The number is larger than [`MAX_TASKS`].
    OutOfRange,
}

/// What reading a typed task id gives.
pub open spec fn task_id_result(input: Seq<char>) -> Result<u16, TaskIdError> {
    match parsed_u16(trimmed(input)) {
        None => Err(TaskIdError::Invalid),
        Some(v) => if v > MAX_TASKS {
            Err(TaskIdError::OutOfRange)
        } else {
            Ok(v)
        },
    }
}

/// Reads a task id typed by the user: surrounding white space is ignored,
/// the rest must be a `u16`, and ids above [`MAX_TASKS`] are refused.
pub fn parse_task_id(input: &str) -> (r: Result<u16, TaskIdError>)
    ensures
        r == task_id_result(input@),
{
    let t = trim_str(input);
    match parse_u16(t) {
        None => Err(TaskIdError::Invalid),
        Some(v) => {
            if v as usize > MAX_TASKS {
                Err(TaskIdError::OutOfRange)
            } else {
                Ok(v)
            }
        },
    }
}

/// Whether a typed name is empty once white space is trimmed away.
pub fn is_blank(name: &str) -> (r: bool)
    ensures
        r == (trimmed(name@).len() == 0),
{
    trim_str(name).is_empty()
}

/// `name` without its leading and trailing white space, as a new string.
pub fn trim_owned(name: &str) -> (r: String)
    ensures
        r@ == trimmed(name@),
{
    trim_str(name).to_owned()
}

/// Whether an edit asks for no change at all: no new name (already
/// trimmed) and the status "leave as it is".
pub fn edit_changes_nothing(new_name: &str, status: TaskStatus) -> (r: bool)
    ensures
        r == (new_name@.len() == 0 && status == TaskStatus::Nth),
{
    new_name.is_empty() && status == TaskStatus::Nth
}

} // verus!

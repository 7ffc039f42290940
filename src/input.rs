//! Reading an operator's answer: which members of a group to discard.

use vstd::prelude::*;

verus! {

/// Why a token is not a member number.
#[derive(Debug, Clone, Copy, PartialEq, Eq, Structural)]
pub enum ParseFailure {
    /// The token is empty.
    Empty,
    /// The token holds a character that is not a decimal digit.
    InvalidDigit,
    /// The number does not fit in a `usize`.
    TooLarge,
}

/// A character of Unicode's `White_Space` property.
pub open spec fn is_white_space(c: char) -> bool {
    let u = c as u32;
    (0x9 <= u && u <= 0xd) || u == 0x20 || u == 0x85 || u == 0xa0 || u == 0x1680 || (0x2000 <= u
        && u <= 0x200a) || u == 0x2028 || u == 0x2029 || u == 0x202f || u == 0x205f || u == 0x3000
}

/// `s` with its leading white space removed.
pub open spec fn trim_start_of(s: Seq<char>) -> Seq<char>
    decreases s.len(),
{
    if s.len() > 0 && is_white_space(s[0]) {
        trim_start_of(s.drop_first())
    } else {
        s
    }
}

/// `s` with its trailing white space removed.
pub open spec fn trim_end_of(s: Seq<char>) -> Seq<char>
    decreases s.len(),
{
    if s.len() > 0 && is_white_space(s.last()) {
        trim_end_of(s.drop_last())
    } else {
        s
    }
}

/// `s` with the leading and trailing white space removed.
pub open spec fn trim_of(s: Seq<char>) -> Seq<char> {
    trim_end_of(trim_start_of(s))
}

/// Relies on `str::trim`: the leading and trailing characters of the
/// `White_Space` property removed.
#[verifier::external_body]
pub(crate) fn trimmed(s: &str) -> (r: &str)
    ensures
        r@ == trim_of(s@),
{
    s.trim()
}

/// The pieces of `s` between commas, in order: one more than there are commas.
pub open spec fn comma_pieces(s: Seq<char>) -> Seq<Seq<char>>
    decreases s.len(),
{
    if s.len() == 0 {
        seq![Seq::empty()]
    } else {
        let rest = comma_pieces(s.drop_last());
        if s.last() == ',' {
            rest.push(Seq::empty())
        } else {
            rest.update(rest.len() - 1, rest.last().push(s.last()))
        }
    }
}

/// Relies on `str::split` with the pattern `','`: the pieces between commas.
#[verifier::external_body]
pub(crate) fn split_commas(s: &str) -> (r: Vec<String>)
    ensures
        r@.map_values(|p: String| p@) == comma_pieces(s@),
{
    s.split(',').map(|p| p.to_string()).collect()
}

pub open spec fn is_digit(c: char) -> bool {
    '0' <= c && c <= '9'
}

/// The value of a string of decimal digits.
pub open spec fn decimal_value(s: Seq<char>) -> nat
    decreases s.len(),
{
    if s.len() == 0 {
        0
    } else {
        decimal_value(s.drop_last()) * 10 + ((s.last() as u32) - ('0' as u32)) as nat
    }
}

/// The digits of a number with its optional leading `+` removed.
pub open spec fn unsigned_digits(s: Seq<char>) -> Seq<char> {
    if s.len() > 0 && s[0] == '+' {
        s.drop_first()
    } else {
        s
    }
}

/// `s` is an optional `+` followed by one or more decimal digits.
pub open spec fn is_number(s: Seq<char>) -> bool {
    unsigned_digits(s).len() > 0 && forall|i: int|
        0 <= i < unsigned_digits(s).len() ==> is_digit(#[trigger] unsigned_digits(s)[i])
}

/// What parsing `s` as a `usize` may give: its value where it is a number that
/// fits; `TooLarge` where it is a number that does not; `Empty` exactly for an
/// empty string; for any other string a failure other than `Empty`.
pub open spec fn parse_admits(s: Seq<char>, r: Result<usize, ParseFailure>) -> bool {
    if s.len() == 0 {
        r == Err::<usize, ParseFailure>(ParseFailure::Empty)
    } else if is_number(s) {
        if decimal_value(unsigned_digits(s)) <= usize::MAX {
            r == Ok::<usize, ParseFailure>(decimal_value(unsigned_digits(s)) as usize)
        } else {
            r == Err::<usize, ParseFailure>(ParseFailure::TooLarge)
        }
    } else {
        r matches Err(k) && k != ParseFailure::Empty
    }
}

/// Relies on `str::parse::<usize>`: an optional `+` and decimal digits are
/// read as a number, failing with `IntErrorKind::Empty` on an empty string and
/// `PosOverflow` on a number too large; any other string fails otherwise.
#[verifier::external_body]
pub(crate) fn parse_usize(s: &str) -> (r: Result<usize, ParseFailure>)
    ensures
        parse_admits(s@, r),
{
    match s.parse::<usize>() {
        Ok(n) => Ok(n),
        Err(e) => Err(match e.kind() {
            std::num::IntErrorKind::Empty => ParseFailure::Empty,
            std::num::IntErrorKind::InvalidDigit => ParseFailure::InvalidDigit,
            _ => ParseFailure::TooLarge,
        }),
    }
}

} // verus!

//! Numbers in command lines and settings.

use vstd::prelude::*;
use vstd::string::*;

verus! {

/// Whether a text is made of decimal digits, at least one.
pub open spec fn all_digits(s: Seq<char>) -> bool {
    s.len() > 0 && forall|i: int| 0 <= i < s.len() ==> '0' <= #[trigger] s[i] <= '9'
}

/// The number that decimal digits stand for.
pub open spec fn digits_value(s: Seq<char>) -> nat
    decreases s.len(),
{
    if s.len() == 0 {
        0
    } else {
        digits_value(s.drop_last()) * 10 + (s.last() as nat - '0' as nat) as nat
    }
}

/// The number that a text stands for: digits, with or without a plus sign in front.
pub open spec fn unsigned_value(s: Seq<char>) -> Option<int> {
    let digits = if s.len() > 0 && s[0] == '+' {
        s.drop_first()
    } else {
        s
    };
    if all_digits(digits) {
        Some(digits_value(digits) as int)
    } else {
        None
    }
}

/// The number that a text stands for: digits, with or without a sign in front.
pub open spec fn signed_value(s: Seq<char>) -> Option<int> {
    if s.len() > 0 && s[0] == '-' {
        if all_digits(s.drop_first()) {
            Some(-(digits_value(s.drop_first()) as int))
        } else {
            None
        }
    } else {
        unsigned_value(s)
    }
}

/// What `str::parse` says of a text that is no `usize`.
pub uninterp spec fn usize_complaint(s: Seq<char>) -> Seq<char>;

/// Calls `str::parse` for a `usize`, which takes digits with or without a plus sign in
/// front, as long as the number fits. What it says of any other text is given a name.
#[verifier::external_body]
pub(crate) fn parse_usize(s: &str) -> (r: Result<usize, String>)
    ensures
        r.is_ok() == (unsigned_value(s@) is Some && unsigned_value(s@)->Some_0 <= usize::MAX),
        r.is_ok() ==> r->Ok_0 == unsigned_value(s@)->Some_0,
        r.is_err() ==> r->Err_0@ == usize_complaint(s@),
{
    s.parse::<usize>().map_err(|e| e.to_string())
}

/// Calls `str::parse` for an `i64`, which takes digits with or without a sign in front, as
/// long as the number fits.
#[verifier::external_body]
pub(crate) fn parse_i64(s: &str) -> (r: Option<i64>)
    ensures
        r.is_some() == (signed_value(s@) is Some && i64::MIN <= signed_value(s@)->Some_0 <= i64::MAX),
        r.is_some() ==> r->Some_0 == signed_value(s@)->Some_0,
{
    s.parse::<i64>().ok()
}

} // verus!

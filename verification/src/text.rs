//! Character classification and string building that the lexer needs from std.
use vstd::prelude::*;

verus! {

/// Whether `c` has the Unicode `Alphabetic` property, as `char::is_alphabetic` reports it.
pub uninterp spec fn unicode_alphabetic(c: char) -> bool;

/// Whether `c` is Unicode alphabetic or numeric, as `char::is_alphanumeric` reports it.
pub uninterp spec fn unicode_alphanumeric(c: char) -> bool;

/// An ASCII letter, `A`..=`Z` or `a`..=`z`.
pub open spec fn is_ascii_letter(c: char) -> bool {
    ('a' <= c && c <= 'z') || ('A' <= c && c <= 'Z')
}

/// An ASCII decimal digit, `0`..=`9`.
pub open spec fn is_digit(c: char) -> bool {
    '0' <= c && c <= '9'
}

/// Calls `char::is_alphabetic`. Its documentation defines the result by the Unicode
/// `Alphabetic` property; the contract names that result, and states the one fact that the
/// property plainly gives: among ASCII characters exactly the letters have it.
#[verifier::external_body]
pub(crate) fn is_alphabetic(c: char) -> (r: bool)
    ensures
        r == unicode_alphabetic(c),
        (c as u32) < 128 ==> (r <==> is_ascii_letter(c)),
{
    c.is_alphabetic()
}

/// Calls `char::is_alphanumeric`, documented as "`is_alphabetic()` or `is_numeric()`".
/// The contract names the result and states what that definition gives: every alphabetic
/// character is alphanumeric, and among ASCII characters exactly the letters and digits are.
#[verifier::external_body]
pub(crate) fn is_alphanumeric(c: char) -> (r: bool)
    ensures
        r == unicode_alphanumeric(c),
        unicode_alphabetic(c) ==> r,
        (c as u32) < 128 ==> (r <==> (is_ascii_letter(c) || is_digit(c))),
{
    c.is_alphanumeric()
}

/// Calls `String::push`, which appends `c` to the end of `s`.
#[verifier::external_body]
pub(crate) fn push_char(s: &mut String, c: char)
    ensures
        final(s)@ == old(s)@.push(c),
{
    s.push(c)
}

} // verus!

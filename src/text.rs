use vstd::prelude::*;

verus! {

/// The first character of the uppercase mapping of `c`.
pub uninterp spec fn first_uppercase(c: char) -> char;

/// Whether std classes `c` as alphanumeric.
pub uninterp spec fn alphanumeric(c: char) -> bool;

/// Relies on `String::push`: appends one character.
#[verifier::external_body]
pub(crate) fn push_char(s: &mut String, c: char)
    ensures
        final(s)@ == old(s)@.push(c),
{
    s.push(c)
}

/// Relies on `char::to_uppercase`: its iterator yields one or more characters,
/// of which this is the first.
#[verifier::external_body]
pub(crate) fn uppercase_first(c: char) -> (r: Option<char>)
    ensures
        r == Some(first_uppercase(c)),
{
    c.to_uppercase().next()
}

/// Relies on `char::is_alphanumeric`.
#[verifier::external_body]
pub(crate) fn is_alphanumeric(c: char) -> (r: bool)
    ensures
        r == alphanumeric(c),
{
    c.is_alphanumeric()
}

} // verus!

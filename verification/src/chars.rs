//! The char classes that word motion and trimming use, from std.

use vstd::prelude::*;

verus! {

/// Whether a non-ASCII `c` has the Unicode `White_Space` property.
pub uninterp spec fn non_ascii_is_whitespace(c: char) -> bool;

/// Whether a non-ASCII `c` is alphabetic or numeric in Unicode.
pub uninterp spec fn non_ascii_is_alphanumeric(c: char) -> bool;

/// `char::is_whitespace`: the Unicode `White_Space` property, which among
/// ASCII chars holds for tab, line feed, vertical tab, form feed, carriage
/// return and space.
pub open spec fn char_is_whitespace(c: char) -> bool {
    if (c as u32) < 0x80 {
        c == ' ' || ('\t' <= c <= '\r')
    } else {
        non_ascii_is_whitespace(c)
    }
}

/// `char::is_alphanumeric`: alphabetic or numeric in Unicode, which among
/// ASCII chars holds for the letters and digits.
pub open spec fn char_is_alphanumeric(c: char) -> bool {
    if (c as u32) < 0x80 {
        ('a' <= c <= 'z') || ('A' <= c <= 'Z') || ('0' <= c <= '9')
    } else {
        non_ascii_is_alphanumeric(c)
    }
}

/// `char::is_whitespace`. On ASCII chars its documented `White_Space`
/// membership is stated; on other chars it is named, a function of `c`
/// alone.
#[verifier::external_body]
pub(crate) fn is_whitespace(c: char) -> (r: bool)
    ensures
        r == char_is_whitespace(c),
        (c as u32) >= 0x80 ==> r == non_ascii_is_whitespace(c),
{
    c.is_whitespace()
}

/// `char::is_alphanumeric`. On ASCII chars it holds for letters and digits;
/// on other chars it is named, a function of `c` alone.
#[verifier::external_body]
pub(crate) fn is_alphanumeric(c: char) -> (r: bool)
    ensures
        r == char_is_alphanumeric(c),
        (c as u32) >= 0x80 ==> r == non_ascii_is_alphanumeric(c),
{
    c.is_alphanumeric()
}

} // verus!

//! The calls into `ropey` that buffers make, and what they are trusted to do.

use ropey::Rope;
use vstd::prelude::*;
use crate::text::{breaks_before, is_line_start, line_count, line_text};

verus! {

#[verifier::external_type_specification]
#[verifier::external_body]
pub struct ExRope(Rope);

/// The chars a rope holds, in order.
pub uninterp spec fn rope_text(r: Rope) -> Seq<char>;

/// `Rope::new` gives an empty rope.
pub assume_specification[ Rope::new ]() -> (r: Rope)
    ensures
        rope_text(r) == Seq::<char>::empty(),
;

/// `Rope::from_str` gives a rope holding the chars of `text`.
pub assume_specification[ Rope::from_str ](text: &str) -> (r: Rope)
    ensures
        rope_text(r) == text@,
;

/// `Rope::len_chars` is the number of chars.
pub assume_specification[ Rope::len_chars ](r: &Rope) -> (n: usize)
    ensures
        n == rope_text(*r).len(),
;

/// `Rope::len_lines` is one more than the number of line breaks, with the
/// line breaks of ropey's default `unicode_lines` feature (LF, VT, FF, CR,
/// NEL, U+2028, U+2029, and CRLF counted once).
pub assume_specification[ Rope::len_lines ](r: &Rope) -> (n: usize)
    ensures
        n == line_count(rope_text(*r)),
;

/// `Rope::insert` puts the chars of `text` at char index `char_idx`; it
/// panics past the end, which `requires` rules out.
pub assume_specification[ Rope::insert ](r: &mut Rope, char_idx: usize, text: &str)
    requires
        char_idx <= rope_text(*old(r)).len(),
    ensures
        rope_text(*final(r)) == rope_text(*old(r)).take(char_idx as int) + text@ + rope_text(
            *old(r),
        ).skip(char_idx as int),
;

/// `Rope::char` is the char at `char_idx`; it panics at or past the end.
pub assume_specification[ Rope::char ](r: &Rope, char_idx: usize) -> (c: char)
    requires
        char_idx < rope_text(*r).len(),
    ensures
        c == rope_text(*r)[char_idx as int],
;

/// `Rope::char_to_line` counts the line breaks before `char_idx` (which may
/// be one past the end); it panics further out.
pub assume_specification[ Rope::char_to_line ](r: &Rope, char_idx: usize) -> (l: usize)
    requires
        char_idx <= rope_text(*r).len(),
    ensures
        l == breaks_before(rope_text(*r), char_idx as int),
;

/// `Rope::line_to_char` is the char index where line `line_idx` starts:
/// index 0 or just after a line break, with `line_idx` line breaks before
/// it; one past the last line gives the length. It panics further out.
pub assume_specification[ Rope::line_to_char ](r: &Rope, line_idx: usize) -> (p: usize)
    requires
        line_idx <= line_count(rope_text(*r)),
    ensures
        p <= rope_text(*r).len(),
        line_idx == line_count(rope_text(*r)) ==> p == rope_text(*r).len(),
        line_idx < line_count(rope_text(*r)) ==> is_line_start(rope_text(*r), p as int)
            && breaks_before(rope_text(*r), p as int) == line_idx,
;

/// A cloned rope holds the same chars.
pub assume_specification[ <Rope as Clone>::clone ](r: &Rope) -> (c: Rope)
    ensures
        rope_text(c) == rope_text(*r),
;

/// `Rope::remove` over `start..end` takes those chars out; it panics if
/// `start > end` or `end` is past the end, which `requires` rules out.
#[verifier::external_body]
pub(crate) fn rope_remove(r: &mut Rope, start: usize, end: usize)
    requires
        start <= end <= rope_text(*old(r)).len(),
    ensures
        rope_text(*final(r)) == rope_text(*old(r)).take(start as int) + rope_text(*old(r)).skip(
            end as int,
        ),
{
    r.remove(start..end)
}

/// The rope's `Display` output as a `String`: its chars.
#[verifier::external_body]
pub(crate) fn rope_to_string(r: &Rope) -> (s: String)
    ensures
        s@ == rope_text(*r),
{
    r.to_string()
}

/// `Rope::line(line_idx)` as a `String`: the chars of that line, including
/// its line break. It panics at or past the line count.
#[verifier::external_body]
pub(crate) fn rope_line_to_string(r: &Rope, line_idx: usize) -> (s: String)
    requires
        line_idx < line_count(rope_text(*r)),
    ensures
        s@ == line_text(rope_text(*r), line_idx as int),
{
    r.line(line_idx).to_string()
}

} // verus!

verus! {

/// The number of bytes a char takes in UTF-8 (`char::len_utf8`).
pub open spec fn utf8_width(c: char) -> nat {
    let v = c as u32;
    if v < 0x80 {
        1
    } else if v < 0x800 {
        2
    } else if v < 0x10000 {
        3
    } else {
        4
    }
}

/// The number of bytes the chars take in UTF-8.
pub open spec fn utf8_len(s: Seq<char>) -> nat
    decreases s.len(),
{
    if s.len() == 0 {
        0
    } else {
        utf8_len(s.drop_last()) + utf8_width(s.last())
    }
}

/// `Rope::len_bytes`: the text is stored as UTF-8, so this is the UTF-8
/// length of its chars.
pub assume_specification[ Rope::len_bytes ](r: &Rope) -> (n: usize)
    ensures
        n == utf8_len(rope_text(*r)),
;

} // verus!

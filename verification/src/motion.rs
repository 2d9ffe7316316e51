//! Where cursor motions land, as functions of the text.

use vstd::prelude::*;
use crate::chars::{char_is_alphanumeric, char_is_whitespace};
use crate::cursor::{Cursor, spec_extend_to, spec_move_to};
use crate::text::{breaks_before, lemma_line_start_props, line_count, line_end, line_start, line_text};

verus! {

/// Word chars: alphanumerics and `_`.
pub open spec fn is_word_char_spec(c: char) -> bool {
    char_is_alphanumeric(c) || c == '_'
}

/// From `p`, back over whitespace.
pub open spec fn skip_ws_left(s: Seq<char>, p: int) -> int
    decreases p,
{
    if 0 < p <= s.len() && char_is_whitespace(s[p - 1]) {
        skip_ws_left(s, p - 1)
    } else {
        p
    }
}

/// From `p`, back over non-whitespace chars whose word-ness is `word`.
pub open spec fn skip_class_left(s: Seq<char>, p: int, word: bool) -> int
    decreases p,
{
    if 0 < p <= s.len() && !char_is_whitespace(s[p - 1]) && is_word_char_spec(s[p - 1]) == word {
        skip_class_left(s, p - 1, word)
    } else {
        p
    }
}

/// Where a word-left motion from `p` lands: back over whitespace, then over
/// the run of chars of the same class (word chars, or other non-blanks).
pub open spec fn word_left_target(s: Seq<char>, p: int) -> int {
    let q = skip_ws_left(s, p);
    if q > 0 {
        skip_class_left(s, q, is_word_char_spec(s[q - 1]))
    } else {
        q
    }
}

/// From `p`, forward over whitespace.
pub open spec fn skip_ws_right(s: Seq<char>, p: int) -> int
    decreases s.len() - p,
{
    if 0 <= p < s.len() && char_is_whitespace(s[p]) {
        skip_ws_right(s, p + 1)
    } else {
        p
    }
}

/// From `p`, forward over non-whitespace chars whose word-ness is `word`.
pub open spec fn skip_class_right(s: Seq<char>, p: int, word: bool) -> int
    decreases s.len() - p,
{
    if 0 <= p < s.len() && !char_is_whitespace(s[p]) && is_word_char_spec(s[p]) == word {
        skip_class_right(s, p + 1, word)
    } else {
        p
    }
}

/// Where a word-right motion from `p` lands: forward over whitespace, then
/// over the run of chars of the same class.
pub open spec fn word_right_target(s: Seq<char>, p: int) -> int {
    let q = skip_ws_right(s, p);
    if 0 <= q < s.len() {
        skip_class_right(s, q, is_word_char_spec(s[q]))
    } else {
        q
    }
}

/// The end of line `l`'s visible content: just before its `\n` or `\r\n`
/// terminator, or the text's end for the last line.
pub open spec fn content_end(s: Seq<char>, l: int) -> int {
    let start = line_start(s, l);
    let full = if l + 1 < line_count(s) { line_start(s, l + 1) } else { s.len() as int };
    if full > start && s[full - 1] == '\n' {
        let e = full - 1;
        if e > start && s[e - 1] == '\r' {
            e - 1
        } else {
            e
        }
    } else {
        full
    }
}

pub open spec fn min_int(a: int, b: int) -> int {
    if a <= b { a } else { b }
}

/// The line the cursor's head is on (a head past the end counts as at the end).
pub open spec fn head_line(s: Seq<char>, c: Cursor) -> int {
    breaks_before(s, min_int(c.head as int, s.len() as int)) as int
}

/// The column vertical motion aims for: the remembered one, or the head's
/// offset into its line.
pub open spec fn goal_col(s: Seq<char>, c: Cursor) -> int {
    match c.sticky_col {
        Some(col) => col as int,
        None => c.head - line_start(s, head_line(s, c)),
    }
}

/// Where moving up lands: the goal column on the line above, clamped to that
/// line's content; the text's start from the first line.
pub open spec fn up_target(s: Seq<char>, c: Cursor) -> int {
    let line = head_line(s, c);
    if line == 0 {
        0
    } else {
        min_int(line_start(s, line - 1) + goal_col(s, c), content_end(s, line - 1))
    }
}

/// Where moving down lands: the goal column on the line below, clamped to
/// that line's content; the text's end from the last line.
pub open spec fn down_target(s: Seq<char>, c: Cursor) -> int {
    let line = head_line(s, c);
    if line >= line_count(s) - 1 {
        s.len() as int
    } else {
        min_int(line_start(s, line + 1) + goal_col(s, c), content_end(s, line + 1))
    }
}

/// A horizontal move to `pos`: extend the selection or drop it, and forget
/// the remembered column.
pub open spec fn horizontal(c: Cursor, pos: usize, extend: bool) -> Cursor {
    Cursor { sticky_col: None, ..(if extend { spec_extend_to(c, pos) } else { spec_move_to(c, pos) }) }
}

/// A vertical move to `pos`, remembering column `col`.
pub open spec fn vertical(c: Cursor, pos: usize, col: usize, extend: bool) -> Cursor {
    Cursor { sticky_col: Some(col), ..(if extend { spec_extend_to(c, pos) } else { spec_move_to(c, pos) }) }
}

} // verus!

verus! {

/// Vertical motion aims for the remembered column when there is one, else
/// the head's column on its line: moving up from line `l > 0` lands on that
/// column of line `l - 1`, or at its content's end if the line is shorter,
/// and from the first line at the text's start; moving down is the mirror
/// image, landing at the text's end from the last line. The aimed-for
/// column is what the motion remembers.
pub proof fn law_vertical_motion_column(s: Seq<char>, c: Cursor)
    ensures
        ({
            let h = if c.head < s.len() { c.head as int } else { s.len() as int };
            let l = breaks_before(s, h) as int;
            let col = match c.sticky_col {
                Some(k) => k as int,
                None => c.head - line_start(s, l),
            };
            &&& goal_col(s, c) == col
            &&& l == 0 ==> up_target(s, c) == 0
            &&& l > 0 ==> up_target(s, c) == if line_start(s, l - 1) + col <= content_end(s, l - 1) {
                line_start(s, l - 1) + col
            } else {
                content_end(s, l - 1)
            }
            &&& l + 1 >= line_count(s) ==> down_target(s, c) == s.len()
            &&& l + 1 < line_count(s) ==> down_target(s, c) == if line_start(s, l + 1) + col <= content_end(
                s,
                l + 1,
            ) {
                line_start(s, l + 1) + col
            } else {
                content_end(s, l + 1)
            }
        }),
{
}

/// A vertical motion remembers the column it aimed for, so the next one
/// aims for the same column, whatever line it lands on and whatever the
/// text is then.
pub proof fn law_vertical_motion_remembers_column(s: Seq<char>, t: Seq<char>, c: Cursor, pos: usize, extend: bool)
    requires
        0 <= goal_col(s, c) <= usize::MAX,
    ensures
        goal_col(t, vertical(c, pos, goal_col(s, c) as usize, extend)) == goal_col(s, c),
        vertical(c, pos, goal_col(s, c) as usize, extend).head == pos,
{
}

/// A horizontal motion forgets the remembered column, so the next vertical
/// motion aims for the column the head is then on.
pub proof fn law_horizontal_motion_forgets_column(c: Cursor, pos: usize, extend: bool)
    ensures
        horizontal(c, pos, extend).sticky_col is None,
        horizontal(c, pos, extend).head == pos,
{
}

} // verus!

verus! {

proof fn lemma_skip_ws_right(s: Seq<char>, p: int)
    requires
        0 <= p <= s.len(),
    ensures
        p <= skip_ws_right(s, p) <= s.len(),
        forall|i: int| p <= i < skip_ws_right(s, p) ==> char_is_whitespace(#[trigger] s[i]),
        skip_ws_right(s, p) == s.len() || !char_is_whitespace(s[skip_ws_right(s, p)]),
    decreases s.len() - p,
{
    if p < s.len() && char_is_whitespace(s[p]) {
        lemma_skip_ws_right(s, p + 1);
    }
}

proof fn lemma_skip_class_right(s: Seq<char>, p: int, word: bool)
    requires
        0 <= p <= s.len(),
    ensures
        p <= skip_class_right(s, p, word) <= s.len(),
        forall|i: int|
            p <= i < skip_class_right(s, p, word) ==> !char_is_whitespace(#[trigger] s[i]) && is_word_char_spec(s[i]) == word,
        skip_class_right(s, p, word) == s.len() || char_is_whitespace(s[skip_class_right(s, p, word)])
            || is_word_char_spec(s[skip_class_right(s, p, word)]) != word,
    decreases s.len() - p,
{
    if p < s.len() && !char_is_whitespace(s[p]) && is_word_char_spec(s[p]) == word {
        lemma_skip_class_right(s, p + 1, word);
    }
}

proof fn lemma_skip_ws_left(s: Seq<char>, p: int)
    requires
        0 <= p <= s.len(),
    ensures
        0 <= skip_ws_left(s, p) <= p,
        forall|i: int| skip_ws_left(s, p) <= i < p ==> char_is_whitespace(#[trigger] s[i]),
        skip_ws_left(s, p) == 0 || !char_is_whitespace(s[skip_ws_left(s, p) - 1]),
    decreases p,
{
    if 0 < p && char_is_whitespace(s[p - 1]) {
        lemma_skip_ws_left(s, p - 1);
    }
}

proof fn lemma_skip_class_left(s: Seq<char>, p: int, word: bool)
    requires
        0 <= p <= s.len(),
    ensures
        0 <= skip_class_left(s, p, word) <= p,
        forall|i: int|
            skip_class_left(s, p, word) <= i < p ==> !char_is_whitespace(#[trigger] s[i]) && is_word_char_spec(s[i]) == word,
        skip_class_left(s, p, word) == 0 || char_is_whitespace(s[skip_class_left(s, p, word) - 1])
            || is_word_char_spec(s[skip_class_left(s, p, word) - 1]) != word,
    decreases p,
{
    if 0 < p && !char_is_whitespace(s[p - 1]) && is_word_char_spec(s[p - 1]) == word {
        lemma_skip_class_left(s, p - 1, word);
    }
}

/// Word-right from `p` passes the whitespace after `p` up to the first
/// non-whitespace position `q`;
/// at the text's end it stops there, otherwise it goes on over the whole
/// run of non-whitespace chars of `s[q]`'s class (word chars, or other
/// non-blanks) and stops where that run ends: at the text's end, at
/// whitespace, or at a char of the other class.
pub proof fn law_word_right(s: Seq<char>, p: int)
    requires
        0 <= p <= s.len(),
    ensures
        p <= word_right_target(s, p) <= s.len(),
        ({
            let t = word_right_target(s, p);
            let q = skip_ws_right(s, p);
            &&& p <= q <= t
            &&& q == s.len() || !char_is_whitespace(s[q])
            &&& forall|i: int| p <= i < q ==> char_is_whitespace(#[trigger] s[i])
            &&& q == s.len() ==> t == q
            &&& q < s.len() ==> {
                &&& !char_is_whitespace(s[q])
                &&& q < t
                &&& forall|i: int| q <= i < t ==> !char_is_whitespace(#[trigger] s[i])
                    && is_word_char_spec(s[i]) == is_word_char_spec(s[q])
                &&& t == s.len() || char_is_whitespace(s[t]) || is_word_char_spec(s[t]) != is_word_char_spec(s[q])
            }
        }),
{
    let q = skip_ws_right(s, p);
    lemma_skip_ws_right(s, p);
    if q < s.len() {
        lemma_skip_class_right(s, q, is_word_char_spec(s[q]));
    }
    let t = word_right_target(s, p);
    assert(p <= q <= t);
}

/// Word-left from `p` passes the whitespace before `p` back to the first
/// position `q` with no whitespace between it and `p` and a non-whitespace
/// char (or the text's start) before it;
/// at the text's start it stops there, otherwise it goes on back over the
/// whole run of non-whitespace chars of `s[q - 1]`'s class and stops where
/// that run starts: at the text's start, after whitespace, or after a char
/// of the other class.
pub proof fn law_word_left(s: Seq<char>, p: int)
    requires
        0 <= p <= s.len(),
    ensures
        0 <= word_left_target(s, p) <= p,
        ({
            let t = word_left_target(s, p);
            let q = skip_ws_left(s, p);
            &&& t <= q <= p
            &&& q == 0 || !char_is_whitespace(s[q - 1])
            &&& forall|i: int| q <= i < p ==> char_is_whitespace(#[trigger] s[i])
            &&& q == 0 ==> t == 0
            &&& q > 0 ==> {
                &&& !char_is_whitespace(s[q - 1])
                &&& t < q
                &&& forall|i: int| t <= i < q ==> !char_is_whitespace(#[trigger] s[i])
                    && is_word_char_spec(s[i]) == is_word_char_spec(s[q - 1])
                &&& t == 0 || char_is_whitespace(s[t - 1]) || is_word_char_spec(s[t - 1]) != is_word_char_spec(s[q - 1])
            }
        }),
{
    let q = skip_ws_left(s, p);
    lemma_skip_ws_left(s, p);
    if q > 0 {
        lemma_skip_class_left(s, q, is_word_char_spec(s[q - 1]));
    }
    let t = word_left_target(s, p);
    assert(t <= q <= p);
}

} // verus!

verus! {

/// Where a line's content ends: before the `\r\n` or `\n` that ends its
/// text, and at its text's end when that is neither (the last line, or a
/// line ended by another break char).
pub proof fn law_content_end(s: Seq<char>, l: int)
    requires
        0 <= l < line_count(s),
    ensures
        ({
            let t = line_text(s, l);
            let n = t.len() as int;
            content_end(s, l) == line_start(s, l) + if n >= 2 && t[n - 2] == '\r' && t[n - 1] == '\n' {
                n - 2
            } else if n >= 1 && t[n - 1] == '\n' {
                n - 1
            } else {
                n
            }
        }),
{
    lemma_line_start_props(s, l);
    lemma_line_start_props(s, l + 1);
    let start = line_start(s, l);
    let full = line_end(s, l);
    assert(full == if l + 1 < line_count(s) { line_start(s, l + 1) } else { s.len() as int });
    let t = line_text(s, l);
    assert(t.len() == full - start);
    let n = t.len() as int;
    if n >= 1 {
        assert(t[n - 1] == s[full - 1]);
    }
    if n >= 2 {
        assert(t[n - 2] == s[full - 2]);
    }
}

} // verus!

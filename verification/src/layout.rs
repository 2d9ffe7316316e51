//! Mapping between char offsets in a rope and the (line, byte index)
//! positions that text layout works in.

use ropey::Rope;
use vstd::prelude::*;
use crate::editor::{Editor, EditorModel, active_cursor, has_active_cursor, head_or_zero};
use crate::lsp::{decimal, decimal_chars};
use crate::rope::{rope_text, utf8_len, utf8_width};
use crate::strings::{chars_to_string, extend_chars, extend_chars_str, str_to_chars};
use crate::text::{breaks_before, is_start_of_line, lemma_line_of, lemma_line_start, lemma_line_start_props, line_count, line_start, line_text, line_end};

verus! {

/// A position in laid-out text: a line index and a byte index into that
/// line's text.
#[derive(Debug, Clone, Copy, PartialEq, Eq, Structural)]
pub struct LayoutCursor {
    pub line: usize,
    pub index: usize,
}

pub proof fn lemma_utf8_len_concat(a: Seq<char>, b: Seq<char>)
    ensures
        utf8_len(a + b) == utf8_len(a) + utf8_len(b),
    decreases b.len(),
{
    if b.len() > 0 {
        lemma_utf8_len_concat(a, b.drop_last());
        assert((a + b).drop_last() =~= a + b.drop_last());
        assert((a + b).last() == b.last());
    } else {
        assert(a + b =~= a);
    }
}

pub proof fn lemma_utf8_len_subrange(s: Seq<char>, i: int, j: int)
    requires
        0 <= i <= j <= s.len(),
    ensures
        utf8_len(s.subrange(i, j)) <= utf8_len(s),
        utf8_len(s.take(j)) == utf8_len(s.take(i)) + utf8_len(s.subrange(i, j)),
{
    lemma_utf8_len_concat(s.take(i), s.subrange(i, j));
    assert(s.take(i) + s.subrange(i, j) =~= s.take(j));
    lemma_utf8_len_concat(s.take(j), s.skip(j));
    assert(s.take(j) + s.skip(j) =~= s);
}

/// The UTF-8 width of `c`.
pub fn char_width(c: char) -> (w: usize)
    ensures
        w == utf8_width(c),
{
    let v = c as u32;
    if v < 0x80 {
        1
    } else if v < 0x800 {
        2
    } else if v < 0x10000 {
        3
    } else {
        4
    }
}

/// The layout position of char offset `pos` (clamped to the text's end):
/// its line, and the UTF-8 length of the part of that line before it.
pub open spec fn spec_layout_cursor(s: Seq<char>, pos: int) -> LayoutCursor {
    let p = if pos < s.len() { pos } else { s.len() as int };
    let line = breaks_before(s, p);
    LayoutCursor { line: line as usize, index: utf8_len(s.subrange(line_start(s, line as int), p)) as usize }
}

/// Converts a rope char offset to the (line, byte index) position that text
/// layout (hit-testing, highlight spans) expects.
pub fn char_offset_to_layout_cursor(rope: &Rope, pos: usize) -> (c: LayoutCursor)
    ensures
        c == spec_layout_cursor(rope_text(*rope), pos as int),
{
    let ghost s = rope_text(*rope);
    let len = rope.len_chars();
    let _ = rope.len_bytes();
    let p = if pos < len { pos } else { len };
    let line = rope.char_to_line(p);
    proof {
        lemma_line_of(s, p as int);
    }
    let start = rope.line_to_char(line);
    proof {
        lemma_line_start(s, line as int);
        assert(is_start_of_line(s, start as int, line as int));
    }
    let mut index: usize = 0;
    let mut k: usize = start;
    proof {
        assert(s.subrange(start as int, start as int) =~= seq![]);
    }
    while k < p
        invariant
            s == rope_text(*rope),
            utf8_len(s) <= usize::MAX,
            start <= k <= p <= s.len(),
            index == utf8_len(s.subrange(start as int, k as int)),
        decreases p - k,
    {
        let w = char_width(rope.char(k));
        proof {
            assert(s.subrange(start as int, k + 1).drop_last() =~= s.subrange(start as int, k as int));
            lemma_utf8_len_subrange(s, start as int, k + 1);
        }
        index = index + w;
        k += 1;
    }
    LayoutCursor { line, index }
}

/// Whether byte index `b` falls on a char boundary of `line`: it is the
/// UTF-8 length of some prefix of it.
pub open spec fn is_char_offset(line: Seq<char>, b: int) -> bool {
    exists|k: int| 0 <= k <= line.len() && #[trigger] utf8_len(line.take(k)) == b
}

/// The number of chars of `line` whose UTF-8 encoding fills its first `b`
/// bytes.
pub open spec fn chars_in_bytes(line: Seq<char>, b: int) -> int {
    choose|k: int| 0 <= k <= line.len() && #[trigger] utf8_len(line.take(k)) == b
}

/// The line a layout position refers to: its line, clamped to the last one.
pub open spec fn layout_line(s: Seq<char>, c: LayoutCursor) -> int {
    if c.line < line_count(s) - 1 { c.line as int } else { line_count(s) - 1 }
}

/// The byte index a layout position refers to, clamped to its line's length.
pub open spec fn layout_byte(s: Seq<char>, c: LayoutCursor) -> int {
    let line = line_text(s, layout_line(s, c));
    if c.index < utf8_len(line) { c.index as int } else { utf8_len(line) as int }
}

proof fn lemma_utf8_len_take_strict(s: Seq<char>, i: int, j: int)
    requires
        0 <= i < j <= s.len(),
    ensures
        utf8_len(s.take(i)) < utf8_len(s.take(j)),
    decreases j - i,
{
    assert(s.take(j).drop_last() =~= s.take(j - 1));
    if i < j - 1 {
        lemma_utf8_len_take_strict(s, i, j - 1);
    }
}

/// The char range of the line a layout position refers to, and its byte
/// index clamped to that line's UTF-8 length.
fn layout_target(rope: &Rope, cursor: LayoutCursor) -> (r: (usize, usize, usize))
    ensures
        r.0 <= r.1 <= rope_text(*rope).len(),
        rope_text(*rope).subrange(r.0 as int, r.1 as int) == line_text(
            rope_text(*rope),
            layout_line(rope_text(*rope), cursor),
        ),
        r.0 == line_start(rope_text(*rope), layout_line(rope_text(*rope), cursor)),
        r.2 == layout_byte(rope_text(*rope), cursor),
        utf8_len(line_text(rope_text(*rope), layout_line(rope_text(*rope), cursor))) <= usize::MAX,
{
    let ghost s = rope_text(*rope);
    let _ = rope.len_bytes();
    let n_lines = rope.len_lines();
    let last = if n_lines == 0 { 0 } else { n_lines - 1 };
    let line = if cursor.line < last { cursor.line } else { last };
    proof {
        lemma_line_start_props(s, line as int);
        lemma_line_start_props(s, line + 1);
        lemma_line_start(s, line as int);
    }
    let start = rope.line_to_char(line);
    proof {
        assert(is_start_of_line(s, start as int, line as int));
    }
    let end = if line + 1 < n_lines {
        let e = rope.line_to_char(line + 1);
        proof {
            lemma_line_start(s, line + 1);
            assert(is_start_of_line(s, e as int, line + 1));
        }
        e
    } else {
        rope.len_chars()
    };
    let ghost l = s.subrange(start as int, end as int);
    proof {
        assert(l == line_text(s, line as int));
        lemma_utf8_len_subrange(s, start as int, end as int);
    }
    // The line's byte length, to clamp the index to.
    let mut line_bytes: usize = 0;
    let mut k: usize = start;
    proof {
        assert(l.take(0) =~= seq![]);
    }
    while k < end
        invariant
            s == rope_text(*rope),
            l == s.subrange(start as int, end as int),
            utf8_len(l) <= usize::MAX,
            start <= k <= end <= s.len(),
            line_bytes == utf8_len(l.take(k - start)),
        decreases end - k,
    {
        let w = char_width(rope.char(k));
        proof {
            assert(l.take(k + 1 - start).drop_last() =~= l.take(k - start));
            assert(l.take(k + 1 - start).last() == s[k as int]);
            lemma_utf8_len_subrange(l, k + 1 - start, l.len() as int);
            assert(l.take(l.len() as int) =~= l);
        }
        line_bytes = line_bytes + w;
        k += 1;
    }
    proof {
        assert(l.take(end - start) =~= l);
    }
    let b = if cursor.index < line_bytes { cursor.index } else { line_bytes };
    (start, end, b)
}

/// Converts a (line, byte index) layout position back into a rope char
/// offset: the line is clamped to the last one and the byte index to that
/// line's length, which must then fall on a char boundary.
pub fn layout_cursor_to_char_offset(rope: &Rope, cursor: LayoutCursor) -> (pos: usize)
    requires
        is_char_offset(
            line_text(rope_text(*rope), layout_line(rope_text(*rope), cursor)),
            layout_byte(rope_text(*rope), cursor),
        ),
    ensures
        pos == line_start(rope_text(*rope), layout_line(rope_text(*rope), cursor)) + chars_in_bytes(
            line_text(rope_text(*rope), layout_line(rope_text(*rope), cursor)),
            layout_byte(rope_text(*rope), cursor),
        ),
{
    let ghost s = rope_text(*rope);
    let (start, end, b) = layout_target(rope, cursor);
    let ghost l = s.subrange(start as int, end as int);
    let ghost target = chars_in_bytes(l, b as int);
    proof {
        assert(utf8_len(l.take(target)) == b);
    }
    let mut count: usize = 0;
    let mut acc: usize = 0;
    proof {
        assert(l.take(0) =~= seq![]);
    }
    while acc < b
        invariant
            s == rope_text(*rope),
            l == s.subrange(start as int, end as int),
            start <= end <= s.len(),
            0 <= target <= l.len(),
            utf8_len(l.take(target)) == b,
            count <= target,
            acc == utf8_len(l.take(count as int)),
        decreases target - count,
    {
        proof {
            if count == target {
                assert(false);
            }
        }
        let w = char_width(rope.char(start + count));
        proof {
            assert(l.take(count + 1).drop_last() =~= l.take(count as int));
            assert(l.take(count + 1).last() == s[start + count]);
            if count + 1 > target {
                assert(false);
            }
            if count + 1 < target {
                lemma_utf8_len_take_strict(l, count + 1, target);
            }
        }
        acc = acc + w;
        count += 1;
    }
    proof {
        if (count as int) < target {
            lemma_utf8_len_take_strict(l, count as int, target);
        }
    }
    start + count
}

/// `layout_cursor_to_char_offset` where the clamped byte index falls on a
/// char boundary of its line; `None` where it falls inside a char.
pub fn try_layout_cursor_to_char_offset(rope: &Rope, cursor: LayoutCursor) -> (r: Option<usize>)
    ensures
        is_char_offset(
            line_text(rope_text(*rope), layout_line(rope_text(*rope), cursor)),
            layout_byte(rope_text(*rope), cursor),
        ) ==> r == Some((line_start(rope_text(*rope), layout_line(rope_text(*rope), cursor)) + chars_in_bytes(
            line_text(rope_text(*rope), layout_line(rope_text(*rope), cursor)),
            layout_byte(rope_text(*rope), cursor),
        )) as usize),
        !is_char_offset(
            line_text(rope_text(*rope), layout_line(rope_text(*rope), cursor)),
            layout_byte(rope_text(*rope), cursor),
        ) ==> r is None,
{
    let ghost s = rope_text(*rope);
    let (start, end, b) = layout_target(rope, cursor);
    let ghost l = s.subrange(start as int, end as int);
    let mut count: usize = 0;
    let mut acc: usize = 0;
    proof {
        assert(l.take(0) =~= seq![]);
    }
    while acc < b && count < end - start
        invariant
            s == rope_text(*rope),
            l == s.subrange(start as int, end as int),
            start <= end <= s.len(),
            utf8_len(l) <= usize::MAX,
            count <= l.len(),
            acc == utf8_len(l.take(count as int)),
            count > 0 ==> utf8_len(l.take(count - 1)) < b,
        decreases l.len() - count,
    {
        let w = char_width(rope.char(start + count));
        proof {
            assert(l.take(count + 1).drop_last() =~= l.take(count as int));
            assert(l.take(count + 1).last() == s[start + count]);
            lemma_utf8_len_subrange(l, 0, count + 1);
            assert(l.subrange(0, count + 1) =~= l.take(count + 1));
            assert(l.take(count + 1 - 1) =~= l.take(count as int));
        }
        acc = acc + w;
        count += 1;
    }
    if acc == b {
        proof {
            assert(is_char_offset(l, b as int));
        }
        Some(layout_cursor_to_char_offset(rope, cursor))
    } else {
        proof {
            assert(l.take(l.len() as int) =~= l);
            assert forall|k: int| 0 <= k <= l.len() implies #[trigger] utf8_len(l.take(k)) != b by {
                if k < count {
                    if k < count - 1 {
                        lemma_utf8_len_take_strict(l, k, count - 1);
                    }
                } else if k > count {
                    lemma_utf8_len_take_strict(l, count as int, k);
                }
            }
        }
        None
    }
}

} // verus!

verus! {

/// The status line: the buffer's file name (or `[scratch]`), ` [+]` when it
/// has unsaved changes, then the 1-based line and column of the active
/// cursor; `[no buffer]` with no active buffer.
pub open spec fn spec_status_line(m: EditorModel, file_name: Option<Seq<char>>) -> Seq<char> {
    match m.active {
        None => "[no buffer]"@,
        Some(k) => {
            let name = match file_name {
                Some(n) => n,
                None => "[scratch]"@,
            };
            let dirty = m.buffers.contains_key(k) && m.buffers[k].dirty;
            let pos = head_or_zero(m, k);
            let (line, col) = if m.buffers.contains_key(k) {
                let s = m.buffers[k].text;
                let l = breaks_before(s, if pos < s.len() { pos as int } else { s.len() as int });
                ((l + 1) as int, pos - line_start(s, l as int) + 1)
            } else {
                (1int, 1int)
            };
            name + (if dirty { " [+]"@ } else { seq![] }) + "  \u{2014}  Ln "@ + decimal(line as nat) + ", Col "@
                + decimal(col as nat) + "  \u{2014}  Rote (wgpu + cosmic-text)"@
        },
    }
}

/// The status line text for the active buffer, given the file name of its
/// path, if any.
pub fn status_line_text(editor: &Editor, file_name: Option<&str>) -> (t: String)
    requires
        has_active_cursor(editor@) ==> active_cursor(editor@).head < usize::MAX,
    ensures
        t@ == spec_status_line(editor@, match file_name { Some(n) => Some(n@), None => None }),
{
    let id = match editor.active_id() {
        Some(id) => id,
        None => return chars_to_string(str_to_chars("[no buffer]").as_slice()),
    };
    let buf = editor.buffer(id);
    let mut out: Vec<char> = Vec::new();
    match file_name {
        Some(n) => extend_chars_str(&mut out, n),
        None => extend_chars_str(&mut out, "[scratch]"),
    }
    let dirty = match buf {
        Some(b) => b.is_dirty(),
        None => false,
    };
    let pos = match editor.cursor(id) {
        Some(c) => c.head,
        None => 0,
    };
    let (line, col) = match buf {
        Some(b) => {
            let rope = b.rope();
            let ghost s = rope_text(*rope);
            let len = rope.len_chars();
            let h = if pos < len { pos } else { len };
            let line = rope.char_to_line(h);
            proof {
                lemma_line_of(s, h as int);
            }
            let start = rope.line_to_char(line);
            proof {
                lemma_line_start(s, line as int);
                assert(is_start_of_line(s, start as int, line as int));
            }
            let _ = rope.len_lines();
            (line + 1, pos - start + 1)
        },
        None => (1, 1),
    };
    if dirty {
        extend_chars_str(&mut out, " [+]");
    }
    extend_chars_str(&mut out, "  \u{2014}  Ln ");
    let ld = decimal_chars(line);
    extend_chars(&mut out, ld.as_slice());
    extend_chars_str(&mut out, ", Col ");
    let cd = decimal_chars(col);
    extend_chars(&mut out, cd.as_slice());
    extend_chars_str(&mut out, "  \u{2014}  Rote (wgpu + cosmic-text)");
    proof {
        assert(out@ =~= spec_status_line(editor@, match file_name { Some(n) => Some(n@), None => None }));
    }
    chars_to_string(out.as_slice())
}

} // verus!

verus! {

/// Mapping a char offset to a layout position and back gives the offset
/// again (clamped to the text's end).
pub proof fn law_layout_round_trip(s: Seq<char>, pos: int)
    requires
        0 <= pos,
        utf8_len(s) <= usize::MAX,
        s.len() <= usize::MAX,
    ensures
        is_char_offset(line_text(s, layout_line(s, spec_layout_cursor(s, pos))), layout_byte(s, spec_layout_cursor(s, pos))),
        line_start(s, layout_line(s, spec_layout_cursor(s, pos))) + chars_in_bytes(
            line_text(s, layout_line(s, spec_layout_cursor(s, pos))),
            layout_byte(s, spec_layout_cursor(s, pos)),
        ) == if pos < s.len() { pos } else { s.len() as int },
{
    let p = if pos < s.len() { pos } else { s.len() as int };
    let l = breaks_before(s, p) as int;
    lemma_line_of(s, p);
    crate::text::lemma_breaks_before_monotone(s, p, s.len() as int);
    crate::text::lemma_breaks_before_monotone(s, 0, p);
    lemma_line_start_props(s, l);
    lemma_line_start_props(s, l + 1);
    let start = line_start(s, l);
    let end = line_end(s, l);
    let line = line_text(s, l);
    let c = spec_layout_cursor(s, pos);
    lemma_utf8_len_subrange(s, start, p);
    lemma_utf8_len_subrange(s, start, end);
    assert(c.line == l);
    assert(layout_line(s, c) == l);
    assert(line == s.subrange(start, end));
    assert(s.subrange(start, p) =~= line.take(p - start));
    lemma_utf8_len_subrange(line, p - start, line.len() as int);
    assert(line.take(line.len() as int) =~= line);
    assert(c.index == utf8_len(line.take(p - start)));
    assert(layout_byte(s, c) == utf8_len(line.take(p - start)));
    assert(is_char_offset(line, layout_byte(s, c)));
    let k = chars_in_bytes(line, layout_byte(s, c));
    if k < p - start {
        lemma_utf8_len_take_strict(line, k, p - start);
    } else if k > p - start {
        lemma_utf8_len_take_strict(line, p - start, k);
    }
}

} // verus!

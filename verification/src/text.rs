//! A model of text as a sequence of chars split into lines.

use vstd::prelude::*;

verus! {

/// The chars that end a line: LF, VT, FF, CR, NEL, LINE SEPARATOR and
/// PARAGRAPH SEPARATOR (a CR directly followed by LF ends one line, at the LF).
pub open spec fn is_line_break_char(c: char) -> bool {
    c == '\n' || c == '\u{b}' || c == '\u{c}' || c == '\r' || c == '\u{85}' || c == '\u{2028}'
        || c == '\u{2029}'
}

/// Whether the char at `k` is the last char of a line break.
pub open spec fn ends_line(s: Seq<char>, k: int) -> bool {
    &&& 0 <= k < s.len()
    &&& is_line_break_char(s[k])
    &&& !(s[k] == '\r' && k + 1 < s.len() && s[k + 1] == '\n')
}

/// The number of line breaks that end before char index `i`.
pub open spec fn breaks_before(s: Seq<char>, i: int) -> nat
    decreases i,
{
    if i <= 0 {
        0
    } else {
        breaks_before(s, i - 1) + if ends_line(s, i - 1) { 1nat } else { 0nat }
    }
}

/// The number of lines: one more than the number of line breaks.
pub open spec fn line_count(s: Seq<char>) -> nat {
    breaks_before(s, s.len() as int) + 1
}

/// The line that char index `i` (at most the length) lies on.
pub open spec fn line_of(s: Seq<char>, i: int) -> nat {
    breaks_before(s, i)
}

/// Whether a line starts at char index `p`: at the start, or right after a
/// line break.
pub open spec fn is_line_start(s: Seq<char>, p: int) -> bool {
    p == 0 || ends_line(s, p - 1)
}

pub open spec fn is_start_of_line(s: Seq<char>, p: int, l: int) -> bool {
    &&& 0 <= p <= s.len()
    &&& is_line_start(s, p)
    &&& breaks_before(s, p) == l
}

/// The char index where line `l` starts; the text's length for the line
/// one past the last.
pub open spec fn line_start(s: Seq<char>, l: int) -> int {
    if 0 <= l < line_count(s) {
        choose|p: int| #[trigger] is_start_of_line(s, p, l)
    } else {
        s.len() as int
    }
}

/// The char index just past line `l`, including its line break.
pub open spec fn line_end(s: Seq<char>, l: int) -> int {
    line_start(s, l + 1)
}

/// The chars of line `l`, including its line break.
pub open spec fn line_text(s: Seq<char>, l: int) -> Seq<char> {
    s.subrange(line_start(s, l), line_end(s, l))
}

pub proof fn lemma_breaks_before_monotone(s: Seq<char>, i: int, j: int)
    requires
        i <= j,
    ensures
        breaks_before(s, i) <= breaks_before(s, j),
        breaks_before(s, j) <= breaks_before(s, i) + (j - i),
        i >= 0 && j > i && ends_line(s, j - 1) ==> breaks_before(s, i) < breaks_before(s, j),
    decreases j - i,
{
    if i < j {
        lemma_breaks_before_monotone(s, i, j - 1);
    }
}

proof fn lemma_line_start_exists_upto(s: Seq<char>, l: int, i: int)
    requires
        0 <= l,
        0 <= i <= s.len(),
        breaks_before(s, i) >= l,
    ensures
        exists|p: int| #[trigger] is_start_of_line(s, p, l) && p <= i,
    decreases i,
{
    if i == 0 {
        assert(is_start_of_line(s, 0, l));
    } else if breaks_before(s, i - 1) >= l {
        lemma_line_start_exists_upto(s, l, i - 1);
    } else {
        assert(ends_line(s, i - 1));
        assert(is_start_of_line(s, i, l));
    }
}

pub proof fn lemma_line_start_unique(s: Seq<char>, p: int, q: int, l: int)
    requires
        is_start_of_line(s, p, l),
        is_start_of_line(s, q, l),
    ensures
        p == q,
{
    if p < q {
        lemma_breaks_before_monotone(s, p, q);
    } else if q < p {
        lemma_breaks_before_monotone(s, q, p);
    }
}

/// Line `l`'s start is the one position that starts a line with `l` line
/// breaks before it.
pub proof fn lemma_line_start(s: Seq<char>, l: int)
    requires
        0 <= l < line_count(s),
    ensures
        is_start_of_line(s, line_start(s, l), l),
        forall|p: int| #[trigger] is_start_of_line(s, p, l) ==> p == line_start(s, l),
{
    lemma_line_start_exists_upto(s, l, s.len() as int);
    let p = line_start(s, l);
    assert forall|q: int| #[trigger] is_start_of_line(s, q, l) implies q == p by {
        lemma_line_start_unique(s, p, q, l);
    }
}

/// Line starts grow with the line index, and the start of the line a char
/// lies on is at or before that char.
pub proof fn lemma_line_start_props(s: Seq<char>, l: int)
    requires
        0 <= l <= line_count(s),
    ensures
        0 <= line_start(s, l) <= s.len(),
        l < line_count(s) ==> line_start(s, l) < line_start(s, l + 1) || line_start(s, l + 1) == s.len(),
        l < line_count(s) ==> line_start(s, l) <= line_start(s, l + 1),
{
    if l < line_count(s) {
        lemma_line_start(s, l);
        if l + 1 < line_count(s) {
            lemma_line_start(s, l + 1);
            let p = line_start(s, l);
            let q = line_start(s, l + 1);
            if q <= p {
                lemma_breaks_before_monotone(s, q, p);
            }
        }
    }
}

/// The start of the line that char `i` lies on is at or before `i`, and
/// the next line starts after `i`.
pub proof fn lemma_line_of(s: Seq<char>, i: int)
    requires
        0 <= i <= s.len(),
    ensures
        line_of(s, i) < line_count(s),
        line_start(s, line_of(s, i) as int) <= i,
        i < line_end(s, line_of(s, i) as int) || (i == s.len() && line_end(s, line_of(s, i) as int) == s.len()),
{
    let l = line_of(s, i) as int;
    lemma_breaks_before_monotone(s, i, s.len() as int);
    lemma_line_start(s, l);
    let p = line_start(s, l);
    if p > i {
        lemma_breaks_before_monotone(s, i, p);
    }
    if l + 1 < line_count(s) {
        lemma_line_start(s, l + 1);
        let q = line_start(s, l + 1);
        if q <= i {
            lemma_breaks_before_monotone(s, q, i);
        }
    }
}

} // verus!

use std::ops::Range;
use vstd::prelude::*;
use crate::rope::utf8_len;
use crate::ts::{new_python_highlights_query, new_python_parser, python_captures, python_highlight_captures};
use crate::strings::{chars_eq_str, find_char, lemma_prefix_before_at, prefix_before, str_to_chars, take_chars};

verus! {

/// A semantic category a highlighted span belongs to. Deliberately small
/// and generic: callers map each to an actual color via their own theme.
#[derive(Debug, Clone, Copy, PartialEq, Eq, Structural)]
pub enum HighlightKind {
    Keyword,
    String,
    Comment,
    Number,
    Function,
    Type,
    Constant,
    Property,
    Operator,
    Punctuation,
    Variable,
    Module,
}

/// One highlighted span: a byte range into the source text, tagged with
/// what it is. `Highlighter::highlight` returns spans sorted by
/// `range.start` that never overlap; a gap between spans is plain text.
pub struct HighlightSpan {
    pub range: Range<usize>,
    pub kind: HighlightKind,
}

/// A span as plain values: start, end and kind.
pub struct SpanModel {
    pub start: int,
    pub end: int,
    pub kind: HighlightKind,
}

pub open spec fn span_model(s: HighlightSpan) -> SpanModel {
    SpanModel { start: s.range.start as int, end: s.range.end as int, kind: s.kind }
}

pub open spec fn spans_model(spans: Seq<HighlightSpan>) -> Seq<SpanModel> {
    spans.map_values(|s: HighlightSpan| span_model(s))
}

/// Every span is non-empty, and the spans are sorted and pairwise disjoint.
pub open spec fn spans_wf(sp: Seq<SpanModel>) -> bool {
    &&& forall|i: int| 0 <= i < sp.len() ==> #[trigger] sp[i].start < sp[i].end
    &&& forall|i: int, j: int| 0 <= i < j < sp.len() ==> #[trigger] sp[i].end <= #[trigger] sp[j].start
}

/// What is left of span `s` once the byte range `rs..re` is cut out of it:
/// the span itself if it does not overlap the range, otherwise its part
/// before the range and its part after it (each only where non-empty).
pub open spec fn span_pieces(s: SpanModel, rs: int, re: int) -> Seq<SpanModel> {
    if s.end <= rs || s.start >= re {
        seq![s]
    } else {
        (if s.start < rs { seq![SpanModel { start: s.start, end: rs, kind: s.kind }] } else { seq![] })
        + (if re < s.end { seq![SpanModel { start: re, end: s.end, kind: s.kind }] } else { seq![] })
    }
}

/// The spans of `sp` with the byte range `rs..re` cut out of each, in order.
pub open spec fn clip_spans(sp: Seq<SpanModel>, rs: int, re: int) -> Seq<SpanModel>
    decreases sp.len(),
{
    if sp.len() == 0 {
        seq![]
    } else {
        clip_spans(sp.drop_last(), rs, re) + span_pieces(sp.last(), rs, re)
    }
}

/// `s` inserted into `sp` after the leading spans that start before it.
pub open spec fn insert_by_start(sp: Seq<SpanModel>, s: SpanModel) -> Seq<SpanModel>
    decreases sp.len(),
{
    if sp.len() == 0 {
        seq![s]
    } else if sp[0].start < s.start {
        seq![sp[0]] + insert_by_start(sp.drop_first(), s)
    } else {
        seq![s] + sp
    }
}

/// The spans after `insert_span(sp, rs..re, kind)`: unchanged when the range
/// is empty, otherwise every overlapped part is cut out and the new span is
/// placed in start order.
pub open spec fn spans_after_insert(sp: Seq<SpanModel>, rs: int, re: int, kind: HighlightKind) -> Seq<SpanModel> {
    if rs >= re {
        sp
    } else {
        insert_by_start(clip_spans(sp, rs, re), SpanModel { start: rs, end: re, kind })
    }
}

/// The kind of the span that covers byte `b`, if any.
pub open spec fn kind_at(sp: Seq<SpanModel>, b: int) -> Option<HighlightKind> {
    if exists|i: int| #![trigger sp[i]] 0 <= i < sp.len() && sp[i].start <= b < sp[i].end {
        Some(sp[choose|i: int| #![trigger sp[i]] 0 <= i < sp.len() && sp[i].start <= b < sp[i].end].kind)
    } else {
        None
    }
}

// ---------------------------------------------------------------------------
// Lemmas about cutting and inserting spans.

proof fn lemma_pieces_props(s: SpanModel, rs: int, re: int)
    requires
        s.start < s.end,
        rs < re,
    ensures
        forall|k: int| 0 <= k < span_pieces(s, rs, re).len() ==> {
            let p = #[trigger] span_pieces(s, rs, re)[k];
            &&& s.start <= p.start < p.end <= s.end
            &&& p.kind == s.kind
            &&& (p.end <= rs || p.start >= re)
        },
        forall|k1: int, k2: int| 0 <= k1 < k2 < span_pieces(s, rs, re).len()
            ==> #[trigger] span_pieces(s, rs, re)[k1].end <= #[trigger] span_pieces(s, rs, re)[k2].start,
        span_pieces(s, rs, re).len() <= 2,
{
}

/// Every piece of `clip_spans(sp)` lies inside a span of `sp`, avoids the
/// cut range, and the pieces stay non-empty, sorted and disjoint.
proof fn lemma_clip_wf(sp: Seq<SpanModel>, rs: int, re: int)
    requires
        spans_wf(sp),
        rs < re,
    ensures
        spans_wf(clip_spans(sp, rs, re)),
        forall|k: int| 0 <= k < clip_spans(sp, rs, re).len() ==> {
            let p = #[trigger] clip_spans(sp, rs, re)[k];
            &&& (p.end <= rs || p.start >= re)
            &&& exists|i: int| 0 <= i < sp.len() && sp[i].start <= p.start && p.end <= sp[i].end && p.kind == sp[i].kind
        },
    decreases sp.len(),
{
    if sp.len() > 0 {
        let init = sp.drop_last();
        assert(spans_wf(init));
        lemma_clip_wf(init, rs, re);
        let a = clip_spans(init, rs, re);
        let b = span_pieces(sp.last(), rs, re);
        lemma_pieces_props(sp.last(), rs, re);
        let c = a + b;
        assert(clip_spans(sp, rs, re) == c);
        assert forall|k: int| 0 <= k < c.len() implies {
            let p = #[trigger] c[k];
            &&& (p.end <= rs || p.start >= re)
            &&& exists|i: int| 0 <= i < sp.len() && sp[i].start <= p.start && p.end <= sp[i].end && p.kind == sp[i].kind
        } by {
            if k < a.len() {
                let p = a[k];
                assert(p == c[k]);
                let i = choose|i: int| 0 <= i < init.len() && init[i].start <= p.start && p.end <= init[i].end && p.kind == init[i].kind;
                assert(sp[i] == init[i]);
            } else {
                assert(c[k] == b[k - a.len()]);
                assert(sp[sp.len() - 1] == sp.last());
            }
        }
        assert forall|i: int| 0 <= i < c.len() implies #[trigger] c[i].start < c[i].end by {
            if i < a.len() { assert(c[i] == a[i]); } else { assert(c[i] == b[i - a.len()]); }
        }
        assert forall|i: int, j: int| 0 <= i < j < c.len() implies #[trigger] c[i].end <= #[trigger] c[j].start by {
            if j < a.len() {
                assert(c[i] == a[i] && c[j] == a[j]);
            } else if i >= a.len() {
                assert(c[i] == b[i - a.len()] && c[j] == b[j - a.len()]);
            } else {
                assert(c[i] == a[i] && c[j] == b[j - a.len()]);
                let p = a[i];
                let q = b[j - a.len()];
                let t = choose|t: int| 0 <= t < init.len() && init[t].start <= p.start && p.end <= init[t].end && p.kind == init[t].kind;
                assert(sp[t] == init[t]);
                assert(sp[t].end <= sp[sp.len() - 1].start);
            }
        }
    }
}

/// Inserting by start into a sorted, disjoint sequence whose elements all
/// avoid the new span's range keeps it sorted and disjoint.
proof fn lemma_insert_by_start_wf(sp: Seq<SpanModel>, s: SpanModel)
    requires
        spans_wf(sp),
        s.start < s.end,
        forall|k: int| 0 <= k < sp.len() ==> (#[trigger] sp[k].end <= s.start || sp[k].start >= s.end),
    ensures
        spans_wf(insert_by_start(sp, s)),
        insert_by_start(sp, s).len() == sp.len() + 1,
        forall|k: int| 0 <= k < insert_by_start(sp, s).len() ==> {
            let q = #[trigger] insert_by_start(sp, s)[k];
            q == s || sp.contains(q)
        },
        insert_by_start(sp, s).contains(s),
        forall|k: int| 0 <= k < sp.len() ==> insert_by_start(sp, s).contains(#[trigger] sp[k]),
    decreases sp.len(),
{
    if sp.len() == 0 {
        assert(insert_by_start(sp, s) =~= seq![s]);
        assert(insert_by_start(sp, s)[0] == s);
    } else if sp[0].start < s.start {
        let rest = sp.drop_first();
        assert(spans_wf(rest));
        assert forall|k: int| 0 <= k < rest.len() implies (#[trigger] rest[k].end <= s.start || rest[k].start >= s.end) by {
            assert(rest[k] == sp[k + 1]);
        }
        lemma_insert_by_start_wf(rest, s);
        let t = insert_by_start(rest, s);
        let r = seq![sp[0]] + t;
        assert(insert_by_start(sp, s) == r);
        // sp[0] ends before the new span starts
        assert(sp[0].end <= s.start);
        assert forall|k: int| 0 <= k < r.len() implies #[trigger] r[k].start < r[k].end by {
            if k > 0 { assert(r[k] == t[k - 1]); }
        }
        assert forall|i: int, j: int| 0 <= i < j < r.len() implies #[trigger] r[i].end <= #[trigger] r[j].start by {
            if i == 0 {
                assert(r[j] == t[j - 1]);
                let q = t[j - 1];
                if q != s {
                    assert(rest.contains(q));
                    let m = choose|m: int| 0 <= m < rest.len() && rest[m] == q;
                    assert(rest[m] == sp[m + 1]);
                }
            } else {
                assert(r[i] == t[i - 1] && r[j] == t[j - 1]);
            }
        }
        assert forall|k: int| 0 <= k < r.len() implies {
            let q = #[trigger] r[k];
            q == s || sp.contains(q)
        } by {
            if k == 0 {
                assert(sp[0] == r[0]);
            } else {
                assert(r[k] == t[k - 1]);
                let q = t[k - 1];
                if q != s {
                    let m = choose|m: int| 0 <= m < rest.len() && rest[m] == q;
                    assert(sp[m + 1] == q);
                }
            }
        }
        let js = choose|j: int| 0 <= j < t.len() && t[j] == s;
        assert(r[js + 1] == s);
        assert forall|k: int| 0 <= k < sp.len() implies r.contains(#[trigger] sp[k]) by {
            if k == 0 {
                assert(r[0] == sp[0]);
            } else {
                assert(rest[k - 1] == sp[k]);
                let j = choose|j: int| 0 <= j < t.len() && t[j] == rest[k - 1];
                assert(r[j + 1] == sp[k]);
            }
        }
    } else {
        let r = seq![s] + sp;
        assert(insert_by_start(sp, s) == r);
        assert(sp[0].start >= s.end);
        assert forall|k: int| 0 <= k < r.len() implies #[trigger] r[k].start < r[k].end by {
            if k > 0 { assert(r[k] == sp[k - 1]); }
        }
        assert forall|i: int, j: int| 0 <= i < j < r.len() implies #[trigger] r[i].end <= #[trigger] r[j].start by {
            if i == 0 {
                assert(r[j] == sp[j - 1]);
                if j - 1 > 0 {
                    assert(sp[0].end <= sp[j - 1].start);
                }
            } else {
                assert(r[i] == sp[i - 1] && r[j] == sp[j - 1]);
            }
        }
        assert forall|k: int| 0 <= k < r.len() implies {
            let q = #[trigger] r[k];
            q == s || sp.contains(q)
        } by {
            if k > 0 {
                assert(r[k] == sp[k - 1]);
            }
        }
        assert(r[0] == s);
        assert forall|k: int| 0 <= k < sp.len() implies r.contains(#[trigger] sp[k]) by {
            assert(r[k + 1] == sp[k]);
        }
    }
}

/// The spans after an insertion are non-empty, sorted and disjoint.
pub proof fn lemma_insert_span_wf(sp: Seq<SpanModel>, rs: int, re: int, kind: HighlightKind)
    requires
        spans_wf(sp),
    ensures
        spans_wf(spans_after_insert(sp, rs, re, kind)),
{
    if rs < re {
        lemma_clip_wf(sp, rs, re);
        let c = clip_spans(sp, rs, re);
        let s = SpanModel { start: rs, end: re, kind };
        lemma_insert_by_start_wf(c, s);
    }
}

/// Inserting by start at a known partition point is a plain insertion.
proof fn lemma_insert_by_start_at(sp: Seq<SpanModel>, s: SpanModel, pos: int)
    requires
        0 <= pos <= sp.len(),
        forall|j: int| 0 <= j < pos ==> #[trigger] sp[j].start < s.start,
        pos == sp.len() || sp[pos].start >= s.start,
    ensures
        insert_by_start(sp, s) == sp.insert(pos, s),
    decreases sp.len(),
{
    if sp.len() == 0 {
        assert(insert_by_start(sp, s) =~= sp.insert(pos, s));
    } else if pos == 0 {
        assert(insert_by_start(sp, s) =~= sp.insert(pos, s));
    } else {
        let rest = sp.drop_first();
        assert forall|j: int| 0 <= j < pos - 1 implies #[trigger] rest[j].start < s.start by {
            assert(rest[j] == sp[j + 1]);
        }
        if pos - 1 < rest.len() {
            assert(rest[pos - 1] == sp[pos]);
        }
        lemma_insert_by_start_at(rest, s, pos - 1);
        assert(insert_by_start(sp, s) =~= sp.insert(pos, s));
    }
}

proof fn lemma_clip_step(sp: Seq<SpanModel>, k: int, rs: int, re: int)
    requires
        0 <= k < sp.len(),
    ensures
        clip_spans(sp.take(k + 1), rs, re) == clip_spans(sp.take(k), rs, re) + span_pieces(sp[k], rs, re),
{
    assert(sp.take(k + 1).drop_last() =~= sp.take(k));
    assert(sp.take(k + 1).last() == sp[k]);
}

proof fn lemma_model_concat(a: Seq<HighlightSpan>, b: Seq<HighlightSpan>)
    ensures
        spans_model(a + b) == spans_model(a) + spans_model(b),
{
    assert(spans_model(a + b) =~= spans_model(a) + spans_model(b));
}

proof fn lemma_model_take_skip(a: Seq<HighlightSpan>, n: int)
    requires
        0 <= n < a.len(),
    ensures
        spans_model(a.take(n)) == spans_model(a).take(n),
        spans_model(a.skip(n + 1)) == spans_model(a).skip(n + 1),
        spans_model(a).len() == a.len(),
{
    assert(spans_model(a.take(n)) =~= spans_model(a).take(n));
    assert(spans_model(a.skip(n + 1)) =~= spans_model(a).skip(n + 1));
}

/// Cuts `range` out of every span in place, keeping the spans' order.
fn clip_in_place(spans: &mut Vec<HighlightSpan>, range: &Range<usize>)
    requires
        spans_wf(spans_model(old(spans)@)),
        range.start < range.end,
    ensures
        spans_model(final(spans)@) == clip_spans(spans_model(old(spans)@), range.start as int, range.end as int),
{
    let ghost old_sp = spans_model(spans@);
    assert(old_sp.len() == spans@.len());
    let ghost rs = range.start as int;
    let ghost re = range.end as int;
    let ghost mut k: int = 0;
    proof {
        assert(old_sp.take(0) =~= seq![]);
        assert(spans_model(spans@) =~= clip_spans(old_sp.take(0), rs, re) + old_sp.skip(0));
    }
    let mut i: usize = 0;
    while i < spans.len()
        invariant
            rs == range.start,
            re == range.end,
            rs < re,
            0 <= k <= old_sp.len(),
            spans_wf(old_sp),
            spans_model(spans@) == clip_spans(old_sp.take(k), rs, re) + old_sp.skip(k),
            i <= clip_spans(old_sp.take(k), rs, re).len(),
            forall|j: int| i <= j < clip_spans(old_sp.take(k), rs, re).len() ==> {
                let p = #[trigger] clip_spans(old_sp.take(k), rs, re)[j];
                p.end <= rs || p.start >= re
            },
        decreases old_sp.len() - k, clip_spans(old_sp.take(k), rs, re).len() - i,
    {
        let ghost c = clip_spans(old_sp.take(k), rs, re);
        proof {
            assert(spans_model(spans@).len() == spans@.len());
            assert(spans_model(spans@)[i as int] == span_model(spans@[i as int]));
        }
        let existing_start = spans[i].range.start;
        let existing_end = spans[i].range.end;
        if existing_end <= range.start || existing_start >= range.end {
            proof {
                if i as int == c.len() {
                    assert(spans_model(spans@)[i as int] == old_sp[k]);
                    lemma_clip_step(old_sp, k, rs, re);
                    assert(span_pieces(old_sp[k], rs, re) == seq![old_sp[k]]);
                    assert(old_sp.skip(k) =~= seq![old_sp[k]] + old_sp.skip(k + 1));
                    assert(spans_model(spans@) =~= clip_spans(old_sp.take(k + 1), rs, re) + old_sp.skip(k + 1));
                    k = k + 1;
                }
            }
            i += 1;
        } else {
            proof {
                if (i as int) < c.len() {
                    assert(spans_model(spans@)[i as int] == c[i as int]);
                    assert(false);
                }
                assert(spans_model(spans@)[i as int] == old_sp[k]);
                assert(old_sp[k].start < old_sp[k].end);
                lemma_clip_step(old_sp, k, rs, re);
                lemma_pieces_props(old_sp[k], rs, re);
            }
            let existing_kind = spans[i].kind;
            let ghost before = spans@;
            let ghost i0 = i as int;
            let ghost mut m: Seq<HighlightSpan> = seq![];
            spans.remove(i);
            proof {
                assert(spans@ =~= before.take(i0) + m + before.skip(i0 + 1));
            }
            if range.end < existing_end {
                let right = HighlightSpan { range: range.end..existing_end, kind: existing_kind };
                spans.insert(i, right);
                proof {
                    m = seq![right];
                    assert(spans@ =~= before.take(i0) + m + before.skip(i0 + 1));
                }
            }
            if existing_start < range.start {
                let left = HighlightSpan { range: existing_start..range.start, kind: existing_kind };
                spans.insert(i, left);
                proof {
                    let m0 = m;
                    m = seq![left] + m0;
                    assert(spans@ =~= before.take(i0) + m + before.skip(i0 + 1));
                }
                i += 1;
            }
            proof {
                let pcs = span_pieces(old_sp[k], rs, re);
                assert(spans_model(m) =~= pcs);
                lemma_model_concat(before.take(i0), m);
                lemma_model_concat(before.take(i0) + m, before.skip(i0 + 1));
                lemma_model_take_skip(before, i0);
                assert(spans_model(before).take(i0) =~= c);
                assert(spans_model(before).skip(i0 + 1) =~= old_sp.skip(k + 1));
                let c2 = clip_spans(old_sp.take(k + 1), rs, re);
                assert(c2 == c + pcs);
                assert(spans_model(spans@) =~= c2 + old_sp.skip(k + 1));
                assert forall|j: int| i <= j < c2.len() implies {
                    let p = #[trigger] c2[j];
                    p.end <= rs || p.start >= re
                } by {
                    assert(c2[j] == pcs[j - c.len()]);
                }
                k = k + 1;
            }
        }
    }
    proof {
        assert(k == old_sp.len());
        assert(old_sp.take(k) =~= old_sp);
        assert(old_sp.skip(k) =~= seq![]);
        assert(spans_model(spans@) =~= clip_spans(old_sp, rs, re));
    }
}

/// Inserts `range` as a highlighted span of `kind`, cutting out the part of
/// every existing span that it overlaps (an existing span may be split in
/// two). Later insertions win for the bytes they share with earlier ones.
/// An empty range leaves the spans unchanged.
pub fn insert_span(spans: &mut Vec<HighlightSpan>, range: Range<usize>, kind: HighlightKind)
    requires
        spans_wf(spans_model(old(spans)@)),
    ensures
        spans_model(final(spans)@) == spans_after_insert(
            spans_model(old(spans)@),
            range.start as int,
            range.end as int,
            kind,
        ),
        spans_wf(spans_model(final(spans)@)),
{
    proof {
        lemma_insert_span_wf(spans_model(spans@), range.start as int, range.end as int, kind);
    }
    if range.start >= range.end {
        return;
    }
    let ghost rs = range.start as int;
    let ghost re = range.end as int;
    proof {
        lemma_clip_wf(spans_model(spans@), rs, re);
    }
    clip_in_place(spans, &range);
    let ghost c = spans_model(spans@);
    let mut pos: usize = 0;
    while pos < spans.len() && spans[pos].range.start < range.start
        invariant
            c == spans_model(spans@),
            pos <= spans.len(),
            forall|j: int| 0 <= j < pos ==> #[trigger] c[j].start < rs,
            rs == range.start,
        decreases spans.len() - pos,
    {
        proof { assert(c[pos as int] == span_model(spans@[pos as int])); }
        pos += 1;
    }
    proof {
        if pos < spans.len() {
            assert(c[pos as int] == span_model(spans@[pos as int]));
        }
        lemma_insert_by_start_at(c, SpanModel { start: rs, end: re, kind }, pos as int);
    }
    let ghost before = spans@;
    spans.insert(pos, HighlightSpan { range, kind });
    proof {
        assert(spans_model(spans@) =~= c.insert(pos as int, SpanModel { start: rs, end: re, kind }));
    }
}

} // verus!

verus! {

/// The highlight kind for a top-level capture category (the part of a
/// dotted capture name before its first `.`), if it is one this crate maps.
pub open spec fn kind_for_category(top: Seq<char>) -> Option<HighlightKind> {
    if top == "keyword"@ {
        Some(HighlightKind::Keyword)
    } else if top == "string"@ {
        Some(HighlightKind::String)
    } else if top == "comment"@ {
        Some(HighlightKind::Comment)
    } else if top == "number"@ {
        Some(HighlightKind::Number)
    } else if top == "function"@ || top == "method"@ {
        Some(HighlightKind::Function)
    } else if top == "type"@ || top == "constructor"@ {
        Some(HighlightKind::Type)
    } else if top == "constant"@ || top == "boolean"@ {
        Some(HighlightKind::Constant)
    } else if top == "property"@ || top == "attribute"@ {
        Some(HighlightKind::Property)
    } else if top == "operator"@ {
        Some(HighlightKind::Operator)
    } else if top == "punctuation"@ {
        Some(HighlightKind::Punctuation)
    } else if top == "variable"@ || top == "parameter"@ {
        Some(HighlightKind::Variable)
    } else if top == "module"@ || top == "namespace"@ {
        Some(HighlightKind::Module)
    } else {
        None
    }
}

/// The highlight kind for a capture name such as `function.builtin`: only
/// the part before the first `.` counts.
pub open spec fn spec_kind_for_capture(name: Seq<char>) -> Option<HighlightKind> {
    kind_for_category(prefix_before(name, '.'))
}

/// Maps a dotted tree-sitter capture name (e.g. `"function.builtin"`,
/// `"punctuation.bracket"`) to a highlight kind by its top-level category;
/// unknown categories give `None`.
pub fn kind_for_capture(name: &str) -> (k: Option<HighlightKind>)
    ensures
        k == spec_kind_for_capture(name@),
{
    let chars = str_to_chars(name);
    let dot = find_char(chars.as_slice(), '.');
    proof {
        lemma_prefix_before_at(chars@, '.', dot as int);
    }
    let top = take_chars(chars.as_slice(), dot);
    let t = top.as_slice();
    if chars_eq_str(t, "keyword") {
        Some(HighlightKind::Keyword)
    } else if chars_eq_str(t, "string") {
        Some(HighlightKind::String)
    } else if chars_eq_str(t, "comment") {
        Some(HighlightKind::Comment)
    } else if chars_eq_str(t, "number") {
        Some(HighlightKind::Number)
    } else if chars_eq_str(t, "function") || chars_eq_str(t, "method") {
        Some(HighlightKind::Function)
    } else if chars_eq_str(t, "type") || chars_eq_str(t, "constructor") {
        Some(HighlightKind::Type)
    } else if chars_eq_str(t, "constant") || chars_eq_str(t, "boolean") {
        Some(HighlightKind::Constant)
    } else if chars_eq_str(t, "property") || chars_eq_str(t, "attribute") {
        Some(HighlightKind::Property)
    } else if chars_eq_str(t, "operator") {
        Some(HighlightKind::Operator)
    } else if chars_eq_str(t, "punctuation") {
        Some(HighlightKind::Punctuation)
    } else if chars_eq_str(t, "variable") || chars_eq_str(t, "parameter") {
        Some(HighlightKind::Variable)
    } else if chars_eq_str(t, "module") || chars_eq_str(t, "namespace") {
        Some(HighlightKind::Module)
    } else {
        None
    }
}

} // verus!

verus! {

/// The spans built from a capture list: each capture whose name maps to a
/// kind is inserted in turn with `insert_span`, later captures winning.
pub open spec fn spans_from_capture_seq(c: Seq<(Seq<char>, usize, usize)>) -> Seq<SpanModel>
    decreases c.len(),
{
    if c.len() == 0 {
        seq![]
    } else {
        let prev = spans_from_capture_seq(c.drop_last());
        let (name, start, end) = c.last();
        match spec_kind_for_capture(name) {
            Some(k) => spans_after_insert(prev, start as int, end as int, k),
            None => prev,
        }
    }
}

/// Every span ends at or before byte `b`.
pub open spec fn spans_end_by(sp: Seq<SpanModel>, b: int) -> bool {
    forall|i: int| 0 <= i < sp.len() ==> #[trigger] sp[i].end <= b
}

/// Every capture's range is ordered and ends at or before byte `b`.
pub open spec fn captures_end_by(c: Seq<(Seq<char>, usize, usize)>, b: int) -> bool {
    forall|i: int| 0 <= i < c.len() ==> (#[trigger] c[i]).1 <= c[i].2 && c[i].2 <= b
}

proof fn lemma_insert_span_end_by(sp: Seq<SpanModel>, rs: int, re: int, kind: HighlightKind, b: int)
    requires
        spans_wf(sp),
        spans_end_by(sp, b),
        re <= b,
    ensures
        spans_end_by(spans_after_insert(sp, rs, re, kind), b),
{
    if rs < re {
        lemma_clip_wf(sp, rs, re);
        let c = clip_spans(sp, rs, re);
        let s = SpanModel { start: rs, end: re, kind };
        assert forall|k: int| 0 <= k < c.len() ==> #[trigger] c[k].end <= b by {
            if 0 <= k < c.len() {
                let p = c[k];
                let i = choose|i: int| 0 <= i < sp.len() && sp[i].start <= p.start && p.end <= sp[i].end && p.kind == sp[i].kind;
                assert(sp[i].end <= b);
            }
        }
        lemma_insert_by_start_wf(c, s);
        let r = insert_by_start(c, s);
        assert forall|k: int| 0 <= k < r.len() implies #[trigger] r[k].end <= b by {
            let q = r[k];
            if q != s {
                let m = choose|m: int| 0 <= m < c.len() && c[m] == q;
            }
        }
    }
}

/// Spans built from captures that end by byte `b` end by `b` too.
pub proof fn lemma_spans_from_captures_end_by(c: Seq<(Seq<char>, usize, usize)>, b: int)
    requires
        captures_end_by(c, b),
    ensures
        spans_end_by(spans_from_capture_seq(c), b),
    decreases c.len(),
{
    if c.len() > 0 {
        let init = c.drop_last();
        assert forall|i: int| 0 <= i < init.len() implies (#[trigger] init[i]).1 <= init[i].2 && init[i].2 <= b by {
            assert(init[i] == c[i]);
        }
        lemma_spans_from_captures_end_by(init, b);
        lemma_spans_from_captures_wf(init);
        let (name, start, end) = c.last();
        assert(c[c.len() - 1] == c.last());
        if let Some(k) = spec_kind_for_capture(name) {
            lemma_insert_span_end_by(spans_from_capture_seq(init), start as int, end as int, k, b);
        }
    }
}

pub proof fn lemma_spans_from_captures_wf(c: Seq<(Seq<char>, usize, usize)>)
    ensures
        spans_wf(spans_from_capture_seq(c)),
    decreases c.len(),
{
    if c.len() > 0 {
        lemma_spans_from_captures_wf(c.drop_last());
        let (name, start, end) = c.last();
        if let Some(k) = spec_kind_for_capture(name) {
            lemma_insert_span_wf(spans_from_capture_seq(c.drop_last()), start as int, end as int, k);
        }
    }
}

/// Builds highlight spans from captures given as (capture name, start byte,
/// end byte), in capture order: unmapped capture names are skipped, and each
/// mapped one is inserted with `insert_span`.
pub fn spans_from_captures(captures: &Vec<(String, usize, usize)>) -> (spans: Vec<HighlightSpan>)
    ensures
        spans_model(spans@) == spans_from_capture_seq(captures.deep_view()),
        spans_wf(spans_model(spans@)),
{
    let ghost c = captures.deep_view();
    let mut spans: Vec<HighlightSpan> = Vec::new();
    let mut i: usize = 0;
    proof {
        assert(c.take(0) =~= seq![]);
        assert(spans_model(spans@) =~= seq![]);
    }
    while i < captures.len()
        invariant
            c == captures.deep_view(),
            i <= captures.len(),
            spans_model(spans@) == spans_from_capture_seq(c.take(i as int)),
            spans_wf(spans_model(spans@)),
        decreases captures.len() - i,
    {
        proof {
            assert(c.take(i + 1).drop_last() =~= c.take(i as int));
            assert(c[i as int] == captures@[i as int].deep_view());
        }
        let name = captures[i].0.as_str();
        let start = captures[i].1;
        let end = captures[i].2;
        match kind_for_capture(name) {
            Some(kind) => insert_span(&mut spans, start..end, kind),
            None => {},
        }
        i += 1;
    }
    proof {
        assert(c.take(i as int) =~= c);
    }
    spans
}

/// Parses source text for one language and produces highlight spans.
/// Owns a tree-sitter parser and a compiled highlight query, both
/// nontrivial to build: construct one per language once and reuse it.
pub struct Highlighter {
    parser: tree_sitter::Parser,
    query: tree_sitter::Query,
}

impl Highlighter {
    /// A highlighter for Python, using the grammar and highlight query
    /// bundled inside the `tree-sitter-python` crate.
    pub fn python() -> Self {
        Highlighter { parser: new_python_parser(), query: new_python_highlights_query() }
    }

    /// Parses `source` from scratch and returns its highlight spans, sorted,
    /// non-overlapping and within the source's bytes; no spans if the parse
    /// produced no tree.
    pub fn highlight(&mut self, source: &str) -> (spans: Vec<HighlightSpan>)
        ensures
            spans_model(spans@) == match python_highlight_captures(source@) {
                Some(c) => spans_from_capture_seq(c),
                None => seq![],
            },
            spans_wf(spans_model(spans@)),
            spans_end_by(spans_model(spans@), utf8_len(source@) as int),
    {
        match python_captures(&mut self.parser, &self.query, source) {
            Some(captures) => {
                proof {
                    lemma_spans_from_captures_end_by(captures.deep_view(), utf8_len(source@) as int);
                }
                spans_from_captures(&captures)
            },
            None => {
                let v: Vec<HighlightSpan> = Vec::new();
                proof { assert(spans_model(v@) =~= seq![]); }
                v
            },
        }
    }
}

} // verus!

verus! {

/// Whether some span of `sp` covers byte `b` with kind `k`.
pub open spec fn covers(sp: Seq<SpanModel>, b: int, k: HighlightKind) -> bool {
    exists|i: int| 0 <= i < sp.len() && #[trigger] sp[i].start <= b < sp[i].end && sp[i].kind == k
}

proof fn lemma_kind_at_unique(sp: Seq<SpanModel>, b: int, i: int)
    requires
        spans_wf(sp),
        0 <= i < sp.len(),
        sp[i].start <= b < sp[i].end,
    ensures
        kind_at(sp, b) == Some(sp[i].kind),
{
    let j = choose|j: int| #![trigger sp[j]] 0 <= j < sp.len() && sp[j].start <= b < sp[j].end;
    if j < i {
        assert(sp[j].end <= sp[i].start);
    } else if i < j {
        assert(sp[i].end <= sp[j].start);
    }
}

proof fn lemma_kind_at_none(sp: Seq<SpanModel>, b: int)
    requires
        forall|i: int| 0 <= i < sp.len() ==> !(#[trigger] sp[i].start <= b < sp[i].end),
    ensures
        kind_at(sp, b) is None,
{
}

/// Cutting a range out of the spans changes nothing about the bytes
/// outside it: a byte outside the range is covered with a kind after the cut
/// exactly when it was before.
proof fn lemma_clip_covers(sp: Seq<SpanModel>, rs: int, re: int, b: int)
    requires
        rs < re,
        !(rs <= b < re),
    ensures
        forall|i: int| 0 <= i < sp.len() && #[trigger] sp[i].start <= b < sp[i].end
            ==> covers(clip_spans(sp, rs, re), b, sp[i].kind),
    decreases sp.len(),
{
    if sp.len() > 0 {
        let init = sp.drop_last();
        lemma_clip_covers(init, rs, re, b);
        let a = clip_spans(init, rs, re);
        let ps = span_pieces(sp.last(), rs, re);
        let c = a + ps;
        assert(clip_spans(sp, rs, re) == c);
        assert forall|i: int| 0 <= i < sp.len() && #[trigger] sp[i].start <= b < sp[i].end
            implies covers(c, b, sp[i].kind) by {
            if i < init.len() {
                assert(init[i] == sp[i]);
                assert(covers(a, b, init[i].kind));
                let j = choose|j: int| 0 <= j < a.len() && #[trigger] a[j].start <= b < a[j].end && a[j].kind == init[i].kind;
                assert(c[j] == a[j]);
                assert(c[j].start <= b < c[j].end && c[j].kind == sp[i].kind);
            } else {
                let s = sp.last();
                assert(sp[i] == s);
                if s.end <= rs || s.start >= re {
                    assert(ps == seq![s]);
                    assert(c[a.len() as int] == s);
                    assert(c[a.len() as int].start <= b < c[a.len() as int].end);
                } else if b < rs {
                    assert(s.start < rs);
                    assert(ps[0] == SpanModel { start: s.start, end: rs, kind: s.kind });
                    assert(c[a.len() as int] == ps[0]);
                    assert(c[a.len() as int].start <= b < c[a.len() as int].end);
                } else {
                    assert(re < s.end);
                    let k = ps.len() - 1;
                    assert(ps[k] == SpanModel { start: re, end: s.end, kind: s.kind });
                    assert(c[a.len() + k] == ps[k]);
                    assert(c[a.len() + k].start <= b < c[a.len() + k].end);
                }
            }
        }
    }
}

/// Later insertions win: after `insert_span`, every byte of the new range
/// has the new kind, and every other byte keeps the kind it had.
pub proof fn law_insert_span_later_wins(sp: Seq<SpanModel>, rs: int, re: int, kind: HighlightKind, b: int)
    requires
        spans_wf(sp),
        rs < re,
    ensures
        kind_at(spans_after_insert(sp, rs, re, kind), b) == if rs <= b < re {
            Some(kind)
        } else {
            kind_at(sp, b)
        },
{
    lemma_clip_wf(sp, rs, re);
    let c = clip_spans(sp, rs, re);
    let s = SpanModel { start: rs, end: re, kind };
    lemma_insert_by_start_wf(c, s);
    let r = insert_by_start(c, s);
    assert(r == spans_after_insert(sp, rs, re, kind));
    if rs <= b < re {
        let j = choose|j: int| 0 <= j < r.len() && r[j] == s;
        lemma_kind_at_unique(r, b, j);
    } else {
        lemma_clip_covers(sp, rs, re, b);
        if exists|i: int| #![trigger sp[i]] 0 <= i < sp.len() && sp[i].start <= b < sp[i].end {
            let i = choose|i: int| #![trigger sp[i]] 0 <= i < sp.len() && sp[i].start <= b < sp[i].end;
            lemma_kind_at_unique(sp, b, i);
            assert(covers(c, b, sp[i].kind));
            let j = choose|j: int| 0 <= j < c.len() && #[trigger] c[j].start <= b < c[j].end && c[j].kind == sp[i].kind;
            assert(r.contains(c[j]));
            let m = choose|m: int| 0 <= m < r.len() && r[m] == c[j];
            lemma_kind_at_unique(r, b, m);
        } else {
            assert forall|m: int| 0 <= m < r.len() implies !(#[trigger] r[m].start <= b < r[m].end) by {
                let q = r[m];
                if q != s {
                    assert(c.contains(q));
                    let j = choose|j: int| 0 <= j < c.len() && c[j] == q;
                    let p = c[j];
                    let i = choose|i: int| 0 <= i < sp.len() && sp[i].start <= p.start && p.end <= sp[i].end && p.kind == sp[i].kind;
                    assert(!(sp[i].start <= b < sp[i].end));
                }
            }
            lemma_kind_at_none(r, b);
        }
    }
}

} // verus!

verus! {

proof fn lemma_category_prefix(name: Seq<char>, rest: Seq<char>)
    requires
        !name.contains('.'),
        rest.len() == 0 || rest[0] == '.',
    ensures
        prefix_before(name + rest, '.') == name,
{
    let s = name + rest;
    assert forall|j: int| 0 <= j < name.len() implies s[j] != '.' by {
        assert(s[j] == name[j]);
        if name[j] == '.' {
            assert(name.contains('.'));
        }
    }
    lemma_prefix_before_at(s, '.', name.len() as int);
    assert(s.take(name.len() as int) =~= name);
}

proof fn lemma_category(name: Seq<char>, rest: Seq<char>, k: Option<HighlightKind>)
    requires
        forall|j: int| 0 <= j < name.len() ==> 'a' <= #[trigger] name[j] <= 'z',
        rest.len() == 0 || rest[0] == '.',
        kind_for_category(name) == k,
    ensures
        spec_kind_for_capture(name + rest) == k,
{
    assert(!name.contains('.')) by {
        if name.contains('.') {
            let j = choose|j: int| 0 <= j < name.len() && name[j] == '.';
            assert('a' <= name[j]);
        }
    }
    lemma_category_prefix(name, rest);
}

/// The capture-name table: each top-level category a highlight query uses
/// maps to its kind, alone or with any dotted refinement after it (such as
/// `constant.builtin` or `function.method`).
pub proof fn law_capture_categories(rest: Seq<char>)
    requires
        rest.len() == 0 || rest[0] == '.',
    ensures
        spec_kind_for_capture("keyword"@ + rest) == Some(HighlightKind::Keyword),
        spec_kind_for_capture("string"@ + rest) == Some(HighlightKind::String),
        spec_kind_for_capture("comment"@ + rest) == Some(HighlightKind::Comment),
        spec_kind_for_capture("number"@ + rest) == Some(HighlightKind::Number),
        spec_kind_for_capture("function"@ + rest) == Some(HighlightKind::Function),
        spec_kind_for_capture("method"@ + rest) == Some(HighlightKind::Function),
        spec_kind_for_capture("type"@ + rest) == Some(HighlightKind::Type),
        spec_kind_for_capture("constructor"@ + rest) == Some(HighlightKind::Type),
        spec_kind_for_capture("constant"@ + rest) == Some(HighlightKind::Constant),
        spec_kind_for_capture("boolean"@ + rest) == Some(HighlightKind::Constant),
        spec_kind_for_capture("property"@ + rest) == Some(HighlightKind::Property),
        spec_kind_for_capture("attribute"@ + rest) == Some(HighlightKind::Property),
        spec_kind_for_capture("operator"@ + rest) == Some(HighlightKind::Operator),
        spec_kind_for_capture("punctuation"@ + rest) == Some(HighlightKind::Punctuation),
        spec_kind_for_capture("variable"@ + rest) == Some(HighlightKind::Variable),
        spec_kind_for_capture("parameter"@ + rest) == Some(HighlightKind::Variable),
        spec_kind_for_capture("module"@ + rest) == Some(HighlightKind::Module),
        spec_kind_for_capture("namespace"@ + rest) == Some(HighlightKind::Module),
        spec_kind_for_capture("embedded"@ + rest) == None::<HighlightKind>,
        spec_kind_for_capture(rest) == None::<HighlightKind>,
{
    reveal_strlit("keyword");
    reveal_strlit("string");
    reveal_strlit("comment");
    reveal_strlit("number");
    reveal_strlit("function");
    reveal_strlit("method");
    reveal_strlit("type");
    reveal_strlit("constructor");
    reveal_strlit("constant");
    reveal_strlit("boolean");
    reveal_strlit("property");
    reveal_strlit("attribute");
    reveal_strlit("operator");
    reveal_strlit("punctuation");
    reveal_strlit("variable");
    reveal_strlit("parameter");
    reveal_strlit("module");
    reveal_strlit("namespace");
    reveal_strlit("embedded");
    lemma_category("keyword"@, rest, Some(HighlightKind::Keyword));
    lemma_category("string"@, rest, Some(HighlightKind::String));
    lemma_category("comment"@, rest, Some(HighlightKind::Comment));
    lemma_category("number"@, rest, Some(HighlightKind::Number));
    lemma_category("function"@, rest, Some(HighlightKind::Function));
    lemma_category("method"@, rest, Some(HighlightKind::Function));
    lemma_category("type"@, rest, Some(HighlightKind::Type));
    lemma_category("constructor"@, rest, Some(HighlightKind::Type));
    lemma_category("constant"@, rest, Some(HighlightKind::Constant));
    lemma_category("boolean"@, rest, Some(HighlightKind::Constant));
    lemma_category("property"@, rest, Some(HighlightKind::Property));
    lemma_category("attribute"@, rest, Some(HighlightKind::Property));
    lemma_category("operator"@, rest, Some(HighlightKind::Operator));
    lemma_category("punctuation"@, rest, Some(HighlightKind::Punctuation));
    lemma_category("variable"@, rest, Some(HighlightKind::Variable));
    lemma_category("parameter"@, rest, Some(HighlightKind::Variable));
    assert("module"@[1] != "method"@[1]);
    assert("module"@[0] != "string"@[0] && "module"@[0] != "number"@[0]);
    lemma_category("module"@, rest, Some(HighlightKind::Module));
    lemma_category("namespace"@, rest, Some(HighlightKind::Module));
    lemma_category("embedded"@, rest, None);
    lemma_category(Seq::<char>::empty(), rest, None);
    assert(Seq::<char>::empty() + rest =~= rest);
}

} // verus!

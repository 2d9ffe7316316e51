//! Key-chord strings: a canonical form built from modifier flags and a key
//! name, and the normalization of a chord a plugin wrote by hand.

use vstd::prelude::*;
use crate::chars::char_is_whitespace;
use crate::strings::{spec_ascii_lower_char, trim_start, trim_end, 
    ascii_lower, chars_eq_str, chars_to_string, extend_chars, extend_chars_str, lemma_split_on_nonempty,
    spec_ascii_lower, split_on, str_to_chars, trim, trim_chars,
};

verus! {

/// The modifiers and key gathered from a chord's parts so far.
pub struct ChordState {
    pub ctrl: bool,
    pub alt: bool,
    pub shift: bool,
    pub sup: bool,
    pub key: Option<Seq<char>>,
}

pub open spec fn empty_chord_state() -> ChordState {
    ChordState { ctrl: false, alt: false, shift: false, sup: false, key: None }
}

pub open spec fn is_ctrl_name(l: Seq<char>) -> bool {
    l == "ctrl"@ || l == "control"@
}

pub open spec fn is_alt_name(l: Seq<char>) -> bool {
    l == "alt"@ || l == "option"@
}

pub open spec fn is_shift_name(l: Seq<char>) -> bool {
    l == "shift"@
}

pub open spec fn is_super_name(l: Seq<char>) -> bool {
    l == "super"@ || l == "cmd"@ || l == "command"@ || l == "meta"@ || l == "win"@
}

/// Whether a lowercased, trimmed part names a modifier.
pub open spec fn is_modifier_name(l: Seq<char>) -> bool {
    is_ctrl_name(l) || is_alt_name(l) || is_shift_name(l) || is_super_name(l)
}

/// One `+`-separated part read into the state: trimmed and lowercased, an
/// empty part is skipped, a modifier name sets its flag, and anything else
/// becomes the key (a later key replaces an earlier one).
pub open spec fn chord_step(st: ChordState, raw_part: Seq<char>) -> ChordState {
    let part = trim(raw_part);
    if part.len() == 0 {
        st
    } else {
        let l = spec_ascii_lower(part);
        if is_ctrl_name(l) {
            ChordState { ctrl: true, ..st }
        } else if is_alt_name(l) {
            ChordState { alt: true, ..st }
        } else if is_shift_name(l) {
            ChordState { shift: true, ..st }
        } else if is_super_name(l) {
            ChordState { sup: true, ..st }
        } else {
            ChordState { key: Some(l), ..st }
        }
    }
}

/// All parts read in order.
pub open spec fn chord_fold(parts: Seq<Seq<char>>) -> ChordState
    decreases parts.len(),
{
    if parts.len() == 0 {
        empty_chord_state()
    } else {
        chord_step(chord_fold(parts.drop_last()), parts.last())
    }
}

pub open spec fn opt_str(b: bool, s: Seq<char>) -> Seq<char> {
    if b { s } else { seq![] }
}

/// The canonical chord: the set modifiers in the fixed order ctrl, alt,
/// shift, super, each followed by `+`, then the lowercased key.
pub open spec fn spec_build_chord(ctrl: bool, alt: bool, shift: bool, sup: bool, key: Seq<char>) -> Seq<char> {
    opt_str(ctrl, "ctrl+"@) + opt_str(alt, "alt+"@) + opt_str(shift, "shift+"@) + opt_str(sup, "super+"@)
        + spec_ascii_lower(key)
}

/// The canonical form of the parts of a chord, if they name a key.
pub open spec fn canonical_of_parts(parts: Seq<Seq<char>>) -> Option<Seq<char>> {
    let st = chord_fold(parts);
    match st.key {
        Some(k) => Some(spec_build_chord(st.ctrl, st.alt, st.shift, st.sup, k)),
        None => None,
    }
}

/// The canonical form of a hand-written chord, if it names a key.
pub open spec fn spec_canonicalize_chord(raw: Seq<char>) -> Option<Seq<char>> {
    canonical_of_parts(split_on(raw, '+'))
}

/// Builds a canonical key-chord string from known modifier state and a key
/// name: modifiers in a fixed order, so this and `canonicalize_chord` agree
/// on one shape for the same chord.
pub fn build_chord(ctrl: bool, alt: bool, shift: bool, sup: bool, key: &str) -> (chord: String)
    ensures
        chord@ == spec_build_chord(ctrl, alt, shift, sup, key@),
{
    let keyc = str_to_chars(key);
    let lower = ascii_lower(keyc.as_slice());
    let chord = build_chord_chars(ctrl, alt, shift, sup, lower.as_slice());
    proof {
        crate::strings::lemma_ascii_lower_idempotent(keyc@);
    }
    chars_to_string(chord.as_slice())
}

fn build_chord_chars(ctrl: bool, alt: bool, shift: bool, sup: bool, key: &[char]) -> (chord: Vec<char>)
    ensures
        chord@ == spec_build_chord(ctrl, alt, shift, sup, key@),
        key@ == spec_ascii_lower(key@) ==> chord@ == opt_str(ctrl, "ctrl+"@) + opt_str(alt, "alt+"@)
            + opt_str(shift, "shift+"@) + opt_str(sup, "super+"@) + key@,
{
    let mut chord: Vec<char> = Vec::new();
    if ctrl {
        extend_chars_str(&mut chord, "ctrl+");
    }
    if alt {
        extend_chars_str(&mut chord, "alt+");
    }
    if shift {
        extend_chars_str(&mut chord, "shift+");
    }
    if sup {
        extend_chars_str(&mut chord, "super+");
    }
    let lower = ascii_lower(key);
    extend_chars(&mut chord, lower.as_slice());
    proof {
        crate::strings::lemma_ascii_lower_idempotent(key@);
        assert(chord@ =~= spec_build_chord(ctrl, alt, shift, sup, key@));
    }
    chord
}

/// The modifiers and key read so far.
struct ChordParse {
    ctrl: bool,
    alt: bool,
    shift: bool,
    sup: bool,
    key: Option<Vec<char>>,
}

impl ChordParse {
    spec fn model(&self) -> ChordState {
        ChordState {
            ctrl: self.ctrl,
            alt: self.alt,
            shift: self.shift,
            sup: self.sup,
            key: match self.key {
                Some(k) => Some(k@),
                None => None,
            },
        }
    }

    fn step(&mut self, raw_part: &[char])
        ensures
            final(self).model() == chord_step(old(self).model(), raw_part@),
    {
        let part = trim_chars(raw_part);
        if part.len() == 0 {
            return;
        }
        let l = ascii_lower(part.as_slice());
        let ls = l.as_slice();
        if chars_eq_str(ls, "ctrl") || chars_eq_str(ls, "control") {
            self.ctrl = true;
        } else if chars_eq_str(ls, "alt") || chars_eq_str(ls, "option") {
            self.alt = true;
        } else if chars_eq_str(ls, "shift") {
            self.shift = true;
        } else if chars_eq_str(ls, "super") || chars_eq_str(ls, "cmd") || chars_eq_str(ls, "command")
            || chars_eq_str(ls, "meta") || chars_eq_str(ls, "win") {
            self.sup = true;
        } else {
            self.key = Some(l);
        }
    }
}

/// Normalizes a key-chord string a plugin wrote (e.g. `"Ctrl+Shift+P"`,
/// `"ctrl+p"`, `"F2"`) into the canonical form `build_chord` produces, so a
/// lookup against a chord built from a live key event doesn't care how the
/// plugin author capitalized or ordered it. `None` if `raw` names modifiers
/// only, with no actual key.
pub fn canonicalize_chord(raw: &str) -> (r: Option<String>)
    ensures
        r matches Some(s) ==> spec_canonicalize_chord(raw@) == Some(s@),
        r is None ==> spec_canonicalize_chord(raw@) is None,
{
    let chars = str_to_chars(raw);
    let mut st = ChordParse { ctrl: false, alt: false, shift: false, sup: false, key: None };
    let mut cur: Vec<char> = Vec::new();
    let ghost mut done: Seq<Seq<char>> = seq![];
    let mut i: usize = 0;
    proof {
        assert(chars@.take(0) =~= seq![]);
        assert(split_on(chars@.take(0), '+') =~= done.push(cur@));
    }
    while i < chars.len()
        invariant
            i <= chars@.len(),
            split_on(chars@.take(i as int), '+') == done.push(cur@),
            st.model() == chord_fold(done),
        decreases chars@.len() - i,
    {
        let c = chars[i];
        proof {
            assert(chars@.take(i + 1).drop_last() =~= chars@.take(i as int));
            assert(chars@.take(i + 1).last() == c);
            lemma_split_on_nonempty(chars@.take(i as int), '+');
        }
        if c == '+' {
            st.step(cur.as_slice());
            proof {
                assert(done.push(cur@).drop_last() =~= done);
                done = done.push(cur@);
            }
            cur = Vec::new();
            proof {
                assert(split_on(chars@.take(i + 1), '+') =~= done.push(cur@));
            }
        } else {
            let ghost old_cur = cur@;
            cur.push(c);
            proof {
                assert(split_on(chars@.take(i + 1), '+') =~= done.push(cur@));
            }
        }
        i += 1;
    }
    proof {
        assert(chars@.take(i as int) =~= chars@);
        assert(done.push(cur@).drop_last() =~= done);
    }
    st.step(cur.as_slice());
    match st.key {
        Some(k) => {
            let chord = build_chord_chars(st.ctrl, st.alt, st.shift, st.sup, k.as_slice());
            Some(chars_to_string(chord.as_slice()))
        },
        None => None,
    }
}

} // verus!

verus! {

/// The parts read in order, starting from `st`.
pub open spec fn chord_fold_from(st: ChordState, parts: Seq<Seq<char>>) -> ChordState
    decreases parts.len(),
{
    if parts.len() == 0 {
        st
    } else {
        chord_step(chord_fold_from(st, parts.drop_last()), parts.last())
    }
}

proof fn lemma_fold_is_fold_from(parts: Seq<Seq<char>>)
    ensures
        chord_fold(parts) == chord_fold_from(empty_chord_state(), parts),
    decreases parts.len(),
{
    if parts.len() > 0 {
        lemma_fold_is_fold_from(parts.drop_last());
    }
}

proof fn lemma_fold_from_concat(st: ChordState, p: Seq<Seq<char>>, q: Seq<Seq<char>>)
    ensures
        chord_fold_from(st, p + q) == chord_fold_from(chord_fold_from(st, p), q),
    decreases q.len(),
{
    if q.len() == 0 {
        assert(p + q =~= p);
    } else {
        lemma_fold_from_concat(st, p, q.drop_last());
        assert((p + q).drop_last() =~= p + q.drop_last());
        assert((p + q).last() == q.last());
    }
}

proof fn lemma_split_concat(x: Seq<char>, y: Seq<char>, sep: char)
    ensures
        split_on(x + seq![sep] + y, sep) == split_on(x, sep) + split_on(y, sep),
    decreases y.len(),
{
    lemma_split_on_nonempty(x, sep);
    if y.len() == 0 {
        assert(x + seq![sep] + y =~= x.push(sep));
        assert(x.push(sep).drop_last() =~= x);
        assert(split_on(x, sep).push(seq![]) =~= split_on(x, sep) + seq![seq![]]);
    } else {
        let y0 = y.drop_last();
        lemma_split_concat(x, y0, sep);
        lemma_split_on_nonempty(y0, sep);
        let w = x + seq![sep] + y;
        assert(w.drop_last() =~= x + seq![sep] + y0);
        assert(w.last() == y.last());
        let a = split_on(x, sep);
        let b = split_on(y0, sep);
        if y.last() == sep {
            assert((a + b).push(seq![]) =~= a + b.push(seq![]));
        } else {
            assert((a + b).update((a + b).len() - 1, (a + b).last().push(y.last()))
                =~= a + b.update(b.len() - 1, b.last().push(y.last())));
        }
    }
}

proof fn lemma_split_no_sep(w: Seq<char>, sep: char)
    requires
        !w.contains(sep),
    ensures
        split_on(w, sep) == seq![w],
    decreases w.len(),
{
    if w.len() == 0 {
        assert(w =~= Seq::<char>::empty());
    } else {
        let w0 = w.drop_last();
        assert(!w0.contains(sep)) by {
            if w0.contains(sep) {
                let i = choose|i: int| 0 <= i < w0.len() && w0[i] == sep;
                assert(w[i] == sep);
            }
        }
        lemma_split_no_sep(w0, sep);
        assert(w[w.len() - 1] != sep);
        assert(w0.push(w.last()) =~= w);
        assert(seq![w0].update(0, w0.push(w.last())) =~= seq![w]);
    }
}

/// The state with one modifier flag set.
pub open spec fn with_flag(st: ChordState, which: int) -> ChordState {
    if which == 0 {
        ChordState { ctrl: true, ..st }
    } else if which == 1 {
        ChordState { alt: true, ..st }
    } else if which == 2 {
        ChordState { shift: true, ..st }
    } else {
        ChordState { sup: true, ..st }
    }
}

/// Which flag a modifier name sets.
pub open spec fn flag_of(l: Seq<char>) -> int {
    if is_ctrl_name(l) {
        0
    } else if is_alt_name(l) {
        1
    } else if is_shift_name(l) {
        2
    } else {
        3
    }
}

proof fn lemma_step_commutes_with_flag(st: ChordState, which: int, part: Seq<char>)
    ensures
        chord_step(with_flag(st, which), part) == with_flag(chord_step(st, part), which),
{
}

proof fn lemma_fold_from_flag(st: ChordState, which: int, p: Seq<Seq<char>>)
    ensures
        chord_fold_from(with_flag(st, which), p) == with_flag(chord_fold_from(st, p), which),
    decreases p.len(),
{
    if p.len() > 0 {
        lemma_fold_from_flag(st, which, p.drop_last());
        lemma_step_commutes_with_flag(chord_fold_from(st, p.drop_last()), which, p.last());
    }
}

proof fn lemma_step_modifier(st: ChordState, m: Seq<char>)
    requires
        is_modifier_name(spec_ascii_lower(trim(m))),
    ensures
        chord_step(st, m) == with_flag(st, flag_of(spec_ascii_lower(trim(m)))),
{
    let l = spec_ascii_lower(trim(m));
    if trim(m).len() == 0 {
        assert(l =~= seq![]);
        reveal_strlit("ctrl");
        reveal_strlit("control");
        reveal_strlit("alt");
        reveal_strlit("option");
        reveal_strlit("shift");
        reveal_strlit("super");
        reveal_strlit("cmd");
        reveal_strlit("command");
        reveal_strlit("meta");
        reveal_strlit("win");
        assert(false);
    }
}

/// Modifier order does not matter: moving one modifier part from the front
/// of a chord to its end gives the same canonical chord.
pub proof fn law_modifier_order_irrelevant(m: Seq<char>, rest: Seq<char>)
    requires
        !m.contains('+'),
        is_modifier_name(spec_ascii_lower(trim(m))),
    ensures
        spec_canonicalize_chord(m + "+"@ + rest) == spec_canonicalize_chord(rest + "+"@ + m),
{
    reveal_strlit("+");
    assert("+"@ =~= seq!['+']);
    lemma_split_concat(m, rest, '+');
    lemma_split_concat(rest, m, '+');
    lemma_split_no_sep(m, '+');
    let p = split_on(rest, '+');
    let which = flag_of(spec_ascii_lower(trim(m)));
    // front: [m] + p
    lemma_fold_is_fold_from(seq![m] + p);
    lemma_fold_from_concat(empty_chord_state(), seq![m], p);
    assert(seq![m].drop_last() =~= Seq::<Seq<char>>::empty());
    assert(seq![m].last() == m);
    assert(chord_fold_from(empty_chord_state(), Seq::<Seq<char>>::empty()) == empty_chord_state());
    lemma_step_modifier(empty_chord_state(), m);
    assert(chord_fold_from(empty_chord_state(), seq![m]) == with_flag(empty_chord_state(), which));
    lemma_fold_from_flag(empty_chord_state(), which, p);
    // back: p + [m]
    lemma_fold_is_fold_from(p + seq![m]);
    lemma_fold_is_fold_from(p);
    assert((p + seq![m]).drop_last() =~= p);
    lemma_step_modifier(chord_fold_from(empty_chord_state(), p), m);
}

} // verus!

verus! {

proof fn lemma_lower_char_ws(c: char)
    ensures
        char_is_whitespace(spec_ascii_lower_char(c)) == char_is_whitespace(c),
        (spec_ascii_lower_char(c) == '+') == (c == '+'),
{
}

proof fn lemma_split_lower(raw: Seq<char>)
    ensures
        split_on(spec_ascii_lower(raw), '+').len() == split_on(raw, '+').len(),
        forall|i: int|
            0 <= i < split_on(raw, '+').len() ==> #[trigger] split_on(spec_ascii_lower(raw), '+')[i]
                == spec_ascii_lower(split_on(raw, '+')[i]),
    decreases raw.len(),
{
    let l = spec_ascii_lower(raw);
    if raw.len() == 0 {
        assert(l =~= raw);
        assert(spec_ascii_lower(Seq::<char>::empty()) =~= Seq::<char>::empty());
    } else {
        let r0 = raw.drop_last();
        lemma_split_lower(r0);
        lemma_split_on_nonempty(r0, '+');
        assert(l.drop_last() =~= spec_ascii_lower(r0));
        assert(l.last() == spec_ascii_lower_char(raw.last()));
        lemma_lower_char_ws(raw.last());
        let a = split_on(r0, '+');
        let b = split_on(l.drop_last(), '+');
        if raw.last() == '+' {
            assert(spec_ascii_lower(Seq::<char>::empty()) =~= Seq::<char>::empty());
            assert forall|i: int| 0 <= i < split_on(raw, '+').len() implies #[trigger] split_on(l, '+')[i]
                == spec_ascii_lower(split_on(raw, '+')[i]) by {
                if i < a.len() {
                    assert(split_on(l, '+')[i] == b[i]);
                }
            }
        } else {
            assert(spec_ascii_lower(a.last().push(raw.last())) =~= b.last().push(l.last()));
            assert forall|i: int| 0 <= i < split_on(raw, '+').len() implies #[trigger] split_on(l, '+')[i]
                == spec_ascii_lower(split_on(raw, '+')[i]) by {
                if i < a.len() - 1 {
                    assert(split_on(l, '+')[i] == b[i]);
                }
            }
        }
    }
}

proof fn lemma_trim_start_lower(p: Seq<char>)
    ensures
        trim_start(spec_ascii_lower(p)) == spec_ascii_lower(trim_start(p)),
    decreases p.len(),
{
    let l = spec_ascii_lower(p);
    if p.len() > 0 {
        lemma_lower_char_ws(p[0]);
        assert(l[0] == spec_ascii_lower_char(p[0]));
        if char_is_whitespace(p[0]) {
            assert(l.drop_first() =~= spec_ascii_lower(p.drop_first()));
            lemma_trim_start_lower(p.drop_first());
        }
    } else {
        assert(l =~= p);
    }
}

proof fn lemma_trim_end_lower(p: Seq<char>)
    ensures
        trim_end(spec_ascii_lower(p)) == spec_ascii_lower(trim_end(p)),
    decreases p.len(),
{
    let l = spec_ascii_lower(p);
    if p.len() > 0 {
        lemma_lower_char_ws(p.last());
        assert(l.last() == spec_ascii_lower_char(p.last()));
        if char_is_whitespace(p.last()) {
            assert(l.drop_last() =~= spec_ascii_lower(p.drop_last()));
            lemma_trim_end_lower(p.drop_last());
        }
    } else {
        assert(l =~= p);
    }
}

proof fn lemma_step_lower(st: ChordState, p: Seq<char>)
    ensures
        chord_step(st, spec_ascii_lower(p)) == chord_step(st, p),
{
    lemma_trim_start_lower(p);
    lemma_trim_end_lower(trim_start(p));
    crate::strings::lemma_ascii_lower_idempotent(trim(p));
}

proof fn lemma_fold_lower(lowered: Seq<Seq<char>>, parts: Seq<Seq<char>>)
    requires
        lowered.len() == parts.len(),
        forall|i: int| 0 <= i < parts.len() ==> #[trigger] lowered[i] == spec_ascii_lower(parts[i]),
    ensures
        chord_fold(lowered) == chord_fold(parts),
    decreases parts.len(),
{
    if parts.len() > 0 {
        lemma_fold_lower(lowered.drop_last(), parts.drop_last());
        assert(lowered.last() == spec_ascii_lower(parts.last()));
        lemma_step_lower(chord_fold(parts.drop_last()), parts.last());
    }
}

/// Case does not matter: a chord and its ASCII-lowercased form have the
/// same canonical form.
pub proof fn law_canonicalize_ignores_case(raw: Seq<char>)
    ensures
        spec_canonicalize_chord(spec_ascii_lower(raw)) == spec_canonicalize_chord(raw),
{
    lemma_split_lower(raw);
    lemma_fold_lower(split_on(spec_ascii_lower(raw), '+'), split_on(raw, '+'));
}


proof fn lemma_modifier_prefix(n: Seq<char>, r: Seq<char>)
    requires
        !n.contains('+'),
        is_modifier_name(spec_ascii_lower(trim(n))),
    ensures
        chord_fold(split_on(n + "+"@ + r, '+')) == with_flag(
            chord_fold(split_on(r, '+')),
            flag_of(spec_ascii_lower(trim(n))),
        ),
{
    reveal_strlit("+");
    assert("+"@ =~= seq!['+']);
    lemma_split_concat(n, r, '+');
    lemma_split_no_sep(n, '+');
    let p = split_on(r, '+');
    let which = flag_of(spec_ascii_lower(trim(n)));
    lemma_fold_is_fold_from(seq![n] + p);
    lemma_fold_is_fold_from(p);
    lemma_fold_from_concat(empty_chord_state(), seq![n], p);
    assert(seq![n].drop_last() =~= Seq::<Seq<char>>::empty());
    assert(seq![n].last() == n);
    assert(chord_fold_from(empty_chord_state(), Seq::<Seq<char>>::empty()) == empty_chord_state());
    lemma_step_modifier(empty_chord_state(), n);
    assert(chord_fold_from(empty_chord_state(), seq![n]) == with_flag(empty_chord_state(), which));
    lemma_fold_from_flag(empty_chord_state(), which, p);
}

/// The chord with a modifier part in front, when the flag is set, or the
/// rest alone.
proof fn lemma_opt_prefix(b: bool, n: Seq<char>, r: Seq<char>)
    requires
        !n.contains('+'),
        is_modifier_name(spec_ascii_lower(trim(n))),
    ensures
        chord_fold(split_on(opt_str(b, n + "+"@) + r, '+')) == (if b {
            with_flag(chord_fold(split_on(r, '+')), flag_of(spec_ascii_lower(trim(n))))
        } else {
            chord_fold(split_on(r, '+'))
        }),
{
    if b {
        assert(opt_str(b, n + "+"@) + r =~= n + "+"@ + r);
        lemma_modifier_prefix(n, r);
    } else {
        assert(opt_str(b, n + "+"@) + r =~= r);
    }
}

proof fn lemma_plain_name(n: Seq<char>)
    requires
        n.len() > 0,
        forall|i: int| 0 <= i < n.len() ==> 'a' <= #[trigger] n[i] <= 'z',
    ensures
        !n.contains('+'),
        trim(n) == n,
        spec_ascii_lower(n) == n,
{
    assert(spec_ascii_lower(n) =~= n);
    assert(!char_is_whitespace(n[0]));
    assert(!char_is_whitespace(n.last()));
    assert(trim_start(n) == n);
}

/// The two chord functions agree: canonicalizing a chord that `build_chord`
/// made gives that chord back, for a key name that is not empty, has no `+`
/// and no surrounding whitespace, and does not name a modifier.
pub proof fn law_build_chord_is_canonical(ctrl: bool, alt: bool, shift: bool, sup: bool, key: Seq<char>)
    requires
        key.len() > 0,
        !key.contains('+'),
        trim(key) == key,
        !is_modifier_name(spec_ascii_lower(key)),
    ensures
        spec_canonicalize_chord(spec_build_chord(ctrl, alt, shift, sup, key)) == Some(
            spec_build_chord(ctrl, alt, shift, sup, key),
        ),
{
    reveal_strlit("ctrl+");
    reveal_strlit("alt+");
    reveal_strlit("shift+");
    reveal_strlit("super+");
    reveal_strlit("ctrl");
    reveal_strlit("alt");
    reveal_strlit("shift");
    reveal_strlit("super");
    reveal_strlit("control");
    reveal_strlit("option");
    reveal_strlit("+");
    let c = "ctrl"@;
    let a = "alt"@;
    let s = "shift"@;
    let u = "super"@;
    lemma_plain_name(c);
    lemma_plain_name(a);
    lemma_plain_name(s);
    lemma_plain_name(u);
    assert("ctrl+"@ =~= c + "+"@);
    assert("alt+"@ =~= a + "+"@);
    assert("shift+"@ =~= s + "+"@);
    assert("super+"@ =~= u + "+"@);
    let lk = spec_ascii_lower(key);
    // the key part alone
    assert(!lk.contains('+')) by {
        if lk.contains('+') {
            let i = choose|i: int| 0 <= i < lk.len() && lk[i] == '+';
            lemma_lower_char_ws(key[i]);
            assert(key.contains('+'));
        }
    }
    lemma_split_no_sep(lk, '+');
    lemma_trim_start_lower(key);
    lemma_trim_end_lower(trim_start(key));
    crate::strings::lemma_ascii_lower_idempotent(key);
    assert(trim(lk) == lk);
    assert(seq![lk].drop_last() =~= Seq::<Seq<char>>::empty());
    assert(chord_fold(Seq::<Seq<char>>::empty()) == empty_chord_state());
    assert(lk.len() > 0);
    assert(spec_ascii_lower(lk) == lk);
    assert(chord_fold(seq![lk]) == chord_step(empty_chord_state(), lk));
    let k0 = chord_fold(split_on(lk, '+'));
    assert(k0 == ChordState { key: Some(lk), ..empty_chord_state() });
    // the modifiers, innermost first
    let r3 = lk;
    let r2 = opt_str(sup, u + "+"@) + r3;
    let r1 = opt_str(shift, s + "+"@) + r2;
    let r0 = opt_str(alt, a + "+"@) + r1;
    let whole = opt_str(ctrl, c + "+"@) + r0;
    lemma_opt_prefix(sup, u, r3);
    lemma_opt_prefix(shift, s, r2);
    lemma_opt_prefix(alt, a, r1);
    lemma_opt_prefix(ctrl, c, r0);
    assert(flag_of(spec_ascii_lower(trim(c))) == 0);
    assert(flag_of(spec_ascii_lower(trim(a))) == 1);
    assert(flag_of(spec_ascii_lower(trim(s))) == 2);
    assert(flag_of(spec_ascii_lower(trim(u))) == 3);
    let st = chord_fold(split_on(whole, '+'));
    assert(st == ChordState { ctrl: ctrl, alt: alt, shift: shift, sup: sup, key: Some(lk) });
    assert(spec_build_chord(ctrl, alt, shift, sup, key) =~= whole);
    assert(spec_build_chord(ctrl, alt, shift, sup, lk) =~= spec_build_chord(ctrl, alt, shift, sup, key));
}

} // verus!

verus! {

/// Whether a `+`-separated part names the key: it is not blank and, trimmed
/// and lowercased, names no modifier.
pub open spec fn is_key_part(part: Seq<char>) -> bool {
    trim(part).len() > 0 && !is_modifier_name(spec_ascii_lower(trim(part)))
}

/// Whether a part, trimmed and lowercased, names modifier `which` (0 ctrl,
/// 1 alt, 2 shift, 3 super).
pub open spec fn is_flag_part(part: Seq<char>, which: int) -> bool {
    is_modifier_name(spec_ascii_lower(trim(part))) && flag_of(spec_ascii_lower(trim(part))) == which
}

/// Whether some part names modifier `which`.
pub open spec fn some_flag_part(parts: Seq<Seq<char>>, which: int) -> bool {
    exists|i: int| 0 <= i < parts.len() && #[trigger] is_flag_part(parts[i], which)
}

/// Modifier flag `which` of a state.
pub open spec fn flag_value(st: ChordState, which: int) -> bool {
    if which == 0 {
        st.ctrl
    } else if which == 1 {
        st.alt
    } else if which == 2 {
        st.shift
    } else {
        st.sup
    }
}

proof fn lemma_blank_not_modifier(l: Seq<char>)
    requires
        l.len() == 0,
    ensures
        !is_modifier_name(l),
{
    reveal_strlit("ctrl");
    reveal_strlit("control");
    reveal_strlit("alt");
    reveal_strlit("option");
    reveal_strlit("shift");
    reveal_strlit("super");
    reveal_strlit("cmd");
    reveal_strlit("command");
    reveal_strlit("meta");
    reveal_strlit("win");
}

proof fn lemma_step_flag(st: ChordState, x: Seq<char>, w: int)
    requires
        0 <= w < 4,
    ensures
        flag_value(chord_step(st, x), w) == (flag_value(st, w) || is_flag_part(x, w)),
        chord_step(st, x).key == (if is_key_part(x) { Some(spec_ascii_lower(trim(x))) } else { st.key }),
{
    if trim(x).len() == 0 {
        assert(spec_ascii_lower(trim(x)).len() == 0);
        lemma_blank_not_modifier(spec_ascii_lower(trim(x)));
    }
}

proof fn lemma_fold_flag(p: Seq<Seq<char>>, w: int)
    requires
        0 <= w < 4,
    ensures
        flag_value(chord_fold(p), w) == some_flag_part(p, w),
    decreases p.len(),
{
    if p.len() > 0 {
        let q = p.drop_last();
        let x = p.last();
        lemma_fold_flag(q, w);
        lemma_step_flag(chord_fold(q), x, w);
        if some_flag_part(p, w) {
            let i = choose|i: int| 0 <= i < p.len() && #[trigger] is_flag_part(p[i], w);
            if i < q.len() {
                assert(is_flag_part(q[i], w));
            }
        }
        if some_flag_part(q, w) {
            let i = choose|i: int| 0 <= i < q.len() && #[trigger] is_flag_part(q[i], w);
            assert(is_flag_part(p[i], w));
        }
        if is_flag_part(x, w) {
            assert(is_flag_part(p[p.len() - 1], w));
        }
    }
}

/// With part `j` the last key part, the key read is that part, trimmed
/// and lowercased.
proof fn lemma_fold_key(p: Seq<Seq<char>>, j: int)
    requires
        0 <= j < p.len(),
        is_key_part(p[j]),
        forall|i: int| j < i < p.len() ==> !#[trigger] is_key_part(p[i]),
    ensures
        chord_fold(p).key == Some(spec_ascii_lower(trim(p[j]))),
    decreases p.len(),
{
    let q = p.drop_last();
    let x = p.last();
    lemma_step_flag(chord_fold(q), x, 0);
    if j < p.len() - 1 {
        assert(!is_key_part(p[p.len() - 1]));
        assert(p[j] == q[j]);
        assert forall|i: int| j < i < q.len() implies !#[trigger] is_key_part(q[i]) by {
            assert(!is_key_part(p[i]));
        }
        lemma_fold_key(q, j);
    }
}

/// The canonical form of a chord does not depend on the order or case of
/// its parts: when exactly one part (number `j` among the `+`-separated
/// parts) names a key, the chord canonicalizes to that key, lowercased,
/// after exactly the modifiers that some part names, in the fixed order;
/// canonicalizing that result again gives it back.
pub proof fn law_canonical_chord_of_parts(raw: Seq<char>, j: int)
    requires
        0 <= j < split_on(raw, '+').len(),
        is_key_part(split_on(raw, '+')[j]),
        forall|i: int| 0 <= i < split_on(raw, '+').len() && i != j ==> !#[trigger] is_key_part(split_on(raw, '+')[i]),
    ensures
        spec_canonicalize_chord(raw) == Some(
            spec_build_chord(
                some_flag_part(split_on(raw, '+'), 0),
                some_flag_part(split_on(raw, '+'), 1),
                some_flag_part(split_on(raw, '+'), 2),
                some_flag_part(split_on(raw, '+'), 3),
                trim(split_on(raw, '+')[j]),
            ),
        ),
        spec_canonicalize_chord(spec_canonicalize_chord(raw)->0) == spec_canonicalize_chord(raw),
{
    let p = split_on(raw, '+');
    lemma_fold_flag(p, 0);
    lemma_fold_flag(p, 1);
    lemma_fold_flag(p, 2);
    lemma_fold_flag(p, 3);
    lemma_fold_key(p, j);
    let st = chord_fold(p);
    assert(flag_value(st, 0) == some_flag_part(p, 0));
    assert(flag_value(st, 1) == some_flag_part(p, 1));
    assert(flag_value(st, 2) == some_flag_part(p, 2));
    assert(flag_value(st, 3) == some_flag_part(p, 3));
    assert(st.key == Some(spec_ascii_lower(trim(p[j]))));
    crate::strings::lemma_ascii_lower_idempotent(trim(p[j]));
    let key = trim(p[j]);
    crate::strings::lemma_split_pieces_lack_sep(raw, '+');
    crate::strings::lemma_trim_not_contains(p[j], '+');
    crate::strings::lemma_trim_idempotent(p[j]);
    law_build_chord_is_canonical(
        some_flag_part(p, 0),
        some_flag_part(p, 1),
        some_flag_part(p, 2),
        some_flag_part(p, 3),
        key,
    );
}

} // verus!

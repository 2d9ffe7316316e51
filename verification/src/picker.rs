//! The filterable list a plugin shows with `rote.open_picker`: the query the
//! user has typed, which items match it, and which row is selected.

use vstd::prelude::*;
use crate::keys::{KeyInput, NamedKey};
use crate::strings::{ascii_lower, chars_to_string, extend_chars, extend_chars_str, spec_ascii_lower, str_to_chars};

verus! {

/// Whether `needle` occurs in `hay` as a contiguous run (the empty needle
/// occurs everywhere).
pub open spec fn contains_seq(hay: Seq<char>, needle: Seq<char>) -> bool {
    exists|i: int| 0 <= i <= hay.len() - needle.len() && #[trigger] hay.subrange(i, i + needle.len()) == needle
}

/// Whether `item` matches `query`: ASCII-case-insensitive substring match.
pub open spec fn item_matches(item: Seq<char>, query: Seq<char>) -> bool {
    contains_seq(spec_ascii_lower(item), spec_ascii_lower(query))
}

/// The items matching `query`, in order; all of them for an empty query.
pub open spec fn filter_items(items: Seq<Seq<char>>, query: Seq<char>) -> Seq<Seq<char>>
    decreases items.len(),
{
    if items.len() == 0 {
        seq![]
    } else {
        let rest = filter_items(items.drop_last(), query);
        if query.len() == 0 || item_matches(items.last(), query) {
            rest.push(items.last())
        } else {
            rest
        }
    }
}

/// Whether `needle` occurs in `hay`.
pub fn contains_chars(hay: &[char], needle: &[char]) -> (r: bool)
    ensures
        r == contains_seq(hay@, needle@),
{
    let hl = hay.len();
    let nl = needle.len();
    if nl > hl {
        return false;
    }
    let mut i: usize = 0;
    while i <= hl - nl
        invariant
            hl == hay@.len(),
            nl == needle@.len(),
            needle@.len() <= hay@.len(),
            i <= hay@.len() - needle@.len() + 1,
            forall|k: int| 0 <= k < i ==> #[trigger] hay@.subrange(k, k + needle@.len()) != needle@,
        decreases hay@.len() - needle@.len() + 1 - i,
    {
        let mut j: usize = 0;
        let mut same = true;
        while j < nl
            invariant
                hl == hay@.len(),
                nl == needle@.len(),
                needle@.len() <= hay@.len(),
                i <= hay@.len() - needle@.len(),
                j <= needle@.len(),
                same == (forall|t: int| 0 <= t < j ==> hay@[i + t] == needle@[t]),
            decreases needle@.len() - j,
        {
            if hay[i + j] != needle[j] {
                same = false;
            }
            j += 1;
        }
        if same {
            proof {
                assert(hay@.subrange(i as int, i + needle@.len()) =~= needle@);
            }
            return true;
        }
        proof {
            let t = choose|t: int| 0 <= t < needle@.len() && hay@[i + t] != needle@[t];
            assert(hay@.subrange(i as int, i + needle@.len())[t] != needle@[t]);
        }
        i += 1;
    }
    false
}

/// The most rows shown below the query line.
pub const MAX_PICKER_ROWS: usize = 20;

/// An open picker: the items a plugin offered, the typed query, and the
/// selected row among the items that match it.
pub struct Picker {
    pub items: Vec<String>,
    pub query: String,
    pub selected: usize,
}

pub open spec fn strings_model(v: Seq<String>) -> Seq<Seq<char>> {
    v.map_values(|s: String| s@)
}

pub open spec fn strs_model(v: Seq<&str>) -> Seq<Seq<char>> {
    v.map_values(|s: &str| s@)
}

impl Picker {
    /// The items matching the query.
    pub open spec fn spec_filtered(&self) -> Seq<Seq<char>> {
        filter_items(strings_model(self.items@), self.query@)
    }

    pub fn new(items: Vec<String>) -> (p: Self)
        ensures
            p.items == items,
            p.query@ == Seq::<char>::empty(),
            p.selected == 0,
    {
        Picker { items, query: String::new(), selected: 0 }
    }

    /// The items matching the query (ASCII-case-insensitive substring), in
    /// order; all items while the query is empty.
    pub fn filtered(&self) -> (r: Vec<&str>)
        ensures
            strs_model(r@) == self.spec_filtered(),
    {
        let qchars = str_to_chars(self.query.as_str());
        let query = ascii_lower(qchars.as_slice());
        let mut r: Vec<&str> = Vec::new();
        let mut i: usize = 0;
        proof {
            assert(strings_model(self.items@).take(0) =~= seq![]);
            assert(strs_model(r@) =~= seq![]);
        }
        while i < self.items.len()
            invariant
                i <= self.items@.len(),
                qchars@ == self.query@,
                query@ == spec_ascii_lower(self.query@),
                strs_model(r@) == filter_items(strings_model(self.items@).take(i as int), self.query@),
            decreases self.items@.len() - i,
        {
            let item = self.items[i].as_str();
            let keep = if qchars.len() == 0 {
                true
            } else {
                let ichars = str_to_chars(item);
                let lower = ascii_lower(ichars.as_slice());
                contains_chars(lower.as_slice(), query.as_slice())
            };
            proof {
                let m = strings_model(self.items@);
                assert(m.take(i + 1).drop_last() =~= m.take(i as int));
                assert(m.take(i + 1).last() == self.items@[i as int]@);
            }
            let ghost prev = r@;
            if keep {
                r.push(item);
                proof {
                    assert(strs_model(r@) =~= strs_model(prev).push(item@));
                }
            }
            i += 1;
        }
        proof {
            assert(strings_model(self.items@).take(i as int) =~= strings_model(self.items@));
        }
        r
    }
}

} // verus!

verus! {

/// What a key press in an open picker asks the caller to do.
#[derive(Debug, Clone, PartialEq, Eq)]
pub enum PickerAction {
    /// Close the picker without choosing anything.
    Cancel,
    /// Close the picker, choosing this item (nothing if no item matched).
    Confirm(Option<String>),
    /// The picker changed; draw it again.
    Redraw,
    /// The key does nothing here.
    Ignore,
}

/// The lines of text joined with `\n` between them.
pub open spec fn join_lines(lines: Seq<Seq<char>>) -> Seq<char>
    decreases lines.len(),
{
    if lines.len() == 0 {
        seq![]
    } else if lines.len() == 1 {
        lines[0]
    } else {
        join_lines(lines.drop_last()) + "\n"@ + lines.last()
    }
}

/// Row `i` of the list: a `> ` marker on the selected row, two spaces
/// otherwise, then the item.
pub open spec fn picker_row(i: int, selected: int, item: Seq<char>) -> Seq<char> {
    (if i == selected { "> "@ } else { "  "@ }) + item
}

/// The picker's lines: the query prompt with a `_` caret, a blank line, up
/// to `MAX_PICKER_ROWS` matching items, and a note when nothing matches.
pub open spec fn picker_lines(query: Seq<char>, selected: int, filtered: Seq<Seq<char>>) -> Seq<Seq<char>> {
    let n = if filtered.len() < MAX_PICKER_ROWS { filtered.len() as int } else { MAX_PICKER_ROWS as int };
    seq!["Open file: "@ + query + "_"@, Seq::<char>::empty()]
        + Seq::new(n as nat, |i: int| picker_row(i, selected, filtered[i]))
        + (if filtered.len() == 0 { seq!["  (no matches)"@] } else { Seq::<Seq<char>>::empty() })
}

impl Picker {
    /// Clamps `selected` back into range after the list of matches shrank:
    /// 0 with no matches, else at most the last match.
    pub fn clamp_selection(&mut self)
        ensures
            final(self).items == old(self).items,
            final(self).query == old(self).query,
            final(self).selected == (if old(self).spec_filtered().len() == 0 {
                0
            } else if old(self).selected >= old(self).spec_filtered().len() {
                (old(self).spec_filtered().len() - 1) as usize
            } else {
                old(self).selected
            }),
    {
        let count = self.filtered().len();
        if count == 0 {
            self.selected = 0;
        } else if self.selected >= count {
            self.selected = count - 1;
        }
    }

    /// Handles a key press while the picker is open: Escape cancels, Enter
    /// confirms the selected match, Up and Down move the selection (Down
    /// stays on the last match), and Backspace, Space and text keys edit the
    /// query, going back to the first row.
    pub fn handle_key(&mut self, key: &KeyInput) -> (a: PickerAction)
        requires
            *key == KeyInput::Named(NamedKey::ArrowDown) ==> old(self).selected < usize::MAX,
        ensures
            final(self).items == old(self).items,
            match *key {
                KeyInput::Named(NamedKey::Escape) => a == PickerAction::Cancel && *final(self) == *old(self),
                KeyInput::Named(NamedKey::Enter) => *final(self) == *old(self) && match a {
                    PickerAction::Confirm(Some(s)) => old(self).selected < old(self).spec_filtered().len()
                        && s@ == old(self).spec_filtered()[old(self).selected as int],
                    PickerAction::Confirm(None) => old(self).selected >= old(self).spec_filtered().len(),
                    _ => false,
                },
                KeyInput::Named(NamedKey::ArrowUp) => a == PickerAction::Redraw && final(self).query == old(self).query
                    && final(self).selected == (if old(self).selected == 0 { 0 } else { (old(self).selected - 1) as usize }),
                KeyInput::Named(NamedKey::ArrowDown) => a == PickerAction::Redraw && final(self).query == old(self).query
                    && final(self).selected == (if old(self).spec_filtered().len() == 0 {
                        0
                    } else if old(self).selected + 1 >= old(self).spec_filtered().len() {
                        (old(self).spec_filtered().len() - 1) as usize
                    } else {
                        (old(self).selected + 1) as usize
                    }),
                KeyInput::Named(NamedKey::Backspace) => a == PickerAction::Redraw && final(self).selected == 0
                    && final(self).query@ == (if old(self).query@.len() == 0 { old(self).query@ } else { old(self).query@.drop_last() }),
                KeyInput::Named(NamedKey::Space) => a == PickerAction::Redraw && final(self).selected == 0
                    && final(self).query@ == old(self).query@.push(' '),
                KeyInput::Character(s) => a == PickerAction::Redraw && final(self).selected == 0
                    && final(self).query@ == old(self).query@ + s@,
                _ => a == PickerAction::Ignore && *final(self) == *old(self),
            },
    {
        match key {
            KeyInput::Named(NamedKey::Escape) => PickerAction::Cancel,
            KeyInput::Named(NamedKey::Enter) => {
                let matches = self.filtered();
                if self.selected < matches.len() {
                    let chosen = chars_to_string(str_to_chars(matches[self.selected]).as_slice());
                    PickerAction::Confirm(Some(chosen))
                } else {
                    PickerAction::Confirm(None)
                }
            },
            KeyInput::Named(NamedKey::ArrowUp) => {
                self.selected = if self.selected == 0 { 0 } else { self.selected - 1 };
                PickerAction::Redraw
            },
            KeyInput::Named(NamedKey::ArrowDown) => {
                self.selected = self.selected + 1;
                self.clamp_selection();
                PickerAction::Redraw
            },
            KeyInput::Named(NamedKey::Backspace) => {
                let mut q = str_to_chars(self.query.as_str());
                q.pop();
                self.query = chars_to_string(q.as_slice());
                self.selected = 0;
                PickerAction::Redraw
            },
            KeyInput::Named(NamedKey::Space) => {
                let mut q = str_to_chars(self.query.as_str());
                q.push(' ');
                self.query = chars_to_string(q.as_slice());
                self.selected = 0;
                PickerAction::Redraw
            },
            KeyInput::Character(s) => {
                let mut q = str_to_chars(self.query.as_str());
                extend_chars_str(&mut q, s.as_str());
                self.query = chars_to_string(q.as_slice());
                self.selected = 0;
                PickerAction::Redraw
            },
            _ => PickerAction::Ignore,
        }
    }
}

} // verus!

verus! {

pub proof fn lemma_join_push(ls: Seq<Seq<char>>, x: Seq<char>)
    requires
        ls.len() >= 1,
    ensures
        join_lines(ls.push(x)) == join_lines(ls) + "\n"@ + x,
{
    assert(ls.push(x).drop_last() =~= ls);
}

impl Picker {
    /// The picker's text as drawn: the query prompt with a `_` caret, a
    /// blank line, the first `MAX_PICKER_ROWS` matches with `> ` marking the
    /// selected one, and `  (no matches)` when nothing matches.
    pub fn display_text(&self) -> (t: String)
        ensures
            t@ == join_lines(picker_lines(self.query@, self.selected as int, self.spec_filtered())),
    {
        let matches = self.filtered();
        let ghost f = self.spec_filtered();
        let mut out: Vec<char> = Vec::new();
        extend_chars_str(&mut out, "Open file: ");
        extend_chars_str(&mut out, self.query.as_str());
        extend_chars_str(&mut out, "_");
        let ghost first = "Open file: "@ + self.query@ + "_"@;
        proof {
            assert(out@ =~= first);
            assert(join_lines(seq![first]) == first);
        }
        extend_chars_str(&mut out, "\n");
        let ghost mut lines: Seq<Seq<char>> = seq![first, Seq::<char>::empty()];
        proof {
            lemma_join_push(seq![first], Seq::<char>::empty());
            assert(seq![first].push(Seq::<char>::empty()) =~= lines);
            assert(out@ =~= join_lines(lines));
        }
        let n = if matches.len() < MAX_PICKER_ROWS { matches.len() } else { MAX_PICKER_ROWS };
        let mut i: usize = 0;
        while i < n
            invariant
                f == self.spec_filtered(),
                strs_model(matches@) == f,
                n <= matches@.len(),
                n == (if f.len() < MAX_PICKER_ROWS { f.len() as int } else { MAX_PICKER_ROWS as int }),
                i <= n,
                lines == seq![first, Seq::<char>::empty()] + Seq::new(i as nat, |k: int| picker_row(k, self.selected as int, f[k])),
                out@ == join_lines(lines),
            decreases n - i,
        {
            extend_chars_str(&mut out, "\n");
            if i == self.selected {
                extend_chars_str(&mut out, "> ");
            } else {
                extend_chars_str(&mut out, "  ");
            }
            extend_chars_str(&mut out, matches[i]);
            proof {
                assert(strs_model(matches@)[i as int] == matches@[i as int]@);
                let row = picker_row(i as int, self.selected as int, f[i as int]);
                lemma_join_push(lines, row);
                let nl = seq![first, Seq::<char>::empty()] + Seq::new((i + 1) as nat, |k: int| picker_row(k, self.selected as int, f[k]));
                assert(lines.push(row) =~= nl);
                lines = nl;
                assert(out@ =~= join_lines(lines));
            }
            i += 1;
        }
        if matches.len() == 0 {
            extend_chars_str(&mut out, "\n");
            extend_chars_str(&mut out, "  (no matches)");
            proof {
                lemma_join_push(lines, "  (no matches)"@);
                assert(out@ =~= join_lines(lines.push("  (no matches)"@)));
                assert(lines.push("  (no matches)"@) =~= picker_lines(self.query@, self.selected as int, f));
            }
        } else {
            proof {
                assert(lines =~= picker_lines(self.query@, self.selected as int, f));
            }
        }
        chars_to_string(out.as_slice())
    }
}

} // verus!

verus! {

/// Whether an item is shown for `query`: every item for an empty query,
/// else the items that match it.
pub open spec fn shown_for(query: Seq<char>) -> spec_fn(Seq<char>) -> bool {
    |x: Seq<char>| query.len() == 0 || item_matches(x, query)
}

/// The picker's filter keeps, in their order, exactly the items that match
/// the query (all of them for an empty query): it is the standard sequence
/// filter by that test, so every kept item matches and every matching item
/// is kept.
pub proof fn law_filter_keeps_matches(items: Seq<Seq<char>>, query: Seq<char>)
    ensures
        filter_items(items, query) == items.filter(shown_for(query)),
        forall|i: int|
            0 <= i < filter_items(items, query).len() ==> query.len() == 0 || item_matches(
                #[trigger] filter_items(items, query)[i],
                query,
            ),
        forall|i: int|
            0 <= i < items.len() && (query.len() == 0 || item_matches(#[trigger] items[i], query))
                ==> filter_items(items, query).contains(items[i]),
        query.len() == 0 ==> filter_items(items, query) == items,
    decreases items.len(),
{
    let pred = shown_for(query);
    reveal(Seq::filter);
    if items.len() > 0 {
        law_filter_keeps_matches(items.drop_last(), query);
        assert(pred(items.last()) == (query.len() == 0 || item_matches(items.last(), query)));
    } else {
        assert(filter_items(items, query) =~= items);
    }
    assert(filter_items(items, query) == items.filter(pred));
    items.filter_lemma(pred);
    if query.len() == 0 {
        if items.len() > 0 {
            assert(items.drop_last().push(items.last()) =~= items);
        }
    }
}

/// Matching ignores ASCII case on both sides, and an item that holds the
/// query as it is typed matches it.
pub proof fn law_match_ignores_case(item: Seq<char>, query: Seq<char>)
    ensures
        item_matches(item, query) == item_matches(spec_ascii_lower(item), query),
        item_matches(item, query) == item_matches(item, spec_ascii_lower(query)),
        contains_seq(item, query) ==> item_matches(item, query),
{
    crate::strings::lemma_ascii_lower_idempotent(item);
    crate::strings::lemma_ascii_lower_idempotent(query);
    if contains_seq(item, query) {
        let i = choose|i: int| 0 <= i <= item.len() - query.len() && #[trigger] item.subrange(i, i + query.len()) == query;
        let li = spec_ascii_lower(item);
        assert(li.subrange(i, i + query.len()) =~= spec_ascii_lower(query));
    }
}

} // verus!

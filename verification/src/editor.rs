use std::collections::HashMap;
use std::collections::hash_map::Entry;
use vstd::prelude::*;
use crate::buffer::{Buffer, BufferError, BufferId, BufferModel, fresh_model};
use crate::cursor::{Cursor, spec_has_selection, spec_move_to, spec_selection_range};
use crate::buffer::{deleted, inserted};
use crate::strings::str_to_chars;
use crate::chars::{is_alphanumeric, is_whitespace};
use crate::motion::{content_end, down_target, goal_col, head_line, horizontal, is_word_char_spec, min_int, skip_class_left, skip_class_right, skip_ws_left, skip_ws_right, up_target, vertical, word_left_target, word_right_target};
use crate::rope::rope_text;
use crate::text::{breaks_before, line_count, line_start, lemma_line_of, lemma_line_start, lemma_line_start_props, is_start_of_line};
use ropey::Rope;

verus! {

broadcast use vstd::std_specs::hash::group_hash_axioms;

/// Top-level editor state: every open buffer, one cursor per buffer, and
/// which buffer currently has focus.
pub struct Editor {
    buffers: HashMap<u64, Buffer>,
    cursors: HashMap<u64, Cursor>,
    active: Option<BufferId>,
    next_id: u64,
}

/// An editor as plain values, keyed by buffer id.
pub struct EditorModel {
    pub buffers: Map<u64, BufferModel>,
    pub cursors: Map<u64, Cursor>,
    pub active: Option<u64>,
    pub next_id: u64,
}

pub open spec fn buffers_model(m: Map<u64, Buffer>) -> Map<u64, BufferModel> {
    m.map_values(|b: Buffer| b@)
}

impl View for Editor {
    type V = EditorModel;

    closed spec fn view(&self) -> EditorModel {
        EditorModel {
            buffers: buffers_model(self.buffers@),
            cursors: self.cursors@,
            active: match self.active {
                Some(id) => Some(id.0),
                None => None,
            },
            next_id: self.next_id,
        }
    }
}

/// Every buffer has a cursor and every cursor a buffer, the active buffer
/// exists, and every id in use was handed out before `next_id`.
pub open spec fn editor_wf(m: EditorModel) -> bool {
    &&& m.buffers.dom() == m.cursors.dom()
    &&& m.active matches Some(id) ==> m.buffers.contains_key(id)
    &&& forall|k: u64| #[trigger] m.buffers.contains_key(k) ==> k < m.next_id
}

proof fn lemma_buffers_model_updates()
    ensures
        forall|m: Map<u64, Buffer>, k: u64, b: Buffer| #[trigger] buffers_model(m.insert(k, b))
            == buffers_model(m).insert(k, b@),
        forall|m: Map<u64, Buffer>, k: u64| !m.contains_key(k) ==> #[trigger] m.remove(k) == m,
{
    assert forall|m: Map<u64, Buffer>, k: u64, b: Buffer| #[trigger] buffers_model(m.insert(k, b))
        == buffers_model(m).insert(k, b@) by {
        assert(buffers_model(m.insert(k, b)) =~= buffers_model(m).insert(k, b@));
    }
    assert forall|m: Map<u64, Buffer>, k: u64| !m.contains_key(k) implies #[trigger] m.remove(k) == m by {
        assert(m.remove(k) =~= m);
    }
}

/// The editor with buffer `k` replaced by `b`.
pub open spec fn with_buffer(m: EditorModel, k: u64, b: BufferModel) -> EditorModel {
    EditorModel { buffers: m.buffers.insert(k, b), ..m }
}

/// The editor with cursor `k` replaced by `c`.
pub open spec fn with_cursor(m: EditorModel, k: u64, c: Cursor) -> EditorModel {
    EditorModel { cursors: m.cursors.insert(k, c), ..m }
}

/// The editor with cursor `k`, if there is one, moved to `pos`.
pub open spec fn cursor_moved(m: EditorModel, k: u64, pos: usize) -> EditorModel {
    if m.cursors.contains_key(k) {
        with_cursor(m, k, spec_move_to(m.cursors[k], pos))
    } else {
        m
    }
}

/// Whether a `Result` of an edit matches its model, where a model error
/// `(i, n)` stands for `BufferError::OutOfBounds(i, n)`.
pub open spec fn edit_result_matches<T>(r: Result<T, BufferError>, m: Result<T, (usize, usize)>) -> bool {
    match m {
        Ok(v) => r matches Ok(v2) && v2 == v,
        Err((i, n)) => r matches Err(BufferError::OutOfBounds(i2, n2)) && i2 == i && n2 == n,
    }
}

/// The head of cursor `k`, or 0 without one.
pub open spec fn head_or_zero(m: EditorModel, k: u64) -> usize {
    if m.cursors.contains_key(k) { m.cursors[k].head } else { 0 }
}

/// `delete_selection`: with an active buffer whose cursor selects at least
/// one char, that range is deleted from the buffer (if it exists) and the
/// cursor moves to the range's start. The result tells whether anything
/// was deleted; an empty selection (anchor at the head) counts as none.
pub open spec fn delete_selection_model(m: EditorModel) -> (EditorModel, Result<bool, (usize, usize)>) {
    match m.active {
        None => (m, Ok(false)),
        Some(k) => {
            let sel = if m.cursors.contains_key(k) && spec_has_selection(m.cursors[k]) {
                spec_selection_range(m.cursors[k])
            } else {
                None
            };
            match sel {
                None => (m, Ok(false)),
                Some((lo, hi)) => {
                    if m.buffers.contains_key(k) {
                        let b = m.buffers[k];
                        if hi > b.text.len() || lo > hi {
                            (m, Err((hi, b.text.len() as usize)))
                        } else {
                            (cursor_moved(with_buffer(m, k, deleted(b, lo as int, hi as int)), k, lo), Ok(true))
                        }
                    } else {
                        (cursor_moved(m, k, lo), Ok(true))
                    }
                },
            }
        },
    }
}

/// `insert_at_cursor`: the selection is deleted first; then `t` is inserted
/// at the active cursor's head and the cursor moves past it.
pub open spec fn insert_at_cursor_model(m: EditorModel, t: Seq<char>) -> (EditorModel, Result<(), (usize, usize)>) {
    let (m1, r1) = delete_selection_model(m);
    match r1 {
        Err(e) => (m1, Err(e)),
        Ok(_) => match m1.active {
            None => (m1, Ok(())),
            Some(k) => {
                let pos = head_or_zero(m1, k);
                if m1.buffers.contains_key(k) {
                    let b = m1.buffers[k];
                    if pos > b.text.len() {
                        (m1, Err((pos, b.text.len() as usize)))
                    } else {
                        (cursor_moved(with_buffer(m1, k, inserted(b, pos as int, t)), k, (pos + t.len()) as usize), Ok(()))
                    }
                } else {
                    (cursor_moved(m1, k, (pos + t.len()) as usize), Ok(()))
                }
            },
        },
    }
}

/// `backspace_at_cursor`: deletes the selection if there is one; otherwise
/// the char before the active cursor, moving the cursor back by one.
pub open spec fn backspace_model(m: EditorModel) -> (EditorModel, Result<(), (usize, usize)>) {
    let (m1, r1) = delete_selection_model(m);
    match r1 {
        Err(e) => (m1, Err(e)),
        Ok(true) => (m1, Ok(())),
        Ok(false) => match m1.active {
            None => (m1, Ok(())),
            Some(k) => {
                let pos = head_or_zero(m1, k);
                if pos == 0 {
                    (m1, Ok(()))
                } else if m1.buffers.contains_key(k) {
                    let b = m1.buffers[k];
                    if pos > b.text.len() {
                        (m1, Err((pos, b.text.len() as usize)))
                    } else {
                        (cursor_moved(with_buffer(m1, k, deleted(b, pos - 1, pos as int)), k, (pos - 1) as usize), Ok(()))
                    }
                } else {
                    (cursor_moved(m1, k, (pos - 1) as usize), Ok(()))
                }
            },
        },
    }
}

/// `delete_forward_at_cursor`: deletes the selection if there is one;
/// otherwise the char after the active cursor, which stays put.
pub open spec fn delete_forward_model(m: EditorModel) -> (EditorModel, Result<(), (usize, usize)>) {
    let (m1, r1) = delete_selection_model(m);
    match r1 {
        Err(e) => (m1, Err(e)),
        Ok(true) => (m1, Ok(())),
        Ok(false) => match m1.active {
            None => (m1, Ok(())),
            Some(k) => {
                let pos = head_or_zero(m1, k);
                let len = if m1.buffers.contains_key(k) { m1.buffers[k].text.len() } else { 0 };
                if pos >= len {
                    (m1, Ok(()))
                } else {
                    (with_buffer(m1, k, deleted(m1.buffers[k], pos as int, pos + 1)), Ok(()))
                }
            },
        },
    }
}

proof fn lemma_map_insert_same<K, V>()
    ensures
        forall|m: Map<K, V>, k: K| m.contains_key(k) ==> #[trigger] m.insert(k, m[k]) == m,
        forall|m: Map<K, V>, k: K, v: V| m.contains_key(k) ==> #[trigger] m.insert(k, v).dom() == m.dom(),
{
    assert forall|m: Map<K, V>, k: K, v: V| m.contains_key(k) implies #[trigger] m.insert(k, v).dom() == m.dom() by {
        assert(m.insert(k, v).dom() =~= m.dom());
    }
    assert forall|m: Map<K, V>, k: K| m.contains_key(k) implies #[trigger] m.insert(k, m[k]) == m by {
        assert(m.insert(k, m[k]) =~= m);
    }
}

/// The editor has an active buffer, and that buffer has a cursor.
pub open spec fn has_active_parts(m: EditorModel) -> bool {
    m.active matches Some(k) && m.buffers.contains_key(k) && m.cursors.contains_key(k)
}

/// The active id has a cursor but no buffer, which no well-formed editor
/// has.
pub open spec fn cursor_without_buffer(m: EditorModel) -> bool {
    m.active matches Some(k) && m.cursors.contains_key(k) && !m.buffers.contains_key(k)
}

/// The active buffer has a cursor.
pub open spec fn has_active_cursor(m: EditorModel) -> bool {
    m.active matches Some(k) && m.cursors.contains_key(k)
}

pub open spec fn active_text(m: EditorModel) -> Seq<char> {
    m.buffers[m.active->0].text
}

pub open spec fn active_cursor(m: EditorModel) -> Cursor {
    m.cursors[m.active->0]
}

/// The editor after a motion that needs the active buffer's text: the
/// active cursor becomes `c`, if there is an active buffer with a cursor.
pub open spec fn text_motion(m: EditorModel, c: Cursor) -> EditorModel {
    if has_active_parts(m) { with_cursor(m, m.active->0, c) } else { m }
}

/// The editor after a motion that needs only the active cursor.
pub open spec fn cursor_motion(m: EditorModel, c: Cursor) -> EditorModel {
    if has_active_cursor(m) { with_cursor(m, m.active->0, c) } else { m }
}

impl Default for Editor {
    fn default() -> (e: Self)
        ensures
            e@.buffers == Map::<u64, BufferModel>::empty(),
            e@.cursors == Map::<u64, Cursor>::empty(),
            e@.active is None,
            e@.next_id == 0,
            e.wf(),
    {
        Self::new()
    }
}

impl Editor {
    pub open spec fn wf(&self) -> bool {
        editor_wf(self@)
    }

    pub fn new() -> (e: Self)
        ensures
            e@.buffers == Map::<u64, BufferModel>::empty(),
            e@.cursors == Map::<u64, Cursor>::empty(),
            e@.active is None,
            e@.next_id == 0,
            e.wf(),
    {
        let e = Editor { buffers: HashMap::new(), cursors: HashMap::new(), active: None, next_id: 0 };
        proof {
            assert(buffers_model(e.buffers@) =~= Map::<u64, BufferModel>::empty());
        }
        e
    }

    fn alloc_id(&mut self) -> (id: BufferId)
        requires
            old(self).next_id < u64::MAX,
        ensures
            id.0 == old(self).next_id,
            final(self).next_id == old(self).next_id + 1,
            final(self).buffers == old(self).buffers,
            final(self).cursors == old(self).cursors,
            final(self).active == old(self).active,
    {
        let id = BufferId(self.next_id);
        self.next_id += 1;
        id
    }

    /// Adds buffer `b` under `id` with a cursor at 0, and focuses it.
    fn add_buffer(&mut self, id: BufferId, b: Buffer)
        ensures
            final(self)@ == (EditorModel {
                buffers: old(self)@.buffers.insert(id.0, b@),
                cursors: old(self)@.cursors.insert(id.0, Cursor { head: 0, anchor: None, sticky_col: None }),
                active: Some(id.0),
                ..old(self)@
            }),
    {
        let ghost bm = b@;
        self.buffers.insert(id.0, b);
        self.cursors.insert(id.0, Cursor::at(0));
        self.active = Some(id);
        proof {
            assert(buffers_model(self.buffers@) =~= buffers_model(old(self).buffers@).insert(id.0, bm));
        }
    }

    /// Opens a new empty buffer, gives it a cursor at 0 and focuses it.
    pub fn new_buffer(&mut self) -> (id: BufferId)
        requires
            old(self)@.next_id < u64::MAX,
        ensures
            id.0 == old(self)@.next_id,
            final(self)@ == (EditorModel {
                buffers: old(self)@.buffers.insert(id.0, fresh_model(id.0, None, seq![])),
                cursors: old(self)@.cursors.insert(id.0, Cursor { head: 0, anchor: None, sticky_col: None }),
                active: Some(id.0),
                next_id: (old(self)@.next_id + 1) as u64,
            }),
            old(self).wf() ==> final(self).wf(),
    {
        let id = self.alloc_id();
        self.add_buffer(id, Buffer::empty(id));
        id
    }

    /// Opens a buffer for the file at `path` given the outcome of reading
    /// it. An id is used up either way; on a read error nothing else
    /// changes and the error is returned.
    pub fn open_file(&mut self, path: String, contents: Result<String, std::io::Error>) -> (r: Result<BufferId, BufferError>)
        requires
            old(self)@.next_id < u64::MAX,
        ensures
            match contents {
                Ok(text) => r matches Ok(id) && id.0 == old(self)@.next_id && final(self)@ == (EditorModel {
                    buffers: old(self)@.buffers.insert(id.0, fresh_model(id.0, Some(path@), text@)),
                    cursors: old(self)@.cursors.insert(id.0, Cursor { head: 0, anchor: None, sticky_col: None }),
                    active: Some(id.0),
                    next_id: (old(self)@.next_id + 1) as u64,
                }),
                Err(e) => r matches Err(BufferError::Io(e2)) && e2 == e
                    && final(self)@ == (EditorModel { next_id: (old(self)@.next_id + 1) as u64, ..old(self)@ }),
            },
            old(self).wf() ==> final(self).wf(),
    {
        let id = self.alloc_id();
        let buffer = match Buffer::open(id, path, contents) {
            Ok(b) => b,
            Err(e) => return Err(e),
        };
        self.add_buffer(id, buffer);
        Ok(id)
    }

    pub fn active_id(&self) -> (r: Option<BufferId>)
        ensures
            r == match self@.active { Some(k) => Some(BufferId(k)), None => None::<BufferId> },
    {
        self.active
    }

    /// Focuses buffer `id` if it is open; otherwise nothing changes.
    pub fn set_active(&mut self, id: BufferId)
        ensures
            old(self)@.buffers.contains_key(id.0) ==> final(self)@ == (EditorModel { active: Some(id.0), ..old(self)@ }),
            !old(self)@.buffers.contains_key(id.0) ==> final(self)@ == old(self)@,
            old(self).wf() ==> final(self).wf(),
    {
        if self.buffers.contains_key(&id.0) {
            self.active = Some(id);
        }
    }

    pub fn buffer(&self, id: BufferId) -> (r: Option<&Buffer>)
        ensures
            r is Some <==> self@.buffers.contains_key(id.0),
            r matches Some(b) ==> b@ == self@.buffers[id.0],
    {
        self.buffers.get(&id.0)
    }

    pub fn cursor(&self, id: BufferId) -> (r: Option<&Cursor>)
        ensures
            r is Some <==> self@.cursors.contains_key(id.0),
            r matches Some(c) ==> *c == self@.cursors[id.0],
    {
        self.cursors.get(&id.0)
    }

    pub fn active_buffer(&self) -> (r: Option<&Buffer>)
        ensures
            r is Some <==> (self@.active matches Some(k) && self@.buffers.contains_key(k)),
            r matches Some(b) ==> b@ == self@.buffers[self@.active->0],
    {
        match self.active {
            Some(id) => self.buffers.get(&id.0),
            None => None,
        }
    }

    pub fn buffer_mut(&mut self, id: BufferId) -> (r: Option<&mut Buffer>)
        ensures
            r is Some <==> old(self)@.buffers.contains_key(id.0),
            r is Some ==> (*r.unwrap())@ == old(self)@.buffers[id.0]
                && final(self)@ == (EditorModel {
                    buffers: old(self)@.buffers.insert(id.0, (*final(r.unwrap()))@),
                    ..old(self)@
                }),
            r is None ==> final(self)@ == old(self)@,
    {
        proof {
            lemma_buffers_model_updates();
        }
        match self.buffers.entry(id.0) {
            Entry::Occupied(o) => Some(o.into_mut()),
            Entry::Vacant(v) => {
                proof {
                    vstd::std_specs::hash::axiom_has_resolved_vacant_entry(v);
                }
                None
            },
        }
    }


    /// Delete the active selection, if any. Returns whether anything was
    /// deleted, so callers can fall back to single-char behavior when there
    /// was no selection to consume; an empty selection is none.
    pub fn delete_selection(&mut self) -> (r: Result<bool, BufferError>)
        ensures
            final(self)@ == delete_selection_model(old(self)@).0,
            edit_result_matches(r, delete_selection_model(old(self)@).1),
            old(self).wf() ==> final(self).wf(),
    {
        proof {
            lemma_map_insert_same::<u64, BufferModel>();
            lemma_map_insert_same::<u64, Cursor>();
        }
        let id = match self.active {
            Some(id) => id,
            None => return Ok(false),
        };
        let range = match self.cursors.get(&id.0) {
            Some(c) => {
                if !c.has_selection() {
                    return Ok(false);
                }
                match c.selection_range() {
                    Some(range) => range,
                    None => return Ok(false),
                }
            },
            None => return Ok(false),
        };
        if let Some(buf) = self.buffer_mut(id) {
            match buf.delete(range.0, range.1) {
                Ok(()) => {},
                Err(e) => return Err(e),
            }
        }
        if let Some(cursor) = self.cursor_mut(id) {
            cursor.move_to(range.0);
        }
        Ok(true)
    }

    /// Insert text at the active cursor and advance it past the inserted
    /// text. Replaces the current selection, if any, rather than inserting
    /// alongside it.
    pub fn insert_at_cursor(&mut self, text: &str) -> (r: Result<(), BufferError>)
        requires
            cursor_without_buffer(old(self)@) ==> active_cursor(old(self)@).head + text@.len() <= usize::MAX,
        ensures
            final(self)@ == insert_at_cursor_model(old(self)@, text@).0,
            edit_result_matches(r, insert_at_cursor_model(old(self)@, text@).1),
            old(self).wf() ==> final(self).wf(),
    {
        proof {
            lemma_map_insert_same::<u64, BufferModel>();
        }
        let ghost start = self@;
        match self.delete_selection() {
            Ok(_) => {},
            Err(e) => return Err(e),
        }
        let id = match self.active {
            Some(id) => id,
            None => return Ok(()),
        };
        let pos = match self.cursors.get(&id.0) {
            Some(c) => c.head,
            None => 0,
        };
        let n = str_to_chars(text).len();
        let ghost mid = self@;
        if let Some(buf) = self.buffer_mut(id) {
            match buf.insert(pos, text) {
                Ok(()) => {},
                Err(e) => return Err(e),
            }
            let _ = buf.len_chars();
        }
        proof {
            if mid.buffers.contains_key(id.0) {
                assert(self@.buffers.contains_key(id.0));
                assert(self@.buffers[id.0].text.len() == mid.buffers[id.0].text.len() + n);
            } else {
                // With no buffer, deleting the selection moved the cursor,
                // if at all, back to the selection's start.
                assert(!start.buffers.contains_key(id.0));
                if start.cursors.contains_key(id.0) {
                    assert(cursor_without_buffer(start));
                    assert(pos <= start.cursors[id.0].head);
                }
            }
        }
        if let Some(cursor) = self.cursor_mut(id) {
            cursor.move_to(pos + n);
        }
        Ok(())
    }

    /// Delete one char before the active cursor (backspace), or the
    /// selection if one is active.
    pub fn backspace_at_cursor(&mut self) -> (r: Result<(), BufferError>)
        ensures
            final(self)@ == backspace_model(old(self)@).0,
            edit_result_matches(r, backspace_model(old(self)@).1),
            old(self).wf() ==> final(self).wf(),
    {
        proof {
            lemma_map_insert_same::<u64, BufferModel>();
            lemma_map_insert_same::<u64, Cursor>();
        }
        match self.delete_selection() {
            Ok(true) => return Ok(()),
            Ok(false) => {},
            Err(e) => return Err(e),
        }
        let id = match self.active {
            Some(id) => id,
            None => return Ok(()),
        };
        let pos = match self.cursors.get(&id.0) {
            Some(c) => c.head,
            None => 0,
        };
        if pos == 0 {
            return Ok(());
        }
        if let Some(buf) = self.buffer_mut(id) {
            match buf.delete(pos - 1, pos) {
                Ok(()) => {},
                Err(e) => return Err(e),
            }
        }
        if let Some(cursor) = self.cursor_mut(id) {
            cursor.move_to(pos - 1);
        }
        Ok(())
    }

    /// Delete one char after the active cursor (Delete key), or the
    /// selection if one is active.
    pub fn delete_forward_at_cursor(&mut self) -> (r: Result<(), BufferError>)
        ensures
            final(self)@ == delete_forward_model(old(self)@).0,
            edit_result_matches(r, delete_forward_model(old(self)@).1),
            old(self).wf() ==> final(self).wf(),
    {
        proof {
            lemma_map_insert_same::<u64, BufferModel>();
            lemma_map_insert_same::<u64, Cursor>();
        }
        match self.delete_selection() {
            Ok(true) => return Ok(()),
            Ok(false) => {},
            Err(e) => return Err(e),
        }
        let id = match self.active {
            Some(id) => id,
            None => return Ok(()),
        };
        let pos = match self.cursors.get(&id.0) {
            Some(c) => c.head,
            None => 0,
        };
        let len = match self.buffers.get(&id.0) {
            Some(b) => b.len_chars(),
            None => 0,
        };
        if pos >= len {
            return Ok(());
        }
        if let Some(buf) = self.buffer_mut(id) {
            match buf.delete(pos, pos + 1) {
                Ok(()) => {},
                Err(e) => return Err(e),
            }
        }
        Ok(())
    }

    fn active_rope(&self) -> (r: Option<Rope>)
        ensures
            r is Some <==> (self@.active matches Some(k) && self@.buffers.contains_key(k)),
            r matches Some(rope) ==> rope_text(rope) == active_text(self@),
    {
        match self.active {
            Some(id) => match self.buffers.get(&id.0) {
                Some(b) => Some(b.rope().clone()),
                None => None,
            },
            None => None,
        }
    }

    fn apply_horizontal(cursor: &mut Cursor, pos: usize, extend: bool)
        ensures
            *final(cursor) == horizontal(*old(cursor), pos, extend),
    {
        if extend {
            cursor.extend_to(pos);
        } else {
            cursor.move_to(pos);
        }
        cursor.sticky_col = None;
    }

    fn is_word_char(c: char) -> (b: bool)
        ensures
            b == is_word_char_spec(c),
    {
        is_alphanumeric(c) || c == '_'
    }

    /// Moves (or extends the selection) to an absolute char offset, clamped
    /// to the active buffer's length.
    pub fn set_cursor_pos(&mut self, pos: usize, extend: bool)
        ensures
            final(self)@ == text_motion(old(self)@, horizontal(
                active_cursor(old(self)@),
                min_int(pos as int, active_text(old(self)@).len() as int) as usize,
                extend,
            )),
            old(self).wf() ==> final(self).wf(),
    {
        proof { lemma_map_insert_same::<u64, Cursor>(); }
        let rope = match self.active_rope() {
            Some(r) => r,
            None => return,
        };
        let len = rope.len_chars();
        let pos = if pos < len { pos } else { len };
        if let Some(cursor) = self.active_cursor_mut() {
            Self::apply_horizontal(cursor, pos, extend);
        }
    }

    /// Selects the whole active buffer, head at the end.
    pub fn select_all(&mut self)
        ensures
            final(self)@ == text_motion(old(self)@, Cursor {
                head: active_text(old(self)@).len() as usize,
                anchor: Some(0),
                sticky_col: None,
            }),
            old(self).wf() ==> final(self).wf(),
    {
        proof { lemma_map_insert_same::<u64, Cursor>(); }
        let rope = match self.active_rope() {
            Some(r) => r,
            None => return,
        };
        if let Some(cursor) = self.active_cursor_mut() {
            cursor.anchor = Some(0);
            cursor.head = rope.len_chars();
            cursor.sticky_col = None;
        }
    }

    pub fn move_left(&mut self, extend: bool)
        ensures
            final(self)@ == cursor_motion(old(self)@, horizontal(
                active_cursor(old(self)@),
                if active_cursor(old(self)@).head == 0 { 0 } else { (active_cursor(old(self)@).head - 1) as usize },
                extend,
            )),
            old(self).wf() ==> final(self).wf(),
    {
        proof { lemma_map_insert_same::<u64, Cursor>(); }
        if let Some(cursor) = self.active_cursor_mut() {
            let pos = if cursor.head == 0 { 0 } else { cursor.head - 1 };
            Self::apply_horizontal(cursor, pos, extend);
        }
    }

    /// Moves right one char, stopping at the end of the active buffer.
    pub fn move_right(&mut self, extend: bool)
        ensures
            final(self)@ == text_motion(old(self)@, horizontal(
                active_cursor(old(self)@),
                min_int(active_cursor(old(self)@).head + 1, active_text(old(self)@).len() as int) as usize,
                extend,
            )),
            old(self).wf() ==> final(self).wf(),
    {
        proof { lemma_map_insert_same::<u64, Cursor>(); }
        let rope = match self.active_rope() {
            Some(r) => r,
            None => return,
        };
        let len = rope.len_chars();
        if let Some(cursor) = self.active_cursor_mut() {
            let pos = if cursor.head >= len { len } else { cursor.head + 1 };
            Self::apply_horizontal(cursor, pos, extend);
        }
    }

    pub fn move_buffer_start(&mut self, extend: bool)
        ensures
            final(self)@ == cursor_motion(old(self)@, horizontal(active_cursor(old(self)@), 0, extend)),
            old(self).wf() ==> final(self).wf(),
    {
        proof { lemma_map_insert_same::<u64, Cursor>(); }
        if let Some(cursor) = self.active_cursor_mut() {
            Self::apply_horizontal(cursor, 0, extend);
        }
    }

    pub fn move_buffer_end(&mut self, extend: bool)
        ensures
            final(self)@ == text_motion(old(self)@, horizontal(
                active_cursor(old(self)@),
                active_text(old(self)@).len() as usize,
                extend,
            )),
            old(self).wf() ==> final(self).wf(),
    {
        proof { lemma_map_insert_same::<u64, Cursor>(); }
        let rope = match self.active_rope() {
            Some(r) => r,
            None => return,
        };
        if let Some(cursor) = self.active_cursor_mut() {
            let pos = rope.len_chars();
            Self::apply_horizontal(cursor, pos, extend);
        }
    }

    /// Moves to the start of the previous word: back over whitespace, then
    /// over the run of chars of the same class (word chars, or other
    /// non-blanks).
    pub fn move_word_left(&mut self, extend: bool)
        requires
            has_active_parts(old(self)@) ==> active_cursor(old(self)@).head <= active_text(old(self)@).len(),
        ensures
            final(self)@ == text_motion(old(self)@, horizontal(
                active_cursor(old(self)@),
                word_left_target(active_text(old(self)@), active_cursor(old(self)@).head as int) as usize,
                extend,
            )),
            old(self).wf() ==> final(self).wf(),
    {
        proof { lemma_map_insert_same::<u64, Cursor>(); }
        let rope = match self.active_rope() {
            Some(r) => r,
            None => return,
        };
        let ghost s = rope_text(rope);
        if let Some(cursor) = self.active_cursor_mut() {
            let mut pos = cursor.head;
            let ghost head = pos as int;
            while pos > 0 && is_whitespace(rope.char(pos - 1))
                invariant
                    s == rope_text(rope),
                    pos <= s.len(),
                    skip_ws_left(s, pos as int) == skip_ws_left(s, head),
                decreases pos,
            {
                pos -= 1;
            }
            if pos > 0 {
                let word = Self::is_word_char(rope.char(pos - 1));
                let ghost q = pos as int;
                loop
                    invariant
                        s == rope_text(rope),
                        0 < q <= s.len(),
                        word == is_word_char_spec(s[q - 1]),
                        pos <= q,
                        skip_class_left(s, pos as int, word) == skip_class_left(s, q, word),
                    ensures
                        pos as int == skip_class_left(s, q, word),
                    decreases pos,
                {
                    if pos == 0 {
                        break;
                    }
                    let c = rope.char(pos - 1);
                    if is_whitespace(c) || Self::is_word_char(c) != word {
                        break;
                    }
                    pos -= 1;
                }
            }
            Self::apply_horizontal(cursor, pos, extend);
        }
    }

    /// Moves to the end of the next word: forward over whitespace, then over
    /// the run of chars of the same class.
    pub fn move_word_right(&mut self, extend: bool)
        ensures
            final(self)@ == text_motion(old(self)@, horizontal(
                active_cursor(old(self)@),
                word_right_target(active_text(old(self)@), active_cursor(old(self)@).head as int) as usize,
                extend,
            )),
            old(self).wf() ==> final(self).wf(),
    {
        proof { lemma_map_insert_same::<u64, Cursor>(); }
        let rope = match self.active_rope() {
            Some(r) => r,
            None => return,
        };
        let ghost s = rope_text(rope);
        if let Some(cursor) = self.active_cursor_mut() {
            let len = rope.len_chars();
            let mut pos = cursor.head;
            let ghost head = pos as int;
            while pos < len && is_whitespace(rope.char(pos))
                invariant
                    s == rope_text(rope),
                    len == s.len(),
                    skip_ws_right(s, pos as int) == skip_ws_right(s, head),
                decreases len - pos,
            {
                pos += 1;
            }
            if pos < len {
                let word = Self::is_word_char(rope.char(pos));
                let ghost q = pos as int;
                loop
                    invariant
                        s == rope_text(rope),
                        len == s.len(),
                        0 <= q < s.len(),
                        word == is_word_char_spec(s[q]),
                        q <= pos <= len,
                        skip_class_right(s, pos as int, word) == skip_class_right(s, q, word),
                    ensures
                        pos as int == skip_class_right(s, q, word),
                    decreases len - pos,
                {
                    if pos >= len {
                        break;
                    }
                    let c = rope.char(pos);
                    if is_whitespace(c) || Self::is_word_char(c) != word {
                        break;
                    }
                    pos += 1;
                }
            }
            Self::apply_horizontal(cursor, pos, extend);
        }
    }

    /// End of `line`'s visible content, i.e. just before its `\n`/`\r\n`
    /// terminator (or the text's end, for the last line).
    fn line_content_end(rope: &Rope, line: usize) -> (end: usize)
        requires
            line < line_count(rope_text(*rope)),
        ensures
            end == content_end(rope_text(*rope), line as int),
            line_start(rope_text(*rope), line as int) <= end <= rope_text(*rope).len(),
    {
        let ghost s = rope_text(*rope);
        proof {
            lemma_line_start_props(s, line as int);
            lemma_line_start_props(s, line + 1);
        }
        let start = rope.line_to_char(line);
        proof {
            lemma_line_start(s, line as int);
            assert(is_start_of_line(s, start as int, line as int));
        }
        let n_lines = rope.len_lines();
        let full_end = if line + 1 < n_lines {
            let e = rope.line_to_char(line + 1);
            proof {
                lemma_line_start(s, line + 1);
                assert(is_start_of_line(s, e as int, line + 1));
            }
            e
        } else {
            rope.len_chars()
        };
        let mut end = full_end;
        if end > start && rope.char(end - 1) == '\n' {
            end -= 1;
            if end > start && rope.char(end - 1) == '\r' {
                end -= 1;
            }
        }
        end
    }

    pub fn move_line_start(&mut self, extend: bool)
        ensures
            final(self)@ == text_motion(old(self)@, horizontal(
                active_cursor(old(self)@),
                line_start(active_text(old(self)@), head_line(active_text(old(self)@), active_cursor(old(self)@))) as usize,
                extend,
            )),
            old(self).wf() ==> final(self).wf(),
    {
        proof { lemma_map_insert_same::<u64, Cursor>(); }
        let rope = match self.active_rope() {
            Some(r) => r,
            None => return,
        };
        let ghost s = rope_text(rope);
        if let Some(cursor) = self.active_cursor_mut() {
            let len = rope.len_chars();
            let h = if cursor.head < len { cursor.head } else { len };
            let line = rope.char_to_line(h);
            proof {
                lemma_line_of(s, h as int);
            }
            let pos = rope.line_to_char(line);
            proof {
                lemma_line_start(s, line as int);
                assert(is_start_of_line(s, pos as int, line as int));
            }
            Self::apply_horizontal(cursor, pos, extend);
        }
    }

    pub fn move_line_end(&mut self, extend: bool)
        ensures
            final(self)@ == text_motion(old(self)@, horizontal(
                active_cursor(old(self)@),
                content_end(active_text(old(self)@), head_line(active_text(old(self)@), active_cursor(old(self)@))) as usize,
                extend,
            )),
            old(self).wf() ==> final(self).wf(),
    {
        proof { lemma_map_insert_same::<u64, Cursor>(); }
        let rope = match self.active_rope() {
            Some(r) => r,
            None => return,
        };
        let ghost s = rope_text(rope);
        if let Some(cursor) = self.active_cursor_mut() {
            let len = rope.len_chars();
            let h = if cursor.head < len { cursor.head } else { len };
            let line = rope.char_to_line(h);
            proof {
                lemma_line_of(s, h as int);
            }
            let pos = Self::line_content_end(&rope, line);
            Self::apply_horizontal(cursor, pos, extend);
        }
    }

    /// The goal column for vertical motion from `cursor`, and the line its
    /// head is on.
    fn vertical_start(rope: &Rope, cursor: &Cursor) -> (r: (usize, usize))
        ensures
            r.0 == head_line(rope_text(*rope), *cursor),
            r.1 == goal_col(rope_text(*rope), *cursor),
            r.0 < line_count(rope_text(*rope)),
    {
        let ghost s = rope_text(*rope);
        let len = rope.len_chars();
        let h = if cursor.head < len { cursor.head } else { len };
        let line = rope.char_to_line(h);
        proof {
            lemma_line_of(s, h as int);
        }
        let col = match cursor.sticky_col {
            Some(c) => c,
            None => {
                let start = rope.line_to_char(line);
                proof {
                    lemma_line_start(s, line as int);
                    assert(is_start_of_line(s, start as int, line as int));
                }
                cursor.head - start
            },
        };
        (line, col)
    }

    /// The position `col` chars into line `target`, clamped to the line's
    /// content.
    fn column_on_line(rope: &Rope, target: usize, col: usize) -> (pos: usize)
        requires
            target < line_count(rope_text(*rope)),
        ensures
            pos == min_int(line_start(rope_text(*rope), target as int) + col, content_end(rope_text(*rope), target as int)),
    {
        let ghost s = rope_text(*rope);
        let start = rope.line_to_char(target);
        proof {
            lemma_line_start(s, target as int);
            assert(is_start_of_line(s, start as int, target as int));
        }
        let end = Self::line_content_end(rope, target);
        if col >= end - start { end } else { start + col }
    }

    /// Moves to the line above, aiming for the remembered column (or the
    /// current one) and clamping to that line's content; from the first
    /// line, to the text's start. The goal column is remembered.
    pub fn move_up(&mut self, extend: bool)
        ensures
            final(self)@ == text_motion(old(self)@, vertical(
                active_cursor(old(self)@),
                up_target(active_text(old(self)@), active_cursor(old(self)@)) as usize,
                goal_col(active_text(old(self)@), active_cursor(old(self)@)) as usize,
                extend,
            )),
            old(self).wf() ==> final(self).wf(),
    {
        proof { lemma_map_insert_same::<u64, Cursor>(); }
        let rope = match self.active_rope() {
            Some(r) => r,
            None => return,
        };
        if let Some(cursor) = self.active_cursor_mut() {
            let (line, col) = Self::vertical_start(&rope, cursor);
            let pos = if line == 0 {
                0
            } else {
                Self::column_on_line(&rope, line - 1, col)
            };
            if extend {
                cursor.extend_to(pos);
            } else {
                cursor.move_to(pos);
            }
            cursor.sticky_col = Some(col);
        }
    }

    /// Moves to the line below, aiming for the remembered column (or the
    /// current one) and clamping to that line's content; from the last
    /// line, to the text's end. The goal column is remembered.
    pub fn move_down(&mut self, extend: bool)
        ensures
            final(self)@ == text_motion(old(self)@, vertical(
                active_cursor(old(self)@),
                down_target(active_text(old(self)@), active_cursor(old(self)@)) as usize,
                goal_col(active_text(old(self)@), active_cursor(old(self)@)) as usize,
                extend,
            )),
            old(self).wf() ==> final(self).wf(),
    {
        proof { lemma_map_insert_same::<u64, Cursor>(); }
        let rope = match self.active_rope() {
            Some(r) => r,
            None => return,
        };
        if let Some(cursor) = self.active_cursor_mut() {
            let (line, col) = Self::vertical_start(&rope, cursor);
            let n_lines = rope.len_lines();
            let last_line = if n_lines == 0 { 0 } else { n_lines - 1 };
            let pos = if line >= last_line {
                rope.len_chars()
            } else {
                Self::column_on_line(&rope, line + 1, col)
            };
            if extend {
                cursor.extend_to(pos);
            } else {
                cursor.move_to(pos);
            }
            cursor.sticky_col = Some(col);
        }
    }

    pub fn active_buffer_mut(&mut self) -> (r: Option<&mut Buffer>)
        ensures
            r is Some <==> (old(self)@.active matches Some(k) && old(self)@.buffers.contains_key(k)),
            r is Some ==> (*r.unwrap())@ == old(self)@.buffers[old(self)@.active->0]
                && final(self)@ == (EditorModel {
                    buffers: old(self)@.buffers.insert(old(self)@.active->0, (*final(r.unwrap()))@),
                    ..old(self)@
                }),
            r is None ==> final(self)@ == old(self)@,
    {
        match self.active {
            Some(id) => self.buffer_mut(id),
            None => None,
        }
    }

    pub fn cursor_mut(&mut self, id: BufferId) -> (r: Option<&mut Cursor>)
        ensures
            r is Some <==> old(self)@.cursors.contains_key(id.0),
            r is Some ==> *r.unwrap() == old(self)@.cursors[id.0]
                && final(self)@ == (EditorModel {
                    cursors: old(self)@.cursors.insert(id.0, *final(r.unwrap())),
                    ..old(self)@
                }),
            r is None ==> final(self)@ == old(self)@,
    {
        match self.cursors.entry(id.0) {
            Entry::Occupied(o) => Some(o.into_mut()),
            Entry::Vacant(v) => {
                proof {
                    vstd::std_specs::hash::axiom_has_resolved_vacant_entry(v);
                    assert(old(self).cursors@.remove(id.0) =~= old(self).cursors@);
                }
                None
            },
        }
    }

    pub fn active_cursor_mut(&mut self) -> (r: Option<&mut Cursor>)
        ensures
            r is Some <==> (old(self)@.active matches Some(k) && old(self)@.cursors.contains_key(k)),
            r is Some ==> *r.unwrap() == old(self)@.cursors[old(self)@.active->0]
                && final(self)@ == (EditorModel {
                    cursors: old(self)@.cursors.insert(old(self)@.active->0, *final(r.unwrap())),
                    ..old(self)@
                }),
            r is None ==> final(self)@ == old(self)@,
    {
        let id = match self.active {
            Some(id) => id,
            None => return None,
        };
        self.cursor_mut(id)
    }
}

} // verus!

//! Properties that hold across the library's operations.

use vstd::prelude::*;
use crate::buffer::{BufferModel, deleted, inserted, redone, undone};
use crate::cursor::{spec_has_selection, spec_selection_range};
use crate::editor::{EditorModel, active_cursor, active_text, backspace_model, delete_forward_model, delete_selection_model, editor_wf, has_active_parts};

verus! {

/// Undoing an insertion gives back the text from before it, and the
/// insertion's text is then kept for redo.
pub proof fn law_undo_insert(b: BufferModel, i: int, t: Seq<char>)
    ensures
        undone(inserted(b, i, t)).text == b.text,
        undone(inserted(b, i, t)).undo == b.undo,
        undone(inserted(b, i, t)).redo == seq![inserted(b, i, t).text],
{
    assert(b.undo.push(b.text).drop_last() =~= b.undo);
    assert(Seq::<Seq<char>>::empty().push(inserted(b, i, t).text) =~= seq![inserted(b, i, t).text]);
}

/// Undoing a deletion of a non-empty range gives back the text from before it.
pub proof fn law_undo_delete(b: BufferModel, start: int, end: int)
    requires
        start < end,
    ensures
        undone(deleted(b, start, end)).text == b.text,
        undone(deleted(b, start, end)).undo == b.undo,
{
    assert(b.undo.push(b.text).drop_last() =~= b.undo);
}

/// Redo after undo gives back the text from before the undo, and the undo
/// history as it was.
pub proof fn law_redo_after_undo(b: BufferModel)
    requires
        b.undo.len() > 0,
    ensures
        redone(undone(b)).text == b.text,
        redone(undone(b)).undo == b.undo,
        redone(undone(b)).redo == b.redo,
{
    assert(b.undo.drop_last().push(b.undo.last()) =~= b.undo);
    assert(b.redo.push(b.text).drop_last() =~= b.redo);
}

/// Undo after redo gives back the text from before the redo, and the redo
/// history as it was.
pub proof fn law_undo_after_redo(b: BufferModel)
    requires
        b.redo.len() > 0,
    ensures
        undone(redone(b)).text == b.text,
        undone(redone(b)).undo == b.undo,
        undone(redone(b)).redo == b.redo,
{
    assert(b.redo.drop_last().push(b.redo.last()) =~= b.redo);
    assert(b.undo.push(b.text).drop_last() =~= b.undo);
}

/// A new edit drops the redo history, so redo right after it does nothing.
pub proof fn law_edit_clears_redo(b: BufferModel, i: int, t: Seq<char>)
    ensures
        redone(inserted(b, i, t)) == inserted(b, i, t),
{
}

/// Deleting what was just inserted restores the text.
pub proof fn law_delete_inserted(b: BufferModel, i: int, t: Seq<char>)
    requires
        0 <= i <= b.text.len(),
    ensures
        deleted(inserted(b, i, t), i, i + t.len()).text == b.text,
{
    let s = inserted(b, i, t).text;
    if t.len() > 0 {
        assert(s.take(i) + s.skip(i + t.len()) =~= b.text);
    } else {
        assert(s =~= b.text);
    }
}

/// Every successful edit leaves unsaved changes, and undoing or redoing
/// something does too.
pub proof fn law_edits_mark_dirty(b: BufferModel, i: int, t: Seq<char>, start: int, end: int)
    ensures
        inserted(b, i, t).dirty,
        start != end ==> deleted(b, start, end).dirty,
        b.undo.len() > 0 ==> undone(b).dirty,
        b.redo.len() > 0 ==> redone(b).dirty,
{
}

} // verus!

verus! {

/// The active buffer's cursor stays within its text.
pub open spec fn active_cursor_in_text(m: EditorModel) -> bool {
    &&& has_active_parts(m)
    &&& active_cursor(m).head <= active_text(m).len()
    &&& (active_cursor(m).anchor matches Some(a) ==> a <= active_text(m).len())
}

/// Deleting the selection removes exactly the selected chars and leaves the
/// cursor at their start when at least one char is selected; otherwise,
/// including an empty selection, it deletes nothing, changes nothing and
/// says so.
pub proof fn law_delete_selection(m: EditorModel)
    requires
        editor_wf(m),
        active_cursor_in_text(m),
    ensures
        ({
            let k = m.active->0;
            let t = active_text(m);
            let c = active_cursor(m);
            let (m2, r) = delete_selection_model(m);
            if spec_has_selection(c) {
                let (s, e) = spec_selection_range(c)->0;
                &&& s < e
                &&& r == Ok::<bool, (usize, usize)>(true)
                &&& m2.buffers[k].text == t.take(s as int) + t.skip(e as int)
                &&& m2.cursors[k].head == s
                &&& m2.cursors[k].anchor is None
                &&& m2.active == m.active
            } else {
                r == Ok::<bool, (usize, usize)>(false) && m2 == m
            }
        }),
{
}

/// Backspace removes the selection when one is active (at least one char);
/// otherwise it removes the char before the cursor and moves back over it,
/// and does nothing at the start of the text.
pub proof fn law_backspace_at_cursor(m: EditorModel)
    requires
        editor_wf(m),
        active_cursor_in_text(m),
    ensures
        ({
            let k = m.active->0;
            let t = active_text(m);
            let c = active_cursor(m);
            let (m2, r) = backspace_model(m);
            &&& r == Ok::<(), (usize, usize)>(())
            &&& m2.active == m.active
            &&& if spec_has_selection(c) {
                let (s, e) = spec_selection_range(c)->0;
                &&& m2.buffers[k].text == t.take(s as int) + t.skip(e as int)
                &&& m2.cursors[k].head == s
                &&& m2.cursors[k].anchor is None
            } else if c.head == 0 {
                m2 == m
            } else {
                &&& m2.buffers[k].text == t.take(c.head - 1) + t.skip(c.head as int)
                &&& m2.cursors[k].head == c.head - 1
                &&& m2.cursors[k].anchor is None
            }
        }),
{
}

/// Delete removes the selection when one is active (at least one char);
/// otherwise it removes the char after the cursor, which stays put, and
/// does nothing at the end of the text.
pub proof fn law_delete_forward_at_cursor(m: EditorModel)
    requires
        editor_wf(m),
        active_cursor_in_text(m),
    ensures
        ({
            let k = m.active->0;
            let t = active_text(m);
            let c = active_cursor(m);
            let (m2, r) = delete_forward_model(m);
            &&& r == Ok::<(), (usize, usize)>(())
            &&& m2.active == m.active
            &&& if spec_has_selection(c) {
                let (s, e) = spec_selection_range(c)->0;
                &&& m2.buffers[k].text == t.take(s as int) + t.skip(e as int)
                &&& m2.cursors[k].head == s
                &&& m2.cursors[k].anchor is None
            } else if c.head == t.len() {
                m2 == m
            } else {
                &&& m2.buffers[k].text == t.take(c.head as int) + t.skip(c.head + 1)
                &&& m2.cursors[k] == c
            }
        }),
{
}

} // verus!

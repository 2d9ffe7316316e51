use ropey::Rope;
use vstd::prelude::*;
use crate::rope::{rope_line_to_string, rope_remove, rope_text, rope_to_string};
use crate::text::{line_count, line_text};

verus! {

#[verifier::external_type_specification]
#[verifier::external_body]
pub struct ExIoError(std::io::Error);

/// `std::io::Error::new` with kind `NotFound` and the given message.
/// Nothing is claimed of the error value.
#[verifier::external_body]
fn io_not_found(msg: &str) -> std::io::Error {
    std::io::Error::new(std::io::ErrorKind::NotFound, msg.to_string())
}

/// Identifies an open buffer within an `Editor`.
#[derive(Debug, Clone, Copy, PartialEq, Eq, Hash, PartialOrd, Ord, Structural)]
pub struct BufferId(pub u64);

#[derive(Debug)]
pub enum BufferError {
    /// Reading or writing the buffer's file failed.
    Io(std::io::Error),
    /// A char index (first) was past the end of a buffer of the given
    /// length (second).
    OutOfBounds(usize, usize),
}

/// A single open document. Wraps a rope for O(log n) edits on large files
/// and keeps a linear undo/redo history of whole-text snapshots.
pub struct Buffer {
    pub id: BufferId,
    pub path: Option<String>,
    rope: Rope,
    dirty: bool,
    undo_stack: Vec<Rope>,
    redo_stack: Vec<Rope>,
}

/// A buffer as plain values.
pub struct BufferModel {
    pub id: u64,
    pub path: Option<Seq<char>>,
    pub text: Seq<char>,
    pub dirty: bool,
    /// Snapshots to go back to, oldest first.
    pub undo: Seq<Seq<char>>,
    /// Snapshots to go forward to, most recently undone last.
    pub redo: Seq<Seq<char>>,
}

pub open spec fn ropes_text(v: Seq<Rope>) -> Seq<Seq<char>> {
    v.map_values(|r: Rope| rope_text(r))
}

pub open spec fn path_model(p: Option<String>) -> Option<Seq<char>> {
    match p {
        Some(s) => Some(s@),
        None => None,
    }
}

impl View for Buffer {
    type V = BufferModel;

    closed spec fn view(&self) -> BufferModel {
        BufferModel {
            id: self.id.0,
            path: path_model(self.path),
            text: rope_text(self.rope),
            dirty: self.dirty,
            undo: ropes_text(self.undo_stack@),
            redo: ropes_text(self.redo_stack@),
        }
    }
}

/// A fresh buffer holding `text`, with no history and no unsaved changes.
pub open spec fn fresh_model(id: u64, path: Option<Seq<char>>, text: Seq<char>) -> BufferModel {
    BufferModel { id, path, text, dirty: false, undo: seq![], redo: seq![] }
}

/// The buffer after a recorded edit that replaces its text with `t`: the
/// old text becomes the newest undo point and the redo history is dropped.
pub open spec fn edited(b: BufferModel, t: Seq<char>) -> BufferModel {
    BufferModel { text: t, dirty: true, undo: b.undo.push(b.text), redo: seq![], ..b }
}

/// The buffer after inserting `t` at char index `i`.
pub open spec fn inserted(b: BufferModel, i: int, t: Seq<char>) -> BufferModel {
    edited(b, b.text.take(i) + t + b.text.skip(i))
}

/// The buffer after deleting the chars `start..end`; nothing changes, and no
/// undo point is recorded, when the range is empty.
pub open spec fn deleted(b: BufferModel, start: int, end: int) -> BufferModel {
    if start == end {
        b
    } else {
        edited(b, b.text.take(start) + b.text.skip(end))
    }
}

/// The buffer after an undo: the newest undo point becomes the text and the
/// current text is kept for redo. Nothing changes with no undo point.
pub open spec fn undone(b: BufferModel) -> BufferModel {
    if b.undo.len() == 0 {
        b
    } else {
        BufferModel {
            text: b.undo.last(),
            dirty: true,
            undo: b.undo.drop_last(),
            redo: b.redo.push(b.text),
            ..b
        }
    }
}

/// The buffer after a redo, the mirror image of `undone`.
pub open spec fn redone(b: BufferModel) -> BufferModel {
    if b.redo.len() == 0 {
        b
    } else {
        BufferModel {
            text: b.redo.last(),
            dirty: true,
            undo: b.undo.push(b.text),
            redo: b.redo.drop_last(),
            ..b
        }
    }
}

proof fn lemma_ropes_text_push(v: Seq<Rope>, r: Rope)
    ensures
        ropes_text(v.push(r)) == ropes_text(v).push(rope_text(r)),
{
    assert(ropes_text(v.push(r)) =~= ropes_text(v).push(rope_text(r)));
}

proof fn lemma_ropes_text_drop_last(v: Seq<Rope>)
    requires
        v.len() > 0,
    ensures
        ropes_text(v.drop_last()) == ropes_text(v).drop_last(),
        ropes_text(v).last() == rope_text(v.last()),
        ropes_text(v).len() == v.len(),
{
    assert(ropes_text(v.drop_last()) =~= ropes_text(v).drop_last());
}

impl Buffer {
    pub fn empty(id: BufferId) -> (b: Self)
        ensures
            b@ == fresh_model(id.0, None, seq![]),
    {
        let b = Buffer {
            id,
            path: None,
            rope: Rope::new(),
            dirty: false,
            undo_stack: Vec::new(),
            redo_stack: Vec::new(),
        };
        proof {
            assert(b@.undo =~= seq![]);
            assert(b@.redo =~= seq![]);
        }
        b
    }

    pub fn from_str(id: BufferId, text: &str) -> (b: Self)
        ensures
            b@ == fresh_model(id.0, None, text@),
    {
        let b = Buffer {
            id,
            path: None,
            rope: Rope::from_str(text),
            dirty: false,
            undo_stack: Vec::new(),
            redo_stack: Vec::new(),
        };
        proof {
            assert(b@.undo =~= seq![]);
            assert(b@.redo =~= seq![]);
        }
        b
    }

    /// A buffer for the file at `path`, given the outcome of reading it:
    /// the file's text, or the read error.
    pub fn open(id: BufferId, path: String, contents: Result<String, std::io::Error>) -> (r: Result<Self, BufferError>)
        ensures
            match contents {
                Ok(text) => r matches Ok(b) && b@ == fresh_model(id.0, Some(path@), text@),
                Err(e) => r matches Err(BufferError::Io(e2)) && e2 == e,
            },
    {
        match contents {
            Ok(text) => {
                let b = Buffer {
                    id,
                    path: Some(path),
                    rope: Rope::from_str(text.as_str()),
                    dirty: false,
                    undo_stack: Vec::new(),
                    redo_stack: Vec::new(),
                };
                proof {
                    assert(b@.undo =~= seq![]);
                    assert(b@.redo =~= seq![]);
                }
                Ok(b)
            },
            Err(e) => Err(BufferError::Io(e)),
        }
    }

    /// Records the outcome of writing the text to the buffer's own path:
    /// with no path it fails with a `NotFound` I/O error and changes
    /// nothing; otherwise it behaves as `save_as` with that path.
    pub fn save(&mut self, written: Result<(), std::io::Error>) -> (r: Result<(), BufferError>)
        ensures
            match old(self)@.path {
                None => r matches Err(BufferError::Io(_)) && final(self)@ == old(self)@,
                Some(p) => match written {
                    Ok(()) => r is Ok && final(self)@ == (BufferModel { dirty: false, ..old(self)@ }),
                    Err(e) => r matches Err(BufferError::Io(e2)) && e2 == e && final(self)@ == old(self)@,
                },
            },
    {
        match &self.path {
            None => Err(BufferError::Io(io_not_found("buffer has no path"))),
            Some(p) => {
                let path = p.clone();
                self.save_as(path, written)
            },
        }
    }

    /// Records the outcome of writing the text to `path`: on success the
    /// buffer now belongs to `path` and has no unsaved changes; a write
    /// error is returned and changes nothing.
    pub fn save_as(&mut self, path: String, written: Result<(), std::io::Error>) -> (r: Result<(), BufferError>)
        ensures
            match written {
                Ok(()) => r is Ok && final(self)@ == (BufferModel { path: Some(path@), dirty: false, ..old(self)@ }),
                Err(e) => r matches Err(BufferError::Io(e2)) && e2 == e && final(self)@ == old(self)@,
            },
    {
        match written {
            Ok(()) => {
                self.path = Some(path);
                self.dirty = false;
                Ok(())
            },
            Err(e) => Err(BufferError::Io(e)),
        }
    }

    pub fn text(&self) -> (s: String)
        ensures
            s@ == self@.text,
    {
        rope_to_string(&self.rope)
    }

    pub fn rope(&self) -> (r: &Rope)
        ensures
            rope_text(*r) == self@.text,
    {
        &self.rope
    }

    pub fn len_chars(&self) -> (n: usize)
        ensures
            n == self@.text.len(),
    {
        self.rope.len_chars()
    }

    pub fn len_lines(&self) -> (n: usize)
        ensures
            n == line_count(self@.text),
    {
        self.rope.len_lines()
    }

    /// The text of line `idx`, including its line break, if there is such a line.
    pub fn line(&self, idx: usize) -> (r: Option<String>)
        ensures
            idx < line_count(self@.text) ==> (r matches Some(s) && s@ == line_text(self@.text, idx as int)),
            idx >= line_count(self@.text) ==> r is None,
    {
        if idx < self.rope.len_lines() {
            Some(rope_line_to_string(&self.rope, idx))
        } else {
            None
        }
    }

    pub fn is_dirty(&self) -> (d: bool)
        ensures
            d == self@.dirty,
    {
        self.dirty
    }

    /// Insert `text` at the given char offset, recording an undo point.
    /// Fails, changing nothing, if the offset is past the end.
    pub fn insert(&mut self, char_idx: usize, text: &str) -> (r: Result<(), BufferError>)
        ensures
            char_idx > old(self)@.text.len() ==> (r matches Err(BufferError::OutOfBounds(i, n))
                && i == char_idx && n == old(self)@.text.len() && final(self)@ == old(self)@),
            char_idx <= old(self)@.text.len() ==> r is Ok && final(self)@ == inserted(
                old(self)@,
                char_idx as int,
                text@,
            ),
    {
        let len = self.rope.len_chars();
        if char_idx > len {
            return Err(BufferError::OutOfBounds(char_idx, len));
        }
        self.push_undo();
        self.rope.insert(char_idx, text);
        self.dirty = true;
        Ok(())
    }

    /// Delete the char range `start..end`, recording an undo point. Fails,
    /// changing nothing, if `end` is past the end or `start > end`; an empty
    /// range succeeds without recording anything.
    pub fn delete(&mut self, start: usize, end: usize) -> (r: Result<(), BufferError>)
        ensures
            (end > old(self)@.text.len() || start > end) ==> (r matches Err(BufferError::OutOfBounds(i, n))
                && i == end && n == old(self)@.text.len() && final(self)@ == old(self)@),
            (end <= old(self)@.text.len() && start <= end) ==> r is Ok && final(self)@ == deleted(
                old(self)@,
                start as int,
                end as int,
            ),
    {
        let len = self.rope.len_chars();
        if end > len || start > end {
            return Err(BufferError::OutOfBounds(end, len));
        }
        if start == end {
            return Ok(());
        }
        self.push_undo();
        rope_remove(&mut self.rope, start, end);
        self.dirty = true;
        Ok(())
    }

    fn push_undo(&mut self)
        ensures
            final(self)@ == (BufferModel { undo: old(self)@.undo.push(old(self)@.text), redo: seq![], ..old(self)@ }),
            final(self).rope == old(self).rope,
    {
        let snapshot = self.rope.clone();
        self.undo_stack.push(snapshot);
        self.redo_stack.clear();
        proof {
            lemma_ropes_text_push(old(self).undo_stack@, snapshot);
            assert(ropes_text(self.redo_stack@) =~= seq![]);
        }
    }

    /// Go back to the newest undo point, keeping the current text for redo.
    /// Returns whether there was an undo point.
    pub fn undo(&mut self) -> (b: bool)
        ensures
            b == (old(self)@.undo.len() > 0),
            final(self)@ == undone(old(self)@),
    {
        match self.undo_stack.pop() {
            Some(prev) => {
                proof {
                    lemma_ropes_text_drop_last(old(self).undo_stack@);
                }
                let mut current = prev;
                std::mem::swap(&mut self.rope, &mut current);
                self.redo_stack.push(current);
                proof {
                    lemma_ropes_text_push(old(self).redo_stack@, current);
                }
                self.dirty = true;
                true
            },
            None => false,
        }
    }

    /// Go forward to the most recently undone text, keeping the current text
    /// as an undo point. Returns whether there was anything to redo.
    pub fn redo(&mut self) -> (b: bool)
        ensures
            b == (old(self)@.redo.len() > 0),
            final(self)@ == redone(old(self)@),
    {
        match self.redo_stack.pop() {
            Some(next) => {
                proof {
                    lemma_ropes_text_drop_last(old(self).redo_stack@);
                }
                let mut current = next;
                std::mem::swap(&mut self.rope, &mut current);
                self.undo_stack.push(current);
                proof {
                    lemma_ropes_text_push(old(self).undo_stack@, current);
                }
                self.dirty = true;
                true
            },
            None => false,
        }
    }
}

} // verus!

use vstd::prelude::*;

verus! {

/// A cursor position expressed as a char offset into a buffer's text, plus
/// an optional selection anchor and the column that vertical motion tries
/// to return to. Line/column are derived on demand from the text rather
/// than stored, so they can never drift out of sync with edits.
#[derive(Debug, Clone, Copy, PartialEq, Eq)]
pub struct Cursor {
    pub head: usize,
    pub anchor: Option<usize>,
    pub sticky_col: Option<usize>,
}

/// The selected range of a cursor, ordered low to high, if it has an anchor.
pub open spec fn spec_selection_range(c: Cursor) -> Option<(usize, usize)> {
    match c.anchor {
        Some(a) => if a < c.head { Some((a, c.head)) } else { Some((c.head, a)) },
        None => None,
    }
}

/// Whether the cursor selects at least one char.
pub open spec fn spec_has_selection(c: Cursor) -> bool {
    c.anchor matches Some(a) && a != c.head
}

/// The cursor after extending the selection to `pos`: the anchor is set to
/// the old head if there was none, and the head moves.
pub open spec fn spec_extend_to(c: Cursor, pos: usize) -> Cursor {
    Cursor {
        head: pos,
        anchor: if c.anchor is None { Some(c.head) } else { c.anchor },
        sticky_col: c.sticky_col,
    }
}

/// The cursor after moving to `pos`, dropping any selection.
pub open spec fn spec_move_to(c: Cursor, pos: usize) -> Cursor {
    Cursor { head: pos, anchor: None, sticky_col: c.sticky_col }
}

impl Cursor {
    /// A cursor at `pos` with no selection and no remembered column.
    pub fn at(pos: usize) -> (c: Self)
        ensures
            c == (Cursor { head: pos, anchor: None, sticky_col: None }),
    {
        Cursor { head: pos, anchor: None, sticky_col: None }
    }

    pub fn has_selection(&self) -> (b: bool)
        ensures
            b == spec_has_selection(*self),
    {
        match self.anchor {
            Some(a) => a != self.head,
            None => false,
        }
    }

    pub fn selection_range(&self) -> (r: Option<(usize, usize)>)
        ensures
            r == spec_selection_range(*self),
    {
        match self.anchor {
            Some(a) => if a < self.head { Some((a, self.head)) } else { Some((self.head, a)) },
            None => None,
        }
    }

    pub fn collapse(&mut self)
        ensures
            *final(self) == (Cursor { anchor: None, ..*old(self) }),
    {
        self.anchor = None;
    }

    pub fn extend_to(&mut self, pos: usize)
        ensures
            *final(self) == spec_extend_to(*old(self), pos),
    {
        if self.anchor.is_none() {
            self.anchor = Some(self.head);
        }
        self.head = pos;
    }

    pub fn move_to(&mut self, pos: usize)
        ensures
            *final(self) == spec_move_to(*old(self), pos),
    {
        self.head = pos;
        self.anchor = None;
    }
}

} // verus!

//! The cursor: a byte offset into the source buffer with a bounded
//! checkpoint/commit discipline. The cursor never moves backward except by an
//! explicit reset to a previously marked checkpoint, and a discarded
//! checkpoint cannot be reused, which bounds the cost of backtracking.

use vstd::prelude::*;

verus! {

/// A position in the source buffer plus at most one live checkpoint.
pub struct Cursor {
    pos: usize,
    checkpoint: Option<usize>,
}

impl Cursor {
    /// The byte offset the cursor stands at.
    pub closed spec fn spec_pos(&self) -> int {
        self.pos as int
    }

    /// The live checkpoint, if one is marked.
    pub closed spec fn spec_checkpoint(&self) -> Option<int> {
        match self.checkpoint {
            Some(c) => Some(c as int),
            None => None,
        }
    }

    /// A checkpoint never lies ahead of the cursor.
    pub open spec fn wf(&self) -> bool {
        match self.spec_checkpoint() {
            Some(c) => 0 <= c <= self.spec_pos(),
            None => true,
        }
    }

    /// A fresh cursor at byte offset `pos`, with no checkpoint.
    pub fn new(pos: usize) -> (r: Cursor)
        ensures
            r.spec_pos() == pos,
            r.spec_checkpoint() is None,
            r.wf(),
    {
        Cursor { pos, checkpoint: None }
    }

    /// The current byte offset.
    pub fn position(&self) -> (r: usize)
        ensures
            r == self.spec_pos(),
    {
        self.pos
    }

    /// Move forward by `n` bytes.
    pub fn advance(&mut self, n: usize)
        requires
            old(self).wf(),
            old(self).spec_pos() + n <= usize::MAX,
        ensures
            final(self).spec_pos() == old(self).spec_pos() + n,
            final(self).spec_checkpoint() == old(self).spec_checkpoint(),
            final(self).wf(),
    {
        self.pos = self.pos + n;
    }

    /// Mark the current position; a previously marked checkpoint is replaced.
    pub fn mark(&mut self)
        requires
            old(self).wf(),
        ensures
            final(self).spec_pos() == old(self).spec_pos(),
            final(self).spec_checkpoint() == Some(old(self).spec_pos()),
            final(self).wf(),
    {
        self.checkpoint = Some(self.pos);
    }

    /// Move back to the marked checkpoint and discard it: the one way the
    /// cursor ever moves backward, and each checkpoint serves at most once.
    pub fn reset(&mut self) -> (r: bool)
        requires
            old(self).wf(),
        ensures
            old(self).spec_checkpoint() matches Some(c) ==> r && final(self).spec_pos() == c,
            old(self).spec_checkpoint() is None ==> !r && final(self).spec_pos() == old(
                self,
            ).spec_pos(),
            final(self).spec_checkpoint() is None,
            final(self).wf(),
    {
        match self.checkpoint {
            Some(c) => {
                self.pos = c;
                self.checkpoint = None;
                true
            },
            None => false,
        }
    }

    /// Discard the checkpoint without moving: commits the scan since the mark.
    pub fn commit(&mut self)
        requires
            old(self).wf(),
        ensures
            final(self).spec_pos() == old(self).spec_pos(),
            final(self).spec_checkpoint() is None,
            final(self).wf(),
    {
        self.checkpoint = None;
    }
}

} // verus!

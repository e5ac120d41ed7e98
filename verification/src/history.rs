//! The editor's undo history: the commands that can be undone, newest last,
//! and those undone that can be redone.

use vstd::prelude::*;

verus! {

/// The undo and redo stacks, `E` being however a command is held.
pub struct UndoHistory<E> {
    pub undo_stack: Vec<E>,
    pub redo_stack: Vec<E>,
}

/// The stacks after recording `e`, a command just carried out: it goes on
/// top of the undo stack, and what was undone can no longer be redone.
pub open spec fn record_spec<E>(undo: Seq<E>, redo: Seq<E>, e: E) -> (Seq<E>, Seq<E>) {
    (undo.push(e), Seq::empty())
}

impl<E> UndoHistory<E> {
    /// Nothing to undo or redo.
    pub fn new() -> (r: Self)
        ensures
            r.undo_stack@ == Seq::<E>::empty(),
            r.redo_stack@ == Seq::<E>::empty(),
    {
        UndoHistory { undo_stack: Vec::new(), redo_stack: Vec::new() }
    }

    /// Record a command just carried out; see `record_spec`.
    pub fn record(&mut self, e: E)
        ensures
            (final(self).undo_stack@, final(self).redo_stack@) == record_spec(
                old(self).undo_stack@,
                old(self).redo_stack@,
                e,
            ),
    {
        self.undo_stack.push(e);
        self.redo_stack.clear();
    }
}

} // verus!

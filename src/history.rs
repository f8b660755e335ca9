//! The undo/redo journal: two stacks of reversible commands with a bounded
//! undo depth. Applying a command to a scene is the caller's part; the
//! journal decides what is recorded, undone and redone.
use vstd::prelude::*;

verus! {

/// Default maximum number of undo steps retained.
pub const DEFAULT_MAX_HISTORY: usize = 200;

/// The stacks `(undo, redo)` after an undo: the last undoable command moves
/// to the redo stack.
pub open spec fn after_undo<C>(undo: Seq<C>, redo: Seq<C>) -> (Seq<C>, Seq<C>) {
    if undo.len() == 0 {
        (undo, redo)
    } else {
        (undo.drop_last(), redo.push(undo.last()))
    }
}

/// The stacks `(undo, redo)` after a redo: the last redoable command moves
/// back to the undo stack.
pub open spec fn after_redo<C>(undo: Seq<C>, redo: Seq<C>) -> (Seq<C>, Seq<C>) {
    if redo.len() == 0 {
        (undo, redo)
    } else {
        (undo.push(redo.last()), redo.drop_last())
    }
}

/// An undo followed by a redo leaves both stacks as they were, whenever
/// there was something to undo.
pub proof fn lemma_undo_redo_identity<C>(undo: Seq<C>, redo: Seq<C>)
    requires
        undo.len() > 0,
    ensures
        after_redo(after_undo(undo, redo).0, after_undo(undo, redo).1) == (undo, redo),
{
    let (u, r) = after_undo(undo, redo);
    assert(u.push(r.last()) =~= undo);
    assert(r.drop_last() =~= redo);
}

pub struct CommandHistory<C> {
    undo_stack: Vec<C>,
    redo_stack: Vec<C>,
    max_history: usize,
}

impl<C> CommandHistory<C> {
    /// Commands that can be undone, oldest first.
    pub closed spec fn undo_view(&self) -> Seq<C> {
        self.undo_stack@
    }

    /// Commands that can be redone, the next one last.
    pub closed spec fn redo_view(&self) -> Seq<C> {
        self.redo_stack@
    }

    pub closed spec fn cap(&self) -> nat {
        self.max_history as nat
    }

    /// The two stacks together never hold more than the cap: every redoable
    /// command was undoable before.
    pub open spec fn wf(&self) -> bool {
        self.undo_view().len() + self.redo_view().len() <= self.cap()
    }

    pub fn new(max_history: usize) -> (h: Self)
        ensures
            h.wf(),
            h.undo_view() == Seq::<C>::empty(),
            h.redo_view() == Seq::<C>::empty(),
            h.cap() == max_history,
    {
        CommandHistory { undo_stack: Vec::new(), redo_stack: Vec::new(), max_history }
    }

    /// Records a command that was just applied: it becomes the next to undo,
    /// the redo stack is discarded, and the oldest command is dropped when
    /// the cap is exceeded.
    pub fn record(&mut self, cmd: C)
        requires
            old(self).wf(),
        ensures
            final(self).wf(),
            final(self).cap() == old(self).cap(),
            final(self).redo_view() == Seq::<C>::empty(),
            old(self).undo_view().len() < old(self).cap() ==> final(self).undo_view()
                == old(self).undo_view().push(cmd),
            old(self).undo_view().len() >= old(self).cap() ==> final(self).undo_view()
                == old(self).undo_view().push(cmd).drop_first(),
    {
        self.undo_stack.push(cmd);
        self.redo_stack.clear();
        if self.undo_stack.len() > self.max_history {
            self.undo_stack.remove(0);
        }
    }

    /// The command the next undo reverses.
    pub fn next_undo(&self) -> (c: Option<&C>)
        ensures
            self.undo_view().len() == 0 ==> c is None,
            self.undo_view().len() > 0 ==> (c matches Some(x) && *x == self.undo_view().last()),
    {
        if self.undo_stack.len() == 0 {
            None
        } else {
            Some(&self.undo_stack[self.undo_stack.len() - 1])
        }
    }

    /// The command the next redo applies again.
    pub fn next_redo(&self) -> (c: Option<&C>)
        ensures
            self.redo_view().len() == 0 ==> c is None,
            self.redo_view().len() > 0 ==> (c matches Some(x) && *x == self.redo_view().last()),
    {
        if self.redo_stack.len() == 0 {
            None
        } else {
            Some(&self.redo_stack[self.redo_stack.len() - 1])
        }
    }

    /// Moves the last undoable command to the redo stack, once its reverse
    /// has been applied. Returns false when there was nothing to undo.
    pub fn commit_undo(&mut self) -> (moved: bool)
        requires
            old(self).wf(),
        ensures
            final(self).wf(),
            final(self).cap() == old(self).cap(),
            moved == (old(self).undo_view().len() > 0),
            (final(self).undo_view(), final(self).redo_view()) == after_undo(
                old(self).undo_view(),
                old(self).redo_view(),
            ),
    {
        match self.undo_stack.pop() {
            Some(cmd) => {
                self.redo_stack.push(cmd);
                true
            },
            None => false,
        }
    }

    /// Moves the last redoable command back to the undo stack, once it has
    /// been applied again. Returns false when there was nothing to redo.
    pub fn commit_redo(&mut self) -> (moved: bool)
        requires
            old(self).wf(),
        ensures
            final(self).wf(),
            final(self).cap() == old(self).cap(),
            moved == (old(self).redo_view().len() > 0),
            (final(self).undo_view(), final(self).redo_view()) == after_redo(
                old(self).undo_view(),
                old(self).redo_view(),
            ),
    {
        match self.redo_stack.pop() {
            Some(cmd) => {
                self.undo_stack.push(cmd);
                true
            },
            None => false,
        }
    }

    pub fn undo_count(&self) -> (n: usize)
        ensures
            n == self.undo_view().len(),
    {
        self.undo_stack.len()
    }

    pub fn redo_count(&self) -> (n: usize)
        ensures
            n == self.redo_view().len(),
    {
        self.redo_stack.len()
    }

    /// Forgets every recorded command.
    pub fn clear(&mut self)
        ensures
            final(self).wf(),
            final(self).cap() == old(self).cap(),
            final(self).undo_view() == Seq::<C>::empty(),
            final(self).redo_view() == Seq::<C>::empty(),
    {
        self.undo_stack.clear();
        self.redo_stack.clear();
    }
}

} // verus!

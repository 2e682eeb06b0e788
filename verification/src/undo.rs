use vstd::prelude::*;

verus! {

/// The abstract state of an undo history: the snapshots that can be restored by
/// undo (oldest first), those that can be restored by redo (the next one last),
/// and the bound on the undo stack.
pub struct UndoState<T> {
    pub undo: Seq<T>,
    pub redo: Seq<T>,
    pub max: nat,
}

/// Recording a snapshot: the redo stack is cleared, the snapshot goes on top of the
/// undo stack, and the oldest snapshot is dropped when the stack grows past `max`.
pub open spec fn spec_push<T>(s: UndoState<T>, snap: T) -> UndoState<T> {
    let pushed = s.undo.push(snap);
    UndoState {
        undo: if pushed.len() > s.max { pushed.drop_first() } else { pushed },
        redo: Seq::empty(),
        max: s.max,
    }
}

/// Undo from the state `current`: the newest undo snapshot comes back and `current`
/// goes on the redo stack; with nothing to undo, nothing changes.
pub open spec fn spec_undo<T>(s: UndoState<T>, current: T) -> (UndoState<T>, Option<T>) {
    if s.undo.len() == 0 {
        (s, None)
    } else {
        (
            UndoState { undo: s.undo.drop_last(), redo: s.redo.push(current), max: s.max },
            Some(s.undo.last()),
        )
    }
}

/// Redo from the state `current`: the newest redo snapshot comes back and `current`
/// goes on the undo stack; with nothing to redo, nothing changes.
pub open spec fn spec_redo<T>(s: UndoState<T>, current: T) -> (UndoState<T>, Option<T>) {
    if s.redo.len() == 0 {
        (s, None)
    } else {
        (
            UndoState { undo: s.undo.push(current), redo: s.redo.drop_last(), max: s.max },
            Some(s.redo.last()),
        )
    }
}

/// A bounded undo/redo history of snapshots.
pub struct UndoHistory<T> {
    undo_stack: Vec<T>,
    redo_stack: Vec<T>,
    max: usize,
}

impl<T> View for UndoHistory<T> {
    type V = UndoState<T>;

    closed spec fn view(&self) -> UndoState<T> {
        UndoState { undo: self.undo_stack@, redo: self.redo_stack@, max: self.max as nat }
    }
}

impl<T> UndoHistory<T> {
    /// An empty history that keeps at most `max` undo snapshots.
    pub fn new(max: usize) -> (h: Self)
        ensures
            h@ == (UndoState::<T> { undo: Seq::empty(), redo: Seq::empty(), max: max as nat }),
    {
        UndoHistory { undo_stack: Vec::new(), redo_stack: Vec::new(), max }
    }

    /// Records `snap` as the newest undo snapshot and forgets every redo snapshot.
    pub fn push(&mut self, snap: T)
        ensures
            final(self)@ == spec_push(old(self)@, snap),
    {
        self.redo_stack.clear();
        self.undo_stack.push(snap);
        if self.undo_stack.len() > self.max {
            let _oldest = self.undo_stack.remove(0);
            proof {
                assert(self.undo_stack@ == old(self).undo_stack@.push(snap).drop_first());
            }
        }
    }

    /// Steps back: returns the newest undo snapshot and keeps `current` for redo.
    pub fn undo(&mut self, current: T) -> (r: Option<T>)
        ensures
            (final(self)@, r) == spec_undo(old(self)@, current),
    {
        match self.undo_stack.pop() {
            Some(prev) => {
                self.redo_stack.push(current);
                Some(prev)
            },
            None => None,
        }
    }

    /// Steps forward: returns the newest redo snapshot and keeps `current` for undo.
    pub fn redo(&mut self, current: T) -> (r: Option<T>)
        ensures
            (final(self)@, r) == spec_redo(old(self)@, current),
    {
        match self.redo_stack.pop() {
            Some(next) => {
                self.undo_stack.push(current);
                Some(next)
            },
            None => None,
        }
    }

    pub fn can_undo(&self) -> (r: bool)
        ensures
            r == (self@.undo.len() > 0),
    {
        self.undo_stack.len() > 0
    }

    pub fn can_redo(&self) -> (r: bool)
        ensures
            r == (self@.redo.len() > 0),
    {
        self.redo_stack.len() > 0
    }

    /// Forgets every snapshot.
    pub fn clear(&mut self)
        ensures
            final(self)@ == (UndoState::<T> { undo: Seq::empty(), redo: Seq::empty(), max: old(self)@.max }),
    {
        self.undo_stack.clear();
        self.redo_stack.clear();
    }
}

/// Undoing and then redoing with the snapshot that came back restores the history,
/// and redo hands back the state that was current before the undo.
pub proof fn law_undo_then_redo<T>(s: UndoState<T>, current: T)
    requires
        s.undo.len() > 0,
    ensures
        ({
            let (s1, prev) = spec_undo(s, current);
            let (s2, back) = spec_redo(s1, prev.unwrap());
            s2 == s && back == Some(current)
        }),
{
    let (s1, prev) = spec_undo(s, current);
    assert(s1.undo.push(prev.unwrap()) =~= s.undo);
    assert(s1.redo.drop_last() =~= s.redo);
}

/// Redoing and then undoing with the snapshot that came back restores the history,
/// and undo hands back the state that was current before the redo.
pub proof fn law_redo_then_undo<T>(s: UndoState<T>, current: T)
    requires
        s.redo.len() > 0,
    ensures
        ({
            let (s1, next) = spec_redo(s, current);
            let (s2, back) = spec_undo(s1, next.unwrap());
            s2 == s && back == Some(current)
        }),
{
    let (s1, next) = spec_redo(s, current);
    assert(s1.redo.push(next.unwrap()) =~= s.redo);
    assert(s1.undo.drop_last() =~= s.undo);
}

/// Recording a snapshot leaves nothing to redo, keeps the undo stack within its
/// bound, and makes the recorded snapshot the next one undo returns (when the
/// bound admits any snapshot at all).
pub proof fn law_push_bounds<T>(s: UndoState<T>, snap: T)
    requires
        s.undo.len() <= s.max,
    ensures
        spec_push(s, snap).redo.len() == 0,
        spec_push(s, snap).undo.len() <= s.max,
        s.max > 0 ==> spec_undo(spec_push(s, snap), snap).1 == Some(snap),
{
}

} // verus!

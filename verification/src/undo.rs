//! Bounded undo / redo history.
//!
//! The history keeps two queues: actions that can be undone (oldest first)
//! and actions that can be redone (the next one to redo first).  Their total
//! length never exceeds the configured maximum.

use std::collections::VecDeque;

use vstd::prelude::*;

verus! {

/// What happened to the undo history; other parts of the editor react to these.
#[derive(Clone, Copy, Debug, PartialEq, Eq, Structural)]
pub enum UndoEvent {
    ActionPushed { old_action_dropped: bool },
    ActionReapplied,
    ActionReverted,
    StackCleared,
    StackSizeChanged { old_size: usize, new_size: usize },
}

/// The mathematical content of an [`UndoStack`].
#[verifier::ext_equal]
pub struct UndoHistory<A> {
    pub max_actions: nat,
    /// Undoable actions, oldest first; the last one is undone next.
    pub undo: Seq<A>,
    /// Redoable actions; the first one is redone next.
    pub redo: Seq<A>,
}

impl<A> UndoHistory<A> {
    /// The history holds at most `max_actions` actions in total, and at least one is allowed.
    pub open spec fn wf(self) -> bool {
        &&& self.max_actions >= 1
        &&& self.undo.len() + self.redo.len() <= self.max_actions
    }

    pub open spec fn total(self) -> nat {
        self.undo.len() + self.redo.len()
    }

    /// The history after a new action was recorded.
    pub open spec fn after_push(self, action: A) -> UndoHistory<A> {
        let kept = if self.undo.len() >= self.max_actions {
            self.undo.drop_first()
        } else {
            self.undo
        };
        UndoHistory { max_actions: self.max_actions, undo: kept.push(action), redo: Seq::empty() }
    }

    /// The history after the last undoable action was undone.
    pub open spec fn after_undo(self) -> UndoHistory<A> {
        UndoHistory {
            max_actions: self.max_actions,
            undo: self.undo.drop_last(),
            redo: seq![self.undo.last()] + self.redo,
        }
    }

    /// The history after the next redoable action was redone.
    pub open spec fn after_redo(self) -> UndoHistory<A> {
        UndoHistory {
            max_actions: self.max_actions,
            undo: self.undo.push(self.redo.first()),
            redo: self.redo.drop_first(),
        }
    }

    /// The history after its maximum size was changed to `new_max`: when it holds
    /// too many actions, the oldest undoable actions are dropped first; when even
    /// the redoable actions do not fit, every undoable action and the nearest
    /// redoable ones are dropped.
    pub open spec fn after_resize(self, new_max: nat) -> UndoHistory<A> {
        if self.total() > new_max {
            if new_max >= self.redo.len() {
                UndoHistory {
                    max_actions: new_max,
                    undo: self.undo.skip(self.total() - new_max),
                    redo: self.redo,
                }
            } else {
                UndoHistory {
                    max_actions: new_max,
                    undo: Seq::empty(),
                    redo: self.redo.skip(self.redo.len() - new_max),
                }
            }
        } else {
            UndoHistory { max_actions: new_max, undo: self.undo, redo: self.redo }
        }
    }

    /// The history with every action removed.
    pub open spec fn cleared(self) -> UndoHistory<A> {
        UndoHistory { max_actions: self.max_actions, undo: Seq::empty(), redo: Seq::empty() }
    }
}

/// A bounded undo / redo history of actions.
pub struct UndoStack<A> {
    max_actions: usize,
    undo_actions: VecDeque<A>,
    redo_actions: VecDeque<A>,
}

impl<A> View for UndoStack<A> {
    type V = UndoHistory<A>;

    closed spec fn view(&self) -> UndoHistory<A> {
        UndoHistory {
            max_actions: self.max_actions as nat,
            undo: self.undo_actions@,
            redo: self.redo_actions@,
        }
    }
}

impl<A> UndoStack<A> {
    pub fn new(max_actions: usize) -> (r: Self)
        requires
            max_actions >= 1,
        ensures
            r@.max_actions == max_actions,
            r@.undo == Seq::<A>::empty(),
            r@.redo == Seq::<A>::empty(),
            r@.wf(),
    {
        UndoStack { max_actions, undo_actions: VecDeque::new(), redo_actions: VecDeque::new() }
    }

    pub fn can_redo(&self) -> (r: bool)
        ensures
            r == (self@.redo.len() > 0),
    {
        self.redo_actions.len() != 0
    }

    pub fn can_undo(&self) -> (r: bool)
        ensures
            r == (self@.undo.len() > 0),
    {
        self.undo_actions.len() != 0
    }

    pub fn max_actions(&self) -> (r: usize)
        ensures
            r == self@.max_actions,
    {
        self.max_actions
    }

    /// The undoable actions, oldest first.
    pub fn undo_actions(&self) -> (r: &VecDeque<A>)
        ensures
            r@ == self@.undo,
    {
        &self.undo_actions
    }

    /// The redoable actions, the next one to redo first.
    pub fn redo_actions(&self) -> (r: &VecDeque<A>)
        ensures
            r@ == self@.redo,
    {
        &self.redo_actions
    }

    /// The action that the next undo reverts.
    pub fn last_undo(&self) -> (r: &A)
        requires
            self@.undo.len() > 0,
        ensures
            *r == self@.undo.last(),
    {
        let n = self.undo_actions.len();
        &self.undo_actions[n - 1]
    }

    /// The action that the next redo applies again.
    pub fn next_redo(&self) -> (r: &A)
        requires
            self@.redo.len() > 0,
        ensures
            *r == self@.redo.first(),
    {
        &self.redo_actions[0]
    }

    /// Set a new maximum size, dropping actions that no longer fit.
    pub fn adjust_stack_size(&mut self, new_value: usize)
        requires
            new_value >= 1,
        ensures
            final(self)@ == old(self)@.after_resize(new_value as nat),
            final(self)@.wf(),
    {
        self.max_actions = new_value;
        let undo_len = self.undo_actions.len();
        let redo_len = self.redo_actions.len();
        if undo_len as u128 + redo_len as u128 > self.max_actions as u128 {
            if self.max_actions >= redo_len {
                let excess = undo_len - (self.max_actions - redo_len);
                let mut i: usize = 0;
                while i < excess
                    invariant
                        i <= excess,
                        excess <= undo_len,
                        undo_len == old(self)@.undo.len(),
                        self.undo_actions@ == old(self)@.undo.skip(i as int),
                        self.redo_actions@ == old(self)@.redo,
                        self.max_actions == new_value,
                    decreases excess - i,
                {
                    let _dropped = self.undo_actions.pop_front();
                    i = i + 1;
                }
            } else {
                let excess_redo = redo_len - self.max_actions;
                self.undo_actions.clear();
                let mut i: usize = 0;
                while i < excess_redo
                    invariant
                        i <= excess_redo,
                        excess_redo < redo_len,
                        redo_len == old(self)@.redo.len(),
                        self.undo_actions@ == Seq::<A>::empty(),
                        self.redo_actions@ == old(self)@.redo.skip(i as int),
                        self.max_actions == new_value,
                    decreases excess_redo - i,
                {
                    let _dropped = self.redo_actions.pop_front();
                    i = i + 1;
                }
            }
        }
        assert(self@ =~= old(self)@.after_resize(new_value as nat));
    }

    /// Record a new action.  Actions undone before can no longer be redone, and
    /// when the history is full its oldest action is dropped; the result tells
    /// whether that happened.
    #[must_use]
    pub fn push_action(&mut self, action: A) -> (old_action_dropped: bool)
        requires
            old(self)@.wf(),
        ensures
            old_action_dropped == (old(self)@.undo.len() >= old(self)@.max_actions),
            final(self)@ == old(self)@.after_push(action),
            final(self)@.wf(),
    {
        let mut old_action_dropped = false;
        self.redo_actions.clear();
        if self.undo_actions.len() >= self.max_actions {
            let _dropped = self.undo_actions.pop_front();
            old_action_dropped = true;
        }
        self.undo_actions.push_back(action);
        assert(self@ =~= old(self)@.after_push(action));
        old_action_dropped
    }

    /// Move the last undoable action to the front of the redoable ones.
    pub fn undo(&mut self)
        requires
            old(self)@.undo.len() > 0,
        ensures
            final(self)@ == old(self)@.after_undo(),
            old(self)@.wf() ==> final(self)@.wf(),
    {
        let action = self.undo_actions.pop_back();
        match action {
            Some(a) => {
                self.redo_actions.push_front(a);
            },
            None => {},
        }
        assert(self@ =~= old(self)@.after_undo());
    }

    /// Move the next redoable action to the end of the undoable ones.
    pub fn redo(&mut self)
        requires
            old(self)@.redo.len() > 0,
        ensures
            final(self)@ == old(self)@.after_redo(),
            old(self)@.wf() ==> final(self)@.wf(),
    {
        let action = self.redo_actions.pop_front();
        match action {
            Some(a) => {
                self.undo_actions.push_back(a);
            },
            None => {},
        }
        assert(self@ =~= old(self)@.after_redo());
    }

    /// Remove every action.
    pub fn clear(&mut self)
        ensures
            final(self)@ == old(self)@.cleared(),
            old(self)@.wf() ==> final(self)@.wf(),
    {
        self.undo_actions.clear();
        self.redo_actions.clear();
        assert(self@ =~= old(self)@.cleared());
    }

    /// Change the maximum size.  Nothing happens when it is unchanged; otherwise
    /// the history is resized and the size change is reported.
    pub fn set_stack_size(&mut self, new_size: usize) -> (event: Option<UndoEvent>)
        requires
            new_size >= 1,
        ensures
            old(self)@.max_actions == new_size ==> {
                &&& event is None
                &&& final(self)@ == old(self)@
            },
            old(self)@.max_actions != new_size ==> {
                &&& event == Some(
                    UndoEvent::StackSizeChanged {
                        old_size: old(self)@.max_actions as usize,
                        new_size,
                    },
                )
                &&& final(self)@ == old(self)@.after_resize(new_size as nat)
            },
            old(self)@.wf() ==> final(self)@.wf(),
    {
        if self.max_actions == new_size {
            return None;
        }
        let old_size = self.max_actions;
        self.adjust_stack_size(new_size);
        Some(UndoEvent::StackSizeChanged { old_size, new_size })
    }
}

/// Undoing an action and then redoing it gives back the same history.
pub proof fn lemma_undo_then_redo<A>(h: UndoHistory<A>)
    requires
        h.undo.len() > 0,
    ensures
        h.after_undo().after_redo() == h,
{
    assert(h.after_undo().after_redo() =~= h);
}

/// Redoing an action and then undoing it gives back the same history.
pub proof fn lemma_redo_then_undo<A>(h: UndoHistory<A>)
    requires
        h.redo.len() > 0,
    ensures
        h.after_redo().after_undo() == h,
{
    assert(h.after_redo().after_undo() =~= h);
}

/// Undo and redo never change how many actions the history holds.
pub proof fn lemma_undo_redo_keep_total<A>(h: UndoHistory<A>)
    ensures
        h.undo.len() > 0 ==> h.after_undo().total() == h.total(),
        h.redo.len() > 0 ==> h.after_redo().total() == h.total(),
{
}

/// Recording an action makes it the next one to undo, leaves nothing to redo,
/// and keeps every earlier undoable action but possibly the oldest.
pub proof fn lemma_push_makes_action_undoable<A>(h: UndoHistory<A>, action: A)
    requires
        h.wf(),
    ensures
        h.after_push(action).undo.last() == action,
        h.after_push(action).redo.len() == 0,
        h.after_push(action).wf(),
        h.undo.len() < h.max_actions ==> h.after_push(action).undo == h.undo.push(action),
{
}

/// Recording an action and undoing it leaves that action alone on the redo side,
/// with the same undoable actions as before, unless the oldest had to be dropped.
pub proof fn lemma_push_then_undo<A>(h: UndoHistory<A>, action: A)
    requires
        h.wf(),
        h.undo.len() < h.max_actions,
    ensures
        h.after_push(action).after_undo().undo == h.undo,
        h.after_push(action).after_undo().redo == seq![action],
{
    assert(h.after_push(action).after_undo().undo =~= h.undo);
    assert(h.after_push(action).after_undo().redo =~= seq![action]);
}

/// Resizing to a size that the history already fits in drops nothing.
pub proof fn lemma_resize_within_capacity_keeps_actions<A>(h: UndoHistory<A>, new_max: nat)
    requires
        h.total() <= new_max,
    ensures
        h.after_resize(new_max).undo == h.undo,
        h.after_resize(new_max).redo == h.redo,
        h.after_resize(new_max).max_actions == new_max,
{
}

/// Resizing keeps the newest undoable actions and the farthest redoable ones, and
/// drops undoable actions before any redoable one: the result holds exactly as many
/// actions as fit, and every redoable action stays as long as they all fit.
pub proof fn lemma_resize_drops_oldest_undo_first<A>(h: UndoHistory<A>, new_max: nat)
    requires
        new_max >= 1,
    ensures
        h.after_resize(new_max).wf(),
        h.after_resize(new_max).total() == if h.total() <= new_max {
            h.total()
        } else {
            new_max
        },
        h.after_resize(new_max).undo.len() <= h.undo.len(),
        h.after_resize(new_max).undo == h.undo.skip(
            h.undo.len() - h.after_resize(new_max).undo.len(),
        ),
        h.after_resize(new_max).redo == h.redo.skip(
            h.redo.len() - h.after_resize(new_max).redo.len(),
        ),
        new_max >= h.redo.len() ==> h.after_resize(new_max).redo == h.redo,
        new_max < h.redo.len() ==> h.after_resize(new_max).undo.len() == 0,
{
    let r = h.after_resize(new_max);
    if h.total() > new_max {
        if new_max >= h.redo.len() {
            assert(r.undo == h.undo.skip(h.undo.len() - r.undo.len()));
            assert(r.redo =~= h.redo.skip(0));
        } else {
            assert(r.undo =~= h.undo.skip(h.undo.len() - 0));
        }
    } else {
        assert(r.undo =~= h.undo.skip(0));
        assert(r.redo =~= h.redo.skip(0));
    }
}

impl<A> UndoHistory<A> {
    /// The history after recording the actions in turn.
    pub open spec fn after_pushes(self, actions: Seq<A>) -> UndoHistory<A>
        decreases actions.len(),
    {
        if actions.len() == 0 {
            self
        } else {
            self.after_pushes(actions.drop_last()).after_push(actions.last())
        }
    }
}

/// Recording actions keeps the newest ones: after recording one or more
/// actions, the undoable actions are the last `max_actions` of the earlier
/// undoable actions followed by the recorded ones (all of them when they fit),
/// in order, and nothing is left to redo.  So a full history drops exactly its
/// oldest action for each action recorded.
pub proof fn lemma_pushes_keep_newest<A>(h: UndoHistory<A>, actions: Seq<A>)
    requires
        h.wf(),
        actions.len() > 0,
    ensures
        ({
            let all = h.undo + actions;
            let kept = if all.len() <= h.max_actions {
                all.len()
            } else {
                h.max_actions
            };
            &&& h.after_pushes(actions).undo == all.subrange(all.len() - kept, all.len() as int)
            &&& h.after_pushes(actions).redo.len() == 0
            &&& h.after_pushes(actions).max_actions == h.max_actions
        }),
    decreases actions.len(),
{
    let all = h.undo + actions;
    let n = all.len() as int;
    let m = h.max_actions as int;
    let rest = actions.drop_last();
    let a = actions.last();
    let prev = h.after_pushes(rest);
    if rest.len() == 0 {
        assert(prev == h);
        if h.undo.len() < m {
            assert(prev.after_push(a).undo =~= all.subrange(0, n));
        } else {
            assert(prev.after_push(a).undo =~= all.subrange(n - m, n));
        }
    } else {
        lemma_pushes_keep_newest(h, rest);
        let before = h.undo + rest;
        assert(before =~= all.drop_last());
        if n - 1 <= m {
            assert(prev.undo =~= before);
            if n - 1 < m {
                assert(prev.after_push(a).undo =~= all.subrange(0, n));
            } else {
                assert(prev.after_push(a).undo =~= all.subrange(n - m, n));
            }
        } else {
            assert(prev.undo == before.subrange(n - 1 - m, n - 1));
            assert(prev.after_push(a).undo =~= all.subrange(n - m, n));
        }
    }
}

} // verus!

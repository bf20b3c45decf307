//! Which file the project belongs to and whether it has unsaved changes.

pub mod save;

use vstd::prelude::*;

use crate::undo::UndoEvent;

verus! {

/// Why a session operation could not be carried out.
#[derive(Debug)]
pub enum SessionError<E> {
    /// Saving was asked for, but the project has no file yet and none was given.
    NoFilePath,
    /// Writing or reading the save file failed.
    SaveError(E),
}

/// The state of the open project.
#[derive(Debug)]
pub struct Session {
    loaded_from: Option<String>,
    /// Tracks unsaved changes while `saved_action_idx` is `None`.  A new project
    /// or a freshly loaded file sets this to `true`; the first recorded action
    /// sets it to `false`.
    new_project: bool,
    /// The position of the last saved action in the undo history, relative to
    /// the last applied action; `None` when no action can be referred to as the
    /// last saved one.
    saved_action_idx: Option<i32>,
}

/// The mathematical content of a [`Session`].
pub struct SessionState {
    pub loaded_from: Option<Seq<char>>,
    pub new_project: bool,
    pub saved_action_idx: Option<int>,
}

impl SessionState {
    pub open spec fn has_unsaved_changes(self) -> bool {
        !self.new_project && self.saved_action_idx != Some(0int)
    }

    /// Whether reacting to `event` keeps the saved-action index within `i32`.
    pub open spec fn can_process(self, event: UndoEvent) -> bool {
        match (event, self.saved_action_idx) {
            (UndoEvent::ActionPushed { .. }, Some(idx)) => idx - 1 >= i32::MIN,
            (UndoEvent::ActionReapplied, Some(idx)) => idx - 1 >= i32::MIN,
            (UndoEvent::ActionReverted, Some(idx)) => idx + 1 <= i32::MAX,
            _ => true,
        }
    }

    /// The state after reacting to a change of the undo history.
    pub open spec fn after_event(self, event: UndoEvent) -> SessionState {
        match event {
            UndoEvent::ActionPushed { .. } => SessionState {
                loaded_from: self.loaded_from,
                new_project: false,
                saved_action_idx: match self.saved_action_idx {
                    Some(idx) => Some(idx - 1),
                    None => None,
                },
            },
            UndoEvent::ActionReapplied => SessionState {
                saved_action_idx: match self.saved_action_idx {
                    Some(idx) => Some(idx - 1),
                    None => None,
                },
                ..self
            },
            UndoEvent::ActionReverted => SessionState {
                saved_action_idx: match self.saved_action_idx {
                    Some(idx) => Some(idx + 1),
                    None => None,
                },
                ..self
            },
            UndoEvent::StackCleared => if self.loaded_from is Some {
                SessionState { saved_action_idx: None, new_project: true, ..self }
            } else {
                self
            },
            UndoEvent::StackSizeChanged { .. } => self,
        }
    }
}

impl View for Session {
    type V = SessionState;

    closed spec fn view(&self) -> SessionState {
        SessionState {
            loaded_from: match self.loaded_from {
                Some(p) => Some(p@),
                None => None,
            },
            new_project: self.new_project,
            saved_action_idx: match self.saved_action_idx {
                Some(i) => Some(i as int),
                None => None,
            },
        }
    }
}

impl Default for Session {
    /// A session with no file, no new project and no saved action.
    fn default() -> (r: Self)
        ensures
            r@.loaded_from is None,
            !r@.new_project,
            r@.saved_action_idx is None,
    {
        Session { loaded_from: None, new_project: false, saved_action_idx: None }
    }
}

impl Session {
    pub fn get_file_path(&self) -> (r: Option<&String>)
        ensures
            match r {
                Some(p) => self@.loaded_from == Some(p@),
                None => self@.loaded_from is None,
            },
    {
        match &self.loaded_from {
            Some(p) => Some(p),
            None => None,
        }
    }

    pub fn has_save_file(&self) -> (r: bool)
        ensures
            r == self@.loaded_from is Some,
    {
        self.loaded_from.is_some()
    }

    pub fn has_unsaved_changes(&self) -> (r: bool)
        ensures
            r == self@.has_unsaved_changes(),
    {
        !self.new_project && !matches!(self.saved_action_idx, Some(0))
    }

    pub fn set_file_path(&mut self, path: String)
        ensures
            final(self)@.loaded_from == Some(path@),
            final(self)@.new_project == old(self)@.new_project,
            final(self)@.saved_action_idx == old(self)@.saved_action_idx,
    {
        self.loaded_from = Some(path);
    }

    /// Start a new, unsaved project.
    pub fn initialize_new(&mut self)
        ensures
            final(self)@.loaded_from is None,
            final(self)@.saved_action_idx is None,
            final(self)@.new_project,
    {
        self.loaded_from = None;
        self.saved_action_idx = None;
        self.new_project = true;
    }

    /// Record that the project was just saved to `path`.
    pub fn mark_saved(&mut self, path: String)
        ensures
            final(self)@.loaded_from == Some(path@),
            final(self)@.saved_action_idx == Some(0int),
            final(self)@.new_project == old(self)@.new_project,
    {
        self.saved_action_idx = Some(0);
        self.set_file_path(path);
    }

    /// The file a save goes to: the one asked for, else the one the project
    /// came from.
    pub fn resolve_save_path<E>(&self, requested: Option<String>) -> (r: Result<String, SessionError<E>>)
        ensures
            match requested {
                Some(p) => r matches Ok(q) && q@ == p@,
                None => match self@.loaded_from {
                    Some(l) => r matches Ok(q) && q@ == l,
                    None => r matches Err(SessionError::NoFilePath),
                },
            },
    {
        match requested {
            Some(p) => Ok(p),
            None => match &self.loaded_from {
                Some(l) => Ok(l.clone()),
                None => Err(SessionError::NoFilePath),
            },
        }
    }

    /// Whether `process_undo_event` can take `event`: the saved-action index stays
    /// within `i32`.
    pub fn can_process(&self, event: UndoEvent) -> (r: bool)
        ensures
            r == self@.can_process(event),
    {
        match (event, self.saved_action_idx) {
            (UndoEvent::ActionPushed { .. }, Some(idx)) => idx > i32::MIN,
            (UndoEvent::ActionReapplied, Some(idx)) => idx > i32::MIN,
            (UndoEvent::ActionReverted, Some(idx)) => idx < i32::MAX,
            _ => true,
        }
    }

    /// React to a change of the undo history: recording or redoing an action
    /// moves the saved action one step further back, undoing moves it one
    /// step forward, and clearing the history of a project with a file starts
    /// over as freshly loaded.
    pub fn process_undo_event(&mut self, event: UndoEvent)
        requires
            old(self)@.can_process(event),
        ensures
            final(self)@ == old(self)@.after_event(event),
    {
        match (event, self.saved_action_idx) {
            (UndoEvent::ActionPushed { .. }, None) => {
                self.new_project = false;
            },
            (UndoEvent::ActionPushed { .. }, Some(idx)) => {
                self.saved_action_idx = Some(idx - 1);
                self.new_project = false;
            },
            (UndoEvent::ActionReapplied, None) => {},
            (UndoEvent::ActionReapplied, Some(idx)) => {
                self.saved_action_idx = Some(idx - 1);
            },
            (UndoEvent::ActionReverted, None) => {},
            (UndoEvent::ActionReverted, Some(idx)) => {
                self.saved_action_idx = Some(idx + 1);
            },
            (UndoEvent::StackCleared, _) => {
                if self.has_save_file() {
                    self.saved_action_idx = None;
                    self.new_project = true;
                }
            },
            (UndoEvent::StackSizeChanged { .. }, _) => {},
        }
    }
}

/// Right after a save there are no unsaved changes.
pub proof fn lemma_saved_has_no_unsaved_changes(s: SessionState)
    requires
        s.saved_action_idx == Some(0int),
    ensures
        !s.has_unsaved_changes(),
{
}

/// A new project has no unsaved changes until an action is recorded, and has
/// some right after.
pub proof fn lemma_new_project_changes(s: SessionState, dropped: bool)
    requires
        s.new_project,
        s.saved_action_idx is None,
    ensures
        !s.has_unsaved_changes(),
        s.after_event(UndoEvent::ActionPushed { old_action_dropped: dropped }).has_unsaved_changes(),
{
}

/// Undoing an action and redoing it, or redoing and undoing it, brings the
/// saved-action bookkeeping back to where it was.
pub proof fn lemma_revert_then_reapply(s: SessionState)
    requires
        s.can_process(UndoEvent::ActionReverted),
        s.can_process(UndoEvent::ActionReapplied),
    ensures
        s.after_event(UndoEvent::ActionReverted).after_event(UndoEvent::ActionReapplied) == s,
        s.after_event(UndoEvent::ActionReapplied).after_event(UndoEvent::ActionReverted) == s,
{
}

/// After a save, recording an action makes the project dirty, and undoing that
/// action makes it clean again.
pub proof fn lemma_push_then_revert_after_save(s: SessionState, dropped: bool)
    requires
        s.saved_action_idx == Some(0int),
    ensures
        s.after_event(UndoEvent::ActionPushed { old_action_dropped: dropped }).has_unsaved_changes(),
        !s.after_event(UndoEvent::ActionPushed { old_action_dropped: dropped }).after_event(
            UndoEvent::ActionReverted,
        ).has_unsaved_changes(),
{
}

/// Changes of the history size leave the session as it is.
pub proof fn lemma_resize_keeps_session(s: SessionState, old_size: usize, new_size: usize)
    ensures
        s.after_event(UndoEvent::StackSizeChanged { old_size, new_size }) == s,
{
}

/// Whether an undo event moves the current action: recording, redoing or
/// undoing one.
pub open spec fn moves_current_action(event: UndoEvent) -> bool {
    event is ActionPushed || event is ActionReapplied || event is ActionReverted
}

/// How many actions a sequence of undo events applies in all: each recorded or
/// redone action counts one, each undone action minus one.
pub open spec fn applied_count(events: Seq<UndoEvent>) -> int
    decreases events.len(),
{
    if events.len() == 0 {
        0
    } else {
        applied_count(events.drop_last()) + event_step(events.last())
    }
}

/// How many actions one undo event applies: one for a recorded or redone
/// action, minus one for an undone action, none otherwise.
pub open spec fn event_step(event: UndoEvent) -> int {
    match event {
        UndoEvent::ActionPushed { .. } => 1,
        UndoEvent::ActionReapplied => 1,
        UndoEvent::ActionReverted => -1,
        _ => 0,
    }
}

impl SessionState {
    /// The state after reacting to the events in turn.
    pub open spec fn after_events(self, events: Seq<UndoEvent>) -> SessionState
        decreases events.len(),
    {
        if events.len() == 0 {
            self
        } else {
            self.after_events(events.drop_last()).after_event(events.last())
        }
    }
}

/// The saved-action index always lies as many steps behind the current action as
/// actions were applied since: after any run of recorded, redone and undone
/// actions, it has moved back by exactly the number applied in all.  A recorded
/// action also ends the freshly created or loaded state, and nothing here
/// changes which file the project belongs to.
pub proof fn lemma_saved_index_follows_applied_actions(s: SessionState, events: Seq<UndoEvent>)
    requires
        forall|i: int| 0 <= i < events.len() ==> moves_current_action(#[trigger] events[i]),
    ensures
        s.saved_action_idx matches Some(k) ==> s.after_events(events).saved_action_idx == Some(
            k - applied_count(events),
        ),
        s.saved_action_idx is None ==> s.after_events(events).saved_action_idx is None,
        s.after_events(events).loaded_from == s.loaded_from,
        (exists|i: int| 0 <= i < events.len() && #[trigger] events[i] is ActionPushed)
            ==> !s.after_events(events).new_project,
        !s.new_project ==> !s.after_events(events).new_project,
    decreases events.len(),
{
    if events.len() > 0 {
        let rest = events.drop_last();
        assert forall|i: int| 0 <= i < rest.len() implies moves_current_action(#[trigger] rest[i]) by {
            assert(rest[i] == events[i]);
        }
        lemma_saved_index_follows_applied_actions(s, rest);
        assert(moves_current_action(events[events.len() - 1]));
        if exists|i: int| 0 <= i < events.len() && #[trigger] events[i] is ActionPushed {
            let i = choose|i: int| 0 <= i < events.len() && #[trigger] events[i] is ActionPushed;
            if i < events.len() - 1 {
                assert(rest[i] == events[i]);
            }
        }
    }
}

proof fn lemma_applied_count_append(a: Seq<UndoEvent>, b: Seq<UndoEvent>)
    ensures
        applied_count(a + b) == applied_count(a) + applied_count(b),
    decreases b.len(),
{
    if b.len() > 0 {
        assert((a + b).drop_last() =~= a + b.drop_last());
        lemma_applied_count_append(a, b.drop_last());
    } else {
        assert(a + b =~= a);
    }
}

proof fn lemma_applied_count_uniform(events: Seq<UndoEvent>, step: int)
    requires
        forall|i: int| 0 <= i < events.len() ==> event_step(#[trigger] events[i]) == step,
    ensures
        applied_count(events) == events.len() * step,
    decreases events.len(),
{
    if events.len() > 0 {
        let rest = events.drop_last();
        assert forall|i: int| 0 <= i < rest.len() implies event_step(#[trigger] rest[i]) == step by {
            assert(rest[i] == events[i]);
        }
        lemma_applied_count_uniform(rest, step);
        assert(event_step(events[events.len() - 1]) == step);
        assert(events.len() * step == rest.len() * step + step) by (nonlinear_arith)
            requires
                events.len() == rest.len() + 1,
        ;
    } else {
        assert(events.len() * step == 0) by (nonlinear_arith)
            requires
                events.len() == 0,
        ;
    }
}

/// After a save, recording `n` actions and then undoing `m <= n` of them leaves
/// the project with unsaved changes exactly when `m < n`: the saved action is
/// `n - m` steps behind.
pub proof fn lemma_edits_after_save(s: SessionState, pushes: Seq<UndoEvent>, undos: nat)
    requires
        s.saved_action_idx == Some(0int),
        forall|i: int| 0 <= i < pushes.len() ==> #[trigger] pushes[i] is ActionPushed,
        undos <= pushes.len(),
    ensures
        ({
            let after = s.after_events(pushes + Seq::new(undos, |i: int| UndoEvent::ActionReverted));
            &&& after.saved_action_idx == Some(undos - pushes.len())
            &&& after.has_unsaved_changes() == (undos < pushes.len())
        }),
{
    let reverts = Seq::new(undos, |i: int| UndoEvent::ActionReverted);
    let events = pushes + reverts;
    assert forall|i: int| 0 <= i < events.len() implies moves_current_action(#[trigger] events[i]) by {
        if i < pushes.len() {
            assert(events[i] == pushes[i]);
        } else {
            assert(events[i] == reverts[i - pushes.len()]);
        }
    }
    assert forall|i: int| 0 <= i < pushes.len() implies event_step(#[trigger] pushes[i]) == 1 by {
        assert(pushes[i] is ActionPushed);
    }
    assert forall|i: int| 0 <= i < reverts.len() implies event_step(#[trigger] reverts[i]) == -1 by {
        assert(reverts[i] == UndoEvent::ActionReverted);
    }
    lemma_applied_count_uniform(pushes, 1);
    lemma_applied_count_uniform(reverts, -1);
    lemma_applied_count_append(pushes, reverts);
    lemma_saved_index_follows_applied_actions(s, events);
    if pushes.len() > 0 {
        assert(events[0] == pushes[0]);
    } else {
        assert(events =~= Seq::<UndoEvent>::empty());
    }
}

} // verus!

use yer::session::save::{SaveContainer, CURRENT_SAVE_VERSION};
use yer::session::{Session, SessionError};
use yer::ui::title::window_title;
use yer::undo::UndoEvent;

fn pushed() -> UndoEvent {
    UndoEvent::ActionPushed { old_action_dropped: false }
}

#[test]
fn a_new_session_has_no_file_and_no_changes() {
    let session = Session::default();
    assert!(!session.has_save_file());
    assert!(session.get_file_path().is_none());
    assert!(session.has_unsaved_changes());
}

#[test]
fn a_new_project_is_clean_until_an_action_is_pushed() {
    let mut session = Session::default();
    session.initialize_new();
    assert!(!session.has_unsaved_changes());
    session.process_undo_event(pushed());
    assert!(session.has_unsaved_changes());
}

#[test]
fn saving_clears_unsaved_changes() {
    let mut session = Session::default();
    session.initialize_new();
    session.process_undo_event(pushed());
    session.mark_saved("project.yer".to_string());
    assert!(!session.has_unsaved_changes());
    assert!(session.has_save_file());
    assert_eq!(session.get_file_path().map(|p| p.as_str()), Some("project.yer"));
}

#[test]
fn undoing_back_to_the_saved_action_is_clean() {
    let mut session = Session::default();
    session.mark_saved("a.yer".to_string());
    session.process_undo_event(pushed());
    assert!(session.has_unsaved_changes());
    session.process_undo_event(UndoEvent::ActionReverted);
    assert!(!session.has_unsaved_changes());
    session.process_undo_event(UndoEvent::ActionReverted);
    assert!(session.has_unsaved_changes());
    session.process_undo_event(UndoEvent::ActionReapplied);
    assert!(!session.has_unsaved_changes());
}

#[test]
fn clearing_the_stack_of_a_loaded_project_starts_clean() {
    let mut session = Session::default();
    session.set_file_path("b.yer".to_string());
    session.process_undo_event(pushed());
    assert!(session.has_unsaved_changes());
    session.process_undo_event(UndoEvent::StackCleared);
    assert!(!session.has_unsaved_changes());
}

#[test]
fn resizing_the_stack_changes_nothing() {
    let mut session = Session::default();
    session.mark_saved("c.yer".to_string());
    session.process_undo_event(UndoEvent::StackSizeChanged { old_size: 3, new_size: 4 });
    assert!(!session.has_unsaved_changes());
}

#[test]
fn saving_without_a_path_needs_a_file() {
    let session = Session::default();
    let r: Result<String, SessionError<()>> = session.resolve_save_path(None);
    assert!(matches!(r, Err(SessionError::NoFilePath)));
    let r: Result<String, SessionError<()>> = session.resolve_save_path(Some("x.yer".to_string()));
    assert_eq!(r.ok(), Some("x.yer".to_string()));
}

#[test]
fn saving_again_uses_the_loaded_path() {
    let mut session = Session::default();
    session.set_file_path("loaded.yer".to_string());
    let r: Result<String, SessionError<()>> = session.resolve_save_path(None);
    assert_eq!(r.ok(), Some("loaded.yer".to_string()));
}

#[test]
fn save_container_uses_the_current_version() {
    let container = SaveContainer::current(vec![1, 2, 3]);
    assert_eq!(container.version, CURRENT_SAVE_VERSION);
    assert_eq!(CURRENT_SAVE_VERSION, 1);
    assert_eq!(container.data, vec![1, 2, 3]);
}

#[test]
fn window_title_shows_file_and_unsaved_marker() {
    let mut session = Session::default();
    assert_eq!(window_title(&session, "Yer"), "* (Unsaved) \u{2014} Yer");
    session.mark_saved("/tmp/a.yer".to_string());
    assert_eq!(window_title(&session, "Yer"), " /tmp/a.yer \u{2014} Yer");
    session.process_undo_event(UndoEvent::ActionPushed { old_action_dropped: false });
    assert_eq!(window_title(&session, "Yer"), "* /tmp/a.yer \u{2014} Yer");
}

#[test]
fn undo_events_are_refused_only_at_the_ends_of_the_index() {
    let mut session = Session::default();
    assert!(session.can_process(pushed()));
    assert!(session.can_process(UndoEvent::ActionReverted));
    session.mark_saved("d.yer".to_string());
    assert!(session.can_process(pushed()));
    assert!(session.can_process(UndoEvent::ActionReapplied));
    assert!(session.can_process(UndoEvent::ActionReverted));
    assert!(session.can_process(UndoEvent::StackCleared));
}

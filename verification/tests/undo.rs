use yer::undo::{UndoEvent, UndoStack};

fn pushed(stack: &mut UndoStack<usize>, action: usize) -> bool {
    stack.push_action(action)
}

#[test]
fn adding_an_action_beyond_max_actions_drop_from_the_stack() {
    let mut stack: UndoStack<usize> = UndoStack::new(20);
    stack.adjust_stack_size(2);
    for idx in 0..5 {
        let _ = pushed(&mut stack, idx);
    }
    assert_eq!(stack.undo_actions()[0], 3);
    assert_eq!(stack.undo_actions()[1], 4);
}

#[test]
fn when_stack_size_is_decreased_beyond_undo_actions_redo_actions_are_dropped() {
    let mut stack: UndoStack<usize> = UndoStack::new(20);
    stack.adjust_stack_size(10);
    for idx in 0..8 {
        let _ = pushed(&mut stack, idx);
    }
    for _ in 0..3 {
        stack.undo();
    }

    assert_eq!(stack.max_actions(), 10);
    assert_eq!(stack.undo_actions().len(), 5);
    assert_eq!(stack.redo_actions().len(), 3);

    let event = stack.set_stack_size(2);
    assert_eq!(event, Some(UndoEvent::StackSizeChanged { old_size: 10, new_size: 2 }));
    assert_eq!(stack.max_actions(), 2);
    assert_eq!(stack.undo_actions().len(), 0);
    assert_eq!(stack.redo_actions().len(), 2);
}

#[test]
fn when_stack_size_is_decreased_first_undo_actions_are_dropped() {
    let mut stack: UndoStack<usize> = UndoStack::new(20);
    stack.adjust_stack_size(10);
    for idx in 0..8 {
        let _ = pushed(&mut stack, idx);
    }
    for _ in 0..3 {
        stack.undo();
    }

    assert_eq!(stack.max_actions(), 10);
    assert_eq!(stack.undo_actions().len(), 5);
    assert_eq!(stack.redo_actions().len(), 3);

    let _ = stack.set_stack_size(4);
    assert_eq!(stack.max_actions(), 4);
    assert_eq!(stack.undo_actions().len(), 1);
    assert_eq!(stack.redo_actions().len(), 3);
}

#[test]
fn when_stack_size_is_increased_no_action_is_dropped() {
    let mut stack: UndoStack<usize> = UndoStack::new(20);
    stack.adjust_stack_size(2);
    let _ = pushed(&mut stack, 1);
    let _ = pushed(&mut stack, 2);
    stack.undo();

    assert_eq!(stack.max_actions(), 2);
    assert_eq!(stack.undo_actions().len(), 1);
    assert_eq!(stack.redo_actions().len(), 1);

    let _ = stack.set_stack_size(3);
    assert_eq!(stack.max_actions(), 3);
    assert_eq!(stack.undo_actions().len(), 1);
    assert_eq!(stack.redo_actions().len(), 1);
}

#[test]
fn push_reports_dropping_the_oldest_action() {
    let mut stack: UndoStack<usize> = UndoStack::new(2);
    assert!(!stack.push_action(1));
    assert!(!stack.push_action(2));
    assert!(stack.push_action(3));
    assert_eq!(stack.undo_actions().iter().copied().collect::<Vec<_>>(), vec![2, 3]);
}

#[test]
fn push_clears_redo_actions() {
    let mut stack: UndoStack<usize> = UndoStack::new(5);
    let _ = stack.push_action(1);
    let _ = stack.push_action(2);
    stack.undo();
    assert!(stack.can_redo());
    let _ = stack.push_action(3);
    assert!(!stack.can_redo());
    assert_eq!(stack.undo_actions().iter().copied().collect::<Vec<_>>(), vec![1, 3]);
}

#[test]
fn undo_then_redo_restores_the_history() {
    let mut stack: UndoStack<usize> = UndoStack::new(5);
    for idx in 0..4 {
        let _ = stack.push_action(idx);
    }
    stack.undo();
    stack.undo();
    assert_eq!(*stack.next_redo(), 2);
    assert_eq!(*stack.last_undo(), 1);
    stack.undo();
    stack.redo();
    assert_eq!(stack.undo_actions().iter().copied().collect::<Vec<_>>(), vec![0, 1]);
    assert_eq!(stack.redo_actions().iter().copied().collect::<Vec<_>>(), vec![2, 3]);
}

#[test]
fn undo_moves_the_last_action_to_redo() {
    let mut stack: UndoStack<usize> = UndoStack::new(5);
    let _ = stack.push_action(7);
    let _ = stack.push_action(8);
    stack.undo();
    assert_eq!(*stack.next_redo(), 8);
    assert!(stack.can_undo());
    stack.undo();
    assert!(!stack.can_undo());
    assert_eq!(stack.redo_actions().iter().copied().collect::<Vec<_>>(), vec![7, 8]);
    stack.redo();
    assert_eq!(*stack.last_undo(), 7);
}

#[test]
fn clear_removes_every_action() {
    let mut stack: UndoStack<usize> = UndoStack::new(5);
    let _ = stack.push_action(1);
    let _ = stack.push_action(2);
    stack.undo();
    stack.clear();
    assert!(!stack.can_undo());
    assert!(!stack.can_redo());
    assert_eq!(stack.max_actions(), 5);
}

#[test]
fn setting_the_same_size_reports_nothing() {
    let mut stack: UndoStack<usize> = UndoStack::new(5);
    let _ = stack.push_action(1);
    assert_eq!(stack.set_stack_size(5), None);
    assert_eq!(stack.undo_actions().len(), 1);
}

#[test]
fn shrinking_below_redo_keeps_the_farthest_redo_actions() {
    let mut stack: UndoStack<usize> = UndoStack::new(10);
    for idx in 0..8 {
        let _ = stack.push_action(idx);
    }
    for _ in 0..3 {
        stack.undo();
    }
    stack.adjust_stack_size(2);
    assert_eq!(stack.redo_actions().iter().copied().collect::<Vec<_>>(), vec![6, 7]);
}

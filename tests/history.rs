use rmd::history::{Edit, EditHistory};
use rmd::text_buffer::TextBuffer;

fn edit(old: &str, new: &str, position: usize) -> Edit {
    Edit {
        old_text: old.to_string(),
        new_text: new.to_string(),
        position,
        cursor_before: (0, position),
        cursor_after: (0, position + new.len()),
    }
}

fn apply_undo(buffer: &mut TextBuffer, e: &Edit) {
    buffer.replace_range(e.position..e.position + e.new_text.len(), &e.old_text);
}

fn apply_redo(buffer: &mut TextBuffer, e: &Edit) {
    buffer.replace_range(e.position..e.position + e.old_text.len(), &e.new_text);
}

#[test]
fn undo_all_then_redo_all_restores_text() {
    let mut buffer = TextBuffer::from("hello world");
    let mut history = EditHistory::new(10);
    let edits = [edit("hello", "goodbye", 0), edit("world", "moon", 8), edit("", "!", 12)];
    for e in edits.iter() {
        apply_redo(&mut buffer, e);
        history.push(e.duplicate());
    }
    let before_undo = buffer.as_str();
    assert_eq!(before_undo, "goodbye moon!");
    assert!(history.can_undo());
    assert!(!history.can_redo());
    while let Some(e) = history.undo() {
        apply_undo(&mut buffer, &e);
        assert!(history.can_redo());
    }
    assert_eq!(buffer.as_str(), "hello world");
    assert!(!history.can_undo());
    while let Some(e) = history.redo() {
        apply_redo(&mut buffer, &e);
        assert!(history.can_undo());
    }
    assert!(!history.can_redo());
    assert_eq!(buffer.as_str(), before_undo);
}

#[test]
fn history_keeps_at_most_its_bound() {
    let mut history = EditHistory::new(3);
    for i in 0..10 {
        history.push(edit("", &i.to_string(), 0));
    }
    let mut kept = Vec::new();
    while let Some(e) = history.undo() {
        kept.push(e.new_text);
    }
    assert_eq!(kept, vec!["9", "8", "7"]);
}

#[test]
fn push_forgets_redo() {
    let mut history = EditHistory::new(5);
    history.push(edit("", "a", 0));
    history.undo();
    assert!(history.can_redo());
    history.push(edit("", "b", 0));
    assert!(!history.can_redo());
    assert!(history.redo().is_none());
}

#[test]
fn empty_history_does_nothing() {
    let mut history = EditHistory::new(5);
    assert!(history.undo().is_none());
    assert!(history.redo().is_none());
    assert!(!history.can_undo());
    assert!(!history.can_redo());
}

#[test]
fn zero_bound_keeps_nothing() {
    let mut history = EditHistory::new(0);
    history.push(edit("", "a", 0));
    assert!(!history.can_undo());
}

#[test]
fn clear_forgets_everything() {
    let mut history = EditHistory::new(5);
    history.push(edit("", "a", 0));
    history.push(edit("", "b", 1));
    history.undo();
    history.clear();
    assert!(!history.can_undo());
    assert!(!history.can_redo());
}

#[test]
fn duplicate_copies_every_field() {
    let e = edit("x", "yz", 4);
    let d = e.duplicate();
    assert_eq!(d.old_text, "x");
    assert_eq!(d.new_text, "yz");
    assert_eq!(d.position, 4);
    assert_eq!(d.cursor_before, (0, 4));
    assert_eq!(d.cursor_after, (0, 6));
}

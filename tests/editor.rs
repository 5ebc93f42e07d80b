use rmd::config::{default_auto_save_interval, default_editor_font, default_true, default_ui_font, EditorConfig, ThemeMode};
use rmd::editor::Editor;
use rmd::layouts::{LayoutMode, SplitDirection};
use rmd::widgets::{CodeBlock, ToolbarButton};

#[test]
fn new_editor_is_empty_and_clean() {
    let editor = Editor::new();
    assert_eq!(editor.text(), "");
    assert!(!editor.is_dirty());
    assert!(!editor.can_undo());
    assert!(!editor.can_redo());
    assert_eq!(editor.cursor_position(), (0, 0));
}

#[test]
fn set_text_loads_a_clean_document() {
    let mut editor = Editor::new();
    editor.insert_text("draft");
    assert!(editor.is_dirty());
    editor.set_text("# Loaded\n");
    assert_eq!(editor.text(), "# Loaded\n");
    assert!(!editor.is_dirty());
    assert!(!editor.can_undo());
}

#[test]
fn inserts_are_undone_and_redone() {
    let mut editor = Editor::new();
    editor.set_text("world");
    editor.insert_text("hello ");
    editor.insert_text(">> ");
    assert_eq!(editor.text(), ">> hello world");
    assert!(editor.can_undo());
    editor.undo();
    assert_eq!(editor.text(), "hello world");
    assert!(editor.can_redo());
    editor.undo();
    assert_eq!(editor.text(), "world");
    assert!(!editor.can_undo());
    editor.redo();
    editor.redo();
    assert_eq!(editor.text(), ">> hello world");
    assert!(!editor.can_redo());
}

#[test]
fn undo_and_redo_with_nothing_to_do() {
    let mut editor = Editor::new();
    editor.set_text("same");
    editor.undo();
    editor.redo();
    assert_eq!(editor.text(), "same");
    assert!(!editor.is_dirty());
}

#[test]
fn saving_marks_clean() {
    let mut editor = Editor::new();
    editor.insert_text("x");
    editor.mark_saved();
    assert!(!editor.is_dirty());
    assert_eq!(editor.text(), "x");
}

#[test]
fn backspace_at_start_does_nothing() {
    let mut editor = Editor::new();
    editor.set_text("abc");
    editor.backspace();
    assert_eq!(editor.text(), "abc");
    assert!(!editor.is_dirty());
}

#[test]
fn settings_defaults() {
    let config = EditorConfig::default();
    assert!(config.word_wrap && config.show_line_numbers && config.auto_indent);
    assert_eq!(config.tab_size, 4);
    assert_eq!(config.auto_save_interval_seconds, 30);
    assert_eq!(ThemeMode::default(), ThemeMode::System);
    assert_eq!(LayoutMode::default(), LayoutMode::Split);
    assert_eq!(SplitDirection::default(), SplitDirection::Horizontal);
    assert_eq!(default_editor_font(), "Fira Code");
    assert_eq!(default_ui_font(), "Segoe UI");
    assert!(default_true());
    assert_eq!(default_auto_save_interval(), 30);
    let mut editor = Editor::default();
    editor.set_config(config);
    assert_eq!(editor.text(), "");
}

#[test]
fn toolbar_button_builders() {
    let button = ToolbarButton::new("B").tooltip("Bold").enabled(false);
    assert_eq!(button.icon, "B");
    assert_eq!(button.tooltip, Some("Bold"));
    assert!(!button.enabled);
    assert!(ToolbarButton::new("I").enabled);
}

#[test]
fn code_block_builders() {
    let block = CodeBlock::new("fn main() {}").language("rust");
    assert_eq!(block.code, "fn main() {}");
    assert_eq!(block.language, Some("rust".to_string()));
    assert_eq!(CodeBlock::new("x").language, None);
}

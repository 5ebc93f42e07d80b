//! A Markdown editing core: a gap-buffer text store with a line index,
//! a bounded undo/redo history, and a renderer that turns Markdown into a
//! tree of display elements.

pub mod config;
pub mod editor;
pub mod highlighter;
pub mod history;
pub mod layouts;
pub mod markdown;
pub mod preview;
pub mod text_buffer;
pub mod utils;
pub mod widgets;

//! Settings that the editing core reads.

use vstd::prelude::*;
use vstd::string::StringExecFns;

verus! {

/// Whether the interface is light, dark, or follows the system.
#[derive(Clone, Copy, Debug, PartialEq, Eq, Structural)]
pub enum ThemeMode {
    Light,
    Dark,
    System,
}

impl Default for ThemeMode {
    fn default() -> (r: Self)
        ensures
            r == ThemeMode::System,
    {
        ThemeMode::System
    }
}

/// Editor behaviour settings.
#[derive(Clone, Debug)]
pub struct EditorConfig {
    pub word_wrap: bool,
    pub show_line_numbers: bool,
    pub highlight_current_line: bool,
    pub auto_indent: bool,
    pub use_spaces_for_tabs: bool,
    pub tab_size: usize,
    pub auto_save_interval_seconds: u64,
}

impl Default for EditorConfig {
    fn default() -> (r: Self)
        ensures
            r.word_wrap && r.show_line_numbers && r.highlight_current_line && r.auto_indent
                && r.use_spaces_for_tabs,
            r.tab_size == 4,
            r.auto_save_interval_seconds == 30,
    {
        EditorConfig {
            word_wrap: true,
            show_line_numbers: true,
            highlight_current_line: true,
            auto_indent: true,
            use_spaces_for_tabs: true,
            tab_size: 4,
            auto_save_interval_seconds: 30,
        }
    }
}

/// The editor font used when none is configured.
pub fn default_editor_font() -> (r: String)
    ensures
        r@ == "Fira Code"@,
{
    String::from_str("Fira Code")
}

/// The interface font used when none is configured.
pub fn default_ui_font() -> (r: String)
    ensures
        r@ == "Segoe UI"@,
{
    String::from_str("Segoe UI")
}

/// The value of a switch that is on unless configured otherwise.
pub fn default_true() -> (r: bool)
    ensures
        r,
{
    true
}

/// Seconds between automatic saves when none is configured.
pub fn default_auto_save_interval() -> (r: u64)
    ensures
        r == 30,
{
    30
}

} // verus!

//! What the toolbar buttons and code blocks of the interface display.

use vstd::prelude::*;
use vstd::string::StringExecFns;

verus! {

/// A toolbar button: its icon, an optional tooltip, and whether it reacts
/// to clicks.
pub struct ToolbarButton {
    pub icon: &'static str,
    pub tooltip: Option<&'static str>,
    pub enabled: bool,
}

impl ToolbarButton {
    /// An enabled button with `icon` and no tooltip.
    pub fn new(icon: &'static str) -> (r: Self)
        ensures
            r.icon == icon,
            r.tooltip is None,
            r.enabled,
    {
        ToolbarButton { icon, tooltip: None, enabled: true }
    }

    /// The same button with `tooltip`.
    pub fn tooltip(self, tooltip: &'static str) -> (r: Self)
        ensures
            r.icon == self.icon,
            r.tooltip == Some(tooltip),
            r.enabled == self.enabled,
    {
        ToolbarButton { tooltip: Some(tooltip), ..self }
    }

    /// The same button, enabled or not.
    pub fn enabled(self, enabled: bool) -> (r: Self)
        ensures
            r.icon == self.icon,
            r.tooltip == self.tooltip,
            r.enabled == enabled,
    {
        ToolbarButton { enabled, ..self }
    }
}

/// A block of code, with the language it is written in if known.
pub struct CodeBlock {
    pub code: String,
    pub language: Option<String>,
}

impl CodeBlock {
    /// A block holding `code`, language unknown.
    pub fn new(code: &str) -> (r: Self)
        ensures
            r.code@ == code@,
            r.language is None,
    {
        CodeBlock { code: String::from_str(code), language: None }
    }

    /// The same block, written in `lang`.
    pub fn language(self, lang: &str) -> (r: Self)
        ensures
            r.code == self.code,
            r.language matches Some(l) && l@ == lang@,
    {
        CodeBlock { code: self.code, language: Some(String::from_str(lang)) }
    }
}

} // verus!

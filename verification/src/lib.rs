use vstd::prelude::*;

pub mod bridge;
pub mod browser;
pub mod buffer;
pub mod command;
pub mod cursor;
pub mod editor_state;
pub mod error;
pub mod facade;
pub mod handlers;
pub mod highlighter;
pub mod hook;
pub mod key_event;
pub mod lines;
pub mod lisp;
pub mod lisp_editor;
pub mod lisp_files;
pub mod lisp_hooks;
pub mod lisp_lists;
pub mod lisp_panels;
pub mod lisp_settings;
pub mod lisp_strings;
pub mod lisp_theme;
pub mod overlay;
pub mod panel;
pub mod paths;
pub mod plugin;
pub mod rainbow_csv;
pub mod rope_text;
pub mod str_map;
pub mod syntax;
pub mod text;
pub mod text_object;
pub mod theme;
pub mod viewport;

verus! {

/// Returns the crate version string.
pub fn version() -> (v: &'static str)
    ensures
        v@ == "0.1.0"@,
{
    "0.1.0"
}

} // verus!

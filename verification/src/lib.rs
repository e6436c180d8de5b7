//! coder — the verified core of a terminal code editor: the text buffer with
//! its cursor, selection and undo history, the keyboard map, workspace search
//! and replace, the git change gutter and session persistence.

pub mod buffer;
pub mod closing;
pub mod config;
pub mod diagnostics;
pub mod disk;
pub mod display;
pub mod edit_laws;
pub mod extensions;
pub mod find;
pub mod format;
pub mod git;
pub mod highlight;
pub mod icons;
pub mod keymap;
pub mod model;
pub mod nav;
pub mod paths;
pub mod preview;
pub mod restore;
pub mod search;
pub mod session;
pub mod tab_laws;
pub mod text;
pub mod workbench;
pub mod workspace;

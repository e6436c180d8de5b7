//! Persisted user preferences (selected theme + editor settings).

use vstd::prelude::*;

use crate::highlight::DEFAULT_THEME;

verus! {

/// User preferences, stored as TOML.
#[derive(Debug, Clone)]
pub struct Config {
    /// Selected theme name.
    pub theme: String,
    /// Run the enabled format actions when saving.
    pub format_on_save: bool,
    /// Strip trailing whitespace on save.
    pub trim_trailing_whitespace: bool,
    /// Ensure a single final newline on save.
    pub insert_final_newline: bool,
}

impl Default for Config {
    fn default() -> (c: Self)
        ensures
            c.theme@ == DEFAULT_THEME@,
            !c.format_on_save,
            c.trim_trailing_whitespace,
            c.insert_final_newline,
    {
        Config {
            theme: DEFAULT_THEME.to_owned(),
            format_on_save: false,
            trim_trailing_whitespace: true,
            insert_final_newline: true,
        }
    }
}

} // verus!

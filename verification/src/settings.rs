//! The application's settings.

use vstd::prelude::*;

verus! {

/// What the user has configured.
#[derive(Debug, Clone)]
pub struct Settings {
    /// The game's directory, or a single plugin file.
    pub game: Option<String>,
    /// Where string-override files are written; beside the plugin when
    /// unset.
    pub dsd_output_dir: Option<String>,
}

impl Default for Settings {
    /// Nothing configured.
    fn default() -> (r: Settings)
        ensures
            r.game is None,
            r.dsd_output_dir is None,
    {
        Settings { game: None, dsd_output_dir: None }
    }
}

} // verus!

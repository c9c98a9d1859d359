//! Persistent user configuration: the path of the model to load.

use vstd::prelude::*;

verus! {

/// Configuration the front end keeps between sessions. `model_path` is
/// `None` until the user has picked a model file.
#[derive(Debug, Clone)]
pub struct Settings {
    pub model_path: Option<String>,
}

impl Default for Settings {
    /// A fresh configuration has no model selected.
    fn default() -> (s: Settings)
        ensures
            s.model_path is None,
    {
        Settings { model_path: None }
    }
}

impl Settings {
    /// Whether a model file has been chosen.
    pub fn has_model(&self) -> (r: bool)
        ensures
            r == (self.model_path is Some),
    {
        self.model_path.is_some()
    }
}

} // verus!

//! Application-wide settings, as plain data.  The surrounding application
//! persists them; the library holds the values and their defaults.

use vstd::prelude::*;

verus! {

/// The window-behaviour settings of the application.
#[derive(Debug, Clone, Copy, PartialEq, Eq, Structural)]
pub struct AppSettings {
    pub minimize_to_tray: bool,
    pub start_minimized: bool,
}

impl Default for AppSettings {
    /// The stock settings: minimize to the tray, start visible.
    fn default() -> (r: Self)
        ensures
            r.minimize_to_tray,
            !r.start_minimized,
    {
        AppSettings { minimize_to_tray: true, start_minimized: false }
    }
}

} // verus!

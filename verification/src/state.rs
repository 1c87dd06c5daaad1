//! Application-wide presentation state.

use vstd::prelude::*;

verus! {

/// Global presentation-layer state: whether the window may hide itself
/// automatically when it loses focus.
pub struct AppState {
    /// True while automatic hiding is suppressed.
    pub prevent_auto_hide: bool,
}

impl AppState {
    /// A fresh state: automatic hiding is allowed.
    pub fn new() -> (r: AppState)
        ensures
            !r.prevent_auto_hide,
    {
        AppState { prevent_auto_hide: false }
    }

    /// Suppresses or allows automatic hiding.
    pub fn set_prevent_auto_hide(&mut self, prevent: bool)
        ensures
            final(self).prevent_auto_hide == prevent,
    {
        self.prevent_auto_hide = prevent;
    }
}

impl Default for AppState {
    /// The default state equals a fresh one.
    fn default() -> (r: Self)
        ensures
            !r.prevent_auto_hide,
    {
        AppState::new()
    }
}

} // verus!

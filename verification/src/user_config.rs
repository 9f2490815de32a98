//! The policy that the command layer consults. It is read-only here.

use vstd::prelude::*;
use crate::window_state::WindowState;

verus! {

/// Which window states the configuration lets a window enter. Tiling is
/// always permitted.
#[derive(Clone, Copy, Debug, PartialEq, Eq)]
pub struct UserConfig {
    pub allow_floating: bool,
    pub allow_minimized: bool,
    pub allow_fullscreen: bool,
}

impl UserConfig {
    /// Whether the policy lets a window enter `target`.
    pub open spec fn permits(&self, target: WindowState) -> bool {
        match target {
            WindowState::Tiling => true,
            WindowState::Floating => self.allow_floating,
            WindowState::Minimized => self.allow_minimized,
            WindowState::Fullscreen => self.allow_fullscreen,
        }
    }

    /// Executable form of [`Self::permits`].
    pub fn allows(&self, target: WindowState) -> (b: bool)
        ensures
            b == self.permits(target),
    {
        match target {
            WindowState::Tiling => true,
            WindowState::Floating => self.allow_floating,
            WindowState::Minimized => self.allow_minimized,
            WindowState::Fullscreen => self.allow_fullscreen,
        }
    }

    /// The policy that permits every state.
    pub fn permissive() -> (config: Self)
        ensures
            forall|s: WindowState| config.permits(s),
    {
        UserConfig { allow_floating: true, allow_minimized: true, allow_fullscreen: true }
    }
}

} // verus!

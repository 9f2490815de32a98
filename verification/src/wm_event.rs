//! Notifications of changes that have been applied to the state.

use vstd::prelude::*;
use crate::container::ContainerId;
use crate::window_state::WindowState;

verus! {

/// A change that has already been applied. Events are values: once made they
/// are only read.
#[derive(Clone, Copy, Debug, PartialEq, Eq, Structural)]
pub enum WmEvent {
    /// A window left one state for another.
    WindowStateChanged { window: ContainerId, from: WindowState, to: WindowState },
    /// A window was put at a position among the children of a container.
    WindowMoved { window: ContainerId, parent: ContainerId, index: usize },
}

/// The kinds of event a subscriber can ask for.
#[derive(Clone, Copy, Debug, PartialEq, Eq, Structural)]
pub enum EventFilter {
    /// Every event.
    All,
    /// Changes of window state only.
    WindowState,
    /// Changes of the tree's shape only.
    Tree,
}

impl EventFilter {
    /// Whether a subscriber with this filter is sent `event`.
    pub open spec fn admits(self, event: WmEvent) -> bool {
        match self {
            EventFilter::All => true,
            EventFilter::WindowState => event is WindowStateChanged,
            EventFilter::Tree => event is WindowMoved,
        }
    }

    /// Executable form of [`Self::admits`].
    pub fn lets_through(self, event: &WmEvent) -> (b: bool)
        ensures
            b == self.admits(*event),
    {
        match self {
            EventFilter::All => true,
            EventFilter::WindowState => match event {
                WmEvent::WindowStateChanged { .. } => true,
                _ => false,
            },
            EventFilter::Tree => match event {
                WmEvent::WindowMoved { .. } => true,
                _ => false,
            },
        }
    }
}

} // verus!

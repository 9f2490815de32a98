//! The four states a managed window can be in.

use vstd::prelude::*;

verus! {

/// State of a managed window. The states carry no order.
#[derive(Clone, Copy, Debug, PartialEq, Eq, Structural)]
pub enum WindowState {
    /// Position and size follow from the sibling layout.
    Tiling,
    /// Position and size are controlled by hand.
    Floating,
    /// Hidden from the layout.
    Minimized,
    /// Covers the whole monitor.
    Fullscreen,
}

impl WindowState {
    /// Whether this is the tiling state.
    pub open spec fn is_tiling(self) -> bool {
        self == WindowState::Tiling
    }

    /// Whether this is the tiling state.
    pub fn tiling(self) -> (b: bool)
        ensures
            b == self.is_tiling(),
    {
        self == WindowState::Tiling
    }
}

/// Whether a transition between two states crosses the boundary between
/// tiling and the non-tiling states.
pub open spec fn crosses_tiling_boundary(from: WindowState, to: WindowState) -> bool {
    from.is_tiling() != to.is_tiling()
}

} // verus!

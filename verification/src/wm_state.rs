//! The one authoritative state: the container tree and the ledger.

use vstd::prelude::*;
use crate::container::{ContainerId, ContainerKind, ContainerTree, ContainerView, ROOT};
use crate::pending_sync::PendingSync;

verus! {

/// State of the window manager. Whoever holds it by `&mut` is the one
/// writer; commands run against it one after the other.
pub struct WmState {
    pub tree: ContainerTree,
    pub pending_sync: PendingSync,
}

impl WmState {
    /// The invariant of both parts.
    pub open spec fn wf(&self) -> bool {
        self.tree.wf() && self.pending_sync.wf()
    }

    /// A state with the root alone and nothing to redraw.
    pub fn new() -> (state: Self)
        ensures
            state.wf(),
            state.tree.issued() == 1,
            state.tree@ == map![ROOT => ContainerView {
                kind: ContainerKind::Root,
                parent: None,
                children: Seq::empty(),
                window: None,
            }],
            state.pending_sync@ == Seq::<ContainerId>::empty(),
    {
        WmState { tree: ContainerTree::new(), pending_sync: PendingSync::new() }
    }
}

} // verus!

//! Errors of the control plane. None of them is fatal to the process.

use vstd::prelude::*;
use crate::window_state::WindowState;

verus! {

/// Why a tree mutation was refused. A refused mutation changes nothing.
#[derive(Clone, Copy, Debug, PartialEq, Eq, Structural)]
pub enum StructuralFault {
    /// The operation names a container that does not exist.
    NoSuchNode,
    /// The operation needs a window and was given another kind of container.
    NotAWindow,
    /// The container to attach already has a parent.
    AlreadyAttached,
    /// The container has no position in the tree that another could take.
    NotAttached,
    /// The container would become its own ancestor.
    WouldCycle,
    /// The root can be neither detached nor removed.
    RootImmovable,
    /// The parent's kind cannot own a container of the child's kind.
    KindMismatch,
    /// The position lies beyond the end of the parent's children.
    IndexOutOfRange,
    /// The container still owns children.
    HasChildren,
}

/// Why an inbound message was refused.
#[derive(Clone, Copy, Debug, PartialEq, Eq, Structural)]
pub enum ProtocolFault {
    /// The frame is empty.
    Empty,
    /// The first byte names no request kind.
    UnknownRequest,
    /// The command byte names no command.
    UnknownCommand,
    /// A state byte names no window state.
    UnknownState,
    /// The event filter byte names no filter.
    UnknownFilter,
    /// The frame is shorter or longer than its request kind demands.
    BadLength,
    /// A container identifier does not fit the machine's address width.
    IdOutOfRange,
}

/// What went wrong with one client connection.
#[derive(Clone, Copy, Debug, PartialEq, Eq, Structural)]
pub enum ConnectionFault {
    /// The connection is not, or no longer, registered with the server.
    UnknownConnection,
    /// The server has stopped taking connections and requests.
    ShuttingDown,
    /// The request queue is full; the client has to wait.
    QueueFull,
}

/// Error of the control plane.
#[derive(Clone, Copy, Debug, PartialEq, Eq, Structural)]
pub enum WmError {
    /// A tree mutation would break the tree's structure.
    StructuralIntegrity(StructuralFault),
    /// The configuration forbids the requested window state.
    PolicyRejection(WindowState),
    /// An inbound message could not be decoded.
    Protocol(ProtocolFault),
    /// A connection is gone or cannot be served.
    Connection(ConnectionFault),
}

} // verus!

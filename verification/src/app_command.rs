//! The commands that change the state, and the one function that runs them.

use vstd::prelude::*;
use crate::commands::{
    ledger_after_update, toggle_fault, toggle_target, toggle_window_state, tree_after_toggle,
    tree_after_update, update_fault, update_window_state,
};
use crate::container::{ContainerId, ContainerTree, ContainerView};
use crate::error::{StructuralFault, WmError};
use crate::pending_sync::marked;
use crate::tree_model::{attached, detached};
use crate::user_config::UserConfig;
use crate::window_state::WindowState;
use crate::wm_event::WmEvent;
use crate::wm_state::WmState;

verus! {

/// A mutating operation, whoever asks for it. It carries what its execution
/// needs and nothing of the transport.
#[derive(Clone, Copy, Debug, PartialEq, Eq, Structural)]
pub enum InvokeCommand {
    ToggleFloating(ContainerId),
    ToggleFullscreen(ContainerId),
    ToggleMinimized(ContainerId),
    ToggleTiling(ContainerId),
    /// Puts a window into a state.
    SetState(ContainerId, WindowState),
    /// Moves a window to a position among the children of a container.
    MoveWindow { window: ContainerId, parent: ContainerId, index: usize },
}

impl InvokeCommand {
    /// The state a toggle command toggles; `None` for the other commands.
    pub open spec fn toggled_state(self) -> Option<(ContainerId, WindowState)> {
        match self {
            InvokeCommand::ToggleFloating(w) => Some((w, WindowState::Floating)),
            InvokeCommand::ToggleFullscreen(w) => Some((w, WindowState::Fullscreen)),
            InvokeCommand::ToggleMinimized(w) => Some((w, WindowState::Minimized)),
            InvokeCommand::ToggleTiling(w) => Some((w, WindowState::Tiling)),
            _ => None,
        }
    }
}

/// Why a command would be refused, if it would.
pub open spec fn command_fault(
    tree: &ContainerTree,
    command: InvokeCommand,
    config: UserConfig,
) -> Option<WmError> {
    match command {
        InvokeCommand::SetState(w, s) => update_fault(tree@, w, s, config),
        InvokeCommand::MoveWindow { window, parent, index } => {
            if !tree.has(window) {
                Some(WmError::StructuralIntegrity(StructuralFault::NoSuchNode))
            } else if tree.window(window) is None {
                Some(WmError::StructuralIntegrity(StructuralFault::NotAWindow))
            } else {
                match tree.move_fault(window, parent, index) {
                    Some(f) => Some(WmError::StructuralIntegrity(f)),
                    None => None,
                }
            }
        },
        _ => toggle_fault(
            tree@,
            command.toggled_state().unwrap().0,
            command.toggled_state().unwrap().1,
            config,
        ),
    }
}

/// The tree's model after a command that was not refused.
pub open spec fn tree_after_command(
    m: Map<ContainerId, ContainerView>,
    command: InvokeCommand,
) -> Map<ContainerId, ContainerView> {
    match command {
        InvokeCommand::SetState(w, s) => tree_after_update(m, w, s),
        InvokeCommand::MoveWindow { window, parent, index } => attached(
            detached(m, window),
            window,
            parent,
            index as int,
        ),
        _ => tree_after_toggle(
            m,
            command.toggled_state().unwrap().0,
            command.toggled_state().unwrap().1,
        ),
    }
}

/// The ledger after a command that was not refused: a toggle and a move
/// always mark the window, a plain update marks it only when it crosses
/// between tiling and non-tiling.
pub open spec fn ledger_after_command(
    m: Map<ContainerId, ContainerView>,
    ledger: Seq<ContainerId>,
    command: InvokeCommand,
) -> Seq<ContainerId> {
    match command {
        InvokeCommand::SetState(w, s) => ledger_after_update(
            ledger,
            w,
            m[w].window.unwrap().state,
            s,
        ),
        InvokeCommand::MoveWindow { window, .. } => marked(ledger, window),
        _ => marked(ledger, command.toggled_state().unwrap().0),
    }
}

/// The event of a window that was in `from` and is now in `to`: none if it
/// is the same state.
pub open spec fn state_change_events(
    window: ContainerId,
    from: WindowState,
    to: WindowState,
) -> Seq<WmEvent> {
    if from == to {
        Seq::empty()
    } else {
        seq![WmEvent::WindowStateChanged { window, from, to }]
    }
}

/// The events that a command that was not refused gives rise to, in the
/// order in which its changes were made.
pub open spec fn events_of_command(
    m: Map<ContainerId, ContainerView>,
    command: InvokeCommand,
) -> Seq<WmEvent> {
    match command {
        InvokeCommand::SetState(w, s) => state_change_events(w, m[w].window.unwrap().state, s),
        InvokeCommand::MoveWindow { window, parent, index } => seq![
            WmEvent::WindowMoved { window, parent, index },
        ],
        _ => {
            let w = command.toggled_state().unwrap().0;
            state_change_events(
                w,
                m[w].window.unwrap().state,
                toggle_target(m[w].window.unwrap(), command.toggled_state().unwrap().1),
            )
        },
    }
}

fn state_change(window: ContainerId, from: WindowState, to: WindowState) -> (events: Vec<WmEvent>)
    ensures
        events@ == state_change_events(window, from, to),
{
    let mut events: Vec<WmEvent> = Vec::new();
    if from != to {
        events.push(WmEvent::WindowStateChanged { window, from, to });
    }
    assert(events@ =~= state_change_events(window, from, to));
    events
}

fn run_toggle(
    window: ContainerId,
    requested: WindowState,
    state: &mut WmState,
    config: &UserConfig,
) -> (r: Result<Vec<WmEvent>, WmError>)
    requires
        old(state).wf(),
    ensures
        final(state).wf(),
        final(state).tree.issued() == old(state).tree.issued(),
        match toggle_fault(old(state).tree@, window, requested, *config) {
            Some(e) => r == Err::<Vec<WmEvent>, WmError>(e) && *final(state) == *old(state),
            None => {
                &&& r is Ok
                &&& r.unwrap()@ == state_change_events(
                    window,
                    old(state).tree.window(window).unwrap().state,
                    toggle_target(old(state).tree.window(window).unwrap(), requested),
                )
                &&& final(state).tree@ == tree_after_toggle(old(state).tree@, window, requested)
                &&& final(state).pending_sync@ == marked(old(state).pending_sync@, window)
            },
        },
{
    let before = state.tree.window_of(window);
    match toggle_window_state(window, requested, state, config) {
        Err(e) => Err(e),
        Ok(()) => {
            let after = state.tree.window_of(window);
            match (before, after) {
                (Some(b), Some(a)) => Ok(state_change(window, b.state, a.state)),
                _ => Ok(Vec::new()),
            }
        },
    }
}

/// Runs one command against the state. A refused command changes nothing
/// and gives rise to no event. A command that ran returns the events of the
/// changes it made, in the order in which it made them.
pub fn run_command(command: InvokeCommand, state: &mut WmState, config: &UserConfig) -> (r: Result<
    Vec<WmEvent>,
    WmError,
>)
    requires
        old(state).wf(),
    ensures
        final(state).wf(),
        final(state).tree.issued() == old(state).tree.issued(),
        match command_fault(&old(state).tree, command, *config) {
            Some(e) => r == Err::<Vec<WmEvent>, WmError>(e) && *final(state) == *old(state),
            None => {
                &&& r is Ok
                &&& r.unwrap()@ == events_of_command(old(state).tree@, command)
                &&& final(state).tree@ == tree_after_command(old(state).tree@, command)
                &&& final(state).pending_sync@ == ledger_after_command(
                    old(state).tree@,
                    old(state).pending_sync@,
                    command,
                )
            },
        },
{
    match command {
        InvokeCommand::ToggleFloating(w) => run_toggle(w, WindowState::Floating, state, config),
        InvokeCommand::ToggleFullscreen(w) => run_toggle(w, WindowState::Fullscreen, state, config),
        InvokeCommand::ToggleMinimized(w) => run_toggle(w, WindowState::Minimized, state, config),
        InvokeCommand::ToggleTiling(w) => run_toggle(w, WindowState::Tiling, state, config),
        InvokeCommand::SetState(w, s) => {
            let before = state.tree.window_of(w);
            match update_window_state(w, s, state, config) {
                Err(e) => Err(e),
                Ok(()) => {
                    match before {
                        Some(b) => Ok(state_change(w, b.state, s)),
                        None => Ok(Vec::new()),
                    }
                },
            }
        },
        InvokeCommand::MoveWindow { window, parent, index } => {
            if !state.tree.contains(window) {
                return Err(WmError::StructuralIntegrity(StructuralFault::NoSuchNode));
            }
            if state.tree.window_of(window).is_none() {
                return Err(WmError::StructuralIntegrity(StructuralFault::NotAWindow));
            }
            match state.tree.move_to(window, parent, index) {
                Err(e) => Err(e),
                Ok(()) => {
                    state.pending_sync.mark_for_redraw(window);
                    let mut events: Vec<WmEvent> = Vec::new();
                    events.push(WmEvent::WindowMoved { window, parent, index });
                    assert(events@ =~= events_of_command(old(state).tree@, command));
                    Ok(events)
                },
            }
        },
    }
}

} // verus!

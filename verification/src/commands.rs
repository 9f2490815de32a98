//! The window state machine: entering a state, and toggling between a state
//! and the one remembered before it.

use vstd::prelude::*;
use crate::container::{ContainerId, ContainerView, WindowContainer};
use crate::error::{StructuralFault, WmError};
use crate::pending_sync::{entries_of, lemma_marked_once, marked};
use crate::user_config::UserConfig;
use crate::window_state::{crosses_tiling_boundary, WindowState};
use crate::wm_state::WmState;

verus! {

/// A window after it entered `target`. Entering the state it is in changes
/// nothing. Entering a non-tiling state remembers the state it left;
/// entering tiling forgets what was remembered.
pub open spec fn window_after_update(w: WindowContainer, target: WindowState) -> WindowContainer {
    if w.state == target {
        w
    } else {
        WindowContainer {
            state: target,
            prev_state: if target.is_tiling() {
                None
            } else {
                Some(w.state)
            },
            handle: w.handle,
        }
    }
}

/// The state a toggle of `requested` leads to: `requested` itself for a
/// window outside it; for a window in it the remembered state, or tiling if
/// nothing is remembered.
pub open spec fn toggle_target(w: WindowContainer, requested: WindowState) -> WindowState {
    if w.state != requested {
        requested
    } else {
        match w.prev_state {
            Some(prev) => prev,
            None => WindowState::Tiling,
        }
    }
}

/// Why entering `target` would be refused, if it would: the container has to
/// exist and be a window, and unless the window is in `target` already the
/// policy has to permit `target`.
pub open spec fn update_fault(
    m: Map<ContainerId, ContainerView>,
    window: ContainerId,
    target: WindowState,
    config: UserConfig,
) -> Option<WmError> {
    if !m.dom().contains(window) {
        Some(WmError::StructuralIntegrity(StructuralFault::NoSuchNode))
    } else if m[window].window is None {
        Some(WmError::StructuralIntegrity(StructuralFault::NotAWindow))
    } else if m[window].window.unwrap().state == target {
        None
    } else if !config.permits(target) {
        Some(WmError::PolicyRejection(target))
    } else {
        None
    }
}

/// The tree's model after `window` entered `target`.
pub open spec fn tree_after_update(
    m: Map<ContainerId, ContainerView>,
    window: ContainerId,
    target: WindowState,
) -> Map<ContainerId, ContainerView> {
    m.insert(
        window,
        ContainerView {
            window: Some(window_after_update(m[window].window.unwrap(), target)),
            ..m[window]
        },
    )
}

/// The ledger after `window` went from `from` to `to` by an update: the
/// window is marked if the step crosses between tiling and non-tiling, and
/// the ledger is untouched otherwise.
pub open spec fn ledger_after_update(
    ledger: Seq<ContainerId>,
    window: ContainerId,
    from: WindowState,
    to: WindowState,
) -> Seq<ContainerId> {
    if crosses_tiling_boundary(from, to) {
        marked(ledger, window)
    } else {
        ledger
    }
}

/// Why a toggle of `requested` would be refused, if it would.
pub open spec fn toggle_fault(
    m: Map<ContainerId, ContainerView>,
    window: ContainerId,
    requested: WindowState,
    config: UserConfig,
) -> Option<WmError> {
    if !m.dom().contains(window) {
        Some(WmError::StructuralIntegrity(StructuralFault::NoSuchNode))
    } else if m[window].window is None {
        Some(WmError::StructuralIntegrity(StructuralFault::NotAWindow))
    } else {
        update_fault(m, window, toggle_target(m[window].window.unwrap(), requested), config)
    }
}

/// The tree's model after a toggle of `requested` on `window`.
pub open spec fn tree_after_toggle(
    m: Map<ContainerId, ContainerView>,
    window: ContainerId,
    requested: WindowState,
) -> Map<ContainerId, ContainerView> {
    tree_after_update(m, window, toggle_target(m[window].window.unwrap(), requested))
}

/// Puts a window into `target_state`. A window that is in `target_state`
/// stays as it is. Otherwise the policy is asked; if it permits, the window
/// enters the state, remembers the state it left unless it enters tiling,
/// and is marked for redraw if the step crosses between tiling and
/// non-tiling. A refused update changes nothing.
pub fn update_window_state(
    window: ContainerId,
    target_state: WindowState,
    state: &mut WmState,
    config: &UserConfig,
) -> (r: Result<(), WmError>)
    requires
        old(state).wf(),
    ensures
        final(state).wf(),
        final(state).tree.issued() == old(state).tree.issued(),
        match update_fault(old(state).tree@, window, target_state, *config) {
            Some(e) => r == Err::<(), WmError>(e) && *final(state) == *old(state),
            None => {
                &&& r is Ok
                &&& final(state).tree@ == tree_after_update(old(state).tree@, window, target_state)
                &&& final(state).pending_sync@ == ledger_after_update(
                    old(state).pending_sync@,
                    window,
                    old(state).tree.window(window).unwrap().state,
                    target_state,
                )
                &&& forall|a: ContainerId, x: ContainerId|
                    final(state).tree.is_ancestor_or_self(a, x) == old(
                        state,
                    ).tree.is_ancestor_or_self(a, x)
            },
        },
{
    if !state.tree.contains(window) {
        return Err(WmError::StructuralIntegrity(StructuralFault::NoSuchNode));
    }
    let current = match state.tree.window_of(window) {
        None => {
            return Err(WmError::StructuralIntegrity(StructuralFault::NotAWindow));
        },
        Some(w) => w,
    };
    if current.state == target_state {
        assert(state.tree@ =~= tree_after_update(state.tree@, window, target_state));
        return Ok(());
    }
    if !config.allows(target_state) {
        return Err(WmError::PolicyRejection(target_state));
    }
    let prev_state = if target_state.tiling() {
        None
    } else {
        Some(current.state)
    };
    state.tree.set_window_state(window, target_state, prev_state);
    if current.state.tiling() != target_state.tiling() {
        state.pending_sync.mark_for_redraw(window);
    }
    Ok(())
}

/// Toggles a window between `window_state` and what it was before: a window
/// outside `window_state` enters it; a window in it goes back to the
/// remembered state, or to tiling if nothing is remembered, and a tiling
/// window with nothing remembered stays as it is. The window is marked for
/// redraw whichever of these happened. A refused toggle changes nothing,
/// the ledger included.
pub fn toggle_window_state(
    window: ContainerId,
    window_state: WindowState,
    state: &mut WmState,
    config: &UserConfig,
) -> (r: Result<(), WmError>)
    requires
        old(state).wf(),
    ensures
        final(state).wf(),
        final(state).tree.issued() == old(state).tree.issued(),
        match toggle_fault(old(state).tree@, window, window_state, *config) {
            Some(e) => r == Err::<(), WmError>(e) && *final(state) == *old(state),
            None => {
                &&& r is Ok
                &&& final(state).tree@ == tree_after_toggle(old(state).tree@, window, window_state)
                &&& final(state).pending_sync@ == marked(old(state).pending_sync@, window)
                &&& forall|a: ContainerId, x: ContainerId|
                    final(state).tree.is_ancestor_or_self(a, x) == old(
                        state,
                    ).tree.is_ancestor_or_self(a, x)
            },
        },
{
    if !state.tree.contains(window) {
        return Err(WmError::StructuralIntegrity(StructuralFault::NoSuchNode));
    }
    let current = match state.tree.window_of(window) {
        None => {
            return Err(WmError::StructuralIntegrity(StructuralFault::NotAWindow));
        },
        Some(w) => w,
    };
    let outcome = if current.state != window_state {
        update_window_state(window, window_state, state, config)
    } else {
        match current.prev_state {
            Some(prev_state) => update_window_state(window, prev_state, state, config),
            None => {
                if !current.state.tiling() {
                    update_window_state(window, WindowState::Tiling, state, config)
                } else {
                    assert(state.tree@ =~= tree_after_toggle(state.tree@, window, window_state));
                    Ok(())
                }
            },
        }
    };
    match outcome {
        Err(e) => Err(e),
        Ok(()) => {
            proof {
                lemma_marked_once(old(state).pending_sync@, window);
            }
            state.pending_sync.mark_for_redraw(window);
            Ok(())
        },
    }
}

/// Toggling into a non-tiling state and toggling it again gives back the
/// state the window started from; what it then remembers is the toggled
/// state, or nothing if it started from tiling.
pub proof fn lemma_toggle_twice_restores_state(w: WindowContainer, s: WindowState)
    requires
        w.state != s,
        !s.is_tiling(),
    ensures
        ({
            let once = window_after_update(w, toggle_target(w, s));
            let twice = window_after_update(once, toggle_target(once, s));
            &&& once.state == s
            &&& once.prev_state == Some(w.state)
            &&& twice.state == w.state
            &&& twice.handle == w.handle
            &&& twice.prev_state == (if w.state.is_tiling() {
                None
            } else {
                Some(s)
            })
        }),
{
}

/// Round trip: two successful toggles of a non-tiling state `s`, on a window
/// that starts outside `s` and remembers what the way back leaves behind
/// (nothing for a tiling window, `s` for another), give back the tree as it
/// was, the remembered state included, and each of them leaves the window
/// marked for redraw.
pub proof fn lemma_toggle_round_trip(
    m: Map<ContainerId, ContainerView>,
    ledger: Seq<ContainerId>,
    window: ContainerId,
    s: WindowState,
    config: UserConfig,
)
    requires
        m.dom().contains(window),
        m[window].window is Some,
        m[window].window.unwrap().state != s,
        !s.is_tiling(),
        m[window].window.unwrap().prev_state == (if m[window].window.unwrap().state.is_tiling() {
            None
        } else {
            Some(s)
        }),
        toggle_fault(m, window, s, config) is None,
        toggle_fault(tree_after_toggle(m, window, s), window, s, config) is None,
        ledger.no_duplicates(),
    ensures
        tree_after_toggle(tree_after_toggle(m, window, s), window, s) == m,
        marked(ledger, window).contains(window),
        marked(marked(ledger, window), window).contains(window),
        entries_of(marked(marked(ledger, window), window), window) == 1,
{
    let w = m[window].window.unwrap();
    lemma_toggle_twice_restores_state(w, s);
    let once = tree_after_toggle(m, window, s);
    let twice = tree_after_toggle(once, window, s);
    assert(twice[window].window.unwrap() == w);
    assert(twice[window] == m[window]);
    assert(twice =~= m);
    lemma_marked_once(ledger, window);
    lemma_marked_once(marked(ledger, window), window);
}

/// A non-tiling window that remembers nothing goes to tiling when its own
/// state is toggled, whatever the policy.
pub proof fn lemma_toggle_without_memory_goes_tiling(
    m: Map<ContainerId, ContainerView>,
    window: ContainerId,
    config: UserConfig,
)
    requires
        m.dom().contains(window),
        m[window].window is Some,
        !m[window].window.unwrap().state.is_tiling(),
        m[window].window.unwrap().prev_state is None,
    ensures
        toggle_fault(m, window, m[window].window.unwrap().state, config) is None,
        tree_after_toggle(m, window, m[window].window.unwrap().state)[window].window == Some(
            WindowContainer {
                state: WindowState::Tiling,
                prev_state: None,
                handle: m[window].window.unwrap().handle,
            },
        ),
{
}

/// Toggling tiling on a tiling window that remembers nothing leaves the tree
/// as it is, whatever the policy, and still leaves the window marked for
/// redraw.
pub proof fn lemma_toggle_tiling_on_tiling_keeps_tree(
    m: Map<ContainerId, ContainerView>,
    ledger: Seq<ContainerId>,
    window: ContainerId,
    config: UserConfig,
)
    requires
        m.dom().contains(window),
        m[window].window is Some,
        m[window].window.unwrap().state.is_tiling(),
        m[window].window.unwrap().prev_state is None,
    ensures
        toggle_fault(m, window, WindowState::Tiling, config) is None,
        tree_after_toggle(m, window, WindowState::Tiling) == m,
        marked(ledger, window).contains(window),
{
    assert(tree_after_toggle(m, window, WindowState::Tiling) =~= m);
    if !ledger.contains(window) {
        assert(ledger.push(window)[ledger.len() as int] == window);
    }
}

/// An update that crosses between tiling and non-tiling leaves exactly one
/// redraw entry for the window; an update that stays on one side leaves the
/// ledger as it was.
pub proof fn lemma_update_redraw_entries(
    ledger: Seq<ContainerId>,
    window: ContainerId,
    from: WindowState,
    to: WindowState,
)
    requires
        ledger.no_duplicates(),
    ensures
        crosses_tiling_boundary(from, to) ==> entries_of(
            ledger_after_update(ledger, window, from, to),
            window,
        ) == 1,
        !crosses_tiling_boundary(from, to) ==> ledger_after_update(ledger, window, from, to)
            == ledger,
        ledger_after_update(ledger, window, from, to).no_duplicates(),
{
    lemma_marked_once(ledger, window);
}

/// An update keeps the window's invariant: what it remembers differs from
/// the state it is in.
pub proof fn lemma_update_keeps_window_wf(w: WindowContainer, target: WindowState)
    requires
        w.wf(),
    ensures
        window_after_update(w, target).wf(),
        window_after_update(w, target).state == target,
{
}

} // verus!

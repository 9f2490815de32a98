use wm::app_command::{run_command, InvokeCommand};
use wm::commands::{toggle_window_state, update_window_state};
use wm::container::{WindowContainer, ROOT};
use wm::error::{StructuralFault, WmError};
use wm::user_config::UserConfig;
use wm::window_state::WindowState;
use wm::wm_event::{EventFilter, WmEvent};
use wm::wm_state::WmState;

use WindowState::{Floating, Fullscreen, Minimized, Tiling};

const HANDLE: u64 = 7;

fn window(state: WindowState, prev_state: Option<WindowState>) -> Option<WindowContainer> {
    Some(WindowContainer { state, prev_state, handle: HANDLE })
}

fn state_with_window(initial: WindowState) -> (WmState, usize) {
    let mut state = WmState::new();
    let w = state.tree.add_window(HANDLE, initial);
    (state, w)
}

/// root -> monitor -> workspace -> [window a, window b]
fn state_with_layout() -> (WmState, usize, usize, usize) {
    let mut state = WmState::new();
    let m = state.tree.add_monitor();
    let ws = state.tree.add_workspace();
    let a = state.tree.add_window(HANDLE, Tiling);
    let b = state.tree.add_window(HANDLE, Tiling);
    assert_eq!(state.tree.attach(m, ROOT, 0), Ok(()));
    assert_eq!(state.tree.attach(ws, m, 0), Ok(()));
    assert_eq!(state.tree.attach(a, ws, 0), Ok(()));
    assert_eq!(state.tree.attach(b, ws, 1), Ok(()));
    (state, ws, a, b)
}

#[test]
fn toggle_floating_twice_from_tiling() {
    let (mut state, w) = state_with_window(Tiling);
    let config = UserConfig::permissive();
    assert_eq!(toggle_window_state(w, Floating, &mut state, &config), Ok(()));
    assert_eq!(state.tree.window_of(w), window(Floating, Some(Tiling)));
    assert!(state.pending_sync.is_marked(w));
    assert_eq!(state.pending_sync.len(), 1);
    assert_eq!(toggle_window_state(w, Floating, &mut state, &config), Ok(()));
    assert_eq!(state.tree.window_of(w), window(Tiling, None));
    assert!(state.pending_sync.is_marked(w));
    assert_eq!(state.pending_sync.len(), 1);
    assert_eq!(state.pending_sync.drain(), vec![w]);
}

#[test]
fn toggle_round_trip_restores_state_and_memory() {
    for s in [Floating, Minimized, Fullscreen] {
        let (mut state, w) = state_with_window(Tiling);
        let config = UserConfig::permissive();
        let before = state.tree.window_of(w);
        assert_eq!(toggle_window_state(w, s, &mut state, &config), Ok(()));
        assert!(state.pending_sync.is_marked(w));
        assert_eq!(state.pending_sync.drain(), vec![w]);
        assert_eq!(toggle_window_state(w, s, &mut state, &config), Ok(()));
        assert_eq!(state.tree.window_of(w), before);
        assert_eq!(state.pending_sync.drain(), vec![w]);
    }
}

#[test]
fn toggle_round_trip_between_non_tiling_states() {
    let (mut state, w) = state_with_window(Fullscreen);
    let config = UserConfig::permissive();
    assert_eq!(update_window_state(w, Floating, &mut state, &config), Ok(()));
    let before = state.tree.window_of(w);
    assert_eq!(before, window(Floating, Some(Fullscreen)));
    assert_eq!(toggle_window_state(w, Fullscreen, &mut state, &config), Ok(()));
    assert_eq!(state.tree.window_of(w), window(Fullscreen, Some(Floating)));
    assert_eq!(toggle_window_state(w, Fullscreen, &mut state, &config), Ok(()));
    assert_eq!(state.tree.window_of(w), before);
}

#[test]
fn toggle_own_state_without_memory_goes_tiling() {
    for s in [Floating, Minimized, Fullscreen] {
        let (mut state, w) = state_with_window(s);
        let config = UserConfig { allow_floating: false, allow_minimized: false, allow_fullscreen: false };
        assert_eq!(toggle_window_state(w, s, &mut state, &config), Ok(()));
        assert_eq!(state.tree.window_of(w), window(Tiling, None));
        assert_eq!(state.pending_sync.drain(), vec![w]);
    }
}

#[test]
fn toggle_tiling_on_tiling_is_a_no_op_that_marks() {
    let (mut state, _ws, a, b) = state_with_layout();
    let config = UserConfig::permissive();
    let shape = state.tree.traverse(ROOT);
    assert_eq!(toggle_window_state(a, Tiling, &mut state, &config), Ok(()));
    assert_eq!(state.tree.window_of(a), window(Tiling, None));
    assert_eq!(state.tree.window_of(b), window(Tiling, None));
    assert_eq!(state.tree.traverse(ROOT), shape);
    assert_eq!(state.pending_sync.drain(), vec![a]);
}

#[test]
fn memory_is_one_slot_not_a_stack() {
    let (mut state, w) = state_with_window(Tiling);
    let config = UserConfig::permissive();
    assert_eq!(toggle_window_state(w, Floating, &mut state, &config), Ok(()));
    assert_eq!(toggle_window_state(w, Fullscreen, &mut state, &config), Ok(()));
    assert_eq!(state.tree.window_of(w), window(Fullscreen, Some(Floating)));
    assert_eq!(toggle_window_state(w, Fullscreen, &mut state, &config), Ok(()));
    assert_eq!(state.tree.window_of(w), window(Floating, Some(Fullscreen)));
}

#[test]
fn toggle_tiling_from_floating_does_not_come_back() {
    let (mut state, w) = state_with_window(Tiling);
    let config = UserConfig::permissive();
    assert_eq!(update_window_state(w, Floating, &mut state, &config), Ok(()));
    assert_eq!(toggle_window_state(w, Tiling, &mut state, &config), Ok(()));
    assert_eq!(state.tree.window_of(w), window(Tiling, None));
    assert_eq!(toggle_window_state(w, Tiling, &mut state, &config), Ok(()));
    assert_eq!(state.tree.window_of(w), window(Tiling, None));
}

#[test]
fn update_across_the_tiling_boundary_marks_once() {
    let (mut state, w) = state_with_window(Tiling);
    let config = UserConfig::permissive();
    assert_eq!(update_window_state(w, Floating, &mut state, &config), Ok(()));
    assert_eq!(state.tree.window_of(w), window(Floating, Some(Tiling)));
    assert_eq!(state.pending_sync.len(), 1);
    assert!(state.pending_sync.is_marked(w));
    assert_eq!(update_window_state(w, Tiling, &mut state, &config), Ok(()));
    assert_eq!(state.tree.window_of(w), window(Tiling, None));
    assert_eq!(state.pending_sync.drain(), vec![w]);
    assert_eq!(update_window_state(w, Minimized, &mut state, &config), Ok(()));
    assert_eq!(state.pending_sync.drain(), vec![w]);
}

#[test]
fn update_within_non_tiling_states_marks_nothing() {
    let (mut state, w) = state_with_window(Floating);
    let config = UserConfig::permissive();
    assert_eq!(update_window_state(w, Fullscreen, &mut state, &config), Ok(()));
    assert_eq!(state.tree.window_of(w), window(Fullscreen, Some(Floating)));
    assert_eq!(state.pending_sync.len(), 0);
    assert_eq!(update_window_state(w, Minimized, &mut state, &config), Ok(()));
    assert_eq!(state.tree.window_of(w), window(Minimized, Some(Fullscreen)));
    assert_eq!(state.pending_sync.len(), 0);
}

#[test]
fn update_to_the_current_state_changes_nothing() {
    let (mut state, w) = state_with_window(Tiling);
    let strict = UserConfig { allow_floating: false, allow_minimized: false, allow_fullscreen: false };
    let config = UserConfig::permissive();
    assert_eq!(update_window_state(w, Floating, &mut state, &config), Ok(()));
    let _ = state.pending_sync.drain();
    assert_eq!(update_window_state(w, Floating, &mut state, &strict), Ok(()));
    assert_eq!(state.tree.window_of(w), window(Floating, Some(Tiling)));
    assert_eq!(state.pending_sync.len(), 0);
}

#[test]
fn policy_rejection_leaves_the_state_as_it_was() {
    let (mut state, w) = state_with_window(Tiling);
    let config = UserConfig { allow_floating: true, allow_minimized: false, allow_fullscreen: false };
    assert_eq!(
        update_window_state(w, Fullscreen, &mut state, &config),
        Err(WmError::PolicyRejection(Fullscreen))
    );
    assert_eq!(
        toggle_window_state(w, Minimized, &mut state, &config),
        Err(WmError::PolicyRejection(Minimized))
    );
    assert_eq!(state.tree.window_of(w), window(Tiling, None));
    assert_eq!(state.pending_sync.len(), 0);
    assert_eq!(toggle_window_state(w, Floating, &mut state, &config), Ok(()));
    assert_eq!(state.tree.window_of(w), window(Floating, Some(Tiling)));
}

#[test]
fn toggle_back_is_refused_where_the_remembered_state_is_forbidden() {
    let (mut state, w) = state_with_window(Fullscreen);
    let config = UserConfig::permissive();
    assert_eq!(update_window_state(w, Floating, &mut state, &config), Ok(()));
    let _ = state.pending_sync.drain();
    let strict = UserConfig { allow_floating: true, allow_minimized: true, allow_fullscreen: false };
    assert_eq!(
        toggle_window_state(w, Floating, &mut state, &strict),
        Err(WmError::PolicyRejection(Fullscreen))
    );
    assert_eq!(state.tree.window_of(w), window(Floating, Some(Fullscreen)));
    assert_eq!(state.pending_sync.len(), 0);
}

#[test]
fn commands_on_what_is_no_window_are_refused() {
    let (mut state, ws, _a, _b) = state_with_layout();
    let config = UserConfig::permissive();
    let not_a_window = Err(WmError::StructuralIntegrity(StructuralFault::NotAWindow));
    let no_such_node = Err(WmError::StructuralIntegrity(StructuralFault::NoSuchNode));
    assert_eq!(update_window_state(ws, Floating, &mut state, &config), not_a_window);
    assert_eq!(toggle_window_state(ROOT, Floating, &mut state, &config), not_a_window);
    assert_eq!(update_window_state(99, Floating, &mut state, &config), no_such_node);
    assert_eq!(toggle_window_state(99, Tiling, &mut state, &config), no_such_node);
    assert_eq!(state.pending_sync.len(), 0);
}

#[test]
fn policy_permits_what_it_allows() {
    let config = UserConfig { allow_floating: true, allow_minimized: false, allow_fullscreen: true };
    assert!(config.allows(Tiling));
    assert!(config.allows(Floating));
    assert!(!config.allows(Minimized));
    assert!(config.allows(Fullscreen));
    assert!(Tiling.tiling());
    assert!(!Floating.tiling());
}

#[test]
fn toggle_commands_report_the_change() {
    let (mut state, w) = state_with_window(Tiling);
    let config = UserConfig::permissive();
    assert_eq!(
        run_command(InvokeCommand::ToggleFloating(w), &mut state, &config),
        Ok(vec![WmEvent::WindowStateChanged { window: w, from: Tiling, to: Floating }])
    );
    assert_eq!(
        run_command(InvokeCommand::ToggleFullscreen(w), &mut state, &config),
        Ok(vec![WmEvent::WindowStateChanged { window: w, from: Floating, to: Fullscreen }])
    );
    assert_eq!(
        run_command(InvokeCommand::ToggleMinimized(w), &mut state, &config),
        Ok(vec![WmEvent::WindowStateChanged { window: w, from: Fullscreen, to: Minimized }])
    );
    assert_eq!(
        run_command(InvokeCommand::ToggleTiling(w), &mut state, &config),
        Ok(vec![WmEvent::WindowStateChanged { window: w, from: Minimized, to: Tiling }])
    );
    assert_eq!(state.tree.window_of(w), window(Tiling, None));
}

#[test]
fn command_without_change_reports_no_event() {
    let (mut state, w) = state_with_window(Tiling);
    let config = UserConfig::permissive();
    assert_eq!(run_command(InvokeCommand::ToggleTiling(w), &mut state, &config), Ok(vec![]));
    assert_eq!(state.pending_sync.drain(), vec![w]);
    assert_eq!(
        run_command(InvokeCommand::SetState(w, Tiling), &mut state, &config),
        Ok(vec![])
    );
    assert_eq!(state.pending_sync.len(), 0);
}

#[test]
fn set_state_command_follows_update() {
    let (mut state, w) = state_with_window(Floating);
    let config = UserConfig::permissive();
    assert_eq!(
        run_command(InvokeCommand::SetState(w, Fullscreen), &mut state, &config),
        Ok(vec![WmEvent::WindowStateChanged { window: w, from: Floating, to: Fullscreen }])
    );
    assert_eq!(state.pending_sync.len(), 0);
    assert_eq!(state.tree.window_of(w), window(Fullscreen, Some(Floating)));
}

#[test]
fn refused_command_reports_the_error_and_changes_nothing() {
    let (mut state, ws, a, _b) = state_with_layout();
    let config = UserConfig { allow_floating: false, allow_minimized: true, allow_fullscreen: true };
    assert_eq!(
        run_command(InvokeCommand::ToggleFloating(a), &mut state, &config),
        Err(WmError::PolicyRejection(Floating))
    );
    assert_eq!(
        run_command(InvokeCommand::ToggleFloating(ws), &mut state, &config),
        Err(WmError::StructuralIntegrity(StructuralFault::NotAWindow))
    );
    assert_eq!(
        run_command(InvokeCommand::MoveWindow { window: a, parent: ROOT, index: 0 }, &mut state, &config),
        Err(WmError::StructuralIntegrity(StructuralFault::KindMismatch))
    );
    assert_eq!(
        run_command(InvokeCommand::MoveWindow { window: ws, parent: 1, index: 0 }, &mut state, &config),
        Err(WmError::StructuralIntegrity(StructuralFault::NotAWindow))
    );
    assert_eq!(
        run_command(InvokeCommand::MoveWindow { window: 99, parent: ws, index: 0 }, &mut state, &config),
        Err(WmError::StructuralIntegrity(StructuralFault::NoSuchNode))
    );
    assert_eq!(state.tree.window_of(a), window(Tiling, None));
    assert_eq!(state.tree.children_of(ws), vec![a, a + 1]);
    assert_eq!(state.pending_sync.len(), 0);
}

#[test]
fn move_command_moves_marks_and_reports() {
    let (mut state, ws, a, b) = state_with_layout();
    let config = UserConfig::permissive();
    assert_eq!(
        run_command(InvokeCommand::MoveWindow { window: b, parent: ws, index: 0 }, &mut state, &config),
        Ok(vec![WmEvent::WindowMoved { window: b, parent: ws, index: 0 }])
    );
    assert_eq!(state.tree.children_of(ws), vec![b, a]);
    assert_eq!(state.pending_sync.drain(), vec![b]);
}

#[test]
fn filters_admit_their_kind_of_event() {
    let changed = WmEvent::WindowStateChanged { window: 1, from: Tiling, to: Floating };
    let moved = WmEvent::WindowMoved { window: 1, parent: 2, index: 0 };
    assert!(EventFilter::All.lets_through(&changed));
    assert!(EventFilter::All.lets_through(&moved));
    assert!(EventFilter::WindowState.lets_through(&changed));
    assert!(!EventFilter::WindowState.lets_through(&moved));
    assert!(!EventFilter::Tree.lets_through(&changed));
    assert!(EventFilter::Tree.lets_through(&moved));
}

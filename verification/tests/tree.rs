use wm::container::{may_own, ContainerKind, ContainerTree, WindowContainer, ROOT};
use wm::error::{StructuralFault, WmError};
use wm::pending_sync::PendingSync;
use wm::snapshot::{snapshot, ContainerRecord};
use wm::window_state::WindowState;

use ContainerKind::{Monitor, Root, Split, Window, Workspace};

fn fault(f: StructuralFault) -> Result<(), WmError> {
    Err(WmError::StructuralIntegrity(f))
}

/// root(0) -> monitor(1) -> workspace(2) -> [split(3) -> [window(4)], window(5)]
fn sample() -> ContainerTree {
    let mut t = ContainerTree::new();
    let m = t.add_monitor();
    let ws = t.add_workspace();
    let s = t.add_split();
    let a = t.add_window(10, WindowState::Tiling);
    let b = t.add_window(11, WindowState::Floating);
    assert_eq!((m, ws, s, a, b), (1, 2, 3, 4, 5));
    assert_eq!(t.attach(m, ROOT, 0), Ok(()));
    assert_eq!(t.attach(ws, m, 0), Ok(()));
    assert_eq!(t.attach(s, ws, 0), Ok(()));
    assert_eq!(t.attach(a, s, 0), Ok(()));
    assert_eq!(t.attach(b, ws, 1), Ok(()));
    t
}

#[test]
fn new_tree_holds_the_root_alone() {
    let t = ContainerTree::new();
    assert_eq!(t.root(), ROOT);
    assert!(t.contains(ROOT));
    assert!(!t.contains(1));
    assert_eq!(t.kind_of(ROOT), Some(ContainerKind::Root));
    assert_eq!(t.parent_of(ROOT), None);
    assert_eq!(t.children_of(ROOT), Vec::<usize>::new());
    assert_eq!(t.kind_of(1), None);
    assert_eq!(t.traverse(ROOT), vec![ROOT]);
}

#[test]
fn created_containers_are_detached() {
    let mut t = ContainerTree::new();
    let m = t.add_monitor();
    let w = t.add_window(42, WindowState::Minimized);
    assert_eq!(t.parent_of(m), None);
    assert_eq!(t.kind_of(m), Some(ContainerKind::Monitor));
    assert_eq!(t.kind_of(w), Some(ContainerKind::Window));
    assert_eq!(
        t.window_of(w),
        Some(WindowContainer { state: WindowState::Minimized, prev_state: None, handle: 42 })
    );
    assert_eq!(t.window_of(m), None);
    assert_eq!(t.children_of(ROOT), Vec::<usize>::new());
}

#[test]
fn attach_links_parent_and_child() {
    let t = sample();
    assert_eq!(t.parent_of(1), Some(ROOT));
    assert_eq!(t.parent_of(2), Some(1));
    assert_eq!(t.parent_of(3), Some(2));
    assert_eq!(t.parent_of(4), Some(3));
    assert_eq!(t.parent_of(5), Some(2));
    assert_eq!(t.children_of(ROOT), vec![1]);
    assert_eq!(t.children_of(2), vec![3, 5]);
    assert_eq!(t.children_of(3), vec![4]);
}

#[test]
fn every_child_names_its_owner_as_parent() {
    let t = sample();
    for p in 0..6 {
        for c in t.children_of(p) {
            assert_eq!(t.parent_of(c), Some(p));
        }
    }
}

#[test]
fn attach_inserts_at_the_position_asked_for() {
    let mut t = sample();
    let x = t.add_window(12, WindowState::Tiling);
    let y = t.add_split();
    assert_eq!(t.attach(x, 2, 1), Ok(()));
    assert_eq!(t.children_of(2), vec![3, x, 5]);
    assert_eq!(t.attach(y, 2, 0), Ok(()));
    assert_eq!(t.children_of(2), vec![y, 3, x, 5]);
}

#[test]
fn attach_below_own_descendant_is_refused() {
    let mut t = ContainerTree::new();
    let outer = t.add_split();
    let inner = t.add_split();
    let innermost = t.add_split();
    assert_eq!(t.attach(inner, outer, 0), Ok(()));
    assert_eq!(t.attach(innermost, inner, 0), Ok(()));
    assert_eq!(t.attach(outer, innermost, 0), fault(StructuralFault::WouldCycle));
    assert_eq!(t.attach(outer, inner, 0), fault(StructuralFault::WouldCycle));
    assert_eq!(t.attach(outer, outer, 0), fault(StructuralFault::WouldCycle));
    assert_eq!(t.parent_of(outer), None);
    assert_eq!(t.children_of(innermost), Vec::<usize>::new());
    assert!(t.is_ancestor_or_self_of(outer, innermost));
    assert!(!t.is_ancestor_or_self_of(innermost, outer));
}

#[test]
fn attach_refusals_change_nothing() {
    let mut t = sample();
    let spare = t.add_window(13, WindowState::Tiling);
    assert_eq!(t.attach(99, 2, 0), fault(StructuralFault::NoSuchNode));
    assert_eq!(t.attach(spare, 99, 0), fault(StructuralFault::NoSuchNode));
    assert_eq!(t.attach(5, 3, 0), fault(StructuralFault::AlreadyAttached));
    assert_eq!(t.attach(spare, 1, 0), fault(StructuralFault::KindMismatch));
    assert_eq!(t.attach(spare, 4, 0), fault(StructuralFault::KindMismatch));
    assert_eq!(t.attach(spare, 2, 3), fault(StructuralFault::IndexOutOfRange));
    assert_eq!(t.attach(ROOT, 3, 0), fault(StructuralFault::WouldCycle));
    let lone = t.add_split();
    assert_eq!(t.attach(ROOT, lone, 0), fault(StructuralFault::KindMismatch));
    assert_eq!(t.parent_of(spare), None);
    assert_eq!(t.children_of(2), vec![3, 5]);
    assert_eq!(t.traverse(ROOT), vec![0, 1, 2, 3, 4, 5]);
}

#[test]
fn kinds_own_what_the_hierarchy_allows() {
    assert!(may_own(Root, Monitor));
    assert!(!may_own(Root, Workspace));
    assert!(may_own(Monitor, Workspace));
    assert!(!may_own(Monitor, Window));
    assert!(may_own(Workspace, Split));
    assert!(may_own(Workspace, Window));
    assert!(may_own(Split, Split));
    assert!(may_own(Split, Window));
    assert!(!may_own(Split, Workspace));
    assert!(!may_own(Window, Window));
    assert!(!may_own(Monitor, Root));
}

#[test]
fn detach_leaves_the_subtree_together() {
    let mut t = sample();
    assert_eq!(t.detach(3), Ok(()));
    assert_eq!(t.parent_of(3), None);
    assert_eq!(t.children_of(3), vec![4]);
    assert_eq!(t.parent_of(4), Some(3));
    assert_eq!(t.children_of(2), vec![5]);
    assert_eq!(t.traverse(ROOT), vec![0, 1, 2, 5]);
    assert_eq!(t.traverse(3), vec![3, 4]);
}

#[test]
fn detach_of_root_is_refused() {
    let mut t = sample();
    assert_eq!(t.detach(ROOT), fault(StructuralFault::RootImmovable));
    assert_eq!(t.detach(77), fault(StructuralFault::NoSuchNode));
    assert_eq!(t.children_of(ROOT), vec![1]);
}

#[test]
fn detach_of_a_parentless_container_changes_nothing() {
    let mut t = sample();
    let spare = t.add_split();
    assert_eq!(t.detach(spare), Ok(()));
    assert_eq!(t.parent_of(spare), None);
    assert_eq!(t.traverse(ROOT), vec![0, 1, 2, 3, 4, 5]);
}

#[test]
fn detached_container_can_be_attached_again() {
    let mut t = sample();
    assert_eq!(t.detach(5), Ok(()));
    assert_eq!(t.attach(5, 3, 0), Ok(()));
    assert_eq!(t.children_of(3), vec![5, 4]);
    assert_eq!(t.children_of(2), vec![3]);
    assert_eq!(t.traverse(ROOT), vec![0, 1, 2, 3, 5, 4]);
}

#[test]
fn replace_in_place_keeps_sibling_order() {
    let mut t = sample();
    let fresh = t.add_window(20, WindowState::Fullscreen);
    assert_eq!(t.replace_in_place(3, fresh), Ok(()));
    assert_eq!(t.children_of(2), vec![fresh, 5]);
    assert_eq!(t.parent_of(fresh), Some(2));
    assert_eq!(t.parent_of(3), None);
    assert_eq!(t.children_of(3), vec![4]);
}

#[test]
fn replace_in_place_refusals() {
    let mut t = sample();
    let fresh = t.add_window(20, WindowState::Tiling);
    let spare = t.add_split();
    let monitor = t.add_monitor();
    assert_eq!(t.replace_in_place(99, fresh), fault(StructuralFault::NoSuchNode));
    assert_eq!(t.replace_in_place(3, 99), fault(StructuralFault::NoSuchNode));
    assert_eq!(t.replace_in_place(ROOT, fresh), fault(StructuralFault::RootImmovable));
    assert_eq!(t.replace_in_place(spare, fresh), fault(StructuralFault::NotAttached));
    assert_eq!(t.replace_in_place(3, 5), fault(StructuralFault::AlreadyAttached));
    assert_eq!(t.replace_in_place(3, monitor), fault(StructuralFault::KindMismatch));
    assert_eq!(t.traverse(ROOT), vec![0, 1, 2, 3, 4, 5]);
}

#[test]
fn replace_in_place_refuses_a_cycle() {
    let mut t = ContainerTree::new();
    let top = t.add_split();
    let mid = t.add_split();
    let leaf = t.add_window(1, WindowState::Tiling);
    assert_eq!(t.attach(mid, top, 0), Ok(()));
    assert_eq!(t.attach(leaf, mid, 0), Ok(()));
    assert_eq!(t.replace_in_place(leaf, top), fault(StructuralFault::WouldCycle));
    assert_eq!(t.children_of(mid), vec![leaf]);
    assert_eq!(t.parent_of(top), None);
}

#[test]
fn remove_destroys_a_leaf() {
    let mut t = sample();
    assert_eq!(t.remove(5), Ok(()));
    assert!(!t.contains(5));
    assert_eq!(t.kind_of(5), None);
    assert_eq!(t.children_of(2), vec![3]);
    assert_eq!(t.attach(5, 2, 0), fault(StructuralFault::NoSuchNode));
    let next = t.add_window(30, WindowState::Tiling);
    assert_eq!(next, 6);
}

#[test]
fn remove_refusals() {
    let mut t = sample();
    assert_eq!(t.remove(ROOT), fault(StructuralFault::RootImmovable));
    assert_eq!(t.remove(3), fault(StructuralFault::HasChildren));
    assert_eq!(t.remove(99), fault(StructuralFault::NoSuchNode));
    assert_eq!(t.traverse(ROOT), vec![0, 1, 2, 3, 4, 5]);
    assert_eq!(t.remove(4), Ok(()));
    assert_eq!(t.remove(3), Ok(()));
    assert_eq!(t.traverse(ROOT), vec![0, 1, 2, 5]);
}

#[test]
fn move_to_reorders_siblings() {
    let mut t = sample();
    assert_eq!(t.move_to(5, 2, 0), Ok(()));
    assert_eq!(t.children_of(2), vec![5, 3]);
    assert_eq!(t.move_to(5, 2, 1), Ok(()));
    assert_eq!(t.children_of(2), vec![3, 5]);
    assert_eq!(t.move_to(5, 2, 2), fault(StructuralFault::IndexOutOfRange));
    assert_eq!(t.children_of(2), vec![3, 5]);
}

#[test]
fn move_to_changes_the_parent() {
    let mut t = sample();
    assert_eq!(t.move_to(5, 3, 1), Ok(()));
    assert_eq!(t.children_of(3), vec![4, 5]);
    assert_eq!(t.children_of(2), vec![3]);
    assert_eq!(t.parent_of(5), Some(3));
    assert_eq!(t.move_to(3, 3, 0), fault(StructuralFault::WouldCycle));
    assert_eq!(t.move_to(ROOT, 3, 0), fault(StructuralFault::RootImmovable));
    assert_eq!(t.move_to(5, 1, 0), fault(StructuralFault::KindMismatch));
    assert_eq!(t.move_to(5, 99, 0), fault(StructuralFault::NoSuchNode));
}

#[test]
fn traverse_is_depth_first_pre_order() {
    let mut t = sample();
    let s2 = t.add_split();
    let c = t.add_window(14, WindowState::Tiling);
    let d = t.add_window(15, WindowState::Tiling);
    assert_eq!(t.attach(s2, 3, 0), Ok(()));
    assert_eq!(t.attach(c, s2, 0), Ok(()));
    assert_eq!(t.attach(d, s2, 1), Ok(()));
    assert_eq!(t.traverse(ROOT), vec![0, 1, 2, 3, s2, c, d, 4, 5]);
    assert_eq!(t.traverse(3), vec![3, s2, c, d, 4]);
    assert_eq!(t.traverse(99), Vec::<usize>::new());
    let mut out = vec![7];
    t.collect_preorder(s2, &mut out);
    assert_eq!(out, vec![7, s2, c, d]);
}

#[test]
fn child_accessors_follow_sibling_order() {
    let t = sample();
    assert_eq!(t.child_count(2), 2);
    assert_eq!(t.child_at(2, 0), 3);
    assert_eq!(t.child_at(2, 1), 5);
}

#[test]
fn snapshot_lists_one_kind_in_pre_order() {
    let t = sample();
    assert_eq!(
        snapshot(&t, ContainerKind::Window),
        vec![
            ContainerRecord {
                id: 4,
                kind: ContainerKind::Window,
                parent: Some(3),
                child_count: 0,
                window: Some(WindowContainer {
                    state: WindowState::Tiling,
                    prev_state: None,
                    handle: 10
                }),
            },
            ContainerRecord {
                id: 5,
                kind: ContainerKind::Window,
                parent: Some(2),
                child_count: 0,
                window: Some(WindowContainer {
                    state: WindowState::Floating,
                    prev_state: None,
                    handle: 11
                }),
            },
        ]
    );
    assert_eq!(
        snapshot(&t, ContainerKind::Monitor),
        vec![ContainerRecord {
            id: 1,
            kind: ContainerKind::Monitor,
            parent: Some(0),
            child_count: 1,
            window: None,
        }]
    );
}

#[test]
fn snapshot_leaves_out_detached_containers() {
    let mut t = sample();
    let _stray = t.add_window(50, WindowState::Tiling);
    assert_eq!(snapshot(&t, ContainerKind::Window).len(), 2);
    assert_eq!(t.detach(3), Ok(()));
    assert_eq!(snapshot(&t, ContainerKind::Window).len(), 1);
}

#[test]
fn ledger_records_each_container_once() {
    let mut ledger = PendingSync::new();
    assert_eq!(ledger.len(), 0);
    ledger.mark_for_redraw(4);
    ledger.mark_for_redraw(2);
    ledger.mark_for_redraw(4);
    assert_eq!(ledger.len(), 2);
    assert!(ledger.is_marked(4));
    assert!(ledger.is_marked(2));
    assert!(!ledger.is_marked(3));
}

#[test]
fn drain_hands_out_and_clears() {
    let mut ledger = PendingSync::new();
    ledger.mark_for_redraw(9);
    ledger.mark_for_redraw(1);
    ledger.mark_for_redraw(9);
    assert_eq!(ledger.drain(), vec![9, 1]);
    assert_eq!(ledger.len(), 0);
    assert!(!ledger.is_marked(9));
    assert_eq!(ledger.drain(), Vec::<usize>::new());
}

#[test]
fn traversal_lists_exactly_what_lies_below_once() {
    let mut t = sample();
    let stray = t.add_split();
    let stray_leaf = t.add_window(60, WindowState::Tiling);
    assert_eq!(t.attach(stray_leaf, stray, 0), Ok(()));
    for x in 0..8 {
        let seen = t.traverse(x);
        for e in 0..8 {
            assert_eq!(seen.contains(&e), t.is_ancestor_or_self_of(x, e), "{} below {}", e, x);
            assert!(seen.iter().filter(|s| **s == e).count() <= 1);
        }
    }
    assert_eq!(t.traverse(stray), vec![stray, stray_leaf]);
}

#[test]
fn no_two_containers_lie_above_each_other() {
    let t = sample();
    for a in 0..6 {
        for x in 0..6 {
            if a != x {
                assert!(!(t.is_ancestor_or_self_of(a, x) && t.is_ancestor_or_self_of(x, a)));
            }
        }
        assert!(t.is_ancestor_or_self_of(a, a));
        assert!(t.is_ancestor_or_self_of(ROOT, a));
    }
    assert!(t.is_ancestor_or_self_of(2, 4));
    assert!(!t.is_ancestor_or_self_of(3, 5));
}

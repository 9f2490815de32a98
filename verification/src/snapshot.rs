//! Read-only snapshots of the tree for query replies.

use vstd::prelude::*;
use crate::container::{
    ContainerId, ContainerKind, ContainerTree, ContainerView, WindowContainer, ROOT,
};

verus! {

/// What a query reply says of one container.
#[derive(Clone, Copy, Debug, PartialEq, Eq)]
pub struct ContainerRecord {
    pub id: ContainerId,
    pub kind: ContainerKind,
    pub parent: Option<ContainerId>,
    pub child_count: usize,
    pub window: Option<WindowContainer>,
}

/// The record of an existing container.
pub open spec fn record_of(m: Map<ContainerId, ContainerView>, id: ContainerId) -> ContainerRecord {
    ContainerRecord {
        id,
        kind: m[id].kind,
        parent: m[id].parent,
        child_count: m[id].children.len() as usize,
        window: m[id].window,
    }
}

/// The records of those of `ids` that exist and are of the given kind, in the
/// order of `ids`.
pub open spec fn records_of_kind(
    m: Map<ContainerId, ContainerView>,
    ids: Seq<ContainerId>,
    kind: ContainerKind,
) -> Seq<ContainerRecord>
    decreases ids.len(),
{
    if ids.len() == 0 {
        Seq::empty()
    } else {
        let front = records_of_kind(m, ids.drop_last(), kind);
        if m.dom().contains(ids.last()) && m[ids.last()].kind == kind {
            front.push(record_of(m, ids.last()))
        } else {
            front
        }
    }
}

/// The records of all containers of one kind that hang below the root, in
/// depth-first pre-order.
pub fn snapshot(tree: &ContainerTree, kind: ContainerKind) -> (records: Vec<ContainerRecord>)
    requires
        tree.wf(),
    ensures
        records@ == records_of_kind(tree@, tree.preorder(ROOT), kind),
{
    let ids = tree.traverse(ROOT);
    let mut records: Vec<ContainerRecord> = Vec::new();
    let mut i: usize = 0;
    while i < ids.len()
        invariant
            i <= ids.len(),
            records@ == records_of_kind(tree@, ids@.take(i as int), kind),
        decreases ids.len() - i,
    {
        let id = ids[i];
        proof {
            assert(ids@.take(i + 1).drop_last() =~= ids@.take(i as int));
            assert(ids@.take(i + 1).last() == id);
        }
        if tree.contains(id) {
            match tree.kind_of(id) {
                Some(k) => {
                    if k == kind {
                        records.push(
                            ContainerRecord {
                                id,
                                kind: k,
                                parent: tree.parent_of(id),
                                child_count: tree.child_count(id),
                                window: tree.window_of(id),
                            },
                        );
                    }
                },
                None => {},
            }
        }
        i += 1;
    }
    assert(ids@.take(ids.len() as int) =~= ids@);
    records
}

} // verus!

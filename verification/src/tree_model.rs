//! The tree's mutations as functions on its model, and the proofs that each
//! of them keeps the structural invariants.

use vstd::prelude::*;
use crate::container::{kind_may_own, tree_wf, ContainerId, ContainerView, ROOT};

verus! {

/// The model after `node`, which has no parent, became the child of `parent`
/// at position `index`.
pub open spec fn attached(
    m: Map<ContainerId, ContainerView>,
    node: ContainerId,
    parent: ContainerId,
    index: int,
) -> Map<ContainerId, ContainerView> {
    m.insert(node, ContainerView { parent: Some(parent), ..m[node] }).insert(
        parent,
        ContainerView { children: m[parent].children.insert(index, node), ..m[parent] },
    )
}

/// The model after `node` left its parent's children and became parentless;
/// the model itself where `node` has no parent.
pub open spec fn detached(m: Map<ContainerId, ContainerView>, node: ContainerId) -> Map<
    ContainerId,
    ContainerView,
> {
    match m[node].parent {
        Some(p) => m.insert(node, ContainerView { parent: None, ..m[node] }).insert(
            p,
            ContainerView {
                children: m[p].children.remove(m[p].children.index_of(node)),
                ..m[p]
            },
        ),
        None => m,
    }
}

/// The model after `new_node`, which has no parent, took the place of
/// `old_node` among the children of `old_node`'s parent, and `old_node`
/// became parentless.
pub open spec fn replaced(
    m: Map<ContainerId, ContainerView>,
    old_node: ContainerId,
    new_node: ContainerId,
) -> Map<ContainerId, ContainerView> {
    let p = m[old_node].parent.unwrap();
    m.insert(old_node, ContainerView { parent: None, ..m[old_node] }).insert(
        new_node,
        ContainerView { parent: Some(p), ..m[new_node] },
    ).insert(
        p,
        ContainerView {
            children: m[p].children.update(m[p].children.index_of(old_node), new_node),
            ..m[p]
        },
    )
}

/// In a well-formed model a container occurs among its parent's children at
/// exactly one position.
pub proof fn lemma_child_position(m: Map<ContainerId, ContainerView>, node: ContainerId, j: int)
    requires
        tree_wf(m),
        m.dom().contains(node),
        m[node].parent is Some,
        0 <= j < m[m[node].parent.unwrap()].children.len(),
        m[m[node].parent.unwrap()].children[j] == node,
    ensures
        m[m[node].parent.unwrap()].children.index_of(node) == j,
{
    let siblings = m[m[node].parent.unwrap()].children;
    let k = siblings.index_of(node);
    assert(siblings.no_duplicates());
    assert(0 <= k < siblings.len() && siblings[k] == node);
}

/// After an attach the new child stands at the position asked for and names
/// the parent as its parent.
pub proof fn lemma_attached_links(
    m: Map<ContainerId, ContainerView>,
    node: ContainerId,
    parent: ContainerId,
    index: int,
)
    requires
        m.dom().contains(node),
        m.dom().contains(parent),
        node != parent,
        0 <= index <= m[parent].children.len(),
    ensures
        attached(m, node, parent, index)[node].parent == Some(parent),
        attached(m, node, parent, index)[parent].children[index] == node,
        attached(m, node, parent, index)[parent].children.len() == m[parent].children.len() + 1,
        attached(m, node, parent, index)[node].children == m[node].children,
{
}

/// Attaching a parentless container under a parent of a fitting kind keeps
/// the structural invariants.
pub proof fn lemma_attached_wf(
    m: Map<ContainerId, ContainerView>,
    node: ContainerId,
    parent: ContainerId,
    index: int,
)
    requires
        tree_wf(m),
        m.dom().contains(node),
        m.dom().contains(parent),
        node != parent,
        m[node].parent is None,
        kind_may_own(m[parent].kind, m[node].kind),
        0 <= index <= m[parent].children.len(),
    ensures
        tree_wf(attached(m, node, parent, index)),
{
    let m1 = attached(m, node, parent, index);
    let old_kids = m[parent].children;
    let new_kids = old_kids.insert(index, node);
    assert(m1.dom() =~= m.dom());
    assert(m1[parent].children == new_kids);
    assert(!old_kids.contains(node)) by {
        if old_kids.contains(node) {
            let j = choose|j: int| 0 <= j < old_kids.len() && old_kids[j] == node;
            assert(m[parent].children[j] == node);
        }
    }
    assert(new_kids.no_duplicates()) by {
        assert forall|i: int, j: int|
            0 <= i < new_kids.len() && 0 <= j < new_kids.len() && i != j implies new_kids[i]
            != new_kids[j] by {
            let oi = if i < index { i } else { i - 1 };
            let oj = if j < index { j } else { j - 1 };
            if i != index && j != index {
                assert(new_kids[i] == old_kids[oi]);
                assert(new_kids[j] == old_kids[oj]);
            } else if i == index {
                assert(new_kids[j] == old_kids[oj]);
                assert(old_kids.contains(old_kids[oj]));
            } else {
                assert(new_kids[i] == old_kids[oi]);
                assert(old_kids.contains(old_kids[oi]));
            }
        }
    }
    assert forall|x: ContainerId| #[trigger] m1.dom().contains(x) implies m1[x].children.no_duplicates() by {
        if x != parent {
            assert(m.dom().contains(x));
            assert(m1[x].children == m[x].children);
        }
    }
    assert forall|x: ContainerId| #[trigger] m1.dom().contains(x) && m1[x].parent is Some implies {
        let p = m1[x].parent.unwrap();
        &&& m1.dom().contains(p)
        &&& m1[p].children.contains(x)
        &&& kind_may_own(m1[p].kind, m1[x].kind)
    } by {
        if x == node {
            assert(new_kids[index] == node);
        } else {
            assert(m.dom().contains(x));
            let p = m[x].parent.unwrap();
            assert(m1[x].parent == Some(p));
            if p == parent {
                let j = choose|j: int| 0 <= j < old_kids.len() && old_kids[j] == x;
                let nj = if j < index { j } else { j + 1 };
                assert(new_kids[nj] == x);
            } else {
                assert(m1[p].children == m[p].children);
            }
        }
    }
    assert forall|p: ContainerId, j: int|
        m1.dom().contains(p) && 0 <= j < m1[p].children.len() implies {
        let c = #[trigger] m1[p].children[j];
        m1.dom().contains(c) && m1[c].parent == Some(p)
    } by {
        if p == parent {
            if j != index {
                let oj = if j < index { j } else { j - 1 };
                assert(new_kids[j] == old_kids[oj]);
                let c = m[parent].children[oj];
                assert(m.dom().contains(c) && m[c].parent == Some(parent));
            }
        } else {
            let c = m[p].children[j];
            assert(m.dom().contains(c) && m[c].parent == Some(p));
        }
    }
}

/// Detaching a container other than the root keeps the structural
/// invariants.
pub proof fn lemma_detached_wf(m: Map<ContainerId, ContainerView>, node: ContainerId)
    requires
        tree_wf(m),
        m.dom().contains(node),
    ensures
        tree_wf(detached(m, node)),
        detached(m, node).dom() == m.dom(),
        forall|p: ContainerId|
            m.dom().contains(p) ==> !(#[trigger] detached(m, node)[p]).children.contains(node),
{
    let m1 = detached(m, node);
    if m[node].parent is Some {
        let parent = m[node].parent.unwrap();
        let old_kids = m[parent].children;
        let at = old_kids.index_of(node);
        let new_kids = old_kids.remove(at);
        assert(old_kids.contains(node));
        assert(0 <= at < old_kids.len() && old_kids[at] == node);
        assert(node != parent);
        assert(node != ROOT);
        assert(m1.dom() =~= m.dom());
        assert(m1[parent].children == new_kids);
        assert(old_kids.no_duplicates());
        assert forall|j: int| 0 <= j < new_kids.len() implies new_kids[j] == old_kids[if j
            < at {
            j
        } else {
            j + 1
        }] by {}
        assert(new_kids.no_duplicates());
        assert(!new_kids.contains(node)) by {
            if new_kids.contains(node) {
                let j = choose|j: int| 0 <= j < new_kids.len() && new_kids[j] == node;
                let oj = if j < at { j } else { j + 1 };
                assert(old_kids[oj] == node);
            }
        }
        assert forall|x: ContainerId| #[trigger] m1.dom().contains(x) implies m1[x].children.no_duplicates() by {
            if x != parent {
                assert(m.dom().contains(x));
                assert(m1[x].children == m[x].children);
            }
        }
        assert forall|x: ContainerId| #[trigger]
            m1.dom().contains(x) && m1[x].parent is Some implies {
            let p = m1[x].parent.unwrap();
            &&& m1.dom().contains(p)
            &&& m1[p].children.contains(x)
            &&& kind_may_own(m1[p].kind, m1[x].kind)
        } by {
            assert(x != node);
            assert(m.dom().contains(x));
            let p = m[x].parent.unwrap();
            assert(m1[x].parent == Some(p));
            if p == parent {
                let j = choose|j: int| 0 <= j < old_kids.len() && old_kids[j] == x;
                let nj = if j < at { j } else { j - 1 };
                assert(new_kids[nj] == x);
            } else {
                assert(m1[p].children == m[p].children);
            }
        }
        assert forall|p: ContainerId, j: int|
            m1.dom().contains(p) && 0 <= j < m1[p].children.len() implies {
            let c = #[trigger] m1[p].children[j];
            m1.dom().contains(c) && m1[c].parent == Some(p)
        } by {
            if p == parent {
                let oj = if j < at { j } else { j + 1 };
                assert(new_kids[j] == old_kids[oj]);
                let c = m[parent].children[oj];
                assert(m.dom().contains(c) && m[c].parent == Some(parent));
                assert(c != node);
            } else {
                let c = m[p].children[j];
                assert(m.dom().contains(c) && m[c].parent == Some(p));
                assert(c != node);
            }
        }
        assert forall|p: ContainerId| m.dom().contains(p) implies !(#[trigger] m1[p]).children.contains(
            node,
        ) by {
            if p != parent && m1[p].children.contains(node) {
                let j = choose|j: int| 0 <= j < m1[p].children.len() && m1[p].children[j] == node;
                assert(m[p].children[j] == node);
            }
        }
    } else {
        assert forall|p: ContainerId| m.dom().contains(p) implies !(#[trigger] m1[p]).children.contains(
            node,
        ) by {
            if m[p].children.contains(node) {
                let j = choose|j: int| 0 <= j < m[p].children.len() && m[p].children[j] == node;
                assert(m[p].children[j] == node);
            }
        }
    }
}

/// Putting a parentless container in the place of an attached one keeps the
/// structural invariants.
pub proof fn lemma_replaced_wf(
    m: Map<ContainerId, ContainerView>,
    old_node: ContainerId,
    new_node: ContainerId,
)
    requires
        tree_wf(m),
        m.dom().contains(old_node),
        m.dom().contains(new_node),
        m[old_node].parent is Some,
        m[new_node].parent is None,
        new_node != m[old_node].parent.unwrap(),
        kind_may_own(m[m[old_node].parent.unwrap()].kind, m[new_node].kind),
    ensures
        tree_wf(replaced(m, old_node, new_node)),
        replaced(m, old_node, new_node).dom() == m.dom(),
{
    let m1 = replaced(m, old_node, new_node);
    let parent = m[old_node].parent.unwrap();
    let old_kids = m[parent].children;
    let at = old_kids.index_of(old_node);
    let new_kids = old_kids.update(at, new_node);
    assert(old_kids.contains(old_node));
    assert(0 <= at < old_kids.len() && old_kids[at] == old_node);
    assert(m1.dom() =~= m.dom());
    assert(m1[parent].children == new_kids);
    assert(old_kids.no_duplicates());
    assert(!old_kids.contains(new_node)) by {
        if old_kids.contains(new_node) {
            let j = choose|j: int| 0 <= j < old_kids.len() && old_kids[j] == new_node;
            assert(m[parent].children[j] == new_node);
        }
    }
    assert(new_kids.no_duplicates()) by {
        assert forall|i: int, j: int|
            0 <= i < new_kids.len() && 0 <= j < new_kids.len() && i != j implies new_kids[i]
            != new_kids[j] by {
            if i != at {
                assert(old_kids.contains(old_kids[i]));
            }
            if j != at {
                assert(old_kids.contains(old_kids[j]));
            }
        }
    }
    assert forall|x: ContainerId| #[trigger] m1.dom().contains(x) implies m1[x].children.no_duplicates() by {
        if x != parent {
            assert(m.dom().contains(x));
            assert(m1[x].children == m[x].children);
        }
    }
    assert forall|x: ContainerId| #[trigger] m1.dom().contains(x) && m1[x].parent is Some implies {
        let p = m1[x].parent.unwrap();
        &&& m1.dom().contains(p)
        &&& m1[p].children.contains(x)
        &&& kind_may_own(m1[p].kind, m1[x].kind)
    } by {
        if x == new_node {
            assert(new_kids[at] == new_node);
        } else {
            assert(x != old_node);
            assert(m.dom().contains(x));
            let p = m[x].parent.unwrap();
            assert(m1[x].parent == Some(p));
            if p == parent {
                let j = choose|j: int| 0 <= j < old_kids.len() && old_kids[j] == x;
                assert(new_kids[j] == x);
            } else {
                assert(m1[p].children == m[p].children);
            }
        }
    }
    assert forall|p: ContainerId, j: int|
        m1.dom().contains(p) && 0 <= j < m1[p].children.len() implies {
        let c = #[trigger] m1[p].children[j];
        m1.dom().contains(c) && m1[c].parent == Some(p)
    } by {
        if p == parent {
            if j != at {
                let c = m[parent].children[j];
                assert(m.dom().contains(c) && m[c].parent == Some(parent));
                assert(old_kids.contains(c));
            }
        } else {
            let c = m[p].children[j];
            assert(m.dom().contains(c) && m[c].parent == Some(p));
        }
    }
}

/// Removing a parentless, childless container other than the root keeps the
/// structural invariants.
pub proof fn lemma_removed_wf(m: Map<ContainerId, ContainerView>, node: ContainerId)
    requires
        tree_wf(m),
        m.dom().contains(node),
        node != ROOT,
        m[node].parent is None,
        m[node].children.len() == 0,
    ensures
        tree_wf(m.remove(node)),
{
    let m1 = m.remove(node);
    assert forall|x: ContainerId| #[trigger] m1.dom().contains(x) && m1[x].parent is Some implies {
        let p = m1[x].parent.unwrap();
        &&& m1.dom().contains(p)
        &&& m1[p].children.contains(x)
        &&& kind_may_own(m1[p].kind, m1[x].kind)
    } by {
        assert(m.dom().contains(x));
        let p = m[x].parent.unwrap();
        assert(m[p].children.contains(x));
    }
    assert forall|p: ContainerId, j: int|
        m1.dom().contains(p) && 0 <= j < m1[p].children.len() implies {
        let c = #[trigger] m1[p].children[j];
        m1.dom().contains(c) && m1[c].parent == Some(p)
    } by {
        let c = m[p].children[j];
        assert(m.dom().contains(c) && m[c].parent == Some(p));
    }
}

} // verus!

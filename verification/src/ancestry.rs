//! What holds of the ancestor relation in every well-formed tree.

use vstd::prelude::*;
use crate::container::{ContainerId, ContainerTree};
use crate::error::StructuralFault;

verus! {

impl ContainerTree {
    /// Every child names the container that owns it as its parent.
    pub proof fn lemma_parent_of_child(&self, p: ContainerId, j: int)
        requires
            self.wf(),
            self.has(p),
            0 <= j < self.children(p).len(),
        ensures
            self.has(self.children(p)[j]),
            self.parent(self.children(p)[j]) == Some(p),
    {
    }

    /// A proper ancestor has a smaller rank than what lies below it.
    pub proof fn lemma_ancestor_rank(&self, a: ContainerId, x: ContainerId)
        requires
            self.wf(),
            self.has(x),
            self.is_ancestor_or_self(a, x),
            a != x,
        ensures
            self.has(a),
            self.rank(a) < self.rank(x),
        decreases self.rank(x),
    {
        self.lemma_ancestor_step(a, x);
        self.lemma_rank_order(x);
        let p = self.parent(x).unwrap();
        if a != p {
            self.lemma_ancestor_rank(a, p);
        }
    }

    /// The tree has no cycle: two containers that lie on each other's path to
    /// the top are one and the same.
    pub proof fn lemma_acyclic(&self, a: ContainerId, x: ContainerId)
        requires
            self.wf(),
            self.has(a),
            self.has(x),
            self.is_ancestor_or_self(a, x),
            self.is_ancestor_or_self(x, a),
        ensures
            a == x,
    {
        if a != x {
            self.lemma_ancestor_rank(a, x);
            self.lemma_ancestor_rank(x, a);
        }
    }

    /// What lies below a container lies below the container's parent.
    pub proof fn lemma_ancestor_up(&self, a: ContainerId, x: ContainerId)
        requires
            self.wf(),
            self.has(a),
            self.has(x),
            self.parent(a) is Some,
            self.is_ancestor_or_self(a, x),
        ensures
            self.is_ancestor_or_self(self.parent(a).unwrap(), x),
        decreases self.rank(x),
    {
        let p = self.parent(a).unwrap();
        self.lemma_ancestor_step(p, x);
        if x == a {
            self.lemma_ancestor_step(p, p);
        } else {
            self.lemma_ancestor_step(a, x);
            self.lemma_rank_order(x);
            self.lemma_ancestor_up(a, self.parent(x).unwrap());
        }
    }

    /// What lies properly below a container lies below one of its children.
    pub proof fn lemma_ancestor_down(&self, a: ContainerId, x: ContainerId) -> (j: int)
        requires
            self.wf(),
            self.has(x),
            self.is_ancestor_or_self(a, x),
            a != x,
        ensures
            0 <= j < self.children(a).len(),
            self.is_ancestor_or_self(self.children(a)[j], x),
        decreases self.rank(x),
    {
        self.lemma_ancestor_step(a, x);
        self.lemma_rank_order(x);
        let p = self.parent(x).unwrap();
        if p == a {
            assert(self.children(a).contains(x));
            let j = choose|j: int| 0 <= j < self.children(a).len() && self.children(a)[j] == x;
            self.lemma_ancestor_step(x, x);
            j
        } else {
            let j = self.lemma_ancestor_down(a, p);
            self.lemma_ancestor_step(self.children(a)[j], x);
            j
        }
    }

    /// The containers above a container form one path: of two of them, one
    /// lies above the other.
    pub proof fn lemma_ancestors_comparable(&self, a: ContainerId, b: ContainerId, x: ContainerId)
        requires
            self.wf(),
            self.has(x),
            self.is_ancestor_or_self(a, x),
            self.is_ancestor_or_self(b, x),
        ensures
            self.is_ancestor_or_self(a, b) || self.is_ancestor_or_self(b, a),
        decreases self.rank(x),
    {
        if x != a && x != b {
            self.lemma_ancestor_step(a, x);
            self.lemma_ancestor_step(b, x);
            self.lemma_rank_order(x);
            self.lemma_ancestors_comparable(a, b, self.parent(x).unwrap());
        }
    }

    /// The subtrees of two different children of a container share nothing.
    pub proof fn lemma_siblings_disjoint(&self, p: ContainerId, j: int, k: int, x: ContainerId)
        requires
            self.wf(),
            self.has(p),
            self.has(x),
            0 <= j < self.children(p).len(),
            0 <= k < self.children(p).len(),
            j != k,
            self.is_ancestor_or_self(self.children(p)[j], x),
        ensures
            !self.is_ancestor_or_self(self.children(p)[k], x),
    {
        let cj = self.children(p)[j];
        let ck = self.children(p)[k];
        assert(self.has(cj) && self.parent(cj) == Some(p));
        assert(self.has(ck) && self.parent(ck) == Some(p));
        assert(cj != ck);
        if self.is_ancestor_or_self(ck, x) {
            self.lemma_ancestors_comparable(cj, ck, x);
            self.lemma_ancestor_step(p, p);
            if self.is_ancestor_or_self(cj, ck) {
                self.lemma_ancestor_step(cj, ck);
                self.lemma_ancestor_step(p, cj);
                self.lemma_acyclic(cj, p);
            } else {
                self.lemma_ancestor_step(ck, cj);
                self.lemma_ancestor_step(p, ck);
                self.lemma_acyclic(ck, p);
            }
        }
    }

    /// A container cannot be attached to itself or below itself.
    pub proof fn lemma_attach_below_self_refused(
        &self,
        node: ContainerId,
        parent: ContainerId,
        index: usize,
    )
        requires
            self.wf(),
            self.is_ancestor_or_self(node, parent),
        ensures
            self.attach_fault(node, parent, index) is Some,
            self.move_fault(node, parent, index) is Some,
            self.has(node) && self.has(parent) && self.parent(node) is None
                ==> self.attach_fault(node, parent, index) == Some(StructuralFault::WouldCycle),
    {
    }
}

} // verus!

//! Depth-first pre-order traversal of the container tree.

use vstd::prelude::*;
use crate::container::{ContainerId, ContainerTree};

verus! {

impl ContainerTree {
    /// The containers below and including `x` in depth-first pre-order:
    /// `x` itself, then the traversal of each child in sibling order.
    pub open spec fn preorder(&self, x: ContainerId) -> Seq<ContainerId>
        decreases self.rank_bound() - self.rank(x), self.children(x).len() + 1,
    {
        seq![x] + self.preorder_of_first(x, self.children(x).len())
    }

    /// The traversals of the first `n` children of `p`, one after the other.
    pub open spec fn preorder_of_first(&self, p: ContainerId, n: nat) -> Seq<ContainerId>
        decreases self.rank_bound() - self.rank(p), n,
    {
        if n == 0 || n > self.children(p).len() {
            Seq::empty()
        } else {
            let c = self.children(p)[n - 1];
            self.preorder_of_first(p, (n - 1) as nat) + (if self.rank(p) < self.rank(c)
                <= self.rank_bound() {
                self.preorder(c)
            } else {
                Seq::empty()
            })
        }
    }

    /// Appends the pre-order traversal of `x` to `out`.
    pub fn collect_preorder(&self, x: ContainerId, out: &mut Vec<ContainerId>)
        requires
            self.wf(),
            self.has(x),
        ensures
            final(out)@ == old(out)@ + self.preorder(x),
        decreases self.rank_bound() - self.rank(x),
    {
        out.push(x);
        let n = self.child_count(x);
        let mut j: usize = 0;
        while j < n
            invariant
                self.wf(),
                self.has(x),
                n == self.children(x).len(),
                j <= n,
                out@ == old(out)@ + seq![x] + self.preorder_of_first(x, j as nat),
            decreases n - j,
        {
            let c = self.child_at(x, j);
            proof {
                assert(self.has(c) && self.parent(c) == Some(x));
                self.lemma_rank_order(c);
                self.lemma_rank_order(x);
            }
            let ghost before = out@;
            self.collect_preorder(c, out);
            j += 1;
            assert(out@ == old(out)@ + seq![x] + self.preorder_of_first(x, j as nat)) by {
                assert(self.preorder_of_first(x, j as nat) == self.preorder_of_first(
                    x,
                    (j - 1) as nat,
                ) + self.preorder(c));
                assert(out@ =~= before + self.preorder(c));
            }
        }
    }

    /// The pre-order traversal of the subtree of `x`; empty if there is no
    /// such container.
    pub fn traverse(&self, x: ContainerId) -> (out: Vec<ContainerId>)
        requires
            self.wf(),
        ensures
            out@ == (if self.has(x) {
                self.preorder(x)
            } else {
                Seq::empty()
            }),
    {
        let mut out: Vec<ContainerId> = Vec::new();
        if self.contains(x) {
            self.collect_preorder(x, &mut out);
            assert(out@ =~= self.preorder(x));
        }
        out
    }

    /// A traversal starts with the container it was asked for.
    pub proof fn lemma_preorder_head(&self, x: ContainerId)
        ensures
            self.preorder(x).len() >= 1,
            self.preorder(x)[0] == x,
    {
    }

    /// Everything in the traversal of a container exists and lies below or
    /// is the container.
    pub proof fn lemma_preorder_sound(&self, x: ContainerId, i: int)
        requires
            self.wf(),
            self.has(x),
            0 <= i < self.preorder(x).len(),
        ensures
            self.has(self.preorder(x)[i]),
            self.is_ancestor_or_self(x, self.preorder(x)[i]),
        decreases self.rank_bound() - self.rank(x), self.children(x).len() + 1,
    {
        if i == 0 {
            self.lemma_ancestor_step(x, x);
        } else {
            self.lemma_first_children_sound(x, self.children(x).len(), i - 1);
        }
    }

    /// Everything in the traversals of the first `n` children of a container
    /// exists and lies properly below the container.
    pub proof fn lemma_first_children_sound(&self, p: ContainerId, n: nat, i: int)
        requires
            self.wf(),
            self.has(p),
            n <= self.children(p).len(),
            0 <= i < self.preorder_of_first(p, n).len(),
        ensures
            self.has(self.preorder_of_first(p, n)[i]),
            self.is_ancestor_or_self(p, self.preorder_of_first(p, n)[i]),
            self.preorder_of_first(p, n)[i] != p,
        decreases self.rank_bound() - self.rank(p), n,
    {
        let front = self.preorder_of_first(p, (n - 1) as nat);
        if i < front.len() {
            self.lemma_first_children_sound(p, (n - 1) as nat, i);
        } else {
            let c = self.children(p)[n - 1];
            assert(self.has(c) && self.parent(c) == Some(p));
            self.lemma_rank_order(c);
            self.lemma_preorder_sound(c, i - front.len());
            let e = self.preorder(c)[i - front.len()];
            self.lemma_ancestor_up(c, e);
            if e == p {
                self.lemma_ancestor_step(p, c);
                self.lemma_ancestor_step(p, p);
                self.lemma_acyclic(c, p);
            }
        }
    }

    /// The traversal of a child is part of the traversals of the first `n`
    /// children, for every `n` beyond the child's position.
    pub proof fn lemma_child_traversal_included(
        &self,
        p: ContainerId,
        n: nat,
        j: int,
        e: ContainerId,
    )
        requires
            self.wf(),
            self.has(p),
            0 <= j < n <= self.children(p).len(),
            self.preorder(self.children(p)[j]).contains(e),
        ensures
            self.preorder_of_first(p, n).contains(e),
        decreases n,
    {
        let front = self.preorder_of_first(p, (n - 1) as nat);
        let c = self.children(p)[n - 1];
        assert(self.has(c) && self.parent(c) == Some(p));
        self.lemma_rank_order(c);
        let all = self.preorder_of_first(p, n);
        assert(all == front + self.preorder(c));
        if j == n - 1 {
            let k = choose|k: int| 0 <= k < self.preorder(c).len() && self.preorder(c)[k] == e;
            assert(all[front.len() + k] == e);
        } else {
            self.lemma_child_traversal_included(p, (n - 1) as nat, j, e);
            let k = choose|k: int| 0 <= k < front.len() && front[k] == e;
            assert(all[k] == e);
        }
    }

    /// Everything that exists and lies below or is a container is in the
    /// container's traversal.
    pub proof fn lemma_preorder_complete(&self, x: ContainerId, e: ContainerId)
        requires
            self.wf(),
            self.has(x),
            self.has(e),
            self.is_ancestor_or_self(x, e),
        ensures
            self.preorder(x).contains(e),
        decreases self.rank_bound() - self.rank(x),
    {
        let all = self.preorder(x);
        if e == x {
            assert(all[0] == x);
        } else {
            let j = self.lemma_ancestor_down(x, e);
            let c = self.children(x)[j];
            assert(self.has(c) && self.parent(c) == Some(x));
            self.lemma_rank_order(c);
            self.lemma_preorder_complete(c, e);
            let n = self.children(x).len();
            self.lemma_child_traversal_included(x, n, j, e);
            let rest = self.preorder_of_first(x, n);
            let k = choose|k: int| 0 <= k < rest.len() && rest[k] == e;
            assert(all[k + 1] == e);
        }
    }
    /// Everything in the traversals of the first `n` children of a container
    /// lies below one of these children.
    pub proof fn lemma_first_children_below_child(&self, p: ContainerId, n: nat, i: int) -> (j: int)
        requires
            self.wf(),
            self.has(p),
            n <= self.children(p).len(),
            0 <= i < self.preorder_of_first(p, n).len(),
        ensures
            0 <= j < n,
            self.has(self.preorder_of_first(p, n)[i]),
            self.is_ancestor_or_self(self.children(p)[j], self.preorder_of_first(p, n)[i]),
        decreases n,
    {
        let front = self.preorder_of_first(p, (n - 1) as nat);
        if i < front.len() {
            self.lemma_first_children_below_child(p, (n - 1) as nat, i)
        } else {
            let c = self.children(p)[n - 1];
            assert(self.has(c) && self.parent(c) == Some(p));
            self.lemma_rank_order(c);
            self.lemma_preorder_sound(c, i - front.len());
            n - 1
        }
    }

    /// No container occurs twice in a traversal.
    pub proof fn lemma_preorder_no_duplicates(&self, x: ContainerId)
        requires
            self.wf(),
            self.has(x),
        ensures
            self.preorder(x).no_duplicates(),
        decreases self.rank_bound() - self.rank(x), self.children(x).len() + 1,
    {
        let n = self.children(x).len();
        let rest = self.preorder_of_first(x, n);
        let all = self.preorder(x);
        self.lemma_first_children_no_duplicates(x, n);
        assert forall|a: int, b: int| 0 <= a < all.len() && 0 <= b < all.len() && a != b implies all[a]
            != all[b] by {
            if a == 0 {
                self.lemma_first_children_sound(x, n, b - 1);
            } else if b == 0 {
                self.lemma_first_children_sound(x, n, a - 1);
            } else {
                assert(all[a] == rest[a - 1] && all[b] == rest[b - 1]);
            }
        }
    }

    /// No container occurs twice in the traversals of the first `n` children
    /// of a container.
    pub proof fn lemma_first_children_no_duplicates(&self, p: ContainerId, n: nat)
        requires
            self.wf(),
            self.has(p),
            n <= self.children(p).len(),
        ensures
            self.preorder_of_first(p, n).no_duplicates(),
        decreases self.rank_bound() - self.rank(p), n,
    {
        if n > 0 {
            let front = self.preorder_of_first(p, (n - 1) as nat);
            let c = self.children(p)[n - 1];
            assert(self.has(c) && self.parent(c) == Some(p));
            self.lemma_rank_order(c);
            let below = self.preorder(c);
            let all = self.preorder_of_first(p, n);
            assert(all == front + below);
            self.lemma_first_children_no_duplicates(p, (n - 1) as nat);
            self.lemma_preorder_no_duplicates(c);
            assert forall|a: int, b: int|
                0 <= a < all.len() && 0 <= b < all.len() && a != b implies all[a] != all[b] by {
                let lo = if a < b { a } else { b };
                let hi = if a < b { b } else { a };
                if hi < front.len() {
                    assert(all[a] == front[a] && all[b] == front[b]);
                } else if lo >= front.len() {
                    assert(all[a] == below[a - front.len()] && all[b] == below[b - front.len()]);
                } else {
                    assert(all[lo] == front[lo] && all[hi] == below[hi - front.len()]);
                    let j = self.lemma_first_children_below_child(p, (n - 1) as nat, lo);
                    self.lemma_preorder_sound(c, hi - front.len());
                    self.lemma_siblings_disjoint(p, j, n - 1, front[lo]);
                }
            }
        }
    }
}

} // verus!

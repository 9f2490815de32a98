//! The container tree: an arena of containers in which ownership points
//! strictly downwards and the parent of a container is a plain index.

use vstd::prelude::*;
use crate::error::{StructuralFault, WmError};
use crate::tree_model::{
    attached, detached, lemma_attached_wf, lemma_child_position, lemma_detached_wf,
    lemma_removed_wf, lemma_replaced_wf, replaced,
};
use crate::window_state::WindowState;

verus! {

/// Identifier of a container. Identifiers are never reused within one tree.
pub type ContainerId = usize;

/// Identifier of the root container of every tree.
pub const ROOT: ContainerId = 0;

/// The closed set of container variants.
#[derive(Clone, Copy, Debug, PartialEq, Eq, Structural)]
pub enum ContainerKind {
    Root,
    Monitor,
    Workspace,
    Split,
    Window,
}

/// Which kinds a container of a given kind can own: the root owns monitors,
/// a monitor owns workspaces, workspaces and splits own splits and windows,
/// and a window owns nothing.
pub open spec fn kind_may_own(parent: ContainerKind, child: ContainerKind) -> bool {
    match parent {
        ContainerKind::Root => child == ContainerKind::Monitor,
        ContainerKind::Monitor => child == ContainerKind::Workspace,
        ContainerKind::Workspace | ContainerKind::Split => child == ContainerKind::Split || child
            == ContainerKind::Window,
        ContainerKind::Window => false,
    }
}

/// Executable form of [`kind_may_own`].
pub fn may_own(parent: ContainerKind, child: ContainerKind) -> (b: bool)
    ensures
        b == kind_may_own(parent, child),
{
    match parent {
        ContainerKind::Root => child == ContainerKind::Monitor,
        ContainerKind::Monitor => child == ContainerKind::Workspace,
        ContainerKind::Workspace | ContainerKind::Split => child == ContainerKind::Split || child
            == ContainerKind::Window,
        ContainerKind::Window => false,
    }
}

/// What a window container holds besides its place in the tree.
#[derive(Clone, Copy, Debug, PartialEq, Eq)]
pub struct WindowContainer {
    /// Current state.
    pub state: WindowState,
    /// The one remembered earlier state, if any.
    pub prev_state: Option<WindowState>,
    /// Opaque handle of the native window.
    pub handle: u64,
}

impl WindowContainer {
    /// The remembered state, if there is one, differs from the current one.
    pub open spec fn wf(self) -> bool {
        self.prev_state != Some(self.state)
    }
}

/// Mathematical model of one container.
pub struct ContainerView {
    pub kind: ContainerKind,
    pub parent: Option<ContainerId>,
    pub children: Seq<ContainerId>,
    pub window: Option<WindowContainer>,
}

/// Structural invariants of a tree, stated over its model.
pub open spec fn tree_wf(m: Map<ContainerId, ContainerView>) -> bool {
    &&& m.dom().contains(ROOT)
    &&& m[ROOT].kind == ContainerKind::Root
    &&& m[ROOT].parent is None
    &&& forall|x: ContainerId| #[trigger]
        m.dom().contains(x) && m[x].kind == ContainerKind::Root ==> x == ROOT
    &&& forall|x: ContainerId| #[trigger]
        m.dom().contains(x) ==> (m[x].kind == ContainerKind::Window <==> m[x].window is Some)
    &&& forall|x: ContainerId| #[trigger]
        m.dom().contains(x) && m[x].window is Some ==> m[x].window.unwrap().wf()
    &&& forall|x: ContainerId| #[trigger] m.dom().contains(x) ==> m[x].children.no_duplicates()
    &&& forall|x: ContainerId| #[trigger] m.dom().contains(x) ==> m[x].parent != Some(x)
    &&& forall|x: ContainerId| #[trigger]
        m.dom().contains(x) && m[x].parent is Some ==> {
            let p = m[x].parent.unwrap();
            &&& m.dom().contains(p)
            &&& m[p].children.contains(x)
            &&& kind_may_own(m[p].kind, m[x].kind)
        }
    &&& forall|p: ContainerId, j: int|
        m.dom().contains(p) && 0 <= j < m[p].children.len() ==> {
            let c = #[trigger] m[p].children[j];
            m.dom().contains(c) && m[c].parent == Some(p)
        }
}

struct Node {
    kind: ContainerKind,
    window: Option<WindowContainer>,
    parent: Option<ContainerId>,
    children: Vec<ContainerId>,
    live: bool,
}

/// The container tree. The root exists from the start; every other container
/// is created detached and then attached.
pub struct ContainerTree {
    nodes: Vec<Node>,
    /// A rank for every slot that grows strictly from parent to child.
    depth: Ghost<Seq<nat>>,
    /// An upper bound of all ranks.
    max_depth: Ghost<nat>,
}

impl View for ContainerTree {
    type V = Map<ContainerId, ContainerView>;

    closed spec fn view(&self) -> Map<ContainerId, ContainerView> {
        Map::new(
            |id: ContainerId| id < self.nodes.len() && self.nodes[id as int].live,
            |id: ContainerId|
                ContainerView {
                    kind: self.nodes[id as int].kind,
                    parent: self.nodes[id as int].parent,
                    children: self.nodes[id as int].children@,
                    window: self.nodes[id as int].window,
                },
        )
    }
}

impl ContainerTree {
    /// The part of the invariant that speaks of the representation: the ranks
    /// witness that following parents always ends, and the slot of a removed
    /// container names no parent.
    pub closed spec fn ranked(&self) -> bool {
        &&& self.depth@.len() == self.nodes.len()
        &&& forall|x: int| 0 <= x < self.nodes.len() ==> #[trigger] self.depth@[x] <= self.max_depth@
        &&& forall|x: int|
            0 <= x < self.nodes.len() && (#[trigger] self.nodes[x]).parent is Some ==> {
                let p = self.nodes[x].parent.unwrap();
                p < self.nodes.len() && self.depth@[p as int] < self.depth@[x]
            }
        &&& forall|x: int|
            0 <= x < self.nodes.len() && !(#[trigger] self.nodes[x]).live ==> self.nodes[x].parent
                is None
    }

    /// The tree's invariant.
    pub open spec fn wf(&self) -> bool {
        self.ranked() && tree_wf(self@)
    }

    /// Whether a container with this identifier exists.
    pub open spec fn has(&self, id: ContainerId) -> bool {
        self@.dom().contains(id)
    }

    /// Parent of an existing container.
    pub open spec fn parent(&self, id: ContainerId) -> Option<ContainerId> {
        self@[id].parent
    }

    /// Children of an existing container, in sibling order.
    pub open spec fn children(&self, id: ContainerId) -> Seq<ContainerId> {
        self@[id].children
    }

    /// Kind of an existing container.
    pub open spec fn kind(&self, id: ContainerId) -> ContainerKind {
        self@[id].kind
    }

    /// Window data of an existing container; `None` unless it is a window.
    pub open spec fn window(&self, id: ContainerId) -> Option<WindowContainer> {
        self@[id].window
    }

    /// Number of identifiers handed out so far, the root's included.
    pub closed spec fn issued(&self) -> nat {
        self.nodes.len() as nat
    }

    /// The rank of a slot; zero beyond the slots in use.
    pub closed spec fn rank(&self, x: ContainerId) -> nat {
        if x < self.depth@.len() {
            self.depth@[x as int]
        } else {
            0
        }
    }

    /// An upper bound of every rank.
    pub closed spec fn rank_bound(&self) -> nat {
        self.max_depth@
    }

    /// Whether `a` is `x` or lies on the path from `x` up to its topmost
    /// ancestor.
    pub closed spec fn is_ancestor_or_self(&self, a: ContainerId, x: ContainerId) -> bool
        decreases self.rank(x),
    {
        if a == x {
            true
        } else if x < self.nodes.len() {
            match self.nodes[x as int].parent {
                Some(p) => self.rank(p) < self.rank(x) && self.is_ancestor_or_self(a, p),
                None => false,
            }
        } else {
            false
        }
    }

    /// The ancestor relation follows the parent link one step at a time.
    pub proof fn lemma_ancestor_step(&self, a: ContainerId, x: ContainerId)
        requires
            self.wf(),
            self.has(x),
        ensures
            self.is_ancestor_or_self(a, x) <==> (a == x || (self.parent(x) is Some
                && self.is_ancestor_or_self(a, self.parent(x).unwrap()))),
    {
        assert(self.nodes[x as int].parent == self.parent(x));
    }

    /// Ranks grow strictly from a parent to its child and stay within the
    /// bound.
    pub proof fn lemma_rank_order(&self, x: ContainerId)
        requires
            self.wf(),
            self.has(x),
        ensures
            self.rank(x) <= self.rank_bound(),
            self.parent(x) is Some ==> self.rank(self.parent(x).unwrap()) < self.rank(x),
    {
        assert(self.nodes[x as int].parent == self.parent(x));
        assert(self.depth@[x as int] <= self.max_depth@);
    }

    /// Every existing container has an identifier below `issued()`.
    pub proof fn lemma_ids_bounded(&self, id: ContainerId)
        requires
            self.has(id),
        ensures
            id < self.issued(),
    {
    }

    /// A tree that holds the root and nothing else.
    pub fn new() -> (tree: Self)
        ensures
            tree.wf(),
            tree.issued() == 1,
            tree@ == map![ROOT => ContainerView {
                kind: ContainerKind::Root,
                parent: None,
                children: Seq::empty(),
                window: None,
            }],
    {
        let mut nodes: Vec<Node> = Vec::new();
        nodes.push(
            Node {
                kind: ContainerKind::Root,
                window: None,
                parent: None,
                children: Vec::new(),
                live: true,
            },
        );
        let depth: Ghost<Seq<nat>> = Ghost(Seq::<nat>::empty().push(0nat));
        let max_depth: Ghost<nat> = Ghost(0nat);
        let tree = ContainerTree { nodes, depth, max_depth };
        assert(tree@.dom() =~= set![ROOT]);
        tree
    }

    fn push_node(&mut self, kind: ContainerKind, window: Option<WindowContainer>) -> (id:
        ContainerId)
        requires
            old(self).wf(),
            kind != ContainerKind::Root,
            kind == ContainerKind::Window <==> window is Some,
            window is Some ==> window.unwrap().wf(),
        ensures
            final(self).wf(),
            !old(self).has(id),
            id == old(self).issued(),
            final(self).issued() == old(self).issued() + 1,
            final(self)@ =~= old(self)@.insert(
                id,
                ContainerView { kind, parent: None, children: Seq::empty(), window },
            ),
    {
        let id = self.nodes.len();
        self.nodes.push(Node { kind, window, parent: None, children: Vec::new(), live: true });
        self.depth = Ghost(self.depth@.push(0nat));
        proof {
            let m0 = old(self)@;
            let m1 = self@;
            assert(m1 =~= m0.insert(
                id,
                ContainerView { kind, parent: None, children: Seq::empty(), window },
            ));
            assert forall|x: int| 0 <= x < self.nodes.len() implies #[trigger] self.depth@[x]
                <= self.max_depth@ by {
                if x < id {
                    assert(old(self).depth@[x] <= old(self).max_depth@);
                }
            }
            assert forall|x: int|
                0 <= x < self.nodes.len() && (#[trigger] self.nodes[x]).parent is Some implies {
                let p = self.nodes[x].parent.unwrap();
                p < self.nodes.len() && self.depth@[p as int] < self.depth@[x]
            } by {
                assert(self.nodes[x] == old(self).nodes[x]);
            }
            assert forall|x: int|
                0 <= x < self.nodes.len() && !(#[trigger] self.nodes[x]).live implies self.nodes[x].parent
                is None by {
                assert(self.nodes[x] == old(self).nodes[x]);
            }
            assert forall|p: ContainerId, j: int|
                m1.dom().contains(p) && 0 <= j < m1[p].children.len() implies {
                let c = #[trigger] m1[p].children[j];
                m1.dom().contains(c) && m1[c].parent == Some(p)
            } by {
                assert(p != id);
                let c = m0[p].children[j];
                assert(m0.dom().contains(c));
            }
        }
        id
    }

    /// Creates a detached monitor.
    pub fn add_monitor(&mut self) -> (id: ContainerId)
        requires
            old(self).wf(),
        ensures
            final(self).wf(),
            !old(self).has(id),
            id == old(self).issued(),
            final(self).issued() == old(self).issued() + 1,
            final(self)@ == old(self)@.insert(
                id,
                ContainerView {
                    kind: ContainerKind::Monitor,
                    parent: None,
                    children: Seq::empty(),
                    window: None,
                },
            ),
    {
        self.push_node(ContainerKind::Monitor, None)
    }

    /// Creates a detached workspace.
    pub fn add_workspace(&mut self) -> (id: ContainerId)
        requires
            old(self).wf(),
        ensures
            final(self).wf(),
            !old(self).has(id),
            id == old(self).issued(),
            final(self).issued() == old(self).issued() + 1,
            final(self)@ == old(self)@.insert(
                id,
                ContainerView {
                    kind: ContainerKind::Workspace,
                    parent: None,
                    children: Seq::empty(),
                    window: None,
                },
            ),
    {
        self.push_node(ContainerKind::Workspace, None)
    }

    /// Creates a detached split.
    pub fn add_split(&mut self) -> (id: ContainerId)
        requires
            old(self).wf(),
        ensures
            final(self).wf(),
            !old(self).has(id),
            id == old(self).issued(),
            final(self).issued() == old(self).issued() + 1,
            final(self)@ == old(self)@.insert(
                id,
                ContainerView {
                    kind: ContainerKind::Split,
                    parent: None,
                    children: Seq::empty(),
                    window: None,
                },
            ),
    {
        self.push_node(ContainerKind::Split, None)
    }

    /// Creates a detached window in the given state, with nothing remembered.
    pub fn add_window(&mut self, handle: u64, state: WindowState) -> (id: ContainerId)
        requires
            old(self).wf(),
        ensures
            final(self).wf(),
            !old(self).has(id),
            id == old(self).issued(),
            final(self).issued() == old(self).issued() + 1,
            final(self)@ == old(self)@.insert(
                id,
                ContainerView {
                    kind: ContainerKind::Window,
                    parent: None,
                    children: Seq::empty(),
                    window: Some(WindowContainer { state, prev_state: None, handle }),
                },
            ),
    {
        self.push_node(
            ContainerKind::Window,
            Some(WindowContainer { state, prev_state: None, handle }),
        )
    }

    /// Identifier of the root.
    pub fn root(&self) -> (id: ContainerId)
        ensures
            id == ROOT,
    {
        ROOT
    }

    /// Whether a container with this identifier exists.
    pub fn contains(&self, id: ContainerId) -> (b: bool)
        ensures
            b == self.has(id),
    {
        id < self.nodes.len() && self.nodes[id].live
    }

    /// Kind of a container, or `None` if there is no such container.
    pub fn kind_of(&self, id: ContainerId) -> (k: Option<ContainerKind>)
        ensures
            k == (if self.has(id) {
                Some(self.kind(id))
            } else {
                None
            }),
    {
        if id < self.nodes.len() && self.nodes[id].live {
            Some(self.nodes[id].kind)
        } else {
            None
        }
    }

    /// Current parent of a container; `None` for the root, for a detached
    /// container and for an identifier that names no container.
    pub fn parent_of(&self, id: ContainerId) -> (p: Option<ContainerId>)
        ensures
            p == (if self.has(id) {
                self.parent(id)
            } else {
                None
            }),
    {
        if id < self.nodes.len() && self.nodes[id].live {
            self.nodes[id].parent
        } else {
            None
        }
    }

    /// The children of a container in sibling order; empty for an identifier
    /// that names no container.
    pub fn children_of(&self, id: ContainerId) -> (c: Vec<ContainerId>)
        ensures
            c@ == (if self.has(id) {
                self.children(id)
            } else {
                Seq::empty()
            }),
    {
        if id < self.nodes.len() && self.nodes[id].live {
            self.nodes[id].children.clone()
        } else {
            Vec::new()
        }
    }

    /// Number of children of an existing container.
    pub fn child_count(&self, id: ContainerId) -> (n: usize)
        requires
            self.has(id),
        ensures
            n == self.children(id).len(),
    {
        self.nodes[id].children.len()
    }

    /// The child at position `j` of an existing container.
    pub fn child_at(&self, id: ContainerId, j: usize) -> (c: ContainerId)
        requires
            self.has(id),
            j < self.children(id).len(),
        ensures
            c == self.children(id)[j as int],
    {
        self.nodes[id].children[j]
    }

    /// Window data of a container; `None` if it is no window or does not
    /// exist.
    pub fn window_of(&self, id: ContainerId) -> (w: Option<WindowContainer>)
        ensures
            w == (if self.has(id) {
                self.window(id)
            } else {
                None
            }),
    {
        if id < self.nodes.len() && self.nodes[id].live {
            self.nodes[id].window
        } else {
            None
        }
    }

    /// Executable form of [`Self::is_ancestor_or_self`].
    pub fn is_ancestor_or_self_of(&self, a: ContainerId, x: ContainerId) -> (b: bool)
        requires
            self.wf(),
        ensures
            b == self.is_ancestor_or_self(a, x),
    {
        let mut cur = x;
        loop
            invariant
                self.ranked(),
                self.is_ancestor_or_self(a, x) == self.is_ancestor_or_self(a, cur),
            decreases self.rank(cur),
        {
            if cur == a {
                return true;
            }
            if cur >= self.nodes.len() {
                return false;
            }
            match self.nodes[cur].parent {
                Some(p) => {
                    cur = p;
                },
                None => {
                    return false;
                },
            }
        }
    }

    /// Two trees with the same parent links and ranks have the same ancestor
    /// relation.
    proof fn lemma_same_links(pre: &ContainerTree, post: &ContainerTree, a: ContainerId, x: ContainerId)
        requires
            pre.nodes.len() == post.nodes.len(),
            pre.depth@ == post.depth@,
            forall|k: int|
                0 <= k < pre.nodes.len() ==> (#[trigger] pre.nodes[k]).parent
                    == post.nodes[k].parent,
        ensures
            pre.is_ancestor_or_self(a, x) == post.is_ancestor_or_self(a, x),
        decreases pre.rank(x),
    {
        if a != x && x < pre.nodes.len() {
            assert(pre.nodes[x as int].parent == post.nodes[x as int].parent);
            match pre.nodes[x as int].parent {
                Some(p) => {
                    if pre.rank(p) < pre.rank(x) {
                        Self::lemma_same_links(pre, post, a, p);
                    }
                },
                None => {},
            }
        }
    }

    /// Overwrites the state and the remembered state of a window.
    pub(crate) fn set_window_state(
        &mut self,
        id: ContainerId,
        state: WindowState,
        prev_state: Option<WindowState>,
    )
        requires
            old(self).wf(),
            old(self).has(id),
            old(self).window(id) is Some,
            prev_state != Some(state),
        ensures
            final(self).wf(),
            final(self).issued() == old(self).issued(),
            final(self)@ == old(self)@.insert(
                id,
                ContainerView {
                    window: Some(
                        WindowContainer {
                            state,
                            prev_state,
                            handle: old(self).window(id).unwrap().handle,
                        },
                    ),
                    ..old(self)@[id]
                },
            ),
            forall|a: ContainerId, x: ContainerId|
                final(self).is_ancestor_or_self(a, x) == old(self).is_ancestor_or_self(a, x),
    {
        let handle = match self.nodes[id].window {
            Some(w) => w.handle,
            None => 0,
        };
        let ghost pre = *self;
        self.nodes[id].window = Some(WindowContainer { state, prev_state, handle });
        proof {
            let m0 = pre@;
            let m1 = self@;
            assert(m1 =~= m0.insert(
                id,
                ContainerView {
                    window: Some(WindowContainer { state, prev_state, handle }),
                    ..m0[id]
                },
            ));
            assert forall|x: int|
                0 <= x < self.nodes.len() && (#[trigger] self.nodes[x]).parent is Some implies {
                let p = self.nodes[x].parent.unwrap();
                p < self.nodes.len() && self.depth@[p as int] < self.depth@[x]
            } by {
                assert(self.nodes[x].parent == pre.nodes[x].parent);
            }
            assert forall|x: int|
                0 <= x < self.nodes.len() && !(#[trigger] self.nodes[x]).live implies self.nodes[x].parent
                is None by {
                assert(!pre.nodes[x].live);
            }
            assert forall|x: ContainerId| #[trigger]
                m1.dom().contains(x) && m1[x].parent is Some implies {
                let p = m1[x].parent.unwrap();
                &&& m1.dom().contains(p)
                &&& m1[p].children.contains(x)
                &&& kind_may_own(m1[p].kind, m1[x].kind)
            } by {
                assert(m0.dom().contains(x));
            }
            assert forall|p: ContainerId, j: int|
                m1.dom().contains(p) && 0 <= j < m1[p].children.len() implies {
                let c = #[trigger] m1[p].children[j];
                m1.dom().contains(c) && m1[c].parent == Some(p)
            } by {
                let c = m0[p].children[j];
                assert(m0.dom().contains(c) && m0[c].parent == Some(p));
            }
            assert forall|a: ContainerId, x: ContainerId|
                self.is_ancestor_or_self(a, x) == pre.is_ancestor_or_self(a, x) by {
                Self::lemma_same_links(&pre, self, a, x);
            }
        }
    }

    /// Position of an attached container among its parent's children.
    fn position_of(&self, parent: ContainerId, child: ContainerId) -> (j: usize)
        requires
            self.wf(),
            self.has(child),
            self.parent(child) == Some(parent),
        ensures
            j < self.children(parent).len(),
            self.children(parent)[j as int] == child,
            j == self.children(parent).index_of(child),
    {
        let n = self.nodes[parent].children.len();
        let mut j: usize = 0;
        assert(self.children(parent).contains(child));
        while j < n
            invariant
                parent < self.nodes.len(),
                n == self.nodes[parent as int].children.len(),
                self.nodes[parent as int].children@ == self.children(parent),
                self.children(parent).contains(child),
                j <= n,
                forall|k: int| 0 <= k < j ==> self.children(parent)[k] != child,
            ensures
                j < n,
                self.children(parent)[j as int] == child,
            decreases n - j,
        {
            if self.nodes[parent].children[j] == child {
                break ;
            }
            j += 1;
        }
        proof {
            lemma_child_position(self@, child, j as int);
        }
        j
    }

    /// The ranks after the containers below and including `node` sank by `by`.
    spec fn sunk(&self, node: ContainerId, by: nat) -> Seq<nat> {
        Seq::new(
            self.depth@.len(),
            |x: int|
                if self.is_ancestor_or_self(node, x as ContainerId) {
                    self.depth@[x] + by
                } else {
                    self.depth@[x]
                },
        )
    }

    /// Giving a container a parent that does not lie below it keeps the ranks
    /// in order, once everything below the container sinks under the new
    /// parent.
    proof fn lemma_reparented(pre: &ContainerTree, post: &ContainerTree, node: ContainerId, parent: ContainerId)
        requires
            pre.ranked(),
            node < pre.nodes.len(),
            parent < pre.nodes.len(),
            !pre.is_ancestor_or_self(node, parent),
            post.nodes.len() == pre.nodes.len(),
            post.depth@ == pre.sunk(node, pre.depth@[parent as int] + 1),
            post.max_depth@ == 2 * pre.max_depth@ + 1,
            post.nodes[node as int].parent == Some(parent),
            post.nodes[node as int].live,
            forall|x: int|
                0 <= x < pre.nodes.len() && x != node ==> (#[trigger] post.nodes[x]).parent
                    == pre.nodes[x].parent || (post.nodes[x].parent is None && post.nodes[x].live),
            forall|x: int|
                0 <= x < pre.nodes.len() && !(#[trigger] post.nodes[x]).live ==> !pre.nodes[x].live,
        ensures
            post.ranked(),
    {
        let by = pre.depth@[parent as int] + 1;
        assert(pre.depth@[parent as int] <= pre.max_depth@);
        assert forall|x: int| 0 <= x < post.nodes.len() implies #[trigger] post.depth@[x]
            <= post.max_depth@ by {
            assert(pre.depth@[x] <= pre.max_depth@);
        }
        assert forall|x: int|
            0 <= x < post.nodes.len() && (#[trigger] post.nodes[x]).parent is Some implies {
            let p = post.nodes[x].parent.unwrap();
            p < post.nodes.len() && post.depth@[p as int] < post.depth@[x]
        } by {
            if x == node {
                assert(pre.is_ancestor_or_self(node, node));
            } else {
                let p = pre.nodes[x].parent.unwrap();
                assert(post.nodes[x].parent == pre.nodes[x].parent);
                assert(p < pre.nodes.len() && pre.depth@[p as int] < pre.depth@[x]);
                assert(pre.is_ancestor_or_self(node, x as ContainerId) == pre.is_ancestor_or_self(
                    node,
                    p,
                ));
            }
        }
        assert forall|x: int|
            0 <= x < post.nodes.len() && !(#[trigger] post.nodes[x]).live implies post.nodes[x].parent
            is None by {
            assert(!pre.nodes[x].live);
            assert(x != node);
        }
    }

    /// Why `attach` would refuse, if it would.
    pub open spec fn attach_fault(
        &self,
        node: ContainerId,
        parent: ContainerId,
        index: usize,
    ) -> Option<StructuralFault> {
        if !self.has(node) || !self.has(parent) {
            Some(StructuralFault::NoSuchNode)
        } else if self.parent(node) is Some {
            Some(StructuralFault::AlreadyAttached)
        } else if self.is_ancestor_or_self(node, parent) {
            Some(StructuralFault::WouldCycle)
        } else if !kind_may_own(self.kind(parent), self.kind(node)) {
            Some(StructuralFault::KindMismatch)
        } else if index > self.children(parent).len() {
            Some(StructuralFault::IndexOutOfRange)
        } else {
            None
        }
    }

    /// Inserts `node` as a child of `parent` at position `index`. Refused,
    /// with nothing changed, if either does not exist, if `node` already has
    /// a parent, if `parent` is `node` or lies below it, if the kinds do not
    /// fit, or if `index` is beyond the end of the children.
    pub fn attach(&mut self, node: ContainerId, parent: ContainerId, index: usize) -> (r: Result<
        (),
        WmError,
    >)
        requires
            old(self).wf(),
        ensures
            final(self).wf(),
            final(self).issued() == old(self).issued(),
            match old(self).attach_fault(node, parent, index) {
                Some(f) => r == Err::<(), WmError>(WmError::StructuralIntegrity(f)) && *final(self)
                    == *old(self),
                None => r is Ok && final(self)@ == attached(
                    old(self)@,
                    node,
                    parent,
                    index as int,
                ),
            },
    {
        if !self.contains(node) || !self.contains(parent) {
            return Err(WmError::StructuralIntegrity(StructuralFault::NoSuchNode));
        }
        if self.nodes[node].parent.is_some() {
            return Err(WmError::StructuralIntegrity(StructuralFault::AlreadyAttached));
        }
        if self.is_ancestor_or_self_of(node, parent) {
            return Err(WmError::StructuralIntegrity(StructuralFault::WouldCycle));
        }
        if !may_own(self.nodes[parent].kind, self.nodes[node].kind) {
            return Err(WmError::StructuralIntegrity(StructuralFault::KindMismatch));
        }
        if index > self.nodes[parent].children.len() {
            return Err(WmError::StructuralIntegrity(StructuralFault::IndexOutOfRange));
        }
        let ghost pre = *self;
        let ghost sunk = self.sunk(node, self.depth@[parent as int] + 1);
        let ghost bound = 2 * self.max_depth@ + 1;
        self.nodes[parent].children.insert(index, node);
        self.nodes[node].parent = Some(parent);
        self.depth = Ghost(sunk);
        self.max_depth = Ghost(bound);
        proof {
            assert(self@ =~= attached(pre@, node, parent, index as int));
            lemma_attached_wf(pre@, node, parent, index as int);
            Self::lemma_reparented(&pre, self, node, parent);
        }
        Ok(())
    }

    /// Why `detach` would refuse, if it would.
    pub open spec fn detach_fault(&self, node: ContainerId) -> Option<StructuralFault> {
        if !self.has(node) {
            Some(StructuralFault::NoSuchNode)
        } else if node == ROOT {
            Some(StructuralFault::RootImmovable)
        } else {
            None
        }
    }

    /// Removes `node` from its parent's children and leaves it parentless;
    /// its own children stay with it. A container that is already parentless
    /// stays as it is. Refused for the root and for a container that does
    /// not exist.
    pub fn detach(&mut self, node: ContainerId) -> (r: Result<(), WmError>)
        requires
            old(self).wf(),
        ensures
            final(self).wf(),
            final(self).issued() == old(self).issued(),
            match old(self).detach_fault(node) {
                Some(f) => r == Err::<(), WmError>(WmError::StructuralIntegrity(f)) && *final(self)
                    == *old(self),
                None => r is Ok && final(self)@ == detached(old(self)@, node),
            },
    {
        if !self.contains(node) {
            return Err(WmError::StructuralIntegrity(StructuralFault::NoSuchNode));
        }
        if node == ROOT {
            return Err(WmError::StructuralIntegrity(StructuralFault::RootImmovable));
        }
        match self.nodes[node].parent {
            None => Ok(()),
            Some(parent) => {
                let at = self.position_of(parent, node);
                let ghost pre = *self;
                self.nodes[parent].children.remove(at);
                self.nodes[node].parent = None;
                proof {
                    assert(self@ =~= detached(pre@, node));
                    lemma_detached_wf(pre@, node);
                    assert forall|x: int|
                        0 <= x < self.nodes.len() && (#[trigger] self.nodes[x]).parent
                            is Some implies {
                        let p = self.nodes[x].parent.unwrap();
                        p < self.nodes.len() && self.depth@[p as int] < self.depth@[x]
                    } by {
                        assert(self.nodes[x].parent == pre.nodes[x].parent);
                    }
                    assert forall|x: int|
                        0 <= x < self.nodes.len() && !(#[trigger] self.nodes[x]).live implies self.nodes[x].parent
                        is None by {
                        assert(!pre.nodes[x].live);
                    }
                }
                Ok(())
            },
        }
    }

    /// Why `move_to` would refuse, if it would.
    pub open spec fn move_fault(
        &self,
        node: ContainerId,
        parent: ContainerId,
        index: usize,
    ) -> Option<StructuralFault> {
        if !self.has(node) || !self.has(parent) {
            Some(StructuralFault::NoSuchNode)
        } else if node == ROOT {
            Some(StructuralFault::RootImmovable)
        } else if self.is_ancestor_or_self(node, parent) {
            Some(StructuralFault::WouldCycle)
        } else if !kind_may_own(self.kind(parent), self.kind(node)) {
            Some(StructuralFault::KindMismatch)
        } else if index > detached(self@, node)[parent].children.len() {
            Some(StructuralFault::IndexOutOfRange)
        } else {
            None
        }
    }

    /// Moves `node`, attached or not, to position `index` among the children
    /// of `parent`, in one step: the position counts the children of `parent`
    /// without `node`. This is also how siblings are reordered. Refused, with
    /// nothing changed, if either does not exist, if `node` is the root, if
    /// `parent` is `node` or lies below it, if the kinds do not fit, or if
    /// `index` is beyond the end of the children.
    pub fn move_to(&mut self, node: ContainerId, parent: ContainerId, index: usize) -> (r: Result<
        (),
        WmError,
    >)
        requires
            old(self).wf(),
        ensures
            final(self).wf(),
            final(self).issued() == old(self).issued(),
            match old(self).move_fault(node, parent, index) {
                Some(f) => r == Err::<(), WmError>(WmError::StructuralIntegrity(f)) && *final(self)
                    == *old(self),
                None => r is Ok && final(self)@ == attached(
                    detached(old(self)@, node),
                    node,
                    parent,
                    index as int,
                ),
            },
    {
        if !self.contains(node) || !self.contains(parent) {
            return Err(WmError::StructuralIntegrity(StructuralFault::NoSuchNode));
        }
        if node == ROOT {
            return Err(WmError::StructuralIntegrity(StructuralFault::RootImmovable));
        }
        if self.is_ancestor_or_self_of(node, parent) {
            return Err(WmError::StructuralIntegrity(StructuralFault::WouldCycle));
        }
        if !may_own(self.nodes[parent].kind, self.nodes[node].kind) {
            return Err(WmError::StructuralIntegrity(StructuralFault::KindMismatch));
        }
        proof {
            lemma_detached_wf(self@, node);
        }
        let old_parent = self.nodes[node].parent;
        let mut room = self.nodes[parent].children.len();
        let mut at: usize = 0;
        match old_parent {
            Some(q) => {
                at = self.position_of(q, node);
                if q == parent {
                    room = room - 1;
                }
            },
            None => {},
        }
        assert(room == detached(self@, node)[parent].children.len());
        if index > room {
            return Err(WmError::StructuralIntegrity(StructuralFault::IndexOutOfRange));
        }
        let ghost pre = *self;
        let ghost sunk = self.sunk(node, self.depth@[parent as int] + 1);
        let ghost bound = 2 * self.max_depth@ + 1;
        match old_parent {
            Some(q) => {
                self.nodes[q].children.remove(at);
            },
            None => {},
        }
        self.nodes[parent].children.insert(index, node);
        self.nodes[node].parent = Some(parent);
        self.depth = Ghost(sunk);
        self.max_depth = Ghost(bound);
        proof {
            assert(self@ =~= attached(detached(pre@, node), node, parent, index as int));
            lemma_attached_wf(detached(pre@, node), node, parent, index as int);
            Self::lemma_reparented(&pre, self, node, parent);
        }
        Ok(())
    }

    /// Why `replace_in_place` would refuse, if it would.
    pub open spec fn replace_fault(&self, old_node: ContainerId, new_node: ContainerId) -> Option<
        StructuralFault,
    > {
        if !self.has(old_node) || !self.has(new_node) {
            Some(StructuralFault::NoSuchNode)
        } else if old_node == ROOT {
            Some(StructuralFault::RootImmovable)
        } else if self.parent(old_node) is None {
            Some(StructuralFault::NotAttached)
        } else if self.parent(new_node) is Some {
            Some(StructuralFault::AlreadyAttached)
        } else if self.is_ancestor_or_self(new_node, self.parent(old_node).unwrap()) {
            Some(StructuralFault::WouldCycle)
        } else if !kind_may_own(self.kind(self.parent(old_node).unwrap()), self.kind(new_node)) {
            Some(StructuralFault::KindMismatch)
        } else {
            None
        }
    }

    /// Puts `new_node` where `old_node` stands among its siblings; the
    /// sibling order is kept, and `old_node` is left parentless with its own
    /// children. Refused, with nothing changed, if either does not exist, if
    /// `old_node` is the root or has no parent, if `new_node` has a parent,
    /// if `old_node`'s parent is `new_node` or lies below it, or if the kinds
    /// do not fit.
    pub fn replace_in_place(&mut self, old_node: ContainerId, new_node: ContainerId) -> (r: Result<
        (),
        WmError,
    >)
        requires
            old(self).wf(),
        ensures
            final(self).wf(),
            final(self).issued() == old(self).issued(),
            match old(self).replace_fault(old_node, new_node) {
                Some(f) => r == Err::<(), WmError>(WmError::StructuralIntegrity(f)) && *final(self)
                    == *old(self),
                None => r is Ok && final(self)@ == replaced(old(self)@, old_node, new_node),
            },
    {
        if !self.contains(old_node) || !self.contains(new_node) {
            return Err(WmError::StructuralIntegrity(StructuralFault::NoSuchNode));
        }
        if old_node == ROOT {
            return Err(WmError::StructuralIntegrity(StructuralFault::RootImmovable));
        }
        let parent = match self.nodes[old_node].parent {
            None => {
                return Err(WmError::StructuralIntegrity(StructuralFault::NotAttached));
            },
            Some(parent) => parent,
        };
        if self.nodes[new_node].parent.is_some() {
            return Err(WmError::StructuralIntegrity(StructuralFault::AlreadyAttached));
        }
        if self.is_ancestor_or_self_of(new_node, parent) {
            return Err(WmError::StructuralIntegrity(StructuralFault::WouldCycle));
        }
        if !may_own(self.nodes[parent].kind, self.nodes[new_node].kind) {
            return Err(WmError::StructuralIntegrity(StructuralFault::KindMismatch));
        }
        let at = self.position_of(parent, old_node);
        let ghost pre = *self;
        let ghost sunk = self.sunk(new_node, self.depth@[parent as int] + 1);
        let ghost bound = 2 * self.max_depth@ + 1;
        self.nodes[parent].children.set(at, new_node);
        self.nodes[old_node].parent = None;
        self.nodes[new_node].parent = Some(parent);
        self.depth = Ghost(sunk);
        self.max_depth = Ghost(bound);
        proof {
            assert(self@ =~= replaced(pre@, old_node, new_node));
            lemma_replaced_wf(pre@, old_node, new_node);
            Self::lemma_reparented(&pre, self, new_node, parent);
        }
        Ok(())
    }

    /// Why `remove` would refuse, if it would.
    pub open spec fn remove_fault(&self, node: ContainerId) -> Option<StructuralFault> {
        if !self.has(node) {
            Some(StructuralFault::NoSuchNode)
        } else if node == ROOT {
            Some(StructuralFault::RootImmovable)
        } else if self.children(node).len() > 0 {
            Some(StructuralFault::HasChildren)
        } else {
            None
        }
    }

    /// Destroys a container: takes it out of its parent's children and out of
    /// the tree. Its children have to be moved elsewhere or removed first.
    /// Refused for the root, for a container that still has children and for
    /// one that does not exist.
    pub fn remove(&mut self, node: ContainerId) -> (r: Result<(), WmError>)
        requires
            old(self).wf(),
        ensures
            final(self).wf(),
            final(self).issued() == old(self).issued(),
            match old(self).remove_fault(node) {
                Some(f) => r == Err::<(), WmError>(WmError::StructuralIntegrity(f)) && *final(self)
                    == *old(self),
                None => r is Ok && final(self)@ == detached(old(self)@, node).remove(node),
            },
    {
        if !self.contains(node) {
            return Err(WmError::StructuralIntegrity(StructuralFault::NoSuchNode));
        }
        if node == ROOT {
            return Err(WmError::StructuralIntegrity(StructuralFault::RootImmovable));
        }
        if self.nodes[node].children.len() > 0 {
            return Err(WmError::StructuralIntegrity(StructuralFault::HasChildren));
        }
        let _ = self.detach(node);
        let ghost mid = *self;
        self.nodes[node].live = false;
        proof {
            assert(self@ =~= mid@.remove(node));
            assert(mid@[node].children == old(self)@[node].children);
            lemma_removed_wf(mid@, node);
            assert forall|x: int|
                0 <= x < self.nodes.len() && (#[trigger] self.nodes[x]).parent is Some implies {
                let p = self.nodes[x].parent.unwrap();
                p < self.nodes.len() && self.depth@[p as int] < self.depth@[x]
            } by {
                assert(self.nodes[x].parent == mid.nodes[x].parent);
            }
            assert forall|x: int|
                0 <= x < self.nodes.len() && !(#[trigger] self.nodes[x]).live implies self.nodes[x].parent
                is None by {
                if x != node {
                    assert(!mid.nodes[x].live);
                }
            }
        }
        Ok(())
    }
}

} // verus!

//! A branching undo history: every saved state is a node whose parent is
//! the state it was made from; undo moves to the parent, redo moves to the
//! child that was visited (or made) last.

use vstd::prelude::*;
use std::collections::HashMap;
use crate::format::{ConfigItem, ItemView, items_view};

verus! {

broadcast use vstd::std_specs::hash::group_hash_axioms;

/// A saved editing state: the entries and the selected position.
pub struct EditAction {
    pub state: Vec<ConfigItem>,
    pub selected: usize,
}

/// One node of the history.
pub struct UndoNode {
    pub action: EditAction,
    pub parent: Option<usize>,
    pub children: Vec<usize>,
}

/// The branching history.
pub struct UndoTree {
    nodes: HashMap<usize, UndoNode>,
    current_node: usize,
    next_id: usize,
    /// For each node, the child that redo follows.
    latest_branch: HashMap<usize, usize>,
}

/// The mathematical form of a saved state.
pub struct ActionView {
    pub state: Seq<ItemView>,
    pub selected: usize,
}

impl View for EditAction {
    type V = ActionView;

    open spec fn view(&self) -> ActionView {
        ActionView { state: items_view(self.state@), selected: self.selected }
    }
}

/// The mathematical form of a node.
pub struct NodeView {
    pub action: ActionView,
    pub parent: Option<usize>,
    pub children: Seq<usize>,
}

impl View for UndoNode {
    type V = NodeView;

    open spec fn view(&self) -> NodeView {
        NodeView { action: self.action@, parent: self.parent, children: self.children@ }
    }
}

/// The mathematical form of the history.
pub struct TreeView {
    pub nodes: Map<usize, NodeView>,
    pub current: usize,
    pub next_id: usize,
    pub latest: Map<usize, usize>,
}

impl View for UndoTree {
    type V = TreeView;

    closed spec fn view(&self) -> TreeView {
        TreeView {
            nodes: self.nodes@.map_values(|n: UndoNode| n@),
            current: self.current_node,
            next_id: self.next_id,
            latest: self.latest_branch@,
        }
    }
}

/// Every ancestor of `n`, and `n` itself, is the child that redo follows
/// from its parent.
pub open spec fn on_redo_path(t: TreeView, n: usize) -> bool
    decreases n,
{
    match t.nodes[n].parent {
        None => true,
        Some(q) => q < n && t.latest.contains_key(q) && t.latest[q] == n && on_redo_path(t, q),
    }
}

/// The shape that every history keeps: nodes numbered densely from 0 (the
/// root), parents numbered below their children, children lists and redo
/// choices that agree with the parents, and the current node on the redo
/// path.
pub open spec fn tree_wf(t: TreeView) -> bool {
    &&& 1 <= t.next_id
    &&& forall|id: usize| #[trigger] t.nodes.contains_key(id) <==> id < t.next_id
    &&& t.current < t.next_id
    &&& t.nodes[0].parent is None
    &&& forall|id: usize|
        0 < id < t.next_id ==> ((#[trigger] t.nodes[id]).parent matches Some(p) && p < id)
    &&& forall|id: usize, k: int|
        id < t.next_id && 0 <= k < t.nodes[id].children.len() ==> {
            let c = #[trigger] t.nodes[id].children[k];
            c < t.next_id && t.nodes[c].parent == Some(id)
        }
    &&& forall|p: usize|
        #[trigger] t.latest.contains_key(p) ==> p < t.next_id && t.latest[p] < t.next_id
            && t.nodes[t.latest[p]].parent == Some(p)
    &&& on_redo_path(t, t.current)
}

/// The history after a new state is saved below the current one.
pub open spec fn spec_push(t: TreeView, state: Seq<ItemView>, selected: usize) -> TreeView {
    let id = t.next_id;
    let cur = t.nodes[t.current];
    TreeView {
        nodes: t.nodes.insert(
            id,
            NodeView {
                action: ActionView { state, selected },
                parent: Some(t.current),
                children: Seq::empty(),
            },
        ).insert(t.current, NodeView { children: cur.children.push(id), ..cur }),
        current: id,
        next_id: (id + 1) as usize,
        latest: t.latest.insert(t.current, id),
    }
}

/// The node that undo moves to, if any: the parent of the current node.
pub open spec fn undo_target(t: TreeView) -> Option<usize> {
    t.nodes[t.current].parent
}

/// The history after an undo.
pub open spec fn spec_undo(t: TreeView) -> TreeView {
    match undo_target(t) {
        Some(p) => TreeView { current: p, ..t },
        None => t,
    }
}

/// The node that redo moves to, if any: the recorded redo choice, else the
/// most recent child.
pub open spec fn redo_target(t: TreeView) -> Option<usize> {
    if t.latest.contains_key(t.current) {
        Some(t.latest[t.current])
    } else if t.nodes[t.current].children.len() > 0 {
        Some(t.nodes[t.current].children.last())
    } else {
        None
    }
}

/// The history after a redo.
pub open spec fn spec_redo(t: TreeView) -> TreeView {
    if t.latest.contains_key(t.current) {
        TreeView { current: t.latest[t.current], ..t }
    } else if t.nodes[t.current].children.len() > 0 {
        let c = t.nodes[t.current].children.last();
        TreeView { current: c, latest: t.latest.insert(t.current, c), ..t }
    } else {
        t
    }
}

proof fn lemma_redo_path_frame(t: TreeView, u: TreeView, n: usize)
    requires
        on_redo_path(t, n),
        forall|m: usize| m <= n ==> #[trigger] u.nodes[m].parent == t.nodes[m].parent,
        forall|q: usize| q < n ==> (#[trigger] u.latest.contains_key(q) == t.latest.contains_key(q)
            && u.latest[q] == t.latest[q]),
    ensures
        on_redo_path(u, n),
    decreases n,
{
    match t.nodes[n].parent {
        None => {},
        Some(q) => {
            assert(u.nodes[n].parent == Some(q));
            assert(u.latest.contains_key(q) == t.latest.contains_key(q));
            lemma_redo_path_frame(t, u, q);
        },
    }
}

impl UndoTree {
    /// Whether the history has its shape.
    pub closed spec fn wf(&self) -> bool {
        tree_wf(self@)
    }

    /// A history with its shape has the shape that the laws below ask of
    /// its mathematical form.
    pub proof fn lemma_wf(&self)
        requires
            self.wf(),
        ensures
            tree_wf(self@),
    {
    }

    /// A history holding only the initial state, which is current.
    pub fn new(initial_state: Vec<ConfigItem>, initial_selected: usize) -> (t: Self)
        ensures
            t.wf(),
            t@.next_id == 1,
            t@.current == 0,
            t@.nodes[0] == (NodeView {
                action: ActionView { state: items_view(initial_state@), selected: initial_selected },
                parent: None,
                children: Seq::empty(),
            }),
            t@.latest == Map::<usize, usize>::empty(),
    {
        let root_id: usize = 0;
        let root_node = UndoNode {
            action: EditAction { state: initial_state, selected: initial_selected },
            parent: None,
            children: Vec::new(),
        };
        let mut nodes: HashMap<usize, UndoNode> = HashMap::new();
        nodes.insert(root_id, root_node);
        let t = UndoTree {
            nodes,
            current_node: root_id,
            next_id: 1,
            latest_branch: HashMap::new(),
        };
        proof {
            assert(t@.nodes.contains_key(0));
            assert forall|id: usize| #[trigger] t@.nodes.contains_key(id) <==> id < t@.next_id by {}
            assert(t@.nodes[0] =~= root_node@);
        }
        t
    }

    /// Saves a new state below the current one and makes it current.
    pub fn push(&mut self, state: Vec<ConfigItem>, selected: usize)
        requires
            old(self).wf(),
            old(self)@.next_id < usize::MAX,
        ensures
            final(self).wf(),
            final(self)@ == spec_push(old(self)@, items_view(state@), selected),
    {
        let ghost t = self@;
        let ghost sv = items_view(state@);
        let new_id = self.next_id;
        self.next_id = self.next_id + 1;
        let new_node = UndoNode {
            action: EditAction { state, selected },
            parent: Some(self.current_node),
            children: Vec::new(),
        };
        let ghost nv = new_node@;
        let ghost m0 = self.nodes@;
        proof {
            assert(t.nodes.contains_key(t.current));
            assert(m0.contains_key(t.current));
        }
        self.nodes.insert(new_id, new_node);
        let ghost m1 = self.nodes@;
        match self.nodes.remove(&self.current_node) {
            Some(mut parent_node) => {
                assert(parent_node == m1[t.current]);
                parent_node.children.push(new_id);
                let ghost pv = parent_node@;
                self.nodes.insert(self.current_node, parent_node);
                proof {
                    let u = spec_push(t, sv, selected);
                    assert(pv == NodeView { children: t.nodes[t.current].children.push(new_id), ..t.nodes[t.current] });
                    assert forall|k: usize| #[trigger] self.nodes@.contains_key(k) == u.nodes.contains_key(k) by {}
                    assert forall|k: usize| #[trigger] self.nodes@.contains_key(k) implies self.nodes@[k]@ == u.nodes[k] by {
                        if k == t.current {
                        } else if k == new_id {
                        } else {
                            assert(self.nodes@[k] == m0[k]);
                        }
                    }
                }
            },
            None => {
                assert(false);
            },
        }
        self.latest_branch.insert(self.current_node, new_id);
        self.current_node = new_id;
        proof {
            let u = spec_push(t, sv, selected);
            assert(self@.nodes =~= u.nodes);
            assert(self@.latest =~= u.latest);
            assert(self@ == u);
            assert forall|m: usize| m <= t.current implies #[trigger] u.nodes[m].parent
                == t.nodes[m].parent by {}
            assert forall|q: usize| q < t.current implies (#[trigger] u.latest.contains_key(q)
                == t.latest.contains_key(q) && u.latest[q] == t.latest[q]) by {}
            lemma_redo_path_frame(t, u, t.current);
            assert(on_redo_path(u, new_id));
            assert forall|id: usize, k: int|
                id < u.next_id && 0 <= k < u.nodes[id].children.len() implies {
                    let c = #[trigger] u.nodes[id].children[k];
                    c < u.next_id && u.nodes[c].parent == Some(id)
                } by {
                if id == t.current && k == u.nodes[id].children.len() - 1 {
                } else if id == t.current {
                    assert(u.nodes[id].children[k] == t.nodes[id].children[k]);
                } else if id == new_id {
                } else {
                }
            }
            assert forall|id: usize|
                0 < id < u.next_id implies ((#[trigger] u.nodes[id]).parent matches Some(p) && p < id) by {
                if id == new_id {
                } else {
                }
            }
        }
    }

    /// The state saved at node `id`, when there is such a node.
    fn action_at(&self, id: usize) -> (r: Option<&EditAction>)
        requires
            self.wf(),
        ensures
            id < self@.next_id ==> (r matches Some(a) && a@ == self@.nodes[id].action),
            id >= self@.next_id ==> r is None,
    {
        proof {
            assert(self@.nodes.contains_key(id) <==> id < self@.next_id);
        }
        match self.nodes.get(&id) {
            Some(n) => Some(&n.action),
            None => None,
        }
    }

    /// Moves to the parent of the current node, if any, and tells which
    /// node that is.
    fn step_undo(&mut self) -> (r: Option<usize>)
        requires
            old(self).wf(),
        ensures
            final(self).wf(),
            final(self)@ == spec_undo(old(self)@),
            r == undo_target(old(self)@),
            r matches Some(p) ==> p < old(self)@.next_id,
    {
        let ghost t = self@;
        proof {
            assert(t.nodes.contains_key(t.current));
        }
        match self.nodes.get(&self.current_node) {
            Some(current) => match current.parent {
                Some(parent_id) => {
                    assert(t.nodes[t.current].parent == Some(parent_id));
                    self.current_node = parent_id;
                    proof {
                        assert(self@ == spec_undo(t));
                        assert(t.nodes.contains_key(parent_id));
                        lemma_redo_path_frame(t, self@, parent_id);
                    }
                    Some(parent_id)
                },
                None => None,
            },
            None => None,
        }
    }

    /// Moves to the child that redo follows (or, when none was recorded,
    /// to the most recent child, which is then recorded), if any, and
    /// tells which node that is.
    fn step_redo(&mut self) -> (r: Option<usize>)
        requires
            old(self).wf(),
        ensures
            final(self).wf(),
            final(self)@ == spec_redo(old(self)@),
            r == redo_target(old(self)@),
            r matches Some(c) ==> c < old(self)@.next_id,
    {
        let ghost t = self@;
        proof {
            assert(t.nodes.contains_key(t.current));
        }
        match self.latest_branch.get(&self.current_node) {
            Some(next) => {
                let next_id = *next;
                self.current_node = next_id;
                proof {
                    assert(self@ == spec_redo(t));
                    assert(t.nodes.contains_key(next_id));
                    lemma_redo_path_frame(t, self@, t.current);
                    assert(on_redo_path(self@, next_id));
                }
                Some(next_id)
            },
            None => {
                let current_id = self.current_node;
                let last_child = match self.nodes.get(&current_id) {
                    Some(current) => {
                        if current.children.len() > 0 {
                            Some(current.children[current.children.len() - 1])
                        } else {
                            None
                        }
                    },
                    None => None,
                };
                match last_child {
                    Some(child_id) => {
                        self.current_node = child_id;
                        self.latest_branch.insert(current_id, child_id);
                        proof {
                            let u = spec_redo(t);
                            assert(self@.latest =~= u.latest);
                            assert(self@ == u);
                            let k = t.nodes[current_id].children.len() - 1;
                            assert(t.nodes[current_id].children[k] == child_id);
                            assert forall|m: usize| m <= current_id implies #[trigger] u.nodes[m].parent
                                == t.nodes[m].parent by {}
                            assert forall|q: usize| q < current_id implies (
                            #[trigger] u.latest.contains_key(q) == t.latest.contains_key(q)
                                && u.latest[q] == t.latest[q]) by {}
                            lemma_redo_path_frame(t, u, current_id);
                            assert(on_redo_path(u, child_id));
                        }
                        Some(child_id)
                    },
                    None => None,
                }
            },
        }
    }

    /// Moves to the parent of the current state and gives back the state
    /// saved there; at the initial state nothing changes and nothing is
    /// given back.
    pub fn undo(&mut self) -> (r: Option<&EditAction>)
        requires
            old(self).wf(),
        ensures
            final(self).wf(),
            final(self)@ == spec_undo(old(self)@),
            match undo_target(old(self)@) {
                Some(p) => r matches Some(a) && a@ == old(self)@.nodes[p].action,
                None => r is None,
            },
    {
        match self.step_undo() {
            Some(p) => self.action_at(p),
            None => None,
        }
    }

    /// Moves to the child that redo follows (or, when none was recorded, to
    /// the most recent child, which is then recorded) and gives back the
    /// state saved there; with no child nothing changes and nothing is
    /// given back.
    pub fn redo(&mut self) -> (r: Option<&EditAction>)
        requires
            old(self).wf(),
        ensures
            final(self).wf(),
            final(self)@ == spec_redo(old(self)@),
            match redo_target(old(self)@) {
                Some(c) => r matches Some(a) && a@ == old(self)@.nodes[c].action,
                None => r is None,
            },
    {
        match self.step_redo() {
            Some(c) => self.action_at(c),
            None => None,
        }
    }
}

/// Right after saving a state there is nothing to redo; undoing then goes
/// back to the state that was current before, and gives it back; redoing
/// after that goes to the saved state again.
pub proof fn law_undo_after_push(t: TreeView, state: Seq<ItemView>, selected: usize)
    requires
        tree_wf(t),
        t.next_id < usize::MAX,
    ensures
        redo_target(spec_push(t, state, selected)) is None,
        undo_target(spec_push(t, state, selected)) == Some(t.current),
        spec_undo(spec_push(t, state, selected)).current == t.current,
        spec_push(t, state, selected).nodes[t.current].action == t.nodes[t.current].action,
        redo_target(spec_undo(spec_push(t, state, selected))) == Some(t.next_id),
        spec_push(t, state, selected).nodes[t.next_id].action == (ActionView { state, selected }),
{
    let p = spec_push(t, state, selected);
    assert(!t.latest.contains_key(t.next_id));
    assert(p.nodes[t.next_id].children.len() == 0);
}

/// Redoing right after undoing returns to the state that was current
/// before the undo.
pub proof fn law_redo_after_undo(t: TreeView)
    requires
        tree_wf(t),
        undo_target(t) is Some,
    ensures
        redo_target(spec_undo(t)) == Some(t.current),
        spec_redo(spec_undo(t)).current == t.current,
{
}

/// Undo at the initial state changes nothing.
pub proof fn law_undo_at_root(t: TreeView)
    requires
        tree_wf(t),
        t.current == 0,
    ensures
        undo_target(t) is None,
        spec_undo(t) == t,
{
}

} // verus!

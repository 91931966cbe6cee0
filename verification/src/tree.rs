use vstd::prelude::*;
use crate::component::{
    lemma_create_identity, lemma_update_keeps_identity, ComponentKind, ErasedComponent, ErasedProps,
};
use crate::index::Index;

verus! {

/// What a node of the tree holds.
pub struct NodeView {
    /// The component of the node.
    pub widget: ErasedComponent,
    /// The node above, which only the root lacks.
    pub parent: Option<Index>,
    /// The nodes below, in the order in which they were authored.
    pub children: Seq<Index>,
    /// How many of the children the current frame has authored so far.
    pub cursor: nat,
    /// The number of steps from the root down to the node.
    pub depth: nat,
}

/// The tree as a mathematical value: its live nodes by key, its root, and
/// the scopes that the authoring code has open, the outermost first.
pub struct DomView {
    pub nodes: Map<Index, NodeView>,
    pub root: Index,
    pub stack: Seq<Index>,
}

impl DomView {
    pub open spec fn contains(self, index: Index) -> bool {
        self.nodes.contains_key(index)
    }

    /// The innermost open scope: the node whose children are being authored.
    pub open spec fn current(self) -> Index {
        self.stack.last()
    }

    /// `c` is live and names `p` as its parent, one step further down.
    pub open spec fn links(self, p: Index, c: Index) -> bool {
        &&& self.nodes.contains_key(c)
        &&& self.nodes[c].parent == Some(p)
        &&& self.nodes[c].depth == self.nodes[p].depth + 1
    }

    /// The node `i` agrees with the nodes around it.
    pub open spec fn node_wf(self, i: Index) -> bool {
        let n = self.nodes[i];
        &&& n.cursor <= n.children.len()
        &&& (n.widget.spec_index() matches Some(j) ==> j == i)
        &&& (forall|k: int| 0 <= k < n.children.len() ==> self.links(i, #[trigger] n.children[k]))
        &&& n.children.no_duplicates()
        &&& (i == self.root ==> n.parent.is_none())
        &&& (i != self.root ==> match n.parent {
            Some(p) => self.nodes.contains_key(p) && self.nodes[p].children.contains(i),
            None => false,
        })
    }

    /// The `k`-th open scope is the child that its enclosing scope authored
    /// last.
    pub open spec fn scope_wf(self, k: int) -> bool {
        let p = self.stack[k - 1];
        let c = self.stack[k];
        &&& self.nodes.contains_key(p)
        &&& self.links(p, c)
        &&& 1 <= self.nodes[p].cursor <= self.nodes[p].children.len()
        &&& self.nodes[p].children[self.nodes[p].cursor - 1] == c
    }

    /// The invariant of the tree: finitely many nodes; parent and child
    /// links that agree; every node but the root listed once, by its parent;
    /// and the open scopes a path from the root down.
    pub open spec fn wf(self) -> bool {
        &&& self.nodes.dom().finite()
        &&& self.nodes.contains_key(self.root)
        &&& (forall|i: Index| #[trigger] self.nodes.contains_key(i) ==> self.node_wf(i))
        &&& self.stack.len() >= 1
        &&& self.stack[0] == self.root
        &&& (forall|k: int| 1 <= k < self.stack.len() ==> #[trigger] self.scope_wf(k))
    }

    /// `d` is the node `a` or lies below it.
    pub open spec fn in_subtree(self, d: Index, a: Index) -> bool
        decreases self.nodes[d].depth,
    {
        self.nodes.contains_key(d) && (d == a || match self.nodes[d].parent {
            Some(q) => self.nodes[q].depth < self.nodes[d].depth && self.in_subtree(q, a),
            None => false,
        })
    }

    /// `d` is, or lies below, a child of `p` at position `keep` or later.
    pub open spec fn stale(self, p: Index, keep: int, d: Index) -> bool {
        exists|k: int|
            keep <= k < self.nodes[p].children.len() && self.in_subtree(
                d,
                #[trigger] self.nodes[p].children[k],
            )
    }

    /// The tree without the children of `p` from position `keep` on and
    /// without anything below them.
    pub open spec fn trimmed(self, p: Index, keep: int) -> DomView {
        DomView {
            nodes: Map::new(
                |d: Index| self.nodes.contains_key(d) && !self.stale(p, keep, d),
                |d: Index|
                    if d == p {
                        NodeView { children: self.nodes[p].children.take(keep), ..self.nodes[p] }
                    } else {
                        self.nodes[d]
                    },
            ),
            root: self.root,
            stack: self.stack,
        }
    }

    /// The tree with the cursor of `i` set anew.
    pub open spec fn with_cursor(self, i: Index, cursor: nat) -> DomView {
        DomView {
            nodes: self.nodes.insert(i, NodeView { cursor, ..self.nodes[i] }),
            root: self.root,
            stack: self.stack,
        }
    }

    /// The nodes that are neither `o` nor below it.
    pub open spec fn without(self, o: Index) -> Map<Index, NodeView> {
        Map::new(
            |d: Index| self.nodes.contains_key(d) && !self.in_subtree(d, o),
            |d: Index| self.nodes[d],
        )
    }

    /// The tree after the innermost scope has been closed: the children that
    /// were not authored again while it was open are gone, with all below them.
    pub open spec fn ended(self) -> DomView {
        let i = self.current();
        let t = self.trimmed(i, self.nodes[i].cursor as int);
        DomView { nodes: t.nodes, root: self.root, stack: self.stack.drop_last() }
    }

    /// The child that the previous frame left at the place that the
    /// innermost scope authors next.
    pub open spec fn next_existing(self) -> Option<Index> {
        let above = self.nodes[self.current()];
        if above.cursor < above.children.len() {
            Some(above.children[above.cursor as int])
        } else {
            None
        }
    }

    /// The place authored next holds a component of type `kind` already.
    pub open spec fn reuses(self, kind: ComponentKind) -> bool {
        match self.next_existing() {
            Some(c) => self.nodes[c].widget.spec_kind() == kind,
            None => false,
        }
    }

    /// The component of a node made anew, from properties of the type that
    /// `kind` takes.
    pub open spec fn fresh_widget(kind: ComponentKind, index: Index, props: ErasedProps) -> ErasedComponent
        recommends
            props.spec_kind() == kind.spec_props_kind(),
    {
        ErasedComponent::spec_create(kind, index, &props).unwrap()
    }

    /// The tree after a component of type `kind` has been authored with
    /// `props` at the next place of the innermost scope, where `index` is the
    /// key of the node if one is made. A node of the same type at that place
    /// is kept and takes the properties. Anything else there goes, with all
    /// below it, and a new node takes the place. The node's scope is open.
    /// The properties are of the type that `kind` takes.
    pub open spec fn began(self, kind: ComponentKind, props: ErasedProps, index: Index) -> DomView
        recommends
            props.spec_kind() == kind.spec_props_kind(),
    {
        let p = self.current();
        let above = self.nodes[p];
        let k = above.cursor as int;
        if self.reuses(kind) {
            let c = above.children[k];
            DomView {
                nodes: self.nodes.insert(p, NodeView { cursor: above.cursor + 1, ..above }).insert(
                    c,
                    NodeView {
                        widget: self.nodes[c].widget.spec_update(&props).unwrap(),
                        cursor: 0,
                        ..self.nodes[c]
                    },
                ),
                root: self.root,
                stack: self.stack.push(c),
            }
        } else {
            let fresh = NodeView {
                widget: DomView::fresh_widget(kind, index, props),
                parent: Some(p),
                children: Seq::empty(),
                cursor: 0,
                depth: above.depth + 1,
            };
            let kept = match self.next_existing() {
                Some(o) => self.without(o),
                None => self.nodes,
            };
            let children = match self.next_existing() {
                Some(o) => above.children.update(k, index),
                None => above.children.push(index),
            };
            DomView {
                nodes: kept.insert(p, NodeView { children, cursor: above.cursor + 1, ..above }).insert(
                    index,
                    fresh,
                ),
                root: self.root,
                stack: self.stack.push(index),
            }
        }
    }

    /// The tree with one more node, a leaf with the given component, as the
    /// last child of `p`.
    pub open spec fn appended(self, p: Index, index: Index, widget: ErasedComponent) -> DomView {
        let above = self.nodes[p];
        DomView {
            nodes: self.nodes.insert(
                p,
                NodeView { children: above.children.push(index), ..above },
            ).insert(
                index,
                NodeView {
                    widget,
                    parent: Some(p),
                    children: Seq::empty(),
                    cursor: 0,
                    depth: above.depth + 1,
                },
            ),
            root: self.root,
            stack: self.stack,
        }
    }

    /// The tree at the start of a frame: no scope but the root's is open,
    /// and none of the root's children has been authored yet.
    pub open spec fn started(self) -> DomView {
        DomView {
            nodes: self.nodes.insert(self.root, NodeView { cursor: 0, ..self.nodes[self.root] }),
            root: self.root,
            stack: seq![self.root],
        }
    }

    /// The tree at the end of a frame: every scope that was still open has
    /// been closed, the innermost first, and then the root's own.
    pub open spec fn finished(self) -> DomView
        decreases self.stack.len(),
    {
        if self.stack.len() > 1 {
            self.ended().finished()
        } else {
            self.trimmed(self.root, self.nodes[self.root].cursor as int)
        }
    }

    /// No open scope lies deeper than `p`.
    pub open spec fn scopes_above(self, p: Index) -> bool {
        forall|j: int|
            0 <= j < self.stack.len() ==> self.nodes[#[trigger] self.stack[j]].depth
                <= self.nodes[p].depth
    }
}

/// A node in the subtree of `a` lies at least as deep as `a`.
pub proof fn lemma_subtree_depth(v: DomView, d: Index, a: Index)
    requires
        v.in_subtree(d, a),
    ensures
        v.nodes[a].depth <= v.nodes[d].depth,
    decreases v.nodes[d].depth,
{
    if d != a {
        lemma_subtree_depth(v, v.nodes[d].parent.unwrap(), a);
    }
}

/// A child is live, and lies one step below its parent.
pub proof fn lemma_child_links(v: DomView, c: Index)
    requires
        v.wf(),
        v.contains(c),
        v.nodes[c].parent.is_some(),
    ensures
        v.contains(v.nodes[c].parent.unwrap()),
        v.links(v.nodes[c].parent.unwrap(), c),
        v.nodes[v.nodes[c].parent.unwrap()].children.contains(c),
{
    let p = v.nodes[c].parent.unwrap();
    assert(v.node_wf(c));
    assert(v.node_wf(p));
    let k = choose|k: int| 0 <= k < v.nodes[p].children.len() && v.nodes[p].children[k] == c;
    assert(v.links(p, v.nodes[p].children[k]));
}

/// What lies below a child of `a` lies below `a`.
pub proof fn lemma_subtree_of_child(v: DomView, d: Index, c: Index, a: Index)
    requires
        v.wf(),
        v.in_subtree(d, c),
        v.nodes[c].parent == Some(a),
    ensures
        v.in_subtree(d, a),
    decreases v.nodes[d].depth,
{
    if d == c {
        lemma_child_links(v, c);
        assert(v.in_subtree(a, a));
    } else {
        let q = v.nodes[d].parent.unwrap();
        lemma_subtree_of_child(v, q, c, a);
    }
}

/// What lies strictly below `a` lies in the subtree of one of its children.
pub proof fn lemma_subtree_through_child(v: DomView, d: Index, a: Index)
    requires
        v.wf(),
        v.in_subtree(d, a),
        d != a,
    ensures
        v.stale(a, 0, d),
    decreases v.nodes[d].depth,
{
    let q = v.nodes[d].parent.unwrap();
    lemma_child_links(v, d);
    if q == a {
        let k = choose|k: int| 0 <= k < v.nodes[a].children.len() && v.nodes[a].children[k] == d;
        assert(v.in_subtree(d, v.nodes[a].children[k]));
    } else {
        lemma_subtree_through_child(v, q, a);
        let k = choose|k: int|
            0 <= k < v.nodes[a].children.len() && v.in_subtree(q, #[trigger] v.nodes[a].children[k]);
        assert(v.in_subtree(d, v.nodes[a].children[k]));
    }
}

/// Two trees that agree on the parent and the depth of every node of the
/// second agree on which of its nodes lie below which.
pub proof fn lemma_subtree_agrees(v: DomView, w: DomView, d: Index, a: Index)
    requires
        w.wf(),
        w.contains(d),
        forall|e: Index| #[trigger]
            w.nodes.contains_key(e) ==> v.nodes.contains_key(e) && v.nodes[e].parent
                == w.nodes[e].parent && v.nodes[e].depth == w.nodes[e].depth,
    ensures
        v.in_subtree(d, a) == w.in_subtree(d, a),
    decreases w.nodes[d].depth,
{
    if d != a {
        match w.nodes[d].parent {
            Some(q) => {
                lemma_child_links(w, d);
                lemma_subtree_agrees(v, w, q, a);
            },
            None => {},
        }
    }
}

/// The open scopes lie one below the other, so none lies deeper than the
/// innermost.
pub proof fn lemma_scope_depths(v: DomView, j: int)
    requires
        v.wf(),
        0 <= j < v.stack.len(),
    ensures
        v.contains(v.stack[j]),
        v.nodes[v.stack[j]].depth + (v.stack.len() - 1 - j) == v.nodes[v.current()].depth,
    decreases v.stack.len() - j,
{
    if j < v.stack.len() - 1 {
        lemma_scope_depths(v, j + 1);
        assert(v.scope_wf(j + 1));
    } else if j >= 1 {
        assert(v.scope_wf(j));
    }
}

/// No open scope lies deeper than the innermost one.
pub proof fn lemma_scopes_above_current(v: DomView)
    requires
        v.wf(),
    ensures
        v.scopes_above(v.current()),
        v.contains(v.current()),
{
    assert forall|j: int| 0 <= j < v.stack.len() implies v.nodes[#[trigger] v.stack[j]].depth
        <= v.nodes[v.current()].depth by {
        lemma_scope_depths(v, j);
    }
    lemma_scope_depths(v, v.stack.len() - 1);
}

/// A node that is to go, or lies below one, lies deeper than `p`.
pub proof fn lemma_stale_is_deeper(v: DomView, p: Index, keep: int, d: Index)
    requires
        v.wf(),
        v.contains(p),
        0 <= keep,
        v.stale(p, keep, d),
    ensures
        v.nodes[d].depth > v.nodes[p].depth,
{
    let cs = v.nodes[p].children;
    let k = choose|k: int| keep <= k < cs.len() && v.in_subtree(d, #[trigger] cs[k]);
    lemma_subtree_depth(v, d, cs[k]);
    assert(v.node_wf(p));
    assert(v.links(p, cs[k]));
}

/// Trimming the children of a node that no open scope lies below keeps the
/// tree well formed, as long as the children that the frame has authored stay.
pub proof fn lemma_trimmed_wf(v: DomView, p: Index, keep: int)
    requires
        v.wf(),
        v.contains(p),
        v.nodes[p].cursor <= keep <= v.nodes[p].children.len(),
        v.scopes_above(p),
    ensures
        v.trimmed(p, keep).wf(),
{
    let t = v.trimmed(p, keep);
    let cs = v.nodes[p].children;
    assert(v.node_wf(p));
    assert(t.nodes.dom().subset_of(v.nodes.dom()));
    vstd::set_lib::lemma_len_subset(t.nodes.dom(), v.nodes.dom());
    assert forall|j: int| 0 <= j < v.stack.len() implies t.nodes.contains_key(
        #[trigger] v.stack[j],
    ) by {
        lemma_scope_depths(v, j);
        if v.stale(p, keep, v.stack[j]) {
            lemma_stale_is_deeper(v, p, keep, v.stack[j]);
        }
    }
    assert(t.nodes.contains_key(v.stack[0]));
    assert forall|d: Index| #[trigger] t.nodes.contains_key(d) implies t.node_wf(d) by {
        assert(v.node_wf(d));
        let n = t.nodes[d];
        assert forall|k: int| 0 <= k < n.children.len() implies t.links(
            d,
            #[trigger] n.children[k],
        ) by {
            let c = n.children[k];
            assert(c == v.nodes[d].children[k]);
            assert(v.links(d, v.nodes[d].children[k]));
            if v.stale(p, keep, c) {
                let j = choose|j: int| keep <= j < cs.len() && v.in_subtree(c, #[trigger] cs[j]);
                assert(v.links(p, cs[j]));
                if c == cs[j] {
                    assert(d == p);
                    assert(cs[k] == cs[j]);
                    assert(false);
                } else {
                    assert(v.in_subtree(d, cs[j]));
                    assert(false);
                }
            }
        }
        if d != t.root {
            let q = v.nodes[d].parent.unwrap();
            lemma_child_links(v, d);
            if v.stale(p, keep, q) {
                let j = choose|j: int| keep <= j < cs.len() && v.in_subtree(q, #[trigger] cs[j]);
                assert(v.in_subtree(d, cs[j]));
                assert(false);
            }
            let k = choose|k: int|
                0 <= k < v.nodes[q].children.len() && v.nodes[q].children[k] == d;
            if q == p {
                if k >= keep {
                    assert(v.in_subtree(d, cs[k]));
                    assert(false);
                }
            }
            assert(t.nodes[q].children[k] == d);
        }
    }
    assert forall|k: int| 1 <= k < t.stack.len() implies #[trigger] t.scope_wf(k) by {
        assert(v.scope_wf(k));
        assert(t.nodes.contains_key(v.stack[k - 1]));
        assert(t.nodes.contains_key(v.stack[k]));
    }
}

/// Trimming from the end of the child list on changes nothing.
pub proof fn lemma_trimmed_nothing(v: DomView, p: Index)
    requires
        v.contains(p),
    ensures
        v.trimmed(p, v.nodes[p].children.len() as int) == v,
{
    let t = v.trimmed(p, v.nodes[p].children.len() as int);
    assert(v.nodes[p].children.take(v.nodes[p].children.len() as int) =~= v.nodes[p].children);
    assert(t.nodes =~= v.nodes);
}

/// Closing the innermost scope keeps the tree well formed.
pub proof fn lemma_ended_wf(v: DomView)
    requires
        v.wf(),
        v.stack.len() > 1,
    ensures
        v.ended().wf(),
        v.ended().stack.len() == v.stack.len() - 1,
{
    let i = v.current();
    lemma_scopes_above_current(v);
    assert(v.node_wf(i));
    lemma_trimmed_wf(v, i, v.nodes[i].cursor as int);
    let t = v.trimmed(i, v.nodes[i].cursor as int);
    let w = v.ended();
    assert forall|k: int| 1 <= k < w.stack.len() implies #[trigger] w.scope_wf(k) by {
        assert(t.scope_wf(k));
    }
}

/// Starting a frame keeps the tree well formed.
pub proof fn lemma_started_wf(v: DomView)
    requires
        v.wf(),
    ensures
        v.started().wf(),
{
    let w = v.started();
    assert(v.node_wf(v.root));
    assert forall|d: Index| #[trigger] w.nodes.contains_key(d) implies w.node_wf(d) by {
        assert(v.nodes.contains_key(d));
        assert(v.node_wf(d));
        assert forall|k: int| 0 <= k < w.nodes[d].children.len() implies w.links(
            d,
            #[trigger] w.nodes[d].children[k],
        ) by {
            assert(v.links(d, v.nodes[d].children[k]));
        }
        if d != w.root {
            lemma_child_links(v, d);
            let q = v.nodes[d].parent.unwrap();
            let k = choose|k: int|
                0 <= k < v.nodes[q].children.len() && v.nodes[q].children[k] == d;
            assert(w.nodes[q].children[k] == d);
        }
    }
}

/// A node that no open scope lies at or below can have its cursor set back
/// and its children taken away; without the node itself, what is left is the
/// tree without the node's subtree.
pub proof fn lemma_cleared_without(v: DomView, o: Index)
    requires
        v.wf(),
        v.contains(o),
        forall|j: int| 0 <= j < v.stack.len() ==> v.nodes[#[trigger] v.stack[j]].depth < v.nodes[o].depth,
    ensures
        v.with_cursor(o, 0).wf(),
        v.with_cursor(o, 0).scopes_above(o),
        v.with_cursor(o, 0).trimmed(o, 0).wf(),
        v.with_cursor(o, 0).trimmed(o, 0).nodes[o].children.len() == 0,
        v.with_cursor(o, 0).trimmed(o, 0).nodes.contains_key(o),
        v.with_cursor(o, 0).trimmed(o, 0).nodes.remove(o) == v.without(o),
{
    let v1 = v.with_cursor(o, 0);
    assert(v.node_wf(o));
    assert forall|j: int| 0 <= j < v.stack.len() implies v.stack[j] != o by {}
    assert forall|d: Index| #[trigger] v1.nodes.contains_key(d) implies v1.node_wf(d) by {
        assert(v.nodes.contains_key(d));
        assert(v.node_wf(d));
        assert forall|k: int| 0 <= k < v1.nodes[d].children.len() implies v1.links(
            d,
            #[trigger] v1.nodes[d].children[k],
        ) by {
            assert(v.links(d, v.nodes[d].children[k]));
        }
        if d != v1.root {
            lemma_child_links(v, d);
            let q = v.nodes[d].parent.unwrap();
            let k = choose|k: int|
                0 <= k < v.nodes[q].children.len() && v.nodes[q].children[k] == d;
            assert(v1.nodes[q].children[k] == d);
        }
    }
    assert forall|k: int| 1 <= k < v1.stack.len() implies #[trigger] v1.scope_wf(k) by {
        assert(v.scope_wf(k));
        assert(v.stack[k - 1] != o);
        assert(v.stack[k] != o);
    }
    assert(v1.wf());
    lemma_trimmed_wf(v1, o, 0);
    let v2 = v1.trimmed(o, 0);
    assert(v1.in_subtree(o, o));
    if v1.stale(o, 0, o) {
        lemma_stale_is_deeper(v1, o, 0, o);
    }
    assert(v2.nodes.contains_key(o));
    assert forall|d: Index| v.nodes.contains_key(d) implies ((d == o || v1.stale(o, 0, d))
        <==> v.in_subtree(d, o)) by {
        if v.in_subtree(d, o) && d != o {
            lemma_subtree_through_child(v, d, o);
            let k = choose|k: int|
                0 <= k < v.nodes[o].children.len() && v.in_subtree(
                    d,
                    #[trigger] v.nodes[o].children[k],
                );
            lemma_subtree_agrees(v, v1, d, v.nodes[o].children[k]);
            assert(v1.in_subtree(d, v1.nodes[o].children[k]));
        }
        if v1.stale(o, 0, d) {
            let k = choose|k: int|
                0 <= k < v1.nodes[o].children.len() && v1.in_subtree(
                    d,
                    #[trigger] v1.nodes[o].children[k],
                );
            let c = v1.nodes[o].children[k];
            lemma_subtree_agrees(v, v1, d, c);
            assert(v.links(o, v.nodes[o].children[k]));
            lemma_subtree_of_child(v, d, c, o);
        }
        assert(v.in_subtree(o, o));
    }
    assert(v2.nodes.remove(o) =~= v.without(o));
}

/// Taking the last child of `p` away, with all below it, is trimming the
/// children of `p` to one fewer.
pub proof fn lemma_without_last(v: DomView, p: Index)
    requires
        v.wf(),
        v.contains(p),
        v.nodes[p].children.len() > 0,
    ensures
        v.trimmed(p, v.nodes[p].children.len() - 1).nodes == v.without(
            v.nodes[p].children.last(),
        ).insert(p, NodeView { children: v.nodes[p].children.drop_last(), ..v.nodes[p] }),
{
    let cs = v.nodes[p].children;
    let m = cs.len() - 1;
    let g = cs[m];
    let t = v.trimmed(p, m);
    let w = v.without(g).insert(p, NodeView { children: cs.drop_last(), ..v.nodes[p] });
    assert(v.node_wf(p));
    assert(v.links(p, cs[m]));
    assert forall|d: Index| v.stale(p, m, d) <==> v.in_subtree(d, g) by {
        if v.in_subtree(d, g) {
            assert(v.in_subtree(d, cs[m]));
        }
    }
    assert(v.in_subtree(p, p));
    if v.in_subtree(p, g) {
        lemma_subtree_depth(v, p, g);
    }
    assert(cs.take(m) =~= cs.drop_last());
    assert(t.nodes =~= w);
}

/// Trimming to one child more first changes nothing.
pub proof fn lemma_trimmed_twice(v: DomView, p: Index, n: int)
    requires
        v.wf(),
        v.contains(p),
        v.nodes[p].cursor <= n < v.nodes[p].children.len(),
        v.scopes_above(p),
    ensures
        v.trimmed(p, n + 1).trimmed(p, n) == v.trimmed(p, n),
{
    let u = v.trimmed(p, n + 1);
    let cs = v.nodes[p].children;
    lemma_trimmed_wf(v, p, n + 1);
    assert(v.node_wf(p));
    assert(v.links(p, cs[n]));
    assert(v.in_subtree(p, p));
    if v.stale(p, n + 1, p) {
        lemma_stale_is_deeper(v, p, n + 1, p);
    }
    assert(u.nodes.contains_key(p));
    assert(u.nodes[p].children =~= cs.take(n + 1));
    assert forall|d: Index| #[trigger]
        u.nodes.contains_key(d) implies (u.stale(p, n, d) <==> v.in_subtree(d, cs[n])) by {
        lemma_subtree_agrees(v, u, d, cs[n]);
        if u.stale(p, n, d) {
            let k = choose|k: int|
                n <= k < u.nodes[p].children.len() && u.in_subtree(
                    d,
                    #[trigger] u.nodes[p].children[k],
                );
            assert(k == n);
        }
        if u.in_subtree(d, cs[n]) {
            assert(u.in_subtree(d, u.nodes[p].children[n]));
        }
    }
    assert forall|d: Index| v.stale(p, n, d) <==> (v.stale(p, n + 1, d) || v.in_subtree(
        d,
        cs[n],
    )) by {
        if v.stale(p, n, d) {
            let k = choose|k: int| n <= k < cs.len() && v.in_subtree(d, #[trigger] cs[k]);
            if k != n {
                assert(n + 1 <= k);
            }
        }
        if v.stale(p, n + 1, d) {
            let k = choose|k: int| n + 1 <= k < cs.len() && v.in_subtree(d, #[trigger] cs[k]);
            assert(n <= k);
        }
        if v.in_subtree(d, cs[n]) {
            assert(v.stale(p, n, d));
        }
    }
    assert(cs.take(n + 1).take(n) =~= cs.take(n));
    assert(u.trimmed(p, n).nodes =~= v.trimmed(p, n).nodes);
}

/// No open scope lies at or below the child that the innermost scope
/// authors next.
pub proof fn lemma_scopes_not_below(v: DomView, c: Index)
    requires
        v.wf(),
        v.contains(c),
        v.nodes[c].parent == Some(v.current()),
    ensures
        forall|j: int|
            0 <= j < v.stack.len() ==> v.nodes[#[trigger] v.stack[j]].depth < v.nodes[c].depth,
        forall|j: int| 0 <= j < v.stack.len() ==> !v.in_subtree(#[trigger] v.stack[j], c),
        forall|j: int| 0 <= j < v.stack.len() ==> v.contains(#[trigger] v.stack[j]),
{
    lemma_child_links(v, c);
    assert forall|j: int| 0 <= j < v.stack.len() implies v.nodes[#[trigger] v.stack[j]].depth
        < v.nodes[c].depth && !v.in_subtree(v.stack[j], c) && v.contains(v.stack[j]) by {
        lemma_scope_depths(v, j);
        if v.in_subtree(v.stack[j], c) {
            lemma_subtree_depth(v, v.stack[j], c);
        }
    }
}

/// Authoring a component where one of its type already stands keeps the tree
/// well formed.
pub proof fn lemma_began_reuse_wf(v: DomView, kind: ComponentKind, props: ErasedProps, index: Index)
    requires
        v.wf(),
        v.reuses(kind),
        props.spec_kind() == kind.spec_props_kind(),
    ensures
        v.began(kind, props, index).wf(),
{
    let w = v.began(kind, props, index);
    let p = v.current();
    lemma_scopes_above_current(v);
    assert(v.node_wf(p));
    let above = v.nodes[p];
    let k = above.cursor as int;
    let c = above.children[k];
    assert(v.links(p, c));
    assert(v.node_wf(c));
    lemma_update_keeps_identity(v.nodes[c].widget, props);
    lemma_scopes_not_below(v, c);
    assert(w.nodes.dom() =~= v.nodes.dom());
    assert forall|d: Index| #[trigger] w.nodes.contains_key(d) implies w.node_wf(d) by {
        assert(v.nodes.contains_key(d));
        assert(v.node_wf(d));
        assert(w.nodes[d].children == v.nodes[d].children);
        assert forall|j: int| 0 <= j < w.nodes[d].children.len() implies w.links(
            d,
            #[trigger] w.nodes[d].children[j],
        ) by {
            assert(v.links(d, v.nodes[d].children[j]));
        }
        if d != w.root {
            lemma_child_links(v, d);
            let q = v.nodes[d].parent.unwrap();
            let j = choose|j: int|
                0 <= j < v.nodes[q].children.len() && v.nodes[q].children[j] == d;
            assert(w.nodes[q].children[j] == d);
        }
    }
    assert forall|j: int| 1 <= j < w.stack.len() implies #[trigger] w.scope_wf(j) by {
        if j < v.stack.len() {
            assert(v.scope_wf(j));
            lemma_scope_depths(v, j - 1);
            assert(v.stack[j - 1] != p);
            assert(v.stack[j - 1] != c);
        }
    }
}

/// Authoring a component where none of its type stands keeps the tree well
/// formed: what stood there is gone with all below it, and a node with a
/// key that was not live takes the place.
pub proof fn lemma_began_fresh_wf(v: DomView, kind: ComponentKind, props: ErasedProps, index: Index)
    requires
        v.wf(),
        !v.reuses(kind),
        !v.contains(index),
        props.spec_kind() == kind.spec_props_kind(),
    ensures
        v.began(kind, props, index).wf(),
{
    let w = v.began(kind, props, index);
    let p = v.current();
    lemma_scopes_above_current(v);
    assert(v.node_wf(p));
    let above = v.nodes[p];
    let cs = above.children;
    let k = above.cursor as int;
    lemma_create_identity(kind, index, props);
    let kept = match v.next_existing() {
        Some(o) => v.without(o),
        None => v.nodes,
    };
    let children = w.nodes[p].children;
    assert(kept.dom().subset_of(v.nodes.dom()));
    vstd::set_lib::lemma_len_subset(kept.dom(), v.nodes.dom());
    assert(forall|d: Index| #[trigger] kept.contains_key(d) ==> v.nodes.contains_key(d) && kept[d] == v.nodes[d]);
    // what is kept: everything that lies no deeper than the scope, and every
    // child of the scope but the one replaced
    assert forall|d: Index| v.nodes.contains_key(d) && v.nodes[d].depth <= above.depth implies kept.contains_key(d) by {
        if v.next_existing().is_some() {
            let o = v.next_existing().unwrap();
            assert(v.links(p, cs[k]));
            if v.in_subtree(d, o) {
                lemma_subtree_depth(v, d, o);
            }
        }
    }
    assert(kept.contains_key(p));
    assert forall|j: int| 0 <= j < cs.len() && !(v.next_existing().is_some() && j == k) implies kept.contains_key(#[trigger] cs[j]) by {
        assert(v.links(p, cs[j]));
        if v.next_existing().is_some() {
            let o = v.next_existing().unwrap();
            assert(v.links(p, cs[k]));
            if v.in_subtree(cs[j], o) {
                assert(cs[j] != cs[k]);
                assert(v.in_subtree(p, o));
                lemma_subtree_depth(v, p, o);
            }
        }
    }
    assert forall|j: int| 0 <= j < children.len() implies w.links(p, #[trigger] children[j]) by {
        if children[j] != index {
            assert(children[j] == cs[j]);
            assert(v.links(p, cs[j]));
            assert(kept.contains_key(cs[j]));
        }
    }
    assert forall|i: int, j: int| 0 <= i < children.len() && 0 <= j < children.len() && i != j implies children[i] != children[j] by {
        if children[i] != index {
            assert(v.links(p, cs[i]));
        }
        if children[j] != index {
            assert(v.links(p, cs[j]));
        }
    }
    assert(children[k] == index);
    assert forall|d: Index| #[trigger] w.nodes.contains_key(d) implies w.node_wf(d) by {
        if d == index {
            assert(w.nodes[p].children[k] == index);
        } else if d == p {
            if p != v.root {
                lemma_child_links(v, p);
                let q = v.nodes[p].parent.unwrap();
                let j = choose|j: int|
                    0 <= j < v.nodes[q].children.len() && v.nodes[q].children[j] == p;
                assert(w.nodes[q].children[j] == p);
            }
        } else {
            assert(kept.contains_key(d));
            assert(v.node_wf(d));
            assert(w.nodes[d] == v.nodes[d]);
            assert forall|j: int| 0 <= j < w.nodes[d].children.len() implies w.links(
                d,
                #[trigger] w.nodes[d].children[j],
            ) by {
                let c = v.nodes[d].children[j];
                assert(v.links(d, c));
                if v.next_existing().is_some() {
                    let o = v.next_existing().unwrap();
                    assert(v.links(p, cs[k]));
                    if v.in_subtree(c, o) {
                        assert(v.in_subtree(d, o));
                    }
                }
                assert(kept.contains_key(c));
            }
            if d != w.root {
                lemma_child_links(v, d);
                let q = v.nodes[d].parent.unwrap();
                if v.next_existing().is_some() {
                    let o = v.next_existing().unwrap();
                    if v.in_subtree(q, o) {
                        assert(v.in_subtree(d, o));
                    }
                    assert(v.in_subtree(o, o));
                }
                assert(kept.contains_key(q));
                let j = choose|j: int|
                    0 <= j < v.nodes[q].children.len() && v.nodes[q].children[j] == d;
                if q == p {
                    assert(children[j] == d);
                }
                assert(w.nodes[q].children[j] == d);
            }
        }
    }
    assert forall|j: int| 1 <= j < w.stack.len() implies #[trigger] w.scope_wf(j) by {
        if j < v.stack.len() {
            assert(v.scope_wf(j));
            lemma_scope_depths(v, j - 1);
            lemma_scope_depths(v, j);
            assert(v.stack[j - 1] != p);
            assert(kept.contains_key(v.stack[j - 1]));
            assert(kept.contains_key(v.stack[j]));
        }
    }
}

/// A new leaf under a live node keeps the tree well formed.
pub proof fn lemma_appended_wf(v: DomView, p: Index, index: Index, widget: ErasedComponent)
    requires
        v.wf(),
        v.contains(p),
        !v.contains(index),
        widget.spec_index() matches Some(i) ==> i == index,
    ensures
        v.appended(p, index, widget).wf(),
{
    let w = v.appended(p, index, widget);
    assert(v.node_wf(p));
    let cs = v.nodes[p].children;
    let children = w.nodes[p].children;
    assert forall|j: int| 0 <= j < children.len() implies w.links(p, #[trigger] children[j]) by {
        if j < cs.len() {
            assert(v.links(p, cs[j]));
        }
    }
    assert forall|i: int, j: int|
        0 <= i < children.len() && 0 <= j < children.len() && i != j implies children[i]
        != children[j] by {
        if i < cs.len() {
            assert(v.links(p, cs[i]));
        }
        if j < cs.len() {
            assert(v.links(p, cs[j]));
        }
    }
    assert(children[cs.len() as int] == index);
    assert forall|d: Index| #[trigger] w.nodes.contains_key(d) implies w.node_wf(d) by {
        if d == index {
        } else {
            assert(v.node_wf(d));
            if d != p {
                assert forall|j: int| 0 <= j < w.nodes[d].children.len() implies w.links(
                    d,
                    #[trigger] w.nodes[d].children[j],
                ) by {
                    assert(v.links(d, v.nodes[d].children[j]));
                }
            }
            if d != w.root {
                lemma_child_links(v, d);
                let q = v.nodes[d].parent.unwrap();
                let j = choose|j: int|
                    0 <= j < v.nodes[q].children.len() && v.nodes[q].children[j] == d;
                assert(w.nodes[q].children[j] == d);
            }
        }
    }
    assert forall|j: int| 1 <= j < w.stack.len() implies #[trigger] w.scope_wf(j) by {
        assert(v.scope_wf(j));
    }
}

/// A new leaf beside `o` lies outside the subtree of `o`, and changes
/// nothing about what lies inside.
pub proof fn lemma_appended_without(
    v: DomView,
    p: Index,
    index: Index,
    widget: ErasedComponent,
    o: Index,
)
    requires
        v.wf(),
        v.contains(p),
        !v.contains(index),
        v.contains(o),
        v.nodes[o].parent == Some(p),
        widget.spec_index() matches Some(i) ==> i == index,
    ensures
        v.appended(p, index, widget).without(o) == v.without(o).insert(
            p,
            v.appended(p, index, widget).nodes[p],
        ).insert(index, v.appended(p, index, widget).nodes[index]),
{
    let w = v.appended(p, index, widget);
    lemma_appended_wf(v, p, index, widget);
    lemma_child_links(v, o);
    assert forall|d: Index| #[trigger] v.nodes.contains_key(d) implies (w.in_subtree(d, o)
        == v.in_subtree(d, o)) by {
        lemma_subtree_agrees(w, v, d, o);
    }
    if v.in_subtree(p, o) {
        lemma_subtree_depth(v, p, o);
    }
    assert(!w.in_subtree(p, o));
    assert(!w.in_subtree(index, o));
    assert(w.without(o) =~= v.without(o).insert(p, w.nodes[p]).insert(index, w.nodes[index]));
}

/// A component authored where the frame before left one of its type keeps
/// the node: the key is the same, the component is the old one after it took
/// the new properties, and the node still has its parent and its children.
/// Nothing else changes but the cursors of the node and of its parent.
pub proof fn lemma_reuse_keeps_node(v: DomView, kind: ComponentKind, props: ErasedProps, index: Index)
    requires
        v.wf(),
        v.reuses(kind),
    ensures
        ({
            let c = v.next_existing().unwrap();
            let p = v.current();
            let w = v.began(kind, props, index);
            &&& w.current() == c
            &&& w.nodes.dom() == v.nodes.dom()
            &&& w.nodes[c] == (NodeView {
                widget: v.nodes[c].widget.spec_update(&props).unwrap(),
                cursor: 0,
                ..v.nodes[c]
            })
            &&& w.nodes[p] == (NodeView { cursor: v.nodes[p].cursor + 1, ..v.nodes[p] })
            &&& forall|d: Index| v.contains(d) && d != c && d != p ==> w.nodes[d] == v.nodes[d]
        }),
{
    let p = v.current();
    lemma_scopes_above_current(v);
    assert(v.node_wf(p));
    let c = v.nodes[p].children[v.nodes[p].cursor as int];
    assert(v.links(p, c));
    assert(v.began(kind, props, index).nodes.dom() =~= v.nodes.dom());
}

/// A child that was not authored again while the scope of its parent was
/// open is gone once the scope is closed, and so is all that lay below it:
/// their keys are stale. Every other node is still there.
pub proof fn lemma_unauthored_removed(v: DomView, k: int, d: Index)
    requires
        v.wf(),
        v.stack.len() > 1,
        v.nodes[v.current()].cursor <= k < v.nodes[v.current()].children.len(),
    ensures
        !v.ended().contains(v.nodes[v.current()].children[k]),
        v.in_subtree(d, v.nodes[v.current()].children[k]) ==> !v.ended().contains(d),
        v.contains(d) && !v.stale(v.current(), v.nodes[v.current()].cursor as int, d)
            ==> v.ended().contains(d),
{
    let p = v.current();
    lemma_scopes_above_current(v);
    assert(v.node_wf(p));
    assert(v.links(p, v.nodes[p].children[k]));
    assert(v.in_subtree(v.nodes[p].children[k], v.nodes[p].children[k]));
}

/// A node whose place is authored with a component of another type is gone
/// at once, with all that lay below it, and the node that takes its place has
/// another key.
pub proof fn lemma_replaced_removed(
    v: DomView,
    kind: ComponentKind,
    props: ErasedProps,
    index: Index,
    d: Index,
)
    requires
        v.wf(),
        v.next_existing().is_some(),
        !v.reuses(kind),
        !v.contains(index),
    ensures
        !v.began(kind, props, index).contains(v.next_existing().unwrap()),
        v.in_subtree(d, v.next_existing().unwrap()) ==> !v.began(kind, props, index).contains(d),
        v.began(kind, props, index).contains(index),
{
    let p = v.current();
    let o = v.next_existing().unwrap();
    lemma_scopes_above_current(v);
    assert(v.node_wf(p));
    assert(v.links(p, v.nodes[p].children[v.nodes[p].cursor as int]));
    assert(v.in_subtree(o, o));
    if v.in_subtree(p, o) {
        lemma_subtree_depth(v, p, o);
    }
}

/// What a frame authored directly under the root, the next frame finds again:
/// once the frame is finished and the next one started, the node is still
/// live, under the same key, at the same place and with the same content,
/// and the first such node is what the next frame authors first.
pub proof fn lemma_next_frame_finds_authored(v: DomView, k: int)
    requires
        v.wf(),
        v.stack.len() == 1,
        0 <= k < v.nodes[v.root].cursor,
    ensures
        ({
            let c = v.nodes[v.root].children[k];
            let w = v.finished().started();
            &&& w.wf()
            &&& w.contains(c)
            &&& w.nodes[c] == v.nodes[c]
            &&& w.nodes[w.root].children[k] == c
            &&& w.nodes[w.root].cursor == 0
            &&& w.current() == w.root
            &&& (k == 0 ==> w.next_existing() == Some(c))
        }),
{
    let root = v.root;
    let cs = v.nodes[root].children;
    let keep = v.nodes[root].cursor as int;
    let c = cs[k];
    let t = v.trimmed(root, keep);
    assert(v.finished() == t);
    assert(v.node_wf(root));
    assert(v.stack[0] == root);
    lemma_trimmed_wf(v, root, keep);
    lemma_started_wf(t);
    assert(v.links(root, cs[k]));
    if v.stale(root, keep, c) {
        let j = choose|j: int| keep <= j < cs.len() && v.in_subtree(c, #[trigger] cs[j]);
        assert(v.links(root, cs[j]));
        assert(cs[k] != cs[j]);
        assert(v.in_subtree(root, cs[j]));
        lemma_subtree_depth(v, root, cs[j]);
    }
    assert(t.nodes.contains_key(c));
    assert(t.nodes.contains_key(root));
}

/// What a frame did not author under the root is gone when the next frame
/// starts, with all that lay below it.
pub proof fn lemma_next_frame_lacks_unauthored(v: DomView, k: int, d: Index)
    requires
        v.wf(),
        v.stack.len() == 1,
        v.nodes[v.root].cursor <= k < v.nodes[v.root].children.len(),
        v.in_subtree(d, v.nodes[v.root].children[k]),
    ensures
        !v.finished().started().contains(d),
{
    let root = v.root;
    let keep = v.nodes[root].cursor as int;
    let t = v.trimmed(root, keep);
    assert(v.finished() == t);
    assert(v.stale(root, keep, d));
    assert(v.in_subtree(root, root));
    if d == root {
        lemma_stale_is_deeper(v, root, keep, d);
    }
}

/// Closing the innermost scope leaves the node whose scope it was in the
/// tree, with the children that were authored while the scope was open.
pub proof fn lemma_ended_keeps_scope(v: DomView)
    requires
        v.wf(),
        v.stack.len() > 1,
    ensures
        v.ended().contains(v.current()),
        v.ended().nodes[v.current()].children == v.nodes[v.current()].children.take(
            v.nodes[v.current()].cursor as int,
        ),
{
    let p = v.current();
    lemma_scopes_above_current(v);
    assert(v.node_wf(p));
    assert(v.in_subtree(p, p));
    if v.stale(p, v.nodes[p].cursor as int, p) {
        lemma_stale_is_deeper(v, p, v.nodes[p].cursor as int, p);
    }
}

} // verus!

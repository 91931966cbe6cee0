use vstd::prelude::*;
use vstd::pervasive::unreached;
use crate::arena::{
    arena_get, arena_get_mut, arena_insert, arena_len, arena_new, arena_nodes, arena_remove,
};
use crate::component::{
    lemma_create_identity, ComponentKind, DummyComponent, ErasedComponent, ErasedProps,
};
use crate::index::Index;
use crate::tree::{
    lemma_appended_wf, lemma_appended_without, lemma_began_fresh_wf, lemma_began_reuse_wf,
    lemma_cleared_without, lemma_ended_wf, lemma_scope_depths, lemma_scopes_above_current,
    lemma_scopes_not_below, lemma_started_wf, lemma_stale_is_deeper, lemma_subtree_depth,
    lemma_trimmed_nothing, lemma_trimmed_twice, lemma_trimmed_wf, lemma_without_last, DomView,
    NodeView,
};

verus! {

/// One node of the tree: a component, the link to the node above, and the
/// keys of the nodes below in the order in which they were authored.
pub struct Node {
    pub widget: ErasedComponent,
    pub parent: Option<Index>,
    pub children: Vec<Index>,
    /// How many of the children the current frame has authored so far.
    pub next_child: usize,
}

impl Node {
    /// The node as a mathematical value, where it lies `depth` steps below
    /// the root.
    pub open spec fn at_depth(&self, depth: nat) -> NodeView {
        NodeView {
            widget: self.widget,
            parent: self.parent,
            children: self.children@,
            cursor: self.next_child as nat,
            depth,
        }
    }
}

/// The retained tree. Its nodes live in a generational arena and refer to
/// each other by key only; authoring code walks it anew every frame, and a
/// node that is authored again at its place keeps its key and its state.
pub struct Dom {
    nodes: thunderdome::Arena<Node>,
    root: Index,
    stack: Vec<Index>,
    depths: Ghost<Map<Index, nat>>,
    limit: Ghost<nat>,
}

impl View for Dom {
    type V = DomView;

    closed spec fn view(&self) -> DomView {
        DomView {
            nodes: Map::new(
                |i: Index| arena_nodes(self.nodes).contains_key(i),
                |i: Index| arena_nodes(self.nodes)[i].at_depth(self.depths@[i]),
            ),
            root: self.root,
            stack: self.stack@,
        }
    }
}

impl Dom {
    /// A bound on the depth of every node.
    pub closed spec fn limit(&self) -> nat {
        self.limit@
    }

    /// The tree is well formed, and no node lies deeper than the bound.
    pub open spec fn wf(&self) -> bool {
        &&& self@.wf()
        &&& forall|i: Index| #[trigger] self@.nodes.contains_key(i) ==> self@.nodes[i].depth <= self.limit()
    }

    /// How far above the bound a node lies: a measure that falls from a
    /// parent to each of its children.
    pub open spec fn rank(&self, i: Index) -> nat {
        (self.limit() - self@.nodes[i].depth) as nat
    }

    /// A tree of one node, the root, whose scope is open.
    pub fn new() -> (r: Dom)
        ensures
            r.wf(),
            r@.stack == seq![r@.root],
            r@.nodes.dom() == set![r@.root],
            r@.nodes[r@.root] == (NodeView {
                widget: ErasedComponent::Dummy(DummyComponent),
                parent: None,
                children: Seq::empty(),
                cursor: 0,
                depth: 0,
            }),
    {
        let mut nodes = arena_new();
        assert(arena_nodes(nodes).dom() =~= Set::<Index>::empty());
        let root = arena_insert(
            &mut nodes,
            Node {
                widget: ErasedComponent::Dummy(DummyComponent),
                parent: None,
                children: Vec::new(),
                next_child: 0,
            },
        );
        let mut stack: Vec<Index> = Vec::new();
        stack.push(root);
        let dom = Dom {
            nodes,
            root,
            stack,
            depths: Ghost(Map::<Index, nat>::empty().insert(root, 0)),
            limit: Ghost(0),
        };
        proof {
            assert(dom@.nodes.dom() =~= set![root]);
            assert(dom@.node_wf(root));
        }
        dom
    }

    /// The key of the root.
    pub fn root(&self) -> (r: Index)
        ensures
            r == self@.root,
    {
        self.root
    }

    /// The node whose children are being authored: the innermost open scope.
    pub fn current_node(&self) -> (r: Index)
        requires
            self.wf(),
        ensures
            r == self@.current(),
            self@.contains(r),
    {
        proof {
            lemma_scopes_above_current(self@);
        }
        self.stack[self.stack.len() - 1]
    }

    /// The number of scopes that are open, the root's included.
    pub fn open_scopes(&self) -> (r: usize)
        ensures
            r == self@.stack.len(),
    {
        self.stack.len()
    }

    /// The number of live nodes.
    pub fn len(&self) -> (r: usize)
        ensures
            r == self@.nodes.len(),
    {
        assert(self@.nodes.dom() =~= arena_nodes(self.nodes).dom());
        arena_len(&self.nodes)
    }

    /// Whether `index` is the key of a live node.
    pub fn contains(&self, index: Index) -> (r: bool)
        ensures
            r == self@.contains(index),
    {
        arena_get(&self.nodes, index).is_some()
    }

    /// The node under `index`; none under a key that is stale.
    pub fn get(&self, index: Index) -> (r: Option<&Node>)
        ensures
            match r {
                Some(node) => self@.contains(index) && node.at_depth(self@.nodes[index].depth)
                    == self@.nodes[index],
                None => !self@.contains(index),
            },
    {
        arena_get(&self.nodes, index)
    }

    /// The node under a live key.
    pub(crate) fn node(&self, index: Index) -> (r: &Node)
        requires
            self@.contains(index),
        ensures
            r.at_depth(self@.nodes[index].depth) == self@.nodes[index],
    {
        match arena_get(&self.nodes, index) {
            Some(node) => node,
            None => unreached(),
        }
    }

    fn reset_cursor(&mut self, index: Index)
        requires
            old(self)@.contains(index),
        ensures
            final(self)@ == old(self)@.with_cursor(index, 0),
            final(self).limit() == old(self).limit(),
    {
        match arena_get_mut(&mut self.nodes, index) {
            Some(node) => {
                node.next_child = 0;
            },
            None => {},
        }
        proof {
            assert(self@.nodes =~= old(self)@.with_cursor(index, 0).nodes);
        }
    }

    /// Takes the last child of `p` out of the child list and out of the arena.
    fn detach_last(&mut self, p: Index)
        requires
            old(self)@.contains(p),
            old(self)@.nodes[p].children.len() > 0,
        ensures
            final(self)@.nodes == old(self)@.nodes.insert(
                p,
                NodeView {
                    children: old(self)@.nodes[p].children.drop_last(),
                    ..old(self)@.nodes[p]
                },
            ).remove(old(self)@.nodes[p].children.last()),
            final(self)@.root == old(self)@.root,
            final(self)@.stack == old(self)@.stack,
            final(self).limit() == old(self).limit(),
    {
        let last = match arena_get_mut(&mut self.nodes, p) {
            Some(node) => node.children.pop(),
            None => None,
        };
        match last {
            Some(g) => {
                arena_remove(&mut self.nodes, g);
            },
            None => {},
        }
        proof {
            let cs = old(self)@.nodes[p].children;
            assert(cs.subrange(0, cs.len() - 1) =~= cs.drop_last());
            assert(self@.nodes =~= old(self)@.nodes.insert(
                p,
                NodeView { children: cs.drop_last(), ..old(self)@.nodes[p] },
            ).remove(cs.last()));
        }
    }

    /// Removes the children of `p` from position `keep` on, each with all
    /// that lies below it.
    fn trim(&mut self, p: Index, keep: usize)
        requires
            old(self).wf(),
            old(self)@.contains(p),
            old(self)@.nodes[p].cursor <= keep <= old(self)@.nodes[p].children.len(),
            old(self)@.scopes_above(p),
        ensures
            final(self).wf(),
            final(self)@ == old(self)@.trimmed(p, keep as int),
            final(self).limit() == old(self).limit(),
        decreases old(self).rank(p),
    {
        let mut n: usize = self.node(p).children.len();
        proof {
            lemma_trimmed_nothing(self@, p);
        }
        while n > keep
            invariant
                old(self).wf(),
                old(self)@.contains(p),
                old(self)@.nodes[p].cursor <= keep <= n <= old(self)@.nodes[p].children.len(),
                old(self)@.scopes_above(p),
                self.wf(),
                self@ == old(self)@.trimmed(p, n as int),
                self.limit() == old(self).limit(),
            decreases n,
        {
            let ghost v0 = old(self)@;
            let ghost v = self@;
            proof {
                assert(v0.in_subtree(p, p));
                if v0.stale(p, n as int, p) {
                    lemma_stale_is_deeper(v0, p, n as int, p);
                }
                assert(v.nodes.contains_key(p));
                assert(v.node_wf(p));
                assert(v.links(p, v.nodes[p].children[n - 1]));
            }
            let g = self.node(p).children[n - 1];
            proof {
                assert forall|j: int| 0 <= j < v.stack.len() implies v.nodes[#[trigger] v.stack[j]].depth
                    < v.nodes[g].depth by {
                    lemma_scope_depths(v, j);
                }
                lemma_cleared_without(v, g);
            }
            self.reset_cursor(g);
            self.trim(g, 0);
            proof {
                let v2 = self@;
                assert(v2.nodes.remove(g) == v.without(g));
                assert(v.in_subtree(p, p));
                if v.in_subtree(p, g) {
                    lemma_subtree_depth(v, p, g);
                }
                assert(v.without(g).contains_key(p));
                assert(v2.nodes.contains_key(p));
                assert(v2.nodes[p] == v.nodes[p]);
            }
            let ghost v2 = self@;
            self.detach_last(p);
            proof {
                let cs = v.nodes[p].children;
                lemma_without_last(v, p);
                assert(cs.len() == n);
                assert(self@.nodes =~= v.without(g).insert(
                    p,
                    NodeView { children: cs.drop_last(), ..v.nodes[p] },
                ));
                lemma_trimmed_twice(v0, p, n - 1);
                lemma_trimmed_wf(v0, p, n - 1);
                assert(self@ == v0.trimmed(p, n - 1));
            }
            n = n - 1;
        }
    }

    /// Starts a frame: closes every scope but the root's and marks none of
    /// the root's children as authored.
    pub fn start(&mut self)
        requires
            old(self).wf(),
        ensures
            final(self).wf(),
            final(self)@ == old(self)@.started(),
    {
        let root = self.root;
        self.reset_cursor(root);
        self.stack.truncate(1);
        proof {
            lemma_started_wf(old(self)@);
            assert(self@.stack =~= seq![root]);
            assert(self@.nodes =~= old(self)@.started().nodes);
        }
    }

    /// Closes the scope of `index`, the innermost one: the children that were
    /// not authored again while it was open are removed, with all below them.
    pub fn end(&mut self, index: Index)
        requires
            old(self).wf(),
            old(self)@.stack.len() > 1,
            old(self)@.current() == index,
        ensures
            final(self).wf(),
            final(self)@ == old(self)@.ended(),
    {
        proof {
            lemma_scopes_above_current(self@);
            lemma_ended_wf(self@);
            assert(self@.node_wf(index));
        }
        let keep = self.node(index).next_child;
        self.trim(index, keep);
        self.stack.pop();
        proof {
            assert(self@.stack =~= old(self)@.stack.drop_last());
        }
    }

    /// Ends a frame: closes every scope that is still open, the innermost
    /// first, and then removes what the frame did not author under the root.
    pub fn finish(&mut self)
        requires
            old(self).wf(),
        ensures
            final(self).wf(),
            final(self)@ == old(self)@.finished(),
    {
        while self.stack.len() > 1
            invariant
                self.wf(),
                self@.finished() == old(self)@.finished(),
            decreases self@.stack.len(),
        {
            let top = self.current_node();
            proof {
                lemma_ended_wf(self@);
            }
            self.end(top);
        }
        let root = self.root;
        proof {
            assert(self@.stack[0] == self@.root);
            lemma_scopes_above_current(self@);
            assert(self@.node_wf(root));
        }
        let keep = self.node(root).next_child;
        self.trim(root, keep);
    }

    /// Authors a component of type `kind` with `props` as the next child of
    /// the innermost scope, and opens its scope. Where the previous frame left
    /// a node of that type at this place, the node keeps its key and its
    /// component takes the properties. Otherwise what stood there is removed
    /// with all below it and a new node is made. The properties must be of
    /// the type that `kind` takes: `ComponentKind::check_props` tests that.
    pub fn begin(&mut self, kind: ComponentKind, props: &ErasedProps) -> (r: Index)
        requires
            old(self).wf(),
            props.spec_kind() == kind.spec_props_kind(),
            old(self)@.reuses(kind) || old(self)@.nodes.len() < u32::MAX,
        ensures
            final(self).wf(),
            final(self)@ == old(self)@.began(kind, *props, r),
            final(self)@.stack == old(self)@.stack.push(r),
            old(self)@.reuses(kind) ==> old(self)@.next_existing() == Some(r),
            !old(self)@.reuses(kind) ==> !old(self)@.contains(r),
    {
        let ghost v = self@;
        let parent = self.current_node();
        proof {
            lemma_scopes_above_current(v);
            assert(v.node_wf(parent));
        }
        let above = self.node(parent);
        let k = above.next_child;
        let existing: Option<Index> = if k < above.children.len() {
            Some(above.children[k])
        } else {
            None
        };
        let ghost depth = v.nodes[parent].depth;
        assert(existing == v.next_existing());
        match existing {
            Some(c) => {
                proof {
                    assert(v.links(parent, v.nodes[parent].children[k as int]));
                }
                if self.node(c).widget.kind() == kind {
                    match arena_get_mut(&mut self.nodes, parent) {
                        Some(node) => {
                            node.next_child = k + 1;
                        },
                        None => {},
                    }
                    match arena_get_mut(&mut self.nodes, c) {
                        Some(node) => {
                            node.widget.update(props);
                            node.next_child = 0;
                        },
                        None => {},
                    }
                    self.stack.push(c);
                    proof {
                        lemma_began_reuse_wf(v, kind, *props, c);
                        assert(self@.nodes =~= v.began(kind, *props, c).nodes);
                    }
                    return c;
                }
            },
            None => {},
        }
        proof {
            assert(!v.reuses(kind));
            assert(self@.nodes.dom() =~= arena_nodes(self.nodes).dom());
        }
        let index = arena_insert(
            &mut self.nodes,
            Node {
                widget: ErasedComponent::Dummy(DummyComponent),
                parent: Some(parent),
                children: Vec::new(),
                next_child: 0,
            },
        );
        let widget = ErasedComponent::create(kind, index, props);
        match arena_get_mut(&mut self.nodes, index) {
            Some(node) => {
                node.widget = widget;
            },
            None => {},
        }
        match arena_get_mut(&mut self.nodes, parent) {
            Some(node) => {
                node.children.push(index);
            },
            None => {},
        }
        proof {
            self.depths = Ghost(self.depths@.insert(index, depth + 1));
            self.limit = Ghost(if self.limit@ > depth + 1 { self.limit@ } else { depth + 1 });
        }
        let ghost v1 = self@;
        proof {
            lemma_create_identity(kind, index, *props);
            assert(widget == DomView::fresh_widget(kind, index, *props));
            lemma_appended_wf(v, parent, index, widget);
            assert(v1.nodes =~= v.appended(parent, index, widget).nodes);
            assert(v1 == v.appended(parent, index, widget));
        }
        match existing {
            Some(o) => {
                proof {
                    lemma_scopes_not_below(v, o);
                    lemma_cleared_without(v1, o);
                    lemma_appended_without(v, parent, index, widget, o);
                }
                self.reset_cursor(o);
                self.trim(o, 0);
                let ghost v3 = self@;
                proof {
                    assert(v3.nodes.remove(o) == v1.without(o));
                    assert(v1.without(o).contains_key(parent));
                    assert(v3.nodes[parent] == v1.nodes[parent]);
                }
                match arena_get_mut(&mut self.nodes, parent) {
                    Some(node) => {
                        node.children.swap_remove(k);
                        node.next_child = k + 1;
                    },
                    None => {},
                }
                arena_remove(&mut self.nodes, o);
                proof {
                    let cs = v.nodes[parent].children;
                    assert(cs.push(index).last() == index);
                    assert(cs.push(index).update(k as int, index).drop_last() =~= cs.update(
                        k as int,
                        index,
                    ));
                    let linked = NodeView {
                        children: cs.update(k as int, index),
                        cursor: (k + 1) as nat,
                        ..v.nodes[parent]
                    };
                    assert(parent != o);
                    assert(!v.reuses(kind));
                    assert(self@.nodes =~= v3.nodes.insert(parent, linked).remove(o));
                    assert(v3.nodes.insert(parent, linked).remove(o) =~= v3.nodes.remove(o).insert(
                        parent,
                        linked,
                    ));
                    assert(v1.without(o).insert(parent, linked) =~= v.without(o).insert(
                        parent,
                        linked,
                    ).insert(index, v1.nodes[index]));
                    assert(self@.nodes =~= v.began(kind, *props, index).nodes);
                }
            },
            None => {
                match arena_get_mut(&mut self.nodes, parent) {
                    Some(node) => {
                        node.next_child = node.children.len();
                    },
                    None => {},
                }
                proof {
                    assert(self@.nodes =~= v.began(kind, *props, index).nodes);
                }
            },
        }
        self.stack.push(index);
        proof {
            lemma_began_fresh_wf(v, kind, *props, index);
            assert(self@ == v.began(kind, *props, index));
        }
        index
    }
}

} // verus!

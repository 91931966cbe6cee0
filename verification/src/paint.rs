use vstd::prelude::*;
use crate::component::ErasedComponent;
use crate::dom::Dom;
use crate::geometry::Vec2;
use crate::index::Index;
use crate::layout::{children_of, lemma_child_rank, widget_rank, LayoutDom, LayoutNode};

verus! {

/// One draw command: the rectangle of a node, its position relative to the
/// origin of the paint pass.
#[derive(Clone, Copy, Debug, PartialEq, Eq, Structural)]
pub struct PaintRect {
    pub index: Index,
    pub pos: Vec2,
    pub size: Vec2,
}

/// The output of a paint pass: the draw commands in the order in which they
/// are to be drawn, and the origin of the node being painted.
pub struct PaintDom {
    commands: Vec<PaintRect>,
    origin: Vec2,
}

/// The state of a paint pass as a mathematical value.
pub struct PaintView {
    pub commands: Seq<PaintRect>,
    pub origin: Vec2,
}

impl View for PaintDom {
    type V = PaintView;

    closed spec fn view(&self) -> PaintView {
        PaintView { commands: self.commands@, origin: self.origin }
    }
}

/// Where the children of `index` have their origin when `index` itself is
/// painted at `origin`: at the node's own position, if it has geometry.
pub open spec fn origin_below(layout: Map<Index, LayoutNode>, index: Index, origin: Vec2) -> Vec2 {
    if layout.contains_key(index) {
        origin.spec_plus(layout[index].pos)
    } else {
        origin
    }
}

/// The command that a node itself adds: its rectangle, if it has geometry.
pub open spec fn own_rect(layout: Map<Index, LayoutNode>, index: Index, origin: Vec2) -> Seq<
    PaintRect,
> {
    if layout.contains_key(index) {
        seq![
            PaintRect {
                index,
                pos: origin.spec_plus(layout[index].pos),
                size: layout[index].size,
            },
        ]
    } else {
        Seq::empty()
    }
}

/// The commands that painting the node `index` adds: the node's own, then
/// what its component adds. A stale key adds nothing.
pub open spec fn painted(dom: &Dom, layout: Map<Index, LayoutNode>, index: Index, origin: Vec2) -> Seq<
    PaintRect,
>
    decreases dom.rank(index), 2nat, 0nat,
    when dom.wf()
{
    if !dom@.nodes.contains_key(index) {
        Seq::empty()
    } else {
        own_rect(layout, index, origin) + drawn(
            dom,
            dom@.nodes[index].widget,
            layout,
            origin_below(layout, index, origin),
        )
    }
}

/// The commands that a component adds: those of its children, in the order
/// of the child list, where it has any regard for children.
pub open spec fn drawn(
    dom: &Dom,
    widget: ErasedComponent,
    layout: Map<Index, LayoutNode>,
    origin: Vec2,
) -> Seq<PaintRect>
    decreases widget_rank(dom, widget), 1nat, 0nat,
    when dom.wf()
{
    match widget {
        ErasedComponent::List(l) => painted_children(dom, layout, l.index, origin, 0),
        ErasedComponent::Align(a) => painted_children(dom, layout, a.index, origin, 0),
        _ => Seq::empty(),
    }
}

/// The commands of the children of `index` from the `k`-th on.
pub open spec fn painted_children(
    dom: &Dom,
    layout: Map<Index, LayoutNode>,
    index: Index,
    origin: Vec2,
    k: int,
) -> Seq<PaintRect>
    decreases dom.rank(index), 0nat, (children_of(dom, index).len() - k) as nat,
    when dom.wf() && 0 <= k
{
    let children = children_of(dom, index);
    if k >= children.len() {
        Seq::empty()
    } else {
        proof {
            lemma_child_rank(dom, index, k);
        }
        painted(dom, layout, children[k], origin) + painted_children(
            dom,
            layout,
            index,
            origin,
            k + 1,
        )
    }
}

impl PaintDom {
    /// A paint pass that has drawn nothing, with its origin at zero.
    pub fn new() -> (r: PaintDom)
        ensures
            r@.commands == Seq::<PaintRect>::empty(),
            r@.origin == Vec2::spec_zero(),
    {
        PaintDom { commands: Vec::new(), origin: Vec2::zero() }
    }

    /// The commands drawn so far, in order.
    pub fn commands(&self) -> (r: &Vec<PaintRect>)
        ensures
            r@ == self@.commands,
    {
        &self.commands
    }

    /// Paints the node `index` and all below it: the node first, then what
    /// its component paints. The commands are added behind those already
    /// there; the geometry is read and never changed.
    pub fn paint(&mut self, dom: &Dom, layout: &LayoutDom, index: Index)
        requires
            dom.wf(),
        ensures
            final(self)@.commands == old(self)@.commands + painted(
                dom,
                layout@,
                index,
                old(self)@.origin,
            ),
            final(self)@.origin == old(self)@.origin,
        decreases dom.rank(index), 2nat, 0nat,
    {
        match dom.get(index) {
            Some(node) => {
                assert(dom@.node_wf(index));
                let outer = self.origin;
                match layout.get(index) {
                    Some(entry) => {
                        let pos = outer.plus(entry.pos);
                        self.commands.push(PaintRect { index, pos, size: entry.size });
                        self.origin = pos;
                    },
                    None => {},
                }
                assert(self@.commands =~= old(self)@.commands + own_rect(layout@, index, outer));
                node.widget.paint(dom, layout, self);
                self.origin = outer;
                assert(self@.commands =~= old(self)@.commands + painted(
                    dom,
                    layout@,
                    index,
                    outer,
                ));
            },
            None => {
                assert(self@.commands =~= old(self)@.commands + Seq::<PaintRect>::empty());
            },
        }
    }

    /// Paints the children of the node `index`, in the order of its child
    /// list.
    pub fn paint_children(&mut self, dom: &Dom, layout: &LayoutDom, index: Index)
        requires
            dom.wf(),
        ensures
            final(self)@.commands == old(self)@.commands + painted_children(
                dom,
                layout@,
                index,
                old(self)@.origin,
                0,
            ),
            final(self)@.origin == old(self)@.origin,
        decreases dom.rank(index), 0nat, 0nat,
    {
        match dom.get(index) {
            Some(node) => {
                let mut k: usize = 0;
                assert(self@.commands + painted_children(dom, layout@, index, self@.origin, 0)
                    == old(self)@.commands + painted_children(
                    dom,
                    layout@,
                    index,
                    old(self)@.origin,
                    0,
                ));
                while k < node.children.len()
                    invariant
                        dom.wf(),
                        dom@.contains(index),
                        node.children@ == dom@.nodes[index].children,
                        k <= node.children.len(),
                        self@.origin == old(self)@.origin,
                        self@.commands + painted_children(
                            dom,
                            layout@,
                            index,
                            self@.origin,
                            k as int,
                        ) == old(self)@.commands + painted_children(
                            dom,
                            layout@,
                            index,
                            old(self)@.origin,
                            0,
                        ),
                    decreases node.children.len() - k,
                {
                    let child = node.children[k];
                    let ghost before = self@.commands;
                    proof {
                        lemma_child_rank(dom, index, k as int);
                    }
                    self.paint(dom, layout, child);
                    proof {
                        let one = painted(dom, layout@, child, self@.origin);
                        let rest = painted_children(dom, layout@, index, self@.origin, k + 1);
                        assert((before + one) + rest =~= before + (one + rest));
                    }
                    k = k + 1;
                }
                assert(self@.commands + Seq::<PaintRect>::empty() =~= self@.commands);
            },
            None => {
                assert(self@.commands =~= old(self)@.commands + Seq::<PaintRect>::empty());
            },
        }
    }
}

} // verus!

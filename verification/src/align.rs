use vstd::prelude::*;
use crate::component::{Component, ComponentKind, ErasedComponent, ErasedProps, Props, PropsKind};
use crate::widgets::widget_children;
use crate::dom::Dom;
use crate::geometry::{Alignment, Constraints, Vec2};
use crate::index::Index;
use crate::layout::{aligned, lemma_child_rank, LayoutDom};
use crate::paint::{painted_children, PaintDom};

verus! {

/// Aligns its children inside the space it is given, each by the same anchor.
#[derive(Clone, Copy, Debug, PartialEq, Eq, Structural)]
#[non_exhaustive]
pub struct Align {
    pub alignment: Alignment,
}

impl Align {
    pub fn new(alignment: Alignment) -> (r: Align)
        ensures
            r == (Align { alignment }),
    {
        Align { alignment }
    }

    pub fn center() -> (r: Align)
        ensures
            r == (Align { alignment: Alignment::spec_center() }),
    {
        Align { alignment: Alignment::center() }
    }
}

impl Align {
    /// Authors an aligning node with these properties: `children` authors
    /// what is to be aligned while the scope of the node is open.
    pub fn show<F: FnOnce(&mut Dom)>(self, dom: &mut Dom, children: F) -> (r: Index)
        requires
            old(dom).wf(),
            old(dom)@.reuses(ComponentKind::Align) || old(dom)@.nodes.len() < u32::MAX,
            forall|d: &mut Dom, index: Index|
                d.wf() && d@ == old(dom)@.began(ComponentKind::Align, ErasedProps::Align(self), index)
                    ==> call_requires(children, (d,)),
            forall|d: &mut Dom|
                call_ensures(children, (d,), ()) ==> final(d).wf() && final(d)@.stack == d@.stack,
        ensures
            final(dom).wf(),
            final(dom)@.stack == old(dom)@.stack,
            final(dom)@.contains(r),
            old(dom)@.reuses(ComponentKind::Align) ==> old(dom)@.next_existing() == Some(r),
            !old(dom)@.reuses(ComponentKind::Align) ==> !old(dom)@.contains(r),
            exists|d: &mut Dom|
                d@ == old(dom)@.began(ComponentKind::Align, ErasedProps::Align(self), r)
                    && #[trigger] call_ensures(children, (d,), ()) && final(dom)@ == final(d)@.ended(),
    {
        let props = ErasedProps::Align(self);
        widget_children(dom, ComponentKind::Align, &props, children)
    }
}

impl Props for Align {
    open spec fn props_kind() -> PropsKind {
        PropsKind::Align
    }

    open spec fn erased(&self) -> ErasedProps {
        ErasedProps::Align(*self)
    }

    open spec fn downcast(props: &ErasedProps) -> Option<Align> {
        match props {
            ErasedProps::Align(p) => Some(*p),
            _ => None,
        }
    }

    fn kind() -> PropsKind {
        PropsKind::Align
    }

    fn erase(&self) -> ErasedProps {
        ErasedProps::Align(*self)
    }

    fn downcast_ref(props: &ErasedProps) -> Option<&Align> {
        match props {
            ErasedProps::Align(p) => Some(p),
            _ => None,
        }
    }
}

/// The component behind `Align`.
#[derive(Clone, Copy, Debug, PartialEq, Eq, Structural)]
pub struct AlignWidget {
    pub props: Align,
    pub index: Index,
}

impl AlignWidget {
    /// Takes all the space that `input` allows, measures each child under
    /// `input` and anchors it in that space. Under constraints without an
    /// upper bound the space taken is the largest coordinate; what an
    /// aligning node should do there is left open.
    pub fn layout(&self, dom: &Dom, layout: &mut LayoutDom, input: Constraints) -> (r: Vec2)
        requires
            dom.wf(),
        ensures
            r == input.max,
            final(layout)@ == aligned(dom, self.index, self.props.alignment, old(layout)@, input, 0),
        decreases dom.rank(self.index), 0nat, 0nat,
    {
        let self_size = input.max;
        let align = self.props.alignment;
        match dom.get(self.index) {
            Some(node) => {
                let mut k: usize = 0;
                while k < node.children.len()
                    invariant
                        dom.wf(),
                        dom@.contains(self.index),
                        node.children@ == dom@.nodes[self.index].children,
                        align == self.props.alignment,
                        self_size == input.max,
                        k <= node.children.len(),
                        aligned(dom, self.index, align, layout@, input, k as int) == aligned(
                            dom,
                            self.index,
                            align,
                            old(layout)@,
                            input,
                            0,
                        ),
                    decreases node.children.len() - k,
                {
                    let child = node.children[k];
                    proof {
                        lemma_child_rank(dom, self.index, k as int);
                    }
                    let child_size = layout.calculate(dom, child, input);
                    layout.set_pos(child, align.place(self_size, child_size));
                    k = k + 1;
                }
            },
            None => {},
        }
        self_size
    }
}

impl AlignWidget {
    /// Paints the children, in the order of the child list.
    pub fn paint(&self, dom: &Dom, layout: &LayoutDom, paint: &mut PaintDom)
        requires
            dom.wf(),
        ensures
            final(paint)@.commands == old(paint)@.commands + painted_children(
                dom,
                layout@,
                self.index,
                old(paint)@.origin,
                0,
            ),
            final(paint)@.origin == old(paint)@.origin,
        decreases dom.rank(self.index), 0nat, 1nat,
    {
        paint.paint_children(dom, layout, self.index);
    }
}

impl Component for AlignWidget {
    type Props = Align;

    open spec fn component_kind() -> ComponentKind {
        ComponentKind::Align
    }

    open spec fn created(index: Index, props: &Align) -> AlignWidget {
        AlignWidget { props: *props, index }
    }

    open spec fn updated(&self, props: &Align) -> AlignWidget {
        AlignWidget { props: *props, index: self.index }
    }

    open spec fn erased(&self) -> ErasedComponent {
        ErasedComponent::Align(*self)
    }

    fn kind() -> ComponentKind {
        assert(<Align as Props>::props_kind() == PropsKind::Align);
        ComponentKind::Align
    }

    fn new(index: Index, props: &Align) -> AlignWidget {
        AlignWidget { props: *props, index }
    }

    fn update(&mut self, props: &Align) {
        self.props = *props;
    }

    fn erase(self) -> ErasedComponent {
        ErasedComponent::Align(self)
    }
}

} // verus!

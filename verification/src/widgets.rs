use vstd::prelude::*;
use crate::component::{Component, ComponentKind, ErasedComponent, ErasedProps, Props, PropsKind};
use crate::tree::lemma_ended_keeps_scope;
use crate::dom::Dom;
use crate::geometry::{saturating, Constraints, Vec2, UNBOUNDED};
use crate::index::Index;
use crate::layout::{child_constraints, lemma_child_rank, stacked, LayoutDom};
use crate::paint::{painted_children, PaintDom};

verus! {

/// The axis along which a list stacks its children.
#[derive(Clone, Copy, Debug, PartialEq, Eq, Structural)]
pub enum Direction {
    Down,
    Right,
}

impl Direction {
    /// The part of `v` along this direction.
    pub open spec fn spec_main(self, v: Vec2) -> i32 {
        match self {
            Direction::Down => v.y,
            Direction::Right => v.x,
        }
    }

    /// The part of `v` across this direction.
    pub open spec fn spec_cross(self, v: Vec2) -> i32 {
        match self {
            Direction::Down => v.x,
            Direction::Right => v.y,
        }
    }

    /// The vector that is `main` along this direction and `cross` across it.
    pub open spec fn spec_compose(self, main: i32, cross: i32) -> Vec2 {
        match self {
            Direction::Down => Vec2 { x: cross, y: main },
            Direction::Right => Vec2 { x: main, y: cross },
        }
    }

    #[verifier::when_used_as_spec(spec_main)]
    pub fn main(self, v: Vec2) -> (r: i32)
        ensures
            r == self.spec_main(v),
    {
        match self {
            Direction::Down => v.y,
            Direction::Right => v.x,
        }
    }

    #[verifier::when_used_as_spec(spec_cross)]
    pub fn cross(self, v: Vec2) -> (r: i32)
        ensures
            r == self.spec_cross(v),
    {
        match self {
            Direction::Down => v.x,
            Direction::Right => v.y,
        }
    }

    #[verifier::when_used_as_spec(spec_compose)]
    pub fn compose(self, main: i32, cross: i32) -> (r: Vec2)
        ensures
            r == self.spec_compose(main, cross),
    {
        match self {
            Direction::Down => Vec2 { x: cross, y: main },
            Direction::Right => Vec2 { x: main, y: cross },
        }
    }
}

#[derive(Clone, Copy, Debug, PartialEq, Eq, Structural)]
pub struct ListProps {
    pub direction: Direction,
}

impl ListProps {
    pub fn vertical() -> (r: ListProps)
        ensures
            r == (ListProps { direction: Direction::Down }),
    {
        ListProps { direction: Direction::Down }
    }
}

impl Props for ListProps {
    open spec fn props_kind() -> PropsKind {
        PropsKind::List
    }

    open spec fn erased(&self) -> ErasedProps {
        ErasedProps::List(*self)
    }

    open spec fn downcast(props: &ErasedProps) -> Option<ListProps> {
        match props {
            ErasedProps::List(p) => Some(*p),
            _ => None,
        }
    }

    fn kind() -> PropsKind {
        PropsKind::List
    }

    fn erase(&self) -> ErasedProps {
        ErasedProps::List(*self)
    }

    fn downcast_ref(props: &ErasedProps) -> Option<&ListProps> {
        match props {
            ErasedProps::List(p) => Some(p),
            _ => None,
        }
    }
}

/// Stacks its children one after another along its direction.
#[derive(Clone, Copy, Debug, PartialEq, Eq, Structural)]
pub struct List {
    pub props: ListProps,
    pub index: Index,
}

impl Component for List {
    type Props = ListProps;

    open spec fn component_kind() -> ComponentKind {
        ComponentKind::List
    }

    open spec fn created(index: Index, props: &ListProps) -> List {
        List { props: *props, index }
    }

    open spec fn updated(&self, props: &ListProps) -> List {
        List { props: *props, index: self.index }
    }

    open spec fn erased(&self) -> ErasedComponent {
        ErasedComponent::List(*self)
    }

    fn kind() -> ComponentKind {
        assert(ListProps::props_kind() == PropsKind::List);
        ComponentKind::List
    }

    fn new(index: Index, props: &ListProps) -> List {
        List { props: *props, index }
    }

    fn update(&mut self, props: &ListProps) {
        self.props = *props;
    }

    fn erase(self) -> ErasedComponent {
        ErasedComponent::List(self)
    }
}

impl List {
    /// Lays the children out one after the other along the list's direction
    /// and returns the size of the list: what the children took, brought
    /// inside `constraints`.
    pub fn size(&self, dom: &Dom, layout: &mut LayoutDom, constraints: Constraints) -> (r: Vec2)
        requires
            dom.wf(),
        ensures
            (final(layout)@, r) == stacked(
                dom,
                self.index,
                self.props.direction,
                old(layout)@,
                constraints,
                0,
                0,
                0,
            ),
        decreases dom.rank(self.index), 0nat, 0nat,
    {
        let dir = self.props.direction;
        let mut used: i32 = 0;
        let mut cross: i32 = 0;
        match dom.get(self.index) {
            Some(node) => {
                let mut k: usize = 0;
                while k < node.children.len()
                    invariant
                        dom.wf(),
                        dom@.contains(self.index),
                        node.children@ == dom@.nodes[self.index].children,
                        dir == self.props.direction,
                        k <= node.children.len(),
                        stacked(dom, self.index, dir, layout@, constraints, k as int, used, cross)
                            == stacked(dom, self.index, dir, old(layout)@, constraints, 0, 0, 0),
                    decreases node.children.len() - k,
                {
                    let child = node.children[k];
                    proof {
                        lemma_child_rank(dom, self.index, k as int);
                    }
                    let limit = dir.main(constraints.max);
                    let left: i32 = if limit == UNBOUNDED {
                        UNBOUNDED
                    } else {
                        let d = saturating(limit as i64 - used as i64);
                        if d >= 0 {
                            d
                        } else {
                            0
                        }
                    };
                    let inner = Constraints {
                        min: dir.compose(0, dir.cross(constraints.min)),
                        max: dir.compose(left, dir.cross(constraints.max)),
                    };
                    assert(inner == child_constraints(dir, constraints, used));
                    let size = layout.calculate(dom, child, inner);
                    layout.set_pos(child, dir.compose(used, 0));
                    used = saturating(used as i64 + dir.main(size) as i64);
                    let across = dir.cross(size);
                    if across > cross {
                        cross = across;
                    }
                    k = k + 1;
                }
            },
            None => {},
        }
        constraints.constrain(dir.compose(used, cross))
    }
}

impl List {
    /// Paints the children, in the order of the child list.
    pub fn paint(&self, dom: &Dom, layout: &LayoutDom, paint: &mut PaintDom)
        requires
            dom.wf(),
        ensures
            final(paint)@.commands == old(paint)@.commands + painted_children(
                dom,
                layout@,
                self.index,
                old(paint)@.origin,
                0,
            ),
            final(paint)@.origin == old(paint)@.origin,
        decreases dom.rank(self.index), 0nat, 1nat,
    {
        paint.paint_children(dom, layout, self.index);
    }
}

/// A box that asks for one fixed size. It is its own property type.
#[derive(Clone, Copy, Debug, PartialEq, Eq, Structural)]
pub struct FixedSizeBox {
    pub size: Vec2,
}

impl Props for FixedSizeBox {
    open spec fn props_kind() -> PropsKind {
        PropsKind::FixedSizeBox
    }

    open spec fn erased(&self) -> ErasedProps {
        ErasedProps::FixedSizeBox(*self)
    }

    open spec fn downcast(props: &ErasedProps) -> Option<FixedSizeBox> {
        match props {
            ErasedProps::FixedSizeBox(p) => Some(*p),
            _ => None,
        }
    }

    fn kind() -> PropsKind {
        PropsKind::FixedSizeBox
    }

    fn erase(&self) -> ErasedProps {
        ErasedProps::FixedSizeBox(*self)
    }

    fn downcast_ref(props: &ErasedProps) -> Option<&FixedSizeBox> {
        match props {
            ErasedProps::FixedSizeBox(p) => Some(p),
            _ => None,
        }
    }
}

impl FixedSizeBox {
    /// The size of the box: the size asked for, brought inside
    /// `constraints`. A box has no regard for children.
    pub fn size(&self, dom: &Dom, layout: &mut LayoutDom, constraints: Constraints) -> (r: Vec2)
        ensures
            r == constraints.spec_constrain(self.size),
            final(layout)@ == old(layout)@,
    {
        constraints.constrain(self.size)
    }
}

impl Component for FixedSizeBox {
    type Props = FixedSizeBox;

    open spec fn component_kind() -> ComponentKind {
        ComponentKind::FixedSizeBox
    }

    open spec fn created(index: Index, props: &FixedSizeBox) -> FixedSizeBox {
        *props
    }

    open spec fn updated(&self, props: &FixedSizeBox) -> FixedSizeBox {
        *props
    }

    open spec fn erased(&self) -> ErasedComponent {
        ErasedComponent::FixedSizeBox(*self)
    }

    fn kind() -> ComponentKind {
        assert(<FixedSizeBox as Props>::props_kind() == PropsKind::FixedSizeBox);
        ComponentKind::FixedSizeBox
    }

    fn new(_index: Index, props: &FixedSizeBox) -> FixedSizeBox {
        *props
    }

    fn update(&mut self, props: &FixedSizeBox) {
        *self = *props;
    }

    fn erase(self) -> ErasedComponent {
        ErasedComponent::FixedSizeBox(self)
    }
}

/// Authors a component of type `kind` with `props`, runs `children` while
/// the scope of the component is open, and closes the scope. The properties
/// must be of the type that `kind` takes.
pub fn widget_children<F: FnOnce(&mut Dom)>(
    dom: &mut Dom,
    kind: ComponentKind,
    props: &ErasedProps,
    children: F,
) -> (r: Index)
    requires
        old(dom).wf(),
        props.spec_kind() == kind.spec_props_kind(),
        old(dom)@.reuses(kind) || old(dom)@.nodes.len() < u32::MAX,
        forall|d: &mut Dom, index: Index|
            d.wf() && d@ == old(dom)@.began(kind, *props, index) ==> call_requires(children, (d,)),
        forall|d: &mut Dom|
            call_ensures(children, (d,), ()) ==> final(d).wf() && final(d)@.stack == d@.stack,
    ensures
        final(dom).wf(),
        final(dom)@.stack == old(dom)@.stack,
        final(dom)@.contains(r),
        old(dom)@.reuses(kind) ==> old(dom)@.next_existing() == Some(r),
        !old(dom)@.reuses(kind) ==> !old(dom)@.contains(r),
        exists|d: &mut Dom|
            d@ == old(dom)@.began(kind, *props, r) && #[trigger] call_ensures(children, (d,), ())
                && final(dom)@ == final(d)@.ended(),
{
    let index = dom.begin(kind, props);
    let ghost mid = dom@;
    assert(mid.stack == old(dom)@.stack.push(index));
    children(dom);
    assert(dom.wf());
    assert(dom@.stack == mid.stack);
    proof {
        lemma_ended_keeps_scope(dom@);
        assert(dom@.stack.drop_last() =~= old(dom)@.stack);
    }
    dom.end(index);
    index
}

/// Authors a list that stacks its children downwards: `contents` authors the
/// children while the scope of the list is open.
pub fn vertical<F: FnOnce(&mut Dom)>(dom: &mut Dom, contents: F) -> (r: Index)
    requires
        old(dom).wf(),
        old(dom)@.reuses(ComponentKind::List) || old(dom)@.nodes.len() < u32::MAX,
        forall|d: &mut Dom, index: Index|
            d.wf() && d@ == old(dom)@.began(
                ComponentKind::List,
                ErasedProps::List(ListProps { direction: Direction::Down }),
                index,
            ) ==> call_requires(contents, (d,)),
        forall|d: &mut Dom|
            call_ensures(contents, (d,), ()) ==> final(d).wf() && final(d)@.stack == d@.stack,
    ensures
        final(dom).wf(),
        final(dom)@.stack == old(dom)@.stack,
        final(dom)@.contains(r),
        old(dom)@.reuses(ComponentKind::List) ==> old(dom)@.next_existing() == Some(r),
        !old(dom)@.reuses(ComponentKind::List) ==> !old(dom)@.contains(r),
        exists|d: &mut Dom|
            d@ == old(dom)@.began(
                ComponentKind::List,
                ErasedProps::List(ListProps { direction: Direction::Down }),
                r,
            ) && #[trigger] call_ensures(contents, (d,), ()) && final(dom)@ == final(d)@.ended(),
{
    let props = ErasedProps::List(ListProps::vertical());
    widget_children(dom, ComponentKind::List, &props, contents)
}

/// Authors a box of the given size. A box has no children: its scope is
/// closed at once.
pub fn fsbox(dom: &mut Dom, size: Vec2) -> (r: Index)
    requires
        old(dom).wf(),
        old(dom)@.reuses(ComponentKind::FixedSizeBox) || old(dom)@.nodes.len() < u32::MAX,
    ensures
        final(dom).wf(),
        final(dom)@ == old(dom)@.began(
            ComponentKind::FixedSizeBox,
            ErasedProps::FixedSizeBox(FixedSizeBox { size }),
            r,
        ).ended(),
        final(dom)@.stack == old(dom)@.stack,
        final(dom)@.contains(r),
        old(dom)@.reuses(ComponentKind::FixedSizeBox) ==> old(dom)@.next_existing() == Some(r),
        !old(dom)@.reuses(ComponentKind::FixedSizeBox) ==> !old(dom)@.contains(r),
{
    let props = ErasedProps::FixedSizeBox(FixedSizeBox { size });
    let index = dom.begin(ComponentKind::FixedSizeBox, &props);
    proof {
        lemma_ended_keeps_scope(dom@);
        assert(dom@.stack.drop_last() =~= old(dom)@.stack);
    }
    dom.end(index);
    index
}

} // verus!

use vstd::prelude::*;
use vstd::pervasive::unreached;
use crate::align::{Align, AlignWidget};
use crate::dom::Dom;
use crate::geometry::{Constraints, Vec2};
use crate::index::Index;
use crate::layout::{measured, widget_rank, LayoutDom};
use crate::paint::{drawn, PaintDom};
use crate::widgets::{FixedSizeBox, List, ListProps};

verus! {

/// The identity of a concrete property type.
#[derive(Clone, Copy, Debug, PartialEq, Eq, Structural)]
pub enum PropsKind {
    Unit,
    List,
    FixedSizeBox,
    Align,
}

/// The identity of a concrete component type.
#[derive(Clone, Copy, Debug, PartialEq, Eq, Structural)]
pub enum ComponentKind {
    Dummy,
    List,
    FixedSizeBox,
    Align,
}

impl ComponentKind {
    /// The property type that a component of this type is made from and
    /// updated with.
    pub open spec fn spec_props_kind(self) -> PropsKind {
        match self {
            ComponentKind::Dummy => PropsKind::Unit,
            ComponentKind::List => PropsKind::List,
            ComponentKind::FixedSizeBox => PropsKind::FixedSizeBox,
            ComponentKind::Align => PropsKind::Align,
        }
    }

    #[verifier::when_used_as_spec(spec_props_kind)]
    pub fn props_kind(self) -> (r: PropsKind)
        ensures
            r == self.spec_props_kind(),
    {
        match self {
            ComponentKind::Dummy => PropsKind::Unit,
            ComponentKind::List => PropsKind::List,
            ComponentKind::FixedSizeBox => PropsKind::FixedSizeBox,
            ComponentKind::Align => PropsKind::Align,
        }
    }

    /// What `check_props` returns.
    pub open spec fn spec_check_props(self, props: &ErasedProps) -> Result<(), PropsTypeMismatch> {
        if props.spec_kind() == self.spec_props_kind() {
            Ok(())
        } else {
            Err(
                PropsTypeMismatch {
                    component: self,
                    expected: self.spec_props_kind(),
                    actual: props.spec_kind(),
                },
            )
        }
    }

    /// Tests properties before they are handed to a component of this type.
    /// Properties of the type that the component takes pass. Any other type
    /// is a mismatch, reported with the component, the type it takes and the
    /// type it was offered; making or updating a component with such
    /// properties is not possible.
    pub fn check_props(self, props: &ErasedProps) -> (r: Result<(), PropsTypeMismatch>)
        ensures
            r == self.spec_check_props(props),
            r.is_ok() <==> props.spec_kind() == self.spec_props_kind(),
    {
        let expected = self.props_kind();
        let actual = props.kind();
        if actual == expected {
            Ok(())
        } else {
            Err(PropsTypeMismatch { component: self, expected, actual })
        }
    }
}

/// A component was offered properties of another type than its own.
#[derive(Clone, Copy, Debug, PartialEq, Eq, Structural)]
pub struct PropsTypeMismatch {
    /// The component that was to be made or updated.
    pub component: ComponentKind,
    /// The property type that this component takes.
    pub expected: PropsKind,
    /// The property type that was supplied.
    pub actual: PropsKind,
}

/// Property values of any type, behind one uniform interface.
#[derive(Clone, Copy, Debug, PartialEq, Eq, Structural)]
pub enum ErasedProps {
    Unit,
    List(ListProps),
    FixedSizeBox(FixedSizeBox),
    Align(Align),
}

impl ErasedProps {
    pub open spec fn spec_kind(&self) -> PropsKind {
        match self {
            ErasedProps::Unit => PropsKind::Unit,
            ErasedProps::List(_) => PropsKind::List,
            ErasedProps::FixedSizeBox(_) => PropsKind::FixedSizeBox,
            ErasedProps::Align(_) => PropsKind::Align,
        }
    }

    /// The concrete type of the value inside.
    #[verifier::when_used_as_spec(spec_kind)]
    pub fn kind(&self) -> (r: PropsKind)
        ensures
            r == self.spec_kind(),
    {
        match self {
            ErasedProps::Unit => PropsKind::Unit,
            ErasedProps::List(_) => PropsKind::List,
            ErasedProps::FixedSizeBox(_) => PropsKind::FixedSizeBox,
            ErasedProps::Align(_) => PropsKind::Align,
        }
    }
}

/// A concrete property type: it can be erased, and recovered from its erased
/// form by a checked downcast.
pub trait Props: Sized {
    /// The identity of this type.
    spec fn props_kind() -> PropsKind;

    /// This value behind the uniform interface.
    spec fn erased(&self) -> ErasedProps;

    /// The value of this type inside `props`, if its type is this one.
    spec fn downcast(props: &ErasedProps) -> Option<Self>;

    fn kind() -> (r: PropsKind)
        ensures
            r == Self::props_kind(),
    ;

    fn erase(&self) -> (r: ErasedProps)
        ensures
            r == self.erased(),
            r.spec_kind() == Self::props_kind(),
            Self::downcast(&r) == Some(*self),
    ;

    fn downcast_ref(props: &ErasedProps) -> (r: Option<&Self>)
        ensures
            r.is_some() <==> props.spec_kind() == Self::props_kind(),
            match r {
                Some(p) => Self::downcast(props) == Some(*p) && p.erased() == *props,
                None => Self::downcast(props).is_none(),
            },
    ;
}

impl Props for () {
    open spec fn props_kind() -> PropsKind {
        PropsKind::Unit
    }

    open spec fn erased(&self) -> ErasedProps {
        ErasedProps::Unit
    }

    open spec fn downcast(props: &ErasedProps) -> Option<()> {
        match props {
            ErasedProps::Unit => Some(()),
            _ => None,
        }
    }

    fn kind() -> PropsKind {
        PropsKind::Unit
    }

    fn erase(&self) -> ErasedProps {
        ErasedProps::Unit
    }

    fn downcast_ref(props: &ErasedProps) -> Option<&()> {
        match props {
            ErasedProps::Unit => Some(&()),
            _ => None,
        }
    }
}

/// A concrete component type: how one is made from its properties, how it
/// takes new ones, and how it goes behind the uniform interface.
pub trait Component: Sized {
    type Props: Props;

    /// The identity of this type.
    spec fn component_kind() -> ComponentKind;

    /// The component that `new` makes.
    spec fn created(index: Index, props: &Self::Props) -> Self;

    /// This component after it took `props`.
    spec fn updated(&self, props: &Self::Props) -> Self;

    /// This component behind the uniform interface.
    spec fn erased(&self) -> ErasedComponent;

    fn kind() -> (r: ComponentKind)
        ensures
            r == Self::component_kind(),
            r.spec_props_kind() == Self::Props::props_kind(),
    ;

    fn new(index: Index, props: &Self::Props) -> (r: Self)
        ensures
            r == Self::created(index, props),
    ;

    fn update(&mut self, props: &Self::Props)
        ensures
            *final(self) == old(self).updated(props),
    ;

    fn erase(self) -> (r: ErasedComponent)
        ensures
            r == self.erased(),
            r.spec_kind() == Self::component_kind(),
    ;
}

/// The component that `new` makes for component type `T`; none from
/// properties of another type than `T` takes.
pub open spec fn made<T: Component>(index: Index, props: &ErasedProps) -> Option<ErasedComponent> {
    match T::Props::downcast(props) {
        Some(p) => Some(T::created(index, &p).erased()),
        None => None,
    }
}

/// Makes a component of type `T` for the node `index` and puts it behind the
/// uniform interface. The properties are downcast to the type that `T`
/// takes, so they must be of that type: a component cannot be made from
/// properties of another.
pub fn new<T: Component>(index: Index, props: &ErasedProps) -> (r: ErasedComponent)
    requires
        props.spec_kind() == T::Props::props_kind(),
    ensures
        made::<T>(index, props) == Some(r),
        r.spec_kind() == T::component_kind(),
{
    match T::Props::downcast_ref(props) {
        Some(p) => {
            let value: T = T::new(index, p);
            value.erase()
        },
        None => unreached(),
    }
}

/// The component that `update_erased` leaves; none for properties of
/// another type than `T` takes.
pub open spec fn taken<T: Component>(widget: T, props: &ErasedProps) -> Option<T> {
    match T::Props::downcast(props) {
        Some(p) => Some(widget.updated(&p)),
        None => None,
    }
}

/// Hands erased properties to a component of type `T`, which takes them as
/// its own. The properties are downcast to the type that `T` takes, so they
/// must be of that type.
pub fn update_erased<T: Component>(widget: &mut T, props: &ErasedProps)
    requires
        props.spec_kind() == T::Props::props_kind(),
    ensures
        taken::<T>(*old(widget), props) == Some(*final(widget)),
{
    match T::Props::downcast_ref(props) {
        Some(p) => {
            widget.update(p);
        },
        None => unreached(),
    }
}

/// The component that stands in a node before its own component is made.
#[derive(Clone, Copy, Debug, PartialEq, Eq, Structural)]
pub struct DummyComponent;

impl DummyComponent {
    /// A placeholder asks for no space: it takes the least that
    /// `constraints` allow, and measures nothing.
    pub fn size(&self, dom: &Dom, layout: &mut LayoutDom, constraints: Constraints) -> (r: Vec2)
        ensures
            r == constraints.spec_constrain(Vec2::spec_zero()),
            final(layout)@ == old(layout)@,
    {
        constraints.constrain(Vec2::zero())
    }
}

impl Component for DummyComponent {
    type Props = ();

    open spec fn component_kind() -> ComponentKind {
        ComponentKind::Dummy
    }

    open spec fn created(index: Index, props: &()) -> DummyComponent {
        DummyComponent
    }

    open spec fn updated(&self, props: &()) -> DummyComponent {
        DummyComponent
    }

    open spec fn erased(&self) -> ErasedComponent {
        ErasedComponent::Dummy(*self)
    }

    fn kind() -> ComponentKind {
        ComponentKind::Dummy
    }

    fn new(_index: Index, _props: &()) -> DummyComponent {
        DummyComponent
    }

    fn update(&mut self, _props: &()) {
    }

    fn erase(self) -> ErasedComponent {
        ErasedComponent::Dummy(self)
    }
}

/// A component of any type, behind one uniform interface.
#[derive(Clone, Copy, Debug, PartialEq, Eq, Structural)]
pub enum ErasedComponent {
    Dummy(DummyComponent),
    List(List),
    FixedSizeBox(FixedSizeBox),
    Align(AlignWidget),
}

impl ErasedComponent {
    pub open spec fn spec_kind(&self) -> ComponentKind {
        match self {
            ErasedComponent::Dummy(_) => ComponentKind::Dummy,
            ErasedComponent::List(_) => ComponentKind::List,
            ErasedComponent::FixedSizeBox(_) => ComponentKind::FixedSizeBox,
            ErasedComponent::Align(_) => ComponentKind::Align,
        }
    }

    /// The concrete type of the component inside.
    #[verifier::when_used_as_spec(spec_kind)]
    pub fn kind(&self) -> (r: ComponentKind)
        ensures
            r == self.spec_kind(),
    {
        match self {
            ErasedComponent::Dummy(_) => ComponentKind::Dummy,
            ErasedComponent::List(_) => ComponentKind::List,
            ErasedComponent::FixedSizeBox(_) => ComponentKind::FixedSizeBox,
            ErasedComponent::Align(_) => ComponentKind::Align,
        }
    }

    /// The node that the component inside was made for, where it keeps it.
    pub open spec fn spec_index(&self) -> Option<Index> {
        match self {
            ErasedComponent::List(w) => Some(w.index),
            ErasedComponent::Align(w) => Some(w.index),
            _ => None,
        }
    }

    /// The component that `update` leaves; none for properties of another
    /// type than the component takes.
    pub open spec fn spec_update(self, props: &ErasedProps) -> Option<ErasedComponent> {
        match self {
            ErasedComponent::Dummy(w) => match taken::<DummyComponent>(w, props) {
                Some(v) => Some(ErasedComponent::Dummy(v)),
                None => None,
            },
            ErasedComponent::List(w) => match taken::<List>(w, props) {
                Some(v) => Some(ErasedComponent::List(v)),
                None => None,
            },
            ErasedComponent::FixedSizeBox(w) => match taken::<FixedSizeBox>(w, props) {
                Some(v) => Some(ErasedComponent::FixedSizeBox(v)),
                None => None,
            },
            ErasedComponent::Align(w) => match taken::<AlignWidget>(w, props) {
                Some(v) => Some(ErasedComponent::Align(v)),
                None => None,
            },
        }
    }

    /// Tests properties before they are handed to this component: see
    /// `ComponentKind::check_props`. The component is only read.
    pub fn check_props(&self, props: &ErasedProps) -> (r: Result<(), PropsTypeMismatch>)
        ensures
            r == self.spec_kind().spec_check_props(props),
            r.is_ok() <==> props.spec_kind() == self.spec_kind().spec_props_kind(),
            r.is_ok() <==> self.spec_update(props).is_some(),
    {
        proof {
            lemma_update_keeps_identity(*self, *props);
        }
        self.kind().check_props(props)
    }

    /// Hands new properties to the component inside, which takes them as its
    /// own. They must be of the type that the component was made from. The
    /// component stays of its type and keeps the node it was made for.
    pub fn update(&mut self, props: &ErasedProps)
        requires
            props.spec_kind() == old(self).spec_kind().spec_props_kind(),
        ensures
            old(self).spec_update(props) == Some(*final(self)),
            final(self).spec_kind() == old(self).spec_kind(),
            final(self).spec_index() == old(self).spec_index(),
    {
        proof {
            lemma_update_keeps_identity(*self, *props);
        }
        match self {
            ErasedComponent::Dummy(w) => update_erased::<DummyComponent>(w, props),
            ErasedComponent::List(w) => update_erased::<List>(w, props),
            ErasedComponent::FixedSizeBox(w) => update_erased::<FixedSizeBox>(w, props),
            ErasedComponent::Align(w) => update_erased::<AlignWidget>(w, props),
        }
    }

    /// The size that the component inside commits to under `constraints`. A
    /// component with children measures and places them on the way.
    pub fn size(&self, dom: &Dom, layout: &mut LayoutDom, constraints: Constraints) -> (r: Vec2)
        requires
            dom.wf(),
        ensures
            (final(layout)@, r) == measured(dom, *self, old(layout)@, constraints),
        decreases widget_rank(dom, *self), 1nat, 0nat,
    {
        match self {
            ErasedComponent::Dummy(w) => w.size(dom, layout, constraints),
            ErasedComponent::List(w) => w.size(dom, layout, constraints),
            ErasedComponent::FixedSizeBox(w) => w.size(dom, layout, constraints),
            ErasedComponent::Align(w) => w.layout(dom, layout, constraints),
        }
    }

    /// Paints what the component inside paints: a component with regard for
    /// children paints them, in the order of the child list.
    pub fn paint(&self, dom: &Dom, layout: &LayoutDom, paint: &mut PaintDom)
        requires
            dom.wf(),
        ensures
            final(paint)@.commands == old(paint)@.commands + drawn(
                dom,
                *self,
                layout@,
                old(paint)@.origin,
            ),
            final(paint)@.origin == old(paint)@.origin,
        decreases widget_rank(dom, *self), 1nat, 0nat,
    {
        match self {
            ErasedComponent::List(w) => w.paint(dom, layout, paint),
            ErasedComponent::Align(w) => w.paint(dom, layout, paint),
            _ => {
                assert(paint@.commands =~= old(paint)@.commands + Seq::<
                    crate::paint::PaintRect,
                >::empty());
            },
        }
    }

    /// The component that `create` makes; none from properties of another
    /// type than `kind` takes.
    pub open spec fn spec_create(kind: ComponentKind, index: Index, props: &ErasedProps) -> Option<
        ErasedComponent,
    > {
        match kind {
            ComponentKind::Dummy => made::<DummyComponent>(index, props),
            ComponentKind::List => made::<List>(index, props),
            ComponentKind::FixedSizeBox => made::<FixedSizeBox>(index, props),
            ComponentKind::Align => made::<AlignWidget>(index, props),
        }
    }

    /// Makes the component of type `kind` for the node `index`, from
    /// properties of the type that `kind` takes.
    pub fn create(kind: ComponentKind, index: Index, props: &ErasedProps) -> (r: ErasedComponent)
        requires
            props.spec_kind() == kind.spec_props_kind(),
        ensures
            ErasedComponent::spec_create(kind, index, props) == Some(r),
            r.spec_kind() == kind,
            r.spec_index() matches Some(i) ==> i == index,
    {
        proof {
            lemma_create_identity(kind, index, *props);
        }
        match kind {
            ComponentKind::Dummy => new::<DummyComponent>(index, props),
            ComponentKind::List => new::<List>(index, props),
            ComponentKind::FixedSizeBox => new::<FixedSizeBox>(index, props),
            ComponentKind::Align => new::<AlignWidget>(index, props),
        }
    }
}

/// A component takes exactly the properties of its own property type, and
/// taking them never changes what type the component is of nor which node it
/// was made for. For properties of any other type there is no update.
pub proof fn lemma_update_keeps_identity(widget: ErasedComponent, props: ErasedProps)
    ensures
        widget.spec_update(&props).is_some() <==> props.spec_kind()
            == widget.spec_kind().spec_props_kind(),
        widget.spec_update(&props) matches Some(w) ==> w.spec_kind() == widget.spec_kind()
            && w.spec_index() == widget.spec_index(),
{
    assert(<() as Props>::props_kind() == PropsKind::Unit);
    assert(<ListProps as Props>::props_kind() == PropsKind::List);
    assert(<FixedSizeBox as Props>::props_kind() == PropsKind::FixedSizeBox);
    assert(<Align as Props>::props_kind() == PropsKind::Align);
}

/// A component is made exactly from properties of its own property type: it
/// is then of the type asked for and knows no node but the one it was made
/// for. From properties of any other type no component is made.
pub proof fn lemma_create_identity(kind: ComponentKind, index: Index, props: ErasedProps)
    ensures
        ErasedComponent::spec_create(kind, index, &props).is_some() <==> props.spec_kind()
            == kind.spec_props_kind(),
        ErasedComponent::spec_create(kind, index, &props) matches Some(w) ==> w.spec_kind() == kind
            && (w.spec_index() matches Some(i) ==> i == index),
{
    assert(<() as Props>::props_kind() == PropsKind::Unit);
    assert(<ListProps as Props>::props_kind() == PropsKind::List);
    assert(<FixedSizeBox as Props>::props_kind() == PropsKind::FixedSizeBox);
    assert(<Align as Props>::props_kind() == PropsKind::Align);
    assert(<DummyComponent as Component>::component_kind() == ComponentKind::Dummy);
    assert(<List as Component>::component_kind() == ComponentKind::List);
    assert(<FixedSizeBox as Component>::component_kind() == ComponentKind::FixedSizeBox);
    assert(<AlignWidget as Component>::component_kind() == ComponentKind::Align);
}

} // verus!

use yakui::align::{Align, AlignWidget};
use yakui::component::{
    new, update_erased, Component, ComponentKind, DummyComponent, ErasedComponent, ErasedProps,
    Props, PropsKind, PropsTypeMismatch,
};
use yakui::geometry::{Alignment, Vec2};
use yakui::index::Index;
use yakui::widgets::{Direction, FixedSizeBox, List, ListProps};

#[test]
fn new_makes_the_component_for_its_node() {
    let at = Index::new(4, 1);
    let made = new::<List>(at, &ErasedProps::List(ListProps::vertical()));
    assert_eq!(
        made,
        ErasedComponent::List(List { props: ListProps { direction: Direction::Down }, index: at })
    );
    let made = new::<FixedSizeBox>(
        at,
        &ErasedProps::FixedSizeBox(FixedSizeBox { size: Vec2::new(3, 4) }),
    );
    assert_eq!(made, ErasedComponent::FixedSizeBox(FixedSizeBox { size: Vec2::new(3, 4) }));
    let made = new::<AlignWidget>(at, &ErasedProps::Align(Align::center()));
    assert_eq!(made, ErasedComponent::Align(AlignWidget { props: Align::center(), index: at }));
    let made = new::<DummyComponent>(at, &ErasedProps::Unit);
    assert_eq!(made, ErasedComponent::Dummy(DummyComponent));
}

#[test]
fn check_props_reports_props_of_another_type() {
    assert_eq!(
        ComponentKind::List.check_props(&ErasedProps::Align(Align::center())),
        Err(PropsTypeMismatch {
            component: ComponentKind::List,
            expected: PropsKind::List,
            actual: PropsKind::Align,
        })
    );
    // the placeholder takes the unit only, whatever it would do with it
    assert_eq!(
        ComponentKind::Dummy.check_props(&ErasedProps::List(ListProps::vertical())),
        Err(PropsTypeMismatch {
            component: ComponentKind::Dummy,
            expected: PropsKind::Unit,
            actual: PropsKind::List,
        })
    );
    assert_eq!(
        ComponentKind::Align.check_props(&ErasedProps::Unit),
        Err(PropsTypeMismatch {
            component: ComponentKind::Align,
            expected: PropsKind::Align,
            actual: PropsKind::Unit,
        })
    );
}

#[test]
fn check_props_passes_exactly_the_own_type() {
    let kinds = [
        ComponentKind::Dummy,
        ComponentKind::List,
        ComponentKind::FixedSizeBox,
        ComponentKind::Align,
    ];
    let props = [
        ErasedProps::Unit,
        ErasedProps::List(ListProps::vertical()),
        ErasedProps::FixedSizeBox(FixedSizeBox { size: Vec2::zero() }),
        ErasedProps::Align(Align::center()),
    ];
    for (i, kind) in kinds.iter().enumerate() {
        for (j, p) in props.iter().enumerate() {
            assert_eq!(kind.check_props(p).is_ok(), i == j);
        }
    }
}

#[test]
fn create_dispatches_on_the_kind() {
    let at = Index::new(1, 1);
    for (kind, props) in [
        (ComponentKind::Dummy, ErasedProps::Unit),
        (ComponentKind::List, ErasedProps::List(ListProps::vertical())),
        (ComponentKind::FixedSizeBox, ErasedProps::FixedSizeBox(FixedSizeBox { size: Vec2::zero() })),
        (ComponentKind::Align, ErasedProps::Align(Align::center())),
    ] {
        assert_eq!(kind.check_props(&props), Ok(()));
        let made = ErasedComponent::create(kind, at, &props);
        assert_eq!(made.kind(), kind);
        assert_eq!(kind.props_kind(), props.kind());
    }
    assert_eq!(
        ErasedComponent::create(ComponentKind::List, at, &ErasedProps::List(ListProps::vertical())),
        ErasedComponent::List(List { props: ListProps::vertical(), index: at })
    );
}

#[test]
fn update_takes_props_of_the_own_type() {
    let at = Index::new(2, 9);
    let mut w = ErasedComponent::List(List { props: ListProps::vertical(), index: at });
    let props = ErasedProps::List(ListProps { direction: Direction::Right });
    assert_eq!(w.check_props(&props), Ok(()));
    w.update(&props);
    assert_eq!(
        w,
        ErasedComponent::List(List { props: ListProps { direction: Direction::Right }, index: at })
    );

    let mut w = ErasedComponent::Align(AlignWidget { props: Align::center(), index: at });
    w.update(&ErasedProps::Align(Align::new(Alignment::top_right())));
    assert_eq!(
        w,
        ErasedComponent::Align(AlignWidget { props: Align::new(Alignment::top_right()), index: at })
    );
}

#[test]
fn props_of_another_type_are_reported_and_the_component_is_not_touched() {
    let at = Index::new(2, 9);
    let before = ErasedComponent::List(List { props: ListProps::vertical(), index: at });
    let w = before;
    let r = w.check_props(&ErasedProps::FixedSizeBox(FixedSizeBox { size: Vec2::new(1, 1) }));
    assert_eq!(
        r,
        Err(PropsTypeMismatch {
            component: ComponentKind::List,
            expected: PropsKind::List,
            actual: PropsKind::FixedSizeBox,
        })
    );
    assert_eq!(w, before);

    let before = ErasedComponent::FixedSizeBox(FixedSizeBox { size: Vec2::new(7, 7) });
    let w = before;
    let r = w.check_props(&ErasedProps::Unit);
    assert_eq!(
        r,
        Err(PropsTypeMismatch {
            component: ComponentKind::FixedSizeBox,
            expected: PropsKind::FixedSizeBox,
            actual: PropsKind::Unit,
        })
    );
    assert_eq!(w, before);
}

#[test]
fn update_erased_downcasts_for_one_component_type() {
    let mut list = List { props: ListProps::vertical(), index: Index::new(0, 1) };
    update_erased(&mut list, &ErasedProps::List(ListProps { direction: Direction::Right }));
    assert_eq!(list.props.direction, Direction::Right);
    assert_eq!(list.index, Index::new(0, 1));
    let mut b = FixedSizeBox { size: Vec2::new(1, 1) };
    update_erased(&mut b, &ErasedProps::FixedSizeBox(FixedSizeBox { size: Vec2::new(2, 3) }));
    assert_eq!(b.size, Vec2::new(2, 3));
}

#[test]
fn props_erase_and_downcast_round_trip() {
    let p = ListProps { direction: Direction::Right };
    let erased = p.erase();
    assert_eq!(erased, ErasedProps::List(p));
    assert_eq!(erased.kind(), PropsKind::List);
    assert_eq!(ListProps::downcast_ref(&erased), Some(&p));
    assert_eq!(FixedSizeBox::downcast_ref(&erased), None);
    assert_eq!(Align::downcast_ref(&erased), None);
    assert_eq!(<() as Props>::downcast_ref(&erased), None);
    assert_eq!(<() as Props>::downcast_ref(&ErasedProps::Unit), Some(&()));
    assert_eq!(<ListProps as Props>::kind(), PropsKind::List);
    assert_eq!(<List as Component>::kind(), ComponentKind::List);
}

#[test]
fn components_are_made_and_updated_through_the_trait() {
    let at = Index::new(3, 3);
    let mut list = <List as Component>::new(at, &ListProps::vertical());
    assert_eq!(list, List { props: ListProps::vertical(), index: at });
    list.update(&ListProps { direction: Direction::Right });
    assert_eq!(list.index, at);
    assert_eq!(list.props.direction, Direction::Right);

    let mut b = <FixedSizeBox as Component>::new(at, &FixedSizeBox { size: Vec2::new(1, 2) });
    assert_eq!(b.size, Vec2::new(1, 2));
    Component::update(&mut b, &FixedSizeBox { size: Vec2::new(5, 6) });
    assert_eq!(b.size, Vec2::new(5, 6));

    let mut a = <AlignWidget as Component>::new(at, &Align::center());
    assert_eq!(a.props.alignment, Alignment::center());
    Component::update(&mut a, &Align::new(Alignment::bottom_left()));
    assert_eq!(a.props.alignment, Alignment::bottom_left());
    assert_eq!(a.index, at);
    assert_eq!(a.erase().kind(), ComponentKind::Align);
}

#[test]
fn list_props_vertical_stacks_downwards() {
    assert_eq!(ListProps::vertical().direction, Direction::Down);
}

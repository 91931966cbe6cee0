use yakui::component::{ComponentKind, ErasedComponent, ErasedProps, PropsKind, PropsTypeMismatch};
use yakui::dom::Dom;
use yakui::geometry::Vec2;
use yakui::index::Index;
use yakui::widgets::{fsbox, vertical, Direction, FixedSizeBox, List, ListProps};

fn list_props(direction: Direction) -> ErasedProps {
    ErasedProps::List(ListProps { direction })
}

fn box_props(w: i32, h: i32) -> ErasedProps {
    ErasedProps::FixedSizeBox(FixedSizeBox { size: Vec2::new(w, h) })
}

#[test]
fn new_tree_holds_only_its_root() {
    let dom = Dom::new();
    assert_eq!(dom.len(), 1);
    assert!(dom.contains(dom.root()));
    assert_eq!(dom.current_node(), dom.root());
    assert_eq!(dom.open_scopes(), 1);
    let root = dom.get(dom.root()).unwrap();
    assert_eq!(root.parent, None);
    assert!(root.children.is_empty());
    assert_eq!(root.widget.kind(), ComponentKind::Dummy);
}

#[test]
fn begin_makes_a_child_of_the_current_scope() {
    let mut dom = Dom::new();
    dom.start();
    let list = dom.begin(ComponentKind::List, &list_props(Direction::Down));
    assert_ne!(list, dom.root());
    assert_eq!(dom.len(), 2);
    assert_eq!(dom.current_node(), list);
    assert_eq!(dom.open_scopes(), 2);
    let node = dom.get(list).unwrap();
    assert_eq!(node.parent, Some(dom.root()));
    assert_eq!(
        node.widget,
        ErasedComponent::List(List { props: ListProps::vertical(), index: list })
    );
    let root = dom.get(dom.root()).unwrap();
    assert_eq!(root.children, vec![list]);
    assert_eq!(root.next_child, 1);
    dom.end(list);
    assert_eq!(dom.current_node(), dom.root());
    assert_eq!(dom.open_scopes(), 1);
}

#[test]
fn children_keep_the_order_in_which_they_were_authored() {
    let mut dom = Dom::new();
    dom.start();
    let list = dom.begin(ComponentKind::List, &list_props(Direction::Down));
    let a = fsbox(&mut dom, Vec2::new(1, 1));
    let b = fsbox(&mut dom, Vec2::new(2, 2));
    let c = fsbox(&mut dom, Vec2::new(3, 3));
    dom.end(list);
    dom.finish();
    assert_eq!(dom.get(list).unwrap().children, vec![a, b, c]);
    assert_eq!(dom.len(), 5);
    assert_eq!(dom.get(b).unwrap().parent, Some(list));
}

#[test]
fn same_type_at_same_place_keeps_index_and_takes_props() {
    let mut dom = Dom::new();
    dom.start();
    let list1 = dom.begin(ComponentKind::List, &list_props(Direction::Down));
    let a1 = fsbox(&mut dom, Vec2::new(1, 1));
    let b1 = fsbox(&mut dom, Vec2::new(2, 2));
    dom.end(list1);
    dom.finish();

    dom.start();
    let list2 = dom.begin(ComponentKind::List, &list_props(Direction::Right));
    let a2 = fsbox(&mut dom, Vec2::new(10, 10));
    let b2 = fsbox(&mut dom, Vec2::new(2, 2));
    dom.end(list2);
    dom.finish();

    assert_eq!(list1, list2);
    assert_eq!(a1, a2);
    assert_eq!(b1, b2);
    assert_eq!(dom.len(), 4);
    // the list kept the node it was made for and took the new direction
    assert_eq!(
        dom.get(list2).unwrap().widget,
        ErasedComponent::List(List {
            props: ListProps { direction: Direction::Right },
            index: list1
        })
    );
    assert_eq!(
        dom.get(a2).unwrap().widget,
        ErasedComponent::FixedSizeBox(FixedSizeBox { size: Vec2::new(10, 10) })
    );
    assert_eq!(dom.get(list2).unwrap().children, vec![a1, b1]);
}

#[test]
fn child_not_authored_again_is_removed() {
    let mut dom = Dom::new();
    dom.start();
    let list = dom.begin(ComponentKind::List, &list_props(Direction::Down));
    let a = fsbox(&mut dom, Vec2::new(1, 1));
    let b = fsbox(&mut dom, Vec2::new(2, 2));
    let c = fsbox(&mut dom, Vec2::new(3, 3));
    dom.end(list);
    dom.finish();
    assert_eq!(dom.len(), 5);

    dom.start();
    let list2 = dom.begin(ComponentKind::List, &list_props(Direction::Down));
    let a2 = fsbox(&mut dom, Vec2::new(1, 1));
    dom.end(list2);
    dom.finish();

    assert_eq!(list2, list);
    assert_eq!(a2, a);
    assert!(dom.get(b).is_none());
    assert!(dom.get(c).is_none());
    assert!(!dom.contains(b));
    assert_eq!(dom.len(), 3);
    assert_eq!(dom.get(list).unwrap().children, vec![a]);
}

#[test]
fn removal_takes_the_whole_subtree() {
    let mut dom = Dom::new();
    dom.start();
    let outer = dom.begin(ComponentKind::List, &list_props(Direction::Down));
    let inner = dom.begin(ComponentKind::List, &list_props(Direction::Right));
    let a = fsbox(&mut dom, Vec2::new(1, 1));
    let b = fsbox(&mut dom, Vec2::new(2, 2));
    dom.end(inner);
    let keep = fsbox(&mut dom, Vec2::new(3, 3));
    dom.end(outer);
    dom.finish();
    assert_eq!(dom.len(), 6);

    // the next frame authors nothing under the root
    dom.start();
    dom.finish();
    assert_eq!(dom.len(), 1);
    for stale in [outer, inner, a, b, keep] {
        assert!(dom.get(stale).is_none());
    }
    assert!(dom.get(dom.root()).unwrap().children.is_empty());
}

#[test]
fn another_type_at_same_place_replaces_the_node() {
    let mut dom = Dom::new();
    dom.start();
    let list = dom.begin(ComponentKind::List, &list_props(Direction::Down));
    let a = fsbox(&mut dom, Vec2::new(1, 1));
    dom.end(list);
    let tail = fsbox(&mut dom, Vec2::new(9, 9));
    dom.finish();
    assert_eq!(dom.len(), 4);

    dom.start();
    let replaced = fsbox(&mut dom, Vec2::new(5, 5));
    let tail2 = fsbox(&mut dom, Vec2::new(9, 9));
    dom.finish();

    assert_ne!(replaced, list);
    assert!(dom.get(list).is_none());
    assert!(dom.get(a).is_none());
    assert_eq!(tail2, tail);
    assert_eq!(dom.len(), 3);
    assert_eq!(dom.get(dom.root()).unwrap().children, vec![replaced, tail]);
    assert_eq!(dom.get(replaced).unwrap().parent, Some(dom.root()));
    assert_eq!(
        dom.get(replaced).unwrap().widget,
        ErasedComponent::FixedSizeBox(FixedSizeBox { size: Vec2::new(5, 5) })
    );
}

#[test]
fn freed_slot_comes_back_under_a_new_generation() {
    let mut dom = Dom::new();
    dom.start();
    let a = fsbox(&mut dom, Vec2::new(1, 1));
    dom.finish();
    dom.start();
    dom.finish();
    assert!(dom.get(a).is_none());
    dom.start();
    let b = fsbox(&mut dom, Vec2::new(1, 1));
    dom.finish();
    assert_eq!(b.slot(), a.slot());
    assert_ne!(b.generation(), a.generation());
    assert_ne!(a, b);
    assert!(dom.get(a).is_none());
    assert!(dom.get(b).is_some());
}

#[test]
fn props_are_tested_before_a_component_is_authored() {
    let mut dom = Dom::new();
    dom.start();
    let first = fsbox(&mut dom, Vec2::new(1, 1));
    dom.finish();
    dom.start();
    // a list is not authored from the properties of a box
    let offered = box_props(1, 1);
    assert_eq!(
        ComponentKind::List.check_props(&offered),
        Err(PropsTypeMismatch {
            component: ComponentKind::List,
            expected: PropsKind::List,
            actual: PropsKind::FixedSizeBox,
        })
    );
    // the test touches nothing
    assert_eq!(dom.len(), 2);
    assert_eq!(dom.open_scopes(), 1);
    assert_eq!(dom.get(dom.root()).unwrap().next_child, 0);
    // the properties pass for the component that takes them
    assert_eq!(ComponentKind::FixedSizeBox.check_props(&offered), Ok(()));
    let again = dom.begin(ComponentKind::FixedSizeBox, &offered);
    dom.end(again);
    assert_eq!(again, first);
}

#[test]
fn start_marks_no_child_as_authored() {
    let mut dom = Dom::new();
    dom.start();
    let list = dom.begin(ComponentKind::List, &list_props(Direction::Down));
    fsbox(&mut dom, Vec2::new(1, 1));
    // the scope of the list is left open
    dom.start();
    assert_eq!(dom.open_scopes(), 1);
    assert_eq!(dom.current_node(), dom.root());
    assert_eq!(dom.get(dom.root()).unwrap().next_child, 0);
    assert!(dom.contains(list));
}

#[test]
fn finish_closes_scopes_left_open() {
    let mut dom = Dom::new();
    dom.start();
    let outer = dom.begin(ComponentKind::List, &list_props(Direction::Down));
    let a = fsbox(&mut dom, Vec2::new(1, 1));
    let b = fsbox(&mut dom, Vec2::new(1, 1));
    dom.end(outer);
    dom.finish();

    dom.start();
    let outer2 = dom.begin(ComponentKind::List, &list_props(Direction::Down));
    let a2 = fsbox(&mut dom, Vec2::new(1, 1));
    // neither `b` is authored nor the list's scope closed
    dom.finish();
    assert_eq!(outer2, outer);
    assert_eq!(a2, a);
    assert_eq!(dom.open_scopes(), 1);
    assert!(dom.get(b).is_none());
    assert_eq!(dom.get(outer).unwrap().children, vec![a]);
}

#[test]
fn vertical_runs_its_contents_inside_the_list() {
    let mut dom = Dom::new();
    dom.start();
    let mut seen: Vec<Index> = Vec::new();
    let list = vertical(&mut dom, |d: &mut Dom| {
        seen.push(d.current_node());
        seen.push(fsbox(d, Vec2::new(40, 10)));
        seen.push(fsbox(d, Vec2::new(40, 20)));
    });
    dom.finish();
    assert_eq!(seen[0], list);
    assert_eq!(dom.get(list).unwrap().children, vec![seen[1], seen[2]]);
    assert_eq!(
        dom.get(list).unwrap().widget,
        ErasedComponent::List(List { props: ListProps { direction: Direction::Down }, index: list })
    );
    assert_eq!(dom.current_node(), dom.root());
}

#[test]
fn index_is_slot_and_generation() {
    let i = Index::new(7, 3);
    assert_eq!(i.slot(), 7);
    assert_eq!(i.generation(), 3);
    assert_eq!(i.to_bits(), (3u64 << 32) | 7);
    assert_eq!(Index::from_bits(i.to_bits()), i);
    let j = Index::new(u32::MAX, u32::MAX);
    assert_eq!(j.slot(), u32::MAX);
    assert_eq!(j.generation(), u32::MAX);
    assert_eq!(j.to_bits(), u64::MAX);
    assert_ne!(Index::new(1, 2), Index::new(2, 1));
}

#[test]
fn key_that_was_never_issued_is_stale() {
    let dom = Dom::new();
    assert!(dom.get(Index::new(5, 1)).is_none());
    assert!(dom.get(Index::new(0, 0)).is_none());
    assert!(!dom.contains(Index::new(0, 2)));
}

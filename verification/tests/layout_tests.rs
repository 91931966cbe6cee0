use yakui::align::Align;
use yakui::component::{ComponentKind, ErasedProps};
use yakui::dom::Dom;
use yakui::geometry::{anchor, saturating, Alignment, Constraints, Vec2, ALIGN_ONE, UNBOUNDED};
use yakui::index::Index;
use yakui::layout::{LayoutDom, LayoutNode};
use yakui::paint::{PaintDom, PaintRect};
use yakui::widgets::{fsbox, vertical, Direction, ListProps};

fn loose(w: i32, h: i32) -> Constraints {
    Constraints::new(Vec2::new(0, 0), Vec2::new(w, h))
}

#[test]
fn vertical_list_stacks_children() {
    let mut dom = Dom::new();
    dom.start();
    let mut kids: Vec<Index> = Vec::new();
    let list = vertical(&mut dom, |d: &mut Dom| {
        kids.push(fsbox(d, Vec2::new(40, 10)));
        kids.push(fsbox(d, Vec2::new(40, 20)));
        kids.push(fsbox(d, Vec2::new(40, 30)));
    });
    dom.finish();

    let mut layout = LayoutDom::new();
    let size = layout.calculate(&dom, list, loose(100, 200));
    assert_eq!(size, Vec2::new(40, 60));
    assert_eq!(layout.get(kids[0]).unwrap().pos, Vec2::new(0, 0));
    assert_eq!(layout.get(kids[1]).unwrap().pos, Vec2::new(0, 10));
    assert_eq!(layout.get(kids[2]).unwrap().pos, Vec2::new(0, 30));
    assert_eq!(layout.get(kids[2]).unwrap().size, Vec2::new(40, 30));
    assert_eq!(layout.get(list), Some(LayoutNode { size: Vec2::new(40, 60), pos: Vec2::zero() }));
}

#[test]
fn horizontal_list_stacks_to_the_right() {
    let mut dom = Dom::new();
    dom.start();
    let list =
        dom.begin(ComponentKind::List, &ErasedProps::List(ListProps { direction: Direction::Right }));
    let a = fsbox(&mut dom, Vec2::new(10, 5));
    let b = fsbox(&mut dom, Vec2::new(20, 15));
    dom.end(list);
    dom.finish();
    let mut layout = LayoutDom::new();
    let size = layout.calculate(&dom, list, loose(100, 100));
    assert_eq!(size, Vec2::new(30, 15));
    assert_eq!(layout.get(a).unwrap().pos, Vec2::new(0, 0));
    assert_eq!(layout.get(b).unwrap().pos, Vec2::new(10, 0));
}

#[test]
fn list_gives_each_child_the_space_that_is_left() {
    let mut dom = Dom::new();
    dom.start();
    let mut kids: Vec<Index> = Vec::new();
    let list = vertical(&mut dom, |d: &mut Dom| {
        kids.push(fsbox(d, Vec2::new(30, 150)));
        kids.push(fsbox(d, Vec2::new(30, 100)));
        kids.push(fsbox(d, Vec2::new(30, 100)));
    });
    dom.finish();
    let mut layout = LayoutDom::new();
    let size = layout.calculate(&dom, list, loose(100, 200));
    assert_eq!(size, Vec2::new(30, 200));
    assert_eq!(layout.get(kids[0]).unwrap().size, Vec2::new(30, 150));
    assert_eq!(layout.get(kids[1]).unwrap().size, Vec2::new(30, 50));
    assert_eq!(layout.get(kids[2]).unwrap().size, Vec2::new(30, 0));
    assert_eq!(layout.get(kids[1]).unwrap().pos, Vec2::new(0, 150));
    assert_eq!(layout.get(kids[2]).unwrap().pos, Vec2::new(0, 200));
}

#[test]
fn list_without_bound_along_its_direction() {
    let mut dom = Dom::new();
    dom.start();
    let mut kids: Vec<Index> = Vec::new();
    let list = vertical(&mut dom, |d: &mut Dom| {
        kids.push(fsbox(d, Vec2::new(40, 1000)));
        kids.push(fsbox(d, Vec2::new(50, 2000)));
    });
    dom.finish();
    let mut layout = LayoutDom::new();
    let size = layout.calculate(&dom, list, loose(100, UNBOUNDED));
    assert_eq!(size, Vec2::new(50, 3000));
    assert_eq!(layout.get(kids[1]).unwrap().pos, Vec2::new(0, 1000));
    assert!(!loose(100, UNBOUNDED).is_bounded());
    assert!(loose(100, 200).is_bounded());
}

#[test]
fn list_passes_the_cross_axis_on_and_respects_its_own_minimum() {
    let mut dom = Dom::new();
    dom.start();
    let mut kids: Vec<Index> = Vec::new();
    let list = vertical(&mut dom, |d: &mut Dom| {
        kids.push(fsbox(d, Vec2::new(5, 5)));
    });
    dom.finish();
    let mut layout = LayoutDom::new();
    let c = Constraints::new(Vec2::new(20, 30), Vec2::new(100, 200));
    let size = layout.calculate(&dom, list, c);
    // the child is as wide as the list must be; the list as tall as it must be
    assert_eq!(layout.get(kids[0]).unwrap().size, Vec2::new(20, 5));
    assert_eq!(size, Vec2::new(20, 30));
}

#[test]
fn empty_list_takes_its_minimum() {
    let mut dom = Dom::new();
    dom.start();
    let list = vertical(&mut dom, |_d: &mut Dom| {});
    dom.finish();
    let mut layout = LayoutDom::new();
    assert_eq!(layout.calculate(&dom, list, loose(100, 200)), Vec2::new(0, 0));
    let mut layout = LayoutDom::new();
    let c = Constraints::new(Vec2::new(3, 4), Vec2::new(100, 200));
    assert_eq!(layout.calculate(&dom, list, c), Vec2::new(3, 4));
}

#[test]
fn align_top_right_anchors_child() {
    let mut dom = Dom::new();
    dom.start();
    let mut kids: Vec<Index> = Vec::new();
    let align = Align::new(Alignment::top_right()).show(&mut dom, |d: &mut Dom| {
        kids.push(fsbox(d, Vec2::new(20, 20)));
    });
    dom.finish();
    let mut layout = LayoutDom::new();
    let size = layout.calculate(&dom, align, loose(100, 100));
    assert_eq!(size, Vec2::new(100, 100));
    assert_eq!(layout.get(kids[0]).unwrap().size, Vec2::new(20, 20));
    assert_eq!(layout.get(kids[0]).unwrap().pos, Vec2::new(80, 0));
}

#[test]
fn alignment_places_by_the_fraction_of_free_space() {
    let outer = Vec2::new(100, 100);
    let inner = Vec2::new(20, 20);
    assert_eq!(Alignment::top_right().place(outer, inner), Vec2::new(80, 0));
    assert_eq!(Alignment::top_left().place(outer, inner), Vec2::new(0, 0));
    assert_eq!(Alignment::center().place(outer, inner), Vec2::new(40, 40));
    assert_eq!(Alignment::bottom_left().place(outer, inner), Vec2::new(0, 80));
    assert_eq!(Alignment::bottom_right().place(outer, inner), Vec2::new(80, 80));
    assert_eq!(Alignment::new(ALIGN_ONE / 4, ALIGN_ONE).place(outer, inner), Vec2::new(20, 80));
}

#[test]
fn anchor_rounds_towards_zero_and_saturates() {
    assert_eq!(anchor(ALIGN_ONE / 2, 101, 20), 40);
    assert_eq!(anchor(ALIGN_ONE / 2, 20, 101), -40);
    assert_eq!(anchor(ALIGN_ONE, 20, 101), -81);
    assert_eq!(anchor(0, i32::MAX, i32::MIN), 0);
    assert_eq!(anchor(ALIGN_ONE, i32::MAX, i32::MIN), i32::MAX);
    assert_eq!(anchor(ALIGN_ONE, i32::MIN, i32::MAX), i32::MIN);
    assert_eq!(anchor(u16::MAX, 1, 0), 1);
    assert_eq!(saturating(i64::MAX), i32::MAX);
    assert_eq!(saturating(i64::MIN), i32::MIN);
    assert_eq!(saturating(-5), -5);
    assert_eq!(Vec2::new(i32::MAX, -1).plus(Vec2::new(1, -1)), Vec2::new(i32::MAX, -2));
}

#[test]
fn align_centers_by_default() {
    let mut dom = Dom::new();
    dom.start();
    let mut kids: Vec<Index> = Vec::new();
    let align = Align::center().show(&mut dom, |d: &mut Dom| {
        kids.push(fsbox(d, Vec2::new(10, 30)));
        kids.push(fsbox(d, Vec2::new(50, 50)));
    });
    dom.finish();
    let mut layout = LayoutDom::new();
    let size = layout.calculate(&dom, align, loose(50, 70));
    assert_eq!(size, Vec2::new(50, 70));
    assert_eq!(layout.get(kids[0]).unwrap().pos, Vec2::new(20, 20));
    assert_eq!(layout.get(kids[1]).unwrap().pos, Vec2::new(0, 10));
}

#[test]
fn fixed_size_box_is_constrained() {
    let mut dom = Dom::new();
    dom.start();
    let big = fsbox(&mut dom, Vec2::new(500, 500));
    let small = fsbox(&mut dom, Vec2::new(10, 10));
    let fits = fsbox(&mut dom, Vec2::new(60, 70));
    dom.finish();
    let c = Constraints::new(Vec2::new(50, 50), Vec2::new(100, 200));
    let mut layout = LayoutDom::new();
    assert_eq!(layout.calculate(&dom, big, c), Vec2::new(100, 200));
    assert_eq!(layout.calculate(&dom, small, c), Vec2::new(50, 50));
    assert_eq!(layout.calculate(&dom, fits, c), Vec2::new(60, 70));
    assert_eq!(c.constrain(Vec2::new(-5, 1000)), Vec2::new(50, 200));
}

#[test]
fn size_is_computed_once_per_frame() {
    let mut dom = Dom::new();
    dom.start();
    let b = fsbox(&mut dom, Vec2::new(500, 500));
    dom.finish();
    let mut layout = LayoutDom::new();
    assert_eq!(layout.get(b), None);
    let first = layout.calculate(&dom, b, loose(100, 200));
    assert_eq!(first, Vec2::new(100, 200));
    // asked again under other constraints, the size of the first time comes back
    let second = layout.calculate(&dom, b, loose(10, 10));
    assert_eq!(second, first);
    assert_eq!(layout.get(b).unwrap().size, first);
    // the next frame measures anew
    layout.clear();
    assert_eq!(layout.get(b), None);
    assert_eq!(layout.calculate(&dom, b, loose(10, 10)), Vec2::new(10, 10));
}

#[test]
fn measured_child_keeps_its_size_when_its_parent_is_measured() {
    let mut dom = Dom::new();
    dom.start();
    let mut kids: Vec<Index> = Vec::new();
    let list = vertical(&mut dom, |d: &mut Dom| {
        kids.push(fsbox(d, Vec2::new(40, 10)));
        kids.push(fsbox(d, Vec2::new(40, 20)));
    });
    dom.finish();
    let mut layout = LayoutDom::new();
    // the first child is measured on its own, under tighter constraints
    assert_eq!(layout.calculate(&dom, kids[0], loose(5, 5)), Vec2::new(5, 5));
    let size = layout.calculate(&dom, list, loose(100, 200));
    assert_eq!(layout.get(kids[0]).unwrap().size, Vec2::new(5, 5));
    assert_eq!(layout.get(kids[1]).unwrap().pos, Vec2::new(0, 5));
    assert_eq!(size, Vec2::new(40, 25));
}

#[test]
fn set_pos_records_a_position_of_a_measured_node_only() {
    let mut dom = Dom::new();
    dom.start();
    let b = fsbox(&mut dom, Vec2::new(5, 5));
    dom.finish();
    let mut layout = LayoutDom::new();
    layout.set_pos(b, Vec2::new(3, 4));
    assert_eq!(layout.get(b), None);
    layout.calculate(&dom, b, loose(10, 10));
    assert_eq!(layout.get(b).unwrap().pos, Vec2::new(0, 0));
    layout.set_pos(b, Vec2::new(3, 4));
    assert_eq!(layout.get(b), Some(LayoutNode { size: Vec2::new(5, 5), pos: Vec2::new(3, 4) }));
}

#[test]
fn stale_key_has_no_extent() {
    let mut dom = Dom::new();
    dom.start();
    let b = fsbox(&mut dom, Vec2::new(5, 5));
    dom.finish();
    dom.start();
    dom.finish();
    let mut layout = LayoutDom::new();
    assert_eq!(layout.calculate(&dom, b, loose(10, 10)), Vec2::new(0, 0));
    assert_eq!(layout.get(b), None);
}

#[test]
fn placeholder_takes_the_least_allowed() {
    let dom = Dom::new();
    let mut layout = LayoutDom::new();
    let c = Constraints::new(Vec2::new(1, 1), Vec2::new(10, 10));
    assert_eq!(layout.calculate(&dom, dom.root(), c), Vec2::new(1, 1));
    let mut layout = LayoutDom::new();
    assert_eq!(layout.calculate(&dom, dom.root(), loose(10, 10)), Vec2::new(0, 0));
}

#[test]
fn paint_goes_parent_first_and_children_in_order() {
    let mut dom = Dom::new();
    dom.start();
    let mut kids: Vec<Index> = Vec::new();
    let list = vertical(&mut dom, |d: &mut Dom| {
        kids.push(fsbox(d, Vec2::new(40, 10)));
        kids.push(fsbox(d, Vec2::new(40, 20)));
        kids.push(fsbox(d, Vec2::new(40, 30)));
    });
    dom.finish();
    let mut layout = LayoutDom::new();
    layout.calculate(&dom, list, loose(100, 200));
    let mut paint = PaintDom::new();
    paint.paint(&dom, &layout, list);
    assert_eq!(
        *paint.commands(),
        vec![
            PaintRect { index: list, pos: Vec2::new(0, 0), size: Vec2::new(40, 60) },
            PaintRect { index: kids[0], pos: Vec2::new(0, 0), size: Vec2::new(40, 10) },
            PaintRect { index: kids[1], pos: Vec2::new(0, 10), size: Vec2::new(40, 20) },
            PaintRect { index: kids[2], pos: Vec2::new(0, 30), size: Vec2::new(40, 30) },
        ]
    );
    // painting adds behind what is there
    paint.paint(&dom, &layout, kids[1]);
    assert_eq!(paint.commands().len(), 5);
    assert_eq!(
        paint.commands()[4],
        PaintRect { index: kids[1], pos: Vec2::new(0, 10), size: Vec2::new(40, 20) }
    );
}

#[test]
fn paint_positions_add_up_along_the_path() {
    let mut dom = Dom::new();
    dom.start();
    let mut ids: Vec<Index> = Vec::new();
    let align = Align::new(Alignment::bottom_right()).show(&mut dom, |d: &mut Dom| {
        let list = vertical(d, |e: &mut Dom| {
            ids.push(fsbox(e, Vec2::new(10, 10)));
            ids.push(fsbox(e, Vec2::new(10, 20)));
        });
        ids.push(list);
    });
    dom.finish();
    let list = ids[2];
    let mut layout = LayoutDom::new();
    assert_eq!(layout.calculate(&dom, align, loose(100, 100)), Vec2::new(100, 100));
    assert_eq!(layout.get(list).unwrap().pos, Vec2::new(90, 70));
    let mut paint = PaintDom::new();
    paint.paint(&dom, &layout, align);
    assert_eq!(
        *paint.commands(),
        vec![
            PaintRect { index: align, pos: Vec2::new(0, 0), size: Vec2::new(100, 100) },
            PaintRect { index: list, pos: Vec2::new(90, 70), size: Vec2::new(10, 30) },
            PaintRect { index: ids[0], pos: Vec2::new(90, 70), size: Vec2::new(10, 10) },
            PaintRect { index: ids[1], pos: Vec2::new(90, 80), size: Vec2::new(10, 20) },
        ]
    );
}

#[test]
fn paint_skips_what_has_no_geometry() {
    let mut dom = Dom::new();
    dom.start();
    let b = fsbox(&mut dom, Vec2::new(5, 5));
    dom.finish();
    let layout = LayoutDom::new();
    let mut paint = PaintDom::new();
    paint.paint(&dom, &layout, b);
    paint.paint(&dom, &layout, Index::new(99, 1));
    assert!(paint.commands().is_empty());
}

use kas::geom::{add_extent, offset_ordinate, sub_extent, Coord, Margins, Rect, Size};

#[test]
fn a_rect_holds_its_left_and_top_edge_only() {
    let r = Rect::new(Coord(10, 20), Size(5, 3));
    assert!(r.contains(Coord(10, 20)));
    assert!(r.contains(Coord(14, 22)));
    assert!(!r.contains(Coord(15, 22)));
    assert!(!r.contains(Coord(14, 23)));
    assert!(!r.contains(Coord(9, 20)));
    assert!(!r.contains(Coord(10, 19)));
}

#[test]
fn an_empty_rect_holds_nothing() {
    let r = Rect::new(Coord(0, 0), Size(0, 10));
    assert!(!r.contains(Coord(0, 0)));
}

#[test]
fn a_rect_at_the_far_corner_does_not_wrap() {
    let r = Rect::new(Coord(i32::MAX - 1, i32::MAX - 1), Size(u32::MAX, u32::MAX));
    assert!(r.contains(Coord(i32::MAX, i32::MAX)));
    assert!(!r.contains(Coord(i32::MIN, i32::MIN)));
}

#[test]
fn extents_are_clamped() {
    assert_eq!(add_extent(3, 4), 7);
    assert_eq!(add_extent(u32::MAX, 1), u32::MAX);
    assert_eq!(add_extent(u32::MAX - 1, 1), u32::MAX);
    assert_eq!(sub_extent(7, 4), 3);
    assert_eq!(sub_extent(4, 7), 0);
    assert_eq!(offset_ordinate(-5, 3), -2);
    assert_eq!(offset_ordinate(i32::MAX, 1), i32::MAX);
    assert_eq!(offset_ordinate(i32::MIN, u32::MAX), i32::MAX);
}

#[test]
fn sizes_add_and_subtract_by_component() {
    assert_eq!(Size(1, 2).plus(Size(10, 20)), Size(11, 22));
    assert_eq!(Size(10, 2).minus(Size(4, 5)), Size(6, 0));
    assert_eq!(Size::zero(), Size(0, 0));
    assert_eq!(Coord::zero(), Coord(0, 0));
    assert_eq!(Coord(1, -1).offset(Size(2, 3)), Coord(3, 2));
    assert_eq!(Margins::zero(), Margins { horiz: (0, 0), vert: (0, 0) });
}

#[test]
fn shrinking_cuts_both_corners() {
    let r = Rect::new(Coord(10, 10), Size(100, 50));
    assert_eq!(r.shrunk(Size(3, 4), Size(5, 6)), Rect::new(Coord(13, 14), Size(92, 40)));
    // more is cut off than there is: nothing is left
    assert_eq!(r.shrunk(Size(60, 0), Size(60, 0)), Rect::new(Coord(70, 10), Size(0, 50)));
}

use wasm_ulmo_map::Rect;

#[test]
fn rect_corners() {
    let rect = Rect::new(4, 2, 16, 8);
    assert_eq!(rect.top_left(), (4, 2));
    assert_eq!(rect.bottom_right(), (20, 10));
}

#[test]
fn rect_with_negative_origin() {
    let rect = Rect::new(-10, -3, 4, 3);
    assert_eq!(rect.top_left(), (-10, -3));
    assert_eq!(rect.bottom_right(), (-6, 0));
}

#[test]
fn rect_at_the_limits_of_i32() {
    let rect = Rect::new(i32::MIN, i32::MIN, u32::MAX, u32::MAX);
    assert_eq!(rect.top_left(), (i32::MIN, i32::MIN));
    assert_eq!(rect.bottom_right(), (i32::MAX, i32::MAX));
}

#[test]
fn move_rect_recomputes_far_corner() {
    let rect = Rect::new(4, 2, 16, 8);
    let moved = rect.move_rect(3, -4);
    assert_eq!(moved.top_left(), (7, -2));
    assert_eq!(moved.bottom_right(), (23, 6));
    // the footprint that was moved is a value of its own
    assert_eq!(rect.top_left(), (4, 2));
    assert_eq!(rect.bottom_right(), (20, 10));
}

#[test]
fn move_rect_by_nothing() {
    let rect = Rect::new(4, 2, 16, 8);
    let moved = rect.move_rect(0, 0);
    assert_eq!(moved.top_left(), rect.top_left());
    assert_eq!(moved.bottom_right(), rect.bottom_right());
}

#[test]
fn move_rect_by_extreme_steps() {
    let rect = Rect::new(0, 0, 1, 1);
    let moved = rect.move_rect(i8::MIN, i8::MAX);
    assert_eq!(moved.top_left(), (-128, 127));
    assert_eq!(moved.bottom_right(), (-127, 128));
}

#[test]
fn top_left_delta_is_the_move() {
    let rect = Rect::new(4, 2, 16, 8);
    let moved = rect.move_rect(3, -4);
    assert_eq!(rect.top_left_delta(&moved), (3, -4));
    assert_eq!(moved.top_left_delta(&rect), (-3, 4));
    assert_eq!(rect.top_left_delta(&rect), (0, 0));
}

#[test]
fn top_left_delta_ignores_size() {
    let a = Rect::new(10, 10, 1, 1);
    let b = Rect::new(12, 7, 100, 200);
    assert_eq!(a.top_left_delta(&b), (2, -3));
}

#[test]
fn top_left_delta_wraps_to_eight_bits() {
    let a = Rect::new(0, 0, 8, 8);
    let b = Rect::new(300, -300, 8, 8);
    // 300 = 256 + 44, -300 = -256 - 44
    assert_eq!(a.top_left_delta(&b), (44, -44));
    let c = Rect::new(128, -129, 8, 8);
    assert_eq!(a.top_left_delta(&c), (-128, 127));
    let d = Rect::new(127, -128, 8, 8);
    assert_eq!(a.top_left_delta(&d), (127, -128));
    let e = Rect::new(256, 512, 8, 8);
    assert_eq!(a.top_left_delta(&e), (0, 0));
}

#[test]
fn top_left_delta_across_the_whole_range() {
    let a = Rect::new(i32::MIN, i32::MAX, 0, 0);
    let b = Rect::new(i32::MAX, i32::MIN, 0, 0);
    // 2^32 - 1 and -(2^32 - 1)
    assert_eq!(a.top_left_delta(&b), (-1, 1));
}

#[test]
fn can_move_inside_the_range() {
    let rect = Rect::new(4, 2, 16, 8);
    assert!(rect.can_move(0, 0));
    assert!(rect.can_move(127, 127));
    assert!(rect.can_move(-128, -128));
}

#[test]
fn can_move_stops_at_the_edges() {
    let right = Rect::new(i32::MAX - 10, 0, 8, 8);
    assert!(right.can_move(2, 0));
    assert!(!right.can_move(3, 0));
    assert!(right.can_move(-128, 0));
    let left = Rect::new(i32::MIN + 1, 0, 8, 8);
    assert!(left.can_move(-1, 0));
    assert!(!left.can_move(-2, 0));
    let bottom = Rect::new(0, i32::MAX - 8, 8, 8);
    assert!(bottom.can_move(0, 0));
    assert!(!bottom.can_move(0, 1));
    let top = Rect::new(0, i32::MIN, 8, 8);
    assert!(top.can_move(5, 0));
    assert!(!top.can_move(0, -1));
}

#[test]
fn can_attempt_needs_room_for_a_shuffle() {
    let rect = Rect::new(i32::MAX - 9, 0, 8, 8);
    // one step to the right is in range, a shuffle of two is not
    assert!(rect.can_move(1, 0));
    assert!(!rect.can_move(2, 0));
    // a vertical move may shuffle sideways
    assert!(!rect.can_attempt(0, 1));
    assert!(!rect.can_attempt(0, 0));
    // a horizontal move shuffles up or down
    assert!(rect.can_attempt(1, 0));
    assert!(rect.can_attempt(-5, 0));
    // a diagonal move only slides
    assert!(rect.can_attempt(1, 1));
    assert!(!rect.can_attempt(2, 1));
}

#[test]
fn can_attempt_far_from_the_edges() {
    let rect = Rect::new(4, 2, 16, 8);
    assert!(rect.can_attempt(0, 0));
    assert!(rect.can_attempt(2, 0));
    assert!(rect.can_attempt(0, -2));
    assert!(rect.can_attempt(-128, 127));
}

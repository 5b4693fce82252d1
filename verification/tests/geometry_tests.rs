use webrender::geometry::{clamped_add, DevicePoint, DeviceRect, DeviceSize};

#[test]
fn intersection_is_the_common_box() {
    let a = DeviceRect::new(0, 0, 10, 10);
    let b = DeviceRect::new(5, 3, 20, 8);
    assert_eq!(a.intersection(&b), DeviceRect::new(5, 3, 10, 8));
    assert!(a.intersects(&b));
}

#[test]
fn boxes_that_only_touch_do_not_intersect() {
    let a = DeviceRect::new(0, 0, 10, 10);
    let b = DeviceRect::new(10, 0, 20, 10);
    assert!(!a.intersects(&b));
    assert!(a.intersection(&b).is_empty());
}

#[test]
fn an_empty_box_intersects_nothing() {
    let a = DeviceRect::new(5, 5, 5, 9);
    let b = DeviceRect::new(0, 0, 10, 10);
    assert!(a.is_empty());
    assert!(!a.intersects(&b));
    assert!(!b.intersects(&a));
    assert!(b.contains_rect(&a));
}

#[test]
fn width_and_height_of_a_box() {
    let a = DeviceRect::new(-5, 2, 7, 3);
    assert_eq!(a.width(), 12);
    assert_eq!(a.height(), 1);
    let wide = DeviceRect::new(i32::MIN, 0, i32::MAX, 0);
    assert_eq!(wide.width(), u32::MAX);
    assert_eq!(wide.height(), 0);
    assert_eq!(DeviceRect::new(3, 0, 1, 5).width(), 0);
}

#[test]
fn contains_rect_takes_whole_boxes_only() {
    let outer = DeviceRect::new(0, 0, 10, 10);
    assert!(outer.contains_rect(&DeviceRect::new(2, 2, 10, 10)));
    assert!(!outer.contains_rect(&DeviceRect::new(2, 2, 11, 10)));
}

#[test]
fn translate_moves_and_clamps() {
    let a = DeviceRect::new(1, 2, 3, 4);
    assert_eq!(a.translate(DevicePoint::new(10, -10)), DeviceRect::new(11, -8, 13, -6));
    let far = DeviceRect::new(i32::MAX - 1, 0, i32::MAX, 1);
    assert_eq!(
        far.translate(DevicePoint::new(5, 0)),
        DeviceRect::new(i32::MAX, 0, i32::MAX, 1)
    );
}

#[test]
fn clamped_add_stays_in_range() {
    assert_eq!(clamped_add(3, 4), 7);
    assert_eq!(clamped_add(i32::MAX, 1), i32::MAX);
    assert_eq!(clamped_add(i32::MIN, -1), i32::MIN);
}

#[test]
fn box_from_origin_and_size() {
    let r = DeviceRect::from_origin_size(DevicePoint::new(5, 6), DeviceSize::new(10, 20));
    assert_eq!(r, DeviceRect::new(5, 6, 15, 26));
    let big = DeviceRect::from_origin_size(DevicePoint::new(5, 6), DeviceSize::new(u32::MAX, 1));
    assert_eq!(big, DeviceRect::new(5, 6, i32::MAX, 7));
    assert_eq!(DeviceRect::zero(), DeviceRect::new(0, 0, 0, 0));
    assert_eq!(DevicePoint::zero(), DevicePoint::new(0, 0));
}

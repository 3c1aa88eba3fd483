use ruwabar::canvas::Canvas;

#[test]
fn new_canvas_is_filled_with_background() {
    let canvas = Canvas::new(4, 3, 0xff10_2030);
    assert_eq!(canvas.width(), 4);
    assert_eq!(canvas.height(), 3);
    assert_eq!(canvas.background_color(), 0xff10_2030);
    assert_eq!(canvas.pixels().len(), 12);
    assert!(canvas.pixels().iter().all(|p| *p == 0xff10_2030));
}

#[test]
fn new_canvas_may_be_empty() {
    let canvas = Canvas::new(0, 5, 1);
    assert_eq!(canvas.pixels().len(), 0);
    assert_eq!(canvas.get_pixel(0, 0), None);
    let canvas = Canvas::new(5, 0, 1);
    assert_eq!(canvas.pixels().len(), 0);
    assert_eq!(canvas.get_pixel(0, 0), None);
}

#[test]
fn set_pixel_writes_row_major() {
    let mut canvas = Canvas::new(4, 3, 0);
    canvas.set_pixel(1, 2, 0xdead_beef);
    assert_eq!(canvas.pixels()[2 * 4 + 1], 0xdead_beef);
    assert_eq!(canvas.get_pixel(1, 2), Some(0xdead_beef));
    let changed = canvas.pixels().iter().filter(|p| **p != 0).count();
    assert_eq!(changed, 1);
}

#[test]
fn set_pixel_outside_never_mutates() {
    let mut canvas = Canvas::new(4, 3, 7);
    let before = canvas.pixels().clone();
    canvas.set_pixel(4, 0, 9);
    canvas.set_pixel(0, 3, 9);
    canvas.set_pixel(4, 3, 9);
    canvas.set_pixel(u32::MAX, 0, 9);
    canvas.set_pixel(0, u32::MAX, 9);
    canvas.set_pixel(u32::MAX, u32::MAX, 9);
    assert_eq!(canvas.pixels(), &before);
    assert_eq!(canvas.pixels().len(), 12);
}

#[test]
fn get_pixel_is_none_outside() {
    let canvas = Canvas::new(4, 3, 7);
    assert_eq!(canvas.get_pixel(3, 2), Some(7));
    assert_eq!(canvas.get_pixel(4, 2), None);
    assert_eq!(canvas.get_pixel(3, 3), None);
    assert_eq!(canvas.get_pixel(u32::MAX, u32::MAX), None);
}

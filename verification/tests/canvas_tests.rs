use cannonball::canvas::{Canvas, CanvasError, CanvasIter, Color};

#[test]
fn check_color_elements() {
    let c = Color::new((-0.5f32).to_bits(), 0.4f32.to_bits(), 1.7f32.to_bits());
    let (r, g, b) = c.get_raw();
    assert_eq!(f32::from_bits(r), -0.5);
    assert_eq!(f32::from_bits(g), 0.4);
    assert_eq!(f32::from_bits(b), 1.7);
}

#[test]
fn creates_a_canvas() {
    let canv = Canvas::new(10, 20, None);

    assert_eq!(canv.get_width(), 10);
    assert_eq!(canv.get_height(), 20);
    assert_eq!(canv.len(), 20 * 10);

    let mut it = CanvasIter::new(&canv);
    let mut count: usize = 0;
    while let Some(c) = it.next() {
        assert_eq!(c.get_raw(), (0, 0, 0));
        count += 1;
    }
    assert_eq!(count, 200);
}

#[test]
fn writes_pixels_to_canvas() {
    let mut canv = Canvas::new(10, 20, None);
    let red = Color::new(1.0f32.to_bits(), 0.0f32.to_bits(), 0.0f32.to_bits());

    canv.write_pixel(2, 3, &red);
    let c = canv.pixel_at(2, 3).unwrap();

    assert_eq!(c, red);
}

#[test]
fn write_pixel_leaves_other_pixels_default() {
    let mut canv = Canvas::new(10, 20, None);
    let red = Color::new(1.0f32.to_bits(), 0.0f32.to_bits(), 0.0f32.to_bits());
    let black = Color::new(0, 0, 0);

    canv.write_pixel(2, 3, &red);

    for y in 0..20 {
        for x in 0..10 {
            let c = canv.pixel_at(x, y).unwrap();
            if (x, y) == (2, 3) {
                assert_eq!(c, red);
            } else {
                assert_eq!(c, black);
            }
        }
    }
}

#[test]
fn write_pixel_out_of_range_is_a_no_op() {
    let mut canv = Canvas::new(10, 20, None);
    let red = Color::new(1.0f32.to_bits(), 0.0f32.to_bits(), 0.0f32.to_bits());
    let black = Color::new(0, 0, 0);

    // x is past the row's end: the write must not land anywhere, in
    // particular not at the row-major wrap-around position (2, 1).
    canv.write_pixel(12, 0, &red);
    canv.write_pixel(0, 20, &red);
    canv.write_pixel(10, 19, &red);

    for y in 0..20 {
        for x in 0..10 {
            assert_eq!(canv.pixel_at(x, y).unwrap(), black);
        }
    }
}

#[test]
fn pixel_at_out_of_range_is_an_error() {
    let canv = Canvas::new(10, 20, None);

    assert_eq!(canv.pixel_at(10, 0), Err(CanvasError::OutOfBounds));
    assert_eq!(canv.pixel_at(0, 20), Err(CanvasError::OutOfBounds));
    assert_eq!(canv.pixel_at(12, 1), Err(CanvasError::OutOfBounds));
    assert!(canv.pixel_at(9, 19).is_ok());
}

#[test]
fn canvas_iter_walks_in_row_major_order() {
    let mut canv = Canvas::new(2, 2, None);
    let c00 = Color::new(1, 0, 0);
    let c10 = Color::new(2, 0, 0);
    let c01 = Color::new(3, 0, 0);
    let c11 = Color::new(4, 0, 0);
    canv.write_pixel(0, 0, &c00);
    canv.write_pixel(1, 0, &c10);
    canv.write_pixel(0, 1, &c01);
    canv.write_pixel(1, 1, &c11);

    let mut it = CanvasIter::new(&canv);
    assert_eq!(it.next(), Some(c00));
    assert_eq!(it.next(), Some(c10));
    assert_eq!(it.next(), Some(c01));
    assert_eq!(it.next(), Some(c11));
    assert_eq!(it.next(), None);
    assert_eq!(it.next(), None);
}

#[test]
fn canvas_with_fill_color_starts_uniform() {
    let fill = Color::new(0.25f32.to_bits(), 0.5f32.to_bits(), 0.75f32.to_bits());
    let canv = Canvas::new(3, 2, Some(fill));

    for y in 0..2 {
        for x in 0..3 {
            assert_eq!(canv.pixel_at(x, y).unwrap(), fill);
        }
    }
}

#[test]
fn zero_sized_canvas_is_empty() {
    let canv = Canvas::new(0, 7, None);
    assert_eq!(canv.len(), 0);
    assert_eq!(canv.pixel_at(0, 0), Err(CanvasError::OutOfBounds));
    let mut it = CanvasIter::new(&canv);
    assert_eq!(it.next(), None);
}

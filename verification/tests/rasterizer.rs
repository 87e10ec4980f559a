use manifold_visualizer::drawing::{draw_line, draw_point, draw_primitive, Line2i, Point2i, Primitive2i};

fn buffer(w: usize, h: usize) -> Vec<u32> {
    vec![0u32; w * h]
}

#[test]
fn horizontal_line_fills_first_row() {
    let mut buf = buffer(5, 3);
    draw_line(&mut buf, 5, 3, 0, 0, 4, 0, 0xff0000);
    for k in 0..5 {
        assert_eq!(buf[k], 0xff0000);
    }
    for i in 5..15 {
        assert_eq!(buf[i], 0);
    }
}

#[test]
fn single_pixel_row() {
    let mut buf = buffer(1, 1);
    draw_line(&mut buf, 1, 1, 0, 0, 0, 0, 42);
    assert_eq!(buf, vec![42]);
}

#[test]
fn offscreen_line_left_writes_nothing() {
    let mut buf = buffer(4, 3);
    draw_line(&mut buf, 4, 3, -5, -2, -1, -7, 7);
    assert!(buf.iter().all(|&c| c == 0));
}

#[test]
fn offscreen_line_right_writes_nothing() {
    let mut buf = buffer(4, 3);
    draw_line(&mut buf, 4, 3, 10, 0, 12, 2, 7);
    assert!(buf.iter().all(|&c| c == 0));
}

#[test]
fn offscreen_line_below_writes_nothing() {
    let mut buf = buffer(4, 3);
    draw_line(&mut buf, 4, 3, 0, 3, 3, 9, 7);
    assert!(buf.iter().all(|&c| c == 0));
}

#[test]
fn diagonal_line_marks_diagonal() {
    let mut buf = buffer(3, 3);
    draw_line(&mut buf, 3, 3, 0, 0, 2, 2, 9);
    assert_eq!(buf, vec![9, 0, 0, 0, 9, 0, 0, 0, 9]);
}

#[test]
fn vertical_line_fills_column() {
    let mut buf = buffer(3, 3);
    draw_line(&mut buf, 3, 3, 0, 0, 0, 2, 4);
    assert_eq!(buf, vec![4, 0, 0, 4, 0, 0, 4, 0, 0]);
}

#[test]
fn partially_offscreen_line_clips_to_buffer() {
    let mut buf = buffer(3, 1);
    draw_line(&mut buf, 3, 1, -2, 0, 2, 0, 6);
    assert_eq!(buf, vec![6, 6, 6]);
}

#[test]
fn line_walk_is_endpoint_inclusive() {
    let mut buf = buffer(4, 1);
    draw_line(&mut buf, 4, 1, 1, 0, 2, 0, 3);
    assert_eq!(buf, vec![0, 3, 3, 0]);
}

#[test]
fn point_written_into_unset_pixel() {
    let mut buf = buffer(3, 2);
    let p = Point2i::new((1, 1), 8);
    draw_point(&mut buf, &p, 3, 2);
    assert_eq!(buf, vec![0, 0, 0, 0, 8, 0]);
}

#[test]
fn point_does_not_overwrite_set_pixel() {
    let mut buf = buffer(3, 2);
    buf[4] = 5;
    let p = Point2i::new((1, 1), 8);
    draw_point(&mut buf, &p, 3, 2);
    assert_eq!(buf[4], 5);
}

#[test]
fn point_out_of_bounds_writes_nothing() {
    let mut buf = buffer(3, 2);
    draw_point(&mut buf, &Point2i::new((-1, 0), 8), 3, 2);
    draw_point(&mut buf, &Point2i::new((3, 0), 8), 3, 2);
    draw_point(&mut buf, &Point2i::new((0, 2), 8), 3, 2);
    assert!(buf.iter().all(|&c| c == 0));
}

#[test]
fn point_after_line_keeps_line_color() {
    let mut buf = buffer(3, 1);
    draw_line(&mut buf, 3, 1, 0, 0, 2, 0, 5);
    let p = Point2i::new((1, 0), 9);
    draw_point(&mut buf, &p, 3, 1);
    assert_eq!(buf[1], 5);
}

#[test]
fn line_after_point_overwrites_point() {
    let mut buf = buffer(3, 1);
    let p = Point2i::new((1, 0), 9);
    draw_point(&mut buf, &p, 3, 1);
    assert_eq!(buf[1], 9);
    draw_line(&mut buf, 3, 1, 0, 0, 2, 0, 5);
    assert_eq!(buf[1], 5);
}

#[test]
fn primitive_line_uses_first_endpoint_color() {
    let mut buf = buffer(3, 1);
    let line = Line2i::new(Point2i::new((0, 0), 3), Point2i::new((2, 0), 8));
    draw_primitive(&Primitive2i::Line(line), &mut buf, 3, 1);
    assert_eq!(buf, vec![3, 3, 3]);
}

#[test]
fn primitive_point_respects_no_overwrite_rule() {
    let mut buf = buffer(2, 1);
    buf[0] = 1;
    draw_primitive(&Primitive2i::Point(Point2i::new((0, 0), 7)), &mut buf, 2, 1);
    draw_primitive(&Primitive2i::Point(Point2i::new((1, 0), 7)), &mut buf, 2, 1);
    assert_eq!(buf, vec![1, 7]);
}

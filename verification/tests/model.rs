use manifold_visualizer::clipping::{clip_action, ClipAction};
use manifold_visualizer::color::{
    channel_from_signed, channel_from_unsigned, pack_rgb, DEFAULT_LINE_COLOR, DEFAULT_POINT_COLOR,
};
use manifold_visualizer::objects::{
    point_from_position, primitive_from_point, segment_from_positions, Line3, Point3, Primitive3,
};
use manifold_visualizer::sampling::{adjacent_pairs, iso_segments, wireframe_segments};

type Pos = (i32, i32, i32);

#[test]
fn default_colors() {
    assert_eq!(DEFAULT_LINE_COLOR, 0xffffff);
    assert_eq!(DEFAULT_POINT_COLOR, 0);
}

#[test]
fn pack_rgb_packs_channels() {
    assert_eq!(pack_rgb(0x12, 0x34, 0x56), 0x123456);
    assert_eq!(pack_rgb(255, 255, 255), 0xffffff);
    assert_eq!(pack_rgb(0, 0, 0), 0);
}

#[test]
fn unsigned_channel_saturates() {
    assert_eq!(channel_from_unsigned(42), 42);
    assert_eq!(channel_from_unsigned(255), 255);
    assert_eq!(channel_from_unsigned(300), 255);
}

#[test]
fn signed_channel_clamps() {
    assert_eq!(channel_from_signed(-5), 0);
    assert_eq!(channel_from_signed(0), 0);
    assert_eq!(channel_from_signed(100), 100);
    assert_eq!(channel_from_signed(300), 255);
}

#[test]
fn with_color_stamps_colorless_line() {
    let line: Primitive3<Pos> = segment_from_positions((0, 0, 0), (1, 2, 3));
    // Wireframe segments come out white; restamp only applies to color 0.
    let p0 = Point3::new((0, 0, 0), 0);
    let p1 = Point3::new((1, 2, 3), 0);
    let colorless: Primitive3<Pos> = Primitive3::Line(Line3::new(p0, p1));
    match colorless.with_color(0xaa) {
        Primitive3::Line(l) => {
            assert_eq!(l.p0.color, 0xaa);
            assert_eq!(l.p1.color, 0xaa);
            assert_eq!(l.p0.p, (0, 0, 0));
            assert_eq!(l.p1.p, (1, 2, 3));
        }
        Primitive3::Point(_) => unreachable!(),
    }
    match line.with_color(0xaa) {
        Primitive3::Line(l) => {
            assert_eq!(l.p0.color, DEFAULT_LINE_COLOR);
            assert_eq!(l.p1.color, DEFAULT_LINE_COLOR);
        }
        Primitive3::Point(_) => unreachable!(),
    }
}

#[test]
fn with_color_stamps_colorless_point() {
    let colorless: Primitive3<Pos> = Primitive3::Point(Point3::new((4, 5, 6), 0));
    match colorless.with_color(0xbb) {
        Primitive3::Point(p) => {
            assert_eq!(p.color, 0xbb);
            assert_eq!(p.p, (4, 5, 6));
        }
        Primitive3::Line(_) => unreachable!(),
    }
    let colored: Primitive3<Pos> = Primitive3::Point(Point3::new((4, 5, 6), 0x123456));
    match colored.with_color(0xbb) {
        Primitive3::Point(p) => assert_eq!(p.color, 0x123456),
        Primitive3::Line(_) => unreachable!(),
    }
}

#[test]
fn inverted_swaps_endpoints_and_keeps_front_color() {
    let line: Line3<Pos> = Line3::new(Point3::new((1, 1, 1), 7), Point3::new((2, 2, 2), 9));
    let inv = line.inverted();
    assert_eq!(inv.p0.p, (2, 2, 2));
    assert_eq!(inv.p1.p, (1, 1, 1));
    assert_eq!(inv.p0.color, 7);
    assert_eq!(inv.p1.color, 7);
}

#[test]
fn constructors_stamp_default_line_color() {
    match segment_from_positions::<Pos>((0, 0, 1), (0, 0, 2)) {
        Primitive3::Line(l) => {
            assert_eq!(l.p0.color, DEFAULT_LINE_COLOR);
            assert_eq!(l.p1.color, DEFAULT_LINE_COLOR);
        }
        Primitive3::Point(_) => unreachable!(),
    }
    match point_from_position::<Pos>((3, 3, 3)) {
        Primitive3::Point(p) => assert_eq!(p.color, DEFAULT_LINE_COLOR),
        Primitive3::Line(_) => unreachable!(),
    }
    match primitive_from_point(Point3::new((3, 3, 3), 0x42)) {
        Primitive3::Point(p) => {
            let q: Pos = p.p;
            assert_eq!(q, (3, 3, 3));
            assert_eq!(p.color, 0x42);
        }
        Primitive3::Line(_) => unreachable!(),
    }
}

#[test]
fn clip_action_covers_all_depth_cases() {
    assert_eq!(clip_action(true, true), ClipAction::KeepBoth);
    assert_eq!(clip_action(true, false), ClipAction::TruncateSecond);
    assert_eq!(clip_action(false, true), ClipAction::InvertAndTruncate);
    assert_eq!(clip_action(false, false), ClipAction::Discard);
}

#[test]
fn adjacent_pairs_joins_consecutive_samples() {
    let pts = vec![1, 2, 3, 4];
    assert_eq!(adjacent_pairs(&pts), vec![(1, 2), (2, 3), (3, 4)]);
    let one = vec![9];
    assert_eq!(adjacent_pairs(&one), vec![]);
    let none: Vec<i32> = vec![];
    assert_eq!(adjacent_pairs(&none), vec![]);
}

#[test]
fn iso_segments_join_rows_in_order() {
    let rows = vec![vec![1, 2, 3], vec![4, 5]];
    assert_eq!(iso_segments(&rows), vec![(1, 2), (2, 3), (4, 5)]);
}

#[test]
fn wireframe_concatenates_both_axes() {
    let rows_u = vec![vec![1, 2]];
    let rows_v = vec![vec![3, 4, 5]];
    assert_eq!(wireframe_segments(&rows_u, &rows_v), vec![(1, 2), (3, 4), (4, 5)]);
}

use manifold_visualizer::clipping::{clip_action, ClipAction};
use manifold_visualizer::drawing::{draw_primitive, Line2i, Point2i, Primitive2i};
use manifold_visualizer::sampling::wireframe_segments;

type V3 = (f32, f32, f32);

fn sphere(r: f32, u: f32, v: f32) -> V3 {
    (r * u.cos() * v.cos(), r * u.sin() * v.cos(), r * v.sin())
}

fn regular(a: f32, b: f32, n: u32) -> Vec<f32> {
    (0..n)
        .map(|i| a + (b - a) * i as f32 / (n - 1) as f32)
        .collect()
}

// A sphere of radius 10 sampled at (8, 4), seen from distance 50 with a
// 60-degree field of view, projects fully on screen: every mapped endpoint
// lands inside the buffer, no segment is clipped, and the drawn wireframe is
// non-empty.
#[test]
fn sphere_wireframe_renders_on_screen() {
    const W: usize = 80;
    const H: usize = 60;
    let pi = std::f32::consts::PI;
    let us = regular(-pi, pi, 8);
    let vs = regular(-pi / 2.0, pi / 2.0, 4);
    let rows_u: Vec<Vec<V3>> = us
        .iter()
        .map(|&u| vs.iter().map(|&v| sphere(10.0, u, v)).collect())
        .collect();
    let rows_v: Vec<Vec<V3>> = vs
        .iter()
        .map(|&v| us.iter().map(|&u| sphere(10.0, u, v)).collect())
        .collect();
    let segments = wireframe_segments(&rows_u, &rows_v);
    assert!(!segments.is_empty());

    // Camera 50 units in front of the origin, looking along +z.
    let to_camera = |p: V3| (p.0, p.1, p.2 + 50.0);
    let f = 1.0 / (30f32.to_radians()).tan();
    let aspect = W as f32 / H as f32;
    let to_pixel = |p: V3| -> (i32, i32) {
        let (x, y) = (f * p.0 / p.2, f * p.1 / p.2);
        let u = (x + aspect) / (2.0 * aspect);
        let v = (1.0 - y) / 2.0;
        (
            (u * (W as f32 - 1.0)).round() as i32,
            (v * (H as f32 - 1.0)).round() as i32,
        )
    };

    let mut buffer = vec![0u32; W * H];
    for (p0, p1) in &segments {
        let c0 = to_camera(*p0);
        let c1 = to_camera(*p1);
        assert_eq!(clip_action(c0.2 > 0.0, c1.2 > 0.0), ClipAction::KeepBoth);
        let q0 = to_pixel(c0);
        let q1 = to_pixel(c1);
        for q in [q0, q1] {
            assert!(0 <= q.0 && q.0 < W as i32 && 0 <= q.1 && q.1 < H as i32);
        }
        let line = Line2i::new(Point2i::new(q0, 0xffffff), Point2i::new(q1, 0xffffff));
        draw_primitive(&Primitive2i::Line(line), &mut buffer, W, H);
    }
    assert!(buffer.iter().any(|&c| c != 0));
}

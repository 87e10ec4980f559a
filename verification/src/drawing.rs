use vstd::prelude::*;

verus! {

// ---------------------------------------------------------------------------
// Pixel-space primitives
// ---------------------------------------------------------------------------

/// A pixel position with a color, as produced by screen mapping. It may lie
/// outside the buffer: bounds are checked only when drawing.
#[derive(Clone, Copy, Debug)]
pub struct Point2i {
    pub p: (i32, i32),
    pub color: u32,
}

impl Point2i {
    pub fn new(p: (i32, i32), color: u32) -> (r: Self)
        ensures
            r.p == p,
            r.color == color,
    {
        Point2i { p, color }
    }
}

/// A segment between two pixel positions.
#[derive(Clone, Copy, Debug)]
pub struct Line2i {
    pub p0: Point2i,
    pub p1: Point2i,
}

impl Line2i {
    pub fn new(p0: Point2i, p1: Point2i) -> (r: Self)
        ensures
            r.p0 == p0,
            r.p1 == p1,
    {
        Line2i { p0, p1 }
    }
}

/// A primitive drawable on the screen.
#[derive(Clone, Copy, Debug)]
pub enum Primitive2i {
    Line(Line2i),
    Point(Point2i),
}

// ---------------------------------------------------------------------------
// The pixel-path model of the rasterizer
// ---------------------------------------------------------------------------

pub open spec fn abs_int(a: int) -> int {
    if a >= 0 {
        a
    } else {
        -a
    }
}

pub open spec fn min_int(a: int, b: int) -> int {
    if a <= b {
        a
    } else {
        b
    }
}

pub open spec fn max_int(a: int, b: int) -> int {
    if a >= b {
        a
    } else {
        b
    }
}

/// The direction the line walk moves along one axis: +1 toward a strictly
/// larger target coordinate, -1 otherwise.
pub open spec fn sign_step(from: int, to: int) -> int {
    if from < to {
        1int
    } else {
        -1int
    }
}

/// Whether a walk step advances x, given the running error term.
pub open spec fn step_x(err: int, dy: int) -> bool {
    2 * err > -dy
}

/// Whether a walk step advances y, given the running error term.
pub open spec fn step_y(err: int, dx: int) -> bool {
    2 * err < dx
}

/// The error term after one walk step.
pub open spec fn next_err(err: int, dx: int, dy: int) -> int {
    err + (if step_x(err, dy) {
        -dy
    } else {
        0int
    }) + (if step_y(err, dx) {
        dx
    } else {
        0int
    })
}

/// The x coordinate after one walk step.
pub open spec fn next_x(x: int, err: int, dy: int, sx: int) -> int {
    if step_x(err, dy) {
        x + sx
    } else {
        x
    }
}

/// The y coordinate after one walk step.
pub open spec fn next_y(y: int, err: int, dx: int, sy: int) -> int {
    if step_y(err, dx) {
        y + sy
    } else {
        y
    }
}

/// The pixels visited by the line walk from `(x, y)` with error term `err`
/// until it reaches `(x1, y1)`, both ends inclusive. `dx`, `dy`, `sx`, `sy`
/// are the walk's constants; `fuel` bounds the recursion and is never
/// exhausted on the states the walk actually reaches.
pub open spec fn bres_aux(
    x: int,
    y: int,
    err: int,
    x1: int,
    y1: int,
    dx: int,
    dy: int,
    sx: int,
    sy: int,
    fuel: nat,
) -> Seq<(int, int)>
    decreases fuel,
{
    if (x == x1 && y == y1) || fuel == 0 {
        seq![(x, y)]
    } else {
        seq![(x, y)] + bres_aux(
            next_x(x, err, dy, sx),
            next_y(y, err, dx, sy),
            next_err(err, dx, dy),
            x1,
            y1,
            dx,
            dy,
            sx,
            sy,
            (fuel - 1) as nat,
        )
    }
}

/// The pixels the rasterizer visits for a segment from `(x0, y0)` to
/// `(x1, y1)`: the Bresenham walk between the two endpoints, inclusive.
pub open spec fn line_pixels(x0: int, y0: int, x1: int, y1: int) -> Seq<(int, int)> {
    let dx = abs_int(x1 - x0);
    let dy = abs_int(y1 - y0);
    bres_aux(
        x0,
        y0,
        dx - dy,
        x1,
        y1,
        dx,
        dy,
        sign_step(x0, x1),
        sign_step(y0, y1),
        (dx + dy) as nat,
    )
}

/// Whether a pixel lies inside a buffer of the given dimensions.
pub open spec fn on_screen(px: (int, int), w: int, h: int) -> bool {
    0 <= px.0 < w && 0 <= px.1 < h
}

/// The flat row-major index of a pixel.
pub open spec fn pixel_index(px: (int, int), w: int) -> int {
    px.1 * w + px.0
}

/// Whether buffer cell `i` is hit by some on-screen pixel of `pixels`.
pub open spec fn covered(pixels: Seq<(int, int)>, w: int, h: int, i: int) -> bool {
    exists|k: int|
        0 <= k < pixels.len() && on_screen(#[trigger] pixels[k], w, h) && pixel_index(
            pixels[k],
            w,
        ) == i
}

/// The buffer after writing `c` to every cell hit by an on-screen pixel of
/// `pixels`; all other cells keep their value.
pub open spec fn paint(buf: Seq<u32>, pixels: Seq<(int, int)>, w: int, h: int, c: u32) -> Seq<
    u32,
> {
    Seq::new(
        buf.len(),
        |i: int|
            if covered(pixels, w, h, i) {
                c
            } else {
                buf[i]
            },
    )
}

/// The buffer after rasterizing a line: every in-bounds pixel of the walk is
/// overwritten with `c`, unconditionally; nothing else changes.
pub open spec fn rasterize_line(
    buf: Seq<u32>,
    w: int,
    h: int,
    x0: int,
    y0: int,
    x1: int,
    y1: int,
    c: u32,
) -> Seq<u32> {
    paint(buf, line_pixels(x0, y0, x1, y1), w, h, c)
}

/// The buffer after rasterizing a point: the cell is written only if it is
/// in bounds and still holds the unset sentinel 0 — points never overwrite
/// pixels already drawn.
pub open spec fn rasterize_point(buf: Seq<u32>, w: int, h: int, x: int, y: int, c: u32) -> Seq<
    u32,
> {
    if on_screen((x, y), w, h) && buf[y * w + x] == 0 {
        buf.update(y * w + x, c)
    } else {
        buf
    }
}

/// The buffer after rasterizing a primitive: a line is drawn from the walk
/// between its endpoints with the color of its first endpoint; a point is
/// drawn under the no-overwrite rule.
pub open spec fn rasterize_primitive(
    buf: Seq<u32>,
    w: int,
    h: int,
    prim: Primitive2i,
) -> Seq<u32> {
    match prim {
        Primitive2i::Line(line) => rasterize_line(
            buf,
            w,
            h,
            line.p0.p.0 as int,
            line.p0.p.1 as int,
            line.p1.p.0 as int,
            line.p1.p.1 as int,
            line.p0.color,
        ),
        Primitive2i::Point(point) => rasterize_point(
            buf,
            w,
            h,
            point.p.0 as int,
            point.p.1 as int,
            point.color,
        ),
    }
}

// ---------------------------------------------------------------------------
// Painting lemmas
// ---------------------------------------------------------------------------

proof fn lemma_paint_empty(buf: Seq<u32>, w: int, h: int, c: u32)
    ensures
        paint(buf, Seq::<(int, int)>::empty(), w, h, c) == buf,
{
    assert(paint(buf, Seq::<(int, int)>::empty(), w, h, c) =~= buf);
}

proof fn lemma_paint_push(buf: Seq<u32>, s: Seq<(int, int)>, p: (int, int), w: int, h: int, c: u32)
    requires
        buf.len() == w * h,
        0 <= w,
        0 <= h,
    ensures
        on_screen(p, w, h) ==> paint(buf, s.push(p), w, h, c) == paint(buf, s, w, h, c).update(
            pixel_index(p, w),
            c,
        ),
        !on_screen(p, w, h) ==> paint(buf, s.push(p), w, h, c) == paint(buf, s, w, h, c),
{
    if on_screen(p, w, h) {
        assert(0 <= p.1 * w + p.0 < w * h) by (nonlinear_arith)
            requires
                0 <= p.0 < w,
                0 <= p.1 < h,
        ;
    }
    assert forall|i: int| 0 <= i < buf.len() implies covered(s.push(p), w, h, i) == (covered(
        s,
        w,
        h,
        i,
    ) || (on_screen(p, w, h) && pixel_index(p, w) == i)) by {
        if covered(s.push(p), w, h, i) {
            let k = choose|k: int|
                0 <= k < s.push(p).len() && on_screen(#[trigger] s.push(p)[k], w, h)
                    && pixel_index(s.push(p)[k], w) == i;
            if k < s.len() {
                assert(s.push(p)[k] == s[k]);
                assert(covered(s, w, h, i));
            } else {
                assert(s.push(p)[k] == p);
            }
        }
        if covered(s, w, h, i) {
            let k = choose|k: int|
                0 <= k < s.len() && on_screen(#[trigger] s[k], w, h) && pixel_index(s[k], w) == i;
            assert(s.push(p)[k] == s[k]);
            assert(covered(s.push(p), w, h, i));
        }
        if on_screen(p, w, h) && pixel_index(p, w) == i {
            assert(s.push(p)[s.len() as int] == p);
            assert(covered(s.push(p), w, h, i));
        }
    }
    if on_screen(p, w, h) {
        let j = pixel_index(p, w);
        assert(0 <= j < buf.len());
        assert forall|i: int| 0 <= i < buf.len() implies paint(buf, s.push(p), w, h, c)[i]
            == paint(buf, s, w, h, c).update(j, c)[i] by {
            if i == j {
                assert(s.push(p)[s.len() as int] == p);
                assert(covered(s.push(p), w, h, i));
            }
        }
        assert(paint(buf, s.push(p), w, h, c) =~= paint(buf, s, w, h, c).update(j, c));
    } else {
        assert forall|i: int| 0 <= i < buf.len() implies paint(buf, s.push(p), w, h, c)[i]
            == paint(buf, s, w, h, c)[i] by {
            assert(covered(s.push(p), w, h, i) == covered(s, w, h, i));
        }
        assert(paint(buf, s.push(p), w, h, c) =~= paint(buf, s, w, h, c));
    }
}

// ---------------------------------------------------------------------------
// The walk-state invariant of the line rasterizer
// ---------------------------------------------------------------------------

/// The state of the line walk after `a` steps in x and `b` steps in y: the
/// position follows the step counts, and the error term carries exactly the
/// balance `dx*(1+b) - dy*(1+a)` that drives the stepping decisions.
pub open spec fn valid_state(
    x0: int,
    y0: int,
    x1: int,
    y1: int,
    x: int,
    y: int,
    err: int,
    a: int,
    b: int,
) -> bool {
    let dx = abs_int(x1 - x0);
    let dy = abs_int(y1 - y0);
    let sx = sign_step(x0, x1);
    let sy = sign_step(y0, y1);
    &&& 0 <= a <= dx
    &&& 0 <= b <= dy
    &&& x == x0 + sx * a
    &&& y == y0 + sy * b
    &&& err == dx * (1 + b) - dy * (1 + a)
    &&& (x == x1 <==> a == dx)
    &&& (y == y1 <==> b == dy)
}

proof fn lemma_bres_init(x0: int, y0: int, x1: int, y1: int)
    ensures
        valid_state(
            x0,
            y0,
            x1,
            y1,
            x0,
            y0,
            abs_int(x1 - x0) - abs_int(y1 - y0),
            0,
            0,
        ),
{
    let dx = abs_int(x1 - x0);
    let dy = abs_int(y1 - y0);
    assert(sign_step(x0, x1) * 0 == 0) by (nonlinear_arith);
    assert(sign_step(y0, y1) * 0 == 0) by (nonlinear_arith);
    assert(dx * (1 + 0) == dx) by (nonlinear_arith);
    assert(dy * (1 + 0) == dy) by (nonlinear_arith);
}

/// One step of the walk, taken from a state that has not reached the target,
/// advances at least one axis, never overshoots either axis, and preserves
/// the walk-state invariant.
proof fn lemma_bres_step(
    x0: int,
    y0: int,
    x1: int,
    y1: int,
    x: int,
    y: int,
    err: int,
    a: int,
    b: int,
)
    requires
        valid_state(x0, y0, x1, y1, x, y, err, a, b),
        !(x == x1 && y == y1),
    ensures
        step_x(err, abs_int(y1 - y0)) || step_y(err, abs_int(x1 - x0)),
        valid_state(
            x0,
            y0,
            x1,
            y1,
            next_x(x, err, abs_int(y1 - y0), sign_step(x0, x1)),
            next_y(y, err, abs_int(x1 - x0), sign_step(y0, y1)),
            next_err(err, abs_int(x1 - x0), abs_int(y1 - y0)),
            a + (if step_x(err, abs_int(y1 - y0)) {
                1int
            } else {
                0int
            }),
            b + (if step_y(err, abs_int(x1 - x0)) {
                1int
            } else {
                0int
            }),
        ),
{
    let dx = abs_int(x1 - x0);
    let dy = abs_int(y1 - y0);
    let sx = sign_step(x0, x1);
    let sy = sign_step(y0, y1);
    assert(a < dx || b < dy);
    assert(2 * err > -dy || 2 * err < dx) by (nonlinear_arith)
        requires
            err == dx * (1 + b) - dy * (1 + a),
            0 <= a <= dx,
            0 <= b <= dy,
            a < dx || b < dy,
    ;
    assert(2 * err > -dy ==> a < dx) by (nonlinear_arith)
        requires
            err == dx * (1 + b) - dy * (1 + a),
            0 <= a <= dx,
            0 <= b <= dy,
            a < dx || b < dy,
    ;
    assert(2 * err < dx ==> b < dy) by (nonlinear_arith)
        requires
            err == dx * (1 + b) - dy * (1 + a),
            0 <= a <= dx,
            0 <= b <= dy,
            a < dx || b < dy,
    ;
    assert(err - dy == dx * (1 + b) - dy * (1 + (a + 1))) by (nonlinear_arith)
        requires
            err == dx * (1 + b) - dy * (1 + a),
    ;
    assert(err + dx == dx * (1 + (b + 1)) - dy * (1 + a)) by (nonlinear_arith)
        requires
            err == dx * (1 + b) - dy * (1 + a),
    ;
    assert(err - dy + dx == dx * (1 + (b + 1)) - dy * (1 + (a + 1))) by (nonlinear_arith)
        requires
            err == dx * (1 + b) - dy * (1 + a),
    ;
    assert(x + sx == x0 + sx * (a + 1)) by (nonlinear_arith)
        requires
            x == x0 + sx * a,
    ;
    assert(y + sy == y0 + sy * (b + 1)) by (nonlinear_arith)
        requires
            y == y0 + sy * b,
    ;
    assert(x1 == x0 + sx * dx) by (nonlinear_arith)
        requires
            sx == sign_step(x0, x1),
            dx == abs_int(x1 - x0),
            (x0 < x1 ==> sx == 1 && dx == x1 - x0),
            (x0 >= x1 ==> sx == -1 && dx == x0 - x1),
    ;
    assert(y1 == y0 + sy * dy) by (nonlinear_arith)
        requires
            sy == sign_step(y0, y1),
            dy == abs_int(y1 - y0),
            (y0 < y1 ==> sy == 1 && dy == y1 - y0),
            (y0 >= y1 ==> sy == -1 && dy == y0 - y1),
    ;
    let na = a + (if step_x(err, dy) {
        1int
    } else {
        0int
    });
    let nb = b + (if step_y(err, dx) {
        1int
    } else {
        0int
    });
    assert(x0 + sx * na == x1 <==> na == dx) by (nonlinear_arith)
        requires
            sx == 1 || sx == -1,
            x1 == x0 + sx * dx,
    ;
    assert(y0 + sy * nb == y1 <==> nb == dy) by (nonlinear_arith)
        requires
            sy == 1 || sy == -1,
            y1 == y0 + sy * dy,
    ;
}

// ---------------------------------------------------------------------------
// Point rasterization
// ---------------------------------------------------------------------------

fn write_pixel(buffer: &mut Vec<u32>, width: i64, height: i64, x: i64, y: i64, color: u32)
    requires
        0 <= width,
        0 <= height,
        old(buffer)@.len() == width * height,
    ensures
        on_screen((x as int, y as int), width as int, height as int) ==> final(buffer)@ == old(
            buffer,
        )@.update(pixel_index((x as int, y as int), width as int), color),
        !on_screen((x as int, y as int), width as int, height as int) ==> final(buffer)@ == old(
            buffer,
        )@,
{
    if 0 <= x && x < width && 0 <= y && y < height {
        let n: usize = buffer.len();
        proof {
            assert(0 <= (y as int) * (width as int) + (x as int) < (width as int) * (height
                as int)) by (nonlinear_arith)
                requires
                    0 <= (x as int) < (width as int),
                    0 <= (y as int) < (height as int),
            ;
            assert((width as int) <= (width as int) * (height as int) && (height as int) <= (width
                as int) * (height as int)) by (nonlinear_arith)
                requires
                    1 <= (width as int),
                    1 <= (height as int),
            ;
            assert((width as int) * (height as int) == n as int);
        }
        let idx: usize = (y as usize) * (width as usize) + (x as usize);
        buffer[idx] = color;
    }
}

/// Draws a segment between two pixel positions with the Bresenham walk:
/// every visited pixel that lies inside the buffer is overwritten with
/// `color`, unconditionally; visited pixels outside the buffer are skipped
/// and the walk continues to the inclusive endpoint.
#[verifier::loop_isolation(false)]
#[verifier::rlimit(60)]
pub fn draw_line(
    buffer: &mut Vec<u32>,
    width: i32,
    height: i32,
    x0: i32,
    y0: i32,
    x1: i32,
    y1: i32,
    color: u32,
)
    requires
        width >= 0,
        height >= 0,
        old(buffer)@.len() == width * height,
    ensures
        final(buffer)@ == rasterize_line(
            old(buffer)@,
            width as int,
            height as int,
            x0 as int,
            y0 as int,
            x1 as int,
            y1 as int,
            color,
        ),
{
    let w: i64 = width as i64;
    let h: i64 = height as i64;
    let tx: i64 = x1 as i64;
    let ty: i64 = y1 as i64;
    let mut x: i64 = x0 as i64;
    let mut y: i64 = y0 as i64;
    let dx: i64 = if tx >= x {
        tx - x
    } else {
        x - tx
    };
    let dy: i64 = if ty >= y {
        ty - y
    } else {
        y - ty
    };
    let sx: i64 = if x < tx {
        1
    } else {
        -1
    };
    let sy: i64 = if y < ty {
        1
    } else {
        -1
    };
    let mut err: i64 = dx - dy;

    let ghost buf0 = buffer@;
    let ghost mut a: int = 0;
    let ghost mut b: int = 0;
    let ghost mut prefix: Seq<(int, int)> = Seq::empty();
    let ghost mut rem: nat = (dx + dy) as nat;

    proof {
        lemma_bres_init(x0 as int, y0 as int, x1 as int, y1 as int);
        assert(Seq::<(int, int)>::empty() + bres_aux(
            x as int,
            y as int,
            err as int,
            x1 as int,
            y1 as int,
            dx as int,
            dy as int,
            sx as int,
            sy as int,
            rem,
        ) =~= bres_aux(
            x as int,
            y as int,
            err as int,
            x1 as int,
            y1 as int,
            dx as int,
            dy as int,
            sx as int,
            sy as int,
            rem,
        ));
    }
    write_pixel(buffer, w, h, x, y, color);
    proof {
        lemma_paint_empty(buf0, w as int, h as int, color);
        lemma_paint_push(buf0, Seq::empty(), (x as int, y as int), w as int, h as int, color);
    }

    while x != tx || y != ty
        invariant
            valid_state(
                x0 as int,
                y0 as int,
                x1 as int,
                y1 as int,
                x as int,
                y as int,
                err as int,
                a,
                b,
            ),
            -2 * (dy as int) <= err as int <= 2 * (dx as int),
            line_pixels(x0 as int, y0 as int, x1 as int, y1 as int) == prefix + bres_aux(
                x as int,
                y as int,
                err as int,
                x1 as int,
                y1 as int,
                dx as int,
                dy as int,
                sx as int,
                sy as int,
                rem,
            ),
            rem >= (dx as int - a) + (dy as int - b),
            buffer@ == paint(
                buf0,
                prefix.push((x as int, y as int)),
                w as int,
                h as int,
                color,
            ),
        decreases (dx as int - a) + (dy as int - b),
    {
        let ghost oldx = x as int;
        let ghost oldy = y as int;
        let ghost olderr = err as int;
        proof {
            lemma_bres_step(
                x0 as int,
                y0 as int,
                x1 as int,
                y1 as int,
                oldx,
                oldy,
                olderr,
                a,
                b,
            );
            assert(rem > 0);
        }
        let e2: i64 = 2 * err;
        if e2 > -dy {
            err = err - dy;
            x = x + sx;
            proof {
                a = a + 1;
            }
        }
        if e2 < dx {
            err = err + dx;
            y = y + sy;
            proof {
                b = b + 1;
            }
        }
        proof {
            assert(x as int == next_x(oldx, olderr, dy as int, sx as int));
            assert(y as int == next_y(oldy, olderr, dx as int, sy as int));
            assert(err as int == next_err(olderr, dx as int, dy as int));
            assert(bres_aux(
                oldx,
                oldy,
                olderr,
                x1 as int,
                y1 as int,
                dx as int,
                dy as int,
                sx as int,
                sy as int,
                rem,
            ) == seq![(oldx, oldy)] + bres_aux(
                x as int,
                y as int,
                err as int,
                x1 as int,
                y1 as int,
                dx as int,
                dy as int,
                sx as int,
                sy as int,
                (rem - 1) as nat,
            ));
            assert(prefix + (seq![(oldx, oldy)] + bres_aux(
                x as int,
                y as int,
                err as int,
                x1 as int,
                y1 as int,
                dx as int,
                dy as int,
                sx as int,
                sy as int,
                (rem - 1) as nat,
            )) =~= prefix.push((oldx, oldy)) + bres_aux(
                x as int,
                y as int,
                err as int,
                x1 as int,
                y1 as int,
                dx as int,
                dy as int,
                sx as int,
                sy as int,
                (rem - 1) as nat,
            ));
            prefix = prefix.push((oldx, oldy));
            rem = (rem - 1) as nat;
        }
        write_pixel(buffer, w, h, x, y, color);
        proof {
            lemma_paint_push(buf0, prefix, (x as int, y as int), w as int, h as int, color);
        }
    }
    proof {
        assert(bres_aux(
            x as int,
            y as int,
            err as int,
            x1 as int,
            y1 as int,
            dx as int,
            dy as int,
            sx as int,
            sy as int,
            rem,
        ) == seq![(x as int, y as int)]);
        assert(prefix + seq![(x as int, y as int)] =~= prefix.push((x as int, y as int)));
    }
}

/// Draws a screen primitive into the buffer: a line walks between its
/// endpoints with the color of the first endpoint, a point is drawn under
/// the no-overwrite rule.
pub fn draw_primitive(primitive: &Primitive2i, buffer: &mut Vec<u32>, width: usize, height: usize)
    requires
        width <= 0x7fff_ffff,
        height <= 0x7fff_ffff,
        old(buffer)@.len() == width * height,
    ensures
        final(buffer)@ == rasterize_primitive(
            old(buffer)@,
            width as int,
            height as int,
            *primitive,
        ),
{
    match primitive {
        Primitive2i::Line(line) => draw_line(
            buffer,
            width as i32,
            height as i32,
            line.p0.p.0,
            line.p0.p.1,
            line.p1.p.0,
            line.p1.p.1,
            line.p0.color,
        ),
        Primitive2i::Point(point) => draw_point(buffer, point, width as i32, height as i32),
    }
}

// ---------------------------------------------------------------------------
// Laws of line rasterization
// ---------------------------------------------------------------------------

/// Whether a pixel lies in the axis-aligned bounding box of a segment.
pub open spec fn in_bbox(p: (int, int), x0: int, y0: int, x1: int, y1: int) -> bool {
    min_int(x0, x1) <= p.0 <= max_int(x0, x1) && min_int(y0, y1) <= p.1 <= max_int(y0, y1)
}

proof fn lemma_bres_bbox(
    x0: int,
    y0: int,
    x1: int,
    y1: int,
    x: int,
    y: int,
    err: int,
    a: int,
    b: int,
    fuel: nat,
)
    requires
        valid_state(x0, y0, x1, y1, x, y, err, a, b),
    ensures
        forall|k: int|
            0 <= k < bres_aux(
                x,
                y,
                err,
                x1,
                y1,
                abs_int(x1 - x0),
                abs_int(y1 - y0),
                sign_step(x0, x1),
                sign_step(y0, y1),
                fuel,
            ).len() ==> in_bbox(
                #[trigger] bres_aux(
                    x,
                    y,
                    err,
                    x1,
                    y1,
                    abs_int(x1 - x0),
                    abs_int(y1 - y0),
                    sign_step(x0, x1),
                    sign_step(y0, y1),
                    fuel,
                )[k],
                x0,
                y0,
                x1,
                y1,
            ),
    decreases fuel,
{
    let dx = abs_int(x1 - x0);
    let dy = abs_int(y1 - y0);
    let sx = sign_step(x0, x1);
    let sy = sign_step(y0, y1);
    let s = bres_aux(x, y, err, x1, y1, dx, dy, sx, sy, fuel);
    assert(min_int(x0, x1) <= x && x <= max_int(x0, x1)) by (nonlinear_arith)
        requires
            x == x0 + sx * a,
            0 <= a <= dx,
            (x0 < x1 ==> sx == 1 && dx == x1 - x0 && min_int(x0, x1) == x0 && max_int(x0, x1)
                == x1),
            (x0 >= x1 ==> sx == -1 && dx == x0 - x1 && min_int(x0, x1) == x1 && max_int(x0, x1)
                == x0),
    ;
    assert(min_int(y0, y1) <= y && y <= max_int(y0, y1)) by (nonlinear_arith)
        requires
            y == y0 + sy * b,
            0 <= b <= dy,
            (y0 < y1 ==> sy == 1 && dy == y1 - y0 && min_int(y0, y1) == y0 && max_int(y0, y1)
                == y1),
            (y0 >= y1 ==> sy == -1 && dy == y0 - y1 && min_int(y0, y1) == y1 && max_int(y0, y1)
                == y0),
    ;
    if (x == x1 && y == y1) || fuel == 0 {
        assert(s == seq![(x, y)]);
    } else {
        lemma_bres_step(x0, y0, x1, y1, x, y, err, a, b);
        let na = a + (if step_x(err, dy) {
            1int
        } else {
            0int
        });
        let nb = b + (if step_y(err, dx) {
            1int
        } else {
            0int
        });
        lemma_bres_bbox(
            x0,
            y0,
            x1,
            y1,
            next_x(x, err, dy, sx),
            next_y(y, err, dx, sy),
            next_err(err, dx, dy),
            na,
            nb,
            (fuel - 1) as nat,
        );
        let rest = bres_aux(
            next_x(x, err, dy, sx),
            next_y(y, err, dx, sy),
            next_err(err, dx, dy),
            x1,
            y1,
            dx,
            dy,
            sx,
            sy,
            (fuel - 1) as nat,
        );
        assert(s == seq![(x, y)] + rest);
        assert forall|k: int| 0 <= k < s.len() implies in_bbox(#[trigger] s[k], x0, y0, x1, y1) by {
            if k == 0 {
                assert(s[k] == (x, y));
            } else {
                assert(s[k] == rest[k - 1]);
            }
        }
    }
}

/// Every pixel the line walk visits lies in the bounding box of the two
/// endpoints.
pub proof fn lemma_line_pixels_in_bbox(x0: int, y0: int, x1: int, y1: int)
    ensures
        forall|k: int|
            0 <= k < line_pixels(x0, y0, x1, y1).len() ==> in_bbox(
                #[trigger] line_pixels(x0, y0, x1, y1)[k],
                x0,
                y0,
                x1,
                y1,
            ),
{
    lemma_bres_init(x0, y0, x1, y1);
    lemma_bres_bbox(
        x0,
        y0,
        x1,
        y1,
        x0,
        y0,
        abs_int(x1 - x0) - abs_int(y1 - y0),
        0,
        0,
        (abs_int(x1 - x0) + abs_int(y1 - y0)) as nat,
    );
}

proof fn lemma_bres_ends(
    x0: int,
    y0: int,
    x1: int,
    y1: int,
    x: int,
    y: int,
    err: int,
    a: int,
    b: int,
    fuel: nat,
)
    requires
        valid_state(x0, y0, x1, y1, x, y, err, a, b),
        fuel >= (abs_int(x1 - x0) - a) + (abs_int(y1 - y0) - b),
    ensures
        bres_aux(
            x,
            y,
            err,
            x1,
            y1,
            abs_int(x1 - x0),
            abs_int(y1 - y0),
            sign_step(x0, x1),
            sign_step(y0, y1),
            fuel,
        ).len() >= 1,
        bres_aux(
            x,
            y,
            err,
            x1,
            y1,
            abs_int(x1 - x0),
            abs_int(y1 - y0),
            sign_step(x0, x1),
            sign_step(y0, y1),
            fuel,
        ).first() == (x, y),
        bres_aux(
            x,
            y,
            err,
            x1,
            y1,
            abs_int(x1 - x0),
            abs_int(y1 - y0),
            sign_step(x0, x1),
            sign_step(y0, y1),
            fuel,
        ).last() == (x1, y1),
    decreases fuel,
{
    let dx = abs_int(x1 - x0);
    let dy = abs_int(y1 - y0);
    let sx = sign_step(x0, x1);
    let sy = sign_step(y0, y1);
    let s = bres_aux(x, y, err, x1, y1, dx, dy, sx, sy, fuel);
    if x == x1 && y == y1 {
        assert(s == seq![(x, y)]);
    } else {
        assert(fuel >= 1);
        lemma_bres_step(x0, y0, x1, y1, x, y, err, a, b);
        let na = a + (if step_x(err, dy) {
            1int
        } else {
            0int
        });
        let nb = b + (if step_y(err, dx) {
            1int
        } else {
            0int
        });
        lemma_bres_ends(
            x0,
            y0,
            x1,
            y1,
            next_x(x, err, dy, sx),
            next_y(y, err, dx, sy),
            next_err(err, dx, dy),
            na,
            nb,
            (fuel - 1) as nat,
        );
        let rest = bres_aux(
            next_x(x, err, dy, sx),
            next_y(y, err, dx, sy),
            next_err(err, dx, dy),
            x1,
            y1,
            dx,
            dy,
            sx,
            sy,
            (fuel - 1) as nat,
        );
        assert(s == seq![(x, y)] + rest);
        assert(s.last() == rest.last());
    }
}

/// The walk is endpoint-inclusive: the pixels of a segment begin at its
/// first endpoint and end exactly at its second.
pub proof fn lemma_line_pixels_endpoints(x0: int, y0: int, x1: int, y1: int)
    ensures
        line_pixels(x0, y0, x1, y1).len() >= 1,
        line_pixels(x0, y0, x1, y1).first() == (x0, y0),
        line_pixels(x0, y0, x1, y1).last() == (x1, y1),
{
    lemma_bres_init(x0, y0, x1, y1);
    lemma_bres_ends(
        x0,
        y0,
        x1,
        y1,
        x0,
        y0,
        abs_int(x1 - x0) - abs_int(y1 - y0),
        0,
        0,
        (abs_int(x1 - x0) + abs_int(y1 - y0)) as nat,
    );
}

/// A segment that lies entirely off one side of the buffer writes nothing:
/// rasterizing it leaves the buffer unchanged (and, the rasterizer being a
/// verified function, it cannot panic either).
pub proof fn lemma_offscreen_line_unchanged(
    buf: Seq<u32>,
    w: int,
    h: int,
    x0: int,
    y0: int,
    x1: int,
    y1: int,
    c: u32,
)
    requires
        max_int(x0, x1) < 0 || min_int(x0, x1) >= w || max_int(y0, y1) < 0 || min_int(y0, y1)
            >= h,
    ensures
        rasterize_line(buf, w, h, x0, y0, x1, y1, c) == buf,
{
    lemma_line_pixels_in_bbox(x0, y0, x1, y1);
    let pix = line_pixels(x0, y0, x1, y1);
    assert forall|i: int| 0 <= i < buf.len() implies !covered(pix, w, h, i) by {
        if covered(pix, w, h, i) {
            let k = choose|k: int|
                0 <= k < pix.len() && on_screen(#[trigger] pix[k], w, h) && pixel_index(pix[k], w)
                    == i;
            assert(in_bbox(pix[k], x0, y0, x1, y1));
        }
    }
    assert(rasterize_line(buf, w, h, x0, y0, x1, y1, c) =~= buf);
}

proof fn lemma_bres_horizontal(x: int, y: int, x1: int, d: int, sy: int, fuel: nat)
    requires
        x <= x1,
        d >= x1 - x,
        fuel >= x1 - x,
    ensures
        bres_aux(x, y, d, x1, y, d, 0, 1, sy, fuel) == Seq::new(
            (x1 - x + 1) as nat,
            |k: int| (x + k, y),
        ),
    decreases fuel,
{
    let s = bres_aux(x, y, d, x1, y, d, 0, 1, sy, fuel);
    if x == x1 {
        assert(s == seq![(x, y)]);
        assert(seq![(x, y)] =~= Seq::new(1nat, |k: int| (x + k, y)));
    } else {
        assert(step_x(d, 0));
        assert(!step_y(d, d));
        assert(next_x(x, d, 0, 1) == x + 1);
        assert(next_y(y, d, d, sy) == y);
        assert(next_err(d, d, 0) == d);
        lemma_bres_horizontal(x + 1, y, x1, d, sy, (fuel - 1) as nat);
        assert(seq![(x, y)] + Seq::new((x1 - (x + 1) + 1) as nat, |k: int| (x + 1 + k, y)) =~= Seq::new(
            (x1 - x + 1) as nat,
            |k: int| (x + k, y),
        ));
    }
}

/// Rasterizing a segment from `(0, 0)` to `(w - 1, 0)` fills the entire
/// first row of the buffer with the segment's color and touches nothing
/// else.
pub proof fn lemma_first_row_filled(buf: Seq<u32>, w: int, h: int, c: u32)
    requires
        w >= 1,
        h >= 1,
        buf.len() == w * h,
    ensures
        forall|k: int| 0 <= k < w ==> #[trigger] rasterize_line(buf, w, h, 0, 0, w - 1, 0, c)[k]
            == c,
        forall|i: int|
            w <= i < buf.len() ==> #[trigger] rasterize_line(buf, w, h, 0, 0, w - 1, 0, c)[i]
                == buf[i],
{
    let row = Seq::new(w as nat, |k: int| (k, 0int));
    assert(w <= w * h) by (nonlinear_arith)
        requires
            0 <= w,
            1 <= h,
    ;
    if w == 1 {
        assert(line_pixels(0, 0, 0, 0) == seq![(0int, 0int)]);
        assert(seq![(0int, 0int)] =~= row);
    } else {
        assert(abs_int((w - 1) - 0) == w - 1);
        assert(sign_step(0, w - 1) == 1);
        lemma_bres_horizontal(0, 0, w - 1, w - 1, sign_step(0, 0), (w - 1) as nat);
        assert(line_pixels(0, 0, w - 1, 0) == Seq::new((w - 1 - 0 + 1) as nat, |k: int| (0 + k, 0int)));
        assert(Seq::new(w as nat, |k: int| (0 + k, 0int)) =~= row);
    }
    assert forall|i: int| 0 <= i < w implies covered(row, w, h, i) by {
        assert(row[i] == (i, 0int));
        assert(on_screen((i, 0int), w, h));
        assert(pixel_index((i, 0int), w) == i);
        assert(covered(row, w, h, i));
    }
    assert forall|i: int| w <= i < buf.len() implies !covered(row, w, h, i) by {
        if covered(row, w, h, i) {
            let k = choose|k: int|
                0 <= k < row.len() && on_screen(#[trigger] row[k], w, h) && pixel_index(row[k], w)
                    == i;
            assert(row[k] == (k, 0int));
            assert(pixel_index((k, 0int), w) == 0 * w + k);
            assert(pixel_index(row[k], w) == k);
        }
    }
}

/// Point-over-line precedence, first half: a point rasterized into a pixel
/// that a line has already drawn with a nonzero color changes nothing —
/// points never overwrite drawn pixels.
pub proof fn lemma_point_never_overwrites_line(
    buf: Seq<u32>,
    w: int,
    h: int,
    x0: int,
    y0: int,
    x1: int,
    y1: int,
    lc: u32,
    px: int,
    py: int,
    pc: u32,
)
    requires
        buf.len() == w * h,
        0 <= w,
        0 <= h,
        lc != 0,
        on_screen((px, py), w, h),
        covered(line_pixels(x0, y0, x1, y1), w, h, py * w + px),
    ensures
        rasterize_point(rasterize_line(buf, w, h, x0, y0, x1, y1, lc), w, h, px, py, pc)
            == rasterize_line(buf, w, h, x0, y0, x1, y1, lc),
{
    assert(0 <= py * w + px < w * h) by (nonlinear_arith)
        requires
            0 <= px < w,
            0 <= py < h,
    ;
    assert(rasterize_line(buf, w, h, x0, y0, x1, y1, lc)[py * w + px] == lc);
}

/// Point-over-line precedence, second half: a line drawn after a point
/// overwrites the point's pixel whenever its walk passes through it.
pub proof fn lemma_line_overwrites_point(
    buf: Seq<u32>,
    w: int,
    h: int,
    px: int,
    py: int,
    pc: u32,
    x0: int,
    y0: int,
    x1: int,
    y1: int,
    lc: u32,
)
    requires
        buf.len() == w * h,
        0 <= w,
        0 <= h,
        on_screen((px, py), w, h),
        covered(line_pixels(x0, y0, x1, y1), w, h, py * w + px),
    ensures
        rasterize_line(rasterize_point(buf, w, h, px, py, pc), w, h, x0, y0, x1, y1, lc)[py * w
            + px] == lc,
{
    assert(0 <= py * w + px < w * h) by (nonlinear_arith)
        requires
            0 <= px < w,
            0 <= py < h,
    ;
}

/// Writes the point's color at its pixel, but only if that pixel is inside
/// the buffer and still unset (0): points never overwrite drawn pixels.
pub fn draw_point(buffer: &mut Vec<u32>, point: &Point2i, width: i32, height: i32)
    requires
        width >= 0,
        height >= 0,
        old(buffer)@.len() == width * height,
    ensures
        final(buffer)@ == rasterize_point(
            old(buffer)@,
            width as int,
            height as int,
            point.p.0 as int,
            point.p.1 as int,
            point.color,
        ),
{
    if point.p.0 >= 0 && point.p.0 < width && point.p.1 >= 0 && point.p.1 < height {
        let n: usize = buffer.len();
        proof {
            assert(0 <= (point.p.1 as int) * (width as int) + (point.p.0 as int) < (width as int)
                * (height as int)) by (nonlinear_arith)
                requires
                    0 <= (point.p.0 as int) < (width as int),
                    0 <= (point.p.1 as int) < (height as int),
            ;
            assert((width as int) * (height as int) == n as int);
        }
        let idx: usize = (point.p.1 as usize) * (width as usize) + (point.p.0 as usize);
        if buffer[idx] == 0 {
            buffer[idx] = point.color;
        }
    }
}

} // verus!


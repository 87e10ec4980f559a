use vstd::prelude::*;
use crate::color::DEFAULT_LINE_COLOR;

verus! {

/// A colored point of 3-D geometry. The position type is left generic: the
/// caller instantiates it with its own vector type, which the library never
/// inspects — every rule in this module reads and writes colors only.
#[derive(Clone, Copy)]
pub struct Point3<S> {
    pub p: S,
    pub color: u32,
}

impl<S> Point3<S> {
    pub fn new(p: S, color: u32) -> (r: Self)
        ensures
            r.p == p,
            r.color == color,
    {
        Point3 { p, color }
    }
}

/// An oriented segment between two colored points.
#[derive(Clone, Copy)]
pub struct Line3<S> {
    pub p0: Point3<S>,
    pub p1: Point3<S>,
}

impl<S> Line3<S> {
    pub fn new(p0: Point3<S>, p1: Point3<S>) -> (r: Self)
        ensures
            r.p0 == p0,
            r.p1 == p1,
    {
        Line3 { p0, p1 }
    }
}

impl<S: Copy> Line3<S> {
    /// Swaps the endpoints, keeping the segment's geometric identity; both
    /// endpoints of the result take the color of the original first endpoint.
    /// Clipping uses this so it can always treat `p0` as the front endpoint.
    pub fn inverted(&self) -> (r: Self)
        ensures
            r.p0.p == self.p1.p,
            r.p1.p == self.p0.p,
            r.p0.color == self.p0.color,
            r.p1.color == self.p0.color,
    {
        let p1 = self.p0.p;
        let p0 = self.p1.p;
        let color = self.p0.color;
        Line3 { p0: Point3 { p: p0, color }, p1: Point3 { p: p1, color } }
    }
}

/// The unit of geometry flowing through the pipeline: a segment or a point.
#[derive(Clone, Copy)]
pub enum Primitive3<S> {
    Line(Line3<S>),
    Point(Point3<S>),
}

/// What stamping a default color onto a primitive yields: a primitive whose
/// color is 0 (the "no color" sentinel) takes `color` on every point, and one
/// that already carries a color is left untouched.
pub open spec fn stamped<S>(prim: Primitive3<S>, color: u32) -> Primitive3<S> {
    match prim {
        Primitive3::Line(line) => if line.p0.color > 0 {
            Primitive3::Line(line)
        } else {
            Primitive3::Line(
                Line3 {
                    p0: Point3 { p: line.p0.p, color },
                    p1: Point3 { p: line.p1.p, color },
                },
            )
        },
        Primitive3::Point(point) => if point.color > 0 {
            Primitive3::Point(point)
        } else {
            Primitive3::Point(Point3 { p: point.p, color })
        },
    }
}

impl<S> Primitive3<S> {
    /// Stamps `color` onto the primitive if it has none of its own.
    pub fn with_color(self, color: u32) -> (r: Self)
        ensures
            r == stamped(self, color),
    {
        match self {
            Primitive3::Line(line) => {
                if line.p0.color > 0 {
                    Primitive3::Line(line)
                } else {
                    let p0 = Point3 { p: line.p0.p, color };
                    let p1 = Point3 { p: line.p1.p, color };
                    Primitive3::Line(Line3 { p0, p1 })
                }
            },
            Primitive3::Point(point) => {
                if point.color > 0 {
                    Primitive3::Point(point)
                } else {
                    Primitive3::Point(Point3 { p: point.p, color })
                }
            },
        }
    }
}

/// A wireframe segment between two bare positions; surface edges are
/// colorless by construction, so both endpoints get the default line color.
pub fn segment_from_positions<S>(p0: S, p1: S) -> (r: Primitive3<S>)
    ensures
        r == Primitive3::Line(
            Line3 {
                p0: Point3 { p: p0, color: DEFAULT_LINE_COLOR },
                p1: Point3 { p: p1, color: DEFAULT_LINE_COLOR },
            },
        ),
{
    Primitive3::Line(
        Line3 {
            p0: Point3 { p: p0, color: DEFAULT_LINE_COLOR },
            p1: Point3 { p: p1, color: DEFAULT_LINE_COLOR },
        },
    )
}

/// A point primitive from a bare position, with the default line color.
pub fn point_from_position<S>(p: S) -> (r: Primitive3<S>)
    ensures
        r == Primitive3::Point(Point3 { p, color: DEFAULT_LINE_COLOR }),
{
    Primitive3::Point(Point3 { p, color: DEFAULT_LINE_COLOR })
}

/// A point primitive from an already colored point; the color is preserved.
pub fn primitive_from_point<S>(point: Point3<S>) -> (r: Primitive3<S>)
    ensures
        r == Primitive3::Point(point),
{
    Primitive3::Point(point)
}

} // verus!

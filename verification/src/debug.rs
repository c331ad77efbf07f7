//! A sink for what a run wants drawn: points, lines and planes, each with a
//! colour. The library writes to it and never reads it back.

use vstd::prelude::*;
use crate::geometry::Plane;
use crate::vector::Vec3;

verus! {

/// Red, green and blue.
pub type Color = [u8; 3];

/// Something to draw.
#[derive(Clone, Copy, Debug)]
pub enum Primitive {
    Point(Vec3),
    Line(Vec3, Vec3),
    Plane(Plane),
}

/// The primitives to draw, in the order in which they were added.
#[derive(Debug)]
pub struct DebugLines {
    pub primitives: Vec<(Primitive, Color)>,
}

impl View for DebugLines {
    type V = Seq<(Primitive, Color)>;

    open spec fn view(&self) -> Seq<(Primitive, Color)> {
        self.primitives@
    }
}

impl DebugLines {
    /// A sink that holds nothing.
    pub fn new() -> (d: DebugLines)
        ensures
            d@ == Seq::<(Primitive, Color)>::empty(),
    {
        DebugLines { primitives: Vec::new() }
    }

    /// Adds a point.
    pub fn point(&mut self, at: Vec3, color: Color)
        ensures
            final(self)@ == old(self)@.push((Primitive::Point(at), color)),
    {
        self.primitives.push((Primitive::Point(at), color));
    }

    /// Adds a line between two points.
    pub fn line(&mut self, from: Vec3, to: Vec3, color: Color)
        ensures
            final(self)@ == old(self)@.push((Primitive::Line(from, to), color)),
    {
        self.primitives.push((Primitive::Line(from, to), color));
    }

    /// Adds a plane.
    pub fn plane(&mut self, plane: Plane, color: Color)
        ensures
            final(self)@ == old(self)@.push((Primitive::Plane(plane), color)),
    {
        self.primitives.push((Primitive::Plane(plane), color));
    }
}

impl Default for DebugLines {
    fn default() -> (d: DebugLines)
        ensures
            d@ == Seq::<(Primitive, Color)>::empty(),
    {
        DebugLines::new()
    }
}

} // verus!

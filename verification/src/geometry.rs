//! Bounding-box representation and operations: extents, hull merge, area.

use vstd::prelude::*;

verus! {

/// One corner of a detected text quadrilateral, as integer pixel
/// coordinates. The source document may omit a coordinate, in which case the
/// data binding supplies zero.
#[derive(Clone, Copy, PartialEq, Eq, Structural, Debug)]
pub struct Vertex {
    pub x: i32,
    pub y: i32,
}

/// The four corners of a quadrilateral, named by compass position.
#[derive(Clone, Copy, PartialEq, Eq, Structural, Debug)]
pub struct BoundingBoxVertices {
    pub sw: Vertex,
    pub se: Vertex,
    pub ne: Vertex,
    pub nw: Vertex,
}

/// Bounding region of one OCR fragment. The corners need not form an
/// axis-aligned rectangle, so every derived extent takes a minimum or
/// maximum over the relevant corner pair rather than reading one corner.
#[derive(Clone, Copy, PartialEq, Eq, Structural, Debug)]
pub struct BoundingBox {
    pub vertices: BoundingBoxVertices,
}

impl BoundingBox {
    /// Leftmost extent: the smaller x of the two west corners.
    pub open spec fn spec_left(self) -> int {
        if self.vertices.sw.x <= self.vertices.nw.x {
            self.vertices.sw.x as int
        } else {
            self.vertices.nw.x as int
        }
    }

    /// Rightmost extent: the larger x of the two east corners.
    pub open spec fn spec_right(self) -> int {
        if self.vertices.se.x >= self.vertices.ne.x {
            self.vertices.se.x as int
        } else {
            self.vertices.ne.x as int
        }
    }

    /// Top extent: the larger y of the two north corners.
    pub open spec fn spec_top(self) -> int {
        if self.vertices.ne.y >= self.vertices.nw.y {
            self.vertices.ne.y as int
        } else {
            self.vertices.nw.y as int
        }
    }

    /// Bottom extent: the smaller y of the two south corners.
    pub open spec fn spec_bottom(self) -> int {
        if self.vertices.sw.y <= self.vertices.se.y {
            self.vertices.sw.y as int
        } else {
            self.vertices.se.y as int
        }
    }

    pub open spec fn spec_width(self) -> int {
        self.spec_right() - self.spec_left()
    }

    pub open spec fn spec_height(self) -> int {
        self.spec_top() - self.spec_bottom()
    }

    /// The asymmetric bounding hull of two boxes: sw is the coordinate-wise
    /// minimum, ne the coordinate-wise maximum, se takes the maximal x but
    /// the minimal y, and nw the minimal x but the maximal y.
    pub open spec fn spec_merge(self, other: Self) -> Self {
        BoundingBox {
            vertices: BoundingBoxVertices {
                sw: Vertex {
                    x: min_i32(self.vertices.sw.x, other.vertices.sw.x),
                    y: min_i32(self.vertices.sw.y, other.vertices.sw.y),
                },
                se: Vertex {
                    x: max_i32(self.vertices.se.x, other.vertices.se.x),
                    y: min_i32(self.vertices.se.y, other.vertices.se.y),
                },
                ne: Vertex {
                    x: max_i32(self.vertices.ne.x, other.vertices.ne.x),
                    y: max_i32(self.vertices.ne.y, other.vertices.ne.y),
                },
                nw: Vertex {
                    x: min_i32(self.vertices.nw.x, other.vertices.nw.x),
                    y: max_i32(self.vertices.nw.y, other.vertices.nw.y),
                },
            },
        }
    }

    pub fn left(&self) -> (r: i32)
        ensures
            r == self.spec_left(),
    {
        if self.vertices.sw.x <= self.vertices.nw.x {
            self.vertices.sw.x
        } else {
            self.vertices.nw.x
        }
    }

    pub fn right(&self) -> (r: i32)
        ensures
            r == self.spec_right(),
    {
        if self.vertices.se.x >= self.vertices.ne.x {
            self.vertices.se.x
        } else {
            self.vertices.ne.x
        }
    }

    pub fn top(&self) -> (r: i32)
        ensures
            r == self.spec_top(),
    {
        if self.vertices.ne.y >= self.vertices.nw.y {
            self.vertices.ne.y
        } else {
            self.vertices.nw.y
        }
    }

    pub fn bottom(&self) -> (r: i32)
        ensures
            r == self.spec_bottom(),
    {
        if self.vertices.sw.y <= self.vertices.se.y {
            self.vertices.sw.y
        } else {
            self.vertices.se.y
        }
    }

    /// Width as an unsigned count of pixels. A box whose right extent lies
    /// left of its left extent has no meaningful width, so such inputs are
    /// excluded.
    pub fn width(&self) -> (r: u32)
        requires
            self.spec_left() <= self.spec_right(),
        ensures
            r == self.spec_width(),
    {
        ((self.right() as i64) - (self.left() as i64)) as u32
    }

    /// Height as an unsigned count of pixels; the top extent must not lie
    /// below the bottom extent.
    pub fn height(&self) -> (r: u32)
        requires
            self.spec_bottom() <= self.spec_top(),
        ensures
            r == self.spec_height(),
    {
        ((self.top() as i64) - (self.bottom() as i64)) as u32
    }

    pub fn merge(&self, other: &Self) -> (r: Self)
        ensures
            r == self.spec_merge(*other),
    {
        BoundingBox {
            vertices: BoundingBoxVertices {
                sw: Vertex {
                    x: min_exec(self.vertices.sw.x, other.vertices.sw.x),
                    y: min_exec(self.vertices.sw.y, other.vertices.sw.y),
                },
                se: Vertex {
                    x: max_exec(self.vertices.se.x, other.vertices.se.x),
                    y: min_exec(self.vertices.se.y, other.vertices.se.y),
                },
                ne: Vertex {
                    x: max_exec(self.vertices.ne.x, other.vertices.ne.x),
                    y: max_exec(self.vertices.ne.y, other.vertices.ne.y),
                },
                nw: Vertex {
                    x: min_exec(self.vertices.nw.x, other.vertices.nw.x),
                    y: max_exec(self.vertices.nw.y, other.vertices.nw.y),
                },
            },
        }
    }

    /// Area in square pixels; the product must fit the return type.
    pub fn area(&self) -> (r: u32)
        requires
            self.spec_left() <= self.spec_right(),
            self.spec_bottom() <= self.spec_top(),
            self.spec_width() * self.spec_height() <= u32::MAX,
        ensures
            r == self.spec_width() * self.spec_height(),
    {
        let w = self.width();
        let h = self.height();
        w * h
    }
}

pub open spec fn min_i32(a: i32, b: i32) -> i32 {
    if a <= b {
        a
    } else {
        b
    }
}

pub open spec fn max_i32(a: i32, b: i32) -> i32 {
    if a >= b {
        a
    } else {
        b
    }
}

fn min_exec(a: i32, b: i32) -> (r: i32)
    ensures
        r == min_i32(a, b),
{
    if a <= b {
        a
    } else {
        b
    }
}

fn max_exec(a: i32, b: i32) -> (r: i32)
    ensures
        r == max_i32(a, b),
{
    if a >= b {
        a
    } else {
        b
    }
}

/// Hull law: the merged box extends at least as far left as either input's
/// left extent and at least as far right as either input's right extent.
pub proof fn lemma_merge_hull(a: BoundingBox, b: BoundingBox)
    ensures
        a.spec_merge(b).spec_left() <= a.spec_left(),
        a.spec_merge(b).spec_left() <= b.spec_left(),
        a.spec_merge(b).spec_right() >= a.spec_right(),
        a.spec_merge(b).spec_right() >= b.spec_right(),
{
}

} // verus!

//! The integer side of triangle rasterization: edge functions, the top-left
//! fill rule, the clipped bounding box and framebuffer indexing.
use crate::math::ScreenCoordinate;
use vstd::prelude::*;

verus! {

/// The sign of one component of a triangle's edge vector.
#[derive(Debug, Clone, Copy, PartialEq, Eq, Structural)]
pub enum Sign {
    Negative,
    Zero,
    Positive,
}

pub open spec fn negated(s: Sign) -> Sign {
    match s {
        Sign::Negative => Sign::Positive,
        Sign::Zero => Sign::Zero,
        Sign::Positive => Sign::Negative,
    }
}

/// The edge function of `point` against the edge from `v0` to `v1`: twice
/// the signed area of the triangle they make.
pub open spec fn edge(point: ScreenCoordinate, v0: ScreenCoordinate, v1: ScreenCoordinate) -> int {
    (point.x - v0.x) * (v0.y - v1.y) - (point.y - v0.y) * (v0.x - v1.x)
}

/// An edge owns the samples that lie exactly on it when it is a top edge
/// (horizontal, pointing right) or a left edge (pointing up).
pub open spec fn top_left(dx: Sign, dy: Sign) -> bool {
    (dy == Sign::Zero && dx == Sign::Positive) || dy == Sign::Positive
}

/// A sample passes an edge's test when it is strictly inside, or on an edge
/// that owns it.
pub open spec fn edge_accepts(w: int, owns: bool) -> bool {
    w > 0 || (w == 0 && owns)
}

/// A sample is covered by the triangle `v0 v1 v2` when it passes the tests
/// of the three edges `v1 v2`, `v2 v0` and `v0 v1`, which own their samples
/// as `owns0`, `owns1` and `owns2` say.
pub open spec fn covered(
    p: ScreenCoordinate,
    v0: ScreenCoordinate,
    v1: ScreenCoordinate,
    v2: ScreenCoordinate,
    owns0: bool,
    owns1: bool,
    owns2: bool,
) -> bool {
    &&& edge_accepts(edge(p, v1, v2), owns0)
    &&& edge_accepts(edge(p, v2, v0), owns1)
    &&& edge_accepts(edge(p, v0, v1), owns2)
}

/// The edge function, computed without overflow.
pub fn triangle_edge(point: ScreenCoordinate, v0: ScreenCoordinate, v1: ScreenCoordinate) -> (r: i128)
    ensures
        r == edge(point, v0, v1),
{
    let a: i128 = point.x as i128 - v0.x as i128;
    let b: i128 = v0.y as i128 - v1.y as i128;
    let c: i128 = point.y as i128 - v0.y as i128;
    let d: i128 = v0.x as i128 - v1.x as i128;
    proof {
        assert(-0x1_0000_0000 * 0x1_0000_0000 <= a * b <= 0x1_0000_0000 * 0x1_0000_0000) by (nonlinear_arith)
            requires -0x1_0000_0000 < a < 0x1_0000_0000, -0x1_0000_0000 < b < 0x1_0000_0000;
        assert(-0x1_0000_0000 * 0x1_0000_0000 <= c * d <= 0x1_0000_0000 * 0x1_0000_0000) by (nonlinear_arith)
            requires -0x1_0000_0000 < c < 0x1_0000_0000, -0x1_0000_0000 < d < 0x1_0000_0000;
    }
    a * b - c * d
}

/// Whether an edge with the given direction owns the samples on it.
pub fn is_top_left(dx: Sign, dy: Sign) -> (r: bool)
    ensures
        r == top_left(dx, dy),
{
    (dy == Sign::Zero && dx == Sign::Positive) || dy == Sign::Positive
}

/// Whether the sample `p` is covered by the triangle `v0 v1 v2`.
pub fn covers(
    p: ScreenCoordinate,
    v0: ScreenCoordinate,
    v1: ScreenCoordinate,
    v2: ScreenCoordinate,
    owns0: bool,
    owns1: bool,
    owns2: bool,
) -> (r: bool)
    ensures
        r == covered(p, v0, v1, v2, owns0, owns1, owns2),
{
    let w0: i128 = triangle_edge(p, v1, v2);
    let w1: i128 = triangle_edge(p, v2, v0);
    let w2: i128 = triangle_edge(p, v0, v1);
    (w0 > 0 || (w0 == 0 && owns0)) && (w1 > 0 || (w1 == 0 && owns1)) && (w2 > 0 || (w2 == 0 && owns2))
}

pub open spec fn min3(a: int, b: int, c: int) -> int {
    if a <= b && a <= c {
        a
    } else if b <= c {
        b
    } else {
        c
    }
}

pub open spec fn max3(a: int, b: int, c: int) -> int {
    if a >= b && a >= c {
        a
    } else if b >= c {
        b
    } else {
        c
    }
}

/// The pixels to test for a triangle: the bounding box of its corners,
/// `[x_start, x_end) x [y_start, y_end)`, clipped to the canvas.
#[derive(Debug, Clone, Copy, PartialEq, Eq, Structural)]
pub struct PixelBounds {
    pub x_start: i32,
    pub x_end: i32,
    pub y_start: i32,
    pub y_end: i32,
}

pub open spec fn bounding_box_spec(
    v0: ScreenCoordinate,
    v1: ScreenCoordinate,
    v2: ScreenCoordinate,
    width: i32,
    height: i32,
) -> PixelBounds {
    PixelBounds {
        x_start: (if min3(v0.x as int, v1.x as int, v2.x as int) > 0 { min3(v0.x as int, v1.x as int, v2.x as int) } else { 0 }) as i32,
        x_end: (if max3(v0.x as int, v1.x as int, v2.x as int) < width { max3(v0.x as int, v1.x as int, v2.x as int) } else { width as int }) as i32,
        y_start: (if min3(v0.y as int, v1.y as int, v2.y as int) > 0 { min3(v0.y as int, v1.y as int, v2.y as int) } else { 0 }) as i32,
        y_end: (if max3(v0.y as int, v1.y as int, v2.y as int) < height { max3(v0.y as int, v1.y as int, v2.y as int) } else { height as int }) as i32,
    }
}

/// The box from the smallest to the largest corner coordinate (the largest
/// itself left out), cut to `[0, width) x [0, height)`.
pub fn bounding_box(
    v0: ScreenCoordinate,
    v1: ScreenCoordinate,
    v2: ScreenCoordinate,
    width: i32,
    height: i32,
) -> (r: PixelBounds)
    ensures
        r == bounding_box_spec(v0, v1, v2, width, height),
{
    let min_x: i32 = if v0.x <= v1.x && v0.x <= v2.x { v0.x } else if v1.x <= v2.x { v1.x } else { v2.x };
    let max_x: i32 = if v0.x >= v1.x && v0.x >= v2.x { v0.x } else if v1.x >= v2.x { v1.x } else { v2.x };
    let min_y: i32 = if v0.y <= v1.y && v0.y <= v2.y { v0.y } else if v1.y <= v2.y { v1.y } else { v2.y };
    let max_y: i32 = if v0.y >= v1.y && v0.y >= v2.y { v0.y } else if v1.y >= v2.y { v1.y } else { v2.y };
    PixelBounds {
        x_start: if min_x > 0 { min_x } else { 0 },
        x_end: if max_x < width { max_x } else { width },
        y_start: if min_y > 0 { min_y } else { 0 },
        y_end: if max_y < height { max_y } else { height },
    }
}

/// The framebuffer index of the pixel `(x, y)` on a canvas `width` wide:
/// row-major, top row first.
pub fn pixel_index(x: i32, y: i32, width: i32, height: i32) -> (r: usize)
    requires
        0 <= x < width,
        0 <= y < height,
        width * height <= usize::MAX,
    ensures
        r == y * width + x,
        r < width * height,
{
    proof {
        assert(y * width + x < width * height) by (nonlinear_arith)
            requires 0 <= x < width, 0 <= y < height;
        assert(y * width <= width * height) by (nonlinear_arith)
            requires 0 <= x < width, 0 <= y < height;
    }
    (y as usize) * (width as usize) + (x as usize)
}

/// Reversing an edge negates its edge function.
pub proof fn lemma_edge_reversed(p: ScreenCoordinate, a: ScreenCoordinate, b: ScreenCoordinate)
    ensures
        edge(p, b, a) == -edge(p, a, b),
{
    assert(edge(p, b, a) == -edge(p, a, b)) by (nonlinear_arith);
}

/// Top-left rule on a shared edge: when two triangles share the edge between
/// `a` and `b` with opposite windings, one walks it from `a` to `b` and the
/// other from `b` to `a`, so their edge vectors are opposite. Every sample
/// then passes the test of that edge in exactly one of the two triangles.
pub proof fn lemma_shared_edge_owned_once(p: ScreenCoordinate, a: ScreenCoordinate, b: ScreenCoordinate, dx: Sign, dy: Sign)
    requires
        !(dx == Sign::Zero && dy == Sign::Zero),
    ensures
        edge_accepts(edge(p, a, b), top_left(dx, dy)) != edge_accepts(edge(p, b, a), top_left(negated(dx), negated(dy))),
{
    lemma_edge_reversed(p, a, b);
}

/// Top-left rule for two triangles `a b c` and `b a d` that share the edge
/// between `a` and `b` with opposite windings: a sample that passes the
/// tests of both triangles' other edges is covered by exactly one of them,
/// so it is written once, never twice and never missed.
pub proof fn lemma_shared_edge_covered_once(
    p: ScreenCoordinate,
    a: ScreenCoordinate,
    b: ScreenCoordinate,
    c: ScreenCoordinate,
    d: ScreenCoordinate,
    owns0: bool,
    owns1: bool,
    other0: bool,
    other1: bool,
    dx: Sign,
    dy: Sign,
)
    requires
        !(dx == Sign::Zero && dy == Sign::Zero),
        edge_accepts(edge(p, b, c), owns0),
        edge_accepts(edge(p, c, a), owns1),
        edge_accepts(edge(p, a, d), other0),
        edge_accepts(edge(p, d, b), other1),
    ensures
        covered(p, a, b, c, owns0, owns1, top_left(dx, dy)) != covered(
            p,
            b,
            a,
            d,
            other0,
            other1,
            top_left(negated(dx), negated(dy)),
        ),
{
    lemma_shared_edge_owned_once(p, a, b, dx, dy);
}

/// A pixel that a triangle covers: its position, its framebuffer index and
/// its three edge function values.
#[derive(Debug, Clone, Copy)]
pub struct CoveredPixel {
    pub x: i32,
    pub y: i32,
    pub index: usize,
    pub w0: i128,
    pub w1: i128,
    pub w2: i128,
}

/// A walk over the pixels of a triangle's clipped bounding box, column by
/// column (`x` outer, `y` inner), that stops at the covered ones.
pub struct CoverageScan {
    pub v0: ScreenCoordinate,
    pub v1: ScreenCoordinate,
    pub v2: ScreenCoordinate,
    pub owns0: bool,
    pub owns1: bool,
    pub owns2: bool,
    pub width: i32,
    pub height: i32,
    pub bounds: PixelBounds,
    pub x: i32,
    pub y: i32,
}

impl CoverageScan {
    pub open spec fn in_box(&self, px: int, py: int) -> bool {
        self.bounds.x_start <= px < self.bounds.x_end && self.bounds.y_start <= py < self.bounds.y_end
    }

    /// The pixel `(px, py)` comes at or after the scan's position.
    pub open spec fn ahead(&self, px: int, py: int) -> bool {
        px > self.x || (px == self.x && py >= self.y)
    }

    pub open spec fn covers_pixel(&self, px: int, py: int) -> bool {
        covered(ScreenCoordinate { x: px as i32, y: py as i32 }, self.v0, self.v1, self.v2, self.owns0, self.owns1, self.owns2)
    }

    pub open spec fn wf(&self) -> bool {
        &&& 0 <= self.bounds.x_start
        &&& self.bounds.x_end <= self.width
        &&& 0 <= self.bounds.y_start
        &&& self.bounds.y_end <= self.height
        &&& self.width * self.height <= usize::MAX
        &&& self.bounds.x_start <= self.x
        &&& (self.x < self.bounds.x_end ==> self.bounds.y_start <= self.y < self.bounds.y_end)
        &&& (self.x >= self.bounds.x_end ==> self.x == self.bounds.x_end || self.x == self.bounds.x_start)
        &&& (self.bounds.y_start >= self.bounds.y_end ==> self.x >= self.bounds.x_end)
    }

    /// The same triangle, canvas and box.
    pub open spec fn same_walk(&self, other: &CoverageScan) -> bool {
        &&& self.v0 == other.v0
        &&& self.v1 == other.v1
        &&& self.v2 == other.v2
        &&& self.owns0 == other.owns0
        &&& self.owns1 == other.owns1
        &&& self.owns2 == other.owns2
        &&& self.width == other.width
        &&& self.height == other.height
        &&& self.bounds == other.bounds
    }

    /// A walk over the bounding box of the triangle `v0 v1 v2` on a canvas
    /// of `width x height` pixels; the edges own their samples as `owns0`,
    /// `owns1` and `owns2` say (see `covered`).
    pub fn new(
        v0: ScreenCoordinate,
        v1: ScreenCoordinate,
        v2: ScreenCoordinate,
        owns0: bool,
        owns1: bool,
        owns2: bool,
        width: i32,
        height: i32,
    ) -> (r: CoverageScan)
        requires
            width >= 0,
            height >= 0,
            width * height <= usize::MAX,
        ensures
            r.wf(),
            r.v0 == v0 && r.v1 == v1 && r.v2 == v2,
            r.owns0 == owns0 && r.owns1 == owns1 && r.owns2 == owns2,
            r.width == width && r.height == height,
            r.bounds == bounding_box_spec(v0, v1, v2, width, height),
            forall|px: int, py: int| r.in_box(px, py) ==> r.ahead(px, py),
    {
        let bounds = bounding_box(v0, v1, v2, width, height);
        let x: i32 = if bounds.y_start < bounds.y_end {
            bounds.x_start
        } else if bounds.x_end > bounds.x_start {
            bounds.x_end
        } else {
            bounds.x_start
        };
        let y: i32 = bounds.y_start;
        CoverageScan { v0, v1, v2, owns0, owns1, owns2, width, height, bounds, x, y }
    }

    /// The next covered pixel of the walk, if any. Every pixel of the box
    /// between the old position and the one returned is not covered; after
    /// `None` no pixel of the box from the old position on is.
    pub fn next_pixel(&mut self) -> (r: Option<CoveredPixel>)
        requires
            old(self).wf(),
        ensures
            final(self).wf(),
            final(self).same_walk(old(self)),
            match r {
                Some(p) => {
                    &&& 0 <= p.x < old(self).width && 0 <= p.y < old(self).height
                    &&& p.index == p.y * old(self).width + p.x
                    &&& p.index < old(self).width * old(self).height
                    &&& old(self).in_box(p.x as int, p.y as int)
                    &&& old(self).ahead(p.x as int, p.y as int)
                    &&& old(self).covers_pixel(p.x as int, p.y as int)
                    &&& p.w0 == edge((ScreenCoordinate { x: p.x, y: p.y }), old(self).v1, old(self).v2)
                    &&& p.w1 == edge((ScreenCoordinate { x: p.x, y: p.y }), old(self).v2, old(self).v0)
                    &&& p.w2 == edge((ScreenCoordinate { x: p.x, y: p.y }), old(self).v0, old(self).v1)
                    &&& forall|px: int, py: int|
                        old(self).in_box(px, py) && old(self).ahead(px, py) && !(px > p.x || (px == p.x && py >= p.y))
                            ==> !old(self).covers_pixel(px, py)
                    &&& forall|px: int, py: int|
                        old(self).in_box(px, py) ==> (final(self).ahead(px, py) <==> (px > p.x || (px == p.x && py > p.y)))
                },
                None => {
                    &&& forall|px: int, py: int|
                        old(self).in_box(px, py) && old(self).ahead(px, py) ==> !old(self).covers_pixel(px, py)
                    &&& forall|px: int, py: int| old(self).in_box(px, py) ==> !final(self).ahead(px, py)
                },
            },
    {
        let ghost start = *self;
        while self.x < self.bounds.x_end
            invariant
                self.wf(),
                self.same_walk(&start),
                start == *old(self),
                start.wf(),
                forall|px: int, py: int|
                    start.in_box(px, py) && start.ahead(px, py) && !self.ahead(px, py) ==> !start.covers_pixel(px, py),
                forall|px: int, py: int| start.in_box(px, py) && self.ahead(px, py) ==> start.ahead(px, py),
            decreases self.bounds.x_end - self.x, self.bounds.y_end - self.y,
        {
            let x: i32 = self.x;
            let y: i32 = self.y;
            let p = ScreenCoordinate { x, y };
            let w0: i128 = triangle_edge(p, self.v1, self.v2);
            let w1: i128 = triangle_edge(p, self.v2, self.v0);
            let w2: i128 = triangle_edge(p, self.v0, self.v1);
            let hit: bool = (w0 > 0 || (w0 == 0 && self.owns0)) && (w1 > 0 || (w1 == 0 && self.owns1)) && (w2 > 0
                || (w2 == 0 && self.owns2));
            if y + 1 < self.bounds.y_end {
                self.y = y + 1;
            } else {
                self.y = self.bounds.y_start;
                self.x = x + 1;
            }
            if hit {
                let index: usize = pixel_index(x, y, self.width, self.height);
                return Some(CoveredPixel { x, y, index, w0, w1, w2 });
            }
        }
        None
    }
}

} // verus!

//! Integer geometry of the editor: rectangles, pin placement, the cubic
//! curves drawn for links and the distance from a point to such a curve.
//!
//! Reported coordinates (`Point`, `NodeRect`) are whole logical pixels.
//! Positions computed from them (`Pos`, curves) are in units of
//! 1/`UNITS_PER_PX` pixel. A zoom factor is held in thousandths (`ZOOM_ONE`
//! is a factor of one), so a pixel length scaled by the zoom is a whole
//! number of units, and so is half the distance between two such
//! positions: pin positions and link curves are exact.
use crate::pins::{is_output, pin_is_output};
use vstd::prelude::*;

verus! {

/// Zoom factor one, in thousandths.
pub const ZOOM_ONE: i64 = 1000;

/// Largest zoom factor the editor accepts, in thousandths (a factor of
/// one hundred): the bound that keeps hit-testing within 128-bit arithmetic.
pub const ZOOM_LIMIT: i64 = 100000;

/// Units of computed positions per logical pixel.
pub const UNITS_PER_PX: i64 = 2000;

/// Diameter of a pin at zoom one.
pub const BASE_PIN_SIZE: i64 = 12;

/// Distance from a node's top edge to its first pin row at zoom one
/// (margin, title bar, margin).
pub const PIN_Y_OFFSET: i64 = 40;

/// Horizontal margin between a node's edge and its pins at zoom one.
pub const PIN_MARGIN: i64 = 8;

/// Smallest horizontal reach of a link's control points at zoom one.
pub const MIN_CONTROL_OFFSET: i64 = 50;

/// Number of straight segments a link curve is split into for hit-testing.
pub const CURVE_SEGMENTS: i64 = 20;

/// Bound, in units, on every coordinate of a curve's end points.
pub const END_LIMIT: i64 = 0x2_0000_0000_0000;

/// Bound, in pixels, on the coordinates of a segment that is hit-tested.
pub const SEG_LIMIT: i64 = 0x100_0000_0000;

/// A point in screen space.
#[derive(Clone, Copy, Debug, PartialEq, Eq, Structural)]
pub struct Point {
    pub x: i32,
    pub y: i32,
}

/// A position computed from reported geometry, in units of 1/`UNITS_PER_PX`
/// pixel.
#[derive(Clone, Copy, Debug, PartialEq, Eq, Structural)]
pub struct Pos {
    pub x: i64,
    pub y: i64,
}

/// A node's rectangle in screen space.
#[derive(Clone, Copy, Debug, PartialEq, Eq, Structural)]
pub struct NodeRect {
    pub x: i32,
    pub y: i32,
    pub width: i32,
    pub height: i32,
}

/// A cubic curve: end points `p0`, `p3` and control points `p1`, `p2`.
#[derive(Clone, Copy, Debug, PartialEq, Eq, Structural)]
pub struct CubicBezier {
    pub p0: Pos,
    pub p1: Pos,
    pub p2: Pos,
    pub p3: Pos,
}

/// Integer division rounding toward zero.
pub open spec fn div0(a: int, d: int) -> int
    recommends
        d > 0,
{
    if a >= 0 {
        a / d
    } else {
        -((-a) / d)
    }
}

/// A length of `v` pixels at zoom one, in units at `zoom` thousandths
/// (exact: a unit is 1/2000 pixel).
pub open spec fn zoom_units(v: int, zoom: int) -> int {
    v * zoom * (UNITS_PER_PX / ZOOM_ONE) as int
}

pub open spec fn abs(v: int) -> int {
    if v < 0 {
        -v
    } else {
        v
    }
}

pub open spec fn within(v: int, bound: int) -> bool {
    -bound <= v <= bound
}

pub open spec fn pos_within(p: Pos, bound: int) -> bool {
    within(p.x as int, bound) && within(p.y as int, bound)
}

pub open spec fn valid_zoom(zoom: i64) -> bool {
    1 <= zoom <= ZOOM_LIMIT
}

pub proof fn lemma_div0_bound(a: int, d: int, bound: int)
    requires
        d >= 1,
        within(a, bound),
    ensures
        within(div0(a, d), bound),
        abs(div0(a, d)) <= abs(a),
{
    if a >= 0 {
        assert(a / d <= a) by (nonlinear_arith)
            requires
                a >= 0,
                d >= 1,
        ;
        assert(a / d >= 0) by (nonlinear_arith)
            requires
                a >= 0,
                d >= 1,
        ;
    } else {
        assert((-a) / d <= -a) by (nonlinear_arith)
            requires
                -a >= 0,
                d >= 1,
        ;
        assert((-a) / d >= 0) by (nonlinear_arith)
            requires
                -a >= 0,
                d >= 1,
        ;
    }
}

/// Division rounding toward zero, on values whose magnitude is below 2^126.
pub fn div_toward_zero(a: i128, d: i128) -> (r: i128)
    requires
        d >= 1,
        within(a as int, 0x3fff_ffff_ffff_ffff_ffff_ffff_ffff_ffff),
    ensures
        r == div0(a as int, d as int),
{
    proof {
        lemma_div0_bound(a as int, d as int, 0x3fff_ffff_ffff_ffff_ffff_ffff_ffff_ffff);
    }
    if a >= 0 {
        ((a as u128) / (d as u128)) as i128
    } else {
        let q = ((-a) as u128) / (d as u128);
        -(q as i128)
    }
}

/// A length in pixels at zoom one, in units at the given zoom.
pub fn zoom_to_units(v: i64, zoom: i64) -> (r: i64)
    requires
        valid_zoom(zoom),
        within(v as int, 0x1_0000_0000),
    ensures
        r == zoom_units(v as int, zoom as int),
        within(r as int, 0x1_0000_0000int * 200000),
        abs(r as int) <= abs(v as int) * 200000,
{
    proof {
        assert(within(v * zoom * 2, 0x1_0000_0000int * 200000) && abs(v * zoom * 2) <= abs(v as int)
            * 200000) by (nonlinear_arith)
            requires
                1 <= zoom <= 100000,
                -0x1_0000_0000 <= v <= 0x1_0000_0000,
        ;
    }
    ((v as i128) * (zoom as i128) * 2) as i64
}

impl NodeRect {
    /// Overlap with the box at (`sel_x`, `sel_y`) of the given size, edges
    /// that only touch excluded.
    pub open spec fn spec_intersects(self, sel_x: int, sel_y: int, sel_width: int, sel_height: int) -> bool {
        &&& self.x < sel_x + sel_width
        &&& self.x + self.width > sel_x
        &&& self.y < sel_y + sel_height
        &&& self.y + self.height > sel_y
    }

    /// The point lies in the rectangle, edges included.
    pub open spec fn spec_contains(self, x: int, y: int) -> bool {
        self.x <= x <= self.x + self.width && self.y <= y <= self.y + self.height
    }

    pub fn intersects(&self, sel_x: i64, sel_y: i64, sel_width: i64, sel_height: i64) -> (r: bool)
        requires
            within(sel_x as int, 0x1_0000_0000),
            within(sel_y as int, 0x1_0000_0000),
            within(sel_width as int, 0x2_0000_0000),
            within(sel_height as int, 0x2_0000_0000),
        ensures
            r == self.spec_intersects(sel_x as int, sel_y as int, sel_width as int, sel_height as int),
    {
        (self.x as i64) < sel_x + sel_width && (self.x as i64) + (self.width as i64) > sel_x
            && (self.y as i64) < sel_y + sel_height && (self.y as i64) + (self.height as i64) > sel_y
    }

    pub fn contains(&self, x: i64, y: i64) -> (r: bool)
        ensures
            r == self.spec_contains(x as int, y as int),
    {
        x >= self.x as i64 && x <= (self.x as i64) + (self.width as i64) && y >= self.y as i64 && y
            <= (self.y as i64) + (self.height as i64)
    }
}


/// Where a pin is drawn, in units: inputs near the left edge, outputs near
/// the right edge, both one title bar below the top, all offsets scaled by
/// the zoom.
pub open spec fn pin_position(pin: i32, rect: NodeRect, zoom: int) -> (int, int) {
    let u = UNITS_PER_PX as int;
    let size = zoom_units(BASE_PIN_SIZE as int, zoom);
    let radius = size / 2;
    let margin = zoom_units(PIN_MARGIN as int, zoom);
    let y = rect.y * u + zoom_units(PIN_Y_OFFSET as int, zoom) + radius;
    if is_output(pin) {
        ((rect.x + rect.width) * u - margin - size + radius, y)
    } else {
        (rect.x * u + margin + radius, y)
    }
}

/// Screen position of a pin of a node with the given rectangle.
pub fn compute_pin_screen_position(pin_id: i32, node_rect: &NodeRect, zoom: i64) -> (r: Pos)
    requires
        valid_zoom(zoom),
    ensures
        (r.x as int, r.y as int) == pin_position(pin_id, *node_rect, zoom as int),
        pos_within(r, 0x1000_0000_0000),
{
    let pin_size = zoom_to_units(BASE_PIN_SIZE, zoom);
    let pin_radius = pin_size / 2;
    let margin = zoom_to_units(PIN_MARGIN, zoom);
    let y = node_rect.y as i64 * UNITS_PER_PX + zoom_to_units(PIN_Y_OFFSET, zoom) + pin_radius;
    if pin_is_output(pin_id) {
        Pos {
            x: (node_rect.x as i64 + node_rect.width as i64) * UNITS_PER_PX - margin - pin_size
                + pin_radius,
            y,
        }
    } else {
        Pos { x: node_rect.x as i64 * UNITS_PER_PX + margin + pin_radius, y }
    }
}

/// `p` moved by an offset given in pixels at zoom one.
pub open spec fn shifted(p: Pos, dx: int, dy: int, zoom: int) -> (int, int) {
    (p.x + zoom_units(dx, zoom), p.y + zoom_units(dy, zoom))
}

/// Moves a position by an offset given in pixels at zoom one (a drag
/// offset).
pub fn shift_by_zoomed(p: Pos, dx: i32, dy: i32, zoom: i64) -> (r: Pos)
    requires
        valid_zoom(zoom),
        pos_within(p, 0x1000_0000_0000),
    ensures
        (r.x as int, r.y as int) == shifted(p, dx as int, dy as int, zoom as int),
        pos_within(r, END_LIMIT as int),
{
    Pos { x: p.x + zoom_to_units(dx as i64, zoom), y: p.y + zoom_to_units(dy as i64, zoom) }
}

/// A point in pixels, in units.
pub open spec fn point_units(p: Point) -> Pos {
    Pos { x: (p.x * UNITS_PER_PX) as i64, y: (p.y * UNITS_PER_PX) as i64 }
}

pub fn to_units(p: Point) -> (r: Pos)
    ensures
        r == point_units(p),
        pos_within(r, 0x1000_0000_0000),
{
    Pos { x: p.x as i64 * UNITS_PER_PX, y: p.y as i64 * UNITS_PER_PX }
}

/// How far a link's control points reach horizontally from its ends: half
/// the horizontal span, but at least `MIN_CONTROL_OFFSET` pixels at the
/// zoom.
pub open spec fn control_offset(start: Pos, end: Pos, zoom: int) -> int {
    let half = abs(end.x - start.x) / 2;
    let least = zoom_units(MIN_CONTROL_OFFSET as int, zoom);
    if half >= least {
        half
    } else {
        least
    }
}

/// The curve of a link from `start` to `end`: each control point lies level
/// with its end point, reaching toward the other end.
pub open spec fn link_curve(start: Pos, end: Pos, zoom: int) -> CubicBezier {
    let offset = control_offset(start, end, zoom);
    CubicBezier {
        p0: start,
        p1: Pos { x: (start.x + offset) as i64, y: start.y },
        p2: Pos { x: (end.x - offset) as i64, y: end.y },
        p3: end,
    }
}

/// Every point of the curve lies within `bound`.
pub open spec fn curve_within(c: CubicBezier, bound: int) -> bool {
    pos_within(c.p0, bound) && pos_within(c.p1, bound) && pos_within(c.p2, bound) && pos_within(
        c.p3,
        bound,
    )
}

/// The curve drawn for a link between two positions.
pub fn create_bezier_from_endpoints(start: Pos, end: Pos, zoom: i64) -> (r: CubicBezier)
    requires
        valid_zoom(zoom),
        pos_within(start, END_LIMIT as int),
        pos_within(end, END_LIMIT as int),
    ensures
        r == link_curve(start, end, zoom as int),
        curve_within(r, 2 * END_LIMIT),
{
    let dx = end.x - start.x;
    let half = if dx < 0 { -dx } else { dx } / 2;
    let least = zoom_to_units(MIN_CONTROL_OFFSET, zoom);
    let offset = if half >= least { half } else { least };
    CubicBezier {
        p0: start,
        p1: Pos { x: start.x + offset, y: start.y },
        p2: Pos { x: end.x - offset, y: end.y },
        p3: end,
    }
}

proof fn lemma_mul_within(a: int, b: int, ba: int, bb: int)
    requires
        within(a, ba),
        within(b, bb),
    ensures
        within(a * b, ba * bb),
        ba * bb >= 0,
{
    assert(within(a * b, ba * bb) && ba * bb >= 0) by (nonlinear_arith)
        requires
            -ba <= a <= ba,
            -bb <= b <= bb,
    ;
}

/// Coordinate of the curve at parameter `k / CURVE_SEGMENTS`, from the four
/// Bernstein terms, rounded toward zero.
pub open spec fn bernstein(a: int, b: int, c: int, d: int, k: int) -> int {
    let m = 20 - k;
    div0(m * m * m * a + 3 * m * m * k * b + 3 * m * k * k * c + k * k * k * d, 8000)
}

/// Point of the curve at parameter `k / CURVE_SEGMENTS`.
pub open spec fn sample(c: CubicBezier, k: int) -> (int, int) {
    (
        bernstein(c.p0.x as int, c.p1.x as int, c.p2.x as int, c.p3.x as int, k),
        bernstein(c.p0.y as int, c.p1.y as int, c.p2.y as int, c.p3.y as int, k),
    )
}

proof fn lemma_bernstein_within(a: int, b: int, c: int, d: int, k: int, bound: int)
    requires
        0 <= k <= 20,
        bound >= 0,
        within(a, bound),
        within(b, bound),
        within(c, bound),
        within(d, bound),
    ensures
        within(bernstein(a, b, c, d, k), bound),
        within(
            (20 - k) * (20 - k) * (20 - k) * a + 3 * (20 - k) * (20 - k) * k * b + 3 * (20 - k) * k
                * k * c + k * k * k * d,
            8000 * bound,
        ),
{
    let m = 20 - k;
    let w0 = m * m * m;
    let w1 = 3 * m * m * k;
    let w2 = 3 * m * k * k;
    let w3 = k * k * k;
    assert(w0 + w1 + w2 + w3 == 8000 && w0 >= 0 && w1 >= 0 && w2 >= 0 && w3 >= 0)
        by (nonlinear_arith)
        requires
            m == 20 - k,
            0 <= k <= 20,
            w0 == m * m * m,
            w1 == 3 * m * m * k,
            w2 == 3 * m * k * k,
            w3 == k * k * k,
    ;
    lemma_mul_within(w0, a, w0, bound);
    lemma_mul_within(w1, b, w1, bound);
    lemma_mul_within(w2, c, w2, bound);
    lemma_mul_within(w3, d, w3, bound);
    assert(w0 * bound + w1 * bound + w2 * bound + w3 * bound == 8000 * bound) by (nonlinear_arith)
        requires
            w0 + w1 + w2 + w3 == 8000,
    ;
    assert(m * m * m * a == w0 * a);
    assert(3 * m * m * k * b == w1 * b);
    assert(3 * m * k * k * c == w2 * c);
    assert(k * k * k * d == w3 * d);
    let num = w0 * a + w1 * b + w2 * c + w3 * d;
    lemma_div0_bound(num, 8000, 8000 * bound);
    if num >= 0 {
        assert(num / 8000 <= bound) by (nonlinear_arith)
            requires
                0 <= num <= 8000 * bound,
        ;
    } else {
        assert((-num) / 8000 <= bound) by (nonlinear_arith)
            requires
                0 <= -num <= 8000 * bound,
        ;
    }
}

fn bernstein_exec(a: i64, b: i64, c: i64, d: i64, k: i64) -> (r: i64)
    requires
        0 <= k <= 20,
        within(a as int, 2 * END_LIMIT),
        within(b as int, 2 * END_LIMIT),
        within(c as int, 2 * END_LIMIT),
        within(d as int, 2 * END_LIMIT),
    ensures
        r == bernstein(a as int, b as int, c as int, d as int, k as int),
        within(r as int, 2 * END_LIMIT),
{
    proof {
        lemma_bernstein_within(a as int, b as int, c as int, d as int, k as int, 2 * END_LIMIT);
    }
    let m = (20 - k) as i128;
    let k = k as i128;
    proof {
        assert(0 <= m * m <= 400 && 0 <= m * m * m <= 8000 && 0 <= 3 * m <= 60 && 0 <= 3 * m * m
            <= 1200 && 0 <= 3 * m * m * k <= 24000 && 0 <= 3 * m * k <= 1200 && 0 <= 3 * m * k * k
            <= 24000 && 0 <= k * k <= 400 && 0 <= k * k * k <= 8000) by (nonlinear_arith)
            requires
                0 <= m <= 20,
                0 <= k <= 20,
        ;
    }
    let w0 = m * m * m;
    let w1 = 3 * m * m * k;
    let w2 = 3 * m * k * k;
    let w3 = k * k * k;
    proof {
        assert(0 <= w0 <= 8000 && 0 <= w1 <= 8000 && 0 <= w2 <= 8000 && 0 <= w3 <= 8000)
            by (nonlinear_arith)
            requires
                0 <= m <= 20,
                0 <= k <= 20,
                m + k == 20,
                w0 == m * m * m,
                w1 == 3 * m * m * k,
                w2 == 3 * m * k * k,
                w3 == k * k * k,
        ;
        lemma_mul_within(w0 as int, a as int, 8000, 2 * END_LIMIT);
        lemma_mul_within(w1 as int, b as int, 8000, 2 * END_LIMIT);
        lemma_mul_within(w2 as int, c as int, 8000, 2 * END_LIMIT);
        lemma_mul_within(w3 as int, d as int, 8000, 2 * END_LIMIT);
    }
    let num = w0 * (a as i128) + w1 * (b as i128) + w2 * (c as i128) + w3 * (d as i128);
    div_toward_zero(num, 8000) as i64
}

/// Point of the curve at parameter `k / CURVE_SEGMENTS`.
pub fn eval_sample(curve: &CubicBezier, k: i64) -> (r: Pos)
    requires
        0 <= k <= CURVE_SEGMENTS,
        curve_within(*curve, 2 * END_LIMIT),
    ensures
        (r.x as int, r.y as int) == sample(*curve, k as int),
        pos_within(r, 2 * END_LIMIT),
{
    Pos {
        x: bernstein_exec(curve.p0.x, curve.p1.x, curve.p2.x, curve.p3.x, k),
        y: bernstein_exec(curve.p0.y, curve.p1.y, curve.p2.y, curve.p3.y, k),
    }
}


pub open spec fn sq(v: int) -> int {
    v * v
}

/// Squared distance from `p` to the segment from `a` to `b`: to the nearer
/// end where the projection of `p` falls outside the segment, else to the
/// projected point (rounded toward zero). A segment of length zero is
/// measured to `a`.
pub open spec fn seg_dist_sq(p: (int, int), a: (int, int), b: (int, int)) -> int {
    let abx = b.0 - a.0;
    let aby = b.1 - a.1;
    let apx = p.0 - a.0;
    let apy = p.1 - a.1;
    let len2 = abx * abx + aby * aby;
    let dot = apx * abx + apy * aby;
    if len2 == 0 || dot <= 0 {
        sq(apx) + sq(apy)
    } else if dot >= len2 {
        sq(p.0 - b.0) + sq(p.1 - b.1)
    } else {
        sq(p.0 - (a.0 + div0(abx * dot, len2))) + sq(p.1 - (a.1 + div0(aby * dot, len2)))
    }
}

proof fn lemma_projection_bound(v: int, dot: int, len2: int)
    requires
        0 < dot < len2,
    ensures
        abs(div0(v * dot, len2)) <= abs(v),
{
    if v >= 0 {
        assert(v * dot / len2 <= v && v * dot >= 0) by (nonlinear_arith)
            requires
                v >= 0,
                0 < dot < len2,
        ;
        assert(v * dot / len2 >= 0) by (nonlinear_arith)
            requires
                v * dot >= 0,
                len2 > 0,
        ;
    } else {
        assert((-(v * dot)) / len2 <= -v && v * dot < 0) by (nonlinear_arith)
            requires
                v < 0,
                0 < dot < len2,
        ;
        assert((-(v * dot)) / len2 >= 0) by (nonlinear_arith)
            requires
                -(v * dot) > 0,
                len2 > 0,
        ;
    }
}

/// Squared distance from a point to a segment, all in one unit.
pub fn distance_to_line_segment_sq(point: Pos, a: Pos, b: Pos) -> (r: i128)
    requires
        pos_within(point, SEG_LIMIT as int),
        pos_within(a, SEG_LIMIT as int),
        pos_within(b, SEG_LIMIT as int),
    ensures
        r == seg_dist_sq(
            (point.x as int, point.y as int),
            (a.x as int, a.y as int),
            (b.x as int, b.y as int),
        ),
        0 <= r <= 0x20_0000_0000_0000_0000_0000,
{
    let bound: i128 = 0x200_0000_0000;
    let abx = (b.x - a.x) as i128;
    let aby = (b.y - a.y) as i128;
    let apx = (point.x - a.x) as i128;
    let apy = (point.y - a.y) as i128;
    proof {
        lemma_mul_within(abx as int, abx as int, bound as int, bound as int);
        lemma_mul_within(aby as int, aby as int, bound as int, bound as int);
        lemma_mul_within(apx as int, abx as int, bound as int, bound as int);
        lemma_mul_within(apy as int, aby as int, bound as int, bound as int);
        lemma_mul_within(apx as int, apx as int, bound as int, bound as int);
        lemma_mul_within(apy as int, apy as int, bound as int, bound as int);
        assert(abx * abx >= 0 && aby * aby >= 0 && apx * apx >= 0 && apy * apy >= 0)
            by (nonlinear_arith);
    }
    let len2 = abx * abx + aby * aby;
    let dot = apx * abx + apy * aby;
    if len2 == 0 || dot <= 0 {
        return apx * apx + apy * apy;
    }
    if dot >= len2 {
        let bpx = (point.x - b.x) as i128;
        let bpy = (point.y - b.y) as i128;
        proof {
            lemma_mul_within(bpx as int, bpx as int, bound as int, bound as int);
            lemma_mul_within(bpy as int, bpy as int, bound as int, bound as int);
            assert(bpx * bpx >= 0 && bpy * bpy >= 0) by (nonlinear_arith);
        }
        return bpx * bpx + bpy * bpy;
    }
    proof {
        lemma_mul_within(abx as int, dot as int, bound as int, 2 * bound * bound);
        lemma_mul_within(aby as int, dot as int, bound as int, 2 * bound * bound);
        lemma_projection_bound(abx as int, dot as int, len2 as int);
        lemma_projection_bound(aby as int, dot as int, len2 as int);
    }
    let qx = div_toward_zero(abx * dot, len2);
    let qy = div_toward_zero(aby * dot, len2);
    let dx = (point.x as i128) - ((a.x as i128) + qx);
    let dy = (point.y as i128) - ((a.y as i128) + qy);
    proof {
        lemma_mul_within(dx as int, dx as int, 2 * bound as int, 2 * bound as int);
        lemma_mul_within(dy as int, dy as int, 2 * bound as int, 2 * bound as int);
        assert(dx * dx >= 0 && dy * dy >= 0) by (nonlinear_arith);
    }
    dx * dx + dy * dy
}

/// A sample point of the curve in whole pixels (rounded toward zero), as
/// hit-testing measures it.
pub open spec fn sample_px(c: CubicBezier, k: int) -> (int, int) {
    (div0(sample(c, k).0, UNITS_PER_PX as int), div0(sample(c, k).1, UNITS_PER_PX as int))
}

/// Squared distance in pixels from `p` to the first `n` segments of the
/// curve split into `CURVE_SEGMENTS` pieces: the least over those segments.
pub open spec fn curve_dist_sq(p: (int, int), c: CubicBezier, n: int) -> int
    decreases n,
{
    if n <= 1 {
        seg_dist_sq(p, sample_px(c, 0), sample_px(c, 1))
    } else {
        let prev = curve_dist_sq(p, c, n - 1);
        let last = seg_dist_sq(p, sample_px(c, n - 1), sample_px(c, n));
        if last < prev {
            last
        } else {
            prev
        }
    }
}

/// Point of the curve at parameter `k / CURVE_SEGMENTS`, in whole pixels.
fn eval_sample_px(curve: &CubicBezier, k: i64) -> (r: Pos)
    requires
        0 <= k <= CURVE_SEGMENTS,
        curve_within(*curve, 2 * END_LIMIT),
    ensures
        (r.x as int, r.y as int) == sample_px(*curve, k as int),
        pos_within(r, SEG_LIMIT as int),
{
    let s = eval_sample(curve, k);
    proof {
        lemma_div0_bound(s.x as int, 2000, 2 * END_LIMIT);
        lemma_div0_bound(s.y as int, 2000, 2 * END_LIMIT);
        assert(2 * END_LIMIT / 2000 <= SEG_LIMIT);
        if s.x >= 0 {
            assert(s.x as int / 2000 <= 2 * END_LIMIT / 2000) by (nonlinear_arith)
                requires
                    0 <= s.x <= 2 * END_LIMIT,
            ;
        } else {
            assert(-(s.x as int) / 2000 <= 2 * END_LIMIT / 2000) by (nonlinear_arith)
                requires
                    0 <= -s.x <= 2 * END_LIMIT,
            ;
        }
        if s.y >= 0 {
            assert(s.y as int / 2000 <= 2 * END_LIMIT / 2000) by (nonlinear_arith)
                requires
                    0 <= s.y <= 2 * END_LIMIT,
            ;
        } else {
            assert(-(s.y as int) / 2000 <= 2 * END_LIMIT / 2000) by (nonlinear_arith)
                requires
                    0 <= -s.y <= 2 * END_LIMIT,
            ;
        }
    }
    Pos {
        x: div_toward_zero(s.x as i128, UNITS_PER_PX as i128) as i64,
        y: div_toward_zero(s.y as i128, UNITS_PER_PX as i128) as i64,
    }
}

/// Squared distance in pixels from a point to a link curve, measured on the
/// curve split into `CURVE_SEGMENTS` straight segments between sample points
/// taken to whole pixels.
pub fn distance_to_bezier_sq(point: Point, curve: &CubicBezier) -> (r: i128)
    requires
        curve_within(*curve, 2 * END_LIMIT),
    ensures
        r == curve_dist_sq((point.x as int, point.y as int), *curve, CURVE_SEGMENTS as int),
        r >= 0,
{
    let p = Pos { x: point.x as i64, y: point.y as i64 };
    let mut prev = eval_sample_px(curve, 0);
    let mut best: i128 = 0;
    let mut i: i64 = 1;
    while i <= CURVE_SEGMENTS
        invariant
            1 <= i <= CURVE_SEGMENTS + 1,
            curve_within(*curve, 2 * END_LIMIT),
            p.x == point.x && p.y == point.y,
            pos_within(prev, SEG_LIMIT as int),
            (prev.x as int, prev.y as int) == sample_px(*curve, i - 1),
            i > 1 ==> best == curve_dist_sq((point.x as int, point.y as int), *curve, i - 1),
            best >= 0,
        decreases CURVE_SEGMENTS + 1 - i,
    {
        let curr = eval_sample_px(curve, i);
        let d = distance_to_line_segment_sq(p, prev, curr);
        if i == 1 || d < best {
            best = d;
        }
        prev = curr;
        i += 1;
    }
    best
}

} // verus!

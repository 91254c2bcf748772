//! Pixel-space geometry: the coordinate transform, the visible range
//! query, the grid/tick generator and the curve sampler.
//!
//! A [`Graph`] owns the affine map between math space (Cartesian, y up)
//! and pixel space (origin top-left, y down) determined by the viewport
//! size, the zoom scale (pixels per unit) and the pixel offset of the
//! origin. Its methods return batches of [`Polyline`]s tagged with a
//! stroke class; an external drawing collaborator owns paint and
//! submission.

use vstd::prelude::*;

use crate::equation::{Calculate, CouldBeLinear, Point};
use crate::fixed::{cdiv, fadd, fdiv, fmul, fsub, sat64, tdiv, Fixed, UNIT};

verus! {

/// The window's drawing area in whole pixels.
#[derive(Clone, Copy, Debug, PartialEq, Eq, Structural)]
pub struct Viewport {
    pub width: u32,
    pub height: u32,
}

/// A pixel-space position in fixed-point pixels (origin top-left, y
/// growing downward).
#[derive(Clone, Copy, Debug, PartialEq, Eq, Structural)]
pub struct PixelPoint {
    pub x: Fixed,
    pub y: Fixed,
}

/// Ghost image of a pixel-space position, in raw millionths of a pixel.
pub struct PixelV {
    pub x: int,
    pub y: int,
}

impl View for PixelPoint {
    type V = PixelV;

    open spec fn view(&self) -> PixelV {
        PixelV { x: self.x@, y: self.y@ }
    }
}

/// The stroke class a polyline is tagged with; the drawing collaborator
/// maps each class to a color and width.
#[derive(Clone, Copy, Debug, PartialEq, Eq, Structural)]
pub enum StrokeClass {
    /// The two coordinate axes.
    Axis,
    /// A grid line at a multiple of ten.
    MajorTick,
    /// A grid line at any other integer coordinate.
    MinorTick,
    /// A sampled equation trace.
    Curve,
}

/// A polyline: the pen moves to the first point, then draws a straight
/// segment to each following point; nothing closes it.
#[derive(Debug)]
pub struct Polyline {
    pub class: StrokeClass,
    pub points: Vec<PixelPoint>,
}

/// Ghost image of a polyline.
pub struct PolylineV {
    pub class: StrokeClass,
    pub points: Seq<PixelV>,
}

impl View for Polyline {
    type V = PolylineV;

    open spec fn view(&self) -> PolylineV {
        PolylineV { class: self.class, points: self.points@.map_values(|p: PixelPoint| p@) }
    }
}

/// The ghost images of a batch of polylines.
pub open spec fn batch_view(b: Seq<Polyline>) -> Seq<PolylineV> {
    b.map_values(|l: Polyline| l@)
}

/// The view transform: viewport size, zoom scale in pixels per unit, and
/// the pixel offset of the math origin from the viewport center.
#[derive(Clone, Copy, Debug)]
pub struct Graph {
    pub size: Viewport,
    pub scale: Fixed,
    pub offset: PixelPoint,
}

/// The pixel x of the math origin: half the width plus the x offset.
pub open spec fn zero_x_spec(g: Graph) -> int {
    fadd((g.size.width as int / 2) * (UNIT as int), g.offset.x@)
}

/// The pixel y of the math origin: half the height plus the y offset.
pub open spec fn zero_y_spec(g: Graph) -> int {
    fadd((g.size.height as int / 2) * (UNIT as int), g.offset.y@)
}

/// The pixel x that shows math x: the origin's pixel x plus `x` scaled.
pub open spec fn to_px_x(g: Graph, x: int) -> int {
    fadd(zero_x_spec(g), fmul(x, g.scale@))
}

/// The pixel y that shows math y: the origin's pixel y minus `y` scaled
/// (pixel y grows downward).
pub open spec fn to_px_y(g: Graph, y: int) -> int {
    fsub(zero_y_spec(g), fmul(y, g.scale@))
}

/// The math x shown at pixel x: the inverse of `to_px_x`, up to the
/// fixed-point rounding of one multiply and one divide.
pub open spec fn from_px_x(g: Graph, px: int) -> int {
    fdiv(fsub(px, zero_x_spec(g)), g.scale@)
}

/// The math y shown at pixel y: the inverse of `to_px_y`.
pub open spec fn from_px_y(g: Graph, py: int) -> int {
    fdiv(fsub(zero_y_spec(g), py), g.scale@)
}

/// How many whole units fit left of the origin's pixel x, rounded up;
/// the first visible integer x is its negation.
pub open spec fn min_x_spec(g: Graph) -> int {
    sat64(-cdiv(zero_x_spec(g), g.scale@))
}

/// How many whole units fit right of the origin's pixel x, rounded up:
/// the last visible integer x.
pub open spec fn max_x_spec(g: Graph) -> int {
    cdiv(fsub((g.size.width as int) * (UNIT as int), zero_x_spec(g)), g.scale@)
}

/// The negated count of whole units below the origin's pixel y: the
/// first visible integer y.
pub open spec fn min_y_spec(g: Graph) -> int {
    sat64(-cdiv(fsub((g.size.height as int) * (UNIT as int), zero_y_spec(g)), g.scale@))
}

/// The count of whole units above the origin's pixel y, rounded up: the
/// last visible integer y.
pub open spec fn max_y_spec(g: Graph) -> int {
    cdiv(zero_y_spec(g), g.scale@)
}

impl Graph {
    /// A well-formed transform has a positive zoom scale.
    pub open spec fn wf(self) -> bool {
        self.scale@ > 0
    }

    /// A transform from its parts.
    pub fn new(size: Viewport, scale: Fixed, offset: PixelPoint) -> (r: Graph)
        ensures
            r.size == size,
            r.scale == scale,
            r.offset == offset,
    {
        Graph { size, scale, offset }
    }

    /// The pixel position of the math origin.
    pub fn zero_zero_px(&self) -> (r: PixelPoint)
        ensures
            r@.x == zero_x_spec(*self),
            r@.y == zero_y_spec(*self),
    {
        let half_w = Fixed::from_int((self.size.width / 2) as i64);
        let half_h = Fixed::from_int((self.size.height / 2) as i64);
        proof {
            assert(((self.size.width as int) / 2) * (UNIT as int) == sat64(
                ((self.size.width / 2) as i64) * (UNIT as int),
            ));
            assert(((self.size.height as int) / 2) * (UNIT as int) == sat64(
                ((self.size.height / 2) as i64) * (UNIT as int),
            ));
        }
        PixelPoint { x: half_w.plus(self.offset.x), y: half_h.plus(self.offset.y) }
    }

    /// Map a math-space point to its pixel-space position.
    pub fn convert_point_to_px(&self, point: Point) -> (r: PixelPoint)
        ensures
            r@.x == to_px_x(*self, point.x@),
            r@.y == to_px_y(*self, point.y@),
    {
        let zero = self.zero_zero_px();
        let px = zero.x.plus(point.x.times(self.scale));
        let py = zero.y.minus(point.y.times(self.scale));
        PixelPoint { x: px, y: py }
    }

    /// Map a pixel-space position back to the math-space point shown
    /// there.
    pub fn convert_px_to_point(&self, px: PixelPoint) -> (r: Point)
        requires
            self.wf(),
        ensures
            r.x@ == from_px_x(*self, px@.x),
            r.y@ == from_px_y(*self, px@.y),
    {
        let zero = self.zero_zero_px();
        let x = px.x.minus(zero.x).over(self.scale);
        let y = zero.y.minus(px.y).over(self.scale);
        Point { x, y }
    }

    /// The visible integer x range: every integer in it shows within the
    /// viewport width, plus up to one unit of margin on each side.
    pub fn get_x_range(&self) -> (r: (i64, i64))
        requires
            self.wf(),
        ensures
            r.0 as int == min_x_spec(*self),
            r.1 as int == max_x_spec(*self),
    {
        let zero = self.zero_zero_px();
        let left = ceil_units(zero.x, self.scale);
        let width_px = Fixed::from_int(self.size.width as i64);
        proof {
            assert((self.size.width as int) * (UNIT as int) == sat64(
                (self.size.width as i64) * (UNIT as int),
            ));
        }
        let right = ceil_units(width_px.minus(zero.x), self.scale);
        let min_x = if left == i64::MIN {
            i64::MAX
        } else {
            -left
        };
        (min_x, right)
    }

    /// The visible integer y range, as `get_x_range` but for the height.
    pub fn get_y_range(&self) -> (r: (i64, i64))
        requires
            self.wf(),
        ensures
            r.0 as int == min_y_spec(*self),
            r.1 as int == max_y_spec(*self),
    {
        let zero = self.zero_zero_px();
        let above = ceil_units(zero.y, self.scale);
        let height_px = Fixed::from_int(self.size.height as i64);
        proof {
            assert((self.size.height as int) * (UNIT as int) == sat64(
                (self.size.height as i64) * (UNIT as int),
            ));
        }
        let below = ceil_units(height_px.minus(zero.y), self.scale);
        let min_y = if below == i64::MIN {
            i64::MAX
        } else {
            -below
        };
        (min_y, above)
    }
}

/// How many whole units cover `a` pixels at `scale` pixels per unit,
/// rounded up (toward positive infinity).
fn ceil_units(a: Fixed, scale: Fixed) -> (r: i64)
    requires
        scale@ > 0,
    ensures
        r as int == cdiv(a@, scale@),
{
    let aw: i128 = a.raw as i128;
    let bw: i128 = scale.raw as i128;
    if a.raw > 0 {
        proof {
            lemma_cdiv_pos(a.raw as int, scale.raw as int);
        }
        let q: i128 = crate::fixed::div_trunc_i128(aw + bw - 1, bw);
        q as i64
    } else {
        let q: i128 = crate::fixed::div_trunc_i128(-aw, bw);
        proof {
            assert(tdiv(-(a.raw as int), scale.raw as int) == (-(a.raw as int)) / (
            scale.raw as int));
            vstd::arithmetic::div_mod::lemma_div_is_ordered_by_denominator(
                -(a.raw as int),
                1,
                scale.raw as int,
            );
            vstd::arithmetic::div_mod::lemma_div_basics(-(a.raw as int));
            vstd::arithmetic::div_mod::lemma_div_pos_is_pos(-(a.raw as int), scale.raw as int);
        }
        (-q) as i64
    }
}

/// The pixel image of the math point with whole coordinates
/// `(ux, uy)`.
pub open spec fn unit_px(g: Graph, ux: int, uy: int) -> PixelV {
    PixelV { x: to_px_x(g, sat64(ux * (UNIT as int))), y: to_px_y(g, sat64(uy * (UNIT as int))) }
}

/// The vertical line at integer x, spanning the visible y range.
pub open spec fn x_line(g: Graph, x: int, class: StrokeClass) -> PolylineV {
    PolylineV {
        class,
        points: seq![unit_px(g, x, min_y_spec(g)), unit_px(g, x, max_y_spec(g))],
    }
}

/// The horizontal line at integer y, spanning the visible x range.
pub open spec fn y_line(g: Graph, y: int, class: StrokeClass) -> PolylineV {
    PolylineV {
        class,
        points: seq![unit_px(g, min_x_spec(g), y), unit_px(g, max_x_spec(g), y)],
    }
}

/// Minor grid lines show only above five pixels per unit; below that
/// they would clutter the view.
pub open spec fn minor_visible(g: Graph) -> bool {
    g.scale@ > 5 * (UNIT as int)
}

/// The grid entry at integer x: a major line at multiples of ten, else
/// a minor line when minors are visible, else nothing.
pub open spec fn x_tick_entry(g: Graph, x: int) -> Seq<PolylineV> {
    if x % 10 == 0 {
        seq![x_line(g, x, StrokeClass::MajorTick)]
    } else if minor_visible(g) {
        seq![x_line(g, x, StrokeClass::MinorTick)]
    } else {
        Seq::empty()
    }
}

/// The grid entry at integer y, as for x.
pub open spec fn y_tick_entry(g: Graph, y: int) -> Seq<PolylineV> {
    if y % 10 == 0 {
        seq![y_line(g, y, StrokeClass::MajorTick)]
    } else if minor_visible(g) {
        seq![y_line(g, y, StrokeClass::MinorTick)]
    } else {
        Seq::empty()
    }
}

/// The grid entries for every integer x in `lo..=hi`, in order.
pub open spec fn x_ticks(g: Graph, lo: int, hi: int) -> Seq<PolylineV>
    decreases hi + 1 - lo,
{
    if hi < lo {
        Seq::empty()
    } else {
        x_ticks(g, lo, hi - 1) + x_tick_entry(g, hi)
    }
}

/// The grid entries for every integer y in `lo..=hi`, in order.
pub open spec fn y_ticks(g: Graph, lo: int, hi: int) -> Seq<PolylineV>
    decreases hi + 1 - lo,
{
    if hi < lo {
        Seq::empty()
    } else {
        y_ticks(g, lo, hi - 1) + y_tick_entry(g, hi)
    }
}

/// All grid lines of the visible ranges: the vertical ones, then the
/// horizontal ones.
pub open spec fn ticks_spec(g: Graph) -> Seq<PolylineV> {
    x_ticks(g, min_x_spec(g), max_x_spec(g)) + y_ticks(g, min_y_spec(g), max_y_spec(g))
}

/// The two axis lines: the x axis (horizontal at y = 0), then the y
/// axis (vertical at x = 0), always emitted.
pub open spec fn axes_spec(g: Graph) -> Seq<PolylineV> {
    seq![y_line(g, 0, StrokeClass::Axis), x_line(g, 0, StrokeClass::Axis)]
}

/// The full grid batch: axes first, then the tick lines.
pub open spec fn grid_spec(g: Graph) -> Seq<PolylineV> {
    axes_spec(g) + ticks_spec(g)
}

/// Scale-adaptive sampling density: the zoom scale rounded to the
/// nearest whole count of samples per unit, capped at 5000 so cost
/// stays bounded at high zoom.
pub open spec fn ppu_spec(g: Graph) -> int {
    let capped = if g.scale@ > 5000 * (UNIT as int) {
        5000 * (UNIT as int)
    } else {
        g.scale@
    };
    (capped + (UNIT as int) / 2) / (UNIT as int)
}

/// The curve sample at `x = i / ppu`: that x and the equation's value
/// there, mapped to pixel space.
pub open spec fn curve_sample<T: Calculate>(g: Graph, eq: T, ppu: int, i: int) -> PixelV {
    let xr = sat64(tdiv(i * (UNIT as int), ppu));
    PixelV { x: to_px_x(g, xr), y: to_px_y(g, eq.calc_spec(xr)) }
}

/// The sample at the whole math coordinate `u`, for the linear fast
/// path.
pub open spec fn linear_sample<T: Calculate>(g: Graph, eq: T, u: int) -> PixelV {
    let xr = sat64(u * (UNIT as int));
    PixelV { x: to_px_x(g, xr), y: to_px_y(g, eq.calc_spec(xr)) }
}

/// The two samples of the linear fast path: the ends of the visible
/// range, which fully determine a line.
pub open spec fn linear_points<T: Calculate>(g: Graph, eq: T) -> Seq<PixelV> {
    seq![linear_sample(g, eq, min_x_spec(g)), linear_sample(g, eq, max_x_spec(g))]
}

/// The first `n` dense samples, starting at sample index `lo`.
pub open spec fn curve_samples_upto<T: Calculate>(
    g: Graph,
    eq: T,
    ppu: int,
    lo: int,
    n: int,
) -> Seq<PixelV> {
    Seq::new(n as nat, |k: int| curve_sample(g, eq, ppu, lo + k))
}

/// The dense samples of a non-linear curve: one for every integer i in
/// `[min_x * ppu, max_x * ppu)`, at `x = i / ppu`.
pub open spec fn curve_points<T: Calculate>(g: Graph, eq: T) -> Seq<PixelV> {
    let ppu = ppu_spec(g);
    let lo = sat64(min_x_spec(g) * ppu);
    let hi = sat64(max_x_spec(g) * ppu);
    if lo < hi {
        Seq::new((hi - lo) as nat, |k: int| curve_sample(g, eq, ppu, lo + k))
    } else {
        Seq::empty()
    }
}

/// The polyline an equation contributes to the frame: two samples when
/// it is linear, the dense samples otherwise.
pub open spec fn curve_polyline<T: Calculate + CouldBeLinear>(g: Graph, eq: T) -> PolylineV {
    PolylineV {
        class: StrokeClass::Curve,
        points: if eq.is_linear_spec() {
            linear_points(g, eq)
        } else {
            curve_points(g, eq)
        },
    }
}

/// For a positive dividend, ceiling division equals truncating division
/// after adding `divisor - 1`, and the result lies between 0 and the
/// dividend.
proof fn lemma_cdiv_pos(a: int, b: int)
    requires
        a > 0,
        b > 0,
    ensures
        cdiv(a, b) == (a + b - 1) / b,
        0 <= (a + b - 1) / b <= a,
        cdiv(a, b) == tdiv(a + b - 1, b),
{
    let q = a / b;
    let r = a % b;
    vstd::arithmetic::div_mod::lemma_fundamental_div_mod(a, b);
    vstd::arithmetic::div_mod::lemma_mod_bound(a, b);
    vstd::arithmetic::div_mod::lemma_div_pos_is_pos(a, b);
    assert(a == b * q + r);
    vstd::arithmetic::mul::lemma_mul_is_distributive_add(b, q, 1);
    vstd::arithmetic::mul::lemma_mul_inequality(1, b, q);
    assert(q <= b * q);
    if r == 0 {
        vstd::arithmetic::mul::lemma_mul_unary_negation(q, b);
        vstd::arithmetic::div_mod::lemma_fundamental_div_mod_converse(a + b - 1, b, q, b - 1);
        assert((a + b - 1) / b == q);
        vstd::arithmetic::div_mod::lemma_fundamental_div_mod_converse(-a, b, -q, 0);
        assert((-a) / b == -q);
        assert(cdiv(a, b) == q);
        assert(q <= a);
    } else {
        vstd::arithmetic::mul::lemma_mul_unary_negation(q + 1, b);
        vstd::arithmetic::div_mod::lemma_fundamental_div_mod_converse(a + b - 1, b, q + 1, r - 1);
        assert((a + b - 1) / b == q + 1);
        vstd::arithmetic::div_mod::lemma_fundamental_div_mod_converse(-a, b, -(q + 1), b - r);
        assert((-a) / b == -(q + 1));
        assert(cdiv(a, b) == q + 1);
        assert(q + 1 <= a);
    }
}

/// The math point at the given whole coordinates, clamped to the
/// representable range.
fn point_i64(x: i64, y: i64) -> (r: Point)
    ensures
        r.x@ == sat64(x * (UNIT as int)),
        r.y@ == sat64(y * (UNIT as int)),
{
    Point { x: Fixed::from_int(x), y: Fixed::from_int(y) }
}

/// Whether `x` is a multiple of ten.
fn is_multiple_of_10(x: i64) -> (r: bool)
    ensures
        r == (x as int % 10 == 0),
{
    proof {
        lemma_neg_mod10(x as int);
    }
    let m: i64 = x.checked_rem(10).unwrap();
    m == 0
}

/// A number and its negation are divisible by ten together.
proof fn lemma_neg_mod10(x: int)
    ensures
        ((-x) % 10 == 0) <==> (x % 10 == 0),
{
    let q = x / 10;
    let r = x % 10;
    vstd::arithmetic::div_mod::lemma_fundamental_div_mod(x, 10);
    vstd::arithmetic::div_mod::lemma_mod_bound(x, 10);
    assert(x == 10 * q + r);
    vstd::arithmetic::mul::lemma_mul_unary_negation(q, 10);
    if r == 0 {
        vstd::arithmetic::div_mod::lemma_fundamental_div_mod_converse(-x, 10, -q, 0);
    } else {
        vstd::arithmetic::div_mod::lemma_fundamental_div_mod_converse(-x, 10, -q - 1, 10 - r);
        vstd::arithmetic::mul::lemma_mul_unary_negation(q + 1, 10);
        vstd::arithmetic::mul::lemma_mul_is_distributive_add(10, q, 1);
    }
}

/// `a * b` clamped to the representable range.
fn sat_mul_i64(a: i64, b: i64) -> (r: i64)
    ensures
        r as int == sat64(a * b),
{
    proof {
        crate::fixed::lemma_i64_mul_fits(a as int, b as int);
    }
    crate::fixed::clamp_to_i64((a as i128) * (b as i128))
}

impl Graph {
    /// The two always-emitted axis lines: x axis, then y axis.
    pub fn draw_axes(&self) -> (r: Vec<Polyline>)
        requires
            self.wf(),
        ensures
            batch_view(r@) == axes_spec(*self),
    {
        let ghost g = *self;
        let (min_x, max_x) = self.get_x_range();
        let (min_y, max_y) = self.get_y_range();

        let mut x_axis_pts: Vec<PixelPoint> = Vec::new();
        x_axis_pts.push(self.convert_point_to_px(point_i64(min_x, 0)));
        x_axis_pts.push(self.convert_point_to_px(point_i64(max_x, 0)));
        let x_axis = Polyline { class: StrokeClass::Axis, points: x_axis_pts };

        let mut y_axis_pts: Vec<PixelPoint> = Vec::new();
        y_axis_pts.push(self.convert_point_to_px(point_i64(0, min_y)));
        y_axis_pts.push(self.convert_point_to_px(point_i64(0, max_y)));
        let y_axis = Polyline { class: StrokeClass::Axis, points: y_axis_pts };

        let mut r: Vec<Polyline> = Vec::new();
        proof {
            assert(x_axis@.points =~= y_line(g, 0, StrokeClass::Axis).points);
            assert(y_axis@.points =~= x_line(g, 0, StrokeClass::Axis).points);
        }
        r.push(x_axis);
        r.push(y_axis);
        proof {
            assert(batch_view(r@) =~= axes_spec(g));
        }
        r
    }

    /// Every grid line of the visible ranges: a major line at each
    /// multiple of ten, a minor line at each other integer when the
    /// scale is dense enough; vertical lines first, then horizontal.
    pub fn draw_tick_marks(&self) -> (r: Vec<Polyline>)
        requires
            self.wf(),
        ensures
            batch_view(r@) == ticks_spec(*self),
    {
        let ghost g = *self;
        let (min_x, max_x) = self.get_x_range();
        let (min_y, max_y) = self.get_y_range();
        let mut out: Vec<Polyline> = Vec::new();

        let mut x: i128 = min_x as i128;
        while x <= max_x as i128
            invariant
                g == *self,
                g.wf(),
                min_x as int == min_x_spec(g),
                max_x as int == max_x_spec(g),
                min_y as int == min_y_spec(g),
                max_y as int == max_y_spec(g),
                min_x as int <= x,
                x == min_x as int || x <= max_x as int + 1,
                batch_view(out@) == x_ticks(g, min_x as int, x - 1),
            decreases max_x as int + 1 - x,
        {
            let xi = x as i64;
            let major = is_multiple_of_10(xi);
            let minor = self.scale.raw > 5_000_000;
            if major || minor {
                let start = self.convert_point_to_px(point_i64(xi, min_y));
                let end = self.convert_point_to_px(point_i64(xi, max_y));
                let mut pts: Vec<PixelPoint> = Vec::new();
                pts.push(start);
                pts.push(end);
                let class = if major {
                    StrokeClass::MajorTick
                } else {
                    StrokeClass::MinorTick
                };
                let line = Polyline { class, points: pts };
                proof {
                    assert(line@.points =~= x_line(g, x as int, class).points);
                    assert(line@ == x_line(g, x as int, class));
                }
                let ghost out_before = out@;
                out.push(line);
                proof {
                    let prev = x_ticks(g, min_x as int, x - 1);
                    let cur = x_ticks(g, min_x as int, x as int);
                    assert(cur == prev + x_tick_entry(g, x as int));
                    assert(cur =~= prev.push(line@));
                    assert(batch_view(out@) =~= (batch_view(out_before)).push(line@));
                    assert(batch_view(out@) == cur);
                }
            } else {
                proof {
                    let prev = x_ticks(g, min_x as int, x - 1);
                    let cur = x_ticks(g, min_x as int, x as int);
                    assert(cur == prev + x_tick_entry(g, x as int));
                    assert(cur =~= prev);
                    assert(batch_view(out@) == cur);
                }
            }
            x = x + 1;
        }
        proof {
            assert(batch_view(out@) =~= x_ticks(g, min_x as int, max_x as int));
        }

        let ghost xpart = x_ticks(g, min_x as int, max_x as int);
        let mut y: i128 = min_y as i128;
        while y <= max_y as i128
            invariant
                g == *self,
                g.wf(),
                min_x as int == min_x_spec(g),
                max_x as int == max_x_spec(g),
                min_y as int == min_y_spec(g),
                max_y as int == max_y_spec(g),
                xpart == x_ticks(g, min_x as int, max_x as int),
                min_y as int <= y,
                y == min_y as int || y <= max_y as int + 1,
                batch_view(out@) == xpart + y_ticks(g, min_y as int, y - 1),
            decreases max_y as int + 1 - y,
        {
            let yi = y as i64;
            let major = is_multiple_of_10(yi);
            let minor = self.scale.raw > 5_000_000;
            if major || minor {
                let start = self.convert_point_to_px(point_i64(min_x, yi));
                let end = self.convert_point_to_px(point_i64(max_x, yi));
                let mut pts: Vec<PixelPoint> = Vec::new();
                pts.push(start);
                pts.push(end);
                let class = if major {
                    StrokeClass::MajorTick
                } else {
                    StrokeClass::MinorTick
                };
                let line = Polyline { class, points: pts };
                proof {
                    assert(line@.points =~= y_line(g, y as int, class).points);
                    assert(line@ == y_line(g, y as int, class));
                }
                let ghost out_before = out@;
                out.push(line);
                proof {
                    let prev = y_ticks(g, min_y as int, y - 1);
                    let cur = y_ticks(g, min_y as int, y as int);
                    assert(cur == prev + y_tick_entry(g, y as int));
                    assert(cur =~= prev.push(line@));
                    assert(batch_view(out@) =~= (batch_view(out_before)).push(line@));
                    assert((xpart + prev).push(line@) =~= xpart + cur);
                    assert(batch_view(out@) == xpart + cur);
                }
            } else {
                proof {
                    let prev = y_ticks(g, min_y as int, y - 1);
                    let cur = y_ticks(g, min_y as int, y as int);
                    assert(cur == prev + y_tick_entry(g, y as int));
                    assert(cur =~= prev);
                    assert(batch_view(out@) == xpart + cur);
                }
            }
            y = y + 1;
        }
        proof {
            assert(batch_view(out@) =~= ticks_spec(g));
        }
        out
    }

    /// The whole grid: the axes, then every tick line.
    pub fn init_graph(&self) -> (r: Vec<Polyline>)
        requires
            self.wf(),
        ensures
            batch_view(r@) == grid_spec(*self),
    {
        let mut r = self.draw_axes();
        let mut t = self.draw_tick_marks();
        r.append(&mut t);
        proof {
            assert(batch_view(r@) =~= grid_spec(*self));
        }
        r
    }

    /// The sampling density for the current scale: the scale rounded to
    /// the nearest whole count, capped at 5000 samples per unit.
    fn points_per_unit(&self) -> (r: i64)
        requires
            self.wf(),
        ensures
            r as int == ppu_spec(*self),
            0 <= r <= 5000,
    {
        if self.scale.raw > 5_000_000_000 {
            5000
        } else {
            let capped: u64 = self.scale.raw as u64;
            let r: u64 = (capped + 500_000) / 1_000_000;
            proof {
                vstd::arithmetic::div_mod::lemma_div_is_ordered_by_denominator(
                    capped as int + 500_000,
                    1,
                    1_000_000,
                );
                vstd::arithmetic::div_mod::lemma_div_basics(capped as int + 500_000);
                vstd::arithmetic::div_mod::lemma_div_pos_is_pos(capped as int + 500_000, 1_000_000);
            }
            r as i64
        }
    }

    /// The linear fast path: exactly two samples, at the ends of the
    /// visible range.
    fn graph_linear<T: Calculate>(&self, equation: &T) -> (r: Polyline)
        requires
            self.wf(),
        ensures
            r@.class == StrokeClass::Curve,
            r@.points == linear_points(*self, *equation),
    {
        let ghost g = *self;
        let (min_x, max_x) = self.get_x_range();
        let mut pts: Vec<PixelPoint> = Vec::new();

        let x0 = Fixed::from_int(min_x);
        let y0 = equation.calc(x0);
        pts.push(self.convert_point_to_px(Point { x: x0, y: y0 }));

        let x1 = Fixed::from_int(max_x);
        let y1 = equation.calc(x1);
        pts.push(self.convert_point_to_px(Point { x: x1, y: y1 }));

        proof {
            assert(pts@.map_values(|p: PixelPoint| p@) =~= linear_points(g, *equation));
        }
        Polyline { class: StrokeClass::Curve, points: pts }
    }

    /// The polyline an equation contributes to the frame: the linear
    /// fast path when two points suffice, else one sample for every
    /// integer i in `[min_x * ppu, max_x * ppu)` at `x = i / ppu`.
    pub fn graph_poly<T: Calculate + CouldBeLinear>(&self, equation: &T) -> (r: Polyline)
        requires
            self.wf(),
        ensures
            r@ == curve_polyline(*self, *equation),
    {
        if equation.is_linear() {
            return self.graph_linear(equation);
        }
        let ghost g = *self;
        let (min_x, max_x) = self.get_x_range();
        let ppu = self.points_per_unit();
        let lo = sat_mul_i64(min_x, ppu);
        let hi = sat_mul_i64(max_x, ppu);

        let mut pts: Vec<PixelPoint> = Vec::new();
        proof {
            if ppu as int == 0 {
                assert(min_x_spec(g) * (ppu_spec(g)) == 0) by (nonlinear_arith)
                    requires
                        ppu_spec(g) == 0,
                ;
                assert(max_x_spec(g) * (ppu_spec(g)) == 0) by (nonlinear_arith)
                    requires
                        ppu_spec(g) == 0,
                ;
            }
        }
        let mut i: i64 = lo;
        while i < hi
            invariant
                g == *self,
                g.wf(),
                lo as int == sat64(min_x_spec(g) * ppu_spec(g)),
                hi as int == sat64(max_x_spec(g) * ppu_spec(g)),
                ppu as int == ppu_spec(g),
                0 <= ppu <= 5000,
                lo <= i,
                i == lo || i <= hi,
                lo < hi ==> ppu >= 1,
                pts@.map_values(|p: PixelPoint| p@) == curve_samples_upto(
                    g,
                    *equation,
                    ppu as int,
                    lo as int,
                    i - lo,
                ),
            decreases hi as int - i,
        {
            proof {
                if ppu == 0 {
                    assert(min_x_spec(g) * 0 == 0) by (nonlinear_arith);
                    assert(max_x_spec(g) * 0 == 0) by (nonlinear_arith);
                    assert(lo as int == 0 && hi as int == 0);
                }
                crate::fixed::lemma_i64_mul_fits(i as int, UNIT as int);
            }
            let xw: i128 = (i as i128) * (UNIT as i128);
            let xr = Fixed::from_raw(
                crate::fixed::clamp_to_i64(crate::fixed::div_trunc_i128(xw, ppu as i128)),
            );
            let yv = equation.calc(xr);
            let px = self.convert_point_to_px(Point { x: xr, y: yv });
            let ghost pts_before = pts@;
            pts.push(px);
            proof {
                assert(px@ == curve_sample(g, *equation, ppu as int, i as int));
                let older = curve_samples_upto(g, *equation, ppu as int, lo as int, i - lo);
                let newer = curve_samples_upto(g, *equation, ppu as int, lo as int, i + 1 - lo);
                assert(newer =~= older.push(curve_sample(g, *equation, ppu as int, i as int)));
                assert(pts@.map_values(|p: PixelPoint| p@) =~= pts_before.map_values(
                    |p: PixelPoint| p@,
                ).push(px@));
                assert(pts@.map_values(|p: PixelPoint| p@) == newer);
            }
            i = i + 1;
        }
        proof {
            assert(pts@.map_values(|p: PixelPoint| p@) =~= curve_points(g, *equation));
        }
        Polyline { class: StrokeClass::Curve, points: pts }
    }
}

/// The batch of one frame for the given view and equations: the grid
/// (axes and ticks), then one curve polyline per equation, in order.
pub open spec fn render_spec(g: Graph, eqs: Seq<crate::equation::Polynomial>) -> Seq<PolylineV> {
    grid_spec(g) + Seq::new(eqs.len(), |k: int| curve_polyline(g, eqs[k]))
}

/// Compute the full geometry of one frame: the grid for the current
/// view, then the sampled trace of each equation.
pub fn render_canvas(
    size: Viewport,
    scale: Fixed,
    offset: PixelPoint,
    equations: &Vec<crate::equation::Polynomial>,
) -> (r: Vec<Polyline>)
    requires
        scale@ > 0,
    ensures
        batch_view(r@) == render_spec((Graph { size, scale, offset }), equations@),
{
    let graph = Graph::new(size, scale, offset);
    let mut batch = graph.init_graph();
    let ghost grid_len = batch@.len();
    let mut e: usize = 0;
    while e < equations.len()
        invariant
            graph == (Graph { size, scale, offset }),
            graph.wf(),
            0 <= e <= equations@.len(),
            batch@.len() == grid_len + e,
            grid_len == grid_spec(graph).len(),
            batch_view(batch@).take(grid_len as int) == grid_spec(graph),
            forall|k: int|
                0 <= k < e ==> batch_view(batch@)[grid_len + k] == curve_polyline(
                    graph,
                    equations@[k],
                ),
        decreases equations@.len() - e,
    {
        let line = graph.graph_poly(&equations[e]);
        batch.push(line);
        e = e + 1;
    }
    proof {
        assert(batch_view(batch@) =~= render_spec(graph, equations@));
    }
    batch
}

/// The linear fast path: a linear equation's polyline holds exactly two
/// samples, whatever the view's scale and offset.
pub proof fn lemma_linear_two_samples<T: Calculate + CouldBeLinear>(g: Graph, eq: T)
    requires
        eq.is_linear_spec(),
    ensures
        curve_polyline(g, eq).points.len() == 2,
{
}

/// Coordinate bound under which the round-trip guarantee holds: one
/// million units either side of the origin.
pub const COORD_LIMIT: i64 = 1_000_000_000_000;

/// Scale bound under which the round-trip guarantee holds: one million
/// pixels per unit.
pub const SCALE_LIMIT: i64 = 1_000_000_000_000;

/// Offset bound under which the round-trip guarantee holds: one billion
/// pixels of pan either side.
pub const OFFSET_LIMIT: i64 = 1_000_000_000_000_000;

/// Round trip: mapping a math x to its pixel and back almost returns
/// it. Multiplied by the (positive) raw scale `s`, the discrepancy in
/// raw millionths lies strictly between `-(UNIT + s)` and `UNIT + s` —
/// one truncation to a whole count of micropixels going out, one to a
/// whole count of millionths coming back, so the value moves by less
/// than `(UNIT / s + 1)` millionths of a unit. The bounds on the
/// coordinate, scale and offset keep every intermediate inside the
/// representable range.
pub proof fn lemma_round_trip_x(g: Graph, x: int)
    requires
        0 < g.scale@ <= SCALE_LIMIT,
        -COORD_LIMIT <= x <= COORD_LIMIT,
        -OFFSET_LIMIT <= g.offset.x@ <= OFFSET_LIMIT,
    ensures
        g.scale@ * (from_px_x(g, to_px_x(g, x)) - x) < UNIT + g.scale@,
        -(UNIT + g.scale@) < g.scale@ * (from_px_x(g, to_px_x(g, x)) - x),
{
    let u = UNIT as int;
    let s = g.scale@;
    let zx = zero_x_spec(g);
    assert((g.size.width as int / 2) * u <= 2147483647 * 1000000);
    assert(0 <= (g.size.width as int / 2) * u);
    assert(zx == (g.size.width as int / 2) * u + g.offset.x@);

    assert(-1000000000000000000000000 <= x * s <= 1000000000000000000000000) by (nonlinear_arith)
        requires
            -1000000000000 <= x <= 1000000000000,
            0 < s <= 1000000000000,
    ;
    crate::fixed::lemma_tdiv_rem(x * s, u);
    let m = tdiv(x * s, u);
    let r1 = x * s - u * m;
    assert(-u < r1 < u);
    assert(u * m == x * s - r1);
    assert(-1000000000000000001 <= m <= 1000000000000000001);
    assert(fmul(x, s) == m);
    let px = to_px_x(g, x);
    assert(px == zx + m);
    assert(fsub(px, zx) == m);

    crate::fixed::lemma_tdiv_rem(m * u, s);
    let q2 = tdiv(m * u, s);
    let r2 = m * u - s * q2;
    assert(-s < r2 < s);
    assert(m * u == x * s - r1) by {
        vstd::arithmetic::mul::lemma_mul_is_commutative(m, u);
    };
    assert(s * q2 == x * s - r1 - r2);
    let d = q2 - x;
    assert(s * d == -(r1 + r2)) by {
        vstd::arithmetic::mul::lemma_mul_is_distributive_sub(s, q2, x);
        vstd::arithmetic::mul::lemma_mul_is_commutative(x, s);
    };
    assert(-(u + s) < s * d < u + s);
    assert(-(u + s) <= d <= u + s) by {
        if d > u + s {
            vstd::arithmetic::mul::lemma_mul_inequality(1, s, d);
            assert(s * d >= d) by {
                vstd::arithmetic::mul::lemma_mul_is_commutative(s, d);
            };
            assert(false);
        }
        if d < -(u + s) {
            vstd::arithmetic::mul::lemma_mul_inequality(1, s, -d);
            assert(s * (-d) >= -d) by {
                vstd::arithmetic::mul::lemma_mul_is_commutative(s, -d);
            };
            vstd::arithmetic::mul::lemma_mul_unary_negation(s, d);
            assert(false);
        }
    };
    assert(-2000001000001 <= q2 <= 2000001000001);
    assert(from_px_x(g, px) == q2);
}

/// The mirror-image round trip for y: the pixel map negates y twice, so
/// the same bound holds.
pub proof fn lemma_round_trip_y(g: Graph, y: int)
    requires
        0 < g.scale@ <= SCALE_LIMIT,
        -COORD_LIMIT <= y <= COORD_LIMIT,
        -OFFSET_LIMIT <= g.offset.y@ <= OFFSET_LIMIT,
    ensures
        g.scale@ * (from_px_y(g, to_px_y(g, y)) - y) < UNIT + g.scale@,
        -(UNIT + g.scale@) < g.scale@ * (from_px_y(g, to_px_y(g, y)) - y),
{
    let u = UNIT as int;
    let s = g.scale@;
    let zy = zero_y_spec(g);
    assert((g.size.height as int / 2) * u <= 2147483647 * 1000000);
    assert(0 <= (g.size.height as int / 2) * u);
    assert(zy == (g.size.height as int / 2) * u + g.offset.y@);

    assert(-1000000000000000000000000 <= y * s <= 1000000000000000000000000) by (nonlinear_arith)
        requires
            -1000000000000 <= y <= 1000000000000,
            0 < s <= 1000000000000,
    ;
    crate::fixed::lemma_tdiv_rem(y * s, u);
    let m = tdiv(y * s, u);
    let r1 = y * s - u * m;
    assert(-u < r1 < u);
    assert(-1000000000000000001 <= m <= 1000000000000000001);
    assert(fmul(y, s) == m);
    let py = to_px_y(g, y);
    assert(py == zy - m);
    assert(fsub(zy, py) == m);

    crate::fixed::lemma_tdiv_rem(m * u, s);
    let q2 = tdiv(m * u, s);
    let r2 = m * u - s * q2;
    assert(-s < r2 < s);
    assert(m * u == y * s - r1) by {
        vstd::arithmetic::mul::lemma_mul_is_commutative(m, u);
    };
    assert(s * q2 == y * s - r1 - r2);
    let d = q2 - y;
    assert(s * d == -(r1 + r2)) by {
        vstd::arithmetic::mul::lemma_mul_is_distributive_sub(s, q2, y);
        vstd::arithmetic::mul::lemma_mul_is_commutative(y, s);
    };
    assert(-(u + s) < s * d < u + s);
    assert(-(u + s) <= d <= u + s) by {
        if d > u + s {
            vstd::arithmetic::mul::lemma_mul_inequality(1, s, d);
            assert(s * d >= d) by {
                vstd::arithmetic::mul::lemma_mul_is_commutative(s, d);
            };
            assert(false);
        }
        if d < -(u + s) {
            vstd::arithmetic::mul::lemma_mul_inequality(1, s, -d);
            assert(s * (-d) >= -d) by {
                vstd::arithmetic::mul::lemma_mul_is_commutative(s, -d);
            };
            vstd::arithmetic::mul::lemma_mul_unary_negation(s, d);
            assert(false);
        }
    };
    assert(-2000001000001 <= q2 <= 2000001000001);
    assert(from_px_y(g, py) == q2);
}

/// Every vertical grid entry is a major line while minors are hidden.
proof fn lemma_x_ticks_no_minor(g: Graph, lo: int, hi: int)
    requires
        !minor_visible(g),
    ensures
        forall|k: int|
            0 <= k < x_ticks(g, lo, hi).len() ==> (#[trigger] x_ticks(g, lo, hi)[k]).class
                == StrokeClass::MajorTick,
    decreases hi + 1 - lo,
{
    if hi >= lo {
        lemma_x_ticks_no_minor(g, lo, hi - 1);
    }
}

/// Every horizontal grid entry is a major line while minors are hidden.
proof fn lemma_y_ticks_no_minor(g: Graph, lo: int, hi: int)
    requires
        !minor_visible(g),
    ensures
        forall|k: int|
            0 <= k < y_ticks(g, lo, hi).len() ==> (#[trigger] y_ticks(g, lo, hi)[k]).class
                == StrokeClass::MajorTick,
    decreases hi + 1 - lo,
{
    if hi >= lo {
        lemma_y_ticks_no_minor(g, lo, hi - 1);
    }
}

/// Tick density: at five or fewer pixels per unit no minor tick is
/// emitted — every grid line in the tick batch is a major line.
pub proof fn lemma_tick_density(g: Graph)
    requires
        g.scale@ <= 5 * UNIT,
    ensures
        forall|k: int|
            0 <= k < ticks_spec(g).len() ==> (#[trigger] ticks_spec(g)[k]).class
                == StrokeClass::MajorTick,
{
    lemma_x_ticks_no_minor(g, min_x_spec(g), max_x_spec(g));
    lemma_y_ticks_no_minor(g, min_y_spec(g), max_y_spec(g));
}

/// A multiple of ten inside the visible x range always contributes its
/// major line to the vertical ticks.
proof fn lemma_x_ticks_major_present(g: Graph, lo: int, hi: int, x: int)
    requires
        lo <= x <= hi,
        x % 10 == 0,
    ensures
        x_ticks(g, lo, hi).contains(x_line(g, x, StrokeClass::MajorTick)),
    decreases hi - x,
{
    if x == hi {
        let whole = x_ticks(g, lo, hi);
        assert(whole[whole.len() - 1] == x_line(g, x, StrokeClass::MajorTick));
    } else {
        lemma_x_ticks_major_present(g, lo, hi - 1, x);
        let prefix = x_ticks(g, lo, hi - 1);
        let k = choose|k: int|
            0 <= k < prefix.len() && prefix[k] == x_line(g, x, StrokeClass::MajorTick);
        assert(x_ticks(g, lo, hi)[k] == x_line(g, x, StrokeClass::MajorTick));
    }
}

/// A multiple of ten inside the visible y range always contributes its
/// major line to the horizontal ticks.
proof fn lemma_y_ticks_major_present(g: Graph, lo: int, hi: int, y: int)
    requires
        lo <= y <= hi,
        y % 10 == 0,
    ensures
        y_ticks(g, lo, hi).contains(y_line(g, y, StrokeClass::MajorTick)),
    decreases hi - y,
{
    if y == hi {
        let whole = y_ticks(g, lo, hi);
        assert(whole[whole.len() - 1] == y_line(g, y, StrokeClass::MajorTick));
    } else {
        lemma_y_ticks_major_present(g, lo, hi - 1, y);
        let prefix = y_ticks(g, lo, hi - 1);
        let k = choose|k: int|
            0 <= k < prefix.len() && prefix[k] == y_line(g, y, StrokeClass::MajorTick);
        assert(y_ticks(g, lo, hi)[k] == y_line(g, y, StrokeClass::MajorTick));
    }
}

/// Major ticks are always present when in range: every visible multiple
/// of ten contributes its major line, whatever the scale.
pub proof fn lemma_major_tick_present(g: Graph, x: int, y: int)
    requires
        min_x_spec(g) <= x <= max_x_spec(g),
        x % 10 == 0,
        min_y_spec(g) <= y <= max_y_spec(g),
        y % 10 == 0,
    ensures
        ticks_spec(g).contains(x_line(g, x, StrokeClass::MajorTick)),
        ticks_spec(g).contains(y_line(g, y, StrokeClass::MajorTick)),
{
    lemma_x_ticks_major_present(g, min_x_spec(g), max_x_spec(g), x);
    lemma_y_ticks_major_present(g, min_y_spec(g), max_y_spec(g), y);
    let xs = x_ticks(g, min_x_spec(g), max_x_spec(g));
    let ys = y_ticks(g, min_y_spec(g), max_y_spec(g));
    let kx = choose|k: int| 0 <= k < xs.len() && xs[k] == x_line(g, x, StrokeClass::MajorTick);
    assert(ticks_spec(g)[kx] == x_line(g, x, StrokeClass::MajorTick));
    let ky = choose|k: int| 0 <= k < ys.len() && ys[k] == y_line(g, y, StrokeClass::MajorTick);
    assert(ticks_spec(g)[xs.len() + ky] == y_line(g, y, StrokeClass::MajorTick));
}

/// The axis pair stands at the head of every grid batch, whatever the
/// scale: the x axis first, the y axis second.
pub proof fn lemma_axes_present(g: Graph)
    ensures
        grid_spec(g).len() >= 2,
        grid_spec(g)[0] == y_line(g, 0, StrokeClass::Axis),
        grid_spec(g)[1] == x_line(g, 0, StrokeClass::Axis),
{
}

} // verus!

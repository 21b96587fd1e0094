//! Points and rectangles on the screen.

use vstd::prelude::*;

use crate::arith;
use crate::arith::{Arithmetic, Model, Rounding, Screen};

verus! {

/// A point on the screen.
#[derive(Clone, Copy, Debug)]
pub struct Spot<P> {
    pub x: P,
    pub y: P,
}

/// A rectangle on the screen.
#[derive(Clone, Copy, Debug)]
pub struct Area<P> {
    pub left: P,
    pub top: P,
    pub right: P,
    pub bottom: P,
}

impl<P> Area<P> {
    /// How wide the rectangle is.
    pub open spec fn spec_width(self, n: Model<P>) -> P {
        n.minus(self.right, self.left)
    }

    /// How high the rectangle is.
    pub open spec fn spec_height(self, n: Model<P>) -> P {
        n.minus(self.bottom, self.top)
    }

    /// Whether a point lies in the rectangle, its edges included.
    pub open spec fn spec_holds(self, n: Model<P>, spot: Spot<P>) -> bool {
        n.less_eq(self.left, spot.x) && n.less_eq(spot.x, self.right) && n.less_eq(
            self.top,
            spot.y,
        ) && n.less_eq(spot.y, self.bottom)
    }
}

impl<P: Copy> Area<P> {
    /// How wide the rectangle is.
    pub fn width<A: Arithmetic<P>>(&self, a: &A) -> (width: P)
        ensures
            forall|n: Model<P>| #[trigger] arith::describes(n, *a) ==> width == self.spec_width(n),
    {
        arith::minus(a, self.right, self.left)
    }

    /// How high the rectangle is.
    pub fn height<A: Arithmetic<P>>(&self, a: &A) -> (height: P)
        ensures
            forall|n: Model<P>| #[trigger]
                arith::describes(n, *a) ==> height == self.spec_height(n),
    {
        arith::minus(a, self.bottom, self.top)
    }

    /// Whether a point lies in the rectangle, its edges included.
    pub fn holds<A: Arithmetic<P>>(&self, a: &A, spot: Spot<P>) -> (held: bool)
        ensures
            forall|n: Model<P>| #[trigger]
                arith::describes(n, *a) ==> held == self.spec_holds(n, spot),
    {
        arith::less_eq(a, self.left, spot.x) && arith::less_eq(a, spot.x, self.right)
            && arith::less_eq(a, self.top, spot.y) && arith::less_eq(a, spot.y, self.bottom)
    }
}

/// How far along a stretch a coordinate is, from zero at its start to one at its
/// end.
pub open spec fn fraction_of<P>(n: Model<P>, at: P, start: P, length: P) -> P {
    n.unit(n.over(n.minus(at, start), length))
}

/// How far along a stretch a coordinate is.
pub fn fraction<P: Copy, A: Arithmetic<P>>(a: &A, at: P, start: P, length: P) -> (f: P)
    ensures
        forall|n: Model<P>| #[trigger]
            arith::describes(n, *a) ==> f == fraction_of(n, at, start, length),
{
    arith::unit(a, arith::over(a, arith::minus(a, at, start), length))
}

/// The width of the strip at the right of the heatmap that shows the present.
pub open spec fn strip_width_of<P>(n: Model<P>, width: P) -> P {
    n.lesser(
        n.clamped(n.times(width, n.ratio(16, 100)), n.ratio(28, 1), n.ratio(88, 1)),
        n.times(width, n.ratio(4, 10)),
    )
}

/// The width of the strip at the right of the heatmap that shows the present.
pub fn live_strip_width<P: Copy, A: Arithmetic<P>>(a: &A, width: P) -> (strip: P)
    ensures
        forall|n: Model<P>| #[trigger]
            arith::describes(n, *a) ==> strip == strip_width_of(n, width),
{
    let wanted: P = arith::times(a, width, arith::ratio(a, 16, 100));
    let bounded: P = arith::clamped(a, wanted, arith::ratio(a, 28, 1), arith::ratio(a, 88, 1));
    arith::lesser(a, bounded, arith::times(a, width, arith::ratio(a, 4, 10)))
}

/// The part of the heatmap that shows the past, at least one point wide.
pub open spec fn data_area_of<P>(n: Model<P>, area: Area<P>) -> Area<P> {
    let width = area.spec_width(n);
    let data = n.greater(n.minus(width, strip_width_of(n, width)), n.ratio(1, 1));
    Area {
        left: area.left,
        top: area.top,
        right: n.plus(area.left, data),
        bottom: n.plus(area.top, area.spec_height(n)),
    }
}

/// The heatmap parted into the past and the present.
pub fn split_heatmap_rects<P: Copy, A: Arithmetic<P>>(a: &A, area: Area<P>) -> (parts: (
    Area<P>,
    Area<P>,
))
    ensures
        forall|n: Model<P>| #[trigger]
            arith::describes(n, *a) ==> parts.0 == data_area_of(n, area) && parts.1 == (Area {
                left: parts.0.right,
                ..area
            }),
{
    let width: P = area.width(a);
    let rest: P = arith::minus(a, width, live_strip_width(a, width));
    let data: P = arith::greater(a, rest, arith::ratio(a, 1, 1));
    let past = Area {
        left: area.left,
        top: area.top,
        right: arith::plus(a, area.left, data),
        bottom: arith::plus(a, area.top, area.height(a)),
    };
    let present = Area { left: past.right, top: area.top, right: area.right, bottom: area.bottom };
    (past, present)
}

/// How the room for the heatmap is shared out: the width of the price axis, the
/// size of the map, and the size of its image in pixels.
#[derive(Clone, Copy, Debug)]
pub struct HeatmapFrame<P> {
    pub axis_width: P,
    pub width: P,
    pub height: P,
    pub image_width: usize,
    pub image_height: usize,
}

/// A number of pixels, at least one and at most `most`.
pub open spec fn pixels_of<P>(n: Model<P>, length: P, most: int) -> int {
    let whole = (n.whole)(length) as int;
    if whole < 1 {
        1
    } else if whole > most {
        most
    } else {
        whole
    }
}

/// A number of pixels, at least one and at most `most`.
fn pixels<P: Copy, A: Arithmetic<P>>(a: &A, length: P, most: u16) -> (n: usize)
    requires
        most >= 1,
    ensures
        1 <= n <= most,
        forall|m: Model<P>| #[trigger]
            arith::describes(m, *a) ==> n == pixels_of(m, length, most as int),
{
    let whole: u64 = arith::whole(a, length);
    if whole < 1 {
        1
    } else if whole > most as u64 {
        most as usize
    } else {
        whole as usize
    }
}

/// How the room for the heatmap is shared out.
pub open spec fn frame_of<P>(n: Model<P>, room: Spot<P>) -> HeatmapFrame<P> {
    let axis_width = n.clamped(room.x, n.ratio(24, 1), n.ratio(70, 1));
    let width = n.greater(
        n.minus(n.minus(room.x, axis_width), n.ratio(8, 1)),
        n.ratio(24, 1),
    );
    let height = n.greater(
        n.minus(
            n.minus(n.minus(room.y, n.ratio(20, 1)), n.ratio(10, 1)),
            n.ratio(8, 1),
        ),
        n.ratio(24, 1),
    );
    HeatmapFrame {
        axis_width,
        width,
        height,
        image_width: pixels_of(n, width, 800) as usize,
        image_height: pixels_of(n, height, 600) as usize,
    }
}

/// How the room for the heatmap is shared out, given its width and height.
pub fn heatmap_frame<P: Copy, A: Arithmetic<P>>(a: &A, room: Spot<P>) -> (frame: HeatmapFrame<P>)
    ensures
        1 <= frame.image_width <= 800,
        1 <= frame.image_height <= 600,
        forall|n: Model<P>| #[trigger] arith::describes(n, *a) ==> frame == frame_of(n, room),
{
    let axis_width: P = arith::clamped(a, room.x, arith::ratio(a, 24, 1), arith::ratio(a, 70, 1));
    let beside: P = arith::minus(
        a,
        arith::minus(a, room.x, axis_width),
        arith::ratio(a, 8, 1),
    );
    let width: P = arith::greater(a, beside, arith::ratio(a, 24, 1));
    let above_axis: P = arith::minus(a, room.y, arith::ratio(a, 20, 1));
    let above_legend: P = arith::minus(a, above_axis, arith::ratio(a, 10, 1));
    let above: P = arith::minus(a, above_legend, arith::ratio(a, 8, 1));
    let height: P = arith::greater(a, above, arith::ratio(a, 24, 1));
    HeatmapFrame {
        axis_width,
        width,
        height,
        image_width: pixels(a, width, 800),
        image_height: pixels(a, height, 600),
    }
}

/// The length of a span of time in milliseconds, at least one.
pub open spec fn span_of(start_ms: u64, end_ms: u64) -> u64 {
    if end_ms > start_ms {
        (end_ms - start_ms) as u64
    } else {
        1
    }
}

/// The length of a span of time in milliseconds, at least one.
pub fn time_span(start_ms: u64, end_ms: u64) -> (span: u64)
    ensures
        span == span_of(start_ms, end_ms),
{
    if end_ms > start_ms {
        end_ms - start_ms
    } else {
        1
    }
}

/// Where a time stands across a plot that shows a span of time.
pub open spec fn time_x_of<F, P>(
    o: Screen<F, P>,
    plot: Area<P>,
    timestamp_ms: F,
    start_ms: u64,
    end_ms: u64,
) -> P {
    let m = o.fine;
    let n = o.coarse;
    let along = m.unit(
        m.over(
            m.minus(timestamp_ms, m.count(start_ms)),
            m.count(span_of(start_ms, end_ms)),
        ),
    );
    n.plus(plot.left, n.times((o.narrow)(along), plot.spec_width(n)))
}

/// Where a time stands across a plot that shows a span of time.
pub fn project_time_x<
    F: Copy,
    P: Copy,
    A: Arithmetic<F> + Arithmetic<P> + Rounding<F, P>,
>(a: &A, plot: Area<P>, timestamp_ms: F, start_ms: u64, end_ms: u64) -> (x: P)
    ensures
        forall|o: Screen<F, P>| #[trigger]
            arith::depicts(o, *a) ==> x == time_x_of(o, plot, timestamp_ms, start_ms, end_ms),
{
    let span: F = arith::count(a, time_span(start_ms, end_ms));
    let since: F = arith::minus(a, timestamp_ms, arith::count(a, start_ms));
    let along: F = arith::unit(a, arith::over(a, since, span));
    let narrow: P = arith::narrow(a, along);
    arith::plus(a, plot.left, arith::times(a, narrow, plot.width(a)))
}

/// How far down a value stands in a plot that shows values from zero to one at
/// its top.
pub open spec fn level_y_of<F, P>(o: Screen<F, P>, plot: Area<P>, level: F) -> P {
    let n = o.coarse;
    n.minus(
        plot.bottom,
        n.times((o.narrow)(o.fine.unit(level)), plot.spec_height(n)),
    )
}

/// How far down a value stands in a plot.
pub fn project_level_y<
    F: Copy,
    P: Copy,
    A: Arithmetic<F> + Arithmetic<P> + Rounding<F, P>,
>(a: &A, plot: Area<P>, level: F) -> (y: P)
    ensures
        forall|o: Screen<F, P>| #[trigger]
            arith::depicts(o, *a) ==> y == level_y_of(o, plot, level),
{
    let narrow: P = arith::narrow(a, arith::unit(a, level));
    arith::minus(a, plot.bottom, arith::times(a, narrow, plot.height(a)))
}

// ---------------------------------------------------------------------------
// Laws
// ---------------------------------------------------------------------------

/// In exact arithmetic time runs evenly across a plot, from its left edge at the
/// start of the span to its right edge at the end, and what lies beyond the span
/// stands at the edge.
pub proof fn law_time_runs_across_the_plot<F, P>(
    o: Screen<F, P>,
    v: spec_fn(F) -> real,
    u: spec_fn(P) -> real,
    plot: Area<P>,
    time: F,
    start_ms: u64,
    end_ms: u64,
)
    requires
        arith::is_exact(o.fine, v),
        arith::is_exact(o.coarse, u),
        forall|x: F| u(#[trigger] (o.narrow)(x)) == v(x),
        start_ms < end_ms,
    ensures
        ({
            let x = u(time_x_of(o, plot, time, start_ms, end_ms));
            let span = (end_ms - start_ms) as real;
            let width = u(plot.right) - u(plot.left);
            &&& start_ms as real <= v(time) <= end_ms as real ==> (x - u(plot.left)) * span == (v(
                time,
            ) - start_ms as real) * width
            &&& v(time) <= start_ms as real ==> x == u(plot.left)
            &&& v(time) >= end_ms as real ==> x == u(plot.right)
        }),
{
    let m = o.fine;
    arith::lemma_whole_number(m, v, 0);
    arith::lemma_whole_number(m, v, 1);
    let span = (end_ms - start_ms) as real;
    assert(v(m.count(span_of(start_ms, end_ms))) == span);
    assert(span == end_ms as real - start_ms as real);
    let past = v(time) - start_ms as real;
    let part = past / span;
    arith::lemma_quotient(past, span);
    let width = u(plot.right) - u(plot.left);
    assert((part * width) * span == past * width) by (nonlinear_arith)
        requires
            part * span == past,
    ;
    assert((0real <= past <= span) ==> (0real <= part <= 1real)) by (nonlinear_arith)
        requires
            part * span == past,
            span > 0real,
    ;
    assert(past <= 0real ==> part <= 0real) by (nonlinear_arith)
        requires
            part * span == past,
            span > 0real,
    ;
    assert(past >= span ==> part >= 1real) by (nonlinear_arith)
        requires
            part * span == past,
            span > 0real,
    ;
    assert(0real * width == 0real) by (nonlinear_arith);
    assert(1real * width == width) by (nonlinear_arith);
    assert(past == 0real ==> part == 0real) by (nonlinear_arith)
        requires
            part * span == past,
            span > 0real,
    ;
    assert(past == span ==> part == 1real) by (nonlinear_arith)
        requires
            part * span == past,
            span > 0real,
    ;
}

/// In exact arithmetic a value stands as far above the bottom of a plot as it is
/// of one, zero at the bottom and one at the top.
pub proof fn law_levels_rise_from_the_bottom<F, P>(
    o: Screen<F, P>,
    v: spec_fn(F) -> real,
    u: spec_fn(P) -> real,
    plot: Area<P>,
    level: F,
)
    requires
        arith::is_exact(o.fine, v),
        arith::is_exact(o.coarse, u),
        forall|x: F| u(#[trigger] (o.narrow)(x)) == v(x),
    ensures
        ({
            let up = u(plot.bottom) - u(level_y_of(o, plot, level));
            let height = u(plot.bottom) - u(plot.top);
            &&& 0real <= v(level) <= 1real ==> up == v(level) * height
            &&& v(level) <= 0real ==> up == 0real
            &&& v(level) >= 1real ==> up == height
        }),
{
    arith::lemma_whole_number(o.fine, v, 0);
    arith::lemma_whole_number(o.fine, v, 1);
    let height = u(plot.bottom) - u(plot.top);
    assert(0real * height == 0real) by (nonlinear_arith);
    assert(1real * height == height) by (nonlinear_arith);
}

} // verus!

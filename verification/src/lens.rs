//! What the heatmap looks at: a range of prices around a center and a window of
//! time, moved by the market, the wheel and the pointer.

use vstd::prelude::*;

use crate::arith;
use crate::arith::{Arithmetic, Model, Rounding, Screen};
use crate::geometry;
use crate::geometry::{Area, Spot};
use crate::picker;

verus! {

/// The levels of each side that count as the visible book.
pub const DEPTH_LEVELS: usize = 15;

/// What the heatmap looks at. A range, a window or a center of zero is one that
/// is not set.
#[derive(Clone, Copy, Debug)]
pub struct Lens<F> {
    pub price_center: F,
    pub price_center_ema: F,
    pub price_range: F,
    pub auto_center: bool,
    pub time_offset: F,
    pub time_window: F,
}

/// A lens of which nothing is set, and which follows the market.
pub open spec fn unset<F>(m: Model<F>) -> Lens<F> {
    Lens {
        price_center: m.zero(),
        price_center_ema: m.zero(),
        price_range: m.zero(),
        auto_center: true,
        time_offset: m.zero(),
        time_window: m.zero(),
    }
}

/// The multiple of the bin width that is nearest to a price; the price itself
/// where there is no width.
pub open spec fn snapped<F>(m: Model<F>, price: F, bin_width: F) -> F {
    if m.less(m.zero(), bin_width) {
        m.times(m.round(m.over(price, bin_width)), bin_width)
    } else {
        price
    }
}

/// The multiple of the bin width that is nearest to a price.
pub fn snap_price_to_bin<F: Copy, A: Arithmetic<F>>(a: &A, price: F, bin_width: F) -> (r: F)
    ensures
        forall|m: Model<F>| #[trigger]
            arith::describes(m, *a) ==> r == snapped(m, price, bin_width),
{
    if arith::less(a, arith::zero(a), bin_width) {
        let bins: F = arith::round(a, arith::over(a, price, bin_width));
        arith::times(a, bins, bin_width)
    } else {
        price
    }
}

/// The mean from which the center is smoothed: the one there is, or where it is
/// no price the center, or the middle of the market.
pub open spec fn smoothing_start<F>(m: Model<F>, lens: Lens<F>, mid: F) -> F {
    if m.less_eq(lens.price_center_ema, m.zero()) || !m.finite(lens.price_center_ema) {
        if m.less(m.zero(), lens.price_center) {
            lens.price_center
        } else {
            mid
        }
    } else {
        lens.price_center_ema
    }
}

/// The lens after it has moved three hundredths of the way to the middle of the
/// market, with its center on a bin.
pub open spec fn drawn_to_mid<F>(m: Model<F>, lens: Lens<F>, mid: F, bin_width: F) -> Lens<F> {
    if lens.auto_center && m.less(m.zero(), mid) {
        let start = smoothing_start(m, lens, mid);
        let ema = m.plus(start, m.times(m.minus(mid, start), m.ratio(3, 100)));
        Lens { price_center_ema: ema, price_center: snapped(m, ema, bin_width), ..lens }
    } else {
        lens
    }
}

/// The lens after a center that is not set has been set to the middle of the
/// market.
pub open spec fn centered<F>(m: Model<F>, lens: Lens<F>, mid: F) -> Lens<F> {
    if m.equal(lens.price_center, m.zero()) && m.less(m.zero(), mid) {
        Lens {
            price_center: mid,
            price_center_ema: if m.equal(lens.price_center_ema, m.zero()) {
                mid
            } else {
                lens.price_center_ema
            },
            ..lens
        }
    } else {
        lens
    }
}

/// The price of the level at `i`, or `other` where there is none.
pub open spec fn level_price<F>(levels: Seq<(F, F)>, i: int, other: F) -> F {
    if 0 <= i < levels.len() {
        levels[i].0
    } else {
        other
    }
}

/// The index of the last level of the visible book.
pub open spec fn deepest(len: nat) -> int {
    picker::least_index(len as int, DEPTH_LEVELS as int) - 1
}

/// The range that shows the visible book with room around it.
pub open spec fn book_range<F>(
    m: Model<F>,
    mid: F,
    bids: Seq<(F, F)>,
    asks: Seq<(F, F)>,
    tick_size: F,
) -> F {
    let best_bid = level_price(bids, 0, mid);
    let best_ask = level_price(asks, 0, mid);
    let bid_low = level_price(bids, deepest(bids.len()), best_bid);
    let ask_high = level_price(asks, deepest(asks.len()), best_ask);
    let book_span = m.abs(m.minus(best_ask, best_bid));
    let depth_span = m.greater(m.abs(m.minus(ask_high, bid_low)), book_span);
    let least = m.greater(
        m.times(tick_size, m.ratio(20, 1)),
        m.ratio(1, 1_000_000_000),
    );
    let wanted = m.greater(m.times(depth_span, m.ratio(15, 10)), least);
    m.clamped(wanted, least, m.ratio(5_000, 1))
}

/// The lens after a range that is not set has been set to show the visible book.
pub open spec fn ranged<F>(
    m: Model<F>,
    lens: Lens<F>,
    mid: F,
    bids: Seq<(F, F)>,
    asks: Seq<(F, F)>,
    tick_size: F,
) -> Lens<F> {
    if lens.auto_center && m.equal(lens.price_range, m.zero()) && m.less(m.zero(), mid) {
        Lens { price_range: book_range(m, mid, bids, asks, tick_size), ..lens }
    } else {
        lens
    }
}

/// The lens after a frame of the market.
pub open spec fn followed<F>(
    m: Model<F>,
    lens: Lens<F>,
    mid: F,
    bids: Seq<(F, F)>,
    asks: Seq<(F, F)>,
    tick_size: F,
    bin_width: F,
) -> Lens<F> {
    ranged(m, centered(m, drawn_to_mid(m, lens, mid, bin_width), mid), mid, bids, asks, tick_size)
}

/// The price of the level at `i`, or `other` where there is none.
fn price_at<F: Copy>(levels: &Vec<(F, F)>, i: usize, other: F) -> (price: F)
    ensures
        price == level_price(levels@, i as int, other),
{
    if i < levels.len() {
        levels[i].0
    } else {
        other
    }
}

/// The price of the last level of the visible book, or `other` where there is
/// none.
fn deep_price<F: Copy>(levels: &Vec<(F, F)>, other: F) -> (price: F)
    ensures
        price == level_price(levels@, deepest(levels@.len()), other),
{
    if levels.len() == 0 {
        other
    } else if levels.len() < DEPTH_LEVELS {
        levels[levels.len() - 1].0
    } else {
        levels[DEPTH_LEVELS - 1].0
    }
}

/// The lowest price that a lens shows.
pub open spec fn lowest<F>(m: Model<F>, lens: Lens<F>) -> F {
    m.minus(lens.price_center, m.over(lens.price_range, m.ratio(2, 1)))
}

/// The highest price that a lens shows.
pub open spec fn highest<F>(m: Model<F>, lens: Lens<F>) -> F {
    m.plus(lens.price_center, m.over(lens.price_range, m.ratio(2, 1)))
}

/// The factor of a turn of the wheel: in where it turns forward, else out.
pub open spec fn zoom_factor<F, P>(o: Screen<F, P>, scroll: P) -> F {
    if o.coarse.less(o.coarse.zero(), scroll) {
        o.fine.ratio(9, 10)
    } else {
        o.fine.ratio(11, 10)
    }
}

/// The lens after the wheel has turned on the price axis. The price under the
/// pointer stays where it is.
pub open spec fn price_zoomed<F, P>(
    o: Screen<F, P>,
    lens: Lens<F>,
    scroll: P,
    pointer: Option<Spot<P>>,
    top: P,
    height: P,
    tick_size: F,
) -> Lens<F> {
    let m = o.fine;
    let range = m.clamped(
        m.times(lens.price_range, zoom_factor(o, scroll)),
        m.times(tick_size, m.ratio(5, 1)),
        m.ratio(5_000, 1),
    );
    match pointer {
        Some(spot) => {
            let down = m.over((o.widen)(o.coarse.minus(spot.y, top)), (o.widen)(height));
            let low = lowest(m, lens);
            let high = highest(m, lens);
            let price = m.minus(high, m.times(down, m.minus(high, low)));
            Lens {
                price_range: range,
                price_center: m.plus(
                    m.minus(price, m.over(range, m.ratio(2, 1))),
                    m.times(down, range),
                ),
                auto_center: false,
                ..lens
            }
        },
        None => Lens { price_range: range, auto_center: false, ..lens },
    }
}

/// The window of time in seconds that a lens shows of a whole span.
pub open spec fn shown_window<F>(m: Model<F>, lens: Lens<F>, span_secs: F) -> F {
    if m.less_eq(lens.time_window, m.zero()) {
        span_secs
    } else {
        lens.time_window
    }
}

/// A window within the least and the greatest that a span allows.
pub open spec fn fit_window<F>(m: Model<F>, window: F, span_secs: F) -> F {
    let least = m.lesser(m.ratio(5, 1), span_secs);
    m.clamped(window, least, m.greater(span_secs, least))
}

/// An offset at which a window still lies within a span.
pub open spec fn fit_offset<F>(m: Model<F>, offset: F, window: F, span_secs: F) -> F {
    m.clamped(offset, m.zero(), m.greater(m.minus(span_secs, window), m.zero()))
}

/// The lens after the wheel has turned over the heatmap or the time axis. The
/// time under the pointer stays where it is, as far as the span allows.
pub open spec fn time_zoomed<F, P>(
    o: Screen<F, P>,
    lens: Lens<F>,
    scroll: P,
    pointer: Option<Spot<P>>,
    left: P,
    width: P,
    span_secs: F,
) -> Lens<F> {
    let m = o.fine;
    let before = shown_window(m, lens, span_secs);
    let window = fit_window(m, m.times(before, zoom_factor(o, scroll)), span_secs);
    let offset = match pointer {
        Some(spot) => {
            let along = (o.widen)(geometry::fraction_of(o.coarse, spot.x, left, width));
            m.plus(
                lens.time_offset,
                m.times(m.minus(m.ratio(1, 1), along), m.minus(before, window)),
            )
        },
        None => lens.time_offset,
    };
    Lens { time_offset: fit_offset(m, offset, window, span_secs), time_window: window, ..lens }
}

/// The lens after the pointer has dragged the heatmap.
pub open spec fn dragged<F, P>(
    o: Screen<F, P>,
    lens: Lens<F>,
    delta: Spot<P>,
    width: P,
    height: P,
    span_secs: F,
) -> Lens<F> {
    let m = o.fine;
    let per_pixel = m.over(lens.price_range, (o.widen)(height));
    let moved = Lens {
        price_center: m.plus(lens.price_center, m.times((o.widen)(delta.y), per_pixel)),
        auto_center: false,
        ..lens
    };
    if o.coarse.equal(delta.x, o.coarse.zero()) {
        moved
    } else {
        let window = shown_window(m, lens, span_secs);
        let secs_per_pixel = m.over(window, (o.widen)(width));
        Lens {
            time_window: window,
            time_offset: fit_offset(
                m,
                m.plus(lens.time_offset, m.times((o.widen)(delta.x), secs_per_pixel)),
                window,
                span_secs,
            ),
            ..moved
        }
    }
}

/// The lens following the market again, smoothed from where its center is.
pub open spec fn auto_centered<F>(m: Model<F>, lens: Lens<F>) -> Lens<F> {
    Lens {
        auto_center: true,
        price_center_ema: if m.less(m.zero(), lens.price_center) && m.finite(lens.price_center) {
            lens.price_center
        } else {
            lens.price_center_ema
        },
        ..lens
    }
}

/// The lens following the market again, with its range, offset and window unset.
pub open spec fn recentered<F>(m: Model<F>, lens: Lens<F>) -> Lens<F> {
    Lens {
        price_range: m.zero(),
        time_offset: m.zero(),
        time_window: m.zero(),
        ..auto_centered(m, lens)
    }
}

/// The span between two times in seconds, of at least a millisecond.
pub open spec fn span_secs_of<F>(m: Model<F>, start: F, end: F) -> F {
    m.over(m.greater(m.minus(end, start), m.ratio(1, 1)), m.ratio(1_000, 1))
}

/// The lens with its window and offset brought within a span of time.
pub open spec fn fitted<F>(m: Model<F>, lens: Lens<F>, start: F, end: F) -> Lens<F> {
    if m.less_eq(lens.time_window, m.zero()) {
        lens
    } else {
        let span_secs = span_secs_of(m, start, end);
        let window = fit_window(m, lens.time_window, span_secs);
        Lens {
            time_window: window,
            time_offset: fit_offset(m, lens.time_offset, window, span_secs),
            ..lens
        }
    }
}

/// The first and the last time in milliseconds that a fitted lens shows.
pub open spec fn shown_times<F>(m: Model<F>, lens: Lens<F>, start: F, end: F) -> (F, F) {
    if m.less_eq(lens.time_window, m.zero()) {
        (start, end)
    } else {
        let f = fitted(m, lens, start, end);
        let right = m.minus(end, m.times(f.time_offset, m.ratio(1_000, 1)));
        let left = m.minus(right, m.times(f.time_window, m.ratio(1_000, 1)));
        (m.greater(left, start), m.lesser(right, end))
    }
}

/// The factor of a turn of the wheel.
fn zoom<F: Copy, P: Copy, A: Arithmetic<F> + Arithmetic<P> + Rounding<F, P>>(a: &A, scroll: P) -> (
    factor: F)
    ensures
        forall|o: Screen<F, P>| #[trigger] arith::depicts(o, *a) ==> factor == zoom_factor(o, scroll),
{
    let zero: P = arith::zero(a);
    if arith::less(a, zero, scroll) {
        arith::ratio(a, 9, 10)
    } else {
        arith::ratio(a, 11, 10)
    }
}

impl<F: Copy> Lens<F> {
    /// A lens of which nothing is set, and which follows the market.
    pub fn new<A: Arithmetic<F>>(a: &A) -> (lens: Lens<F>)
        ensures
            forall|m: Model<F>| #[trigger] arith::describes(m, *a) ==> lens == unset(m),
    {
        let zero: F = arith::zero(a);
        Lens {
            price_center: zero,
            price_center_ema: zero,
            price_range: zero,
            auto_center: true,
            time_offset: zero,
            time_window: zero,
        }
    }

    fn draw_to_mid<A: Arithmetic<F>>(&mut self, a: &A, mid: F, bin_width: F)
        ensures
            final(self).auto_center == old(self).auto_center,
            final(self).time_offset == old(self).time_offset,
            final(self).time_window == old(self).time_window,
            forall|m: Model<F>| #[trigger]
                arith::describes(m, *a) ==> *final(self) == drawn_to_mid(
                    m,
                    *old(self),
                    mid,
                    bin_width,
                ),
    {
        let zero: F = arith::zero(a);
        if self.auto_center && arith::less(a, zero, mid) {
            let start: F = if arith::less_eq(a, self.price_center_ema, zero) || !arith::finite(
                a,
                self.price_center_ema,
            ) {
                if arith::less(a, zero, self.price_center) {
                    self.price_center
                } else {
                    mid
                }
            } else {
                self.price_center_ema
            };
            let way: F = arith::minus(a, mid, start);
            let step: F = arith::times(a, way, arith::ratio(a, 3, 100));
            self.price_center_ema = arith::plus(a, start, step);
            self.price_center = snap_price_to_bin(a, self.price_center_ema, bin_width);
        }
    }

    fn center<A: Arithmetic<F>>(&mut self, a: &A, mid: F)
        ensures
            final(self).auto_center == old(self).auto_center,
            final(self).time_offset == old(self).time_offset,
            final(self).time_window == old(self).time_window,
            forall|m: Model<F>| #[trigger]
                arith::describes(m, *a) ==> *final(self) == centered(m, *old(self), mid),
    {
        let zero: F = arith::zero(a);
        if arith::equal(a, self.price_center, zero) && arith::less(a, zero, mid) {
            self.price_center = mid;
            if arith::equal(a, self.price_center_ema, zero) {
                self.price_center_ema = mid;
            }
        }
    }

    fn set_range<A: Arithmetic<F>>(
        &mut self,
        a: &A,
        mid: F,
        bids: &Vec<(F, F)>,
        asks: &Vec<(F, F)>,
        tick_size: F,
    )
        ensures
            final(self).auto_center == old(self).auto_center,
            final(self).time_offset == old(self).time_offset,
            final(self).time_window == old(self).time_window,
            forall|m: Model<F>| #[trigger]
                arith::describes(m, *a) ==> *final(self) == ranged(
                    m,
                    *old(self),
                    mid,
                    bids@,
                    asks@,
                    tick_size,
                ),
    {
        let zero: F = arith::zero(a);
        if self.auto_center && arith::equal(a, self.price_range, zero) && arith::less(
            a,
            zero,
            mid,
        ) {
            let best_bid: F = price_at(bids, 0, mid);
            let best_ask: F = price_at(asks, 0, mid);
            let book_span: F = arith::abs(a, arith::minus(a, best_ask, best_bid));
            let bid_low: F = deep_price(bids, best_bid);
            let ask_high: F = deep_price(asks, best_ask);
            let reach: F = arith::abs(a, arith::minus(a, ask_high, bid_low));
            let depth_span: F = arith::greater(a, reach, book_span);
            let least: F = arith::greater(
                a,
                arith::times(a, tick_size, arith::ratio(a, 20, 1)),
                arith::ratio(a, 1, 1_000_000_000),
            );
            let wanted: F = arith::greater(
                a,
                arith::times(a, depth_span, arith::ratio(a, 15, 10)),
                least,
            );
            self.price_range = arith::clamped(a, wanted, least, arith::ratio(a, 5_000, 1));
        }
    }

    /// Follows a frame of the market: the middle of the book, its levels from
    /// the best on, and the width of a bin.
    pub fn follow<A: Arithmetic<F>>(
        &mut self,
        a: &A,
        mid: F,
        bids: &Vec<(F, F)>,
        asks: &Vec<(F, F)>,
        tick_size: F,
        bin_width: F,
    )
        ensures
            final(self).auto_center == old(self).auto_center,
            final(self).time_offset == old(self).time_offset,
            final(self).time_window == old(self).time_window,
            forall|m: Model<F>| #[trigger]
                arith::describes(m, *a) ==> *final(self) == followed(
                    m,
                    *old(self),
                    mid,
                    bids@,
                    asks@,
                    tick_size,
                    bin_width,
                ),
    {
        self.draw_to_mid(a, mid, bin_width);
        self.center(a, mid);
        self.set_range(a, mid, bids, asks, tick_size);
    }

    /// The lowest price in view.
    pub fn price_min<A: Arithmetic<F>>(&self, a: &A) -> (price: F)
        ensures
            forall|m: Model<F>| #[trigger] arith::describes(m, *a) ==> price == lowest(m, *self),
    {
        let half: F = arith::over(a, self.price_range, arith::ratio(a, 2, 1));
        arith::minus(a, self.price_center, half)
    }

    /// The highest price in view.
    pub fn price_max<A: Arithmetic<F>>(&self, a: &A) -> (price: F)
        ensures
            forall|m: Model<F>| #[trigger] arith::describes(m, *a) ==> price == highest(m, *self),
    {
        let half: F = arith::over(a, self.price_range, arith::ratio(a, 2, 1));
        arith::plus(a, self.price_center, half)
    }

    /// Answers a turn of the wheel on the price axis.
    pub fn apply_price_zoom_at_cursor<
        P: Copy,
        A: Arithmetic<F> + Arithmetic<P> + Rounding<F, P>,
    >(
        &mut self,
        a: &A,
        scroll: P,
        pointer: Option<Spot<P>>,
        top: P,
        height: P,
        tick_size: F,
    )
        ensures
            !final(self).auto_center,
            final(self).time_offset == old(self).time_offset,
            final(self).time_window == old(self).time_window,
            forall|o: Screen<F, P>| #[trigger]
                arith::depicts(o, *a) ==> *final(self) == price_zoomed(
                    o,
                    *old(self),
                    scroll,
                    pointer,
                    top,
                    height,
                    tick_size,
                ),
    {
        let factor: F = zoom(a, scroll);
        let least: F = arith::times(a, tick_size, arith::ratio(a, 5, 1));
        let wanted: F = arith::times(a, self.price_range, factor);
        let range: F = arith::clamped(a, wanted, least, arith::ratio(a, 5_000, 1));
        if let Some(spot) = pointer {
            let low: F = self.price_min(a);
            let high: F = self.price_max(a);
            let below_top: F = arith::widen(a, arith::minus(a, spot.y, top));
            let whole: F = arith::widen(a, height);
            let down: F = arith::over(a, below_top, whole);
            let below: F = arith::times(a, down, arith::minus(a, high, low));
            let price: F = arith::minus(a, high, below);
            let half: F = arith::over(a, range, arith::ratio(a, 2, 1));
            let new_below: F = arith::times(a, down, range);
            self.price_center = arith::plus(a, arith::minus(a, price, half), new_below);
        }
        self.price_range = range;
        self.auto_center = false;
    }

    /// The window of time in seconds in view.
    fn window<A: Arithmetic<F>>(&self, a: &A, span_secs: F) -> (window: F)
        ensures
            forall|m: Model<F>| #[trigger]
                arith::describes(m, *a) ==> window == shown_window(m, *self, span_secs),
    {
        if arith::less_eq(a, self.time_window, arith::zero(a)) {
            span_secs
        } else {
            self.time_window
        }
    }

    /// Answers a turn of the wheel over the heatmap or the time axis.
    pub fn apply_time_zoom_at_cursor<
        P: Copy,
        A: Arithmetic<F> + Arithmetic<P> + Rounding<F, P>,
    >(
        &mut self,
        a: &A,
        scroll: P,
        pointer: Option<Spot<P>>,
        data: Area<P>,
        span_secs: F,
    )
        ensures
            final(self).price_center == old(self).price_center,
            final(self).price_center_ema == old(self).price_center_ema,
            final(self).price_range == old(self).price_range,
            final(self).auto_center == old(self).auto_center,
            forall|o: Screen<F, P>| #[trigger]
                arith::depicts(o, *a) ==> *final(self) == time_zoomed(
                    o,
                    *old(self),
                    scroll,
                    pointer,
                    data.left,
                    data.spec_width(o.coarse),
                    span_secs,
                ),
    {
        let factor: F = zoom(a, scroll);
        let before: F = self.window(a, span_secs);
        let window: F = fit_window_in(a, arith::times(a, before, factor), span_secs);
        let offset: F = match pointer {
            Some(spot) => {
                let width: P = data.width(a);
                let narrow: P = geometry::fraction(a, spot.x, data.left, width);
                let along: F = arith::widen(a, narrow);
                let behind: F = arith::minus(a, arith::ratio(a, 1, 1), along);
                let change: F = arith::minus(a, before, window);
                arith::plus(a, self.time_offset, arith::times(a, behind, change))
            },
            None => self.time_offset,
        };
        self.time_offset = fit_offset_in(a, offset, window, span_secs);
        self.time_window = window;
    }

    /// Answers a drag of the heatmap, whose data is `width` wide and `height`
    /// high.
    pub fn drag<P: Copy, A: Arithmetic<F> + Arithmetic<P> + Rounding<F, P>>(
        &mut self,
        a: &A,
        delta: Spot<P>,
        width: P,
        height: P,
        span_secs: F,
    )
        ensures
            !final(self).auto_center,
            final(self).price_range == old(self).price_range,
            forall|o: Screen<F, P>| #[trigger]
                arith::depicts(o, *a) ==> *final(self) == dragged(
                    o,
                    *old(self),
                    delta,
                    width,
                    height,
                    span_secs,
                ),
    {
        let whole: F = arith::widen(a, height);
        let per_pixel: F = arith::over(a, self.price_range, whole);
        let way: F = arith::widen(a, delta.y);
        self.price_center = arith::plus(a, self.price_center, arith::times(a, way, per_pixel));
        self.auto_center = false;
        let none: P = arith::zero(a);
        if !arith::equal(a, delta.x, none) {
            let window: F = self.window(a, span_secs);
            let across: F = arith::widen(a, width);
            let secs_per_pixel: F = arith::over(a, window, across);
            let shift: F = arith::widen(a, delta.x);
            self.time_window = window;
            let offset: F = arith::plus(
                a,
                self.time_offset,
                arith::times(a, shift, secs_per_pixel),
            );
            self.time_offset = fit_offset_in(a, offset, window, span_secs);
        }
    }

    /// Follows the market again.
    pub fn enable_heatmap_auto_center<A: Arithmetic<F>>(&mut self, a: &A)
        ensures
            final(self).auto_center,
            forall|m: Model<F>| #[trigger]
                arith::describes(m, *a) ==> *final(self) == auto_centered(m, *old(self)),
    {
        self.auto_center = true;
        if arith::less(a, arith::zero(a), self.price_center) && arith::finite(
            a,
            self.price_center,
        ) {
            self.price_center_ema = self.price_center;
        }
    }

    /// Follows the market again, with range, offset and window unset.
    pub fn recenter<A: Arithmetic<F>>(&mut self, a: &A)
        ensures
            final(self).auto_center,
            forall|m: Model<F>| #[trigger]
                arith::describes(m, *a) ==> *final(self) == recentered(m, *old(self)),
    {
        self.enable_heatmap_auto_center(a);
        let zero: F = arith::zero(a);
        self.price_range = zero;
        self.time_offset = zero;
        self.time_window = zero;
    }

    /// Whether there is anything to go back to by recentering.
    pub fn is_custom<A: Arithmetic<F>>(&self, a: &A) -> (custom: bool)
        ensures
            !self.auto_center ==> custom,
            forall|m: Model<F>| #[trigger]
                arith::describes(m, *a) ==> custom == (!self.auto_center || m.less(
                    m.zero(),
                    self.time_window,
                ) || m.less(m.zero(), self.time_offset)),
    {
        let zero: F = arith::zero(a);
        !self.auto_center || arith::less(a, zero, self.time_window) || arith::less(
            a,
            zero,
            self.time_offset,
        )
    }

    /// Brings window and offset within a span of time, and returns the first and
    /// the last time in view.
    pub fn view_times<A: Arithmetic<F>>(&mut self, a: &A, start: F, end: F) -> (times: (F, F))
        ensures
            final(self).price_center == old(self).price_center,
            final(self).price_range == old(self).price_range,
            final(self).auto_center == old(self).auto_center,
            forall|m: Model<F>| #[trigger]
                arith::describes(m, *a) ==> *final(self) == fitted(m, *old(self), start, end)
                    && times == shown_times(m, *old(self), start, end),
    {
        if arith::less_eq(a, self.time_window, arith::zero(a)) {
            return (start, end);
        }
        let span_secs: F = span_secs(a, start, end);
        let thousand: F = arith::ratio(a, 1_000, 1);
        self.time_window = fit_window_in(a, self.time_window, span_secs);
        self.time_offset = fit_offset_in(a, self.time_offset, self.time_window, span_secs);
        let right: F = arith::minus(a, end, arith::times(a, self.time_offset, thousand));
        let left: F = arith::minus(a, right, arith::times(a, self.time_window, thousand));
        (arith::greater(a, left, start), arith::lesser(a, right, end))
    }
}

/// The span between two times in seconds, of at least a millisecond.
pub fn span_secs<F: Copy, A: Arithmetic<F>>(a: &A, start: F, end: F) -> (secs: F)
    ensures
        forall|m: Model<F>| #[trigger]
            arith::describes(m, *a) ==> secs == span_secs_of(m, start, end),
{
    let ms: F = arith::greater(a, arith::minus(a, end, start), arith::ratio(a, 1, 1));
    arith::over(a, ms, arith::ratio(a, 1_000, 1))
}

/// A window within the least and the greatest that a span allows.
fn fit_window_in<F: Copy, A: Arithmetic<F>>(a: &A, window: F, span_secs: F) -> (r: F)
    ensures
        forall|m: Model<F>| #[trigger]
            arith::describes(m, *a) ==> r == fit_window(m, window, span_secs),
{
    let least: F = arith::lesser(a, arith::ratio(a, 5, 1), span_secs);
    arith::clamped(a, window, least, arith::greater(a, span_secs, least))
}

/// An offset at which a window still lies within a span.
fn fit_offset_in<F: Copy, A: Arithmetic<F>>(a: &A, offset: F, window: F, span_secs: F) -> (r: F)
    ensures
        forall|m: Model<F>| #[trigger]
            arith::describes(m, *a) ==> r == fit_offset(m, offset, window, span_secs),
{
    let zero: F = arith::zero(a);
    let most: F = arith::greater(a, arith::minus(a, span_secs, window), zero);
    arith::clamped(a, offset, zero, most)
}

// ---------------------------------------------------------------------------
// Laws
// ---------------------------------------------------------------------------

/// Where numbers are ordered as numbers are, the window and the offset that a
/// lens is fitted with lie within what the span allows.
pub proof fn law_fitted_lens_lies_within_the_span<F>(
    m: Model<F>,
    lens: Lens<F>,
    start: F,
    end: F,
)
    requires
        arith::orders_numbers(m),
        !m.less_eq(lens.time_window, m.zero()),
    ensures
        ({
            let f = fitted(m, lens, start, end);
            let span = span_secs_of(m, start, end);
            let least = m.lesser(m.ratio(5, 1), span);
            let most = m.greater(span, least);
            let last = m.greater(m.minus(span, f.time_window), m.zero());
            &&& !m.less(f.time_window, least)
            &&& !m.less(most, f.time_window)
            &&& !m.less(f.time_offset, m.zero())
            &&& !m.less(last, f.time_offset)
        }),
{
}

/// Recentering twice is recentering once, and forgets every zoom and drag but
/// for the center of the prices.
pub proof fn law_recentering_forgets<F>(m: Model<F>, lens: Lens<F>, other: Lens<F>)
    requires
        lens.price_center == other.price_center,
        lens.price_center_ema == other.price_center_ema,
    ensures
        recentered(m, lens) == recentered(m, other),
        recentered(m, recentered(m, lens)) == recentered(m, lens),
{
}

/// A lens that has been moved by hand stays where it is, as long as its center is
/// set, whatever the market does.
pub proof fn law_moved_lens_ignores_the_market<F>(
    m: Model<F>,
    lens: Lens<F>,
    mid: F,
    bids: Seq<(F, F)>,
    asks: Seq<(F, F)>,
    tick_size: F,
    bin_width: F,
)
    requires
        !lens.auto_center,
        !m.equal(lens.price_center, m.zero()),
    ensures
        followed(m, lens, mid, bids, asks, tick_size, bin_width) == lens,
{
}

/// In exact arithmetic a snapped price is a multiple of the bin width, no further
/// from the price than half of it.
pub proof fn law_snapped_price_is_the_nearest_bin<F>(
    m: Model<F>,
    v: spec_fn(F) -> real,
    price: F,
    bin_width: F,
)
    requires
        arith::rounds_exactly(m, v),
        v(bin_width) > 0real,
    ensures
        ({
            let s = v(snapped(m, price, bin_width));
            let w = v(bin_width);
            &&& exists|n: int| s == (#[trigger] arith::whole_value(n)) * w
            &&& 2real * (s - v(price)) <= w
            &&& 2real * (v(price) - s) <= w
        }),
{
    arith::lemma_whole_number(m, v, 0);
    let w = v(bin_width);
    let part = v(price) / w;
    arith::lemma_quotient(v(price), w);
    let near = v(m.round(m.over(price, bin_width)));
    assert(arith::is_whole(near));
    let n = choose|n: int| near == #[trigger] arith::whole_value(n);
    assert(v(snapped(m, price, bin_width)) == arith::whole_value(n) * w);
    let p = v(price);
    assert(2real * (near * w - p) <= w) by (nonlinear_arith)
        requires
            part * w == p,
            near <= part + (1real / 2real),
            w > 0real,
    ;
    assert(2real * (p - near * w) <= w) by (nonlinear_arith)
        requires
            part * w == p,
            part - (1real / 2real) <= near,
            w > 0real,
    ;
}

/// In exact arithmetic a lens that follows the market moves three hundredths of
/// the way from where it was smoothed to the middle of the market.
pub proof fn law_followed_center_is_smoothed<F>(
    m: Model<F>,
    v: spec_fn(F) -> real,
    lens: Lens<F>,
    mid: F,
    bin_width: F,
)
    requires
        arith::is_exact(m, v),
        lens.auto_center,
        v(mid) > 0real,
        v(lens.price_center_ema) > 0real,
        m.finite(lens.price_center_ema),
    ensures
        ({
            let after = drawn_to_mid(m, lens, mid, bin_width);
            &&& 100real * (v(after.price_center_ema) - v(lens.price_center_ema)) == 3real * (v(mid)
                - v(lens.price_center_ema))
            &&& after.price_center == snapped(m, after.price_center_ema, bin_width)
            &&& after.price_range == lens.price_range
            &&& after.auto_center
        }),
{
    arith::lemma_whole_number(m, v, 0);
    arith::lemma_fraction(m, v, 3, 100);
    let part = v(m.ratio(3, 100));
    let way = v(mid) - v(lens.price_center_ema);
    assert(part * (100int as real) == 3int as real);
    assert(100real * (way * part) == 3real * way) by (nonlinear_arith)
        requires
            part * 100real == 3real,
    ;
}

/// In exact arithmetic the price under the pointer stays where it is when the
/// wheel turns on the price axis, a turn forward shows nine tenths of the range
/// and a turn back eleven tenths, as far as a range may be, and the lens no
/// longer follows the market.
pub proof fn law_price_zoom_keeps_the_pointer<F, P>(
    o: Screen<F, P>,
    v: spec_fn(F) -> real,
    u: spec_fn(P) -> real,
    lens: Lens<F>,
    scroll: P,
    spot: Spot<P>,
    top: P,
    height: P,
    tick_size: F,
)
    requires
        arith::is_exact(o.fine, v),
        arith::is_exact(o.coarse, u),
        forall|x: P| v(#[trigger] (o.widen)(x)) == u(x),
        u(height) != 0real,
    ensures
        ({
            let after = price_zoomed(o, lens, scroll, Some(spot), top, height, tick_size);
            let down = (u(spot.y) - u(top)) / u(height);
            let (old_range, range) = (v(lens.price_range), v(after.price_range));
            let old_price = v(lens.price_center) + old_range / 2real - down * old_range;
            let price = v(after.price_center) + range / 2real - down * range;
            let least = 5real * v(tick_size);
            let wanted = if u(scroll) > 0real {
                old_range * (9real / 10real)
            } else {
                old_range * (11real / 10real)
            };
            &&& price == old_price
            &&& !after.auto_center
            &&& least <= wanted <= 5_000real ==> range == wanted
            &&& least <= 5_000real ==> least <= range <= 5_000real
            &&& after.time_offset == lens.time_offset && after.time_window == lens.time_window
        }),
{
    let m = o.fine;
    arith::lemma_whole_number(o.coarse, u, 0);
    arith::lemma_whole_number(m, v, 2);
    arith::lemma_whole_number(m, v, 5);
    arith::lemma_whole_number(m, v, 5_000);
    arith::lemma_fraction(m, v, 9, 10);
    arith::lemma_fraction(m, v, 11, 10);
    assert(v(m.ratio(9, 10)) * 10real == 9real) by {
        assert(10int as real == 10real);
        assert(9int as real == 9real);
    }
    assert(v(m.ratio(11, 10)) * 10real == 11real) by {
        assert(10int as real == 10real);
        assert(11int as real == 11real);
    }
    let after = price_zoomed(o, lens, scroll, Some(spot), top, height, tick_size);
    let down = (u(spot.y) - u(top)) / u(height);
    let (a, b) = (v(lens.price_range), v(after.price_range));
    let center = v(lens.price_center);
    let high = center + a / 2real;
    let low = center - a / 2real;
    assert(high - low == a);
    assert(v(after.price_center) == (high - down * (high - low)) - b / 2real + down * b);
    let t = v(tick_size);
    assert(t * 5real == 5real * t) by (nonlinear_arith);
}

/// In exact arithmetic dragging moves the center of the prices by as much of the
/// range as the pointer has moved of the height, and stops following the market.
pub proof fn law_drag_moves_with_the_pointer<F, P>(
    o: Screen<F, P>,
    v: spec_fn(F) -> real,
    u: spec_fn(P) -> real,
    lens: Lens<F>,
    delta: Spot<P>,
    width: P,
    height: P,
    span_secs: F,
)
    requires
        arith::is_exact(o.fine, v),
        arith::is_exact(o.coarse, u),
        forall|x: P| v(#[trigger] (o.widen)(x)) == u(x),
        u(height) > 0real,
        u(width) > 0real,
    ensures
        ({
            let after = dragged(o, lens, delta, width, height, span_secs);
            let window = if v(lens.time_window) <= 0real {
                v(span_secs)
            } else {
                v(lens.time_window)
            };
            let wanted = v(lens.time_offset) * u(width) + u(delta.x) * window;
            let most = (v(span_secs) - window) * u(width);
            &&& (v(after.price_center) - v(lens.price_center)) * u(height) == u(delta.y) * v(
                lens.price_range,
            )
            &&& after.price_range == lens.price_range
            &&& !after.auto_center
            &&& u(delta.x) == 0real ==> after.time_offset == lens.time_offset && after.time_window
                == lens.time_window
            &&& u(delta.x) != 0real ==> v(after.time_window) == window
            &&& u(delta.x) != 0real && 0real <= wanted <= most ==> v(after.time_offset) * u(width)
                == wanted
        }),
{
    let m = o.fine;
    arith::lemma_whole_number(m, v, 0);
    arith::lemma_whole_number(o.coarse, u, 0);
    let (h, w) = (u(height), u(width));
    let (dy, dx) = (u(delta.y), u(delta.x));
    let range = v(lens.price_range);
    arith::lemma_quotient(range, h);
    let pixel = range / h;
    assert((dy * pixel) * h == dy * range) by (nonlinear_arith)
        requires
            pixel * h == range,
    ;
    let window = v(shown_window(m, lens, span_secs));
    arith::lemma_quotient(window, w);
    let second = window / w;
    let offset = v(lens.time_offset);
    let moved = offset + dx * second;
    assert(moved * w == offset * w + dx * window) by (nonlinear_arith)
        requires
            second * w == window,
            moved == offset + dx * second,
    ;
    let span = v(span_secs);
    let wanted = offset * w + dx * window;
    let most = (span - window) * w;
    assert(0real <= wanted <= most ==> 0real <= moved <= span - window) by (nonlinear_arith)
        requires
            moved * w == wanted,
            most == (span - window) * w,
            w > 0real,
    ;
}

/// In exact arithmetic the view of a lens with a window ends its offset before the
/// end of the span and is as long as its window, where both lie within the span.
pub proof fn law_view_is_the_window<F>(
    m: Model<F>,
    v: spec_fn(F) -> real,
    lens: Lens<F>,
    start: F,
    end: F,
)
    requires
        arith::is_exact(m, v),
        v(start) + 1real <= v(end),
        v(lens.time_offset) >= 0real,
        v(lens.time_window) >= 5real,
        (v(lens.time_offset) + v(lens.time_window)) * 1_000real <= v(end) - v(start),
    ensures
        ({
            let (left, right) = shown_times(m, lens, start, end);
            &&& v(right) == v(end) - v(lens.time_offset) * 1_000real
            &&& v(left) == v(right) - v(lens.time_window) * 1_000real
        }),
{
    arith::lemma_whole_number(m, v, 0);
    arith::lemma_whole_number(m, v, 1);
    arith::lemma_whole_number(m, v, 5);
    arith::lemma_whole_number(m, v, 1_000);
}

/// A lens without a window shows the whole span.
pub proof fn law_unset_window_shows_all<F>(m: Model<F>, lens: Lens<F>, start: F, end: F)
    requires
        m.less_eq(lens.time_window, m.zero()),
    ensures
        shown_times(m, lens, start, end) == (start, end),
{
}

/// In exact arithmetic the time under the pointer stays where it is when the wheel
/// turns over the map, as long as the new view lies within the span, and a turn
/// forward shows nine tenths of the time and a turn back eleven tenths.
pub proof fn law_time_zoom_keeps_the_pointer<F, P>(
    o: Screen<F, P>,
    v: spec_fn(F) -> real,
    u: spec_fn(P) -> real,
    lens: Lens<F>,
    scroll: P,
    spot: Spot<P>,
    left: P,
    width: P,
    span_secs: F,
)
    requires
        arith::is_exact(o.fine, v),
        arith::is_exact(o.coarse, u),
        forall|x: P| v(#[trigger] (o.widen)(x)) == u(x),
        u(width) > 0real,
        u(left) <= u(spot.x) <= u(left) + u(width),
        v(lens.time_window) > 0real,
    ensures
        ({
            let after = time_zoomed(o, lens, scroll, Some(spot), left, width, span_secs);
            let along = (u(spot.x) - u(left)) / u(width);
            let (before, window) = (v(lens.time_window), v(after.time_window));
            let wanted = if u(scroll) > 0real {
                before * (9real / 10real)
            } else {
                before * (11real / 10real)
            };
            let offset = v(lens.time_offset) + (1real - along) * (before - window);
            &&& 5real <= wanted <= v(span_secs) ==> window == wanted
            &&& 0real <= offset <= v(span_secs) - window ==> v(after.time_offset) + (1real - along)
                * window == v(lens.time_offset) + (1real - along) * before
            &&& after.price_center == lens.price_center && after.price_range == lens.price_range
        }),
{
    let m = o.fine;
    arith::lemma_whole_number(o.coarse, u, 0);
    arith::lemma_whole_number(o.coarse, u, 1);
    arith::lemma_whole_number(m, v, 0);
    arith::lemma_whole_number(m, v, 1);
    arith::lemma_whole_number(m, v, 5);
    arith::lemma_fraction(m, v, 9, 10);
    arith::lemma_fraction(m, v, 11, 10);
    assert(v(m.ratio(9, 10)) * 10real == 9real) by {
        assert(10int as real == 10real);
        assert(9int as real == 9real);
    }
    assert(v(m.ratio(11, 10)) * 10real == 11real) by {
        assert(10int as real == 10real);
        assert(11int as real == 11real);
    }
    let (w, past) = (u(width), u(spot.x) - u(left));
    arith::lemma_quotient(past, w);
    let along = past / w;
    assert(0real <= along <= 1real) by (nonlinear_arith)
        requires
            along * w == past,
            0real <= past <= w,
            w > 0real,
    ;
    let after = time_zoomed(o, lens, scroll, Some(spot), left, width, span_secs);
    let (before, window) = (v(lens.time_window), v(after.time_window));
    let rest = 1real - along;
    assert(rest * (before - window) == rest * before - rest * window) by (nonlinear_arith);
}

/// In exact arithmetic the range that is chosen for a book is within its bounds,
/// and shows the visible book with half as much again around it where they allow
/// it.
pub proof fn law_book_range_shows_the_book<F>(
    m: Model<F>,
    v: spec_fn(F) -> real,
    mid: F,
    bids: Seq<(F, F)>,
    asks: Seq<(F, F)>,
    tick_size: F,
)
    requires
        arith::is_exact(m, v),
        0 < bids.len() <= DEPTH_LEVELS,
        0 < asks.len() <= DEPTH_LEVELS,
        v(bids.last().0) <= v(bids[0].0) <= v(asks[0].0) <= v(asks.last().0),
        0real < v(tick_size) <= 1real,
    ensures
        ({
            let range = v(book_range(m, mid, bids, asks, tick_size));
            let deep = v(asks.last().0) - v(bids.last().0);
            &&& 20real * v(tick_size) <= range <= 5_000real
            &&& 3real * deep <= 10_000real ==> 2real * range >= 3real * deep
            &&& 20real * v(tick_size) <= (3real / 2real) * deep <= 5_000real && v(tick_size)
                >= (1real / 1_000real) ==> 2real * range == 3real * deep
        }),
{
    arith::lemma_whole_number(m, v, 20);
    arith::lemma_whole_number(m, v, 5_000);
    arith::lemma_fraction(m, v, 15, 10);
    arith::lemma_fraction(m, v, 1, 1_000_000_000);
    assert(v(m.ratio(15, 10)) * 10real == 15real) by {
        assert(10int as real == 10real);
        assert(15int as real == 15real);
    }
    let tiny = v(m.ratio(1, 1_000_000_000));
    assert(tiny * 1_000_000_000real == 1real) by {
        assert(1_000_000_000int as real == 1_000_000_000real);
        assert(1int as real == 1real);
    }
    assert(deepest(bids.len()) == bids.len() - 1);
    assert(deepest(asks.len()) == asks.len() - 1);
    let t = v(tick_size);
    assert(t * 20real == 20real * t) by (nonlinear_arith);
}

} // verus!

//! What is drawn over the heatmap: the latest trade, the trades in view, the
//! cell under the pointer, the labels of the axes and the figures of the frame.

use vstd::prelude::*;

use crate::arith;
use crate::arith::{fixed, Arithmetic, Model, Rounding, Screen, Style};
use crate::geometry;
use crate::geometry::{fraction, Area, Spot};
use crate::heatmap;
use crate::heatmap::{heatmap_cell_idx, price_at_row, Band, HeatGrid};
use crate::lens;
use crate::lens::Lens;
use crate::perf::PerfWindowSnapshot;
use crate::slices;
use crate::slices::{nearest_depth_slice_index_from_slices, time_range, DepthSlice};
use crate::tape;
use crate::tape::{format_hms_millis, format_price};
use crate::text;
use crate::text::digits_text;

verus! {

// ---------------------------------------------------------------------------
// The latest trade
// ---------------------------------------------------------------------------

/// The latest of the trades, the last one where several are.
pub open spec fn latest_of<F>(trades: Seq<(u64, F, F, bool)>) -> Option<(u64, F)>
    decreases trades.len(),
{
    if trades.len() == 0 {
        None
    } else {
        match latest_of(trades.drop_last()) {
            Some(found) if found.0 > trades.last().0 => Some(found),
            _ => Some((trades.last().0, trades.last().1)),
        }
    }
}

/// The time and price of the latest of the trades.
pub fn latest_trade_for_pointer<F: Copy>(trades: &Vec<(u64, F, F, bool)>) -> (latest: Option<
    (u64, F),
>)
    ensures
        latest == latest_of(trades@),
{
    let mut latest: Option<(u64, F)> = None;
    let mut i: usize = 0;
    while i < trades.len()
        invariant
            i <= trades.len(),
            latest == latest_of(trades@.take(i as int)),
        decreases trades.len() - i,
    {
        proof {
            assert(trades@.take(i as int + 1).drop_last() =~= trades@.take(i as int));
        }
        let trade: (u64, F, F, bool) = trades[i];
        latest = match latest {
            Some(found) => if found.0 > trade.0 {
                Some(found)
            } else {
                Some((trade.0, trade.1))
            },
            None => Some((trade.0, trade.1)),
        };
        i += 1;
    }
    proof {
        assert(trades@.take(trades@.len() as int) =~= trades@);
    }
    latest
}

/// No trade is later than the latest one, which is one of them.
pub proof fn law_no_trade_is_later<F>(trades: Seq<(u64, F, F, bool)>)
    ensures
        trades.len() > 0 ==> latest_of(trades) is Some,
        latest_of(trades) matches Some(found) ==> {
            &&& forall|i: int| 0 <= i < trades.len() ==> (#[trigger] trades[i]).0 <= found.0
            &&& exists|i: int|
                0 <= i < trades.len() && (#[trigger] trades[i]).0 == found.0 && trades[i].1
                    == found.1
        },
    decreases trades.len(),
{
    if trades.len() > 0 {
        let front = trades.drop_last();
        law_no_trade_is_later(front);
        let found = latest_of(trades)->0;
        match latest_of(front) {
            Some(earlier) if earlier.0 > trades.last().0 => {
                let i = choose|i: int|
                    0 <= i < front.len() && (#[trigger] front[i]).0 == earlier.0 && front[i].1
                        == earlier.1;
                assert(trades[i] == front[i]);
            },
            _ => {
                assert(trades[trades.len() - 1].0 == found.0);
            },
        }
        assert forall|i: int| 0 <= i < trades.len() implies (#[trigger] trades[i]).0
            <= found.0 by {
            if i < front.len() {
                assert(trades[i] == front[i]);
            }
        }
    }
}

/// Whether what is in view ends where the data ends, but for a tolerance.
pub open spec fn is_live<F>(m: Model<F>, view_end: F, total_end: F, tolerance_ms: F) -> bool {
    m.less_eq(view_end, total_end) && m.less_eq(
        m.minus(total_end, view_end),
        m.greater(tolerance_ms, m.zero()),
    )
}

/// Whether what is in view ends where the data ends, but for a tolerance.
pub fn is_live_time_view<F: Copy, A: Arithmetic<F>>(
    a: &A,
    view_end: F,
    total_end: F,
    tolerance_ms: F,
) -> (live: bool)
    ensures
        forall|m: Model<F>| #[trigger]
            arith::describes(m, *a) ==> live == is_live(m, view_end, total_end, tolerance_ms),
{
    let tolerance: F = arith::greater(a, tolerance_ms, arith::zero(a));
    arith::less_eq(a, view_end, total_end) && arith::less_eq(
        a,
        arith::minus(a, total_end, view_end),
        tolerance,
    )
}

/// The price on which a lens that does not follow the market is centered: that
/// of the latest trade while the present is in view.
pub open spec fn trade_center<F>(m: Model<F>, live: bool, latest: Option<(u64, F)>) -> Option<F> {
    match latest {
        Some(trade) if live && m.finite(trade.1) => Some(trade.1),
        _ => None,
    }
}

/// The price on which a lens that does not follow the market is centered.
pub fn latest_trade_auto_center_price<F: Copy, A: Arithmetic<F>>(
    a: &A,
    live: bool,
    latest: Option<(u64, F)>,
) -> (price: Option<F>)
    ensures
        !live || latest is None ==> price is None,
        forall|m: Model<F>| #[trigger]
            arith::describes(m, *a) ==> price == trade_center(m, live, latest),
{
    if !live {
        return None;
    }
    match latest {
        Some(trade) => if arith::finite(a, trade.1) {
            Some(trade.1)
        } else {
            None
        },
        None => None,
    }
}

/// The difference of one and the next greater number.
pub open spec fn epsilon<F>(m: Model<F>) -> F {
    m.ratio(1, 4_503_599_627_370_496)
}

/// How far down a price stands in a range, if it does.
pub open spec fn depth_of<F, P>(o: Screen<F, P>, price: F, low: F, high: F) -> Option<P> {
    let m = o.fine;
    if !m.finite(price) || !m.finite(low) || !m.finite(high) || m.less(price, low) || m.less(
        high,
        price,
    ) || m.less_eq(m.minus(high, low), epsilon(m)) {
        None
    } else {
        Some((o.narrow)(m.over(m.minus(high, price), m.minus(high, low))))
    }
}

/// How far down a price stands in a range, if it does.
pub fn pointer_y_fraction<F: Copy, P: Copy, A: Arithmetic<F> + Arithmetic<P> + Rounding<F, P>>(
    a: &A,
    price: F,
    low: F,
    high: F,
) -> (down: Option<P>)
    ensures
        forall|o: Screen<F, P>| #[trigger]
            arith::depicts(o, *a) ==> down == depth_of(o, price, low, high),
{
    if !arith::finite(a, price) || !arith::finite(a, low) || !arith::finite(a, high) {
        return None;
    }
    if arith::less(a, price, low) || arith::less(a, high, price) {
        return None;
    }
    let span: F = arith::minus(a, high, low);
    if arith::less_eq(a, span, arith::ratio(a, 1, 4_503_599_627_370_496)) {
        return None;
    }
    Some(arith::narrow(a, arith::over(a, arith::minus(a, high, price), span)))
}

/// The mark of the latest trade: how far along and down it stands, and its
/// price.
#[derive(Clone, Copy, Debug)]
pub struct TradeMark<F, P> {
    pub along: P,
    pub down: P,
    pub price: F,
}

/// The mark of the latest trade, while the present is in view.
pub open spec fn mark_of<F, P>(
    o: Screen<F, P>,
    lens: Lens<F>,
    live: bool,
    latest: Option<(u64, F)>,
    start: F,
    end: F,
) -> Option<TradeMark<F, P>> {
    let m = o.fine;
    match latest {
        Some(trade) if live => match depth_of(
            o,
            trade.1,
            lens::lowest(m, lens),
            lens::highest(m, lens),
        ) {
            Some(down) => Some(
                TradeMark {
                    along: (o.narrow)(
                        m.unit(
                            m.over(
                                m.minus(m.count(trade.0), start),
                                heatmap::view_span(m, start, end),
                            ),
                        ),
                    ),
                    down,
                    price: trade.1,
                },
            ),
            None => None,
        },
        _ => None,
    }
}

/// The mark of the latest trade, while the present is in view.
pub fn last_trade_mark<F: Copy, P: Copy, A: Arithmetic<F> + Arithmetic<P> + Rounding<F, P>>(
    a: &A,
    lens: Lens<F>,
    live: bool,
    latest: Option<(u64, F)>,
    start: F,
    end: F,
) -> (mark: Option<TradeMark<F, P>>)
    ensures
        !live || latest is None ==> mark is None,
        forall|o: Screen<F, P>| #[trigger]
            arith::depicts(o, *a) ==> mark == mark_of(o, lens, live, latest, start, end),
{
    if !live {
        return None;
    }
    match latest {
        Some(trade) => {
            let down: Option<P> = pointer_y_fraction(
                a,
                trade.1,
                lens.price_min(a),
                lens.price_max(a),
            );
            match down {
                Some(down) => {
                    let span: F = arith::greater(
                        a,
                        arith::minus(a, end, start),
                        arith::ratio(a, 1, 1),
                    );
                    let since: F = arith::minus(a, arith::count(a, trade.0), start);
                    let along: F = arith::unit(a, arith::over(a, since, span));
                    Some(TradeMark { along: arith::narrow(a, along), down, price: trade.1 })
                },
                None => None,
            }
        },
        None => None,
    }
}

// ---------------------------------------------------------------------------
// Trades in view
// ---------------------------------------------------------------------------

/// The dot of a trade.
#[derive(Clone, Copy, Debug)]
pub struct TradeDot<P> {
    pub spot: Spot<P>,
    pub radius: P,
    pub is_buy: bool,
}

/// The quantities of the trades.
pub open spec fn quantities<F>(trades: Seq<(u64, F, F, bool)>) -> Seq<F> {
    Seq::new(trades.len(), |i: int| trades[i].2)
}

/// What the dots of the trades are drawn in: prices, times and the map.
#[derive(Clone, Copy, Debug)]
pub struct DotFrame<F, P> {
    pub low: F,
    pub high: F,
    pub start: F,
    pub end: F,
    pub data: Area<P>,
    pub top: P,
    pub height: P,
}

/// The dot of a trade, if it is in view.
pub open spec fn dot_of<F, P>(
    o: Screen<F, P>,
    frame: DotFrame<F, P>,
    most: F,
    trade: (u64, F, F, bool),
) -> Option<TradeDot<P>> {
    let m = o.fine;
    let n = o.coarse;
    let t = m.count(trade.0);
    if m.less(t, frame.start) || m.less(frame.end, t) || m.less(trade.1, frame.low) || m.less(
        frame.high,
        trade.1,
    ) {
        None
    } else {
        let along = (o.narrow)(
            m.over(m.minus(t, frame.start), heatmap::view_span(m, frame.start, frame.end)),
        );
        let down = (o.narrow)(
            m.over(m.minus(frame.high, trade.1), m.minus(frame.high, frame.low)),
        );
        Some(
            TradeDot {
                spot: Spot {
                    x: n.plus(frame.data.left, n.times(along, frame.data.spec_width(n))),
                    y: n.plus(frame.top, n.times(down, frame.height)),
                },
                radius: if m.less(m.zero(), most) {
                    n.plus(
                        n.ratio(2, 1),
                        n.times((o.narrow)(m.over(trade.2, most)), n.ratio(5, 1)),
                    )
                } else {
                    n.ratio(3, 1)
                },
                is_buy: trade.3,
            },
        )
    }
}

/// The dots of the trades in view.
pub open spec fn dots_of<F, P>(
    o: Screen<F, P>,
    frame: DotFrame<F, P>,
    most: F,
    trades: Seq<(u64, F, F, bool)>,
) -> Seq<TradeDot<P>>
    decreases trades.len(),
{
    if trades.len() == 0 {
        Seq::empty()
    } else {
        let rest = dots_of(o, frame, most, trades.drop_last());
        match dot_of(o, frame, most, trades.last()) {
            Some(dot) => rest.push(dot),
            None => rest,
        }
    }
}

/// The dot of a trade, if it is in view.
fn trade_dot<F: Copy, P: Copy, A: Arithmetic<F> + Arithmetic<P> + Rounding<F, P>>(
    a: &A,
    frame: DotFrame<F, P>,
    most: F,
    trade: (u64, F, F, bool),
) -> (dot: Option<TradeDot<P>>)
    ensures
        forall|o: Screen<F, P>| #[trigger]
            arith::depicts(o, *a) ==> dot == dot_of(o, frame, most, trade),
{
    let t: F = arith::count(a, trade.0);
    if arith::less(a, t, frame.start) || arith::less(a, frame.end, t) {
        return None;
    }
    if arith::less(a, trade.1, frame.low) || arith::less(a, frame.high, trade.1) {
        return None;
    }
    let span: F = arith::greater(
        a,
        arith::minus(a, frame.end, frame.start),
        arith::ratio(a, 1, 1),
    );
    let since: F = arith::minus(a, t, frame.start);
    let along: P = arith::narrow(a, arith::over(a, since, span));
    let below: F = arith::minus(a, frame.high, trade.1);
    let range: F = arith::minus(a, frame.high, frame.low);
    let down: P = arith::narrow(a, arith::over(a, below, range));
    let x: P = arith::plus(a, frame.data.left, arith::times(a, along, frame.data.width(a)));
    let y: P = arith::plus(a, frame.top, arith::times(a, down, frame.height));
    let zero: F = arith::zero(a);
    let radius: P = if arith::less(a, zero, most) {
        let size: P = arith::narrow(a, arith::over(a, trade.2, most));
        let more: P = arith::times(a, size, arith::ratio(a, 5, 1));
        arith::plus(a, arith::ratio(a, 2, 1), more)
    } else {
        arith::ratio(a, 3, 1)
    };
    Some(TradeDot { spot: Spot { x, y }, radius, is_buy: trade.3 })
}

/// The dots of the trades in view, the greater a trade the greater its dot.
pub fn trade_dots<F: Copy, P: Copy, A: Arithmetic<F> + Arithmetic<P> + Rounding<F, P>>(
    a: &A,
    frame: DotFrame<F, P>,
    trades: &Vec<(u64, F, F, bool)>,
) -> (dots: Vec<TradeDot<P>>)
    ensures
        dots.len() <= trades.len(),
        forall|o: Screen<F, P>| #[trigger]
            arith::depicts(o, *a) ==> dots@ == dots_of(
                o,
                frame,
                o.fine.peak(quantities(trades@)),
                trades@,
            ),
{
    let mut sizes: Vec<F> = Vec::new();
    let mut i: usize = 0;
    while i < trades.len()
        invariant
            i <= trades.len(),
            sizes@ == quantities(trades@).take(i as int),
        decreases trades.len() - i,
    {
        sizes.push(trades[i].2);
        proof {
            assert(quantities(trades@).take(i as int).push(trades@[i as int].2) =~= quantities(
                trades@,
            ).take(i as int + 1));
        }
        i += 1;
    }
    proof {
        assert(quantities(trades@).take(trades@.len() as int) =~= quantities(trades@));
    }
    let most: F = arith::peak(a, &sizes);
    let mut dots: Vec<TradeDot<P>> = Vec::new();
    let mut k: usize = 0;
    while k < trades.len()
        invariant
            k <= trades.len(),
            dots.len() <= k,
            forall|o: Screen<F, P>| #[trigger]
                arith::depicts(o, *a) ==> dots@ == dots_of(o, frame, most, trades@.take(k as int)),
        decreases trades.len() - k,
    {
        proof {
            assert(trades@.take(k as int + 1).drop_last() =~= trades@.take(k as int));
        }
        if let Some(dot) = trade_dot(a, frame, most, trades[k]) {
            dots.push(dot);
        }
        k += 1;
    }
    proof {
        assert(trades@.take(trades@.len() as int) =~= trades@);
    }
    dots
}

// ---------------------------------------------------------------------------
// The cell under the pointer
// ---------------------------------------------------------------------------

/// A cell of the heatmap.
#[derive(Clone, Copy, Debug)]
pub struct HoverCell<F> {
    pub slice_idx: usize,
    pub row: usize,
    pub timestamp_ms: u64,
    pub price: F,
}

/// Where the heatmap is and what it shows.
#[derive(Clone, Copy, Debug)]
pub struct HeatmapHoverLookup<F, P> {
    pub data: Area<P>,
    pub height: P,
    pub view_start: F,
    pub view_end: F,
    pub rows: usize,
}

/// Whether the pointer can be over a cell.
pub open spec fn can_hover<F, P>(
    o: Screen<F, P>,
    lens: Lens<F>,
    lookup: HeatmapHoverLookup<F, P>,
    slices_len: nat,
    pointer: Spot<P>,
) -> bool {
    let n = o.coarse;
    &&& slices_len > 0
    &&& lookup.rows > 0
    &&& !n.less_eq(lookup.data.spec_width(n), n.zero())
    &&& !n.less_eq(lookup.height, n.zero())
    &&& lookup.data.spec_holds(n, pointer)
    &&& heatmap::has_reach(
        o.fine,
        heatmap::band_of(o.fine, lens, lookup.rows, o.fine.zero()),
    )
}

/// The time under the pointer.
pub open spec fn hover_time<F, P>(
    o: Screen<F, P>,
    lookup: HeatmapHoverLookup<F, P>,
    pointer: Spot<P>,
) -> u64 {
    let m = o.fine;
    let n = o.coarse;
    let along = geometry::fraction_of(
        n,
        pointer.x,
        lookup.data.left,
        lookup.data.spec_width(n),
    );
    let span = heatmap::view_span(m, lookup.view_start, lookup.view_end);
    (m.whole)(
        m.greater(m.plus(lookup.view_start, m.times((o.widen)(along), span)), m.zero()),
    )
}

/// The row under the pointer.
pub open spec fn hover_row<F, P>(
    o: Screen<F, P>,
    lookup: HeatmapHoverLookup<F, P>,
    pointer: Spot<P>,
) -> int {
    let n = o.coarse;
    let down = geometry::fraction_of(n, pointer.y, lookup.data.top, lookup.height);
    let row = (n.whole)(n.times(down, n.count(lookup.rows as u64))) as int;
    if row < lookup.rows {
        row
    } else {
        lookup.rows - 1
    }
}

/// The cell under the pointer, if there is one: the slice nearest to the time
/// and the row of the price.
pub fn hover_cell_from_pointer<
    F: Copy,
    P: Copy,
    A: Arithmetic<F> + Arithmetic<P> + Rounding<F, P>,
>(
    a: &A,
    lens: Lens<F>,
    list: &Vec<DepthSlice<F>>,
    lookup: HeatmapHoverLookup<F, P>,
    pointer: Spot<P>,
) -> (cell: Option<HoverCell<F>>)
    ensures
        cell matches Some(c) ==> c.slice_idx < list.len() && c.row < lookup.rows
            && c.timestamp_ms == list@[c.slice_idx as int].timestamp_ms,
        forall|o: Screen<F, P>| #[trigger]
            arith::depicts(o, *a) ==> {
                &&& cell is Some <==> can_hover(o, lens, lookup, list@.len(), pointer)
                &&& cell matches Some(c) ==> {
                    &&& c.row == hover_row(o, lookup, pointer)
                    &&& c.price == heatmap::row_price(
                        o.fine,
                        heatmap::band_of(o.fine, lens, lookup.rows, o.fine.zero()),
                        c.row,
                    )
                    &&& slices::is_ascending(slices::times(list@)) ==> slices::is_nearest(
                        slices::times(list@),
                        hover_time(o, lookup, pointer),
                        c.slice_idx as int,
                    )
                }
            },
{
    let none: P = arith::zero(a);
    let zero: F = arith::zero(a);
    let width: P = lookup.data.width(a);
    if list.len() == 0 || lookup.rows == 0 || arith::less_eq(a, width, none) || arith::less_eq(
        a,
        lookup.height,
        none,
    ) || !lookup.data.holds(a, pointer) {
        return None;
    }
    let band = Band {
        low: lens.price_min(a),
        high: lens.price_max(a),
        rows: lookup.rows,
        min_qty: zero,
    };
    let range: F = arith::minus(a, band.high, band.low);
    if !arith::finite(a, range) || arith::less_eq(a, range, zero) {
        return None;
    }
    let span: F = arith::greater(
        a,
        arith::minus(a, lookup.view_end, lookup.view_start),
        arith::ratio(a, 1, 1),
    );
    let along: F = arith::widen(a, fraction(a, pointer.x, lookup.data.left, width));
    let at: F = arith::plus(a, lookup.view_start, arith::times(a, along, span));
    let hover_ts: u64 = arith::whole(a, arith::greater(a, at, zero));
    let slice_idx: usize = nearest_depth_slice_index_from_slices(list, hover_ts);
    let down: P = fraction(a, pointer.y, lookup.data.top, lookup.height);
    let rows: P = arith::count(a, lookup.rows as u64);
    let whole: u64 = arith::whole(a, arith::times(a, down, rows));
    let row: usize = if whole < lookup.rows as u64 {
        whole as usize
    } else {
        lookup.rows - 1
    };
    Some(
        HoverCell {
            slice_idx,
            row,
            timestamp_ms: list[slice_idx].timestamp_ms,
            price: price_at_row(a, band, row),
        },
    )
}

/// What is told of the cell under the pointer.
#[derive(Debug)]
pub struct HoverText {
    pub time: String,
    pub price: String,
    pub size: String,
    pub notional: String,
}

/// What rests in a cell of both sides together.
pub open spec fn cell_size<F, P>(o: Screen<F, P>, bid: P, ask: P) -> F {
    o.fine.plus((o.widen)(bid), (o.widen)(ask))
}

/// Whether the texts tell of a cell.
pub open spec fn is_hover_text<F, P>(
    o: Screen<F, P>,
    cell: HoverCell<F>,
    bid: P,
    ask: P,
    decimals: usize,
    told: HoverText,
) -> bool {
    let m = o.fine;
    let size = cell_size(o, bid, ask);
    &&& told.time@ == "Time: "@ + tape::clock_text(cell.timestamp_ms)
    &&& told.price@ == "Price: "@ + (m.text)(cell.price, Style::Fixed(decimals))
    &&& told.size@ == "Size: "@ + (m.text)(size, Style::Fixed(4))
    &&& told.notional@ == "Notional: "@ + (m.text)(m.times(size, cell.price), Style::Fixed(2))
}

/// A label and a value behind it.
fn labelled(label: &str, value: &str) -> (line: String)
    ensures
        line@ == label@ + value@,
{
    let mut line: String = label.to_string();
    line.append(value);
    line
}

/// What is told of the cell under the pointer. A cell that the grid does not
/// have is empty.
pub fn hover_text<F: Copy, P: Copy, A: Arithmetic<F> + Arithmetic<P> + Rounding<F, P>>(
    a: &A,
    grid: &HeatGrid<P>,
    cell: HoverCell<F>,
    rows: usize,
    decimals: usize,
) -> (told: HoverText)
    requires
        cell.slice_idx * rows + cell.row <= usize::MAX,
    ensures
        forall|o: Screen<F, P>| #[trigger]
            arith::depicts(o, *a) ==> {
                let idx = cell.slice_idx * rows + cell.row;
                let bid = if 0 <= idx < grid.bid_qty@.len() {
                    grid.bid_qty@[idx]
                } else {
                    o.coarse.zero()
                };
                let ask = if 0 <= idx < grid.ask_qty@.len() {
                    grid.ask_qty@[idx]
                } else {
                    o.coarse.zero()
                };
                is_hover_text(o, cell, bid, ask, decimals, told)
            },
{
    let idx: usize = heatmap_cell_idx(cell.slice_idx, cell.row, rows);
    let (bid, ask): (P, P) = grid.cell(a, idx);
    let bids: F = arith::widen(a, bid);
    let asks: F = arith::widen(a, ask);
    let size: F = arith::plus(a, bids, asks);
    let notional: F = arith::times(a, size, cell.price);
    HoverText {
        time: labelled("Time: ", &format_hms_millis(cell.timestamp_ms)),
        price: labelled("Price: ", &format_price(a, cell.price, decimals)),
        size: labelled("Size: ", &arith::text(a, size, Style::Fixed(4))),
        notional: labelled("Notional: ", &arith::text(a, notional, Style::Fixed(2))),
    }
}

// ---------------------------------------------------------------------------
// Axes
// ---------------------------------------------------------------------------

/// The first and the last time of the slices as numbers, if there is one.
pub fn depth_time_bounds<F: Copy, A: Arithmetic<F>>(a: &A, list: &Vec<DepthSlice<F>>) -> (bounds:
    Option<(F, F)>)
    ensures
        bounds is Some <==> list.len() > 0,
        forall|m: Model<F>| #[trigger]
            arith::describes(m, *a) ==> (bounds matches Some(b) ==> b.0 == m.count(
                slices::times(list@)[0],
            ) && b.1 == m.count(slices::times(list@).last())),
{
    match time_range(list) {
        Some((start, end)) => Some((arith::count(a, start), arith::count(a, end))),
        None => None,
    }
}

/// The time of day of a time in seconds.
pub open spec fn day_text(secs: u64) -> Seq<char> {
    text::digits(secs as nat / 3_600 % 24, 2) + ":"@ + text::digits(secs as nat / 60 % 60, 2)
        + ":"@ + text::digits(secs as nat % 60, 2)
}

/// The time of day of a time in seconds.
pub fn format_hms(secs: u64) -> (clock: String)
    ensures
        clock@ == day_text(secs),
{
    let mut clock: String = digits_text(((secs / 3_600) % 24) as u128, 2);
    clock.append(":");
    clock.append(&digits_text(((secs / 60) % 60) as u128, 2));
    clock.append(":");
    clock.append(&digits_text((secs % 60) as u128, 2));
    clock
}

/// A label of an axis and how far along the axis it stands.
#[derive(Debug)]
pub struct AxisLabel<P> {
    pub at: P,
    pub label: String,
}

/// Whether a label of the price axis, the `i`-th of nine from the top, says the
/// price that it stands at.
pub open spec fn is_price_label<F, P>(
    o: Screen<F, P>,
    lens: Lens<F>,
    decimals: usize,
    i: u64,
    label: AxisLabel<P>,
) -> bool {
    let m = o.fine;
    let n = o.coarse;
    let low = lens::lowest(m, lens);
    let high = lens::highest(m, lens);
    &&& label.at == n.over(n.count(i), n.count(8))
    &&& label.label@ == (m.text)(
        m.minus(high, m.times((o.widen)(label.at), m.minus(high, low))),
        Style::Fixed(decimals),
    )
}

/// The nine labels of the price axis, from the top down.
pub fn price_labels<F: Copy, P: Copy, A: Arithmetic<F> + Arithmetic<P> + Rounding<F, P>>(
    a: &A,
    lens: Lens<F>,
    decimals: usize,
) -> (labels: Vec<AxisLabel<P>>)
    ensures
        labels.len() == 9,
        forall|o: Screen<F, P>, i: int|
            #![trigger arith::depicts(o, *a), labels@[i]]
            arith::depicts(o, *a) && 0 <= i < 9 ==> is_price_label(
                o,
                lens,
                decimals,
                i as u64,
                labels@[i],
            ),
{
    let low: F = lens.price_min(a);
    let high: F = lens.price_max(a);
    let range: F = arith::minus(a, high, low);
    let last: P = arith::count(a, 8);
    let mut labels: Vec<AxisLabel<P>> = Vec::new();
    let mut i: u64 = 0;
    while i < 9
        invariant
            i <= 9,
            labels.len() == i,
            forall|o: Screen<F, P>| #[trigger]
                arith::depicts(o, *a) ==> high == lens::highest(o.fine, lens) && range
                    == o.fine.minus(high, lens::lowest(o.fine, lens)) && last == o.coarse.count(8),
            forall|o: Screen<F, P>, k: int|
                #![trigger arith::depicts(o, *a), labels@[k]]
                arith::depicts(o, *a) && 0 <= k < i ==> is_price_label(
                    o,
                    lens,
                    decimals,
                    k as u64,
                    labels@[k],
                ),
        decreases 9 - i,
    {
        let at: P = arith::over(a, arith::count(a, i), last);
        let down: F = arith::widen(a, at);
        let price: F = arith::minus(a, high, arith::times(a, down, range));
        labels.push(AxisLabel { at, label: format_price(a, price, decimals) });
        i += 1;
    }
    labels
}

/// Whether a label of the time axis, the `i`-th of seven from the left, says the
/// time that it stands at.
pub open spec fn is_time_label<F, P>(
    o: Screen<F, P>,
    start: F,
    end: F,
    i: u64,
    label: AxisLabel<P>,
) -> bool {
    let m = o.fine;
    let along = m.over(m.count(i), m.count(6));
    let t = m.plus(start, m.times(along, heatmap::view_span(m, start, end)));
    &&& label.at == (o.narrow)(along)
    &&& label.label@ == day_text((m.whole)(m.over(t, m.ratio(1_000, 1))))
}

/// The seven labels of the time axis, from the left.
pub fn time_labels<F: Copy, P: Copy, A: Arithmetic<F> + Arithmetic<P> + Rounding<F, P>>(
    a: &A,
    start: F,
    end: F,
) -> (labels: Vec<AxisLabel<P>>)
    ensures
        labels.len() == 7,
        forall|o: Screen<F, P>, i: int|
            #![trigger arith::depicts(o, *a), labels@[i]]
            arith::depicts(o, *a) && 0 <= i < 7 ==> is_time_label(
                o,
                start,
                end,
                i as u64,
                labels@[i],
            ),
{
    let span: F = arith::greater(a, arith::minus(a, end, start), arith::ratio(a, 1, 1));
    let last: F = arith::count(a, 6);
    let thousand: F = arith::ratio(a, 1_000, 1);
    let mut labels: Vec<AxisLabel<P>> = Vec::new();
    let mut i: u64 = 0;
    while i < 7
        invariant
            i <= 7,
            labels.len() == i,
            forall|o: Screen<F, P>| #[trigger]
                arith::depicts(o, *a) ==> span == heatmap::view_span(o.fine, start, end) && last
                    == o.fine.count(6) && thousand == o.fine.ratio(1_000, 1),
            forall|o: Screen<F, P>, k: int|
                #![trigger arith::depicts(o, *a), labels@[k]]
                arith::depicts(o, *a) && 0 <= k < i ==> is_time_label(
                    o,
                    start,
                    end,
                    k as u64,
                    labels@[k],
                ),
        decreases 7 - i,
    {
        let along: F = arith::over(a, arith::count(a, i), last);
        let t: F = arith::plus(a, start, arith::times(a, along, span));
        let secs: u64 = arith::whole(a, arith::over(a, t, thousand));
        labels.push(AxisLabel { at: arith::narrow(a, along), label: format_hms(secs) });
        i += 1;
    }
    labels
}

// ---------------------------------------------------------------------------
// A frame of the heatmap
// ---------------------------------------------------------------------------

/// What decides how the image of the heatmap looks: the slices, its size, and
/// the lens and the least quantity as bits.
#[derive(Clone, Copy, Debug, PartialEq, Eq, Structural)]
pub struct HeatmapRenderKey {
    pub depth_history_epoch: u64,
    pub image_width: usize,
    pub image_height: usize,
    pub price_center_bits: u64,
    pub price_range_bits: u64,
    pub time_offset_bits: u64,
    pub time_window_bits: u64,
    pub min_qty_bits: u64,
}

/// Whether the image has to be made anew: there is none, or something has
/// changed that decides how it looks.
pub fn needs_rebuild(last: Option<HeatmapRenderKey>, key: HeatmapRenderKey) -> (stale: bool)
    ensures
        stale == (last != Some(key)),
{
    match last {
        Some(before) => before != key,
        None => true,
    }
}

/// What a frame of the heatmap shows.
#[derive(Clone, Copy, Debug)]
pub struct HeatmapView<F> {
    pub start: F,
    pub end: F,
    pub span_secs: F,
    pub live: bool,
    pub latest: Option<(u64, F)>,
}

/// What a frame of the heatmap shows of slices from `first` to `last`.
pub open spec fn view_of<F>(
    m: Model<F>,
    lens: Lens<F>,
    first: u64,
    last: u64,
    trades: Seq<(u64, F, F, bool)>,
) -> HeatmapView<F> {
    let (start, end) = lens::shown_times(m, lens, m.count(first), m.count(last));
    HeatmapView {
        start,
        end,
        span_secs: lens::span_secs_of(m, m.count(first), m.count(last)),
        live: is_live(m, end, m.count(last), m.ratio(1, 1)),
        latest: latest_of(trades),
    }
}

/// The lens after a frame: fitted to the slices, and centered on the latest
/// trade where it does not follow the market and the present is in view.
pub open spec fn lens_after<F>(
    m: Model<F>,
    lens: Lens<F>,
    first: u64,
    last: u64,
    trades: Seq<(u64, F, F, bool)>,
) -> Lens<F> {
    let view = view_of(m, lens, first, last, trades);
    let f = lens::fitted(m, lens, m.count(first), m.count(last));
    match trade_center(m, view.live, view.latest) {
        Some(price) if !lens.auto_center => Lens { price_center: price, ..f },
        _ => f,
    }
}

/// Prepares a frame of the heatmap, if there are slices.
pub fn prepare_view<F: Copy, A: Arithmetic<F>>(
    a: &A,
    lens: &mut Lens<F>,
    list: &Vec<DepthSlice<F>>,
    trades: &Vec<(u64, F, F, bool)>,
) -> (view: Option<HeatmapView<F>>)
    ensures
        view is Some <==> list.len() > 0,
        list.len() == 0 ==> *final(lens) == *old(lens),
        final(lens).auto_center == old(lens).auto_center,
        forall|m: Model<F>| #[trigger]
            arith::describes(m, *a) ==> (view matches Some(v) ==> {
                let first = slices::times(list@)[0];
                let last = slices::times(list@).last();
                &&& v == view_of(m, *old(lens), first, last, trades@)
                &&& *final(lens) == lens_after(m, *old(lens), first, last, trades@)
            }),
{
    let (total_start, total_end): (F, F) = match depth_time_bounds(a, list) {
        Some(bounds) => bounds,
        None => {
            return None;
        },
    };
    let span_secs: F = lens::span_secs(a, total_start, total_end);
    let (start, end): (F, F) = lens.view_times(a, total_start, total_end);
    let live: bool = is_live_time_view(a, end, total_end, arith::ratio(a, 1, 1));
    let latest: Option<(u64, F)> = latest_trade_for_pointer(trades);
    if !lens.auto_center {
        if let Some(price) = latest_trade_auto_center_price(a, live, latest) {
            lens.price_center = price;
        }
    }
    Some(HeatmapView { start, end, span_secs, live, latest })
}

/// How many bins the center of a lens is off the mean that it is snapped from.
pub open spec fn snap_bins<F>(m: Model<F>, delta: F, bin_width: F) -> F {
    if m.less(m.zero(), bin_width) {
        m.over(delta, bin_width)
    } else {
        m.zero()
    }
}

/// The figures of the last window, line by line.
pub open spec fn perf_lines<F>(
    m: Model<F>,
    p: PerfWindowSnapshot<F>,
    lens: Lens<F>,
    mid: F,
    bin_width: F,
) -> Seq<Seq<char>> {
    let one = |x: F| (m.text)(x, Style::Fixed(1));
    let two = |x: F| (m.text)(x, Style::Fixed(2));
    let delta = m.minus(lens.price_center, lens.price_center_ema);
    let on = if lens.auto_center {
        "ON"@
    } else {
        "OFF"@
    };
    seq![
        "FPS: "@ + one(p.fps) + " (avg "@ + two(p.frame_avg_ms) + "ms, max "@ + two(p.frame_max_ms)
            + "ms)"@,
        "Heatmap rebuild: "@ + one(p.heatmap_rebuilds_per_sec) + "/s"@,
        "Rebuild avg/last/max: "@ + two(p.heatmap_rebuild_avg_ms) + "/"@ + two(
            p.heatmap_rebuild_last_ms,
        ) + "/"@ + two(p.heatmap_rebuild_max_ms) + "ms"@,
        "Repaint target: "@ + (m.text)(p.repaint_target_ms, Style::Fixed(0)) + "ms"@,
        "Auto-center: "@ + on,
        "Mid/EMA/Snapped: "@ + two(mid) + " / "@ + two(lens.price_center_ema) + " / "@ + two(
            lens.price_center,
        ),
        "Snap delta: "@ + (m.text)(delta, Style::Signed(4)) + " ("@ + (m.text)(
            snap_bins(m, delta, bin_width),
            Style::Signed(3),
        ) + " bins @ "@ + (m.text)(bin_width, Style::Fixed(4)) + ")"@,
    ]
}

/// The figures of the last window, line by line.
pub fn perf_text<F: Copy, A: Arithmetic<F>>(
    a: &A,
    p: PerfWindowSnapshot<F>,
    lens: Lens<F>,
    mid: F,
    bin_width: F,
) -> (lines: Vec<String>)
    ensures
        lines.len() == 7,
        forall|m: Model<F>| #[trigger]
            arith::describes(m, *a) ==> text::views(lines@) == perf_lines(
                m,
                p,
                lens,
                mid,
                bin_width,
            ),
{
    let mut rate: String = labelled("FPS: ", &fixed(a, p.fps, 1));
    rate.append(" (avg ");
    rate.append(&fixed(a, p.frame_avg_ms, 2));
    rate.append("ms, max ");
    rate.append(&fixed(a, p.frame_max_ms, 2));
    rate.append("ms)");
    let mut rebuilds: String = labelled(
        "Heatmap rebuild: ",
        &fixed(a, p.heatmap_rebuilds_per_sec, 1),
    );
    rebuilds.append("/s");
    let mut rebuild: String = labelled(
        "Rebuild avg/last/max: ",
        &fixed(a, p.heatmap_rebuild_avg_ms, 2),
    );
    rebuild.append("/");
    rebuild.append(&fixed(a, p.heatmap_rebuild_last_ms, 2));
    rebuild.append("/");
    rebuild.append(&fixed(a, p.heatmap_rebuild_max_ms, 2));
    rebuild.append("ms");
    let mut repaint: String = labelled("Repaint target: ", &fixed(a, p.repaint_target_ms, 0));
    repaint.append("ms");
    let auto_center: String = labelled(
        "Auto-center: ",
        if lens.auto_center {
            "ON"
        } else {
            "OFF"
        },
    );
    let mut center: String = labelled("Mid/EMA/Snapped: ", &fixed(a, mid, 2));
    center.append(" / ");
    center.append(&fixed(a, lens.price_center_ema, 2));
    center.append(" / ");
    center.append(&fixed(a, lens.price_center, 2));
    let delta: F = arith::minus(a, lens.price_center, lens.price_center_ema);
    let zero: F = arith::zero(a);
    let bins: F = if arith::less(a, zero, bin_width) {
        arith::over(a, delta, bin_width)
    } else {
        zero
    };
    let mut snap: String = labelled("Snap delta: ", &arith::text(a, delta, Style::Signed(4)));
    snap.append(" (");
    snap.append(&arith::text(a, bins, Style::Signed(3)));
    snap.append(" bins @ ");
    snap.append(&fixed(a, bin_width, 4));
    snap.append(")");
    let lines: Vec<String> = vec![rate, rebuilds, rebuild, repaint, auto_center, center, snap];
    proof {
        assert forall|m: Model<F>| #[trigger] arith::describes(m, *a) implies text::views(lines@)
            == perf_lines(m, p, lens, mid, bin_width) by {
            let wanted = perf_lines(m, p, lens, mid, bin_width);
            assert(lines@[0]@ == wanted[0]);
            assert(lines@[1]@ == wanted[1]);
            assert(lines@[2]@ == wanted[2]);
            assert(lines@[3]@ == wanted[3]);
            assert(lines@[4]@ == wanted[4]);
            assert(lines@[5]@ == wanted[5]);
            assert(lines@[6]@ == wanted[6]);
            assert(text::views(lines@) =~= wanted);
        }
    }
    lines
}

/// In exact arithmetic a price stands as far down a range as it is below its top,
/// as a part of the range, and stands nowhere where it lies outside.
pub proof fn law_price_stands_in_its_range<F, P>(
    o: Screen<F, P>,
    v: spec_fn(F) -> real,
    u: spec_fn(P) -> real,
    price: F,
    low: F,
    high: F,
)
    requires
        arith::is_exact(o.fine, v),
        forall|x: F| u(#[trigger] (o.narrow)(x)) == v(x),
    ensures
        depth_of(o, price, low, high) matches Some(down) ==> v(low) <= v(price) <= v(high) && u(
            down,
        ) * (v(high) - v(low)) == v(high) - v(price),
        v(price) < v(low) || v(price) > v(high) ==> depth_of(o, price, low, high) is None,
{
    let m = o.fine;
    arith::lemma_fraction(m, v, 1, 4_503_599_627_370_496);
    let tiny = v(epsilon(m));
    let d = 4_503_599_627_370_496int as real;
    assert(tiny > 0real) by (nonlinear_arith)
        requires
            tiny * d == 1real,
            d > 0real,
    ;
    let range = v(high) - v(low);
    if range != 0real {
        arith::lemma_quotient(v(high) - v(price), range);
    }
}

/// In exact arithmetic a dot stands where its trade was made: as far along the map
/// as its time is into the view and as far down as its price is below the top,
/// and the greater the trade, the greater the dot. Trades outside have none.
pub proof fn law_dot_stands_at_its_trade<F, P>(
    o: Screen<F, P>,
    v: spec_fn(F) -> real,
    u: spec_fn(P) -> real,
    frame: DotFrame<F, P>,
    most: F,
    trade: (u64, F, F, bool),
)
    requires
        arith::is_exact(o.fine, v),
        arith::is_exact(o.coarse, u),
        forall|x: F| u(#[trigger] (o.narrow)(x)) == v(x),
        v(frame.low) < v(frame.high),
        v(frame.start) + 1real <= v(frame.end),
    ensures
        ({
            let dot = dot_of(o, frame, most, trade);
            let time = trade.0 as real;
            let span = v(frame.end) - v(frame.start);
            let range = v(frame.high) - v(frame.low);
            let width = u(frame.data.right) - u(frame.data.left);
            &&& dot is Some <==> v(frame.start) <= time <= v(frame.end) && v(frame.low) <= v(
                trade.1,
            ) <= v(frame.high)
            &&& dot matches Some(d) ==> {
                &&& (u(d.spot.x) - u(frame.data.left)) * span == (time - v(frame.start)) * width
                &&& (u(d.spot.y) - u(frame.top)) * range == (v(frame.high) - v(trade.1)) * u(
                    frame.height,
                )
                &&& d.is_buy == trade.3
                &&& v(most) > 0real ==> (u(d.radius) - 2real) * v(most) == 5real * v(trade.2)
            }
        }),
{
    let m = o.fine;
    let n = o.coarse;
    arith::lemma_whole_number(m, v, 0);
    arith::lemma_whole_number(m, v, 1);
    arith::lemma_whole_number(n, u, 2);
    arith::lemma_whole_number(n, u, 5);
    let time = trade.0 as real;
    let span = v(frame.end) - v(frame.start);
    let range = v(frame.high) - v(frame.low);
    let width = u(frame.data.right) - u(frame.data.left);
    let height = u(frame.height);
    let past = time - v(frame.start);
    let below = v(frame.high) - v(trade.1);
    arith::lemma_quotient(past, span);
    arith::lemma_quotient(below, range);
    let along = past / span;
    let down = below / range;
    assert((along * width) * span == past * width) by (nonlinear_arith)
        requires
            along * span == past,
    ;
    assert((down * height) * range == below * height) by (nonlinear_arith)
        requires
            down * range == below,
    ;
    if v(most) > 0real {
        arith::lemma_quotient(v(trade.2), v(most));
        let (part, top, qty) = (v(trade.2) / v(most), v(most), v(trade.2));
        assert((part * 5real) * top == 5real * qty) by (nonlinear_arith)
            requires
                part * top == qty,
        ;
    }
}

/// In exact arithmetic the row under the pointer is the one that it is in when the
/// height is divided evenly among the rows, and the last one at the bottom.
pub proof fn law_pointer_finds_its_row<F, P>(
    o: Screen<F, P>,
    u: spec_fn(P) -> real,
    lookup: HeatmapHoverLookup<F, P>,
    pointer: Spot<P>,
)
    requires
        arith::rounds_exactly(o.coarse, u),
        u(lookup.height) > 0real,
        0 < lookup.rows < u64::MAX,
        u(lookup.data.top) <= u(pointer.y),
        u(pointer.y) - u(lookup.data.top) <= u(lookup.height),
    ensures
        ({
            let row = hover_row(o, lookup, pointer);
            let below = (u(pointer.y) - u(lookup.data.top)) * (lookup.rows as real);
            let height = u(lookup.height);
            &&& 0 <= row < lookup.rows
            &&& (row as real) * height <= below
            &&& u(pointer.y) - u(lookup.data.top) < height ==> below < (row as real + 1real)
                * height
        }),
{
    let n = o.coarse;
    arith::lemma_whole_number(n, u, 0);
    arith::lemma_whole_number(n, u, 1);
    let height = u(lookup.height);
    let past = u(pointer.y) - u(lookup.data.top);
    let rows = lookup.rows as real;
    arith::lemma_quotient(past, height);
    let part = past / height;
    assert(0real <= part <= 1real) by (nonlinear_arith)
        requires
            part * height == past,
            0real <= past <= height,
            height > 0real,
    ;
    let place = part * rows;
    assert(0real <= place <= rows) by (nonlinear_arith)
        requires
            0real <= part <= 1real,
            place == part * rows,
            rows > 0real,
    ;
    assert(place * height == past * rows) by (nonlinear_arith)
        requires
            part * height == past,
            place == part * rows,
    ;
    let down = geometry::fraction_of(n, pointer.y, lookup.data.top, lookup.height);
    let x = n.times(down, n.count(lookup.rows as u64));
    assert(u(x) == place);
    let w = (n.whole)(x);
    let r = w as real;
    assert(r <= place < r + 1real);
    assert(r * height <= past * rows < (r + 1real) * height) by (nonlinear_arith)
        requires
            place * height == past * rows,
            r <= place < r + 1real,
            height > 0real,
    ;
    if w >= lookup.rows {
        assert(r >= rows);
        assert(place == rows);
        assert(past == height) by (nonlinear_arith)
            requires
                place * height == past * rows,
                place == rows,
                rows > 0real,
        ;
        let last = (lookup.rows - 1) as real;
        assert(last * height <= past * rows) by (nonlinear_arith)
            requires
                last == rows - 1real,
                past == height,
                height > 0real,
        ;
    }
}

/// The clock shows the hours, minutes and seconds that make up the time of day.
pub proof fn law_day_text_tells_the_time(secs: u64, hours: nat, minutes: nat, seconds: nat)
    requires
        hours < 24,
        minutes < 60,
        seconds < 60,
        secs as nat % 86_400 == hours * 3_600 + minutes * 60 + seconds,
    ensures
        day_text(secs) == text::digits(hours, 2) + ":"@ + text::digits(minutes, 2) + ":"@
            + text::digits(seconds, 2),
{
    let n = secs as nat;
    let days = n / 86_400;
    assert(n == days * 86_400 + hours * 3_600 + minutes * 60 + seconds);
    assert(n / 3_600 == days * 24 + hours);
    assert(n / 3_600 % 24 == hours);
    assert(n / 60 == (days * 24 + hours) * 60 + minutes);
    assert(n / 60 % 60 == minutes);
    assert(n % 60 == seconds);
}

} // verus!

//! The heatmap: resting quantities over price and time as an image.

use vstd::prelude::*;

use crate::arith;
use crate::arith::{Arithmetic, Model, Rounding, Screen};
use crate::lens;
use crate::lens::Lens;
use crate::slices;
use crate::slices::{slice_columns, DepthSlice};

verus! {

// ---------------------------------------------------------------------------
// Colors
// ---------------------------------------------------------------------------

/// A color by its red, green and blue.
#[derive(Clone, Copy, Debug, PartialEq, Eq, Structural)]
pub struct Rgb {
    pub r: u8,
    pub g: u8,
    pub b: u8,
}

/// The color where nothing rests.
pub open spec fn ground() -> Rgb {
    Rgb { r: 13, g: 17, b: 23 }
}

/// The color where nothing rests.
pub fn background() -> (color: Rgb)
    ensures
        color == ground(),
{
    Rgb { r: 13, g: 17, b: 23 }
}

/// A part of a color between two values.
pub open spec fn channel_of<P>(n: Model<P>, from: u8, to: u8, t: P) -> u8 {
    let start = n.count(from as u64);
    let value = (n.whole)(
        n.plus(start, n.times(n.minus(n.count(to as u64), start), t)),
    );
    if value > 255 {
        255
    } else {
        value as u8
    }
}

/// A part of a color between two values.
fn channel<P: Copy, A: Arithmetic<P>>(a: &A, from: u8, to: u8, t: P) -> (value: u8)
    ensures
        forall|n: Model<P>| #[trigger]
            arith::describes(n, *a) ==> value == channel_of(n, from, to, t),
{
    let start: P = arith::count(a, from as u64);
    let way: P = arith::minus(a, arith::count(a, to as u64), start);
    let value: u64 = arith::whole(a, arith::plus(a, start, arith::times(a, way, t)));
    if value > 255 {
        255
    } else {
        value as u8
    }
}

/// The color a part of the way from one to another.
pub open spec fn blend_of<P>(n: Model<P>, from: Rgb, to: Rgb, t: P) -> Rgb {
    let part = n.unit(t);
    Rgb {
        r: channel_of(n, from.r, to.r, part),
        g: channel_of(n, from.g, to.g, part),
        b: channel_of(n, from.b, to.b, part),
    }
}

/// The color a part of the way from one to another.
pub fn lerp_color<P: Copy, A: Arithmetic<P>>(a: &A, from: Rgb, to: Rgb, t: P) -> (color: Rgb)
    ensures
        forall|n: Model<P>| #[trigger]
            arith::describes(n, *a) ==> color == blend_of(n, from, to, t),
{
    let part: P = arith::unit(a, t);
    Rgb {
        r: channel(a, from.r, to.r, part),
        g: channel(a, from.g, to.g, part),
        b: channel(a, from.b, to.b, part),
    }
}

/// The colors between which a side is blended, from the faintest on: green over
/// cyan to yellow for bids, red over magenta to orange for asks.
pub open spec fn stop_of(is_bid: bool, i: int) -> Rgb {
    if is_bid {
        if i <= 0 {
            Rgb { r: 5, g: 10, b: 5 }
        } else if i == 1 {
            Rgb { r: 0, g: 60, b: 30 }
        } else if i == 2 {
            Rgb { r: 0, g: 180, b: 120 }
        } else if i == 3 {
            Rgb { r: 180, g: 230, b: 80 }
        } else {
            Rgb { r: 255, g: 255, b: 220 }
        }
    } else {
        if i <= 0 {
            Rgb { r: 10, g: 5, b: 5 }
        } else if i == 1 {
            Rgb { r: 60, g: 0, b: 20 }
        } else if i == 2 {
            Rgb { r: 180, g: 30, b: 60 }
        } else if i == 3 {
            Rgb { r: 230, g: 160, b: 50 }
        } else {
            Rgb { r: 255, g: 255, b: 220 }
        }
    }
}

/// The colors between which a side is blended.
fn stop(is_bid: bool, i: u8) -> (color: Rgb)
    ensures
        color == stop_of(is_bid, i as int),
{
    if is_bid {
        if i == 0 {
            Rgb { r: 5, g: 10, b: 5 }
        } else if i == 1 {
            Rgb { r: 0, g: 60, b: 30 }
        } else if i == 2 {
            Rgb { r: 0, g: 180, b: 120 }
        } else if i == 3 {
            Rgb { r: 180, g: 230, b: 80 }
        } else {
            Rgb { r: 255, g: 255, b: 220 }
        }
    } else {
        if i == 0 {
            Rgb { r: 10, g: 5, b: 5 }
        } else if i == 1 {
            Rgb { r: 60, g: 0, b: 20 }
        } else if i == 2 {
            Rgb { r: 180, g: 30, b: 60 }
        } else if i == 3 {
            Rgb { r: 230, g: 160, b: 50 }
        } else {
            Rgb { r: 255, g: 255, b: 220 }
        }
    }
}

/// The color of an intensity from zero to one.
pub open spec fn color_of<F, P>(o: Screen<F, P>, intensity: F, is_bid: bool) -> Rgb {
    let n = o.coarse;
    let t = (o.narrow)(o.fine.unit(intensity));
    let fifth = n.ratio(2, 10);
    let half = n.ratio(5, 10);
    let most = n.ratio(8, 10);
    let third = n.ratio(3, 10);
    if n.less(t, fifth) {
        blend_of(n, stop_of(is_bid, 0), stop_of(is_bid, 1), n.over(t, fifth))
    } else if n.less(t, half) {
        blend_of(
            n,
            stop_of(is_bid, 1),
            stop_of(is_bid, 2),
            n.over(n.minus(t, fifth), third),
        )
    } else if n.less(t, most) {
        blend_of(n, stop_of(is_bid, 2), stop_of(is_bid, 3), n.over(n.minus(t, half), third))
    } else {
        blend_of(n, stop_of(is_bid, 3), stop_of(is_bid, 4), n.over(n.minus(t, most), fifth))
    }
}

/// The color of an intensity from zero to one, in the colors of a side.
pub fn heatmap_color<F: Copy, P: Copy, A: Arithmetic<F> + Arithmetic<P> + Rounding<F, P>>(
    a: &A,
    intensity: F,
    is_bid: bool,
) -> (color: Rgb)
    ensures
        forall|o: Screen<F, P>| #[trigger]
            arith::depicts(o, *a) ==> color == color_of(o, intensity, is_bid),
{
    let t: P = arith::narrow(a, arith::unit(a, intensity));
    let fifth: P = arith::ratio(a, 2, 10);
    let half: P = arith::ratio(a, 5, 10);
    let most: P = arith::ratio(a, 8, 10);
    let third: P = arith::ratio(a, 3, 10);
    let (low, part): (u8, P) = if arith::less(a, t, fifth) {
        (0, arith::over(a, t, fifth))
    } else if arith::less(a, t, half) {
        (1, arith::over(a, arith::minus(a, t, fifth), third))
    } else if arith::less(a, t, most) {
        (2, arith::over(a, arith::minus(a, t, half), third))
    } else {
        (3, arith::over(a, arith::minus(a, t, most), fifth))
    };
    lerp_color(a, stop(is_bid, low), stop(is_bid, low + 1), part)
}

/// How many columns of pixels the legend has.
pub open spec fn legend_width<P>(n: Model<P>, width: P) -> u64 {
    (n.whole)(n.round(n.greater(width, n.ratio(1, 1))))
}

/// The color of a column of the legend: asks from the strongest to the faintest,
/// then bids from the faintest to the strongest.
pub open spec fn legend_color<F, P>(o: Screen<F, P>, x: u64, columns: u64) -> Rgb {
    let n = o.coarse;
    let last = n.count(
        if columns > 2 {
            (columns - 1) as u64
        } else {
            1
        },
    );
    let at = n.over(n.count(x), last);
    let half = n.ratio(5, 10);
    if n.less(at, half) {
        color_of(o, (o.widen)(n.minus(n.ratio(1, 1), n.over(at, half))), false)
    } else {
        color_of(o, (o.widen)(n.over(n.minus(at, half), half)), true)
    }
}

/// The colors of the legend, column by column.
pub fn legend_colors<F: Copy, P: Copy, A: Arithmetic<F> + Arithmetic<P> + Rounding<F, P>>(
    a: &A,
    columns: usize,
) -> (colors: Vec<Rgb>)
    ensures
        colors.len() == columns,
        forall|o: Screen<F, P>| #[trigger]
            arith::depicts(o, *a) ==> colors@ == Seq::new(
                columns as nat,
                |x: int| legend_color(o, x as u64, columns as u64),
            ),
{
    let steps: usize = if columns > 2 {
        columns - 1
    } else {
        1
    };
    let last: P = arith::count(a, steps as u64);
    let half: P = arith::ratio(a, 5, 10);
    let one: P = arith::ratio(a, 1, 1);
    let mut colors: Vec<Rgb> = Vec::new();
    let mut x: usize = 0;
    while x < columns
        invariant
            x <= columns,
            colors.len() == x,
            forall|o: Screen<F, P>| #[trigger]
                arith::depicts(o, *a) ==> last == o.coarse.count(steps as u64) && half
                    == o.coarse.ratio(5, 10) && one == o.coarse.ratio(1, 1),
            steps == if columns > 2 {
                columns - 1
            } else {
                1
            },
            forall|o: Screen<F, P>, k: int|
                #![trigger arith::depicts(o, *a), colors@[k]]
                arith::depicts(o, *a) && 0 <= k < x ==> colors@[k] == legend_color(
                    o,
                    k as u64,
                    columns as u64,
                ),
        decreases columns - x,
    {
        let at: P = arith::over(a, arith::count(a, x as u64), last);
        let left: bool = arith::less(a, at, half);
        let strength: P = if left {
            arith::minus(a, one, arith::over(a, at, half))
        } else {
            arith::over(a, arith::minus(a, at, half), half)
        };
        let intensity: F = arith::widen(a, strength);
        colors.push(heatmap_color(a, intensity, !left));
        x += 1;
    }
    proof {
        assert forall|o: Screen<F, P>| #[trigger] arith::depicts(o, *a) implies colors@ == Seq::new(
            columns as nat,
            |x: int| legend_color(o, x as u64, columns as u64),
        ) by {
            assert(colors@ =~= Seq::new(
                columns as nat,
                |x: int| legend_color(o, x as u64, columns as u64),
            ));
        }
    }
    colors
}

/// How many columns of pixels the legend has, as far as they can be counted.
pub fn legend_columns<P: Copy, A: Arithmetic<P>>(a: &A, width: P) -> (columns: usize)
    ensures
        forall|n: Model<P>| #[trigger]
            arith::describes(n, *a) ==> columns == if legend_width(n, width) > usize::MAX {
                usize::MAX as u64
            } else {
                legend_width(n, width)
            },
{
    let wide: P = arith::greater(a, width, arith::ratio(a, 1, 1));
    let n: u64 = arith::whole(a, arith::round(a, wide));
    if n > usize::MAX as u64 {
        usize::MAX
    } else {
        n as usize
    }
}

// ---------------------------------------------------------------------------
// Rows
// ---------------------------------------------------------------------------

/// The prices that the rows of the map stand for, and the least quantity that
/// it shows.
#[derive(Clone, Copy, Debug)]
pub struct Band<F> {
    pub low: F,
    pub high: F,
    pub rows: usize,
    pub min_qty: F,
}

/// The band that a lens shows.
pub open spec fn band_of<F>(m: Model<F>, lens: Lens<F>, rows: usize, min_qty: F) -> Band<F> {
    Band { low: lens::lowest(m, lens), high: lens::highest(m, lens), rows, min_qty }
}

/// The range of prices of a band.
pub open spec fn reach<F>(m: Model<F>, band: Band<F>) -> F {
    m.minus(band.high, band.low)
}

/// Whether a band has a range of prices to show.
pub open spec fn has_reach<F>(m: Model<F>, band: Band<F>) -> bool {
    m.finite(reach(m, band)) && !m.less_eq(reach(m, band), m.zero())
}

/// The row in which a level of the book falls, if it is shown.
pub open spec fn row_of<F>(m: Model<F>, band: Band<F>, level: (F, F)) -> Option<int> {
    let row = (m.whole)(
        m.times(
            m.over(m.minus(band.high, level.0), reach(m, band)),
            m.count(band.rows as u64),
        ),
    );
    if m.less(level.1, band.min_qty) || m.less(level.0, band.low) || m.less(band.high, level.0)
        || row >= band.rows {
        None
    } else {
        Some(row as int)
    }
}

/// The row in which a level of the book falls, if it is shown.
pub fn find_row<F: Copy, A: Arithmetic<F>>(a: &A, band: Band<F>, level: (F, F)) -> (row: Option<
    usize,
>)
    ensures
        row matches Some(r) ==> r < band.rows,
        forall|m: Model<F>| #[trigger]
            arith::describes(m, *a) ==> row_of(m, band, level) == match row {
                Some(r) => Some(r as int),
                None => None,
            },
{
    let span: F = arith::minus(a, band.high, band.low);
    let down: F = arith::over(a, arith::minus(a, band.high, level.0), span);
    let row: u64 = arith::whole(a, arith::times(a, down, arith::count(a, band.rows as u64)));
    if arith::less(a, level.1, band.min_qty) || arith::less(a, level.0, band.low) || arith::less(
        a,
        band.high,
        level.0,
    ) || row >= band.rows as u64 {
        None
    } else {
        Some(row as usize)
    }
}

/// The price in the middle of a row; the lowest price where there are no rows or
/// no range.
pub open spec fn row_price<F>(m: Model<F>, band: Band<F>, row: usize) -> F {
    if band.rows == 0 || !has_reach(m, band) {
        band.low
    } else {
        m.minus(
            band.high,
            m.times(
                m.over(
                    m.plus(m.count(row as u64), m.ratio(5, 10)),
                    m.count(band.rows as u64),
                ),
                reach(m, band),
            ),
        )
    }
}

/// The price in the middle of a row.
pub fn price_at_row<F: Copy, A: Arithmetic<F>>(a: &A, band: Band<F>, row: usize) -> (price: F)
    ensures
        forall|m: Model<F>| #[trigger]
            arith::describes(m, *a) ==> price == row_price(m, band, row),
{
    let span: F = arith::minus(a, band.high, band.low);
    if band.rows == 0 || !arith::finite(a, span) || arith::less_eq(a, span, arith::zero(a)) {
        return band.low;
    }
    let middle: F = arith::plus(a, arith::count(a, row as u64), arith::ratio(a, 5, 10));
    let down: F = arith::over(a, middle, arith::count(a, band.rows as u64));
    arith::minus(a, band.high, arith::times(a, down, span))
}

// ---------------------------------------------------------------------------
// Quantities
// ---------------------------------------------------------------------------

/// The quantity of one side that rests in a row, of the first levels of a slice.
pub open spec fn resting<F, P>(
    o: Screen<F, P>,
    band: Band<F>,
    levels: Seq<(F, F)>,
    bids_len: int,
    row: int,
    of_bids: bool,
) -> P
    decreases levels.len(),
{
    if levels.len() == 0 {
        o.coarse.zero()
    } else {
        let rest = resting(o, band, levels.drop_last(), bids_len, row, of_bids);
        if row_of(o.fine, band, levels.last()) == Some(row) && (levels.len() <= bids_len)
            == of_bids {
            o.coarse.plus(rest, (o.narrow)(levels.last().1))
        } else {
            rest
        }
    }
}

/// The greatest quantity that has rested in a row as the levels of a slice were
/// added up, from `start` on.
pub open spec fn slice_peak<F, P>(
    o: Screen<F, P>,
    band: Band<F>,
    levels: Seq<(F, F)>,
    bids_len: int,
    start: P,
) -> P
    decreases levels.len(),
{
    if levels.len() == 0 {
        start
    } else {
        let before = slice_peak(o, band, levels.drop_last(), bids_len, start);
        match row_of(o.fine, band, levels.last()) {
            Some(row) => o.coarse.greater(
                before,
                o.coarse.plus(
                    resting(o, band, levels, bids_len, row, true),
                    resting(o, band, levels, bids_len, row, false),
                ),
            ),
            None => before,
        }
    }
}

/// The greatest quantity that has rested in a row of any slice.
pub open spec fn map_peak<F, P>(
    o: Screen<F, P>,
    band: Band<F>,
    list: Seq<DepthSlice<F>>,
) -> P
    decreases list.len(),
{
    if list.len() == 0 {
        o.coarse.zero()
    } else {
        slice_peak(
            o,
            band,
            list.last().levels@,
            list.last().bids_len as int,
            map_peak(o, band, list.drop_last()),
        )
    }
}

/// The quantities of both sides, slice by slice and in each row by row.
#[derive(Debug)]
pub struct HeatGrid<P> {
    pub cols: usize,
    pub rows: usize,
    pub bid_qty: Vec<P>,
    pub ask_qty: Vec<P>,
}

/// The place of a cell: slice by slice and in each row by row.
pub fn heatmap_cell_idx(slice_idx: usize, row: usize, rows: usize) -> (idx: usize)
    requires
        slice_idx * rows + row <= usize::MAX,
    ensures
        idx == slice_idx * rows + row,
{
    proof {
        assert(0 <= slice_idx * rows) by (nonlinear_arith);
    }
    slice_idx * rows + row
}

/// Adds a quantity to one side of a cell, and returns what rests there of both.
pub fn accumulate_side_qty<F: Copy, P: Copy, A: Arithmetic<F> + Arithmetic<P> + Rounding<F, P>>(
    a: &A,
    bid_grid: &mut Vec<P>,
    ask_grid: &mut Vec<P>,
    idx: usize,
    qty: F,
    is_bid: bool,
) -> (total: P)
    requires
        idx < old(bid_grid).len(),
        idx < old(ask_grid).len(),
    ensures
        final(bid_grid).len() == old(bid_grid).len(),
        final(ask_grid).len() == old(ask_grid).len(),
        is_bid ==> *final(ask_grid) == *old(ask_grid),
        !is_bid ==> *final(bid_grid) == *old(bid_grid),
        forall|o: Screen<F, P>| #[trigger]
            arith::depicts(o, *a) ==> {
                &&& is_bid ==> final(bid_grid)@ == old(bid_grid)@.update(
                    idx as int,
                    o.coarse.plus(old(bid_grid)@[idx as int], (o.narrow)(qty)),
                )
                &&& !is_bid ==> final(ask_grid)@ == old(ask_grid)@.update(
                    idx as int,
                    o.coarse.plus(old(ask_grid)@[idx as int], (o.narrow)(qty)),
                )
                &&& total == o.coarse.plus(
                    final(bid_grid)@[idx as int],
                    final(ask_grid)@[idx as int],
                )
            },
{
    let more: P = arith::narrow(a, qty);
    if is_bid {
        let sum: P = arith::plus(a, bid_grid[idx], more);
        bid_grid.set(idx, sum);
    } else {
        let sum: P = arith::plus(a, ask_grid[idx], more);
        ask_grid.set(idx, sum);
    }
    arith::plus(a, bid_grid[idx], ask_grid[idx])
}

/// How many levels of a slice have been added up when the first `si` slices and
/// `li` levels of the next one have been.
pub open spec fn levels_seen<F>(
    list: Seq<DepthSlice<F>>,
    si: int,
    li: int,
    s: int,
) -> Seq<(F, F)> {
    if s < si {
        list[s].levels@
    } else if s == si {
        list[s].levels@.take(li)
    } else {
        Seq::empty()
    }
}

/// What rests in a cell when the first `si` slices and `li` levels of the next
/// one have been added up.
pub open spec fn cell_after<F, P>(
    o: Screen<F, P>,
    band: Band<F>,
    list: Seq<DepthSlice<F>>,
    si: int,
    li: int,
    k: int,
    of_bids: bool,
) -> P {
    let s = k / (band.rows as int);
    resting(
        o,
        band,
        levels_seen(list, si, li, s),
        list[s].bids_len as int,
        k % (band.rows as int),
        of_bids,
    )
}

/// Whether the cells of one side hold what rests in them.
pub open spec fn are_cells<F, P>(
    o: Screen<F, P>,
    band: Band<F>,
    list: Seq<DepthSlice<F>>,
    si: int,
    li: int,
    of_bids: bool,
    cells: Seq<P>,
) -> bool {
    forall|k: int|
        0 <= k < cells.len() ==> #[trigger] cells[k] == cell_after(
            o,
            band,
            list,
            si,
            li,
            k,
            of_bids,
        )
}

/// A cell is that of one row of one slice.
proof fn lemma_cell(s: int, row: int, rows: int, cols: int)
    requires
        0 <= s < cols,
        0 <= row < rows,
    ensures
        0 <= s * rows + row < cols * rows,
        (s * rows + row) / rows == s,
        (s * rows + row) % rows == row,
{
    assert(0 <= s * rows) by (nonlinear_arith)
        requires
            0 <= s,
            0 < rows,
    ;
    assert(s * rows + row < cols * rows) by (nonlinear_arith)
        requires
            0 <= s < cols,
            0 <= row < rows,
    ;
    vstd::arithmetic::div_mod::lemma_fundamental_div_mod_converse(s * rows + row, rows, s, row);
}

/// Two cells of one row of one slice are one cell.
proof fn lemma_same_cell(k: int, l: int, rows: int)
    requires
        0 < rows,
        k / rows == l / rows,
        k % rows == l % rows,
    ensures
        k == l,
{
    vstd::arithmetic::div_mod::lemma_fundamental_div_mod(k, rows);
    vstd::arithmetic::div_mod::lemma_fundamental_div_mod(l, rows);
}

/// What one more level changes in the cells of one side.
proof fn lemma_level_added<F, P>(
    o: Screen<F, P>,
    band: Band<F>,
    list: Seq<DepthSlice<F>>,
    si: int,
    li: int,
    of_bids: bool,
    before: Seq<P>,
    after: Seq<P>,
)
    requires
        0 < band.rows,
        0 <= si < list.len(),
        0 <= li < list[si].levels@.len(),
        before.len() == list.len() * band.rows,
        are_cells(o, band, list, si, li, of_bids, before),
        match row_of(o.fine, band, list[si].levels@[li]) {
            Some(row) => if (li < list[si].bids_len) == of_bids {
                after == before.update(
                    si * band.rows + row,
                    o.coarse.plus(
                        before[si * band.rows + row],
                        (o.narrow)(list[si].levels@[li].1),
                    ),
                )
            } else {
                after == before
            },
            None => after == before,
        },
    ensures
        are_cells(o, band, list, si, li + 1, of_bids, after),
{
    let rows = band.rows as int;
    let levels = list[si].levels@;
    let level = levels[li];
    assert(levels.take(li + 1).drop_last() =~= levels.take(li));
    assert(levels.take(li + 1).last() == level);
    if row_of(o.fine, band, level) is Some {
        lemma_cell(si, row_of(o.fine, band, level)->0, rows, list.len() as int);
    }
    assert forall|k: int| 0 <= k < after.len() implies #[trigger] after[k] == cell_after(
        o,
        band,
        list,
        si,
        li + 1,
        k,
        of_bids,
    ) by {
        assert(before[k] == cell_after(o, band, list, si, li, k, of_bids));
        match row_of(o.fine, band, level) {
            Some(row) => {
                let at = si * rows + row;
                if k / rows == si && k % rows == row {
                    lemma_same_cell(k, at, rows);
                }
            },
            None => {},
        }
    }
}

/// A slice that has been added up whole counts as added up.
proof fn lemma_slice_done<F, P>(
    o: Screen<F, P>,
    band: Band<F>,
    list: Seq<DepthSlice<F>>,
    si: int,
    of_bids: bool,
    cells: Seq<P>,
)
    requires
        0 < band.rows,
        0 <= si < list.len(),
        cells.len() == list.len() * band.rows,
        are_cells(o, band, list, si, list[si].levels@.len() as int, of_bids, cells),
    ensures
        are_cells(o, band, list, si + 1, 0, of_bids, cells),
{
    let levels = list[si].levels@;
    assert(levels.take(levels.len() as int) =~= levels);
    assert forall|k: int| 0 <= k < cells.len() implies #[trigger] cells[k] == cell_after(
        o,
        band,
        list,
        si + 1,
        0,
        k,
        of_bids,
    ) by {
        let s = k / (band.rows as int);
        assert(cells[k] == cell_after(
            o,
            band,
            list,
            si,
            levels.len() as int,
            k,
            of_bids,
        ));
        assert(levels_seen(list, si, levels.len() as int, s) =~= levels_seen(
            list,
            si + 1,
            0,
            s,
        )) by {
            if s == si + 1 {
                assert(list[s].levels@.take(0) =~= Seq::empty());
            }
        }
    }
}

/// As many zeros.
fn zeros<P: Copy, A: Arithmetic<P>>(a: &A, len: usize) -> (list: Vec<P>)
    ensures
        list.len() == len,
        forall|n: Model<P>, k: int|
            #![trigger arith::describes(n, *a), list@[k]]
            arith::describes(n, *a) && 0 <= k < len ==> list@[k] == n.zero(),
{
    let zero: P = arith::zero(a);
    let mut list: Vec<P> = Vec::new();
    while list.len() < len
        invariant
            list.len() <= len,
            forall|k: int| 0 <= k < list.len() ==> list@[k] == zero,
        decreases len - list.len(),
    {
        list.push(zero);
    }
    list
}

/// Whether a grid holds what rests in the slices.
pub open spec fn is_grid_of<F, P>(
    o: Screen<F, P>,
    band: Band<F>,
    list: Seq<DepthSlice<F>>,
    grid: HeatGrid<P>,
) -> bool {
    &&& grid.cols == list.len()
    &&& grid.rows == band.rows
    &&& grid.bid_qty@.len() == list.len() * band.rows
    &&& grid.ask_qty@.len() == list.len() * band.rows
    &&& are_cells(o, band, list, list.len() as int, 0, true, grid.bid_qty@)
    &&& are_cells(o, band, list, list.len() as int, 0, false, grid.ask_qty@)
}

impl<P: Copy> HeatGrid<P> {
    /// A grid of no cells.
    pub fn new() -> (grid: HeatGrid<P>)
        ensures
            grid.cols == 0,
            grid.rows == 0,
            grid.bid_qty@ == Seq::<P>::empty(),
            grid.ask_qty@ == Seq::<P>::empty(),
    {
        HeatGrid { cols: 0, rows: 0, bid_qty: Vec::new(), ask_qty: Vec::new() }
    }

    /// Adds up what rests in the slices, and returns the greatest quantity that
    /// has rested in a row.
    pub fn fill<F: Copy, A: Arithmetic<F> + Arithmetic<P> + Rounding<F, P>>(
        &mut self,
        a: &A,
        band: Band<F>,
        list: &Vec<DepthSlice<F>>,
    ) -> (peak: P)
        requires
            0 < band.rows,
            list.len() * band.rows <= usize::MAX,
        ensures
            final(self).cols == list.len(),
            final(self).rows == band.rows,
            final(self).bid_qty.len() == list.len() * band.rows,
            final(self).ask_qty.len() == list.len() * band.rows,
            forall|o: Screen<F, P>| #[trigger]
                arith::depicts(o, *a) ==> is_grid_of(o, band, list@, *final(self)) && peak
                    == map_peak(o, band, list@),
    {
        let len: usize = list.len() * band.rows;
        let mut bids: Vec<P> = zeros(a, len);
        let mut asks: Vec<P> = zeros(a, len);
        let mut peak: P = arith::zero(a);
        let mut si: usize = 0;
        proof {
            assert forall|o: Screen<F, P>| #[trigger] arith::depicts(o, *a) implies are_cells(
                o,
                band,
                list@,
                0,
                0,
                true,
                bids@,
            ) && are_cells(o, band, list@, 0, 0, false, asks@) by {
                assert(arith::describes(o.coarse, *a));
                assert forall|k: int| 0 <= k < len implies levels_seen(
                    list@,
                    0,
                    0,
                    #[trigger] (k / (band.rows as int)),
                ) =~= Seq::empty() by {
                    if k / (band.rows as int) < 0 {
                        vstd::arithmetic::div_mod::lemma_div_pos_is_pos(k, band.rows as int);
                    }
                }
            }
            assert(list@.take(0) =~= Seq::empty());
        }
        while si < list.len()
            invariant
                si <= list.len(),
                0 < band.rows,
                len == list.len() * band.rows,
                bids.len() == len,
                asks.len() == len,
                forall|o: Screen<F, P>| #[trigger]
                    arith::depicts(o, *a) ==> are_cells(
                        o,
                        band,
                        list@,
                        si as int,
                        0,
                        true,
                        bids@,
                    ) && are_cells(o, band, list@, si as int, 0, false, asks@) && peak == map_peak(
                        o,
                        band,
                        list@.take(si as int),
                    ),
            decreases list.len() - si,
        {
            let ghost levels = list@[si as int].levels@;
            let ghost bids_len = list@[si as int].bids_len as int;
            let mut li: usize = 0;
            proof {
                assert(levels.take(0) =~= Seq::empty());
            }
            while li < list[si].levels.len()
                invariant
                    si < list.len(),
                    li <= list@[si as int].levels@.len(),
                    levels == list@[si as int].levels@,
                    bids_len == list@[si as int].bids_len,
                    0 < band.rows,
                    len == list.len() * band.rows,
                    bids.len() == len,
                    asks.len() == len,
                    forall|o: Screen<F, P>| #[trigger]
                        arith::depicts(o, *a) ==> are_cells(
                            o,
                            band,
                            list@,
                            si as int,
                            li as int,
                            true,
                            bids@,
                        ) && are_cells(
                            o,
                            band,
                            list@,
                            si as int,
                            li as int,
                            false,
                            asks@,
                        ) && peak == slice_peak(
                            o,
                            band,
                            levels.take(li as int),
                            bids_len,
                            map_peak(o, band, list@.take(si as int)),
                        ),
                decreases list@[si as int].levels@.len() - li,
            {
                let level: (F, F) = list[si].levels[li];
                let is_bid: bool = li < list[si].bids_len;
                let row: Option<usize> = find_row(a, band, level);
                let ghost bids_before = bids@;
                let ghost asks_before = asks@;
                let ghost peak_before = peak;
                if let Some(r) = row {
                    proof {
                        lemma_cell(si as int, r as int, band.rows as int, list.len() as int);
                    }
                    let idx: usize = heatmap_cell_idx(si, r, band.rows);
                    let total: P = accumulate_side_qty(
                        a,
                        &mut bids,
                        &mut asks,
                        idx,
                        level.1,
                        is_bid,
                    );
                    peak = arith::greater(a, peak, total);
                }
                proof {
                    assert forall|o: Screen<F, P>| #[trigger] arith::depicts(o, *a) implies are_cells(
                        o,
                        band,
                        list@,
                        si as int,
                        li + 1,
                        true,
                        bids@,
                    ) && are_cells(o, band, list@, si as int, li + 1, false, asks@) && peak
                        == slice_peak(
                        o,
                        band,
                        levels.take(li + 1),
                        bids_len,
                        map_peak(o, band, list@.take(si as int)),
                    ) by {
                        assert(arith::describes(o.fine, *a));
                        assert(arith::describes(o.coarse, *a));
                        lemma_level_added(
                            o,
                            band,
                            list@,
                            si as int,
                            li as int,
                            true,
                            bids_before,
                            bids@,
                        );
                        lemma_level_added(
                            o,
                            band,
                            list@,
                            si as int,
                            li as int,
                            false,
                            asks_before,
                            asks@,
                        );
                        assert(levels.take(li + 1).drop_last() =~= levels.take(li as int));
                        if let Some(r) = row {
                            lemma_cell(
                                si as int,
                                r as int,
                                band.rows as int,
                                list.len() as int,
                            );
                            let k = si * band.rows + r;
                            assert(bids@[k] == cell_after(
                                o,
                                band,
                                list@,
                                si as int,
                                li + 1,
                                k,
                                true,
                            ));
                            assert(asks@[k] == cell_after(
                                o,
                                band,
                                list@,
                                si as int,
                                li + 1,
                                k,
                                false,
                            ));
                        }
                    }
                }
                li += 1;
            }
            proof {
                assert(levels.take(levels.len() as int) =~= levels);
                assert(list@.take(si as int + 1).drop_last() =~= list@.take(si as int));
                assert forall|o: Screen<F, P>| #[trigger] arith::depicts(o, *a) implies are_cells(
                    o,
                    band,
                    list@,
                    si + 1,
                    0,
                    true,
                    bids@,
                ) && are_cells(o, band, list@, si + 1, 0, false, asks@) by {
                    lemma_slice_done(o, band, list@, si as int, true, bids@);
                    lemma_slice_done(o, band, list@, si as int, false, asks@);
                }
            }
            si += 1;
        }
        proof {
            assert(list@.take(list@.len() as int) =~= list@);
        }
        self.cols = list.len();
        self.rows = band.rows;
        self.bid_qty = bids;
        self.ask_qty = asks;
        peak
    }
}

// ---------------------------------------------------------------------------
// Image
// ---------------------------------------------------------------------------

/// The time in milliseconds that a column stands for.
pub open spec fn column_time<F>(
    m: Model<F>,
    x: int,
    columns: int,
    start: F,
    span: F,
) -> u64 {
    let last = if columns > 2 {
        columns - 1
    } else {
        1
    };
    (m.whole)(
        m.greater(
            m.plus(start, m.times(m.over(m.count(x as u64), m.count(last as u64)), span)),
            m.zero(),
        ),
    )
}

/// The times that the columns stand for.
pub open spec fn column_times<F>(m: Model<F>, columns: int, start: F, span: F) -> Seq<u64> {
    Seq::new(columns as nat, |x: int| column_time(m, x, columns, start, span))
}

/// The slice for each column of an image that shows `span` milliseconds from
/// `start` on.
pub fn build_slice_index_map<F: Copy, A: Arithmetic<F>>(
    a: &A,
    list: &Vec<DepthSlice<F>>,
    columns: usize,
    start: F,
    span: F,
) -> (map: Vec<usize>)
    ensures
        map.len() == columns,
        forall|x: int| 0 <= x < columns && list.len() > 0 ==> #[trigger] map@[x] < list.len(),
        forall|m: Model<F>| #[trigger]
            arith::describes(m, *a) ==> slices::as_places(map@) == slices::column_slices(
                slices::times(list@),
                column_times(m, columns as int, start, span),
            ),
{
    let last: usize = if columns > 2 {
        columns - 1
    } else {
        1
    };
    let steps: F = arith::count(a, last as u64);
    let zero: F = arith::zero(a);
    let mut times: Vec<u64> = Vec::new();
    let mut x: usize = 0;
    while x < columns
        invariant
            x <= columns,
            times.len() == x,
            last == if columns > 2 {
                columns - 1
            } else {
                1
            },
            forall|m: Model<F>| #[trigger]
                arith::describes(m, *a) ==> steps == m.count(last as u64) && zero == m.zero(),
            forall|m: Model<F>, k: int|
                #![trigger arith::describes(m, *a), times@[k]]
                arith::describes(m, *a) && 0 <= k < x ==> times@[k] == column_time(
                    m,
                    k,
                    columns as int,
                    start,
                    span,
                ),
        decreases columns - x,
    {
        let along: F = arith::over(a, arith::count(a, x as u64), steps);
        let at: F = arith::plus(a, start, arith::times(a, along, span));
        times.push(arith::whole(a, arith::greater(a, at, zero)));
        x += 1;
    }
    proof {
        assert forall|m: Model<F>| #[trigger] arith::describes(m, *a) implies times@
            == column_times(m, columns as int, start, span) by {
            assert(times@ =~= column_times(m, columns as int, start, span));
        }
    }
    slice_columns(list, &times)
}

/// The color of a cell, given the greatest quantity of the map: on a logarithmic
/// scale, in the colors of the side that has more.
pub open spec fn tint<F, P>(o: Screen<F, P>, bid: P, ask: P, peak: P) -> Rgb {
    let m = o.fine;
    let one = m.ratio(1, 1);
    let total = m.plus((o.widen)(bid), (o.widen)(ask));
    if m.less_eq(total, m.zero()) {
        ground()
    } else {
        let scale = m.greater(
            m.ln(m.plus(one, (o.widen)(peak))),
            m.ratio(1, 1_000_000_000_000),
        );
        color_of(
            o,
            m.over(m.ln(m.plus(one, total)), scale),
            m.less_eq((o.widen)(ask), (o.widen)(bid)),
        )
    }
}

/// The scale of the colors: the logarithm of the greatest quantity.
pub open spec fn scale_of<F, P>(o: Screen<F, P>, peak: P) -> F {
    o.fine.greater(
        o.fine.ln(o.fine.plus(o.fine.ratio(1, 1), (o.widen)(peak))),
        o.fine.ratio(1, 1_000_000_000_000),
    )
}

/// The color of a cell.
fn cell_color<F: Copy, P: Copy, A: Arithmetic<F> + Arithmetic<P> + Rounding<F, P>>(
    a: &A,
    bid: P,
    ask: P,
    scale: F,
) -> (color: Rgb)
    ensures
        forall|o: Screen<F, P>, peak: P|
            #![trigger arith::depicts(o, *a), scale_of(o, peak)]
            arith::depicts(o, *a) && scale == scale_of(o, peak) ==> color == tint(
                o,
                bid,
                ask,
                peak,
            ),
{
    let bids: F = arith::widen(a, bid);
    let asks: F = arith::widen(a, ask);
    let total: F = arith::plus(a, bids, asks);
    if arith::less_eq(a, total, arith::zero(a)) {
        return background();
    }
    let size: F = arith::ln(a, arith::plus(a, arith::ratio(a, 1, 1), total));
    let intensity: F = arith::over(a, size, scale);
    heatmap_color(a, intensity, arith::less_eq(a, asks, bids))
}

/// An image, row by row.
#[derive(Debug)]
pub struct HeatImage {
    pub width: usize,
    pub height: usize,
    pub pixels: Vec<Rgb>,
}

/// Whether there is nothing to show.
pub open spec fn is_blank<F>(m: Model<F>, band: Band<F>, list_len: nat, columns: int) -> bool {
    list_len == 0 || columns == 0 || band.rows == 0 || !has_reach(m, band)
}

/// The length of what is in view in milliseconds, at least one.
pub open spec fn view_span<F>(m: Model<F>, start: F, end: F) -> F {
    m.greater(m.minus(end, start), m.ratio(1, 1))
}

/// The pixels of an image in which something is to show.
pub open spec fn pixels_of<F, P>(
    o: Screen<F, P>,
    band: Band<F>,
    list: Seq<DepthSlice<F>>,
    columns: int,
    start: F,
    end: F,
) -> Seq<Rgb> {
    let peak = map_peak(o, band, list);
    let places = slices::column_slices(
        slices::times(list),
        column_times(o.fine, columns, start, view_span(o.fine, start, end)),
    );
    Seq::new(
        (columns * band.rows) as nat,
        |k: int|
            if o.coarse.less_eq(peak, o.coarse.zero()) {
                ground()
            } else {
                let slice = list[places[k % columns]];
                tint(
                    o,
                    resting(
                        o,
                        band,
                        slice.levels@,
                        slice.bids_len as int,
                        k / columns,
                        true,
                    ),
                    resting(
                        o,
                        band,
                        slice.levels@,
                        slice.bids_len as int,
                        k / columns,
                        false,
                    ),
                    peak,
                )
            },
    )
}

/// A length in pixels, at least one.
pub open spec fn at_least_one(n: int) -> int {
    if n < 1 {
        1
    } else {
        n
    }
}

/// Whether an image shows the slices, or nothing but the background where there
/// is nothing to show.
pub open spec fn is_image_of<F, P>(
    o: Screen<F, P>,
    band: Band<F>,
    list: Seq<DepthSlice<F>>,
    columns: int,
    start: F,
    end: F,
    image: HeatImage,
) -> bool {
    &&& image.width == at_least_one(columns)
    &&& image.height == at_least_one(band.rows as int)
    &&& image.pixels@ == if is_blank(o.fine, band, list.len(), columns) {
        Seq::new((image.width * image.height) as nat, |k: int| ground())
    } else {
        pixels_of(o, band, list, columns, start, end)
    }
}

/// An image of the background.
fn plain_image(columns: usize, rows: usize) -> (image: HeatImage)
    requires
        at_least_one(columns as int) * at_least_one(rows as int) <= usize::MAX,
    ensures
        image.width == at_least_one(columns as int),
        image.height == at_least_one(rows as int),
        image.pixels@ == Seq::new((image.width * image.height) as nat, |k: int| ground()),
{
    let width: usize = if columns < 1 {
        1
    } else {
        columns
    };
    let height: usize = if rows < 1 {
        1
    } else {
        rows
    };
    let len: usize = width * height;
    let mut pixels: Vec<Rgb> = Vec::new();
    while pixels.len() < len
        invariant
            pixels.len() <= len,
            forall|k: int| 0 <= k < pixels.len() ==> pixels@[k] == ground(),
        decreases len - pixels.len(),
    {
        pixels.push(background());
    }
    proof {
        assert(pixels@ =~= Seq::new((width * height) as nat, |k: int| ground()));
    }
    HeatImage { width, height, pixels }
}

/// A pixel is that of one column of one row.
proof fn lemma_pixel(k: int, columns: int, rows: int)
    requires
        0 <= k < columns * rows,
        0 < columns,
    ensures
        0 <= k % columns < columns,
        0 <= k / columns < rows,
{
    vstd::arithmetic::div_mod::lemma_fundamental_div_mod(k, columns);
    vstd::arithmetic::div_mod::lemma_div_pos_is_pos(k, columns);
    let q = k / columns;
    assert(q < rows) by (nonlinear_arith)
        requires
            columns * q <= k,
            k < columns * rows,
            0 < columns,
    ;
}

impl<P: Copy> HeatGrid<P> {
    /// The image of the slices through a lens, from `start` to `end` in
    /// milliseconds. Where something is to show, the grid holds its quantities
    /// afterwards.
    pub fn build_heatmap_image<F: Copy, A: Arithmetic<F> + Arithmetic<P> + Rounding<F, P>>(
        &mut self,
        a: &A,
        lens: Lens<F>,
        list: &Vec<DepthSlice<F>>,
        columns: usize,
        rows: usize,
        min_qty: F,
        start: F,
        end: F,
    ) -> (image: HeatImage)
        requires
            list.len() * rows <= usize::MAX,
            at_least_one(columns as int) * at_least_one(rows as int) <= usize::MAX,
        ensures
            list.len() == 0 || columns == 0 || rows == 0 ==> *final(self) == *old(self),
            forall|o: Screen<F, P>| #[trigger]
                arith::depicts(o, *a) ==> {
                    let band = band_of(o.fine, lens, rows, min_qty);
                    &&& is_image_of(o, band, list@, columns as int, start, end, image)
                    &&& if is_blank(o.fine, band, list@.len(), columns as int) {
                        *final(self) == *old(self)
                    } else {
                        is_grid_of(o, band, list@, *final(self))
                    }
                },
    {
        let band = Band { low: lens.price_min(a), high: lens.price_max(a), rows, min_qty };
        let span: F = arith::minus(a, band.high, band.low);
        if list.len() == 0 || columns == 0 || rows == 0 || !arith::finite(a, span)
            || arith::less_eq(a, span, arith::zero(a)) {
            return plain_image(columns, rows);
        }
        let peak: P = self.fill(a, band, list);
        let none: P = arith::zero(a);
        let nothing: bool = arith::less_eq(a, peak, none);
        let one: F = arith::ratio(a, 1, 1);
        let most: F = arith::ln(a, arith::plus(a, one, arith::widen(a, peak)));
        let scale: F = arith::greater(a, most, arith::ratio(a, 1, 1_000_000_000_000));
        let view: F = arith::greater(a, arith::minus(a, end, start), one);
        let map: Vec<usize> = build_slice_index_map(a, list, columns, start, view);
        let len: usize = columns * rows;
        let mut pixels: Vec<Rgb> = Vec::new();
        let mut k: usize = 0;
        while k < len
            invariant
                k <= len,
                len == columns * rows,
                columns > 0,
                rows > 0,
                list.len() > 0,
                pixels.len() == k,
                map.len() == columns,
                band.rows == rows,
                forall|x: int| 0 <= x < columns ==> #[trigger] map@[x] < list.len(),
                self.bid_qty.len() == list.len() * rows,
                self.ask_qty.len() == list.len() * rows,
                list.len() * rows <= usize::MAX,
                forall|o: Screen<F, P>| #[trigger]
                    arith::depicts(o, *a) ==> {
                        &&& is_grid_of(o, band, list@, *self)
                        &&& peak == map_peak(o, band, list@)
                        &&& nothing == o.coarse.less_eq(peak, o.coarse.zero())
                        &&& scale == scale_of(o, peak)
                        &&& slices::as_places(map@) == slices::column_slices(
                            slices::times(list@),
                            column_times(
                                o.fine,
                                columns as int,
                                start,
                                view_span(o.fine, start, end),
                            ),
                        )
                    },
                forall|o: Screen<F, P>, j: int|
                    #![trigger arith::depicts(o, *a), pixels@[j]]
                    arith::depicts(o, *a) && 0 <= j < k ==> pixels@[j] == pixels_of(
                        o,
                        band,
                        list@,
                        columns as int,
                        start,
                        end,
                    )[j],
            decreases len - k,
        {
            let x: usize = k % columns;
            let y: usize = k / columns;
            proof {
                lemma_pixel(k as int, columns as int, rows as int);
            }
            let si: usize = map[x];
            proof {
                lemma_cell(si as int, y as int, rows as int, list.len() as int);
            }
            let color: Rgb = if nothing {
                background()
            } else {
                let idx: usize = heatmap_cell_idx(si, y, rows);
                cell_color(a, self.bid_qty[idx], self.ask_qty[idx], scale)
            };
            pixels.push(color);
            proof {
                assert forall|o: Screen<F, P>| #[trigger] arith::depicts(o, *a) implies color
                    == pixels_of(o, band, list@, columns as int, start, end)[k as int] by {
                    let cell = si * rows + y;
                    assert(slices::as_places(map@)[x as int] == si);
                    let n = list.len() as int;
                    assert(self.bid_qty@[cell] == cell_after(o, band, list@, n, 0, cell, true));
                    assert(self.ask_qty@[cell] == cell_after(o, band, list@, n, 0, cell, false));
                }
            }
            k += 1;
        }
        proof {
            assert forall|o: Screen<F, P>| #[trigger] arith::depicts(o, *a) implies pixels@
                == pixels_of(o, band, list@, columns as int, start, end) by {
                assert(pixels@ =~= pixels_of(o, band, list@, columns as int, start, end));
            }
        }
        HeatImage { width: columns, height: rows, pixels }
    }

    /// What rests in a cell of both sides, nothing where the grid has no such
    /// cell.
    pub fn cell<A: Arithmetic<P>>(&self, a: &A, idx: usize) -> (sides: (P, P))
        ensures
            idx < self.bid_qty.len() ==> sides.0 == self.bid_qty@[idx as int],
            idx < self.ask_qty.len() ==> sides.1 == self.ask_qty@[idx as int],
            forall|n: Model<P>| #[trigger]
                arith::describes(n, *a) ==> (idx >= self.bid_qty.len() ==> sides.0 == n.zero())
                    && (idx >= self.ask_qty.len() ==> sides.1 == n.zero()),
    {
        let bid: P = if idx < self.bid_qty.len() {
            self.bid_qty[idx]
        } else {
            arith::zero(a)
        };
        let ask: P = if idx < self.ask_qty.len() {
            self.ask_qty[idx]
        } else {
            arith::zero(a)
        };
        (bid, ask)
    }
}

// ---------------------------------------------------------------------------
// Laws
// ---------------------------------------------------------------------------

/// A level outside the band, or one that is too small, rests in no row.
pub proof fn law_hidden_level_rests_nowhere<F, P>(
    o: Screen<F, P>,
    band: Band<F>,
    levels: Seq<(F, F)>,
    level: (F, F),
    bids_len: int,
    row: int,
    of_bids: bool,
)
    requires
        o.fine.less(level.1, band.min_qty) || o.fine.less(level.0, band.low) || o.fine.less(
            band.high,
            level.0,
        ),
    ensures
        resting(o, band, levels.push(level), bids_len, row, of_bids) == resting(
            o,
            band,
            levels,
            bids_len,
            row,
            of_bids,
        ),
        slice_peak(o, band, levels.push(level), bids_len, o.coarse.zero()) == slice_peak(
            o,
            band,
            levels,
            bids_len,
            o.coarse.zero(),
        ),
{
    assert(levels.push(level).drop_last() =~= levels);
}

/// A level changes what rests in its own row and on its own side only.
pub proof fn law_level_rests_in_one_row<F, P>(
    o: Screen<F, P>,
    band: Band<F>,
    levels: Seq<(F, F)>,
    level: (F, F),
    bids_len: int,
    row: int,
    of_bids: bool,
)
    requires
        row_of(o.fine, band, level) != Some(row) || (levels.len() < bids_len) != of_bids,
    ensures
        resting(o, band, levels.push(level), bids_len, row, of_bids) == resting(
            o,
            band,
            levels,
            bids_len,
            row,
            of_bids,
        ),
{
    assert(levels.push(level).drop_last() =~= levels);
}

/// In exact arithmetic the rows divide the range of prices evenly from the top: a
/// level that is shown lies in its row, and every level within the range that
/// holds enough is shown.
pub proof fn law_rows_divide_the_range<F>(
    m: Model<F>,
    v: spec_fn(F) -> real,
    band: Band<F>,
    level: (F, F),
)
    requires
        arith::rounds_exactly(m, v),
        0 < band.rows < u64::MAX,
        v(band.low) < v(band.high),
    ensures
        ({
            let range = v(band.high) - v(band.low);
            let n = band.rows as real;
            let below = v(band.high) - v(level.0);
            &&& row_of(m, band, level) matches Some(row) ==> {
                &&& 0 <= row < band.rows
                &&& (row as real) * range <= below * n < (row as real + 1real) * range
                &&& v(level.1) >= v(band.min_qty)
                &&& v(band.low) <= v(level.0) <= v(band.high)
            }
            &&& v(level.1) >= v(band.min_qty) && v(band.low) < v(level.0) <= v(band.high)
                ==> row_of(m, band, level) is Some
        }),
{
    let range = v(band.high) - v(band.low);
    let n = band.rows as real;
    let below = v(band.high) - v(level.0);
    let part = below / range;
    arith::lemma_quotient(below, range);
    let place = part * n;
    let down = m.times(m.over(m.minus(band.high, level.0), reach(m, band)), m.count(band.rows as u64));
    assert(v(down) == place);
    let row = (m.whole)(down);
    assert(place * range == below * n) by (nonlinear_arith)
        requires
            part * range == below,
            place == part * n,
    ;
    if v(band.low) <= v(level.0) <= v(band.high) {
        assert(0real <= place <= n) by (nonlinear_arith)
            requires
                place * range == below * n,
                0real <= below <= range,
                range > 0real,
                n > 0real,
        ;
        assert(v(band.low) < v(level.0) ==> place < n) by (nonlinear_arith)
            requires
                place * range == below * n,
                v(band.low) < v(level.0) ==> below < range,
                range > 0real,
                n > 0real,
        ;
        assert(n < u64::MAX as real);
        let r = row as real;
        assert(r <= place < r + 1real);
        assert(r * range <= below * n < (r + 1real) * range) by (nonlinear_arith)
            requires
                place * range == below * n,
                r <= place < r + 1real,
                range > 0real,
        ;
        if place < n {
            assert(r < n);
            assert(row < band.rows);
        }
    }
}

/// In exact arithmetic the price of a row is that of its middle.
pub proof fn law_row_price_is_the_middle<F>(
    m: Model<F>,
    v: spec_fn(F) -> real,
    band: Band<F>,
    row: usize,
)
    requires
        arith::is_exact(m, v),
        0 < band.rows,
        v(band.low) < v(band.high),
        m.finite(m.minus(band.high, band.low)),
    ensures
        (v(band.high) - v(row_price(m, band, row))) * (band.rows as real) == (row as real
            + (1real / 2real)) * (v(band.high) - v(band.low)),
{
    arith::lemma_whole_number(m, v, 0);
    arith::lemma_fraction(m, v, 5, 10);
    assert(v(m.ratio(5, 10)) * 10real == 5real) by {
        assert(10int as real == 10real);
        assert(5int as real == 5real);
    }
    let n = band.rows as real;
    let middle = row as real + (1real / 2real);
    let range = v(band.high) - v(band.low);
    arith::lemma_quotient(middle, n);
    let part = middle / n;
    assert((part * range) * n == middle * range) by (nonlinear_arith)
        requires
            part * n == middle,
    ;
}

/// What the levels of one side in a row hold, zero for the others.
pub open spec fn row_values<F>(
    m: Model<F>,
    v: spec_fn(F) -> real,
    band: Band<F>,
    levels: Seq<(F, F)>,
    bids_len: int,
    row: int,
    of_bids: bool,
) -> Seq<real> {
    Seq::new(
        levels.len(),
        |i: int|
            if row_of(m, band, levels[i]) == Some(row) && (i < bids_len) == of_bids {
                v(levels[i].1)
            } else {
                0real
            },
    )
}

/// In exact arithmetic what rests in a row of a side is what the levels of that
/// side hold there together.
pub proof fn law_row_holds_its_levels<F, P>(
    o: Screen<F, P>,
    v: spec_fn(F) -> real,
    u: spec_fn(P) -> real,
    band: Band<F>,
    levels: Seq<(F, F)>,
    bids_len: int,
    row: int,
    of_bids: bool,
)
    requires
        arith::is_exact(o.coarse, u),
        forall|x: F| u(#[trigger] (o.narrow)(x)) == v(x),
    ensures
        u(resting(o, band, levels, bids_len, row, of_bids)) == arith::total(
            row_values(o.fine, v, band, levels, bids_len, row, of_bids),
        ),
    decreases levels.len(),
{
    arith::lemma_whole_number(o.coarse, u, 0);
    if levels.len() > 0 {
        let front = levels.drop_last();
        law_row_holds_its_levels(o, v, u, band, front, bids_len, row, of_bids);
        let all = row_values(o.fine, v, band, levels, bids_len, row, of_bids);
        assert(all.drop_last() =~= row_values(o.fine, v, band, front, bids_len, row, of_bids));
    }
}

/// In exact arithmetic a color a part of the way from one to another lies between
/// them in every channel, is the first at none of the way and the second at all of
/// it, and goes further the greater the part.
pub proof fn law_blend_lies_between<P>(
    n: Model<P>,
    u: spec_fn(P) -> real,
    from: u8,
    to: u8,
    t: P,
    s: P,
)
    requires
        arith::rounds_exactly(n, u),
        0real <= u(t) <= u(s) <= 1real,
    ensures
        ({
            let (a, b) = (channel_of(n, from, to, t), channel_of(n, from, to, s));
            &&& from <= to ==> from <= a <= b <= to
            &&& to <= from ==> to <= b <= a <= from
            &&& u(t) == 0real ==> a == from
            &&& u(s) == 1real ==> b == to
        }),
{
    lemma_channel(n, u, from, to, t);
    lemma_channel(n, u, from, to, s);
    let way = to as real - from as real;
    let (x, y) = (u(t), u(s));
    assert(way >= 0real ==> way * x <= way * y) by (nonlinear_arith)
        requires
            x <= y,
    ;
    assert(way <= 0real ==> way * y <= way * x) by (nonlinear_arith)
        requires
            x <= y,
    ;
    let (a, b) = (channel_of(n, from, to, t), channel_of(n, from, to, s));
    assert(from <= to ==> way >= 0real);
    assert(to <= from ==> way <= 0real);
    assert(x == 0real ==> way * x == 0real) by (nonlinear_arith);
    assert(y == 1real ==> way * y == way) by (nonlinear_arith);
    if from <= to {
        assert(a as real <= from as real + way * x <= from as real + way * y < b as real + 1real);
        assert(a <= b);
    }
    if to <= from {
        assert(b as real <= from as real + way * y <= from as real + way * x < a as real + 1real);
        assert(b <= a);
    }
}

proof fn lemma_channel<P>(n: Model<P>, u: spec_fn(P) -> real, from: u8, to: u8, t: P)
    requires
        arith::rounds_exactly(n, u),
        0real <= u(t) <= 1real,
    ensures
        ({
            let a = channel_of(n, from, to, t);
            let exact = from as real + (to as real - from as real) * u(t);
            &&& a as real <= exact < a as real + 1real
            &&& from <= to ==> from <= a <= to
            &&& to <= from ==> to <= a <= from
        }),
{
    let way = to as real - from as real;
    let x = u(t);
    let exact = from as real + way * x;
    assert(way >= 0real ==> 0real <= way * x <= way) by (nonlinear_arith)
        requires
            0real <= x <= 1real,
    ;
    assert(way <= 0real ==> way <= way * x <= 0real) by (nonlinear_arith)
        requires
            0real <= x <= 1real,
    ;
    let start = n.count(from as u64);
    let value = n.plus(start, n.times(n.minus(n.count(to as u64), start), t));
    assert(u(value) == exact);
    let w = (n.whole)(value);
    assert(w as real <= exact < w as real + 1real);
    assert(w <= 255);
}

/// Where nothing rests a cell has the color of the background, and where something
/// does it has the colors of bids where at least as much is bid as asked, and else
/// those of asks.
pub proof fn law_cells_have_the_colors_of_their_side<F, P>(
    o: Screen<F, P>,
    v: spec_fn(F) -> real,
    bid: P,
    ask: P,
    peak: P,
)
    requires
        arith::is_exact(o.fine, v),
    ensures
        ({
            let (b, k) = (v((o.widen)(bid)), v((o.widen)(ask)));
            &&& b + k <= 0real ==> tint(o, bid, ask, peak) == ground()
            &&& b + k > 0real && b >= k ==> exists|intensity: F|
                tint(o, bid, ask, peak) == #[trigger] color_of(o, intensity, true)
            &&& b + k > 0real && b < k ==> exists|intensity: F|
                tint(o, bid, ask, peak) == #[trigger] color_of(o, intensity, false)
        }),
{
    arith::lemma_whole_number(o.fine, v, 0);
    let m = o.fine;
    let total = m.plus((o.widen)(bid), (o.widen)(ask));
    let intensity = m.over(m.ln(m.plus(m.ratio(1, 1), total)), scale_of(o, peak));
    let (b, k) = (v((o.widen)(bid)), v((o.widen)(ask)));
    if b + k > 0real {
        if b >= k {
            assert(tint(o, bid, ask, peak) == color_of(o, intensity, true));
        } else {
            assert(tint(o, bid, ask, peak) == color_of(o, intensity, false));
        }
    }
}

/// In exact arithmetic no cell of the map holds more than its peak.
pub proof fn law_peak_is_the_fullest_cell<F, P>(
    o: Screen<F, P>,
    u: spec_fn(P) -> real,
    band: Band<F>,
    list: Seq<DepthSlice<F>>,
    s: int,
    row: int,
)
    requires
        arith::is_exact(o.coarse, u),
        0 <= s < list.len(),
    ensures
        ({
            let slice = list[s];
            u(resting(o, band, slice.levels@, slice.bids_len as int, row, true)) + u(
                resting(o, band, slice.levels@, slice.bids_len as int, row, false),
            ) <= u(map_peak(o, band, list))
        }),
        u(map_peak(o, band, list)) >= 0real,
    decreases list.len(),
{
    let front = list.drop_last();
    let last = list.last();
    let before = map_peak(o, band, front);
    lemma_map_peak(o, u, band, front);
    lemma_slice_peak(o, u, band, last.levels@, last.bids_len as int, before, row);
    if s < front.len() {
        law_peak_is_the_fullest_cell(o, u, band, front, s, row);
        assert(front[s] == list[s]);
    }
}

proof fn lemma_map_peak<F, P>(
    o: Screen<F, P>,
    u: spec_fn(P) -> real,
    band: Band<F>,
    list: Seq<DepthSlice<F>>,
)
    requires
        arith::is_exact(o.coarse, u),
    ensures
        u(map_peak(o, band, list)) >= 0real,
    decreases list.len(),
{
    arith::lemma_whole_number(o.coarse, u, 0);
    if list.len() > 0 {
        let front = list.drop_last();
        lemma_map_peak(o, u, band, front);
        lemma_slice_peak(
            o,
            u,
            band,
            list.last().levels@,
            list.last().bids_len as int,
            map_peak(o, band, front),
            0,
        );
    }
}

proof fn lemma_slice_peak<F, P>(
    o: Screen<F, P>,
    u: spec_fn(P) -> real,
    band: Band<F>,
    levels: Seq<(F, F)>,
    bids_len: int,
    start: P,
    row: int,
)
    requires
        arith::is_exact(o.coarse, u),
        u(start) >= 0real,
    ensures
        u(slice_peak(o, band, levels, bids_len, start)) >= u(start),
        u(resting(o, band, levels, bids_len, row, true)) + u(
            resting(o, band, levels, bids_len, row, false),
        ) <= u(slice_peak(o, band, levels, bids_len, start)),
    decreases levels.len(),
{
    arith::lemma_whole_number(o.coarse, u, 0);
    if levels.len() > 0 {
        lemma_slice_peak(o, u, band, levels.drop_last(), bids_len, start, row);
    }
}

/// The pixel in a column and a row of the image shows what rests in that row of
/// the slice of the column.
pub proof fn law_pixels_show_their_cells<F, P>(
    o: Screen<F, P>,
    band: Band<F>,
    list: Seq<DepthSlice<F>>,
    columns: int,
    start: F,
    end: F,
    x: int,
    y: int,
)
    requires
        0 <= x < columns,
        0 <= y < band.rows,
        !o.coarse.less_eq(map_peak(o, band, list), o.coarse.zero()),
    ensures
        ({
            let times = column_times(o.fine, columns, start, view_span(o.fine, start, end));
            let slice = list[slices::column_slices(slices::times(list), times)[x]];
            let bids = resting(o, band, slice.levels@, slice.bids_len as int, y, true);
            let asks = resting(o, band, slice.levels@, slice.bids_len as int, y, false);
            pixels_of(o, band, list, columns, start, end)[y * columns + x] == tint(
                o,
                bids,
                asks,
                map_peak(o, band, list),
            )
        }),
{
    lemma_cell(y, x, columns, band.rows as int);
    let k = y * columns + x;
    assert(band.rows * columns == columns * band.rows) by (nonlinear_arith);
    assert(0 <= k < columns * band.rows);
}

/// In exact arithmetic the columns of the image stand for times that are evenly
/// apart, from the start of the view to its end.
pub proof fn law_columns_are_evenly_apart<F>(
    m: Model<F>,
    v: spec_fn(F) -> real,
    x: int,
    columns: int,
    start: F,
    end: F,
)
    requires
        arith::rounds_exactly(m, v),
        2 <= columns < u64::MAX,
        0 <= x < columns,
        v(start) >= 0real,
        v(start) + 1real <= v(end) < u64::MAX as real,
    ensures
        ({
            let time = column_time(m, x, columns, start, view_span(m, start, end)) as real;
            let steps = columns as real - 1real;
            let past = (x as real) * (v(end) - v(start));
            time * steps <= v(start) * steps + past < (time + 1real) * steps
        }),
{
    arith::lemma_whole_number(m, v, 0);
    arith::lemma_whole_number(m, v, 1);
    let steps = columns as real - 1real;
    let last = if columns > 2 {
        columns - 1
    } else {
        1
    };
    assert(last as real == steps);
    let place = x as real;
    let span = v(end) - v(start);
    assert(v(view_span(m, start, end)) == span);
    arith::lemma_quotient(place, steps);
    let part = place / steps;
    assert(0real <= part <= 1real) by (nonlinear_arith)
        requires
            part * steps == place,
            0real <= place <= steps,
            steps > 0real,
    ;
    let s = v(start);
    let t = s + part * span;
    assert(s <= t <= s + span) by (nonlinear_arith)
        requires
            0real <= part <= 1real,
            span > 0real,
            t == s + part * span,
    ;
    assert(t * steps == s * steps + place * span) by (nonlinear_arith)
        requires
            part * steps == place,
            t == s + part * span,
    ;
    let time = column_time(m, x, columns, start, view_span(m, start, end)) as real;
    assert(time <= t < time + 1real);
    assert(time * steps <= t * steps < (time + 1real) * steps) by (nonlinear_arith)
        requires
            time <= t < time + 1real,
            steps > 0real,
    ;
}

} // verus!

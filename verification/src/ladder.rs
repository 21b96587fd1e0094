//! The order book as a ladder: quantities gathered into bins of prices, asks
//! over bids, with the last trade between them.

use vstd::prelude::*;

use crate::arith;
use crate::arith::{Arithmetic, Model, Rounding, Screen, Style};
use crate::lens::DEPTH_LEVELS;
use crate::tape;
use crate::tape::format_price;
use crate::text;
use crate::text::{text_of, trimmed};

verus! {

// ---------------------------------------------------------------------------
// Bins
// ---------------------------------------------------------------------------

/// Whether one number comes before another where what is no number comes last.
pub open spec fn key_before<F>(m: Model<F>, x: F, y: F) -> bool {
    m.equal(x, x) && !m.less_eq(y, x)
}

/// Whether one number comes before another where what is no number comes last.
fn is_before<F: Copy, A: Arithmetic<F>>(a: &A, x: F, y: F) -> (before: bool)
    ensures
        forall|m: Model<F>| #[trigger]
            arith::describes(m, *a) ==> before == key_before(m, x, y),
{
    arith::equal(a, x, x) && !arith::less_eq(a, y, x)
}

/// The price at which the bin of a price begins.
pub open spec fn bin_of<F>(m: Model<F>, price: F, width: F) -> F {
    m.times(m.floor(m.over(price, width)), width)
}

/// The bins, in the order of their prices, after a quantity has been added to
/// one of them, which is made where there is none.
pub open spec fn with_quantity<F>(m: Model<F>, bins: Seq<(F, F)>, price: F, qty: F) -> Seq<(F, F)>
    decreases bins.len(),
{
    if bins.len() > 0 && key_before(m, price, bins.last().0) {
        with_quantity(m, bins.drop_last(), price, qty).push(bins.last())
    } else if bins.len() > 0 && !key_before(m, bins.last().0, price) {
        bins.drop_last().push((bins.last().0, m.plus(bins.last().1, qty)))
    } else {
        bins.push((price, m.plus(m.zero(), qty)))
    }
}

/// The quantities of the levels, gathered into bins.
pub open spec fn binned<F>(m: Model<F>, levels: Seq<(F, F)>, width: F) -> Seq<(F, F)>
    decreases levels.len(),
{
    if levels.len() == 0 {
        Seq::empty()
    } else {
        with_quantity(
            m,
            binned(m, levels.drop_last(), width),
            bin_of(m, levels.last().0, width),
            levels.last().1,
        )
    }
}

/// What adding a quantity changes, given the place of its bin.
proof fn lemma_with_quantity<F>(
    m: Model<F>,
    bins: Seq<(F, F)>,
    price: F,
    qty: F,
    at: int,
)
    requires
        0 <= at <= bins.len(),
        forall|k: int| at <= k < bins.len() ==> key_before(m, price, (#[trigger] bins[k]).0),
        at > 0 ==> !key_before(m, price, bins[at - 1].0),
    ensures
        with_quantity(m, bins, price, qty) == if at > 0 && !key_before(m, bins[at - 1].0, price) {
            bins.update(at - 1, (bins[at - 1].0, m.plus(bins[at - 1].1, qty)))
        } else {
            bins.insert(at, (price, m.plus(m.zero(), qty)))
        },
    decreases bins.len(),
{
    if at == bins.len() {
        if at > 0 && !key_before(m, bins[at - 1].0, price) {
            assert(bins.drop_last().push((bins.last().0, m.plus(bins.last().1, qty)))
                =~= bins.update(at - 1, (bins[at - 1].0, m.plus(bins[at - 1].1, qty))));
        } else {
            assert(bins.insert(at, (price, m.plus(m.zero(), qty))) =~= bins.push(
                (price, m.plus(m.zero(), qty)),
            ));
        }
    } else {
        let front = bins.drop_last();
        assert forall|k: int| at <= k < front.len() implies key_before(
            m,
            price,
            (#[trigger] front[k]).0,
        ) by {
            assert(front[k] == bins[k]);
        }
        lemma_with_quantity(m, front, price, qty, at);
        assert(key_before(m, price, bins[bins.len() - 1].0));
        if at > 0 && !key_before(m, bins[at - 1].0, price) {
            let bin = (bins[at - 1].0, m.plus(bins[at - 1].1, qty));
            assert(front.update(at - 1, bin).push(bins.last()) =~= bins.update(at - 1, bin));
        } else {
            let bin = (price, m.plus(m.zero(), qty));
            assert(front.insert(at, bin).push(bins.last()) =~= bins.insert(at, bin));
        }
    }
}

/// Adds a quantity to its bin.
fn add_quantity<F: Copy, A: Arithmetic<F>>(a: &A, bins: &mut Vec<(F, F)>, price: F, qty: F)
    ensures
        final(bins).len() <= old(bins).len() + 1,
        forall|m: Model<F>| #[trigger]
            arith::describes(m, *a) ==> final(bins)@ == with_quantity(m, old(bins)@, price, qty),
{
    let ghost before = bins@;
    let mut at: usize = bins.len();
    while at > 0
        invariant_except_break
            at <= bins.len(),
            before == bins@,
            forall|m: Model<F>, k: int|
                #![trigger arith::describes(m, *a), before[k]]
                arith::describes(m, *a) && at <= k < before.len() ==> key_before(
                    m,
                    price,
                    before[k].0,
                ),
        ensures
            at <= bins.len(),
            before == bins@,
            forall|m: Model<F>, k: int|
                #![trigger arith::describes(m, *a), before[k]]
                arith::describes(m, *a) && at <= k < before.len() ==> key_before(
                    m,
                    price,
                    before[k].0,
                ),
            forall|m: Model<F>| #[trigger]
                arith::describes(m, *a) ==> at > 0 ==> !key_before(m, price, before[at - 1].0),
        decreases at,
    {
        if !is_before(a, price, bins[at - 1].0) {
            break;
        }
        at -= 1;
    }
    if at > 0 && !is_before(a, bins[at - 1].0, price) {
        let key: F = bins[at - 1].0;
        let sum: F = arith::plus(a, bins[at - 1].1, qty);
        bins.set(at - 1, (key, sum));
    } else {
        let start: F = arith::plus(a, arith::zero(a), qty);
        bins.insert(at, (price, start));
    }
    proof {
        assert forall|m: Model<F>| #[trigger] arith::describes(m, *a) implies bins@
            == with_quantity(m, before, price, qty) by {
            lemma_with_quantity(m, before, price, qty, at as int);
        }
    }
}

/// The quantities of the levels, gathered into bins.
pub fn gather<F: Copy, A: Arithmetic<F>>(a: &A, levels: &Vec<(F, F)>, width: F) -> (bins: Vec<
    (F, F),
>)
    ensures
        bins.len() <= levels.len(),
        forall|m: Model<F>| #[trigger]
            arith::describes(m, *a) ==> bins@ == binned(m, levels@, width),
{
    let mut bins: Vec<(F, F)> = Vec::new();
    let mut i: usize = 0;
    while i < levels.len()
        invariant
            i <= levels.len(),
            bins.len() <= i,
            forall|m: Model<F>| #[trigger]
                arith::describes(m, *a) ==> bins@ == binned(m, levels@.take(i as int), width),
        decreases levels.len() - i,
    {
        proof {
            assert(levels@.take(i as int + 1).drop_last() =~= levels@.take(i as int));
        }
        let (price, qty): (F, F) = levels[i];
        let steps: F = arith::floor(a, arith::over(a, price, width));
        add_quantity(a, &mut bins, arith::times(a, steps, width), qty);
        i += 1;
    }
    proof {
        assert(levels@.take(levels@.len() as int) =~= levels@);
    }
    bins
}

/// The bins of the bids that are shown, the highest first.
pub open spec fn bid_bins<F>(m: Model<F>, levels: Seq<(F, F)>, width: F) -> Seq<(F, F)> {
    tape::first_of(binned(m, levels, width).reverse(), DEPTH_LEVELS as int)
}

/// The bins of the asks that are shown, the lowest first.
pub open spec fn ask_bins<F>(m: Model<F>, levels: Seq<(F, F)>, width: F) -> Seq<(F, F)> {
    tape::first_of(binned(m, levels, width), DEPTH_LEVELS as int)
}

/// The bins of the bids that are shown, the highest first.
pub fn bid_ladder<F: Copy, A: Arithmetic<F>>(a: &A, levels: &Vec<(F, F)>, width: F) -> (bins: Vec<
    (F, F),
>)
    ensures
        bins.len() <= DEPTH_LEVELS,
        forall|m: Model<F>| #[trigger]
            arith::describes(m, *a) ==> bins@ == bid_bins(m, levels@, width),
{
    let all: Vec<(F, F)> = gather(a, levels, width);
    let mut bins: Vec<(F, F)> = Vec::new();
    while bins.len() < all.len() && bins.len() < DEPTH_LEVELS
        invariant
            bins.len() <= all.len(),
            bins.len() <= DEPTH_LEVELS,
            bins@ == all@.reverse().take(bins@.len() as int),
        decreases all.len() - bins.len(),
    {
        let ghost n = bins@.len() as int;
        bins.push(all[all.len() - 1 - bins.len()]);
        proof {
            assert(all@.reverse().take(n).push(all@.reverse()[n]) =~= all@.reverse().take(n + 1));
        }
    }
    proof {
        assert(bins@ =~= tape::first_of(all@.reverse(), DEPTH_LEVELS as int));
    }
    bins
}

/// The bins of the asks that are shown, the lowest first.
pub fn ask_ladder<F: Copy, A: Arithmetic<F>>(a: &A, levels: &Vec<(F, F)>, width: F) -> (bins: Vec<
    (F, F),
>)
    ensures
        bins.len() <= DEPTH_LEVELS,
        forall|m: Model<F>| #[trigger]
            arith::describes(m, *a) ==> bins@ == ask_bins(m, levels@, width),
{
    let mut bins: Vec<(F, F)> = gather(a, levels, width);
    let ghost all = bins@;
    if bins.len() > DEPTH_LEVELS {
        bins.truncate(DEPTH_LEVELS);
    }
    proof {
        assert(bins@ =~= tape::first_of(all, DEPTH_LEVELS as int));
    }
    bins
}

// ---------------------------------------------------------------------------
// Rows
// ---------------------------------------------------------------------------

/// A row of the ladder: its texts and the length of its bar.
#[derive(Debug)]
pub struct LadderRow<P> {
    pub price: String,
    pub qty: String,
    pub is_best: bool,
    pub bar: P,
}

/// The quantities of a list of bins.
pub open spec fn amounts<F>(bins: Seq<(F, F)>) -> Seq<F> {
    Seq::new(bins.len(), |i: int| bins[i].1)
}

/// The length of the longest bar that there is room for.
pub open spec fn bar_room<P>(n: Model<P>, room: P) -> P {
    n.greater(
        n.minus(n.minus(n.minus(room, n.ratio(90, 1)), n.ratio(80, 1)), n.ratio(12, 1)),
        n.ratio(20, 1),
    )
}

/// The length of the longest bar that there is room for.
pub fn bar_width<P: Copy, A: Arithmetic<P>>(a: &A, room: P) -> (width: P)
    ensures
        forall|n: Model<P>| #[trigger] arith::describes(n, *a) ==> width == bar_room(n, room),
{
    let beside_price: P = arith::minus(a, room, arith::ratio(a, 90, 1));
    let beside_qty: P = arith::minus(a, beside_price, arith::ratio(a, 80, 1));
    let rest: P = arith::minus(a, beside_qty, arith::ratio(a, 12, 1));
    arith::greater(a, rest, arith::ratio(a, 20, 1))
}

/// The length of a bar, the greatest quantity taking all the room.
pub open spec fn bar_of<F, P>(o: Screen<F, P>, qty: F, most: F, room: P) -> P {
    let m = o.fine;
    let share = if m.less(m.zero(), most) {
        m.over(qty, most)
    } else {
        m.zero()
    };
    o.coarse.greater(o.coarse.times((o.narrow)(share), room), o.coarse.zero())
}

/// Whether a row shows a bin.
pub open spec fn is_row_of<F, P>(
    o: Screen<F, P>,
    bin: (F, F),
    most: F,
    room: P,
    decimals: usize,
    row: LadderRow<P>,
) -> bool {
    &&& row.price@ == (o.fine.text)(bin.0, Style::Fixed(decimals))
    &&& row.qty@ == (o.fine.text)(bin.1, Style::Fixed(4))
    &&& row.bar == bar_of(o, bin.1, most, room)
}

/// Whether the rows show the bins, the first of which is the best.
pub open spec fn are_rows_of<F, P>(
    o: Screen<F, P>,
    bins: Seq<(F, F)>,
    most: F,
    room: P,
    decimals: usize,
    rows: Seq<LadderRow<P>>,
) -> bool {
    &&& rows.len() == bins.len()
    &&& forall|i: int|
        0 <= i < rows.len() ==> is_row_of(o, bins[i], most, room, decimals, #[trigger] rows[i])
            && rows[i].is_best == (i == 0)
}

/// The rows of a side.
fn rows_of<F: Copy, P: Copy, A: Arithmetic<F> + Arithmetic<P> + Rounding<F, P>>(
    a: &A,
    bins: &Vec<(F, F)>,
    most: F,
    room: P,
    decimals: usize,
) -> (rows: Vec<LadderRow<P>>)
    ensures
        rows.len() == bins.len(),
        forall|o: Screen<F, P>| #[trigger]
            arith::depicts(o, *a) ==> are_rows_of(o, bins@, most, room, decimals, rows@),
{
    let zero: F = arith::zero(a);
    let none: P = arith::zero(a);
    let mut rows: Vec<LadderRow<P>> = Vec::new();
    let mut i: usize = 0;
    while i < bins.len()
        invariant
            i <= bins.len(),
            rows.len() == i,
            forall|o: Screen<F, P>| #[trigger]
                arith::depicts(o, *a) ==> zero == o.fine.zero() && none == o.coarse.zero(),
            forall|o: Screen<F, P>, k: int|
                #![trigger arith::depicts(o, *a), rows@[k]]
                arith::depicts(o, *a) && 0 <= k < i ==> is_row_of(
                    o,
                    bins@[k],
                    most,
                    room,
                    decimals,
                    rows@[k],
                ),
            forall|k: int| 0 <= k < i ==> (#[trigger] rows@[k]).is_best == (k == 0),
        decreases bins.len() - i,
    {
        let (price, qty): (F, F) = bins[i];
        let share: F = if arith::less(a, zero, most) {
            arith::over(a, qty, most)
        } else {
            zero
        };
        let part: P = arith::narrow(a, share);
        rows.push(
            LadderRow {
                price: format_price(a, price, decimals),
                qty: arith::text(a, qty, Style::Fixed(4)),
                is_best: i == 0,
                bar: arith::greater(a, arith::times(a, part, room), none),
            },
        );
        i += 1;
    }
    rows
}

/// What stands between asks and bids.
#[derive(Debug)]
pub enum Middle {
    /// The last trade, and whether a buyer took it.
    LastTrade(String, bool),
    /// The spread, where there is no trade.
    Spread(String),
}

/// Whether the middle tells of the last trade, or of the spread.
pub open spec fn is_middle_of<F>(
    m: Model<F>,
    trades: Seq<(u64, F, F, bool)>,
    spread: F,
    decimals: usize,
    middle: Middle,
) -> bool {
    match middle {
        Middle::LastTrade(line, is_buy) => trades.len() > 0 && is_buy == trades.last().3 && line@
            == "--- LTP: "@ + (m.text)(trades.last().1, Style::Fixed(decimals)) + " ---"@,
        Middle::Spread(line) => trades.len() == 0 && line@ == "--- Spread: "@ + (m.text)(
            spread,
            Style::Fixed(decimals),
        ) + " ---"@,
    }
}

/// The ladder: asks from the lowest up, the middle, and bids from the highest
/// down.
#[derive(Debug)]
pub struct Ladder<P> {
    pub asks: Vec<LadderRow<P>>,
    pub middle: Middle,
    pub bids: Vec<LadderRow<P>>,
}

/// The greatest quantity that the ladder shows.
pub open spec fn greatest_amount<F>(
    m: Model<F>,
    bids: Seq<(F, F)>,
    asks: Seq<(F, F)>,
    width: F,
) -> F {
    m.peak(amounts(bid_bins(m, bids, width)) + amounts(ask_bins(m, asks, width)))
}

/// Whether the ladder shows a book.
pub open spec fn is_ladder_of<F, P>(
    o: Screen<F, P>,
    bids: Seq<(F, F)>,
    asks: Seq<(F, F)>,
    trades: Seq<(u64, F, F, bool)>,
    spread: F,
    width: F,
    room: P,
    decimals: usize,
    ladder: Ladder<P>,
) -> bool {
    let m = o.fine;
    let most = greatest_amount(m, bids, asks, width);
    &&& are_rows_of(o, bid_bins(m, bids, width), most, room, decimals, ladder.bids@)
    &&& are_rows_of(o, ask_bins(m, asks, width), most, room, decimals, ladder.asks@)
    &&& is_middle_of(m, trades, spread, decimals, ladder.middle)
}

/// Appends the quantities of bins to a list.
fn push_amounts<F: Copy>(list: &mut Vec<F>, bins: &Vec<(F, F)>)
    ensures
        final(list)@ == old(list)@ + amounts(bins@),
{
    let ghost before = list@;
    let mut i: usize = 0;
    proof {
        assert(before + amounts(bins@).take(0) =~= before);
    }
    while i < bins.len()
        invariant
            i <= bins.len(),
            list@ == before + amounts(bins@).take(i as int),
        decreases bins.len() - i,
    {
        list.push(bins[i].1);
        proof {
            assert((before + amounts(bins@).take(i as int)).push(bins@[i as int].1) =~= before
                + amounts(bins@).take(i as int + 1));
        }
        i += 1;
    }
    proof {
        assert(amounts(bins@).take(bins@.len() as int) =~= amounts(bins@));
    }
}

/// The ladder of a book in bins of a width, with bars of at most `room`.
pub fn book_ladder<F: Copy, P: Copy, A: Arithmetic<F> + Arithmetic<P> + Rounding<F, P>>(
    a: &A,
    bids: &Vec<(F, F)>,
    asks: &Vec<(F, F)>,
    trades: &Vec<(u64, F, F, bool)>,
    spread: F,
    width: F,
    room: P,
    decimals: usize,
) -> (ladder: Ladder<P>)
    ensures
        ladder.bids.len() <= DEPTH_LEVELS,
        ladder.asks.len() <= DEPTH_LEVELS,
        forall|o: Screen<F, P>| #[trigger]
            arith::depicts(o, *a) ==> is_ladder_of(
                o,
                bids@,
                asks@,
                trades@,
                spread,
                width,
                room,
                decimals,
                ladder,
            ),
{
    let bid_list: Vec<(F, F)> = bid_ladder(a, bids, width);
    let ask_list: Vec<(F, F)> = ask_ladder(a, asks, width);
    let mut list: Vec<F> = Vec::new();
    push_amounts(&mut list, &bid_list);
    push_amounts(&mut list, &ask_list);
    proof {
        assert(list@ =~= amounts(bid_list@) + amounts(ask_list@));
    }
    let most: F = arith::peak(a, &list);
    let middle: Middle = if trades.len() > 0 {
        let last: (u64, F, F, bool) = trades[trades.len() - 1];
        let mut line: String = "--- LTP: ".to_string();
        line.append(&format_price(a, last.1, decimals));
        line.append(" ---");
        Middle::LastTrade(line, last.3)
    } else {
        let mut line: String = "--- Spread: ".to_string();
        line.append(&format_price(a, spread, decimals));
        line.append(" ---");
        Middle::Spread(line)
    };
    Ladder {
        asks: rows_of(a, &ask_list, most, room, decimals),
        middle,
        bids: rows_of(a, &bid_list, most, room, decimals),
    }
}

/// The bin width that a user has entered, where it is above zero; else the one
/// there is.
pub fn read_bin_width<F: Copy, A: Arithmetic<F>>(a: &A, entered: &str, current: F) -> (width: F)
    ensures
        forall|m: Model<F>| #[trigger]
            arith::describes(m, *a) ==> width == match (m.parse)(text::trim(entered@)) {
                Ok(value) if m.less(m.zero(), value) => value,
                _ => current,
            },
{
    match arith::parse(a, &text_of(&trimmed(entered))) {
        Ok(value) => if arith::less(a, arith::zero(a), value) {
            value
        } else {
            current
        },
        Err(_) => current,
    }
}

// ---------------------------------------------------------------------------
// Laws
// ---------------------------------------------------------------------------

/// Whether the order of the bins is one: of two never each comes before the
/// other, and what comes before something that comes before a third comes before
/// the third.
pub open spec fn orders_keys<F>(m: Model<F>) -> bool {
    &&& forall|x: F, y: F| #[trigger] key_before(m, x, y) ==> !key_before(m, y, x)
    &&& forall|x: F, y: F, z: F|
        #![trigger key_before(m, x, y), key_before(m, y, z)]
        key_before(m, x, y) && key_before(m, y, z) ==> key_before(m, x, z)
}

/// Whether the bins come in the order of their prices, no two at one price.
pub open spec fn ascend<F>(m: Model<F>, bins: Seq<(F, F)>) -> bool {
    forall|i: int, j: int|
        0 <= i < j < bins.len() ==> key_before(m, (#[trigger] bins[i]).0, (#[trigger] bins[j]).0)
}

proof fn lemma_quantity_keeps_order<F>(m: Model<F>, bins: Seq<(F, F)>, price: F, qty: F)
    requires
        orders_keys(m),
        ascend(m, bins),
    ensures
        ascend(m, with_quantity(m, bins, price, qty)),
        forall|i: int|
            0 <= i < with_quantity(m, bins, price, qty).len() ==> ({
                let key = (#[trigger] with_quantity(m, bins, price, qty)[i]).0;
                key == price || exists|k: int| 0 <= k < bins.len() && (#[trigger] bins[k]).0 == key
            }),
    decreases bins.len(),
{
    let after = with_quantity(m, bins, price, qty);
    if bins.len() > 0 && key_before(m, price, bins.last().0) {
        let front = bins.drop_last();
        assert(ascend(m, front)) by {
            assert forall|i: int, j: int| 0 <= i < j < front.len() implies key_before(
                m,
                (#[trigger] front[i]).0,
                (#[trigger] front[j]).0,
            ) by {
                assert(front[i] == bins[i] && front[j] == bins[j]);
            }
        }
        lemma_quantity_keeps_order(m, front, price, qty);
        let head = with_quantity(m, front, price, qty);
        assert forall|i: int, j: int| 0 <= i < j < after.len() implies key_before(
            m,
            (#[trigger] after[i]).0,
            (#[trigger] after[j]).0,
        ) by {
            if j < head.len() {
                assert(after[i] == head[i] && after[j] == head[j]);
            } else {
                assert(after[i] == head[i]);
                if head[i].0 != price {
                    let k = choose|k: int|
                        0 <= k < front.len() && (#[trigger] front[k]).0 == head[i].0;
                    assert(front[k] == bins[k]);
                    assert(key_before(m, bins[k].0, bins[bins.len() - 1].0));
                }
            }
        }
        assert forall|i: int| 0 <= i < after.len() implies ({
            let key = (#[trigger] after[i]).0;
            key == price || exists|k: int| 0 <= k < bins.len() && (#[trigger] bins[k]).0 == key
        }) by {
            if i < head.len() {
                assert(after[i] == head[i]);
                if head[i].0 != price {
                    let k = choose|k: int|
                        0 <= k < front.len() && (#[trigger] front[k]).0 == head[i].0;
                    assert(bins[k] == front[k]);
                }
            } else {
                assert(bins[bins.len() - 1] == after[i]);
            }
        }
    } else {
        let kept = bins.len() > 0 && !key_before(m, bins.last().0, price);
        assert forall|i: int, j: int| 0 <= i < j < after.len() implies key_before(
            m,
            (#[trigger] after[i]).0,
            (#[trigger] after[j]).0,
        ) by {
            if kept {
                assert(after[i].0 == bins[i].0 && after[j].0 == bins[j].0);
            } else if j < bins.len() {
                assert(after[i] == bins[i] && after[j] == bins[j]);
            } else {
                assert(after[i] == bins[i] && after[j].0 == price);
                assert(key_before(m, bins.last().0, price));
                if i < bins.len() - 1 {
                    assert(key_before(m, bins[i].0, bins[bins.len() - 1].0));
                }
            }
        }
        assert forall|i: int| 0 <= i < after.len() implies ({
            let key = (#[trigger] after[i]).0;
            key == price || exists|k: int| 0 <= k < bins.len() && (#[trigger] bins[k]).0 == key
        }) by {
            if kept || i < bins.len() {
                assert(bins[i].0 == after[i].0);
            }
        }
    }
}

/// The bins come in the order of their prices, no two at one price.
pub proof fn law_bins_ascend<F>(m: Model<F>, levels: Seq<(F, F)>, width: F)
    requires
        orders_keys(m),
    ensures
        ascend(m, binned(m, levels, width)),
    decreases levels.len(),
{
    if levels.len() > 0 {
        law_bins_ascend(m, levels.drop_last(), width);
        lemma_quantity_keeps_order(
            m,
            binned(m, levels.drop_last(), width),
            bin_of(m, levels.last().0, width),
            levels.last().1,
        );
    }
}

/// What the levels or bins of a list hold together.
pub open spec fn held<F>(v: spec_fn(F) -> real, levels: Seq<(F, F)>) -> real {
    arith::total(Seq::new(levels.len(), |i: int| v(levels[i].1)))
}

/// In exact arithmetic the bins hold together what the levels hold: no quantity
/// is lost or counted twice.
pub proof fn law_bins_hold_what_the_levels_hold<F>(
    m: Model<F>,
    v: spec_fn(F) -> real,
    levels: Seq<(F, F)>,
    width: F,
)
    requires
        arith::is_exact(m, v),
    ensures
        held(v, binned(m, levels, width)) == held(v, levels),
    decreases levels.len(),
{
    if levels.len() > 0 {
        let front = levels.drop_last();
        law_bins_hold_what_the_levels_hold(m, v, front, width);
        let last = levels.last();
        lemma_quantity_is_added(
            m,
            v,
            binned(m, front, width),
            bin_of(m, last.0, width),
            last.1,
        );
        let all = Seq::new(levels.len(), |i: int| v(levels[i].1));
        assert(all.drop_last() =~= Seq::new(front.len(), |i: int| v(front[i].1)));
    }
}

proof fn lemma_quantity_is_added<F>(
    m: Model<F>,
    v: spec_fn(F) -> real,
    bins: Seq<(F, F)>,
    price: F,
    qty: F,
)
    requires
        arith::is_exact(m, v),
    ensures
        held(v, with_quantity(m, bins, price, qty)) == held(v, bins) + v(qty),
    decreases bins.len(),
{
    arith::lemma_whole_number(m, v, 0);
    let after = with_quantity(m, bins, price, qty);
    let new = Seq::new(after.len(), |i: int| v(after[i].1));
    let old_values = Seq::new(bins.len(), |i: int| v(bins[i].1));
    if bins.len() > 0 && key_before(m, price, bins.last().0) {
        let front = bins.drop_last();
        lemma_quantity_is_added(m, v, front, price, qty);
        let head = with_quantity(m, front, price, qty);
        assert(new.drop_last() =~= Seq::new(head.len(), |i: int| v(head[i].1)));
        assert(old_values.drop_last() =~= Seq::new(front.len(), |i: int| v(front[i].1)));
    } else if bins.len() > 0 && !key_before(m, bins.last().0, price) {
        let front = bins.drop_last();
        assert(new.drop_last() =~= Seq::new(front.len(), |i: int| v(front[i].1)));
        assert(old_values.drop_last() =~= Seq::new(front.len(), |i: int| v(front[i].1)));
    } else {
        assert(new.drop_last() =~= old_values);
    }
}

/// In exact arithmetic the bin of a price begins at a multiple of the width, at
/// the price or less than a width below it.
pub proof fn law_bin_begins_below_its_prices<F>(
    m: Model<F>,
    v: spec_fn(F) -> real,
    price: F,
    width: F,
)
    requires
        arith::rounds_exactly(m, v),
        v(width) > 0real,
    ensures
        ({
            let bin = v(bin_of(m, price, width));
            &&& exists|n: int| bin == (#[trigger] arith::whole_value(n)) * v(width)
            &&& bin <= v(price) < bin + v(width)
        }),
{
    let w = v(width);
    let p = v(price);
    let part = p / w;
    arith::lemma_quotient(p, w);
    let low = v(m.floor(m.over(price, width)));
    assert(arith::is_whole(low));
    let n = choose|n: int| low == #[trigger] arith::whole_value(n);
    assert(v(bin_of(m, price, width)) == arith::whole_value(n) * w);
    assert(low * w <= p < low * w + w) by (nonlinear_arith)
        requires
            part * w == p,
            low <= part < low + 1real,
            w > 0real,
    ;
}

/// The bins of bids that are shown come from the highest down and those of asks
/// from the lowest up, and none that is left out is nearer to the middle than one
/// that is shown.
pub proof fn law_ladders_start_at_the_best<F>(m: Model<F>, levels: Seq<(F, F)>, width: F)
    requires
        orders_keys(m),
    ensures
        ({
            let all = binned(m, levels, width);
            let bids = bid_bins(m, levels, width);
            let asks = ask_bins(m, levels, width);
            let shown = if all.len() < DEPTH_LEVELS {
                all.len() as int
            } else {
                DEPTH_LEVELS as int
            };
            &&& bids.len() == shown && asks.len() == shown
            &&& forall|i: int, j: int|
                0 <= i < j < shown ==> key_before(m, (#[trigger] bids[j]).0, (#[trigger] bids[i]).0)
            &&& forall|i: int, j: int|
                0 <= i < j < shown ==> key_before(m, (#[trigger] asks[i]).0, (#[trigger] asks[j]).0)
            &&& forall|k: int|
                0 <= k < all.len() ==> bids.contains(#[trigger] all[k]) || forall|i: int|
                    0 <= i < shown ==> key_before(m, all[k].0, (#[trigger] bids[i]).0)
            &&& forall|k: int|
                0 <= k < all.len() ==> asks.contains(#[trigger] all[k]) || forall|i: int|
                    0 <= i < shown ==> key_before(m, (#[trigger] asks[i]).0, all[k].0)
        }),
{
    law_bins_ascend(m, levels, width);
    let all = binned(m, levels, width);
    let bids = bid_bins(m, levels, width);
    let asks = ask_bins(m, levels, width);
    let n = all.len() as int;
    let shown = if n < DEPTH_LEVELS {
        n
    } else {
        DEPTH_LEVELS as int
    };
    assert forall|i: int| 0 <= i < shown implies #[trigger] bids[i] == all[n - 1 - i] by {}
    assert forall|i: int| 0 <= i < shown implies #[trigger] asks[i] == all[i] by {}
    assert forall|k: int| 0 <= k < n implies bids.contains(#[trigger] all[k]) || forall|i: int|
        0 <= i < shown ==> key_before(m, all[k].0, (#[trigger] bids[i]).0) by {
        if n - 1 - k < shown {
            assert(bids[n - 1 - k] == all[k]);
        } else {
            assert forall|i: int| 0 <= i < shown implies key_before(
                m,
                all[k].0,
                (#[trigger] bids[i]).0,
            ) by {
                assert(bids[i] == all[n - 1 - i]);
            }
        }
    }
    assert forall|k: int| 0 <= k < n implies asks.contains(#[trigger] all[k]) || forall|i: int|
        0 <= i < shown ==> key_before(m, (#[trigger] asks[i]).0, all[k].0) by {
        if k < shown {
            assert(asks[k] == all[k]);
        } else {
            assert forall|i: int| 0 <= i < shown implies key_before(
                m,
                (#[trigger] asks[i]).0,
                all[k].0,
            ) by {
                assert(asks[i] == all[i]);
            }
        }
    }
}

/// In exact arithmetic a bar takes as much of the room as its quantity is of the
/// greatest.
pub proof fn law_bars_share_the_room<F, P>(
    o: Screen<F, P>,
    v: spec_fn(F) -> real,
    u: spec_fn(P) -> real,
    qty: F,
    most: F,
    room: P,
)
    requires
        arith::is_exact(o.fine, v),
        arith::is_exact(o.coarse, u),
        forall|x: F| u(#[trigger] (o.narrow)(x)) == v(x),
        v(qty) >= 0real,
        v(most) > 0real,
        u(room) >= 0real,
    ensures
        u(bar_of(o, qty, most, room)) * v(most) == v(qty) * u(room),
{
    arith::lemma_whole_number(o.fine, v, 0);
    arith::lemma_whole_number(o.coarse, u, 0);
    let (q, t, r) = (v(qty), v(most), u(room));
    arith::lemma_quotient(q, t);
    let part = q / t;
    assert(part >= 0real) by (nonlinear_arith)
        requires
            part * t == q,
            q >= 0real,
            t > 0real,
    ;
    assert(part * r >= 0real) by (nonlinear_arith)
        requires
            part >= 0real,
            r >= 0real,
    ;
    assert((part * r) * t == q * r) by (nonlinear_arith)
        requires
            part * t == q,
    ;
}

} // verus!

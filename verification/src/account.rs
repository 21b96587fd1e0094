//! What the exchange reports of an account, and round trips rebuilt from fills.

use vstd::prelude::*;

use crate::arith;
use crate::arith::{Arithmetic, Model};
use crate::text;

verus! {

/// One entry of the log of calls to the exchange.
#[derive(Debug)]
pub struct ApiLogEntry {
    /// Milliseconds since the epoch.
    pub timestamp_ms: u64,
    /// `GET`, `POST` or `DELETE`.
    pub method: String,
    pub endpoint: String,
    /// None where no response came.
    pub status_code: Option<u16>,
    /// The response, or what went wrong.
    pub error_body: String,
    pub is_error: bool,
}

impl Clone for ApiLogEntry {
    fn clone(&self) -> (copy: ApiLogEntry)
        ensures
            copy == *self,
    {
        ApiLogEntry {
            timestamp_ms: self.timestamp_ms,
            method: self.method.clone(),
            endpoint: self.endpoint.clone(),
            status_code: self.status_code,
            error_body: self.error_body.clone(),
            is_error: self.is_error,
        }
    }
}

/// Balances of an account.
#[derive(Debug)]
pub struct AccountInfo<F> {
    pub total_wallet_balance: F,
    /// Wallet balance and unrealised profit together.
    pub total_margin_balance: F,
    /// What is free for trading.
    pub available_balance: F,
    pub unrealized_pnl: F,
    pub assets: Vec<AssetBalance<F>>,
}

/// Balance of one asset.
#[derive(Debug)]
pub struct AssetBalance<F> {
    pub asset: String,
    pub wallet_balance: F,
    pub unrealized_profit: F,
}

/// The position held in one symbol.
#[derive(Debug)]
pub struct PositionInfo<F> {
    pub symbol: String,
    /// Positive for a long position, negative for a short one.
    pub position_amt: F,
    pub entry_price: F,
    pub unrealized_pnl: F,
    pub leverage: u32,
    /// `isolated` or `cross`.
    pub margin_type: String,
}

/// What became of an order.
#[derive(Debug)]
pub struct OrderResult<F> {
    pub order_id: u64,
    pub symbol: String,
    pub side: String,
    pub price: F,
    pub orig_qty: F,
    pub executed_qty: F,
    pub status: String,
    pub order_type: String,
}

/// A fill of the account.
#[derive(Debug)]
pub struct UserTrade<F> {
    pub id: u64,
    pub symbol: String,
    /// `BUY` or `SELL`.
    pub side: String,
    pub price: F,
    pub qty: F,
    pub realized_pnl: F,
    pub commission: F,
    pub commission_asset: String,
    /// Milliseconds since the epoch.
    pub time: u64,
    pub position_side: String,
    pub buyer: bool,
    pub maker: bool,
}

/// A position from its opening to its close.
#[derive(Debug)]
pub struct RoundTripTrade<F> {
    /// Counted from one.
    pub id: u64,
    /// `LONG` or `SHORT`.
    pub side: String,
    pub entry_time_ms: u64,
    pub exit_time_ms: u64,
    /// Average price of the entries, weighted by volume.
    pub entry_price: F,
    /// Average price of the exits, weighted by volume.
    pub exit_price: F,
    /// Total quantity that was closed.
    pub quantity: F,
    pub realized_pnl: F,
    pub commission: F,
    /// Realised profit less the commission paid.
    pub net_pnl: F,
}

// ---------------------------------------------------------------------------
// Round trips
// ---------------------------------------------------------------------------

/// What a round trip holds.
#[verifier::ext_equal]
pub struct TripView<F> {
    pub id: u64,
    pub side: Seq<char>,
    pub entry_time_ms: u64,
    pub exit_time_ms: u64,
    pub entry_price: F,
    pub exit_price: F,
    pub quantity: F,
    pub realized_pnl: F,
    pub commission: F,
    pub net_pnl: F,
}

impl<F> View for RoundTripTrade<F> {
    type V = TripView<F>;

    open spec fn view(&self) -> TripView<F> {
        TripView {
            id: self.id,
            side: self.side@,
            entry_time_ms: self.entry_time_ms,
            exit_time_ms: self.exit_time_ms,
            entry_price: self.entry_price,
            exit_price: self.exit_price,
            quantity: self.quantity,
            realized_pnl: self.realized_pnl,
            commission: self.commission,
            net_pnl: self.net_pnl,
        }
    }
}

/// The position while fills are walked through.
///
/// `qty` is positive for a long position and negative for a short one. `entered`
/// is how much all the entries took and `cost` what that was worth, the parts
/// closed since among them. `exits` counts the fills that closed a part of the
/// position, `exited` is how much they closed and `proceeds` what that was worth.
pub struct Walk<F> {
    pub qty: F,
    pub entered: F,
    pub cost: F,
    pub entry_time_ms: u64,
    pub long: bool,
    pub commission: F,
    pub realized_pnl: F,
    pub exits: u64,
    pub exited: F,
    pub proceeds: F,
}

/// The word for the direction of a position.
pub open spec fn direction_word(long: bool) -> Seq<char> {
    if long {
        "LONG"@
    } else {
        "SHORT"@
    }
}

/// A quantity too small to count.
pub open spec fn is_dust<F>(m: Model<F>, x: F) -> bool {
    m.less(m.abs(x), m.ratio(1, 1_000_000_000_000_000))
}

/// The quantity of a fill, negative for a sale.
pub open spec fn signed_qty<F>(m: Model<F>, fill: UserTrade<F>) -> F {
    if fill.side@ == "BUY"@ {
        fill.qty
    } else {
        m.neg(fill.qty)
    }
}

/// No position.
pub open spec fn idle<F>(m: Model<F>) -> Walk<F> {
    Walk {
        qty: m.zero(),
        entered: m.zero(),
        cost: m.zero(),
        entry_time_ms: 0,
        long: false,
        commission: m.zero(),
        realized_pnl: m.zero(),
        exits: 0,
        exited: m.zero(),
        proceeds: m.zero(),
    }
}

/// What a fill does.
pub enum FillRole {
    Open,
    Add,
    Reduce,
    Close,
}

/// How much of the position a fill closes.
pub open spec fn closed_qty<F>(m: Model<F>, w: Walk<F>, fill: UserTrade<F>) -> F {
    m.lesser(m.abs(signed_qty(m, fill)), m.abs(w.qty))
}

/// What a fill does: open a position where there is none, add to it in its own
/// direction, and otherwise close a part of it or all.
pub open spec fn role_of<F>(m: Model<F>, w: Walk<F>, fill: UserTrade<F>) -> FillRole {
    if is_dust(m, w.qty) {
        FillRole::Open
    } else if m.less(m.zero(), m.times(w.qty, signed_qty(m, fill))) {
        FillRole::Add
    } else if is_dust(m, m.minus(m.abs(w.qty), closed_qty(m, w, fill))) {
        FillRole::Close
    } else {
        FillRole::Reduce
    }
}

/// The position after a fill.
pub open spec fn walked<F>(m: Model<F>, w: Walk<F>, fill: UserTrade<F>) -> Walk<F> {
    let signed = signed_qty(m, fill);
    let qty = m.plus(w.qty, signed);
    let worth = m.times(fill.price, fill.qty);
    let part = closed_qty(m, w, fill);
    match role_of(m, w, fill) {
        FillRole::Open => Walk {
            qty,
            entered: m.abs(qty),
            cost: worth,
            entry_time_ms: fill.time,
            long: m.less(m.zero(), signed),
            commission: fill.commission,
            realized_pnl: fill.realized_pnl,
            exits: 0,
            exited: m.zero(),
            proceeds: m.zero(),
        },
        FillRole::Add => Walk {
            qty,
            entered: m.plus(w.entered, fill.qty),
            cost: m.plus(w.cost, worth),
            commission: m.plus(w.commission, fill.commission),
            realized_pnl: m.plus(w.realized_pnl, fill.realized_pnl),
            ..w
        },
        FillRole::Reduce => Walk {
            qty,
            commission: m.plus(w.commission, fill.commission),
            realized_pnl: m.plus(w.realized_pnl, fill.realized_pnl),
            exits: (w.exits + 1) as u64,
            exited: m.plus(w.exited, part),
            proceeds: m.plus(w.proceeds, m.times(fill.price, part)),
            ..w
        },
        FillRole::Close => {
            let excess = m.minus(m.abs(signed), part);
            if m.less(m.ratio(1, 1_000_000_000_000_000), m.abs(excess)) {
                Walk {
                    qty,
                    entered: m.abs(qty),
                    cost: m.times(fill.price, excess),
                    entry_time_ms: fill.time,
                    long: m.less(m.zero(), signed),
                    commission: m.zero(),
                    realized_pnl: m.zero(),
                    exits: 0,
                    exited: m.zero(),
                    proceeds: m.zero(),
                }
            } else {
                Walk {
                    qty,
                    entered: m.zero(),
                    cost: m.zero(),
                    commission: m.zero(),
                    realized_pnl: m.zero(),
                    exits: 0,
                    exited: m.zero(),
                    proceeds: m.zero(),
                    ..w
                }
            }
        },
    }
}

/// The round trip that a fill finishes.
pub open spec fn trip_of<F>(m: Model<F>, w: Walk<F>, fill: UserTrade<F>, id: u64) -> TripView<F> {
    let size = m.abs(w.qty);
    let commission = m.plus(w.commission, fill.commission);
    let realized_pnl = m.plus(w.realized_pnl, fill.realized_pnl);
    let quantity = m.plus(w.exited, size);
    TripView {
        id,
        side: direction_word(w.long),
        entry_time_ms: w.entry_time_ms,
        exit_time_ms: fill.time,
        entry_price: if m.less(m.ratio(1, 1_000_000_000_000_000), w.entered) {
            m.over(w.cost, w.entered)
        } else {
            fill.price
        },
        exit_price: if w.exits == 0 {
            fill.price
        } else {
            m.over(m.plus(w.proceeds, m.times(fill.price, size)), quantity)
        },
        quantity: if w.exits == 0 {
            size
        } else {
            quantity
        },
        realized_pnl,
        commission,
        net_pnl: m.minus(realized_pnl, m.abs(commission)),
    }
}

/// The position after some fills.
pub open spec fn walk_of<F>(m: Model<F>, fills: Seq<UserTrade<F>>) -> Walk<F>
    decreases fills.len(),
{
    if fills.len() == 0 {
        idle(m)
    } else {
        walked(m, walk_of(m, fills.drop_last()), fills.last())
    }
}

/// The round trips that some fills make up.
pub open spec fn trips_of<F>(m: Model<F>, fills: Seq<UserTrade<F>>) -> Seq<TripView<F>>
    decreases fills.len(),
{
    if fills.len() == 0 {
        Seq::empty()
    } else {
        let before = trips_of(m, fills.drop_last());
        let w = walk_of(m, fills.drop_last());
        if role_of(m, w, fills.last()) is Close {
            before.push(trip_of(m, w, fills.last(), (before.len() + 1) as u64))
        } else {
            before
        }
    }
}

/// What the round trips of a list hold.
pub open spec fn trip_views<F>(trips: Seq<RoundTripTrade<F>>) -> Seq<TripView<F>> {
    Seq::new(trips.len(), |i: int| trips[i]@)
}

/// The position after a fill and, where the fill finishes one, the round trip.
fn step_walk<F: Copy, A: Arithmetic<F>>(
    a: &A,
    w: Walk<F>,
    fill: &UserTrade<F>,
    id: u64,
) -> (next: (Walk<F>, Option<RoundTripTrade<F>>))
    requires
        w.exits < u64::MAX,
    ensures
        next.0.exits <= w.exits + 1,
        next.1 matches Some(trip) ==> trip.id == id && (trip.side@ == "LONG"@ || trip.side@
            == "SHORT"@) && trip.exit_time_ms == fill.time,
        forall|m: Model<F>| #[trigger]
            arith::describes(m, *a) ==> {
                &&& next.0 == walked(m, w, *fill)
                &&& next.1 is Some <==> role_of(m, w, *fill) is Close
                &&& next.1 matches Some(trip) ==> trip@ == trip_of(m, w, *fill, id)
            },
{
    let zero: F = arith::zero(a);
    let dust: F = arith::ratio(a, 1, 1_000_000_000_000_000);
    let signed: F = if text::same_text(&fill.side, "BUY") {
        fill.qty
    } else {
        arith::neg(a, fill.qty)
    };
    let up: bool = arith::less(a, zero, signed);
    let worth: F = arith::times(a, fill.price, fill.qty);
    let qty: F = arith::plus(a, w.qty, signed);
    let size: F = arith::abs(a, w.qty);
    if arith::less(a, size, dust) {
        return (
            Walk {
                qty,
                entered: arith::abs(a, qty),
                cost: worth,
                entry_time_ms: fill.time,
                long: up,
                commission: fill.commission,
                realized_pnl: fill.realized_pnl,
                exits: 0,
                exited: zero,
                proceeds: zero,
            },
            None,
        );
    }
    let commission: F = arith::plus(a, w.commission, fill.commission);
    let realized_pnl: F = arith::plus(a, w.realized_pnl, fill.realized_pnl);
    let product: F = arith::times(a, w.qty, signed);
    if arith::less(a, zero, product) {
        return (
            Walk {
                qty,
                entered: arith::plus(a, w.entered, fill.qty),
                cost: arith::plus(a, w.cost, worth),
                entry_time_ms: w.entry_time_ms,
                long: w.long,
                commission,
                realized_pnl,
                exits: w.exits,
                exited: w.exited,
                proceeds: w.proceeds,
            },
            None,
        );
    }
    let fill_size: F = arith::abs(a, signed);
    let part: F = arith::lesser(a, fill_size, size);
    let remaining: F = arith::minus(a, size, part);
    let rest: F = arith::abs(a, remaining);
    if !arith::less(a, rest, dust) {
        let part_worth: F = arith::times(a, fill.price, part);
        return (
            Walk {
                qty,
                entered: w.entered,
                cost: w.cost,
                entry_time_ms: w.entry_time_ms,
                long: w.long,
                commission,
                realized_pnl,
                exits: w.exits + 1,
                exited: arith::plus(a, w.exited, part),
                proceeds: arith::plus(a, w.proceeds, part_worth),
            },
            None,
        );
    }
    let entry_price: F = if arith::less(a, dust, w.entered) {
        arith::over(a, w.cost, w.entered)
    } else {
        fill.price
    };
    let total: F = arith::plus(a, w.exited, size);
    let last_worth: F = arith::times(a, fill.price, size);
    let all_worth: F = arith::plus(a, w.proceeds, last_worth);
    let average: F = arith::over(a, all_worth, total);
    let paid: F = arith::abs(a, commission);
    let side: String = if w.long {
        "LONG".to_string()
    } else {
        "SHORT".to_string()
    };
    let trip = RoundTripTrade {
        id,
        side,
        entry_time_ms: w.entry_time_ms,
        exit_time_ms: fill.time,
        entry_price,
        exit_price: if w.exits == 0 {
            fill.price
        } else {
            average
        },
        quantity: if w.exits == 0 {
            size
        } else {
            total
        },
        realized_pnl,
        commission,
        net_pnl: arith::minus(a, realized_pnl, paid),
    };
    let excess: F = arith::minus(a, fill_size, part);
    let excess_size: F = arith::abs(a, excess);
    let next = if arith::less(a, dust, excess_size) {
        Walk {
            qty,
            entered: arith::abs(a, qty),
            cost: arith::times(a, fill.price, excess),
            entry_time_ms: fill.time,
            long: up,
            commission: zero,
            realized_pnl: zero,
            exits: 0,
            exited: zero,
            proceeds: zero,
        }
    } else {
        Walk {
            qty,
            entered: zero,
            cost: zero,
            entry_time_ms: w.entry_time_ms,
            long: w.long,
            commission: zero,
            realized_pnl: zero,
            exits: 0,
            exited: zero,
            proceeds: zero,
        }
    };
    (next, Some(trip))
}

/// Rebuilds round trips from fills in the order of time: a position is followed
/// from its opening, through further entries and partial exits, to the fill
/// that closes it. A fill that goes beyond the close opens the next position.
pub fn pair_round_trips<F: Copy, A: Arithmetic<F>>(a: &A, fills: &Vec<UserTrade<F>>) -> (trips:
    Vec<RoundTripTrade<F>>)
    ensures
        trips.len() <= fills.len(),
        forall|i: int|
            0 <= i < trips.len() ==> (#[trigger] trips@[i]).id == i + 1 && (trips@[i].side@
                == "LONG"@ || trips@[i].side@ == "SHORT"@),
        forall|m: Model<F>| #[trigger]
            arith::describes(m, *a) ==> trip_views(trips@) == trips_of(m, fills@),
{
    let zero: F = arith::zero(a);
    let mut w: Walk<F> = Walk {
        qty: zero,
        entered: zero,
        cost: zero,
        entry_time_ms: 0,
        long: false,
        commission: zero,
        realized_pnl: zero,
        exits: 0,
        exited: zero,
        proceeds: zero,
    };
    let mut trips: Vec<RoundTripTrade<F>> = Vec::new();
    let mut i: usize = 0;
    proof {
        assert forall|m: Model<F>| #[trigger] arith::describes(m, *a) implies trip_views(trips@)
            == trips_of(m, fills@.take(0)) by {
            assert(trip_views(trips@) =~= trips_of(m, fills@.take(0)));
        }
    }
    while i < fills.len()
        invariant
            i <= fills.len(),
            trips.len() <= i,
            w.exits <= i,
            forall|k: int|
                0 <= k < trips.len() ==> (#[trigger] trips@[k]).id == k + 1 && (trips@[k].side@
                    == "LONG"@ || trips@[k].side@ == "SHORT"@),
            forall|m: Model<F>| #[trigger]
                arith::describes(m, *a) ==> w == walk_of(m, fills@.take(i as int)) && trip_views(
                    trips@,
                ) == trips_of(m, fills@.take(i as int)),
        decreases fills.len() - i,
    {
        proof {
            assert(fills@.take(i as int + 1).drop_last() =~= fills@.take(i as int));
        }
        let ghost before = trips@;
        let id: u64 = trips.len() as u64 + 1;
        let (next, finished) = step_walk(a, w, &fills[i], id);
        if let Some(trip) = finished {
            trips.push(trip);
            proof {
                assert(trip_views(trips@) =~= trip_views(before).push(trip@));
            }
        }
        w = next;
        i += 1;
    }
    proof {
        assert(fills@.take(fills@.len() as int) =~= fills@);
    }
    trips
}

// ---------------------------------------------------------------------------
// Laws
// ---------------------------------------------------------------------------

/// Round trips are numbered from one without a gap, and later fills never change
/// a round trip that has been finished.
pub proof fn law_trips_are_numbered_and_kept<F>(m: Model<F>, fills: Seq<UserTrade<F>>, n: int)
    requires
        0 <= n <= fills.len(),
        fills.len() < u64::MAX,
    ensures
        trips_of(m, fills).len() <= fills.len(),
        forall|i: int|
            0 <= i < trips_of(m, fills).len() ==> (#[trigger] trips_of(m, fills)[i]).id == i + 1,
        trips_of(m, fills.take(n)).len() <= trips_of(m, fills).len(),
        trips_of(m, fills).take(trips_of(m, fills.take(n)).len() as int) == trips_of(
            m,
            fills.take(n),
        ),
    decreases fills.len(),
{
    if fills.len() > 0 {
        let front = fills.drop_last();
        if n == fills.len() {
            law_trips_are_numbered_and_kept(m, front, 0);
            assert(fills.take(n) =~= fills);
            assert(trips_of(m, fills).take(trips_of(m, fills).len() as int) =~= trips_of(m, fills));
        } else {
            law_trips_are_numbered_and_kept(m, front, n);
            assert(front.take(n) =~= fills.take(n));
            let early = trips_of(m, fills.take(n));
            assert(trips_of(m, fills).take(early.len() as int) =~= trips_of(m, front).take(
                early.len() as int,
            ));
        }
    } else {
        assert(fills.take(n) =~= fills);
        assert(trips_of(m, fills).take(0) =~= trips_of(m, fills));
    }
}

/// The quantities of fills, those of sales below zero.
pub open spec fn signed_quantities<F>(m: Model<F>, fills: Seq<UserTrade<F>>) -> Seq<F> {
    Seq::new(
        fills.len(),
        |i: int|
            if fills[i].side@ == "BUY"@ {
                fills[i].qty
            } else {
                m.neg(fills[i].qty)
            },
    )
}

/// The position after some fills is what they bought less what they sold.
pub proof fn law_position_is_the_sum_of_fills<F>(m: Model<F>, fills: Seq<UserTrade<F>>)
    ensures
        walk_of(m, fills).qty == m.sum(signed_quantities(m, fills)),
    decreases fills.len(),
{
    if fills.len() > 0 {
        let front = fills.drop_last();
        law_position_is_the_sum_of_fills(m, front);
        assert(signed_quantities(m, fills).drop_last() =~= signed_quantities(m, front));
    }
}

/// Round trips numbered on from some that came before.
pub open spec fn renumbered<F>(trips: Seq<TripView<F>>, before: nat) -> Seq<TripView<F>> {
    Seq::new(trips.len(), |i: int| TripView { id: (trips[i].id + before) as u64, ..trips[i] })
}

/// Every fill counts towards one round trip only: where the position is flat
/// after the first `n` fills, the round trips of all fills are those of the first
/// `n` and then those of the others taken alone, but for their numbers.
pub proof fn law_trips_split_where_flat<F>(m: Model<F>, fills: Seq<UserTrade<F>>, n: int)
    requires
        0 <= n <= fills.len(),
        fills.len() < u64::MAX,
        m.sum(signed_quantities(m, fills.take(n))) == m.zero(),
        m.less(m.abs(m.zero()), m.ratio(1, 1_000_000_000_000_000)),
    ensures
        trips_of(m, fills) == trips_of(m, fills.take(n)) + renumbered(
            trips_of(m, fills.skip(n)),
            trips_of(m, fills.take(n)).len(),
        ),
    decreases fills.len(),
{
    law_position_is_the_sum_of_fills(m, fills.take(n));
    lemma_trips_after_flat(m, fills, n);
}

proof fn lemma_trips_after_flat<F>(m: Model<F>, fills: Seq<UserTrade<F>>, n: int)
    requires
        0 <= n <= fills.len(),
        fills.len() < u64::MAX,
        walk_of(m, fills.take(n)).qty == m.zero(),
        m.less(m.abs(m.zero()), m.ratio(1, 1_000_000_000_000_000)),
    ensures
        n < fills.len() ==> walk_of(m, fills) == walk_of(m, fills.skip(n)),
        trips_of(m, fills) == trips_of(m, fills.take(n)) + renumbered(
            trips_of(m, fills.skip(n)),
            trips_of(m, fills.take(n)).len(),
        ),
    decreases fills.len(),
{
    let head = trips_of(m, fills.take(n));
    let rest = fills.skip(n);
    if n == fills.len() {
        assert(fills.take(n) =~= fills);
        assert(rest.len() == 0);
        assert(renumbered(trips_of(m, rest), head.len()) =~= Seq::empty());
        assert(head + renumbered(trips_of(m, rest), head.len()) =~= head);
    } else {
        let front = fills.drop_last();
        assert(front.take(n) =~= fills.take(n));
        assert(front.skip(n) =~= rest.drop_last());
        lemma_trips_after_flat(m, front, n);
        assert(rest.last() == fills.last());
        let fill = fills.last();
        let w = walk_of(m, front);
        let u = walk_of(m, front.skip(n));
        if n == front.len() {
            assert(front.take(n) =~= front);
            assert(front.skip(n).len() == 0);
            assert(u == idle(m));
            assert(role_of(m, w, fill) is Open);
            assert(role_of(m, u, fill) is Open);
        } else {
            assert(w == u);
        }
        assert(walk_of(m, fills) == walk_of(m, rest));
        let before = trips_of(m, front);
        let tail = trips_of(m, front.skip(n));
        law_trips_are_numbered_and_kept(m, fills, 0);
        law_trips_are_numbered_and_kept(m, rest, 0);
        if role_of(m, w, fill) is Close {
            let id = (tail.len() + 1) as u64;
            assert(trips_of(m, rest) == tail.push(trip_of(m, u, fill, id)));
            assert(before.len() == head.len() + tail.len());
            assert(trips_of(m, fills) =~= head + renumbered(trips_of(m, rest), head.len()));
        } else {
            assert(trips_of(m, rest) == tail);
            assert(trips_of(m, fills) =~= head + renumbered(trips_of(m, rest), head.len()));
        }
    }
}

/// A figure of every fill that enters, or leaves, a long, or short, position.
pub open spec fn side_values<F>(
    v: spec_fn(F) -> real,
    fills: Seq<UserTrade<F>>,
    buys: bool,
    worth: bool,
) -> Seq<real> {
    Seq::new(
        fills.len(),
        |i: int|
            if (fills[i].side@ == "BUY"@) != buys {
                0real
            } else if worth {
                v(fills[i].price) * v(fills[i].qty)
            } else {
                v(fills[i].qty)
            },
    )
}

/// What the fills of one side bought or sold.
pub open spec fn side_quantity<F>(
    v: spec_fn(F) -> real,
    fills: Seq<UserTrade<F>>,
    buys: bool,
) -> real {
    arith::total(side_values(v, fills, buys, false))
}

/// What the fills of one side were worth.
pub open spec fn side_worth<F>(
    v: spec_fn(F) -> real,
    fills: Seq<UserTrade<F>>,
    buys: bool,
) -> real {
    arith::total(side_values(v, fills, buys, true))
}

/// What the fills realised.
pub open spec fn realized_sum<F>(v: spec_fn(F) -> real, fills: Seq<UserTrade<F>>) -> real {
    arith::total(Seq::new(fills.len(), |i: int| v(fills[i].realized_pnl)))
}

/// What was paid for the fills.
pub open spec fn commission_sum<F>(v: spec_fn(F) -> real, fills: Seq<UserTrade<F>>) -> real {
    arith::total(Seq::new(fills.len(), |i: int| v(fills[i].commission)))
}

/// Whether fills make up one round trip: more is bought than sold, or sold than
/// bought, until the last of them, and as much after it.
pub open spec fn is_one_trip<F>(
    v: spec_fn(F) -> real,
    dust: real,
    fills: Seq<UserTrade<F>>,
    long: bool,
) -> bool {
    &&& fills.len() >= 2
    &&& forall|i: int| 0 <= i < fills.len() ==> v((#[trigger] fills[i]).qty) >= 0real
    &&& forall|k: int|
        0 < k < fills.len() ==> #[trigger] side_quantity(v, fills.take(k), long) - side_quantity(
            v,
            fills.take(k),
            !long,
        ) > dust
    &&& side_quantity(v, fills, long) == side_quantity(v, fills, !long)
}

/// In exact arithmetic fills that make up one round trip give exactly that: its
/// profit and its commission are the sums over its fills, its quantity is what
/// was entered, and its prices are the averages of its entries and of its exits
/// by volume.
pub proof fn law_trip_sums_up_its_fills<F>(
    m: Model<F>,
    v: spec_fn(F) -> real,
    fills: Seq<UserTrade<F>>,
    long: bool,
)
    requires
        arith::is_exact(m, v),
        fills.len() < u64::MAX,
        is_one_trip(v, v(m.ratio(1, 1_000_000_000_000_000)), fills, long),
    ensures
        ({
            let trips = trips_of(m, fills);
            let t = trips[0];
            let paid = commission_sum(v, fills);
            &&& trips.len() == 1
            &&& t.id == 1
            &&& t.side == (if long {
                "LONG"@
            } else {
                "SHORT"@
            })
            &&& t.entry_time_ms == fills[0].time
            &&& t.exit_time_ms == fills[fills.len() - 1].time
            &&& v(t.quantity) == side_quantity(v, fills, long)
            &&& v(t.entry_price) * v(t.quantity) == side_worth(v, fills, long)
            &&& v(t.exit_price) * v(t.quantity) == side_worth(v, fills, !long)
            &&& v(t.realized_pnl) == realized_sum(v, fills)
            &&& v(t.commission) == paid
            &&& v(t.net_pnl) == realized_sum(v, fills) - (if paid < 0real {
                -paid
            } else {
                paid
            })
        }),
{
    let n = fills.len() as int;
    let front = fills.drop_last();
    let fill = fills.last();
    let dust = v(m.ratio(1, 1_000_000_000_000_000));
    lemma_dust(m, v);
    assert(front =~= fills.take(n - 1));
    lemma_trip_so_far(m, v, fills, long, n - 1);
    let w = walk_of(m, front);
    assert(fills.take(n) =~= fills);
    lemma_side_step(v, fills, n);
    assert(fill == fills[n - 1]);
    assert(v(fill.qty) >= 0real);
    let signed = signed_qty(m, fill);
    let size = side_quantity(v, front, long) - side_quantity(v, front, !long);
    assert(side_quantity(v, fills.take(n - 1), long) - side_quantity(
        v,
        fills.take(n - 1),
        !long,
    ) > dust);
    assert(v(signed) == -v(w.qty));
    let (a, b) = (v(w.qty), v(signed));
    assert(a * b <= 0real) by (nonlinear_arith)
        requires
            b == -a,
    ;
    assert(role_of(m, w, fill) is Close);
    let t = trip_of(m, w, fill, 1);
    let entered = v(w.entered);
    arith::lemma_quotient(v(w.cost), entered);
    assert(v(m.abs(w.qty)) == size);
    if w.exits != 0 {
        let quantity = v(w.exited) + size;
        arith::lemma_quotient(v(w.proceeds) + v(fill.price) * size, quantity);
    }
    assert(trips_of(m, fills) =~= seq![t]);
}

/// The bound below which a quantity does not count is above zero.
proof fn lemma_dust<F>(m: Model<F>, v: spec_fn(F) -> real)
    requires
        arith::is_exact(m, v),
    ensures
        v(m.ratio(1, 1_000_000_000_000_000)) > 0real,
        v(m.zero()) == 0real,
{
    arith::lemma_fraction(m, v, 1, 1_000_000_000_000_000);
    arith::lemma_whole_number(m, v, 0);
    let x = v(m.ratio(1, 1_000_000_000_000_000));
    let d = 1_000_000_000_000_000int as real;
    assert(x > 0real) by (nonlinear_arith)
        requires
            x * d == 1real,
            d > 0real,
    ;
}

/// The sums over the first `k` fills are those over one less and the last.
proof fn lemma_side_step<F>(v: spec_fn(F) -> real, fills: Seq<UserTrade<F>>, k: int)
    requires
        0 < k <= fills.len(),
    ensures
        ({
            let now = fills.take(k);
            let before = fills.take(k - 1);
            let fill = fills[k - 1];
            let buys = fill.side@ == "BUY"@;
            let worth = v(fill.price) * v(fill.qty);
            &&& side_quantity(v, now, buys) == side_quantity(v, before, buys) + v(fill.qty)
            &&& side_quantity(v, now, !buys) == side_quantity(v, before, !buys)
            &&& side_worth(v, now, buys) == side_worth(v, before, buys) + worth
            &&& side_worth(v, now, !buys) == side_worth(v, before, !buys)
            &&& realized_sum(v, now) == realized_sum(v, before) + v(fill.realized_pnl)
            &&& commission_sum(v, now) == commission_sum(v, before) + v(fill.commission)
        }),
{
    let now = fills.take(k);
    let before = fills.take(k - 1);
    assert(side_values(v, now, true, false).drop_last() =~= side_values(v, before, true, false));
    assert(side_values(v, now, false, false).drop_last() =~= side_values(v, before, false, false));
    assert(side_values(v, now, true, true).drop_last() =~= side_values(v, before, true, true));
    assert(side_values(v, now, false, true).drop_last() =~= side_values(v, before, false, true));
    let r = Seq::new(now.len(), |i: int| v(now[i].realized_pnl));
    let c = Seq::new(now.len(), |i: int| v(now[i].commission));
    assert(r.drop_last() =~= Seq::new(before.len(), |i: int| v(before[i].realized_pnl)));
    assert(c.drop_last() =~= Seq::new(before.len(), |i: int| v(before[i].commission)));
}

/// The position of an unfinished round trip.
proof fn lemma_trip_so_far<F>(
    m: Model<F>,
    v: spec_fn(F) -> real,
    fills: Seq<UserTrade<F>>,
    long: bool,
    k: int,
)
    requires
        arith::is_exact(m, v),
        fills.len() < u64::MAX,
        is_one_trip(v, v(m.ratio(1, 1_000_000_000_000_000)), fills, long),
        0 < k < fills.len(),
    ensures
        ({
            let part = fills.take(k);
            let w = walk_of(m, part);
            let size = side_quantity(v, part, long) - side_quantity(v, part, !long);
            &&& trips_of(m, part).len() == 0
            &&& v(w.qty) == (if long {
                size
            } else {
                -size
            })
            &&& w.long == long
            &&& w.entry_time_ms == fills[0].time
            &&& v(w.entered) == side_quantity(v, part, long)
            &&& v(w.cost) == side_worth(v, part, long)
            &&& v(w.exited) == side_quantity(v, part, !long)
            &&& v(w.proceeds) == side_worth(v, part, !long)
            &&& v(w.realized_pnl) == realized_sum(v, part)
            &&& v(w.commission) == commission_sum(v, part)
            &&& w.exits <= k
            &&& w.exits == 0 ==> v(w.exited) == 0real && v(w.proceeds) == 0real
            &&& v(w.exited) >= 0real
        }),
    decreases k,
{
    let part = fills.take(k);
    let before = fills.take(k - 1);
    let fill = fills[k - 1];
    let w = walk_of(m, before);
    let dust = v(m.ratio(1, 1_000_000_000_000_000));
    lemma_dust(m, v);
    lemma_side_step(v, fills, k);
    assert(part.drop_last() =~= before);
    assert(part.last() == fill);
    assert(v(fill.qty) >= 0real);
    assert(side_quantity(v, part, long) - side_quantity(v, part, !long) > dust);
    let (a, b) = (v(w.qty), v(signed_qty(m, fill)));
    if k == 1 {
        assert(before.len() == 0);
        assert(w == idle(m));
        assert(side_quantity(v, before, true) == 0real);
        assert(side_quantity(v, before, false) == 0real);
        assert(side_worth(v, before, true) == 0real);
        assert(side_worth(v, before, false) == 0real);
        assert(realized_sum(v, before) == 0real);
        assert(commission_sum(v, before) == 0real);
        assert(role_of(m, w, fill) is Open);
        assert((fill.side@ == "BUY"@) == long);
        let after = walk_of(m, part);
        assert(after == walked(m, w, fill));
        assert(v(after.qty) == b);
        assert(v(after.entered) == v(fill.qty));
        assert(after.long == long);
        assert(v(after.cost) == side_worth(v, part, long));
        assert(trips_of(m, before).len() == 0);
        assert(trips_of(m, part).len() == 0);
    } else {
        lemma_trip_so_far(m, v, fills, long, k - 1);
        assert(side_quantity(v, before, long) - side_quantity(v, before, !long) > dust);
        assert((a > 0real && b > 0real) || (a < 0real && b < 0real) ==> a * b > 0real) by (
            nonlinear_arith);
        assert((a > 0real && b <= 0real) || (a < 0real && b >= 0real) ==> a * b <= 0real) by (
            nonlinear_arith);
        let size = side_quantity(v, before, long) - side_quantity(v, before, !long);
        let part_f = closed_qty(m, w, fill);
        let (price, qty, closing) = (v(fill.price), v(fill.qty), v(part_f));
        assert(v(m.abs(w.qty)) == size);
        assert(v(m.abs(signed_qty(m, fill))) == qty);
        assert(qty == 0real ==> price * qty == 0real) by (nonlinear_arith);
        assert(closing == 0real ==> price * closing == 0real) by (nonlinear_arith);
        let enters = (fill.side@ == "BUY"@) == long;
        assert(!is_dust(m, w.qty));
        if enters && qty > 0real {
            assert(a * b > 0real);
            assert(role_of(m, w, fill) is Add);
        } else {
            assert(a * b <= 0real);
            assert(closing == qty);
            assert(role_of(m, w, fill) is Reduce);
        }
        let after = walk_of(m, part);
        assert(after == walked(m, w, fill));
        assert(v(after.qty) == a + b);
        assert(v(after.proceeds) == side_worth(v, part, !long));
    }
}

/// In exact arithmetic a fill that goes beyond the close of a position finishes
/// one round trip and opens the next with what it has left: a fill that then
/// closes that finishes a round trip of the rest, in the other direction, entered
/// at the time and price of the first, with the profit and the commission of the
/// second alone.
pub proof fn law_flip_opens_the_rest<F>(
    m: Model<F>,
    v: spec_fn(F) -> real,
    fills: Seq<UserTrade<F>>,
    flip: UserTrade<F>,
    closing: UserTrade<F>,
)
    requires
        arith::is_exact(m, v),
        fills.len() + 2 < u64::MAX,
        v(flip.qty) >= 0real,
        v(closing.qty) >= 0real,
        ({
            let dust = v(m.ratio(1, 1_000_000_000_000_000));
            let held = v(m.sum(signed_quantities(m, fills)));
            let after = v(m.sum(signed_quantities(m, fills.push(flip))));
            &&& (held > dust && after < -dust) || (held < -dust && after > dust)
            &&& v(m.sum(signed_quantities(m, fills.push(flip).push(closing)))) == 0real
        }),
    ensures
        ({
            let before = trips_of(m, fills);
            let all = trips_of(m, fills.push(flip).push(closing));
            let first = all[before.len() as int];
            let second = all[before.len() as int + 1];
            let rest = v(m.sum(signed_quantities(m, fills.push(flip))));
            &&& all.len() == before.len() + 2
            &&& first.exit_time_ms == flip.time
            &&& second.side == (if rest > 0real {
                "LONG"@
            } else {
                "SHORT"@
            })
            &&& second.entry_time_ms == flip.time
            &&& second.exit_time_ms == closing.time
            &&& v(second.quantity) == (if rest > 0real {
                rest
            } else {
                -rest
            })
            &&& v(second.entry_price) == v(flip.price)
            &&& v(second.exit_price) == v(closing.price)
            &&& v(second.realized_pnl) == v(closing.realized_pnl)
            &&& v(second.commission) == v(closing.commission)
        }),
{
    let one = fills.push(flip);
    let two = one.push(closing);
    lemma_dust(m, v);
    law_position_is_the_sum_of_fills(m, fills);
    law_position_is_the_sum_of_fills(m, one);
    law_position_is_the_sum_of_fills(m, two);
    assert(one.drop_last() =~= fills);
    assert(two.drop_last() =~= one);
    let w = walk_of(m, fills);
    let u = walk_of(m, one);
    let (a, b) = (v(w.qty), v(signed_qty(m, flip)));
    assert(v(u.qty) == a + b);
    assert((a > 0real && b <= 0real) || (a < 0real && b >= 0real) ==> a * b <= 0real) by (
        nonlinear_arith);
    assert(role_of(m, w, flip) is Close);
    let (c, d) = (v(u.qty), v(signed_qty(m, closing)));
    assert((c > 0real && d <= 0real) || (c < 0real && d >= 0real) ==> c * d <= 0real) by (
        nonlinear_arith);
    assert(role_of(m, u, closing) is Close);
    let rest = if c > 0real {
        c
    } else {
        -c
    };
    let price = v(flip.price);
    assert(v(u.entered) == rest);
    assert(v(u.cost) == price * rest);
    arith::lemma_quotient(price * rest, rest);
    let q = (price * rest) / rest;
    assert(q == price) by (nonlinear_arith)
        requires
            q * rest == price * rest,
            rest > 0real,
    ;
    let before = trips_of(m, fills);
    let first = trip_of(m, w, flip, (before.len() + 1) as u64);
    assert(trips_of(m, one) == before.push(first));
    let second = trip_of(m, u, closing, (before.len() + 2) as u64);
    assert(trips_of(m, two) == before.push(first).push(second));
    assert(u.exits == 0);
    assert(u.long == (c > 0real));
    assert(v(second.quantity) == rest);
    assert(v(second.entry_price) == price);
}

} // verus!

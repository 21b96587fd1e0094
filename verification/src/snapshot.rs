//! The state that the feed writes, and the snapshot of it that the screen reads.
//! What takes long to copy is copied only when it has changed.

use std::sync::Arc;

use vstd::prelude::*;

use crate::arith;
use crate::arith::{Arithmetic, Model};
use crate::charts::{CumulativeSample, FillKillKpis};
use crate::lens::DEPTH_LEVELS;
use crate::panel::MarketImpact;
use crate::signal::FillKillSample;
use crate::slices::DepthSlice;
use crate::tape;

verus! {

/// The most columns for which slices are made.
pub const MAX_COLUMNS: usize = 800;

/// The window of the trades per second in milliseconds.
pub const TPS_WINDOW_MS: u64 = 10_000;

/// `Arc::clone`: another handle on the same value.
#[verifier::external_body]
fn share<T>(value: &Arc<T>) -> (same: Arc<T>)
    ensures
        same == *value,
{
    Arc::clone(value)
}

/// A trade as the feed keeps it.
#[derive(Clone, Copy, Debug)]
pub struct FeedTrade<F> {
    pub timestamp_ms: u64,
    pub price: F,
    pub quantity: F,
    pub is_buy: bool,
}

/// What the feed writes, and what was last copied of it.
///
/// `C` and `D` are the checkpoints and changes that the depth history is made
/// of. A level of the book is a price and a quantity; the feed keeps the levels
/// as [`is_book`] says.
#[derive(Debug)]
pub struct SharedState<F, C, D> {
    pub bids: Vec<(F, F)>,
    pub asks: Vec<(F, F)>,
    /// How far the clock of the exchange is behind, in milliseconds.
    pub clock_offset: i64,
    pub trades: Vec<FeedTrade<F>>,
    pub checkpoints: Vec<Arc<C>>,
    pub deltas: Vec<Arc<D>>,
    pub fill_kill: Vec<FillKillSample<F>>,
    pub cumulative: Vec<CumulativeSample<F>>,
    pub connected: bool,
    pub status_msg: String,
    pub latency_ms: i64,
    pub tick_size: F,
    pub price_decimals: usize,
    pub depth_epoch: u64,
    pub trade_epoch: u64,
    pub depth_history_epoch: u64,
    pub fill_kill_epoch: u64,
    pub cumulative_epoch: u64,
    pub snapshot_book_epoch: u64,
    pub snapshot_bids: Arc<Vec<(F, F)>>,
    pub snapshot_asks: Arc<Vec<(F, F)>>,
    pub snapshot_trade_epoch: u64,
    pub snapshot_trades: Arc<Vec<(u64, F, F, bool)>>,
    pub snapshot_depth_history_epoch: u64,
    pub snapshot_checkpoints: Arc<Vec<Arc<C>>>,
    pub snapshot_deltas: Arc<Vec<Arc<D>>>,
    pub snapshot_fill_kill_epoch: u64,
    pub snapshot_fill_kill: Arc<Vec<FillKillSample<F>>>,
    pub snapshot_cumulative_epoch: u64,
    pub snapshot_cumulative: Arc<Vec<CumulativeSample<F>>>,
    pub snapshot_slices_epoch: u64,
    pub snapshot_slices: Arc<Vec<DepthSlice<F>>>,
}

/// Whether levels come by rising price, no price twice.
pub open spec fn rises<F>(m: Model<F>, levels: Seq<(F, F)>) -> bool {
    forall|i: int, j: int|
        0 <= i < j < levels.len() ==> m.less((#[trigger] levels[i]).0, (#[trigger] levels[j]).0)
}

/// Whether levels come by falling price, no price twice.
pub open spec fn falls<F>(m: Model<F>, levels: Seq<(F, F)>) -> bool {
    forall|i: int, j: int|
        0 <= i < j < levels.len() ==> m.less((#[trigger] levels[j]).0, (#[trigger] levels[i]).0)
}

/// Whether both sides of the book come by rising price, no price twice.
pub open spec fn is_book<F, C, D>(m: Model<F>, s: SharedState<F, C, D>) -> bool {
    rises(m, s.bids@) && rises(m, s.asks@)
}

/// What the screen reads.
#[derive(Debug)]
pub struct StateSnapshot<F, C, D> {
    /// From the best down.
    pub bids: Arc<Vec<(F, F)>>,
    /// From the best up.
    pub asks: Arc<Vec<(F, F)>>,
    pub depth_history_epoch: u64,
    pub trade_epoch: u64,
    pub fill_kill_epoch: u64,
    pub cumulative_epoch: u64,
    pub spread: F,
    pub mid_price: F,
    pub imbalance: F,
    pub tps: F,
    pub connected: bool,
    pub status_msg: String,
    pub latency_ms: i64,
    pub book_bid_count: usize,
    pub book_ask_count: usize,
    /// Time, price, quantity, and whether a buyer took it.
    pub trades: Arc<Vec<(u64, F, F, bool)>>,
    pub depth_checkpoints: Arc<Vec<Arc<C>>>,
    pub depth_deltas: Arc<Vec<Arc<D>>>,
    pub depth_slices: Arc<Vec<DepthSlice<F>>>,
    pub fill_kill_series: Arc<Vec<FillKillSample<F>>>,
    pub cumulative_series: Arc<Vec<CumulativeSample<F>>>,
    pub fill_kill_kpis: FillKillKpis<F>,
    pub buy_impact: MarketImpact<F>,
    pub sell_impact: MarketImpact<F>,
    pub tick_size: F,
    pub price_decimals: usize,
}

/// What has to be found out for a snapshot: the time on the exchange, the middle
/// of the book, and whether slices are to be made.
#[derive(Clone, Copy, Debug)]
pub struct SnapshotRequest<F> {
    pub exchange_now_ms: u64,
    pub mid: F,
    pub wants_slices: bool,
}

/// What has been found out for a snapshot.
#[derive(Debug)]
pub struct Readings<F> {
    pub tps: F,
    pub spread: Option<F>,
    pub buy_impact: MarketImpact<F>,
    pub sell_impact: MarketImpact<F>,
    pub kpis: FillKillKpis<F>,
    /// The slices of the depth history, none where it is empty. They are read
    /// only where they were asked for.
    pub slices: Option<Vec<DepthSlice<F>>>,
}

/// The middle of the best prices, an empty side counting as zero.
pub open spec fn mid_of<F>(m: Model<F>, bids: Seq<(F, F)>, asks: Seq<(F, F)>) -> F {
    let bid = if bids.len() > 0 {
        bids.last().0
    } else {
        m.zero()
    };
    let ask = if asks.len() > 0 {
        asks[0].0
    } else {
        m.zero()
    };
    m.over(m.plus(bid, ask), m.ratio(2, 1))
}

/// The quantities of the first levels of a side.
pub open spec fn near_amounts<F>(levels: Seq<(F, F)>) -> Seq<F> {
    let near = tape::first_of(levels, DEPTH_LEVELS as int);
    Seq::new(near.len(), |i: int| near[i].1)
}

/// By how much more is bid than asked near the best prices, in percent of both.
pub open spec fn imbalance_of<F>(m: Model<F>, bids: Seq<(F, F)>, asks: Seq<(F, F)>) -> F {
    let bid = m.sum(near_amounts(bids));
    let ask = m.sum(near_amounts(asks));
    if m.less(m.zero(), m.plus(bid, ask)) {
        m.times(m.over(m.minus(bid, ask), m.plus(bid, ask)), m.ratio(100, 1))
    } else {
        m.zero()
    }
}

/// The trades as the screen reads them.
pub open spec fn shown_trades<F>(trades: Seq<FeedTrade<F>>) -> Seq<(u64, F, F, bool)> {
    Seq::new(
        trades.len(),
        |i: int|
            (trades[i].timestamp_ms, trades[i].price, trades[i].quantity, trades[i].is_buy),
    )
}

/// The slices that have been made, none where there is no history.
pub open spec fn made_slices<F>(slices: Option<Vec<DepthSlice<F>>>) -> Seq<DepthSlice<F>> {
    match slices {
        Some(list) => list@,
        None => Seq::empty(),
    }
}

/// What a copy holds after it has been made anew where it was out of date.
pub open spec fn copied<T>(
    copy_epoch: u64,
    copy: Seq<T>,
    epoch: u64,
    current: Seq<T>,
) -> Seq<T> {
    if copy_epoch == epoch {
        copy
    } else {
        current
    }
}

/// A list of plain values, copied.
fn copy_list<T: Copy>(list: &Vec<T>) -> (copy: Vec<T>)
    ensures
        copy@ == list@,
{
    let mut copy: Vec<T> = Vec::new();
    while copy.len() < list.len()
        invariant
            copy.len() <= list.len(),
            copy@ == list@.take(copy@.len() as int),
        decreases list.len() - copy.len(),
    {
        let ghost n = copy@.len() as int;
        copy.push(list[copy.len()]);
        proof {
            assert(list@.take(n).push(list@[n]) =~= list@.take(n + 1));
        }
    }
    proof {
        assert(list@.take(list@.len() as int) =~= list@);
    }
    copy
}

/// A list of plain values, copied from its end.
fn copy_reversed<T: Copy>(list: &Vec<T>) -> (copy: Vec<T>)
    ensures
        copy@ == list@.reverse(),
{
    let mut copy: Vec<T> = Vec::new();
    while copy.len() < list.len()
        invariant
            copy.len() <= list.len(),
            copy@ == list@.reverse().take(copy@.len() as int),
        decreases list.len() - copy.len(),
    {
        let ghost n = copy@.len() as int;
        copy.push(list[list.len() - 1 - copy.len()]);
        proof {
            assert(list@.reverse().take(n).push(list@.reverse()[n]) =~= list@.reverse().take(
                n + 1,
            ));
        }
    }
    proof {
        assert(list@.reverse().take(list@.len() as int) =~= list@.reverse());
    }
    copy
}

/// A list of handles, copied.
fn share_list<T>(list: &Vec<Arc<T>>) -> (copy: Vec<Arc<T>>)
    ensures
        copy@ == list@,
{
    let mut copy: Vec<Arc<T>> = Vec::new();
    while copy.len() < list.len()
        invariant
            copy.len() <= list.len(),
            copy@ == list@.take(copy@.len() as int),
        decreases list.len() - copy.len(),
    {
        let ghost n = copy@.len() as int;
        copy.push(share(&list[copy.len()]));
        proof {
            assert(list@.take(n).push(list@[n]) =~= list@.take(n + 1));
        }
    }
    proof {
        assert(list@.take(list@.len() as int) =~= list@);
    }
    copy
}

/// The trades as the screen reads them.
fn copy_trades<F: Copy>(list: &Vec<FeedTrade<F>>) -> (copy: Vec<(u64, F, F, bool)>)
    ensures
        copy@ == shown_trades(list@),
{
    let mut copy: Vec<(u64, F, F, bool)> = Vec::new();
    while copy.len() < list.len()
        invariant
            copy.len() <= list.len(),
            copy@ == shown_trades(list@).take(copy@.len() as int),
        decreases list.len() - copy.len(),
    {
        let ghost n = copy@.len() as int;
        let trade: FeedTrade<F> = list[copy.len()];
        copy.push((trade.timestamp_ms, trade.price, trade.quantity, trade.is_buy));
        proof {
            assert(shown_trades(list@).take(n).push(shown_trades(list@)[n]) =~= shown_trades(
                list@,
            ).take(n + 1));
        }
    }
    proof {
        assert(shown_trades(list@).take(list@.len() as int) =~= shown_trades(list@));
    }
    copy
}

/// The sum of the quantities of the first levels of a side.
fn near_sum<F: Copy, A: Arithmetic<F>>(a: &A, levels: &Vec<(F, F)>) -> (sum: F)
    ensures
        forall|m: Model<F>| #[trigger]
            arith::describes(m, *a) ==> sum == m.sum(near_amounts(levels@)),
{
    let mut list: Vec<F> = Vec::new();
    while list.len() < levels.len() && list.len() < DEPTH_LEVELS
        invariant
            list.len() <= levels.len(),
            list.len() <= DEPTH_LEVELS,
            list@ == near_amounts(levels@).take(list@.len() as int),
        decreases levels.len() - list.len(),
    {
        let ghost n = list@.len() as int;
        list.push(levels[list.len()].1);
        proof {
            assert(near_amounts(levels@)[n] == levels@[n].1);
            assert(near_amounts(levels@).take(n).push(near_amounts(levels@)[n]) =~= near_amounts(
                levels@,
            ).take(n + 1));
        }
    }
    proof {
        assert(near_amounts(levels@).take(list@.len() as int) =~= near_amounts(levels@));
    }
    arith::sum(a, &list)
}

/// Whether every copy whose epoch is the current one holds the current data.
pub open spec fn is_in_step<F, C, D>(s: SharedState<F, C, D>) -> bool {
    &&& shows_book(s)
    &&& s.snapshot_trade_epoch == s.trade_epoch ==> (*s.snapshot_trades)@ == shown_trades(s.trades@)
    &&& s.snapshot_depth_history_epoch == s.depth_history_epoch ==> (*s.snapshot_checkpoints)@
        == s.checkpoints@ && (*s.snapshot_deltas)@ == s.deltas@
    &&& s.snapshot_fill_kill_epoch == s.fill_kill_epoch ==> (*s.snapshot_fill_kill)@ == s.fill_kill@
    &&& s.snapshot_cumulative_epoch == s.cumulative_epoch ==> (*s.snapshot_cumulative)@
        == s.cumulative@
}

/// Whether the copy of the book is made anew or holds the current book.
pub open spec fn shows_book<F, C, D>(s: SharedState<F, C, D>) -> bool {
    s.snapshot_book_epoch == s.depth_epoch ==> (*s.snapshot_bids)@ == s.bids@.reverse() && (
    *s.snapshot_asks)@ == s.asks@
}

/// Whether a snapshot shows the current data.
pub open spec fn is_current<F, C, D>(s: SharedState<F, C, D>, shot: StateSnapshot<F, C, D>) -> bool {
    &&& (*shot.bids)@ == s.bids@.reverse()
    &&& (*shot.asks)@ == s.asks@
    &&& (*shot.trades)@ == shown_trades(s.trades@)
    &&& (*shot.depth_checkpoints)@ == s.checkpoints@
    &&& (*shot.depth_deltas)@ == s.deltas@
    &&& (*shot.fill_kill_series)@ == s.fill_kill@
    &&& (*shot.cumulative_series)@ == s.cumulative@
}

/// Whether a state differs from another in its copies only.
pub open spec fn has_same_data<F, C, D>(s: SharedState<F, C, D>, t: SharedState<F, C, D>) -> bool {
    &&& s.bids == t.bids
    &&& s.asks == t.asks
    &&& s.clock_offset == t.clock_offset
    &&& s.trades == t.trades
    &&& s.checkpoints == t.checkpoints
    &&& s.deltas == t.deltas
    &&& s.fill_kill == t.fill_kill
    &&& s.cumulative == t.cumulative
    &&& s.connected == t.connected
    &&& s.status_msg == t.status_msg
    &&& s.latency_ms == t.latency_ms
    &&& s.tick_size == t.tick_size
    &&& s.price_decimals == t.price_decimals
    &&& s.depth_epoch == t.depth_epoch
    &&& s.trade_epoch == t.trade_epoch
    &&& s.depth_history_epoch == t.depth_history_epoch
    &&& s.fill_kill_epoch == t.fill_kill_epoch
    &&& s.cumulative_epoch == t.cumulative_epoch
}

/// Whether the copies of a state are at the current epochs.
pub open spec fn is_copied<F, C, D>(s: SharedState<F, C, D>) -> bool {
    &&& s.snapshot_book_epoch == s.depth_epoch
    &&& s.snapshot_trade_epoch == s.trade_epoch
    &&& s.snapshot_depth_history_epoch == s.depth_history_epoch
    &&& s.snapshot_fill_kill_epoch == s.fill_kill_epoch
    &&& s.snapshot_cumulative_epoch == s.cumulative_epoch
    &&& s.snapshot_slices_epoch == s.depth_history_epoch
}

/// Whether a snapshot holds the copies of a state, each made anew where it was
/// out of date.
pub open spec fn holds_copies<F, C, D>(
    s: SharedState<F, C, D>,
    slices: Option<Vec<DepthSlice<F>>>,
    shot: StateSnapshot<F, C, D>,
) -> bool {
    &&& (*shot.bids)@ == copied(
        s.snapshot_book_epoch,
        (*s.snapshot_bids)@,
        s.depth_epoch,
        s.bids@.reverse(),
    )
    &&& (*shot.asks)@ == copied(
        s.snapshot_book_epoch,
        (*s.snapshot_asks)@,
        s.depth_epoch,
        s.asks@,
    )
    &&& (*shot.trades)@ == copied(
        s.snapshot_trade_epoch,
        (*s.snapshot_trades)@,
        s.trade_epoch,
        shown_trades(s.trades@),
    )
    &&& (*shot.depth_checkpoints)@ == copied(
        s.snapshot_depth_history_epoch,
        (*s.snapshot_checkpoints)@,
        s.depth_history_epoch,
        s.checkpoints@,
    )
    &&& (*shot.depth_deltas)@ == copied(
        s.snapshot_depth_history_epoch,
        (*s.snapshot_deltas)@,
        s.depth_history_epoch,
        s.deltas@,
    )
    &&& (*shot.fill_kill_series)@ == copied(
        s.snapshot_fill_kill_epoch,
        (*s.snapshot_fill_kill)@,
        s.fill_kill_epoch,
        s.fill_kill@,
    )
    &&& (*shot.cumulative_series)@ == copied(
        s.snapshot_cumulative_epoch,
        (*s.snapshot_cumulative)@,
        s.cumulative_epoch,
        s.cumulative@,
    )
    &&& (*shot.depth_slices)@ == copied(
        s.snapshot_slices_epoch,
        (*s.snapshot_slices)@,
        s.depth_history_epoch,
        made_slices(slices),
    )
}

/// Whether a snapshot carries over what a state and the readings hold.
pub open spec fn carries<F, C, D>(
    s: SharedState<F, C, D>,
    readings: Readings<F>,
    shot: StateSnapshot<F, C, D>,
) -> bool {
    &&& shot.depth_history_epoch == s.depth_history_epoch
    &&& shot.trade_epoch == s.trade_epoch
    &&& shot.fill_kill_epoch == s.fill_kill_epoch
    &&& shot.cumulative_epoch == s.cumulative_epoch
    &&& shot.tps == readings.tps
    &&& shot.connected == s.connected
    &&& shot.status_msg@ == s.status_msg@
    &&& shot.latency_ms == s.latency_ms
    &&& shot.book_bid_count == s.bids@.len()
    &&& shot.book_ask_count == s.asks@.len()
    &&& shot.fill_kill_kpis == readings.kpis
    &&& shot.buy_impact == readings.buy_impact
    &&& shot.sell_impact == readings.sell_impact
    &&& shot.tick_size == s.tick_size
    &&& shot.price_decimals == s.price_decimals
}

impl<F: Copy, C, D> SharedState<F, C, D> {
    /// The middle of the best prices.
    fn mid<A: Arithmetic<F>>(&self, a: &A) -> (mid: F)
        ensures
            forall|m: Model<F>| #[trigger]
                arith::describes(m, *a) ==> mid == mid_of(m, self.bids@, self.asks@),
    {
        let bid: F = if self.bids.len() > 0 {
            self.bids[self.bids.len() - 1].0
        } else {
            arith::zero(a)
        };
        let ask: F = if self.asks.len() > 0 {
            self.asks[0].0
        } else {
            arith::zero(a)
        };
        arith::over(a, arith::plus(a, bid, ask), arith::ratio(a, 2, 1))
    }

    /// What has to be found out for a snapshot at a time of the local clock.
    pub fn snapshot_request<A: Arithmetic<F>>(&self, a: &A, local_now_ms: i64) -> (request:
        SnapshotRequest<F>)
        requires
            i64::MIN <= local_now_ms - self.clock_offset <= i64::MAX,
        ensures
            request.exchange_now_ms == (if local_now_ms > self.clock_offset {
                local_now_ms - self.clock_offset
            } else {
                0
            }),
            request.wants_slices == (self.snapshot_slices_epoch != self.depth_history_epoch),
            forall|m: Model<F>| #[trigger]
                arith::describes(m, *a) ==> request.mid == mid_of(m, self.bids@, self.asks@),
    {
        let now: i64 = local_now_ms - self.clock_offset;
        SnapshotRequest {
            exchange_now_ms: if now > 0 {
                now as u64
            } else {
                0
            },
            mid: self.mid(a),
            wants_slices: self.snapshot_slices_epoch != self.depth_history_epoch,
        }
    }

    /// A snapshot of the state, with what has been found out for it. Copies that
    /// are out of date are made anew.
    pub fn clone_snapshot<A: Arithmetic<F>>(&mut self, a: &A, readings: Readings<F>) -> (shot:
        StateSnapshot<F, C, D>)
        ensures
            has_same_data(*old(self), *final(self)),
            is_copied(*final(self)),
            holds_copies(*old(self), readings.slices, shot),
            holds_copies(*final(self), readings.slices, shot),
            carries(*old(self), readings, shot),
            is_in_step(*old(self)) ==> is_in_step(*final(self)) && is_current(*final(self), shot),
            forall|m: Model<F>| #[trigger]
                arith::describes(m, *a) ==> {
                    &&& shot.mid_price == mid_of(m, old(self).bids@, old(self).asks@)
                    &&& shot.spread == match readings.spread {
                        Some(spread) => spread,
                        None => m.zero(),
                    }
                    &&& shot.imbalance == imbalance_of(m, (*shot.bids)@, (*shot.asks)@)
                    &&& is_book(m, *old(self)) && shows_book(*old(self)) ==> falls(
                        m,
                        (*shot.bids)@,
                    ) && rises(m, (*shot.asks)@)
                },
    {
        proof {
            assert forall|m: Model<F>| #[trigger] arith::describes(m, *a) && rises(
                m,
                self.bids@,
            ) implies falls(m, self.bids@.reverse()) by {
                lemma_reversed_book_falls(m, self.bids@);
            }
        }
        let mid: F = self.mid(a);
        let spread: F = match readings.spread {
            Some(spread) => spread,
            None => arith::zero(a),
        };
        if self.snapshot_book_epoch != self.depth_epoch {
            self.snapshot_bids = Arc::new(copy_reversed(&self.bids));
            self.snapshot_asks = Arc::new(copy_list(&self.asks));
            self.snapshot_book_epoch = self.depth_epoch;
        }
        let bid: F = near_sum(a, &self.snapshot_bids);
        let ask: F = near_sum(a, &self.snapshot_asks);
        let both: F = arith::plus(a, bid, ask);
        let imbalance: F = if arith::less(a, arith::zero(a), both) {
            let more: F = arith::over(a, arith::minus(a, bid, ask), both);
            arith::times(a, more, arith::ratio(a, 100, 1))
        } else {
            arith::zero(a)
        };
        if self.snapshot_trade_epoch != self.trade_epoch {
            self.snapshot_trades = Arc::new(copy_trades(&self.trades));
            self.snapshot_trade_epoch = self.trade_epoch;
        }
        if self.snapshot_depth_history_epoch != self.depth_history_epoch {
            self.snapshot_checkpoints = Arc::new(share_list(&self.checkpoints));
            self.snapshot_deltas = Arc::new(share_list(&self.deltas));
            self.snapshot_depth_history_epoch = self.depth_history_epoch;
        }
        if self.snapshot_fill_kill_epoch != self.fill_kill_epoch {
            self.snapshot_fill_kill = Arc::new(copy_list(&self.fill_kill));
            self.snapshot_fill_kill_epoch = self.fill_kill_epoch;
        }
        if self.snapshot_cumulative_epoch != self.cumulative_epoch {
            self.snapshot_cumulative = Arc::new(copy_list(&self.cumulative));
            self.snapshot_cumulative_epoch = self.cumulative_epoch;
        }
        if self.snapshot_slices_epoch != self.depth_history_epoch {
            self.snapshot_slices = match readings.slices {
                Some(list) => Arc::new(list),
                None => Arc::new(Vec::new()),
            };
            self.snapshot_slices_epoch = self.depth_history_epoch;
        }
        StateSnapshot {
            bids: share(&self.snapshot_bids),
            asks: share(&self.snapshot_asks),
            depth_history_epoch: self.depth_history_epoch,
            trade_epoch: self.trade_epoch,
            fill_kill_epoch: self.fill_kill_epoch,
            cumulative_epoch: self.cumulative_epoch,
            spread,
            mid_price: mid,
            imbalance,
            tps: readings.tps,
            connected: self.connected,
            status_msg: self.status_msg.clone(),
            latency_ms: self.latency_ms,
            book_bid_count: self.bids.len(),
            book_ask_count: self.asks.len(),
            trades: share(&self.snapshot_trades),
            depth_checkpoints: share(&self.snapshot_checkpoints),
            depth_deltas: share(&self.snapshot_deltas),
            depth_slices: share(&self.snapshot_slices),
            fill_kill_series: share(&self.snapshot_fill_kill),
            cumulative_series: share(&self.snapshot_cumulative),
            fill_kill_kpis: readings.kpis,
            buy_impact: readings.buy_impact,
            sell_impact: readings.sell_impact,
            tick_size: self.tick_size,
            price_decimals: self.price_decimals,
        }
    }
}

// ---------------------------------------------------------------------------
// Laws
// ---------------------------------------------------------------------------

/// A snapshot that shows the current book lists every bid from the best down and
/// every ask from the best up, no price twice.
pub proof fn law_snapshot_lists_the_best_first<F, C, D>(
    m: Model<F>,
    s: SharedState<F, C, D>,
    shot: StateSnapshot<F, C, D>,
)
    requires
        is_book(m, s),
        is_current(s, shot),
    ensures
        falls(m, (*shot.bids)@),
        rises(m, (*shot.asks)@),
        (*shot.bids)@.len() == s.bids@.len(),
        (*shot.asks)@.len() == s.asks@.len(),
        forall|level: (F, F)| (*shot.bids)@.contains(level) == #[trigger] s.bids@.contains(level),
        forall|level: (F, F)| (*shot.asks)@.contains(level) == #[trigger] s.asks@.contains(level),
{
    lemma_reversed_book_falls(m, s.bids@);
    assert forall|level: (F, F)| (*shot.bids)@.contains(level) == #[trigger] s.bids@.contains(
        level,
    ) by {
        let n = s.bids@.len() as int;
        if s.bids@.contains(level) {
            let i = choose|i: int| 0 <= i < n && s.bids@[i] == level;
            assert((*shot.bids)@[n - 1 - i] == level);
        }
        if (*shot.bids)@.contains(level) {
            let i = choose|i: int| 0 <= i < n && (*shot.bids)@[i] == level;
            assert(s.bids@[n - 1 - i] == level);
        }
    }
}

/// Levels by rising price fall from their end.
proof fn lemma_reversed_book_falls<F>(m: Model<F>, levels: Seq<(F, F)>)
    requires
        rises(m, levels),
    ensures
        falls(m, levels.reverse()),
{
}

/// Where no level holds less than nothing, the imbalance lies from -100 to 100.
pub proof fn law_imbalance_lies_within_a_hundred<F>(
    m: Model<F>,
    bids: Seq<(F, F)>,
    asks: Seq<(F, F)>,
)
    requires
        arith::keeps_bounds(m),
        forall|i: int| 0 <= i < bids.len() ==> m.less_eq(m.zero(), (#[trigger] bids[i]).1),
        forall|i: int| 0 <= i < asks.len() ==> m.less_eq(m.zero(), (#[trigger] asks[i]).1),
    ensures
        !m.less(m.ratio(100, 1), imbalance_of(m, bids, asks)),
        !m.less(imbalance_of(m, bids, asks), m.neg(m.ratio(100, 1))),
{
    let zero = m.zero();
    let one = m.ratio(1, 1);
    let hundred = m.ratio(100, 1);
    let bid_list = near_amounts(bids);
    let ask_list = near_amounts(asks);
    assert forall|i: int| 0 <= i < bid_list.len() implies m.less_eq(zero, #[trigger] bid_list[i]) by {
        assert(bid_list[i] == bids[i].1);
    }
    assert forall|i: int| 0 <= i < ask_list.len() implies m.less_eq(zero, #[trigger] ask_list[i]) by {
        assert(ask_list[i] == asks[i].1);
    }
    arith::lemma_sum_not_below_zero(m, bid_list);
    arith::lemma_sum_not_below_zero(m, ask_list);
    let bid = m.sum(bid_list);
    let ask = m.sum(ask_list);
    assert(m.less_eq(zero, hundred));
    if m.less(zero, m.plus(bid, ask)) {
        arith::lemma_contrast(m, bid, ask);
        let part = m.over(m.minus(bid, ask), m.plus(bid, ask));
        let imbalance = m.times(part, hundred);
        let high = m.times(one, hundred);
        let low = m.times(m.neg(one), hundred);
        assert(!m.less(high, imbalance));
        assert(!m.less(imbalance, low));
        assert(m.less(high, imbalance) == m.less(hundred, imbalance));
        assert(arith::alike(m, m.neg(high), m.neg(hundred)));
        arith::lemma_alike(m, low, m.neg(high), m.neg(hundred));
        assert(m.less(imbalance, low) == m.less(imbalance, m.neg(hundred)));
    } else {
        assert(m.less(m.neg(zero), m.neg(hundred)) == m.less(hundred, zero));
        assert(m.less(zero, m.neg(hundred)) == m.less(m.neg(zero), m.neg(hundred)));
    }
}

/// While nothing changes, a second snapshot has the lists of the first.
pub proof fn law_second_snapshot_is_the_same<F, C, D>(
    s: SharedState<F, C, D>,
    first_slices: Option<Vec<DepthSlice<F>>>,
    first: StateSnapshot<F, C, D>,
    second_slices: Option<Vec<DepthSlice<F>>>,
    second: StateSnapshot<F, C, D>,
)
    requires
        is_copied(s),
        holds_copies(s, first_slices, first),
        holds_copies(s, second_slices, second),
    ensures
        (*second.bids)@ == (*first.bids)@,
        (*second.asks)@ == (*first.asks)@,
        (*second.trades)@ == (*first.trades)@,
        (*second.depth_checkpoints)@ == (*first.depth_checkpoints)@,
        (*second.depth_deltas)@ == (*first.depth_deltas)@,
        (*second.depth_slices)@ == (*first.depth_slices)@,
        (*second.fill_kill_series)@ == (*first.fill_kill_series)@,
        (*second.cumulative_series)@ == (*first.cumulative_series)@,
{
}

/// In exact arithmetic the imbalance is what is bid more than asked near the best
/// prices, in percent of both, and there is none where neither side holds
/// anything.
pub proof fn law_imbalance_is_the_surplus<F>(
    m: Model<F>,
    v: spec_fn(F) -> real,
    bids: Seq<(F, F)>,
    asks: Seq<(F, F)>,
)
    requires
        arith::is_exact(m, v),
    ensures
        ({
            let near = |levels: Seq<(F, F)>|
                arith::total(
                    Seq::new(
                        if levels.len() < DEPTH_LEVELS {
                            levels.len()
                        } else {
                            DEPTH_LEVELS as nat
                        },
                        |i: int| v(levels[i].1),
                    ),
                );
            let (bid, ask) = (near(bids), near(asks));
            &&& bid + ask > 0real ==> v(imbalance_of(m, bids, asks)) * (bid + ask) == 100real * (bid
                - ask)
            &&& bid + ask <= 0real ==> v(imbalance_of(m, bids, asks)) == 0real
        }),
{
    arith::lemma_whole_number(m, v, 0);
    arith::lemma_whole_number(m, v, 100);
    assert(100int as real == 100real);
    arith::law_sum_is_the_total(m, v, near_amounts(bids));
    arith::law_sum_is_the_total(m, v, near_amounts(asks));
    let bid_values = Seq::new(
        if bids.len() < DEPTH_LEVELS {
            bids.len()
        } else {
            DEPTH_LEVELS as nat
        },
        |i: int| v(bids[i].1),
    );
    let ask_values = Seq::new(
        if asks.len() < DEPTH_LEVELS {
            asks.len()
        } else {
            DEPTH_LEVELS as nat
        },
        |i: int| v(asks[i].1),
    );
    assert(arith::values(v, near_amounts(bids)) =~= bid_values);
    assert(arith::values(v, near_amounts(asks)) =~= ask_values);
    let bid = arith::total(bid_values);
    let ask = arith::total(ask_values);
    if bid + ask > 0real {
        arith::lemma_quotient(bid - ask, bid + ask);
        let part = (bid - ask) / (bid + ask);
        let both = bid + ask;
        assert((part * 100real) * both == 100real * (bid - ask)) by (nonlinear_arith)
            requires
                part * both == bid - ask,
        ;
    }
}

} // verus!

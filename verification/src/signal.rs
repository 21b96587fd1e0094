//! Trading signals computed from a snapshot of the market.

use vstd::prelude::*;
use vstd::slice::slice_subrange;

use crate::arith;
use crate::arith::{Arithmetic, Model, Style};
use crate::text;

verus! {

/// All signals at one point in time.
#[derive(Debug)]
pub struct SignalSample<F> {
    pub timestamp_ms: u64,
    pub symbol: String,
    pub mid_price: F,
    pub spread_bps: F,
    /// From -1 to 1, positive where bids outweigh asks.
    pub ob_imbalance: F,
    pub ob_bid_depth_near: F,
    pub ob_ask_depth_near: F,
    pub fk_buy_fill_qty: F,
    pub fk_buy_kill_qty: F,
    pub fk_sell_fill_qty: F,
    pub fk_sell_kill_qty: F,
    /// Positive where buyers are aggressive, negative where sellers are.
    pub fk_net_direction: F,
    pub fk_buy_signed_log_ratio: Option<F>,
    pub fk_sell_signed_log_ratio: Option<F>,
    pub cum_fill_qty: F,
    pub cum_kill_qty: F,
    pub cum_net_qty: F,
    /// Zero where there is no ratio.
    pub cum_ratio: F,
    pub impact_buy_slippage_bps: F,
    pub impact_sell_slippage_bps: F,
    pub impact_buy_levels_consumed: usize,
    pub impact_sell_levels_consumed: usize,
    pub trade_count_1s: u64,
    /// Total notional of the window.
    pub trade_volume_1s: F,
    /// Share of the volume, in percent, that was bought aggressively.
    pub buy_volume_pct_1s: F,
    /// High where large fills do not move the price.
    pub absorption_score: F,
    /// Change of the fill:kill direction over a short window.
    pub aggression_shift: F,
    /// Levels moved by the largest buy burst.
    pub vd_buy_levels: u64,
    /// Levels moved by the largest sell burst.
    pub vd_sell_levels: u64,
}

impl<F: Copy> Clone for SignalSample<F> {
    fn clone(&self) -> (copy: SignalSample<F>)
        ensures
            copy == *self,
    {
        SignalSample {
            timestamp_ms: self.timestamp_ms,
            symbol: self.symbol.clone(),
            mid_price: self.mid_price,
            spread_bps: self.spread_bps,
            ob_imbalance: self.ob_imbalance,
            ob_bid_depth_near: self.ob_bid_depth_near,
            ob_ask_depth_near: self.ob_ask_depth_near,
            fk_buy_fill_qty: self.fk_buy_fill_qty,
            fk_buy_kill_qty: self.fk_buy_kill_qty,
            fk_sell_fill_qty: self.fk_sell_fill_qty,
            fk_sell_kill_qty: self.fk_sell_kill_qty,
            fk_net_direction: self.fk_net_direction,
            fk_buy_signed_log_ratio: self.fk_buy_signed_log_ratio,
            fk_sell_signed_log_ratio: self.fk_sell_signed_log_ratio,
            cum_fill_qty: self.cum_fill_qty,
            cum_kill_qty: self.cum_kill_qty,
            cum_net_qty: self.cum_net_qty,
            cum_ratio: self.cum_ratio,
            impact_buy_slippage_bps: self.impact_buy_slippage_bps,
            impact_sell_slippage_bps: self.impact_sell_slippage_bps,
            impact_buy_levels_consumed: self.impact_buy_levels_consumed,
            impact_sell_levels_consumed: self.impact_sell_levels_consumed,
            trade_count_1s: self.trade_count_1s,
            trade_volume_1s: self.trade_volume_1s,
            buy_volume_pct_1s: self.buy_volume_pct_1s,
            absorption_score: self.absorption_score,
            aggression_shift: self.aggression_shift,
            vd_buy_levels: self.vd_buy_levels,
            vd_sell_levels: self.vd_sell_levels,
        }
    }
}

/// Settings of the signal extraction.
#[derive(Debug)]
pub struct SignalConfig<F> {
    /// Milliseconds between samples.
    pub sample_interval_ms: u64,
    /// How many ticks from the mid price count towards the imbalance.
    pub ob_near_ticks: usize,
    /// Notional for which market impact is estimated.
    pub impact_notional_usd: F,
    /// Window of the trade flow in milliseconds.
    pub trade_window_ms: u64,
    /// Window of the absorption score in milliseconds.
    pub absorption_lookback_ms: u64,
    /// Window of the aggression shift in milliseconds.
    pub aggression_shift_window_ms: u64,
    /// Label of the samples.
    pub symbol: String,
}

impl<F> SignalConfig<F> {
    /// The settings that apply unless others are chosen.
    pub fn default<A: Arithmetic<F>>(a: &A) -> (config: SignalConfig<F>)
        ensures
            config.sample_interval_ms == 1_000,
            config.ob_near_ticks == 10,
            forall|m: Model<F>| #[trigger]
                arith::describes(m, *a) ==> config.impact_notional_usd == m.ratio(10_000, 1),
            config.trade_window_ms == 1_000,
            config.absorption_lookback_ms == 5_000,
            config.aggression_shift_window_ms == 30_000,
            config.symbol@ == "btcusdt"@,
    {
        SignalConfig {
            sample_interval_ms: 1_000,
            ob_near_ticks: 10,
            impact_notional_usd: arith::ratio(a, 10_000, 1),
            trade_window_ms: 1_000,
            absorption_lookback_ms: 5_000,
            aggression_shift_window_ms: 30_000,
            symbol: "btcusdt".to_string(),
        }
    }
}

// ---------------------------------------------------------------------------
// What the signals are computed from
// ---------------------------------------------------------------------------

/// Which side moved the market.
#[derive(Clone, Copy, Debug, PartialEq, Eq, Structural)]
pub enum BurstDirection {
    Buy,
    Sell,
}

/// How much of a level was filled and how much was withdrawn in one burst.
#[derive(Clone, Copy, Debug)]
pub struct FillKillSample<F> {
    pub timestamp_ms: u64,
    pub direction: BurstDirection,
    pub fill_qty: F,
    pub kill_qty: F,
    pub ratio: RatioValue<F>,
    pub signed_log_ratio: Option<F>,
    /// Whether more was filled than had been there.
    pub overfill: bool,
}

/// A ratio whose denominator may be zero.
#[derive(Clone, Copy, Debug)]
pub enum RatioValue<F> {
    Finite(F),
    Infinite,
    Na,
}

/// A trade of the public feed.
#[derive(Clone, Copy, Debug)]
pub struct MarketTrade<F> {
    pub received_at_ms: u64,
    pub price: F,
    pub quantity: F,
    pub is_buy: bool,
}

/// What an order of the standard notional would do to the book.
#[derive(Clone, Copy, Debug)]
pub struct ImpactEstimate<F> {
    pub slippage_bps: F,
    pub levels_consumed: usize,
}

/// One price level: price and quantity.
#[derive(Clone, Copy, Debug)]
pub struct Level<F> {
    pub price: F,
    pub quantity: F,
}

/// A snapshot of the market.
#[derive(Debug)]
pub struct MarketSnapshot<F> {
    /// Exchange time of the last book event.
    pub last_event_time: u64,
    pub tick_size: F,
    pub best_bid: Option<F>,
    pub best_ask: Option<F>,
    pub spread: Option<F>,
    /// Bids by rising price.
    pub bids: Vec<Level<F>>,
    /// Asks by rising price.
    pub asks: Vec<Level<F>>,
    /// Bursts in the order in which they came.
    pub fill_kill: Vec<FillKillSample<F>>,
    /// Window of the fill:kill totals in milliseconds.
    pub rolling_window_ms: u64,
    pub cum_fill_qty: F,
    pub cum_kill_qty: F,
    /// The latest cumulative ratio, if there is one.
    pub cum_ratio: Option<RatioValue<F>>,
    pub buy_impact: ImpactEstimate<F>,
    pub sell_impact: ImpactEstimate<F>,
    /// Trades in the order in which they came.
    pub trades: Vec<MarketTrade<F>>,
    pub vd_buy_levels: u64,
    pub vd_sell_levels: u64,
}

// ---------------------------------------------------------------------------
// Price
// ---------------------------------------------------------------------------

/// Half way between best bid and best ask, zero where one is missing.
pub open spec fn mid_of<F>(m: Model<F>, bid: Option<F>, ask: Option<F>) -> F {
    match (bid, ask) {
        (Some(b), Some(k)) => m.over(m.plus(b, k), m.ratio(2, 1)),
        _ => m.zero(),
    }
}

/// Half way between best bid and best ask, zero where one is missing.
pub fn mid_price<F: Copy, A: Arithmetic<F>>(a: &A, bid: Option<F>, ask: Option<F>) -> (mid: F)
    ensures
        forall|m: Model<F>| #[trigger] arith::describes(m, *a) ==> mid == mid_of(m, bid, ask),
{
    match (bid, ask) {
        (Some(b), Some(k)) => {
            let both: F = arith::plus(a, b, k);
            arith::over(a, both, arith::ratio(a, 2, 1))
        },
        _ => arith::zero(a),
    }
}

/// The spread in hundredths of a percent of the mid price.
pub open spec fn spread_bps_of<F>(m: Model<F>, spread: Option<F>, mid: F) -> F {
    if m.less_eq(mid, m.zero()) {
        m.zero()
    } else {
        match spread {
            Some(width) => m.times(m.over(width, mid), m.ratio(10_000, 1)),
            None => m.zero(),
        }
    }
}

/// The spread in hundredths of a percent of the mid price.
pub fn spread_bps<F: Copy, A: Arithmetic<F>>(a: &A, spread: Option<F>, mid: F) -> (bps: F)
    ensures
        forall|m: Model<F>| #[trigger]
            arith::describes(m, *a) ==> bps == spread_bps_of(m, spread, mid),
{
    let none: F = arith::zero(a);
    if arith::less_eq(a, mid, none) {
        return none;
    }
    match spread {
        Some(width) => {
            let part: F = arith::over(a, width, mid);
            arith::times(a, part, arith::ratio(a, 10_000, 1))
        },
        None => none,
    }
}

// ---------------------------------------------------------------------------
// Order book imbalance
// ---------------------------------------------------------------------------

/// The quantities of the levels with a price from `low` to `high`.
pub open spec fn quantities_between<F>(m: Model<F>, levels: Seq<Level<F>>, low: F, high: F) -> Seq<F>
    decreases levels.len(),
{
    if levels.len() == 0 {
        Seq::empty()
    } else {
        let before = quantities_between(m, levels.drop_last(), low, high);
        let last = levels.last();
        if m.less_eq(low, last.price) && m.less_eq(last.price, high) {
            before.push(last.quantity)
        } else {
            before
        }
    }
}

/// The total quantity of the levels with a price from `low` to `high`.
pub fn depth_between<F: Copy, A: Arithmetic<F>>(
    a: &A,
    levels: &Vec<Level<F>>,
    low: F,
    high: F,
) -> (depth: F)
    ensures
        forall|m: Model<F>| #[trigger]
            arith::describes(m, *a) ==> depth == m.sum(
                quantities_between(m, levels@, low, high),
            ),
{
    let mut list: Vec<F> = Vec::new();
    let mut i: usize = 0;
    while i < levels.len()
        invariant
            i <= levels.len(),
            forall|m: Model<F>| #[trigger]
                arith::describes(m, *a) ==> list@ == quantities_between(
                    m,
                    levels@.take(i as int),
                    low,
                    high,
                ),
        decreases levels.len() - i,
    {
        proof {
            assert(levels@.take(i as int + 1).drop_last() =~= levels@.take(i as int));
        }
        let level: Level<F> = levels[i];
        if arith::less_eq(a, low, level.price) && arith::less_eq(a, level.price, high) {
            list.push(level.quantity);
        }
        i += 1;
    }
    proof {
        assert(levels@.take(levels@.len() as int) =~= levels@);
    }
    arith::sum(a, &list)
}

/// How far one side of the book outweighs the other near the mid price.
#[derive(Clone, Copy, Debug)]
pub struct BookBalance<F> {
    pub imbalance: F,
    pub bid_depth: F,
    pub ask_depth: F,
}

/// The balance of the book within `near_ticks` ticks of the mid price.
pub open spec fn balance_of<F>(
    m: Model<F>,
    bids: Seq<Level<F>>,
    asks: Seq<Level<F>>,
    mid: F,
    tick_size: F,
    near_ticks: usize,
) -> BookBalance<F> {
    let none = BookBalance { imbalance: m.zero(), bid_depth: m.zero(), ask_depth: m.zero() };
    if m.less_eq(mid, m.zero()) || m.less_eq(tick_size, m.zero()) {
        none
    } else {
        let reach = m.times(m.count(near_ticks as u64), tick_size);
        let bid_depth = m.sum(quantities_between(m, bids, m.minus(mid, reach), mid));
        let ask_depth = m.sum(quantities_between(m, asks, mid, m.plus(mid, reach)));
        let total = m.plus(bid_depth, ask_depth);
        if m.less(total, m.ratio(1, 1_000_000_000_000)) {
            none
        } else {
            BookBalance {
                imbalance: m.over(m.minus(bid_depth, ask_depth), total),
                bid_depth,
                ask_depth,
            }
        }
    }
}

/// The balance of the book within `near_ticks` ticks of the mid price.
pub fn order_book_imbalance<F: Copy, A: Arithmetic<F>>(
    a: &A,
    bids: &Vec<Level<F>>,
    asks: &Vec<Level<F>>,
    mid: F,
    tick_size: F,
    near_ticks: usize,
) -> (balance: BookBalance<F>)
    ensures
        forall|m: Model<F>| #[trigger]
            arith::describes(m, *a) ==> balance == balance_of(
                m,
                bids@,
                asks@,
                mid,
                tick_size,
                near_ticks,
            ),
{
    let zero: F = arith::zero(a);
    let none: BookBalance<F> = BookBalance { imbalance: zero, bid_depth: zero, ask_depth: zero };
    if arith::less_eq(a, mid, zero) || arith::less_eq(a, tick_size, zero) {
        return none;
    }
    let reach: F = arith::times(a, arith::count(a, near_ticks as u64), tick_size);
    let low: F = arith::minus(a, mid, reach);
    let high: F = arith::plus(a, mid, reach);
    let bid_depth: F = depth_between(a, bids, low, mid);
    let ask_depth: F = depth_between(a, asks, mid, high);
    let total: F = arith::plus(a, bid_depth, ask_depth);
    if arith::less(a, total, arith::ratio(a, 1, 1_000_000_000_000)) {
        return none;
    }
    let difference: F = arith::minus(a, bid_depth, ask_depth);
    BookBalance { imbalance: arith::over(a, difference, total), bid_depth, ask_depth }
}

// ---------------------------------------------------------------------------
// Fill:kill
// ---------------------------------------------------------------------------

/// Which figure of a burst is meant.
#[derive(Clone, Copy, Debug, PartialEq, Eq, Structural)]
pub enum BurstFigure {
    Fill,
    Kill,
    LogRatio,
}

/// The figure of a burst, where it has one.
pub open spec fn figure_of<F>(sample: FillKillSample<F>, figure: BurstFigure) -> Option<F> {
    match figure {
        BurstFigure::Fill => Some(sample.fill_qty),
        BurstFigure::Kill => Some(sample.kill_qty),
        BurstFigure::LogRatio => sample.signed_log_ratio,
    }
}

/// The figures of the bursts in one direction from `from` on and, where a limit
/// is given, before it.
pub open spec fn figures<F>(
    samples: Seq<FillKillSample<F>>,
    from: u64,
    before: Option<u64>,
    direction: BurstDirection,
    figure: BurstFigure,
) -> Seq<F>
    decreases samples.len(),
{
    if samples.len() == 0 {
        Seq::empty()
    } else {
        let earlier = figures(samples.drop_last(), from, before, direction, figure);
        let last = samples.last();
        let wanted = last.timestamp_ms >= from && (before matches Some(limit)
            ==> last.timestamp_ms < limit) && last.direction == direction;
        match figure_of(last, figure) {
            Some(value) if wanted => earlier.push(value),
            _ => earlier,
        }
    }
}

/// The figures of the bursts in one direction from `from` on and, where a limit
/// is given, before it.
pub fn pick_figures<F: Copy>(
    samples: &Vec<FillKillSample<F>>,
    from: u64,
    before: Option<u64>,
    direction: BurstDirection,
    figure: BurstFigure,
) -> (list: Vec<F>)
    ensures
        list@ == figures(samples@, from, before, direction, figure),
{
    let mut list: Vec<F> = Vec::new();
    let mut i: usize = 0;
    while i < samples.len()
        invariant
            i <= samples.len(),
            list@ == figures(samples@.take(i as int), from, before, direction, figure),
        decreases samples.len() - i,
    {
        proof {
            assert(samples@.take(i as int + 1).drop_last() =~= samples@.take(i as int));
        }
        let sample: FillKillSample<F> = samples[i];
        let in_time: bool = sample.timestamp_ms >= from && match before {
            Some(limit) => sample.timestamp_ms < limit,
            None => true,
        };
        let value: Option<F> = match figure {
            BurstFigure::Fill => Some(sample.fill_qty),
            BurstFigure::Kill => Some(sample.kill_qty),
            BurstFigure::LogRatio => sample.signed_log_ratio,
        };
        if in_time && sample.direction == direction {
            if let Some(number) = value {
                list.push(number);
            }
        }
        i += 1;
    }
    proof {
        assert(samples@.take(samples@.len() as int) =~= samples@);
    }
    list
}

/// The net direction of buying and selling, from -1 to 1; zero where there was
/// next to none.
pub open spec fn direction_of<F>(m: Model<F>, bought: F, sold: F) -> F {
    let total = m.plus(bought, sold);
    if m.less(m.ratio(1, 1_000_000_000_000), total) {
        m.over(m.minus(bought, sold), total)
    } else {
        m.zero()
    }
}

/// The net direction of buying and selling.
pub fn net_direction<F: Copy, A: Arithmetic<F>>(a: &A, bought: F, sold: F) -> (direction: F)
    ensures
        forall|m: Model<F>| #[trigger]
            arith::describes(m, *a) ==> direction == direction_of(m, bought, sold),
{
    let total: F = arith::plus(a, bought, sold);
    if arith::less(a, arith::ratio(a, 1, 1_000_000_000_000), total) {
        let difference: F = arith::minus(a, bought, sold);
        arith::over(a, difference, total)
    } else {
        arith::zero(a)
    }
}

/// The mean of some numbers, where there are any.
pub open spec fn average_of<F>(m: Model<F>, list: Seq<F>) -> Option<F> {
    if list.len() == 0 {
        None
    } else {
        Some(m.mean(list))
    }
}

/// The mean of some numbers, where there are any.
pub fn average_option<F: Copy, A: Arithmetic<F>>(a: &A, list: &Vec<F>) -> (average: Option<F>)
    ensures
        forall|m: Model<F>| #[trigger]
            arith::describes(m, *a) ==> average == average_of(m, list@),
{
    if list.len() == 0 {
        None
    } else {
        Some(arith::mean(a, list))
    }
}

/// Fill:kill totals of the rolling window by direction.
#[derive(Clone, Copy, Debug)]
pub struct FillKillTotals<F> {
    pub buy_fill: F,
    pub buy_kill: F,
    pub sell_fill: F,
    pub sell_kill: F,
    pub net_direction: F,
    pub buy_signed_log_ratio: Option<F>,
    pub sell_signed_log_ratio: Option<F>,
}

/// The start of a window that ends at `now`, zero at the earliest.
pub open spec fn window_start(now: u64, window: u64) -> u64 {
    if now >= window {
        (now - window) as u64
    } else {
        0
    }
}

/// Fill:kill totals of the bursts in the window.
pub open spec fn totals_of<F>(
    m: Model<F>,
    samples: Seq<FillKillSample<F>>,
    now: u64,
    window: u64,
) -> FillKillTotals<F> {
    let from = window_start(now, window);
    let list = |direction: BurstDirection, figure: BurstFigure|
        figures(samples, from, None, direction, figure);
    let buy_fill = m.sum(list(BurstDirection::Buy, BurstFigure::Fill));
    let sell_fill = m.sum(list(BurstDirection::Sell, BurstFigure::Fill));
    FillKillTotals {
        buy_fill,
        buy_kill: m.sum(list(BurstDirection::Buy, BurstFigure::Kill)),
        sell_fill,
        sell_kill: m.sum(list(BurstDirection::Sell, BurstFigure::Kill)),
        net_direction: direction_of(m, buy_fill, sell_fill),
        buy_signed_log_ratio: average_of(m, list(BurstDirection::Buy, BurstFigure::LogRatio)),
        sell_signed_log_ratio: average_of(m, list(BurstDirection::Sell, BurstFigure::LogRatio)),
    }
}

/// Fill:kill totals of the bursts in the window.
pub fn fill_kill_aggregation<F: Copy, A: Arithmetic<F>>(
    a: &A,
    samples: &Vec<FillKillSample<F>>,
    now: u64,
    window: u64,
) -> (totals: FillKillTotals<F>)
    ensures
        forall|m: Model<F>| #[trigger]
            arith::describes(m, *a) ==> totals == totals_of(m, samples@, now, window),
{
    let from: u64 = now.saturating_sub(window);
    let buy: BurstDirection = BurstDirection::Buy;
    let sell: BurstDirection = BurstDirection::Sell;
    let buy_fill: F = arith::sum(a, &pick_figures(samples, from, None, buy, BurstFigure::Fill));
    let buy_kill: F = arith::sum(a, &pick_figures(samples, from, None, buy, BurstFigure::Kill));
    let sell_fill: F = arith::sum(a, &pick_figures(samples, from, None, sell, BurstFigure::Fill));
    let sell_kill: F = arith::sum(a, &pick_figures(samples, from, None, sell, BurstFigure::Kill));
    let buy_ratios: Vec<F> = pick_figures(samples, from, None, buy, BurstFigure::LogRatio);
    let sell_ratios: Vec<F> = pick_figures(samples, from, None, sell, BurstFigure::LogRatio);
    FillKillTotals {
        buy_fill,
        buy_kill,
        sell_fill,
        sell_kill,
        net_direction: net_direction(a, buy_fill, sell_fill),
        buy_signed_log_ratio: average_option(a, &buy_ratios),
        sell_signed_log_ratio: average_option(a, &sell_ratios),
    }
}

/// The middle of a window that begins at `from`.
pub open spec fn window_middle(from: u64, window: u64) -> u64 {
    if from + window / 2 <= u64::MAX {
        (from + window / 2) as u64
    } else {
        u64::MAX
    }
}

/// The net direction of the fills from `from` on and, where a limit is given,
/// before it.
pub open spec fn half_direction<F>(
    m: Model<F>,
    samples: Seq<FillKillSample<F>>,
    from: u64,
    before: Option<u64>,
) -> F {
    direction_of(
        m,
        m.sum(figures(samples, from, before, BurstDirection::Buy, BurstFigure::Fill)),
        m.sum(figures(samples, from, before, BurstDirection::Sell, BurstFigure::Fill)),
    )
}

/// How the net direction of the later half of the window differs from that of
/// the earlier half.
pub open spec fn shift_of<F>(
    m: Model<F>,
    samples: Seq<FillKillSample<F>>,
    now: u64,
    window: u64,
) -> F {
    let from = window_start(now, window);
    let middle = window_middle(from, window);
    m.minus(
        half_direction(m, samples, middle, None),
        half_direction(m, samples, from, Some(middle)),
    )
}

/// How the net direction of the later half of the window differs from that of
/// the earlier half: positive where aggression shifts towards buying.
pub fn aggression_shift<F: Copy, A: Arithmetic<F>>(
    a: &A,
    samples: &Vec<FillKillSample<F>>,
    now: u64,
    window: u64,
) -> (shift: F)
    ensures
        forall|m: Model<F>| #[trigger]
            arith::describes(m, *a) ==> shift == shift_of(m, samples@, now, window),
{
    let from: u64 = now.saturating_sub(window);
    let middle: u64 = from.saturating_add(window / 2);
    let buy: BurstDirection = BurstDirection::Buy;
    let sell: BurstDirection = BurstDirection::Sell;
    let fill: BurstFigure = BurstFigure::Fill;
    let early_buy: F = arith::sum(a, &pick_figures(samples, from, Some(middle), buy, fill));
    let early_sell: F = arith::sum(a, &pick_figures(samples, from, Some(middle), sell, fill));
    let late_buy: F = arith::sum(a, &pick_figures(samples, middle, None, buy, fill));
    let late_sell: F = arith::sum(a, &pick_figures(samples, middle, None, sell, fill));
    let early: F = net_direction(a, early_buy, early_sell);
    let late: F = net_direction(a, late_buy, late_sell);
    arith::minus(a, late, early)
}

// ---------------------------------------------------------------------------
// Cumulative figures
// ---------------------------------------------------------------------------

/// The value of the latest cumulative ratio, zero where there is none.
pub open spec fn ratio_of<F>(m: Model<F>, ratio: Option<RatioValue<F>>) -> F {
    match ratio {
        Some(RatioValue::Finite(value)) => value,
        Some(RatioValue::Infinite) => m.infinity(),
        _ => m.zero(),
    }
}

/// The value of the latest cumulative ratio, zero where there is none.
pub fn cumulative_ratio<F: Copy, A: Arithmetic<F>>(
    a: &A,
    ratio: Option<RatioValue<F>>,
) -> (value: F)
    ensures
        forall|m: Model<F>| #[trigger] arith::describes(m, *a) ==> value == ratio_of(m, ratio),
{
    match ratio {
        Some(RatioValue::Finite(value)) => value,
        Some(RatioValue::Infinite) => arith::infinity(a),
        _ => arith::zero(a),
    }
}

// ---------------------------------------------------------------------------
// Trade flow and absorption
// ---------------------------------------------------------------------------

/// The notionals of the trades from `from` on, of all or only of the buys.
pub open spec fn notionals<F>(
    m: Model<F>,
    trades: Seq<MarketTrade<F>>,
    from: u64,
    only_buys: bool,
) -> Seq<F>
    decreases trades.len(),
{
    if trades.len() == 0 {
        Seq::empty()
    } else {
        let before = notionals(m, trades.drop_last(), from, only_buys);
        let last = trades.last();
        if last.received_at_ms >= from && (only_buys ==> last.is_buy) {
            before.push(m.times(last.price, last.quantity))
        } else {
            before
        }
    }
}

/// The prices of the trades from `from` on.
pub open spec fn prices<F>(trades: Seq<MarketTrade<F>>, from: u64) -> Seq<F>
    decreases trades.len(),
{
    if trades.len() == 0 {
        Seq::empty()
    } else {
        let before = prices(trades.drop_last(), from);
        if trades.last().received_at_ms >= from {
            before.push(trades.last().price)
        } else {
            before
        }
    }
}

/// The notionals of the trades from `from` on, of all or only of the buys.
pub fn pick_notionals<F: Copy, A: Arithmetic<F>>(
    a: &A,
    trades: &Vec<MarketTrade<F>>,
    from: u64,
    only_buys: bool,
) -> (list: Vec<F>)
    ensures
        list.len() == notional_count(trades@, from, only_buys),
        forall|m: Model<F>| #[trigger]
            arith::describes(m, *a) ==> list@ == notionals(m, trades@, from, only_buys),
{
    let mut list: Vec<F> = Vec::new();
    let mut i: usize = 0;
    while i < trades.len()
        invariant
            i <= trades.len(),
            list.len() == notional_count(trades@.take(i as int), from, only_buys),
            forall|m: Model<F>| #[trigger]
                arith::describes(m, *a) ==> list@ == notionals(
                    m,
                    trades@.take(i as int),
                    from,
                    only_buys,
                ),
        decreases trades.len() - i,
    {
        proof {
            assert(trades@.take(i as int + 1).drop_last() =~= trades@.take(i as int));
        }
        let trade: MarketTrade<F> = trades[i];
        if trade.received_at_ms >= from && (!only_buys || trade.is_buy) {
            list.push(arith::times(a, trade.price, trade.quantity));
        }
        i += 1;
    }
    proof {
        assert(trades@.take(trades@.len() as int) =~= trades@);
    }
    list
}

/// How many trades there are from `from` on, of all or only of the buys.
pub open spec fn notional_count<F>(trades: Seq<MarketTrade<F>>, from: u64, only_buys: bool) -> nat
    decreases trades.len(),
{
    if trades.len() == 0 {
        0
    } else {
        let last = trades.last();
        notional_count(trades.drop_last(), from, only_buys) + if last.received_at_ms >= from && (
        only_buys ==> last.is_buy) {
            1nat
        } else {
            0nat
        }
    }
}

/// The prices of the trades from `from` on.
pub fn pick_prices<F: Copy>(trades: &Vec<MarketTrade<F>>, from: u64) -> (list: Vec<F>)
    ensures
        list@ == prices(trades@, from),
{
    let mut list: Vec<F> = Vec::new();
    let mut i: usize = 0;
    while i < trades.len()
        invariant
            i <= trades.len(),
            list@ == prices(trades@.take(i as int), from),
        decreases trades.len() - i,
    {
        proof {
            assert(trades@.take(i as int + 1).drop_last() =~= trades@.take(i as int));
        }
        if trades[i].received_at_ms >= from {
            list.push(trades[i].price);
        }
        i += 1;
    }
    proof {
        assert(trades@.take(trades@.len() as int) =~= trades@);
    }
    list
}

/// Trades of a window: their number, their notional and the share of buys.
#[derive(Clone, Copy, Debug)]
pub struct TradeFlow<F> {
    pub count: u64,
    pub volume: F,
    pub buy_volume_pct: F,
}

/// The trade flow of the window that ends at `now`. Without volume the share of
/// buys is one half.
pub open spec fn flow_of<F>(
    m: Model<F>,
    trades: Seq<MarketTrade<F>>,
    now: u64,
    window: u64,
) -> TradeFlow<F> {
    let from = window_start(now, window);
    let volume = m.sum(notionals(m, trades, from, false));
    let bought = m.sum(notionals(m, trades, from, true));
    TradeFlow {
        count: notional_count(trades, from, false) as u64,
        volume,
        buy_volume_pct: if m.less(m.ratio(1, 1_000_000_000_000), volume) {
            m.times(m.over(bought, volume), m.ratio(100, 1))
        } else {
            m.ratio(50, 1)
        },
    }
}

/// The trade flow of the window that ends at `now`.
pub fn trade_flow<F: Copy, A: Arithmetic<F>>(
    a: &A,
    trades: &Vec<MarketTrade<F>>,
    now: u64,
    window: u64,
) -> (flow: TradeFlow<F>)
    ensures
        flow.count == notional_count(trades@, window_start(now, window), false),
        forall|m: Model<F>| #[trigger]
            arith::describes(m, *a) ==> flow == flow_of(m, trades@, now, window),
{
    let from: u64 = now.saturating_sub(window);
    let all: Vec<F> = pick_notionals(a, trades, from, false);
    let buys: Vec<F> = pick_notionals(a, trades, from, true);
    let volume: F = arith::sum(a, &all);
    let bought: F = arith::sum(a, &buys);
    let buy_volume_pct: F = if arith::less(a, arith::ratio(a, 1, 1_000_000_000_000), volume) {
        let share: F = arith::over(a, bought, volume);
        arith::times(a, share, arith::ratio(a, 100, 1))
    } else {
        arith::ratio(a, 50, 1)
    };
    TradeFlow { count: all.len() as u64, volume, buy_volume_pct }
}

/// How much volume the window traded for how little price movement, from zero
/// to one.
pub open spec fn absorption_of<F>(
    m: Model<F>,
    trades: Seq<MarketTrade<F>>,
    now: u64,
    window: u64,
) -> F {
    let from = window_start(now, window);
    let volume = m.sum(notionals(m, trades, from, false));
    let path = prices(trades, from);
    if m.less(volume, m.ratio(1, 1_000_000_000_000)) || path.len() == 0 || !m.less(
        m.zero(),
        path[0],
    ) {
        m.zero()
    } else {
        let change = m.times(
            m.abs(m.over(m.minus(path.last(), path[0]), path[0])),
            m.ratio(100, 1),
        );
        if m.less(change, m.ratio(1, 1_000_000)) {
            m.ratio(1, 1)
        } else {
            m.unit(
                m.over(
                    m.plus(m.ln(m.over(volume, change)), m.ratio(5, 1)),
                    m.ratio(10, 1),
                ),
            )
        }
    }
}

/// How much volume the window traded for how little price movement.
pub fn absorption_score<F: Copy, A: Arithmetic<F>>(
    a: &A,
    trades: &Vec<MarketTrade<F>>,
    now: u64,
    window: u64,
) -> (score: F)
    ensures
        forall|m: Model<F>| #[trigger]
            arith::describes(m, *a) ==> score == absorption_of(m, trades@, now, window),
{
    let from: u64 = now.saturating_sub(window);
    let zero: F = arith::zero(a);
    let one: F = arith::ratio(a, 1, 1);
    let volume: F = arith::sum(a, &pick_notionals(a, trades, from, false));
    let path: Vec<F> = pick_prices(trades, from);
    if arith::less(a, volume, arith::ratio(a, 1, 1_000_000_000_000)) {
        return zero;
    }
    if path.len() == 0 {
        return zero;
    }
    let first: F = path[0];
    let last: F = path[path.len() - 1];
    if !arith::less(a, zero, first) {
        return zero;
    }
    let difference: F = arith::minus(a, last, first);
    let part: F = arith::over(a, difference, first);
    let size: F = arith::abs(a, part);
    let change: F = arith::times(a, size, arith::ratio(a, 100, 1));
    if arith::less(a, change, arith::ratio(a, 1, 1_000_000)) {
        return one;
    }
    let raw: F = arith::over(a, volume, change);
    let log: F = arith::ln(a, raw);
    let shifted: F = arith::plus(a, log, arith::ratio(a, 5, 1));
    arith::unit(a, arith::over(a, shifted, arith::ratio(a, 10, 1)))
}

// ---------------------------------------------------------------------------
// Samples
// ---------------------------------------------------------------------------

/// Whether a sample holds the signals of a snapshot.
pub open spec fn is_sample_of<F>(
    m: Model<F>,
    config: SignalConfig<F>,
    market: MarketSnapshot<F>,
    sample: SignalSample<F>,
) -> bool {
    let now = market.last_event_time;
    let mid = mid_of(m, market.best_bid, market.best_ask);
    let balance = balance_of(
        m,
        market.bids@,
        market.asks@,
        mid,
        market.tick_size,
        config.ob_near_ticks,
    );
    let totals = totals_of(m, market.fill_kill@, now, market.rolling_window_ms);
    let flow = flow_of(m, market.trades@, now, config.trade_window_ms);
    &&& sample.mid_price == mid
    &&& sample.spread_bps == spread_bps_of(m, market.spread, mid)
    &&& sample.ob_imbalance == balance.imbalance
    &&& sample.ob_bid_depth_near == balance.bid_depth
    &&& sample.ob_ask_depth_near == balance.ask_depth
    &&& sample.fk_buy_fill_qty == totals.buy_fill
    &&& sample.fk_buy_kill_qty == totals.buy_kill
    &&& sample.fk_sell_fill_qty == totals.sell_fill
    &&& sample.fk_sell_kill_qty == totals.sell_kill
    &&& sample.fk_net_direction == totals.net_direction
    &&& sample.fk_buy_signed_log_ratio == totals.buy_signed_log_ratio
    &&& sample.fk_sell_signed_log_ratio == totals.sell_signed_log_ratio
    &&& sample.cum_net_qty == m.minus(market.cum_fill_qty, market.cum_kill_qty)
    &&& sample.cum_ratio == ratio_of(m, market.cum_ratio)
    &&& sample.trade_count_1s == flow.count
    &&& sample.trade_volume_1s == flow.volume
    &&& sample.buy_volume_pct_1s == flow.buy_volume_pct
    &&& sample.absorption_score == absorption_of(
        m,
        market.trades@,
        now,
        config.absorption_lookback_ms,
    )
    &&& sample.aggression_shift == shift_of(
        m,
        market.fill_kill@,
        now,
        config.aggression_shift_window_ms,
    )
}

/// Whether a sample carries over what a snapshot gives as it is.
pub open spec fn carries_over<F>(
    config: SignalConfig<F>,
    market: MarketSnapshot<F>,
    sample: SignalSample<F>,
) -> bool {
    &&& sample.timestamp_ms == market.last_event_time
    &&& sample.symbol@ == config.symbol@
    &&& sample.cum_fill_qty == market.cum_fill_qty
    &&& sample.cum_kill_qty == market.cum_kill_qty
    &&& sample.impact_buy_slippage_bps == market.buy_impact.slippage_bps
    &&& sample.impact_sell_slippage_bps == market.sell_impact.slippage_bps
    &&& sample.impact_buy_levels_consumed == market.buy_impact.levels_consumed
    &&& sample.impact_sell_levels_consumed == market.sell_impact.levels_consumed
    &&& sample.vd_buy_levels == market.vd_buy_levels
    &&& sample.vd_sell_levels == market.vd_sell_levels
}

/// How many samples are kept.
pub const BUFFER_CAPACITY: usize = 180;

/// The last `n` elements, or all where there are fewer.
pub open spec fn last_of<T>(list: Seq<T>, n: int) -> Seq<T> {
    if list.len() <= n {
        list
    } else {
        list.skip(list.len() - n)
    }
}

/// Computes signals and keeps the latest of them.
pub struct SignalExtractor<F> {
    config: SignalConfig<F>,
    buffer: Vec<SignalSample<F>>,
}

impl<F: Copy> SignalExtractor<F> {
    /// The settings of the extractor.
    pub closed spec fn settings(&self) -> SignalConfig<F> {
        self.config
    }

    /// The samples that are kept, oldest first.
    pub closed spec fn kept(&self) -> Seq<SignalSample<F>> {
        self.buffer@
    }

    /// Whether no more samples are kept than there is room for.
    pub closed spec fn wf(&self) -> bool {
        self.buffer@.len() <= BUFFER_CAPACITY
    }

    /// An extractor that has no sample yet.
    pub fn new(config: SignalConfig<F>) -> (extractor: SignalExtractor<F>)
        ensures
            extractor.wf(),
            extractor.settings() == config,
            extractor.kept() == Seq::<SignalSample<F>>::empty(),
    {
        SignalExtractor { config, buffer: Vec::new() }
    }

    /// The signals of a snapshot.
    pub fn compute_sample<A: Arithmetic<F>>(
        &self,
        a: &A,
        market: &MarketSnapshot<F>,
    ) -> (sample: SignalSample<F>)
        ensures
            carries_over(self.settings(), *market, sample),
            forall|m: Model<F>| #[trigger]
                arith::describes(m, *a) ==> is_sample_of(m, self.settings(), *market, sample),
    {
        let now: u64 = market.last_event_time;
        let mid: F = mid_price(a, market.best_bid, market.best_ask);
        let balance: BookBalance<F> = order_book_imbalance(
            a,
            &market.bids,
            &market.asks,
            mid,
            market.tick_size,
            self.config.ob_near_ticks,
        );
        let totals: FillKillTotals<F> = fill_kill_aggregation(
            a,
            &market.fill_kill,
            now,
            market.rolling_window_ms,
        );
        let flow: TradeFlow<F> = trade_flow(a, &market.trades, now, self.config.trade_window_ms);
        SignalSample {
            timestamp_ms: now,
            symbol: self.config.symbol.clone(),
            mid_price: mid,
            spread_bps: spread_bps(a, market.spread, mid),
            ob_imbalance: balance.imbalance,
            ob_bid_depth_near: balance.bid_depth,
            ob_ask_depth_near: balance.ask_depth,
            fk_buy_fill_qty: totals.buy_fill,
            fk_buy_kill_qty: totals.buy_kill,
            fk_sell_fill_qty: totals.sell_fill,
            fk_sell_kill_qty: totals.sell_kill,
            fk_net_direction: totals.net_direction,
            fk_buy_signed_log_ratio: totals.buy_signed_log_ratio,
            fk_sell_signed_log_ratio: totals.sell_signed_log_ratio,
            cum_fill_qty: market.cum_fill_qty,
            cum_kill_qty: market.cum_kill_qty,
            cum_net_qty: arith::minus(a, market.cum_fill_qty, market.cum_kill_qty),
            cum_ratio: cumulative_ratio(a, market.cum_ratio),
            impact_buy_slippage_bps: market.buy_impact.slippage_bps,
            impact_sell_slippage_bps: market.sell_impact.slippage_bps,
            impact_buy_levels_consumed: market.buy_impact.levels_consumed,
            impact_sell_levels_consumed: market.sell_impact.levels_consumed,
            trade_count_1s: flow.count,
            trade_volume_1s: flow.volume,
            buy_volume_pct_1s: flow.buy_volume_pct,
            absorption_score: absorption_score(
                a,
                &market.trades,
                now,
                self.config.absorption_lookback_ms,
            ),
            aggression_shift: aggression_shift(
                a,
                &market.fill_kill,
                now,
                self.config.aggression_shift_window_ms,
            ),
            vd_buy_levels: market.vd_buy_levels,
            vd_sell_levels: market.vd_sell_levels,
        }
    }

    /// Computes the signals of a snapshot and keeps them.
    pub fn sample<A: Arithmetic<F>>(
        &mut self,
        a: &A,
        market: &MarketSnapshot<F>,
    ) -> (sample: SignalSample<F>)
        requires
            old(self).wf(),
        ensures
            final(self).wf(),
            final(self).settings() == old(self).settings(),
            final(self).kept() == last_of(old(self).kept().push(sample), BUFFER_CAPACITY as int),
            carries_over(old(self).settings(), *market, sample),
            forall|m: Model<F>| #[trigger]
                arith::describes(m, *a) ==> is_sample_of(m, old(self).settings(), *market, sample),
    {
        let sample: SignalSample<F> = self.compute_sample(a, market);
        let ghost before = self.buffer@;
        if self.buffer.len() >= BUFFER_CAPACITY {
            let _oldest: SignalSample<F> = self.buffer.remove(0);
        }
        self.buffer.push(sample.clone());
        proof {
            assert(self.buffer@ =~= last_of(before.push(sample), BUFFER_CAPACITY as int));
        }
        sample
    }

    /// The last `count` samples, or all where fewer are kept.
    pub fn recent_samples(&self, count: usize) -> (samples: &[SignalSample<F>])
        ensures
            samples@ == last_of(self.kept(), count as int),
    {
        let start: usize = self.buffer.len().saturating_sub(count);
        let all: &[SignalSample<F>] = self.buffer.as_slice();
        proof {
            assert(all@.subrange(start as int, all@.len() as int) =~= last_of(
                all@,
                count as int,
            ));
        }
        slice_subrange(all, start, all.len())
    }

    /// The latest sample, if there is one.
    pub fn latest(&self) -> (sample: Option<&SignalSample<F>>)
        ensures
            match sample {
                Some(latest) => self.kept().len() > 0 && *latest == self.kept().last(),
                None => self.kept().len() == 0,
            },
    {
        if self.buffer.len() == 0 {
            None
        } else {
            Some(&self.buffer[self.buffer.len() - 1])
        }
    }
}

// ---------------------------------------------------------------------------
// CSV
// ---------------------------------------------------------------------------

/// The heading of a file of samples.
pub open spec fn sample_heading() -> Seq<char> {
    "timestamp_ms,symbol,mid_price,spread_bps,ob_imbalance,ob_bid_depth_near,ob_ask_depth_near,fk_buy_fill_qty,fk_buy_kill_qty,fk_sell_fill_qty,fk_sell_kill_qty,fk_net_direction,fk_buy_signed_log_ratio,fk_sell_signed_log_ratio,cum_fill_qty,cum_kill_qty,cum_net_qty,cum_ratio,impact_buy_slippage_bps,impact_sell_slippage_bps,impact_buy_levels_consumed,impact_sell_levels_consumed,trade_count_1s,trade_volume_1s,buy_volume_pct_1s,absorption_score,aggression_shift"@
}

/// The heading of a file of samples.
pub fn sample_csv_header() -> (line: String)
    ensures
        line@ == sample_heading(),
{
    "timestamp_ms,symbol,mid_price,spread_bps,ob_imbalance,ob_bid_depth_near,ob_ask_depth_near,fk_buy_fill_qty,fk_buy_kill_qty,fk_sell_fill_qty,fk_sell_kill_qty,fk_net_direction,fk_buy_signed_log_ratio,fk_sell_signed_log_ratio,cum_fill_qty,cum_kill_qty,cum_net_qty,cum_ratio,impact_buy_slippage_bps,impact_sell_slippage_bps,impact_buy_levels_consumed,impact_sell_levels_consumed,trade_count_1s,trade_volume_1s,buy_volume_pct_1s,absorption_score,aggression_shift".to_string()
}

/// A number as it stands in a file, nothing where there is none.
pub open spec fn optional_text<F>(m: Model<F>, number: Option<F>) -> Seq<char> {
    match number {
        Some(value) => (m.text)(value, Style::Shortest),
        None => Seq::empty(),
    }
}

/// The fields of a sample in a file, in the order of the heading.
pub open spec fn sample_fields<F>(m: Model<F>, s: SignalSample<F>) -> Seq<Seq<char>> {
    let n = |number: F| (m.text)(number, Style::Shortest);
    seq![
        text::decimal(s.timestamp_ms as nat),
        s.symbol@,
        n(s.mid_price),
        n(s.spread_bps),
        n(s.ob_imbalance),
        n(s.ob_bid_depth_near),
        n(s.ob_ask_depth_near),
        n(s.fk_buy_fill_qty),
        n(s.fk_buy_kill_qty),
        n(s.fk_sell_fill_qty),
        n(s.fk_sell_kill_qty),
        n(s.fk_net_direction),
        optional_text(m, s.fk_buy_signed_log_ratio),
        optional_text(m, s.fk_sell_signed_log_ratio),
        n(s.cum_fill_qty),
        n(s.cum_kill_qty),
        n(s.cum_net_qty),
        n(s.cum_ratio),
        n(s.impact_buy_slippage_bps),
        n(s.impact_sell_slippage_bps),
        text::decimal(s.impact_buy_levels_consumed as nat),
        text::decimal(s.impact_sell_levels_consumed as nat),
        text::decimal(s.trade_count_1s as nat),
        n(s.trade_volume_1s),
        n(s.buy_volume_pct_1s),
        n(s.absorption_score),
        n(s.aggression_shift),
    ]
}

fn shortest<F, A: Arithmetic<F>>(a: &A, number: F) -> (written: String)
    ensures
        forall|m: Model<F>| #[trigger]
            arith::describes(m, *a) ==> written@ == (m.text)(number, Style::Shortest),
{
    arith::text(a, number, Style::Shortest)
}

fn shortest_option<F: Copy, A: Arithmetic<F>>(a: &A, number: Option<F>) -> (written: String)
    ensures
        forall|m: Model<F>| #[trigger]
            arith::describes(m, *a) ==> written@ == optional_text(m, number),
{
    match number {
        Some(value) => shortest(a, value),
        None => String::new(),
    }
}

/// A sample as a line of a file.
pub fn sample_csv_row<F: Copy, A: Arithmetic<F>>(a: &A, s: &SignalSample<F>) -> (line: String)
    ensures
        forall|m: Model<F>| #[trigger]
            arith::describes(m, *a) ==> line@ == text::joined(sample_fields(m, *s), ","@),
{
    let mut fields: Vec<String> = Vec::new();
    fields.push(text::decimal_text(s.timestamp_ms as u128));
    fields.push(s.symbol.clone());
    fields.push(shortest(a, s.mid_price));
    fields.push(shortest(a, s.spread_bps));
    fields.push(shortest(a, s.ob_imbalance));
    fields.push(shortest(a, s.ob_bid_depth_near));
    fields.push(shortest(a, s.ob_ask_depth_near));
    fields.push(shortest(a, s.fk_buy_fill_qty));
    fields.push(shortest(a, s.fk_buy_kill_qty));
    fields.push(shortest(a, s.fk_sell_fill_qty));
    fields.push(shortest(a, s.fk_sell_kill_qty));
    fields.push(shortest(a, s.fk_net_direction));
    fields.push(shortest_option(a, s.fk_buy_signed_log_ratio));
    fields.push(shortest_option(a, s.fk_sell_signed_log_ratio));
    fields.push(shortest(a, s.cum_fill_qty));
    fields.push(shortest(a, s.cum_kill_qty));
    fields.push(shortest(a, s.cum_net_qty));
    fields.push(shortest(a, s.cum_ratio));
    fields.push(shortest(a, s.impact_buy_slippage_bps));
    fields.push(shortest(a, s.impact_sell_slippage_bps));
    fields.push(text::decimal_text(s.impact_buy_levels_consumed as u128));
    fields.push(text::decimal_text(s.impact_sell_levels_consumed as u128));
    fields.push(text::decimal_text(s.trade_count_1s as u128));
    fields.push(shortest(a, s.trade_volume_1s));
    fields.push(shortest(a, s.buy_volume_pct_1s));
    fields.push(shortest(a, s.absorption_score));
    fields.push(shortest(a, s.aggression_shift));
    proof {
        assert forall|m: Model<F>| #[trigger] arith::describes(m, *a) implies text::views(fields@)
            == sample_fields(m, *s) by {
            assert(text::views(fields@) =~= sample_fields(m, *s));
        }
    }
    text::join(&fields, ",")
}

// ---------------------------------------------------------------------------
// Laws
// ---------------------------------------------------------------------------

/// What is kept once further samples have been taken.
pub open spec fn kept_after<T>(kept: Seq<T>, samples: Seq<T>) -> Seq<T>
    decreases samples.len(),
{
    if samples.len() == 0 {
        kept
    } else {
        last_of(kept_after(kept, samples.drop_last()).push(samples.last()), BUFFER_CAPACITY as int)
    }
}

/// However many samples an extractor takes, it keeps the latest of them in
/// order, never more than there is room for, and each that it has taken is then
/// its latest.
pub proof fn law_latest_samples_are_kept<T>(samples: Seq<T>)
    ensures
        kept_after(Seq::empty(), samples) == last_of(samples, BUFFER_CAPACITY as int),
        kept_after(Seq::empty(), samples).len() <= BUFFER_CAPACITY,
        samples.len() > 0 ==> kept_after(Seq::empty(), samples).last() == samples.last(),
    decreases samples.len(),
{
    if samples.len() > 0 {
        let front = samples.drop_last();
        law_latest_samples_are_kept(front);
        let pushed = kept_after(Seq::empty(), front).push(samples.last());
        assert(last_of(pushed, BUFFER_CAPACITY as int) =~= last_of(
            samples,
            BUFFER_CAPACITY as int,
        ));
    }
}

/// Where numbers are ordered as numbers are and zero comes before one, the
/// absorption score is neither below zero nor above one.
pub proof fn law_absorption_lies_within_unit<F>(
    m: Model<F>,
    trades: Seq<MarketTrade<F>>,
    now: u64,
    window: u64,
)
    requires
        arith::orders_numbers(m),
        m.less(m.zero(), m.ratio(1, 1)),
    ensures
        !m.less(absorption_of(m, trades, now, window), m.zero()),
        !m.less(m.ratio(1, 1), absorption_of(m, trades, now, window)),
{
    let score = absorption_of(m, trades, now, window);
    assert(m.less(score, m.zero()) ==> !m.less(m.zero(), score));
    assert(m.less(m.ratio(1, 1), score) ==> !m.less(score, m.ratio(1, 1)));
}

/// A book with an empty side has no mid price, and where zero is not above zero
/// no spread and no imbalance either.
pub proof fn law_empty_book_is_neutral<F>(
    m: Model<F>,
    config: SignalConfig<F>,
    market: MarketSnapshot<F>,
    sample: SignalSample<F>,
)
    requires
        market.best_bid is None || market.best_ask is None,
        m.less_eq(m.zero(), m.zero()),
        is_sample_of(m, config, market, sample),
    ensures
        sample.mid_price == m.zero(),
        sample.spread_bps == m.zero(),
        sample.ob_imbalance == m.zero(),
        sample.ob_bid_depth_near == m.zero(),
        sample.ob_ask_depth_near == m.zero(),
{
}

/// Where nothing has been traded in the window, the flow counts no trade and
/// half of it counts as bought, as long as zero is no volume.
pub proof fn law_no_trades_are_neutral<F>(
    m: Model<F>,
    trades: Seq<MarketTrade<F>>,
    now: u64,
    window: u64,
)
    requires
        forall|i: int|
            0 <= i < trades.len() ==> (#[trigger] trades[i]).received_at_ms < window_start(
                now,
                window,
            ),
        !m.less(m.ratio(1, 1_000_000_000_000), m.zero()),
    ensures
        flow_of(m, trades, now, window).count == 0,
        flow_of(m, trades, now, window).volume == m.zero(),
        flow_of(m, trades, now, window).buy_volume_pct == m.ratio(50, 1),
        absorption_of(m, trades, now, window) == m.zero(),
{
    let from = window_start(now, window);
    lemma_nothing_traded(m, trades, from, false);
    lemma_nothing_traded(m, trades, from, true);
}

/// Trades before a time are not picked from that time on.
proof fn lemma_nothing_traded<F>(
    m: Model<F>,
    trades: Seq<MarketTrade<F>>,
    from: u64,
    only_buys: bool,
)
    requires
        forall|i: int| 0 <= i < trades.len() ==> (#[trigger] trades[i]).received_at_ms < from,
    ensures
        notionals(m, trades, from, only_buys).len() == 0,
        notional_count(trades, from, only_buys) == 0,
        prices(trades, from).len() == 0,
    decreases trades.len(),
{
    if trades.len() > 0 {
        assert(trades[trades.len() - 1].received_at_ms < from);
        assert forall|i: int| 0 <= i < trades.drop_last().len() implies (#[trigger]
        trades.drop_last()[i]).received_at_ms < from by {
            assert(trades.drop_last()[i] == trades[i]);
        }
        lemma_nothing_traded(m, trades.drop_last(), from, only_buys);
    }
}

/// The net direction of what was bought and sold lies from -1 to 1, and where
/// the sides are swapped it has the other sign.
pub proof fn law_net_direction_lies_within<F>(m: Model<F>, bought: F, sold: F)
    requires
        arith::keeps_bounds(m),
        m.less_eq(m.zero(), bought),
        m.less_eq(m.zero(), sold),
    ensures
        !m.less(m.ratio(1, 1), direction_of(m, bought, sold)),
        !m.less(direction_of(m, bought, sold), m.neg(m.ratio(1, 1))),
        arith::alike(m, direction_of(m, sold, bought), m.neg(direction_of(m, bought, sold))),
{
    let least = m.ratio(1, 1_000_000_000_000);
    let total = m.plus(bought, sold);
    assert(m.less_eq(m.zero(), least));
    if m.less(least, total) {
        arith::lemma_contrast(m, bought, sold);
    } else {
        lemma_zero_within_one(m);
    }
    lemma_swapped_direction(m, bought, sold);
}

/// Zero lies from -1 to 1.
proof fn lemma_zero_within_one<F>(m: Model<F>)
    requires
        arith::keeps_bounds(m),
    ensures
        !m.less(m.ratio(1, 1), m.zero()),
        !m.less(m.zero(), m.neg(m.ratio(1, 1))),
{
    let one = m.ratio(1, 1);
    assert(m.less_eq(m.zero(), one));
    assert(m.less(m.neg(m.zero()), m.neg(one)) == m.less(one, m.zero()));
    assert(m.less(m.zero(), m.neg(one)) == m.less(m.neg(m.zero()), m.neg(one)));
}

/// Where the sides are swapped, the net direction has the other sign.
proof fn lemma_swapped_direction<F>(m: Model<F>, bought: F, sold: F)
    requires
        arith::turns_signs(m),
        forall|x: F|
            m.less(m.ratio(1, 1_000_000_000_000), x) ==> #[trigger] m.less(m.zero(), x),
    ensures
        arith::alike(m, direction_of(m, sold, bought), m.neg(direction_of(m, bought, sold))),
{
    let least = m.ratio(1, 1_000_000_000_000);
    let total = m.plus(bought, sold);
    let swapped = m.plus(sold, bought);
    assert(arith::alike(m, swapped, total));
    assert(m.less(least, swapped) == m.less(least, total));
    if m.less(least, total) {
        assert(m.less(m.zero(), swapped));
        let difference = m.minus(bought, sold);
        let turned = m.minus(sold, bought);
        arith::lemma_turned_difference(m, bought, sold);
        assert(arith::alike(m, m.over(turned, swapped), m.over(m.neg(difference), total)));
        arith::lemma_alike(
            m,
            m.over(turned, swapped),
            m.over(m.neg(difference), total),
            m.neg(m.over(difference, total)),
        );
    } else {
        arith::lemma_alike(m, m.neg(m.zero()), m.zero(), m.zero());
    }
}

/// Where no burst filled less than nothing, the aggression shift lies from -2
/// to 2.
pub proof fn law_shift_lies_within_two<F>(
    m: Model<F>,
    samples: Seq<FillKillSample<F>>,
    now: u64,
    window: u64,
)
    requires
        arith::keeps_bounds(m),
        forall|i: int|
            0 <= i < samples.len() ==> m.less_eq(m.zero(), (#[trigger] samples[i]).fill_qty),
    ensures
        !m.less(m.ratio(2, 1), shift_of(m, samples, now, window)),
        !m.less(shift_of(m, samples, now, window), m.neg(m.ratio(2, 1))),
{
    let from = window_start(now, window);
    let middle = window_middle(from, window);
    let early = half_direction(m, samples, from, Some(middle));
    let late = half_direction(m, samples, middle, None);
    lemma_half_lies_within(m, samples, from, Some(middle));
    lemma_half_lies_within(m, samples, middle, None);
    let one = m.ratio(1, 1);
    let two = m.ratio(2, 1);
    let sum = m.plus(one, one);
    let high = m.minus(one, m.neg(one));
    let low = m.minus(m.neg(one), one);
    let shift = m.minus(late, early);
    assert(!m.less(high, shift));
    assert(!m.less(shift, low));
    assert(arith::alike(m, m.neg(m.neg(one)), one));
    assert(arith::alike(m, m.plus(one, m.neg(m.neg(one))), sum));
    arith::lemma_alike(m, high, m.plus(one, m.neg(m.neg(one))), sum);
    arith::lemma_alike(m, high, sum, two);
    assert(m.less(high, shift) == m.less(two, shift));
    assert(arith::alike(m, low, m.plus(m.neg(one), m.neg(one))));
    arith::lemma_alike(m, low, m.plus(m.neg(one), m.neg(one)), m.neg(sum));
    assert(arith::alike(m, m.neg(sum), m.neg(two)));
    arith::lemma_alike(m, low, m.neg(sum), m.neg(two));
    assert(m.less(shift, low) == m.less(shift, m.neg(two)));
}

/// The net direction of a half of the window lies from -1 to 1.
proof fn lemma_half_lies_within<F>(
    m: Model<F>,
    samples: Seq<FillKillSample<F>>,
    from: u64,
    before: Option<u64>,
)
    requires
        arith::keeps_bounds(m),
        forall|i: int|
            0 <= i < samples.len() ==> m.less_eq(m.zero(), (#[trigger] samples[i]).fill_qty),
    ensures
        !m.less(m.ratio(1, 1), half_direction(m, samples, from, before)),
        !m.less(half_direction(m, samples, from, before), m.neg(m.ratio(1, 1))),
{
    let buys = figures(samples, from, before, BurstDirection::Buy, BurstFigure::Fill);
    let sells = figures(samples, from, before, BurstDirection::Sell, BurstFigure::Fill);
    lemma_fills_not_below_zero(m, samples, from, before, BurstDirection::Buy);
    lemma_fills_not_below_zero(m, samples, from, before, BurstDirection::Sell);
    arith::lemma_sum_not_below_zero(m, buys);
    arith::lemma_sum_not_below_zero(m, sells);
    law_net_direction_lies_within(m, m.sum(buys), m.sum(sells));
}

/// Where no burst filled less than nothing, none that is picked did.
proof fn lemma_fills_not_below_zero<F>(
    m: Model<F>,
    samples: Seq<FillKillSample<F>>,
    from: u64,
    before: Option<u64>,
    direction: BurstDirection,
)
    requires
        forall|i: int|
            0 <= i < samples.len() ==> m.less_eq(m.zero(), (#[trigger] samples[i]).fill_qty),
    ensures
        forall|i: int|
            0 <= i < figures(samples, from, before, direction, BurstFigure::Fill).len()
                ==> m.less_eq(
                m.zero(),
                #[trigger] figures(samples, from, before, direction, BurstFigure::Fill)[i],
            ),
    decreases samples.len(),
{
    if samples.len() > 0 {
        let front = samples.drop_last();
        assert forall|i: int| 0 <= i < front.len() implies m.less_eq(
            m.zero(),
            (#[trigger] front[i]).fill_qty,
        ) by {
            assert(front[i] == samples[i]);
        }
        lemma_fills_not_below_zero(m, front, from, before, direction);
        let earlier = figures(front, from, before, direction, BurstFigure::Fill);
        let all = figures(samples, from, before, direction, BurstFigure::Fill);
        assert(m.less_eq(m.zero(), samples[samples.len() - 1].fill_qty));
        assert forall|i: int| 0 <= i < all.len() implies m.less_eq(m.zero(), #[trigger] all[i]) by {
            if i < earlier.len() {
                assert(all[i] == earlier[i]);
            }
        }
    }
}

/// The bursts with buying and selling swapped.
pub open spec fn swapped_sides<F>(samples: Seq<FillKillSample<F>>) -> Seq<FillKillSample<F>> {
    Seq::new(
        samples.len(),
        |i: int|
            FillKillSample {
                direction: match samples[i].direction {
                    BurstDirection::Buy => BurstDirection::Sell,
                    BurstDirection::Sell => BurstDirection::Buy,
                },
                ..samples[i]
            },
    )
}

/// Swapping buying and selling in every burst gives the aggression shift the
/// other sign.
pub proof fn law_swapped_sides_turn_the_shift<F>(
    m: Model<F>,
    samples: Seq<FillKillSample<F>>,
    now: u64,
    window: u64,
)
    requires
        arith::keeps_bounds(m),
    ensures
        arith::alike(
            m,
            shift_of(m, swapped_sides(samples), now, window),
            m.neg(shift_of(m, samples, now, window)),
        ),
{
    let from = window_start(now, window);
    let middle = window_middle(from, window);
    let swapped = swapped_sides(samples);
    let early = half_direction(m, samples, from, Some(middle));
    let late = half_direction(m, samples, middle, None);
    let turned_early = half_direction(m, swapped, from, Some(middle));
    let turned_late = half_direction(m, swapped, middle, None);
    lemma_swapped_half(m, samples, from, Some(middle));
    lemma_swapped_half(m, samples, middle, None);
    assert(arith::alike(m, turned_late, m.neg(late)));
    assert(arith::alike(m, m.neg(turned_early), m.neg(m.neg(early))));
    arith::lemma_turned_sum(m, late, m.neg(early), turned_late, m.neg(turned_early));
    let sum = m.plus(late, m.neg(early));
    let turned_sum = m.plus(turned_late, m.neg(turned_early));
    let shift = m.minus(late, early);
    let turned_shift = m.minus(turned_late, turned_early);
    assert(arith::alike(m, turned_shift, turned_sum));
    arith::lemma_alike(m, turned_shift, turned_sum, m.neg(sum));
    arith::lemma_alike(m, shift, sum, sum);
    assert(arith::alike(m, m.neg(sum), m.neg(shift)));
    arith::lemma_alike(m, turned_shift, m.neg(sum), m.neg(shift));
}

/// Swapping the sides gives the net direction of a half the other sign.
proof fn lemma_swapped_half<F>(
    m: Model<F>,
    samples: Seq<FillKillSample<F>>,
    from: u64,
    before: Option<u64>,
)
    requires
        arith::keeps_bounds(m),
    ensures
        arith::alike(
            m,
            half_direction(m, swapped_sides(samples), from, before),
            m.neg(half_direction(m, samples, from, before)),
        ),
{
    lemma_swapped_figures(samples, from, before);
    let bought = m.sum(figures(samples, from, before, BurstDirection::Buy, BurstFigure::Fill));
    let sold = m.sum(figures(samples, from, before, BurstDirection::Sell, BurstFigure::Fill));
    assert(m.less_eq(m.zero(), m.ratio(1, 1_000_000_000_000)));
    lemma_swapped_direction(m, bought, sold);
}

/// What was bought in the swapped bursts is what was sold, and the other way
/// round.
proof fn lemma_swapped_figures<F>(
    samples: Seq<FillKillSample<F>>,
    from: u64,
    before: Option<u64>,
)
    ensures
        figures(swapped_sides(samples), from, before, BurstDirection::Buy, BurstFigure::Fill)
            == figures(samples, from, before, BurstDirection::Sell, BurstFigure::Fill),
        figures(swapped_sides(samples), from, before, BurstDirection::Sell, BurstFigure::Fill)
            == figures(samples, from, before, BurstDirection::Buy, BurstFigure::Fill),
    decreases samples.len(),
{
    if samples.len() > 0 {
        lemma_swapped_figures(samples.drop_last(), from, before);
        assert(swapped_sides(samples).drop_last() =~= swapped_sides(samples.drop_last()));
    }
}

/// Without a burst in the window the aggression does not shift.
pub proof fn law_no_bursts_no_shift<F>(
    m: Model<F>,
    samples: Seq<FillKillSample<F>>,
    now: u64,
    window: u64,
)
    requires
        arith::keeps_bounds(m),
        forall|i: int|
            0 <= i < samples.len() ==> (#[trigger] samples[i]).timestamp_ms < window_start(
                now,
                window,
            ),
    ensures
        arith::alike(m, shift_of(m, samples, now, window), m.zero()),
{
    let from = window_start(now, window);
    let middle = window_middle(from, window);
    let zero = m.zero();
    lemma_no_figures(samples, from, from, Some(middle), BurstDirection::Buy);
    lemma_no_figures(samples, from, from, Some(middle), BurstDirection::Sell);
    lemma_no_figures(samples, from, middle, None, BurstDirection::Buy);
    lemma_no_figures(samples, from, middle, None, BurstDirection::Sell);
    let least = m.ratio(1, 1_000_000_000_000);
    assert(m.less_eq(zero, least));
    assert(m.less(least, m.plus(zero, zero)) == m.less(least, zero));
    assert(arith::alike(m, m.plus(zero, m.neg(zero)), m.plus(zero, zero)));
    arith::lemma_alike(m, m.minus(zero, zero), m.plus(zero, m.neg(zero)), m.plus(zero, zero));
    arith::lemma_alike(m, m.minus(zero, zero), m.plus(zero, zero), zero);
}

/// No burst is picked where all came before.
proof fn lemma_no_figures<F>(
    samples: Seq<FillKillSample<F>>,
    start: u64,
    from: u64,
    before: Option<u64>,
    direction: BurstDirection,
)
    requires
        start <= from,
        forall|i: int| 0 <= i < samples.len() ==> (#[trigger] samples[i]).timestamp_ms < start,
    ensures
        figures(samples, from, before, direction, BurstFigure::Fill) == Seq::<F>::empty(),
    decreases samples.len(),
{
    if samples.len() > 0 {
        assert(samples[samples.len() - 1].timestamp_ms < start);
        assert forall|i: int| 0 <= i < samples.drop_last().len() implies (#[trigger]
        samples.drop_last()[i]).timestamp_ms < start by {
            assert(samples.drop_last()[i] == samples[i]);
        }
        lemma_no_figures(samples.drop_last(), start, from, before, direction);
    }
}

/// Where no level holds less than nothing, the imbalance of the book lies from
/// -1 to 1.
pub proof fn law_book_imbalance_lies_within<F>(
    m: Model<F>,
    bids: Seq<Level<F>>,
    asks: Seq<Level<F>>,
    mid: F,
    tick_size: F,
    near_ticks: usize,
)
    requires
        arith::keeps_bounds(m),
        forall|i: int| 0 <= i < bids.len() ==> m.less_eq(m.zero(), (#[trigger] bids[i]).quantity),
        forall|i: int| 0 <= i < asks.len() ==> m.less_eq(m.zero(), (#[trigger] asks[i]).quantity),
    ensures
        !m.less(
            m.ratio(1, 1),
            balance_of(m, bids, asks, mid, tick_size, near_ticks).imbalance,
        ),
        !m.less(
            balance_of(m, bids, asks, mid, tick_size, near_ticks).imbalance,
            m.neg(m.ratio(1, 1)),
        ),
{
    lemma_zero_within_one(m);
    let reach = m.times(m.count(near_ticks as u64), tick_size);
    let bid_list = quantities_between(m, bids, m.minus(mid, reach), mid);
    let ask_list = quantities_between(m, asks, mid, m.plus(mid, reach));
    lemma_depth_not_below_zero(m, bids, m.minus(mid, reach), mid);
    lemma_depth_not_below_zero(m, asks, mid, m.plus(mid, reach));
    arith::lemma_sum_not_below_zero(m, bid_list);
    arith::lemma_sum_not_below_zero(m, ask_list);
    let total = m.plus(m.sum(bid_list), m.sum(ask_list));
    let least = m.ratio(1, 1_000_000_000_000);
    assert(m.less_eq(m.zero(), total));
    assert(m.less(m.zero(), least));
    if !m.less(total, least) {
        assert(m.less(m.zero(), total));
        arith::lemma_contrast(m, m.sum(bid_list), m.sum(ask_list));
    }
}

/// Where no level holds less than nothing, none that is near does.
proof fn lemma_depth_not_below_zero<F>(m: Model<F>, levels: Seq<Level<F>>, low: F, high: F)
    requires
        forall|i: int|
            0 <= i < levels.len() ==> m.less_eq(m.zero(), (#[trigger] levels[i]).quantity),
    ensures
        forall|i: int|
            0 <= i < quantities_between(m, levels, low, high).len() ==> m.less_eq(
                m.zero(),
                #[trigger] quantities_between(m, levels, low, high)[i],
            ),
    decreases levels.len(),
{
    if levels.len() > 0 {
        let front = levels.drop_last();
        assert forall|i: int| 0 <= i < front.len() implies m.less_eq(
            m.zero(),
            (#[trigger] front[i]).quantity,
        ) by {
            assert(front[i] == levels[i]);
        }
        lemma_depth_not_below_zero(m, front, low, high);
        let earlier = quantities_between(m, front, low, high);
        let all = quantities_between(m, levels, low, high);
        assert(m.less_eq(m.zero(), levels[levels.len() - 1].quantity));
        assert forall|i: int| 0 <= i < all.len() implies m.less_eq(m.zero(), #[trigger] all[i]) by {
            if i < earlier.len() {
                assert(all[i] == earlier[i]);
            }
        }
    }
}

/// The quantities of the levels with a price within bounds, zero for the others.
pub open spec fn depth_values<F>(
    v: spec_fn(F) -> real,
    levels: Seq<Level<F>>,
    low: real,
    high: real,
) -> Seq<real> {
    Seq::new(
        levels.len(),
        |i: int|
            if low <= v(levels[i].price) <= high {
                v(levels[i].quantity)
            } else {
                0real
            },
    )
}

/// In exact arithmetic the mid price lies half way between best bid and best ask,
/// and the spread in basis points is the spread in ten-thousandths of it.
pub proof fn law_prices_of_a_sample<F>(
    m: Model<F>,
    v: spec_fn(F) -> real,
    config: SignalConfig<F>,
    market: MarketSnapshot<F>,
    sample: SignalSample<F>,
)
    requires
        arith::is_exact(m, v),
        is_sample_of(m, config, market, sample),
    ensures
        ({
            let mid = v(sample.mid_price);
            &&& market.best_bid matches Some(bid) ==> market.best_ask matches Some(ask) ==> 2real
                * mid == v(bid) + v(ask)
            &&& market.best_bid is None || market.best_ask is None ==> mid == 0real
            &&& market.spread matches Some(width) ==> mid > 0real ==> v(sample.spread_bps) * mid
                == v(width) * 10_000real
            &&& market.spread is None || mid <= 0real ==> v(sample.spread_bps) == 0real
            &&& v(sample.cum_net_qty) == v(market.cum_fill_qty) - v(market.cum_kill_qty)
        }),
{
    arith::lemma_whole_number(m, v, 0);
    arith::lemma_whole_number(m, v, 2);
    arith::lemma_whole_number(m, v, 10_000);
    let mid = v(sample.mid_price);
    if let Some(width) = market.spread {
        if mid > 0real {
            arith::lemma_quotient(v(width), mid);
            let part = v(width) / mid;
            assert((part * 10_000real) * mid == v(width) * 10_000real) by (nonlinear_arith)
                requires
                    part * mid == v(width),
            ;
        }
    }
}

/// In exact arithmetic the depths of a sample are what the book holds within so
/// many ticks below and above the mid price, and the imbalance is by how much
/// more is bid than asked, as a part of both.
pub proof fn law_imbalance_weighs_the_near_book<F>(
    m: Model<F>,
    v: spec_fn(F) -> real,
    config: SignalConfig<F>,
    market: MarketSnapshot<F>,
    sample: SignalSample<F>,
)
    requires
        arith::is_exact(m, v),
        is_sample_of(m, config, market, sample),
        config.ob_near_ticks <= u64::MAX,
    ensures
        ({
            let mid = v(sample.mid_price);
            let reach = (config.ob_near_ticks as real) * v(market.tick_size);
            let bid = arith::total(depth_values(v, market.bids@, mid - reach, mid));
            let ask = arith::total(depth_values(v, market.asks@, mid, mid + reach));
            let counts = mid > 0real && v(market.tick_size) > 0real && bid + ask >= v(
                m.ratio(1, 1_000_000_000_000),
            );
            &&& counts ==> {
                &&& v(sample.ob_bid_depth_near) == bid
                &&& v(sample.ob_ask_depth_near) == ask
                &&& v(sample.ob_imbalance) * (bid + ask) == bid - ask
            }
            &&& !counts ==> v(sample.ob_imbalance) == 0real
        }),
{
    arith::lemma_whole_number(m, v, 0);
    lemma_least_volume(m, v);
    let mid = sample.mid_price;
    let reach = m.times(m.count(config.ob_near_ticks as u64), market.tick_size);
    lemma_depth(m, v, market.bids@, m.minus(mid, reach), mid);
    lemma_depth(m, v, market.asks@, mid, m.plus(mid, reach));
    let bid = arith::total(depth_values(v, market.bids@, v(mid) - v(reach), v(mid)));
    let ask = arith::total(depth_values(v, market.asks@, v(mid), v(mid) + v(reach)));
    if bid + ask != 0real {
        arith::lemma_quotient(bid - ask, bid + ask);
    }
}

/// The least volume that counts is above zero.
proof fn lemma_least_volume<F>(m: Model<F>, v: spec_fn(F) -> real)
    requires
        arith::is_exact(m, v),
    ensures
        v(m.ratio(1, 1_000_000_000_000)) > 0real,
{
    arith::lemma_fraction(m, v, 1, 1_000_000_000_000);
    let x = v(m.ratio(1, 1_000_000_000_000));
    let d = 1_000_000_000_000int as real;
    assert(x > 0real) by (nonlinear_arith)
        requires
            x * d == 1real,
            d > 0real,
    ;
}

proof fn lemma_depth<F>(
    m: Model<F>,
    v: spec_fn(F) -> real,
    levels: Seq<Level<F>>,
    low: F,
    high: F,
)
    requires
        arith::is_exact(m, v),
    ensures
        v(m.sum(quantities_between(m, levels, low, high))) == arith::total(
            depth_values(v, levels, v(low), v(high)),
        ),
    decreases levels.len(),
{
    arith::lemma_whole_number(m, v, 0);
    if levels.len() > 0 {
        let front = levels.drop_last();
        lemma_depth(m, v, front, low, high);
        let all = depth_values(v, levels, v(low), v(high));
        assert(all.drop_last() =~= depth_values(v, front, v(low), v(high)));
        let before = quantities_between(m, front, low, high);
        let last = levels.last();
        assert(before.push(last.quantity).drop_last() =~= before);
    }
}

/// What bursts in one direction within a stretch of time filled or withdrew, zero
/// for the others.
pub open spec fn burst_values<F>(
    v: spec_fn(F) -> real,
    samples: Seq<FillKillSample<F>>,
    from: int,
    before: Option<int>,
    buys: bool,
    kills: bool,
) -> Seq<real> {
    Seq::new(
        samples.len(),
        |i: int|
            {
                let s = samples[i];
                if s.timestamp_ms < from || (before matches Some(limit) && s.timestamp_ms >= limit)
                    || (s.direction == BurstDirection::Buy) != buys {
                    0real
                } else if kills {
                    v(s.kill_qty)
                } else {
                    v(s.fill_qty)
                }
            },
    )
}

/// What bursts in one direction within a stretch of time filled or withdrew
/// together.
pub open spec fn burst_sum<F>(
    v: spec_fn(F) -> real,
    samples: Seq<FillKillSample<F>>,
    from: int,
    before: Option<int>,
    buys: bool,
    kills: bool,
) -> real {
    arith::total(burst_values(v, samples, from, before, buys, kills))
}

proof fn lemma_figures<F>(
    m: Model<F>,
    v: spec_fn(F) -> real,
    samples: Seq<FillKillSample<F>>,
    from: u64,
    before: Option<u64>,
    buys: bool,
    kills: bool,
)
    requires
        arith::is_exact(m, v),
    ensures
        ({
            let direction = if buys {
                BurstDirection::Buy
            } else {
                BurstDirection::Sell
            };
            let figure = if kills {
                BurstFigure::Kill
            } else {
                BurstFigure::Fill
            };
            let limit = match before {
                Some(t) => Some(t as int),
                None => None,
            };
            v(m.sum(figures(samples, from, before, direction, figure))) == burst_sum(
                v,
                samples,
                from as int,
                limit,
                buys,
                kills,
            )
        }),
    decreases samples.len(),
{
    arith::lemma_whole_number(m, v, 0);
    if samples.len() > 0 {
        let front = samples.drop_last();
        lemma_figures(m, v, front, from, before, buys, kills);
        let limit = match before {
            Some(t) => Some(t as int),
            None => None,
        };
        let all = burst_values(v, samples, from as int, limit, buys, kills);
        assert(all.drop_last() =~= burst_values(v, front, from as int, limit, buys, kills));
        let direction = if buys {
            BurstDirection::Buy
        } else {
            BurstDirection::Sell
        };
        let figure = if kills {
            BurstFigure::Kill
        } else {
            BurstFigure::Fill
        };
        let earlier = figures(front, from, before, direction, figure);
        let last = samples.last();
        assert(earlier.push(last.fill_qty).drop_last() =~= earlier);
        assert(earlier.push(last.kill_qty).drop_last() =~= earlier);
        assert(all.last() == burst_values(v, samples, from as int, limit, buys, kills)[
            samples.len() - 1
        ]);
    }
}

/// Which way buying and selling point, from -1 to 1, zero where there was next to
/// none.
pub open spec fn real_direction(bought: real, sold: real, least: real) -> real {
    if bought + sold > least {
        (bought - sold) / (bought + sold)
    } else {
        0real
    }
}

/// In exact arithmetic the fill:kill figures of a sample are the sums over the
/// bursts of the rolling window in each direction, the net direction is by how
/// much more was bought than sold as a part of both, and the aggression shift is
/// the net direction of the later half of its window less that of the earlier.
pub proof fn law_bursts_are_summed_by_direction<F>(
    m: Model<F>,
    v: spec_fn(F) -> real,
    config: SignalConfig<F>,
    market: MarketSnapshot<F>,
    sample: SignalSample<F>,
)
    requires
        arith::is_exact(m, v),
        is_sample_of(m, config, market, sample),
    ensures
        ({
            let list = market.fill_kill@;
            let now = market.last_event_time as int;
            let start = now - market.rolling_window_ms;
            let least = v(m.ratio(1, 1_000_000_000_000));
            let window = config.aggression_shift_window_ms;
            let bought = burst_sum(v, list, start, None, true, false);
            let sold = burst_sum(v, list, start, None, false, false);
            let first = if now >= window {
                now - window
            } else {
                0
            };
            let middle = first + window / 2;
            &&& v(sample.fk_buy_fill_qty) == bought
            &&& v(sample.fk_sell_fill_qty) == sold
            &&& v(sample.fk_buy_kill_qty) == burst_sum(v, list, start, None, true, true)
            &&& v(sample.fk_sell_kill_qty) == burst_sum(v, list, start, None, false, true)
            &&& v(sample.fk_net_direction) == real_direction(bought, sold, least)
            &&& middle <= u64::MAX ==> v(sample.aggression_shift) == real_direction(
                burst_sum(v, list, middle, None, true, false),
                burst_sum(v, list, middle, None, false, false),
                least,
            ) - real_direction(
                burst_sum(v, list, first, Some(middle), true, false),
                burst_sum(v, list, first, Some(middle), false, false),
                least,
            )
        }),
{
    arith::lemma_whole_number(m, v, 0);
    lemma_least_volume(m, v);
    let list = market.fill_kill@;
    let now = market.last_event_time;
    let from = window_start(now, market.rolling_window_ms);
    let start = now - market.rolling_window_ms;
    lemma_figures(m, v, list, from, None, true, false);
    lemma_figures(m, v, list, from, None, false, false);
    lemma_figures(m, v, list, from, None, true, true);
    lemma_figures(m, v, list, from, None, false, true);
    assert(burst_values(v, list, from as int, None, true, false) =~= burst_values(
        v,
        list,
        start,
        None,
        true,
        false,
    ));
    assert(burst_values(v, list, from as int, None, false, false) =~= burst_values(
        v,
        list,
        start,
        None,
        false,
        false,
    ));
    assert(burst_values(v, list, from as int, None, true, true) =~= burst_values(
        v,
        list,
        start,
        None,
        true,
        true,
    ));
    assert(burst_values(v, list, from as int, None, false, true) =~= burst_values(
        v,
        list,
        start,
        None,
        false,
        true,
    ));
    let window = config.aggression_shift_window_ms;
    let first = window_start(now, window);
    let middle = window_middle(first, window);
    lemma_figures(m, v, list, first, Some(middle), true, false);
    lemma_figures(m, v, list, first, Some(middle), false, false);
    lemma_figures(m, v, list, middle, None, true, false);
    lemma_figures(m, v, list, middle, None, false, false);
}

/// What the trades from a time on were worth, zero for the others.
pub open spec fn trade_values<F>(
    v: spec_fn(F) -> real,
    trades: Seq<MarketTrade<F>>,
    from: int,
    only_buys: bool,
) -> Seq<real> {
    Seq::new(
        trades.len(),
        |i: int|
            if trades[i].received_at_ms >= from && (trades[i].is_buy || !only_buys) {
                v(trades[i].price) * v(trades[i].quantity)
            } else {
                0real
            },
    )
}

/// What the trades from a time on were worth together.
pub open spec fn trade_sum<F>(
    v: spec_fn(F) -> real,
    trades: Seq<MarketTrade<F>>,
    from: int,
    only_buys: bool,
) -> real {
    arith::total(trade_values(v, trades, from, only_buys))
}

proof fn lemma_notionals<F>(
    m: Model<F>,
    v: spec_fn(F) -> real,
    trades: Seq<MarketTrade<F>>,
    from: u64,
    only_buys: bool,
)
    requires
        arith::is_exact(m, v),
    ensures
        v(m.sum(notionals(m, trades, from, only_buys))) == trade_sum(
            v,
            trades,
            from as int,
            only_buys,
        ),
        notional_count(trades, from, false) == trades.filter(
            |t: MarketTrade<F>| t.received_at_ms >= from,
        ).len(),
    decreases trades.len(),
{
    reveal(Seq::filter);
    arith::lemma_whole_number(m, v, 0);
    if trades.len() > 0 {
        let front = trades.drop_last();
        lemma_notionals(m, v, front, from, only_buys);
        let all = trade_values(v, trades, from as int, only_buys);
        assert(all.drop_last() =~= trade_values(v, front, from as int, only_buys));
        let before = notionals(m, front, from, only_buys);
        let last = trades.last();
        assert(before.push(m.times(last.price, last.quantity)).drop_last() =~= before);
    }
}

/// In exact arithmetic the trade flow of a sample is that of the trades of its
/// window: how many there were, what they were worth together, and what part of
/// that was bought in percent, half where there was next to nothing.
pub proof fn law_flow_counts_the_window<F>(
    m: Model<F>,
    v: spec_fn(F) -> real,
    config: SignalConfig<F>,
    market: MarketSnapshot<F>,
    sample: SignalSample<F>,
)
    requires
        arith::is_exact(m, v),
        is_sample_of(m, config, market, sample),
        market.trades@.len() <= u64::MAX,
    ensures
        ({
            let start = market.last_event_time - config.trade_window_ms;
            let list = market.trades@;
            let volume = trade_sum(v, list, start, false);
            let bought = trade_sum(v, list, start, true);
            let least = v(m.ratio(1, 1_000_000_000_000));
            &&& sample.trade_count_1s == list.filter(
                |t: MarketTrade<F>| t.received_at_ms >= start,
            ).len()
            &&& v(sample.trade_volume_1s) == volume
            &&& volume > least ==> v(sample.buy_volume_pct_1s) * volume == bought * 100real
            &&& volume <= least ==> v(sample.buy_volume_pct_1s) == 50real
        }),
{
    arith::lemma_whole_number(m, v, 100);
    arith::lemma_whole_number(m, v, 50);
    lemma_least_volume(m, v);
    let list = market.trades@;
    let from = window_start(market.last_event_time, config.trade_window_ms);
    let start = market.last_event_time - config.trade_window_ms;
    lemma_notionals(m, v, list, from, false);
    lemma_notionals(m, v, list, from, true);
    assert(trade_values(v, list, from as int, false) =~= trade_values(v, list, start, false));
    assert(trade_values(v, list, from as int, true) =~= trade_values(v, list, start, true));
    lemma_filter_same(list, from as int, start);
    lemma_filter_len(list, start);
    let volume = trade_sum(v, list, start, false);
    let bought = trade_sum(v, list, start, true);
    if volume != 0real {
        arith::lemma_quotient(bought, volume);
        let part = bought / volume;
        assert((part * 100real) * volume == bought * 100real) by (nonlinear_arith)
            requires
                part * volume == bought,
        ;
    }
}

proof fn lemma_filter_same<F>(trades: Seq<MarketTrade<F>>, from: int, start: int)
    requires
        from == start || (from == 0 && start <= 0),
    ensures
        trades.filter(|t: MarketTrade<F>| t.received_at_ms >= from).len() == trades.filter(
            |t: MarketTrade<F>| t.received_at_ms >= start,
        ).len(),
    decreases trades.len(),
{
    reveal(Seq::filter);
    if trades.len() > 0 {
        lemma_filter_same(trades.drop_last(), from, start);
    }
}

proof fn lemma_filter_len<F>(trades: Seq<MarketTrade<F>>, start: int)
    ensures
        trades.filter(|t: MarketTrade<F>| t.received_at_ms >= start).len() <= trades.len(),
    decreases trades.len(),
{
    reveal(Seq::filter);
    if trades.len() > 0 {
        lemma_filter_len(trades.drop_last(), start);
    }
}

/// Whether the logarithm of a greater number is not less.
pub open spec fn logs_grow<F>(m: Model<F>, v: spec_fn(F) -> real) -> bool {
    forall|x: F, y: F|
        #![trigger m.ln(x), m.ln(y)]
        0real < v(x) <= v(y) ==> v(m.ln(x)) <= v(m.ln(y))
}

/// The trades of a window in the order in which they came.
pub open spec fn window_trades<F>(
    trades: Seq<MarketTrade<F>>,
    now: u64,
    window: u64,
) -> Seq<MarketTrade<F>> {
    trades.filter(|t: MarketTrade<F>| t.received_at_ms >= now - window)
}

/// By how much the price moved over some trades, in percent of the first price.
pub open spec fn move_pct<F>(v: spec_fn(F) -> real, trades: Seq<MarketTrade<F>>) -> real {
    let first = v(trades[0].price);
    let last = v(trades.last().price);
    let part = (last - first) / first;
    (if part < 0real {
        -part
    } else {
        part
    }) * 100real
}

/// In exact arithmetic the absorption score is one where a window traded and its
/// price hardly moved, zero where it hardly traded, ten times the score less five
/// is the logarithm of the volume over the movement between these, and more
/// volume with no more movement never scores less.
pub proof fn law_absorption_is_volume_against_movement<F>(
    m: Model<F>,
    v: spec_fn(F) -> real,
    trades: Seq<MarketTrade<F>>,
    now: u64,
    window: u64,
    other: Seq<MarketTrade<F>>,
    other_now: u64,
    raw: F,
)
    requires
        arith::is_exact(m, v),
        logs_grow(m, v),
        window_trades(trades, now, window).len() > 0,
        window_trades(other, other_now, window).len() > 0,
        v(window_trades(trades, now, window)[0].price) > 0real,
        v(window_trades(other, other_now, window)[0].price) > 0real,
    ensures
        ({
            let score = v(absorption_of(m, trades, now, window));
            let other_score = v(absorption_of(m, other, other_now, window));
            let volume = trade_sum(v, trades, now - window, false);
            let other_volume = trade_sum(v, other, other_now - window, false);
            let moved = move_pct(v, window_trades(trades, now, window));
            let other_moved = move_pct(v, window_trades(other, other_now, window));
            let least = v(m.ratio(1, 1_000_000_000_000));
            let still = v(m.ratio(1, 1_000_000));
            let shifted = v(m.ln(raw)) + 5real;
            &&& volume < least ==> score == 0real
            &&& volume >= least && moved < still ==> score == 1real
            &&& volume >= least && moved >= still && v(raw) * moved == volume ==> 10real * score
                == (if shifted < 0real {
                0real
            } else if shifted > 10real {
                10real
            } else {
                shifted
            })
            &&& volume <= other_volume && moved >= other_moved ==> score <= other_score
        }),
{
    lemma_absorption(m, v, trades, now, window);
    lemma_absorption(m, v, other, other_now, window);
    lemma_least_volume(m, v);
    arith::lemma_fraction(m, v, 1, 1_000_000);
    let still = v(m.ratio(1, 1_000_000));
    let d = 1_000_000int as real;
    assert(still > 0real) by (nonlinear_arith)
        requires
            still * d == 1real,
            d > 0real,
    ;
    let volume = trade_sum(v, trades, now - window, false);
    let other_volume = trade_sum(v, other, other_now - window, false);
    let moved = move_pct(v, window_trades(trades, now, window));
    let other_moved = move_pct(v, window_trades(other, other_now, window));
    let least = v(m.ratio(1, 1_000_000_000_000));
    if volume >= least && moved >= still {
        let x = absorption_raw(m, trades, now, window);
        let q = v(x);
        assert(q * moved == volume);
        assert(q > 0real) by (nonlinear_arith)
            requires
                q * moved == volume,
                moved > 0real,
                volume > 0real,
        ;
        if v(raw) * moved == volume {
            let r = v(raw);
            assert(r == q) by (nonlinear_arith)
                requires
                    r * moved == q * moved,
                    moved > 0real,
            ;
            assert(v(m.ln(raw)) == v(m.ln(x)));
        }
        if volume <= other_volume && moved >= other_moved && other_moved >= still {
            let y = absorption_raw(m, other, other_now, window);
            let p = v(y);
            assert(p >= q) by (nonlinear_arith)
                requires
                    p * other_moved == other_volume,
                    q * moved == volume,
                    volume <= other_volume,
                    moved >= other_moved,
                    other_moved > 0real,
                    q > 0real,
            ;
            assert(v(m.ln(x)) <= v(m.ln(y)));
        }
    }
}

/// The volume over the movement of a window.
spec fn absorption_raw<F>(m: Model<F>, trades: Seq<MarketTrade<F>>, now: u64, window: u64) -> F {
    let from = window_start(now, window);
    let path = prices(trades, from);
    m.over(
        m.sum(notionals(m, trades, from, false)),
        m.times(
            m.abs(m.over(m.minus(path.last(), path[0]), path[0])),
            m.ratio(100, 1),
        ),
    )
}

proof fn lemma_absorption<F>(
    m: Model<F>,
    v: spec_fn(F) -> real,
    trades: Seq<MarketTrade<F>>,
    now: u64,
    window: u64,
)
    requires
        arith::is_exact(m, v),
        window_trades(trades, now, window).len() > 0,
        v(window_trades(trades, now, window)[0].price) > 0real,
    ensures
        ({
            let score = v(absorption_of(m, trades, now, window));
            let volume = trade_sum(v, trades, now - window, false);
            let moved = move_pct(v, window_trades(trades, now, window));
            let least = v(m.ratio(1, 1_000_000_000_000));
            let still = v(m.ratio(1, 1_000_000));
            let x = absorption_raw(m, trades, now, window);
            let shifted = v(m.ln(x)) + 5real;
            &&& moved >= 0real
            &&& volume < least ==> score == 0real
            &&& volume >= least && moved < still ==> score == 1real
            &&& moved > 0real ==> v(x) * moved == volume
            &&& 0real <= score <= 1real
            &&& volume >= least && moved >= still ==> 10real * score == (if shifted < 0real {
                0real
            } else if shifted > 10real {
                10real
            } else {
                shifted
            })
        }),
{
    arith::lemma_whole_number(m, v, 0);
    arith::lemma_whole_number(m, v, 1);
    arith::lemma_whole_number(m, v, 5);
    arith::lemma_whole_number(m, v, 10);
    arith::lemma_whole_number(m, v, 100);
    let from = window_start(now, window);
    lemma_notionals(m, v, trades, from, false);
    assert(trade_values(v, trades, from as int, false) =~= trade_values(
        v,
        trades,
        now - window,
        false,
    ));
    lemma_prices(trades, now, window);
    let list = window_trades(trades, now, window);
    let moved = move_pct(v, list);
    let volume = trade_sum(v, trades, now - window, false);
    if moved != 0real {
        arith::lemma_quotient(volume, moved);
    }
}

proof fn lemma_prices<F>(trades: Seq<MarketTrade<F>>, now: u64, window: u64)
    ensures
        prices(trades, window_start(now, window)).len() == window_trades(trades, now, window).len(),
        forall|i: int|
            0 <= i < window_trades(trades, now, window).len() ==> #[trigger] prices(
                trades,
                window_start(now, window),
            )[i] == window_trades(trades, now, window)[i].price,
    decreases trades.len(),
{
    reveal(Seq::filter);
    if trades.len() > 0 {
        lemma_prices(trades.drop_last(), now, window);
    }
}

/// The bursts of a stretch of time in one direction that have a ratio, in the
/// order in which they came.
pub open spec fn rated_bursts<F>(
    samples: Seq<FillKillSample<F>>,
    from: int,
    direction: BurstDirection,
) -> Seq<FillKillSample<F>> {
    samples.filter(
        |s: FillKillSample<F>|
            s.timestamp_ms >= from && s.direction == direction && s.signed_log_ratio is Some,
    )
}

/// In exact arithmetic the logarithmic ratio of a direction is the mean over the
/// bursts of the window that have one, and there is none where none has.
pub proof fn law_log_ratios_are_averaged<F>(
    m: Model<F>,
    v: spec_fn(F) -> real,
    config: SignalConfig<F>,
    market: MarketSnapshot<F>,
    sample: SignalSample<F>,
    buys: bool,
)
    requires
        arith::is_exact(m, v),
        is_sample_of(m, config, market, sample),
        market.fill_kill@.len() <= u64::MAX,
    ensures
        ({
            let direction = if buys {
                BurstDirection::Buy
            } else {
                BurstDirection::Sell
            };
            let ratio = if buys {
                sample.fk_buy_signed_log_ratio
            } else {
                sample.fk_sell_signed_log_ratio
            };
            let start = market.last_event_time - market.rolling_window_ms;
            let rated = rated_bursts(market.fill_kill@, start, direction);
            &&& ratio is Some <==> rated.len() > 0
            &&& ratio matches Some(mean) ==> v(mean) * (rated.len() as real) == arith::total(
                Seq::new(rated.len(), |i: int| v(rated[i].signed_log_ratio->0)),
            )
        }),
{
    let direction = if buys {
        BurstDirection::Buy
    } else {
        BurstDirection::Sell
    };
    let start = market.last_event_time - market.rolling_window_ms;
    let from = window_start(market.last_event_time, market.rolling_window_ms);
    let list = figures(market.fill_kill@, from, None, direction, BurstFigure::LogRatio);
    let rated = rated_bursts(market.fill_kill@, start, direction);
    lemma_rated(market.fill_kill@, from, start, direction);
    if rated.len() > 0 {
        arith::law_mean_makes_up_the_sum(m, v, list);
        assert(arith::values(v, list) =~= Seq::new(
            rated.len(),
            |i: int| v(rated[i].signed_log_ratio->0),
        ));
    }
}

proof fn lemma_rated<F>(
    samples: Seq<FillKillSample<F>>,
    from: u64,
    start: int,
    direction: BurstDirection,
)
    requires
        from == start || (from == 0 && start <= 0),
    ensures
        ({
            let list = figures(samples, from, None, direction, BurstFigure::LogRatio);
            let rated = rated_bursts(samples, start, direction);
            &&& list.len() == rated.len()
            &&& rated.len() <= samples.len()
            &&& forall|i: int|
                0 <= i < list.len() ==> #[trigger] list[i] == rated[i].signed_log_ratio->0
        }),
    decreases samples.len(),
{
    reveal(Seq::filter);
    if samples.len() > 0 {
        lemma_rated(samples.drop_last(), from, start, direction);
    }
}

} // verus!

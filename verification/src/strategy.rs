//! The strategy engine: entries, exits, position size and circuit breakers.

use vstd::prelude::*;

use crate::account::PositionInfo;
use crate::arith;
use crate::arith::{Arithmetic, Model};
use crate::bars::AggregatedBar;
use crate::strategy_config::StrategyConfig;
use crate::text;

verus! {

/// Side of a trade.
#[derive(Clone, Copy, Debug, PartialEq, Eq, Structural)]
pub enum Side {
    /// Opens a long position or closes a short one.
    Buy,
    /// Opens a short position or closes a long one.
    Sell,
}

/// State of a position.
#[derive(Clone, Copy, Debug, PartialEq, Eq, Structural)]
pub enum PositionState {
    Flat,
    Long,
    Short,
}

/// What the engine does after a bar.
#[derive(Clone, Copy, Debug, PartialEq, Eq, Structural)]
pub enum Signal {
    GoLong,
    GoShort,
    ExitLong,
    ExitShort,
    Hold,
}

// ---------------------------------------------------------------------------
// Position
// ---------------------------------------------------------------------------

/// An open position, or none.
#[derive(Debug)]
pub struct Position<F> {
    pub state: PositionState,
    pub entry_price: F,
    pub entry_time_ms: u64,
    /// Size in base units.
    pub quantity: F,
    /// Profit or loss in quote currency at the last price seen.
    pub unrealized_pnl: F,
    /// Greatest profit since entry.
    pub max_favorable: F,
    /// Greatest loss since entry.
    pub max_adverse: F,
}

impl<F: Copy> Clone for Position<F> {
    fn clone(&self) -> (copy: Position<F>)
        ensures
            copy == *self,
    {
        Position {
            state: self.state,
            entry_price: self.entry_price,
            entry_time_ms: self.entry_time_ms,
            quantity: self.quantity,
            unrealized_pnl: self.unrealized_pnl,
            max_favorable: self.max_favorable,
            max_adverse: self.max_adverse,
        }
    }
}

/// No position.
pub open spec fn flat_position<F>(m: Model<F>) -> Position<F> {
    Position {
        state: PositionState::Flat,
        entry_price: m.zero(),
        entry_time_ms: 0,
        quantity: m.zero(),
        unrealized_pnl: m.zero(),
        max_favorable: m.zero(),
        max_adverse: m.zero(),
    }
}

/// What a position has gained at a price.
pub open spec fn gain_of<F>(m: Model<F>, p: Position<F>, price: F) -> F {
    match p.state {
        PositionState::Long => m.times(m.minus(price, p.entry_price), p.quantity),
        PositionState::Short => m.times(m.minus(p.entry_price, price), p.quantity),
        PositionState::Flat => p.unrealized_pnl,
    }
}

/// The position at a new market price: its gain, and the greatest profit and
/// loss that it has seen.
pub open spec fn repriced<F>(m: Model<F>, p: Position<F>, price: F) -> Position<F> {
    if p.state == PositionState::Flat || m.equal(p.quantity, m.zero()) {
        p
    } else {
        let gain = gain_of(m, p, price);
        Position {
            unrealized_pnl: gain,
            max_favorable: if m.less(p.max_favorable, gain) {
                gain
            } else {
                p.max_favorable
            },
            max_adverse: if m.less(gain, p.max_adverse) {
                gain
            } else {
                p.max_adverse
            },
            ..p
        }
    }
}

impl<F: Copy> Position<F> {
    /// No position.
    pub fn flat<A: Arithmetic<F>>(a: &A) -> (position: Position<F>)
        ensures
            position.state == PositionState::Flat,
            position.entry_time_ms == 0,
            forall|m: Model<F>| #[trigger] arith::describes(m, *a) ==> position == flat_position(m),
    {
        let zero: F = arith::zero(a);
        Position {
            state: PositionState::Flat,
            entry_price: zero,
            entry_time_ms: 0,
            quantity: zero,
            unrealized_pnl: zero,
            max_favorable: zero,
            max_adverse: zero,
        }
    }

    /// Whether there is no position.
    pub fn is_flat(&self) -> (flat: bool)
        ensures
            flat == (self.state == PositionState::Flat),
    {
        self.state == PositionState::Flat
    }

    /// Brings the position up to a new market price. A flat one stays as it is.
    pub fn update_market<A: Arithmetic<F>>(&mut self, a: &A, price: F)
        ensures
            final(self).state == old(self).state,
            final(self).entry_price == old(self).entry_price,
            final(self).entry_time_ms == old(self).entry_time_ms,
            final(self).quantity == old(self).quantity,
            old(self).state == PositionState::Flat ==> *final(self) == *old(self),
            forall|m: Model<F>| #[trigger]
                arith::describes(m, *a) ==> *final(self) == repriced(m, *old(self), price),
    {
        if self.is_flat() || arith::equal(a, self.quantity, arith::zero(a)) {
            return;
        }
        match self.state {
            PositionState::Long => {
                let move_: F = arith::minus(a, price, self.entry_price);
                self.unrealized_pnl = arith::times(a, move_, self.quantity);
            },
            PositionState::Short => {
                let move_: F = arith::minus(a, self.entry_price, price);
                self.unrealized_pnl = arith::times(a, move_, self.quantity);
            },
            PositionState::Flat => {},
        }
        if arith::less(a, self.max_favorable, self.unrealized_pnl) {
            self.max_favorable = self.unrealized_pnl;
        }
        if arith::less(a, self.unrealized_pnl, self.max_adverse) {
            self.max_adverse = self.unrealized_pnl;
        }
    }
}

/// A closed trade.
#[derive(Debug)]
pub struct TradeRecord<F> {
    pub id: u64,
    pub symbol: String,
    /// Side of the entry.
    pub side: Side,
    pub entry_time_ms: u64,
    pub exit_time_ms: u64,
    pub entry_price: F,
    pub exit_price: F,
    pub quantity: F,
    /// Profit or loss in quote currency.
    pub pnl: F,
    /// Profit or loss in percent of the entry price.
    pub pnl_pct: F,
    pub hold_duration_ms: u64,
    pub exit_reason: String,
}

impl<F: Copy> Clone for TradeRecord<F> {
    fn clone(&self) -> (copy: TradeRecord<F>)
        ensures
            copy == *self,
    {
        TradeRecord {
            id: self.id,
            symbol: self.symbol.clone(),
            side: self.side,
            entry_time_ms: self.entry_time_ms,
            exit_time_ms: self.exit_time_ms,
            entry_price: self.entry_price,
            exit_price: self.exit_price,
            quantity: self.quantity,
            pnl: self.pnl,
            pnl_pct: self.pnl_pct,
            hold_duration_ms: self.hold_duration_ms,
            exit_reason: self.exit_reason.clone(),
        }
    }
}

/// What a closed trade holds.
#[verifier::ext_equal]
pub struct TradeView<F> {
    pub id: u64,
    pub symbol: Seq<char>,
    pub side: Side,
    pub entry_time_ms: u64,
    pub exit_time_ms: u64,
    pub entry_price: F,
    pub exit_price: F,
    pub quantity: F,
    pub pnl: F,
    pub pnl_pct: F,
    pub hold_duration_ms: u64,
    pub exit_reason: Seq<char>,
}

impl<F> View for TradeRecord<F> {
    type V = TradeView<F>;

    open spec fn view(&self) -> TradeView<F> {
        TradeView {
            id: self.id,
            symbol: self.symbol@,
            side: self.side,
            entry_time_ms: self.entry_time_ms,
            exit_time_ms: self.exit_time_ms,
            entry_price: self.entry_price,
            exit_price: self.exit_price,
            quantity: self.quantity,
            pnl: self.pnl,
            pnl_pct: self.pnl_pct,
            hold_duration_ms: self.hold_duration_ms,
            exit_reason: self.exit_reason@,
        }
    }
}

// ---------------------------------------------------------------------------
// Score
// ---------------------------------------------------------------------------

/// Which way, and how strongly, an absorption points: up where selling is
/// absorbed and bids are stacked, down where buying is absorbed and asks are
/// stacked.
pub open spec fn absorption_direction<F>(
    m: Model<F>,
    c: StrategyConfig<F>,
    bar: AggregatedBar<F>,
) -> F {
    let strong = m.less(c.min_absorption_for_reversal, bar.absorption_score_max);
    if strong && m.less(bar.fk_net_direction_mean, m.zero()) && m.less(
        c.absorption_ob_imbalance_threshold,
        bar.ob_imbalance_mean,
    ) {
        bar.absorption_score_max
    } else if strong && m.less(m.zero(), bar.fk_net_direction_mean) && m.less(
        bar.ob_imbalance_mean,
        m.neg(c.absorption_ob_imbalance_threshold),
    ) {
        m.neg(bar.absorption_score_max)
    } else {
        m.zero()
    }
}

/// The composite score of a bar: positive where it speaks for rising prices.
pub open spec fn score_of<F>(m: Model<F>, c: StrategyConfig<F>, bar: AggregatedBar<F>) -> F {
    let buying = m.over(m.minus(bar.avg_buy_volume_pct, m.ratio(50, 1)), m.ratio(50, 1));
    m.plus(
        m.plus(
            m.plus(
                m.plus(
                    m.times(bar.fk_net_direction_mean, c.weight_fk_direction),
                    m.times(bar.aggression_shift_mean, c.weight_aggression_shift),
                ),
                m.times(bar.ob_imbalance_mean, c.weight_ob_imbalance),
            ),
            m.times(absorption_direction(m, c, bar), c.weight_absorption),
        ),
        m.times(buying, c.weight_buy_volume_pct),
    )
}

/// The composite score of a bar.
pub fn composite_score<F: Copy, A: Arithmetic<F>>(
    a: &A,
    c: &StrategyConfig<F>,
    bar: &AggregatedBar<F>,
) -> (score: F)
    ensures
        forall|m: Model<F>| #[trigger] arith::describes(m, *a) ==> score == score_of(m, *c, *bar),
{
    let zero: F = arith::zero(a);
    let strong: bool = arith::less(a, c.min_absorption_for_reversal, bar.absorption_score_max);
    let lowest: F = arith::neg(a, c.absorption_ob_imbalance_threshold);
    let direction: F = if strong && arith::less(a, bar.fk_net_direction_mean, zero) && arith::less(
        a,
        c.absorption_ob_imbalance_threshold,
        bar.ob_imbalance_mean,
    ) {
        bar.absorption_score_max
    } else if strong && arith::less(a, zero, bar.fk_net_direction_mean) && arith::less(
        a,
        bar.ob_imbalance_mean,
        lowest,
    ) {
        arith::neg(a, bar.absorption_score_max)
    } else {
        zero
    };
    let half: F = arith::ratio(a, 50, 1);
    let excess: F = arith::minus(a, bar.avg_buy_volume_pct, half);
    let buying: F = arith::over(a, excess, half);
    let flow: F = arith::times(a, bar.fk_net_direction_mean, c.weight_fk_direction);
    let shift: F = arith::times(a, bar.aggression_shift_mean, c.weight_aggression_shift);
    let book: F = arith::times(a, bar.ob_imbalance_mean, c.weight_ob_imbalance);
    let absorption: F = arith::times(a, direction, c.weight_absorption);
    let volume: F = arith::times(a, buying, c.weight_buy_volume_pct);
    let two: F = arith::plus(a, flow, shift);
    let three: F = arith::plus(a, two, book);
    let four: F = arith::plus(a, three, absorption);
    arith::plus(a, four, volume)
}

// ---------------------------------------------------------------------------
// Entry
// ---------------------------------------------------------------------------

/// The time from one moment to another, zero where it runs backwards.
pub open spec fn elapsed_ms(from: u64, to: u64) -> int {
    if to >= from {
        to - from
    } else {
        0
    }
}

/// Whether the time since the last exit is shorter than the cooldown.
pub open spec fn is_cooling_down<F>(
    c: StrategyConfig<F>,
    last_exit_ms: u64,
    bar: AggregatedBar<F>,
) -> bool {
    last_exit_ms > 0 && elapsed_ms(last_exit_ms, bar.bar_end_ms) < c.cooldown_after_loss_ms
}

/// Whether sellers ripped through the bids and the price is snapping back.
pub open spec fn snaps_up<F>(m: Model<F>, c: StrategyConfig<F>, bar: AggregatedBar<F>) -> bool {
    &&& bar.vd_sell_levels_max >= c.min_void_levels_for_reversion
    &&& m.less(m.times(bar.low_price, c.void_price_recovery_pct), bar.close_price)
    &&& m.less(c.void_ob_imbalance_threshold, bar.ob_imbalance_mean)
    &&& m.less(bar.avg_spread_bps, m.times(c.max_spread_bps, c.void_spread_tightness_pct))
}

/// Whether buyers ripped through the asks and the price is snapping back.
pub open spec fn snaps_down<F>(m: Model<F>, c: StrategyConfig<F>, bar: AggregatedBar<F>) -> bool {
    &&& bar.vd_buy_levels_max >= c.min_void_levels_for_reversion
    &&& m.less(
        bar.close_price,
        m.times(bar.high_price, m.minus(m.ratio(2, 1), c.void_price_recovery_pct)),
    )
    &&& m.less(bar.ob_imbalance_mean, m.neg(c.void_ob_imbalance_threshold))
    &&& m.less(bar.avg_spread_bps, m.times(c.max_spread_bps, c.void_spread_tightness_pct))
}

/// The signal by which a position is entered, or none.
pub open spec fn entry_of<F>(
    m: Model<F>,
    c: StrategyConfig<F>,
    last_exit_ms: u64,
    score: F,
    bar: AggregatedBar<F>,
) -> Signal {
    let quiet = m.less(bar.avg_trade_count_per_sec, c.min_trades_per_sec);
    let absorbed = m.less_eq(c.min_absorption_for_reversal, bar.absorption_score_max);
    let rising = m.less(c.min_momentum_threshold, bar.fk_net_direction_mean);
    let falling = m.less(bar.fk_net_direction_mean, m.neg(c.min_momentum_threshold));
    let high = m.less(c.long_entry_threshold, score);
    let low = m.less(score, c.short_entry_threshold);
    if is_cooling_down(c, last_exit_ms, bar) {
        Signal::Hold
    } else if m.less(c.max_spread_bps, bar.avg_spread_bps) {
        Signal::Hold
    } else if snaps_up(m, c, bar) {
        Signal::GoLong
    } else if snaps_down(m, c, bar) {
        Signal::GoShort
    } else if high && quiet {
        Signal::Hold
    } else if high && (absorbed || rising) {
        Signal::GoLong
    } else if low && quiet {
        Signal::Hold
    } else if low && (absorbed || falling) {
        Signal::GoShort
    } else {
        Signal::Hold
    }
}

/// The signal by which a position is entered, or none.
pub fn entry_signal<F: Copy, A: Arithmetic<F>>(
    a: &A,
    c: &StrategyConfig<F>,
    last_exit_ms: u64,
    score: F,
    bar: &AggregatedBar<F>,
) -> (signal: Signal)
    ensures
        signal == Signal::GoLong || signal == Signal::GoShort || signal == Signal::Hold,
        is_cooling_down(*c, last_exit_ms, *bar) ==> signal == Signal::Hold,
        forall|m: Model<F>| #[trigger]
            arith::describes(m, *a) ==> signal == entry_of(m, *c, last_exit_ms, score, *bar),
{
    if last_exit_ms > 0 {
        let since: u64 = bar.bar_end_ms.saturating_sub(last_exit_ms);
        if since < c.cooldown_after_loss_ms {
            return Signal::Hold;
        }
    }
    if arith::less(a, c.max_spread_bps, bar.avg_spread_bps) {
        return Signal::Hold;
    }
    let tight_below: F = arith::times(a, c.max_spread_bps, c.void_spread_tightness_pct);
    let tight: bool = arith::less(a, bar.avg_spread_bps, tight_below);
    if bar.vd_sell_levels_max >= c.min_void_levels_for_reversion {
        let floor: F = arith::times(a, bar.low_price, c.void_price_recovery_pct);
        let recovering: bool = arith::less(a, floor, bar.close_price);
        let stacked: bool = arith::less(a, c.void_ob_imbalance_threshold, bar.ob_imbalance_mean);
        if recovering && stacked && tight {
            return Signal::GoLong;
        }
    }
    if bar.vd_buy_levels_max >= c.min_void_levels_for_reversion {
        let factor: F = arith::minus(a, arith::ratio(a, 2, 1), c.void_price_recovery_pct);
        let ceiling: F = arith::times(a, bar.high_price, factor);
        let falling: bool = arith::less(a, bar.close_price, ceiling);
        let lowest: F = arith::neg(a, c.void_ob_imbalance_threshold);
        let stacked: bool = arith::less(a, bar.ob_imbalance_mean, lowest);
        if falling && stacked && tight {
            return Signal::GoShort;
        }
    }
    let quiet: bool = arith::less(a, bar.avg_trade_count_per_sec, c.min_trades_per_sec);
    let absorbed: bool = arith::less_eq(a, c.min_absorption_for_reversal, bar.absorption_score_max);
    if arith::less(a, c.long_entry_threshold, score) {
        if quiet {
            return Signal::Hold;
        }
        if absorbed || arith::less(a, c.min_momentum_threshold, bar.fk_net_direction_mean) {
            return Signal::GoLong;
        }
    }
    if arith::less(a, score, c.short_entry_threshold) {
        if quiet {
            return Signal::Hold;
        }
        let lowest: F = arith::neg(a, c.min_momentum_threshold);
        if absorbed || arith::less(a, bar.fk_net_direction_mean, lowest) {
            return Signal::GoShort;
        }
    }
    Signal::Hold
}

// ---------------------------------------------------------------------------
// Exit
// ---------------------------------------------------------------------------

/// Why a position is left.
#[derive(Clone, Copy, Debug, PartialEq, Eq, Structural)]
pub enum ExitCause {
    StopLoss,
    TakeProfit,
    TrailingStop,
    TimeStopStale,
    TimeStop,
    SignalReversal,
}

impl ExitCause {
    /// The cause as it stands in trade records.
    pub open spec fn word(self) -> Seq<char> {
        match self {
            ExitCause::StopLoss => "stop_loss"@,
            ExitCause::TakeProfit => "take_profit"@,
            ExitCause::TrailingStop => "trailing_stop"@,
            ExitCause::TimeStopStale => "time_stop_stale"@,
            ExitCause::TimeStop => "time_stop"@,
            ExitCause::SignalReversal => "signal_reversal"@,
        }
    }

    /// The cause as it stands in trade records.
    pub fn as_str(self) -> (word: &'static str)
        ensures
            word@ == self.word(),
    {
        match self {
            ExitCause::StopLoss => "stop_loss",
            ExitCause::TakeProfit => "take_profit",
            ExitCause::TrailingStop => "trailing_stop",
            ExitCause::TimeStopStale => "time_stop_stale",
            ExitCause::TimeStop => "time_stop",
            ExitCause::SignalReversal => "signal_reversal",
        }
    }
}

/// The price at which the trailing stop stands.
pub open spec fn trailing_price<F>(m: Model<F>, c: StrategyConfig<F>, p: Position<F>) -> F {
    let best = m.over(p.max_favorable, p.quantity);
    let part = m.over(c.trailing_stop_distance_pct, m.ratio(100, 1));
    match p.state {
        PositionState::Short => m.times(
            m.minus(p.entry_price, best),
            m.plus(m.ratio(1, 1), part),
        ),
        _ => m.times(m.plus(p.entry_price, best), m.minus(m.ratio(1, 1), part)),
    }
}

/// Whether the price has fallen back to the trailing stop.
pub open spec fn trails_out<F>(
    m: Model<F>,
    c: StrategyConfig<F>,
    p: Position<F>,
    price: F,
) -> bool {
    match p.state {
        PositionState::Long => m.less_eq(price, trailing_price(m, c, p)),
        PositionState::Short => m.less_eq(trailing_price(m, c, p), price),
        PositionState::Flat => false,
    }
}

/// Whether the score has turned against a position.
pub open spec fn is_reversed<F>(
    m: Model<F>,
    c: StrategyConfig<F>,
    p: Position<F>,
    bar: AggregatedBar<F>,
) -> bool {
    match p.state {
        PositionState::Long => m.less(score_of(m, c, bar), c.long_exit_threshold),
        PositionState::Short => m.less(c.short_exit_threshold, score_of(m, c, bar)),
        PositionState::Flat => false,
    }
}

/// Whether a position has a size and a value.
pub open spec fn has_value<F>(m: Model<F>, p: Position<F>) -> bool {
    p.state != PositionState::Flat && !m.equal(p.quantity, m.zero()) && !m.equal(
        m.times(p.entry_price, p.quantity),
        m.zero(),
    )
}

/// The first of the causes, in their order of priority, for which a position is
/// left: a loss at the stop, a profit at the target, a fall back to the
/// trailing stop, too long a time without any favourable move, too long a time
/// without a profit, and a score that has turned.
pub open spec fn exit_of<F>(
    m: Model<F>,
    c: StrategyConfig<F>,
    p: Position<F>,
    bar: AggregatedBar<F>,
) -> Option<ExitCause> {
    let value = m.times(p.entry_price, p.quantity);
    let gain_pct = m.times(m.over(p.unrealized_pnl, value), m.ratio(100, 1));
    let best_pct = m.times(m.over(p.max_favorable, value), m.ratio(100, 1));
    let held = elapsed_ms(p.entry_time_ms, bar.bar_end_ms);
    if !has_value(m, p) {
        None
    } else if m.less_eq(gain_pct, m.neg(c.stop_loss_pct)) {
        Some(ExitCause::StopLoss)
    } else if m.less_eq(c.take_profit_pct, gain_pct) {
        Some(ExitCause::TakeProfit)
    } else if m.less_eq(c.trailing_stop_activation_pct, best_pct) && trails_out(
        m,
        c,
        p,
        bar.close_price,
    ) {
        Some(ExitCause::TrailingStop)
    } else if held > c.time_stop_ms / 2 && held >= c.stale_exit_min_bars * c.bar_duration_ms
        && m.less_eq(p.max_favorable, m.zero()) {
        Some(ExitCause::TimeStopStale)
    } else if held > c.time_stop_ms && m.less_eq(p.unrealized_pnl, m.zero()) {
        Some(ExitCause::TimeStop)
    } else if is_reversed(m, c, p, bar) {
        Some(ExitCause::SignalReversal)
    } else {
        None
    }
}

/// Whether the price has fallen back to the trailing stop.
fn is_trailed_out<F: Copy, A: Arithmetic<F>>(
    a: &A,
    c: &StrategyConfig<F>,
    p: &Position<F>,
    price: F,
) -> (out: bool)
    ensures
        forall|m: Model<F>| #[trigger]
            arith::describes(m, *a) ==> out == trails_out(m, *c, *p, price),
{
    let best: F = arith::over(a, p.max_favorable, p.quantity);
    let part: F = arith::over(a, c.trailing_stop_distance_pct, arith::ratio(a, 100, 1));
    match p.state {
        PositionState::Long => {
            let peak: F = arith::plus(a, p.entry_price, best);
            let factor: F = arith::minus(a, arith::ratio(a, 1, 1), part);
            let stop: F = arith::times(a, peak, factor);
            arith::less_eq(a, price, stop)
        },
        PositionState::Short => {
            let trough: F = arith::minus(a, p.entry_price, best);
            let factor: F = arith::plus(a, arith::ratio(a, 1, 1), part);
            let stop: F = arith::times(a, trough, factor);
            arith::less_eq(a, stop, price)
        },
        PositionState::Flat => false,
    }
}

/// The first of the causes for which a position is left.
pub fn exit_cause<F: Copy, A: Arithmetic<F>>(
    a: &A,
    c: &StrategyConfig<F>,
    p: &Position<F>,
    bar: &AggregatedBar<F>,
) -> (cause: Option<ExitCause>)
    ensures
        p.state == PositionState::Flat ==> cause is None,
        forall|m: Model<F>| #[trigger]
            arith::describes(m, *a) ==> cause == exit_of(m, *c, *p, *bar),
{
    let zero: F = arith::zero(a);
    if p.is_flat() || arith::equal(a, p.quantity, zero) {
        return None;
    }
    let value: F = arith::times(a, p.entry_price, p.quantity);
    if arith::equal(a, value, zero) {
        return None;
    }
    let hundred: F = arith::ratio(a, 100, 1);
    let gain: F = arith::over(a, p.unrealized_pnl, value);
    let gain_pct: F = arith::times(a, gain, hundred);
    let best: F = arith::over(a, p.max_favorable, value);
    let best_pct: F = arith::times(a, best, hundred);
    let stop: F = arith::neg(a, c.stop_loss_pct);
    if arith::less_eq(a, gain_pct, stop) {
        return Some(ExitCause::StopLoss);
    }
    if arith::less_eq(a, c.take_profit_pct, gain_pct) {
        return Some(ExitCause::TakeProfit);
    }
    if arith::less_eq(a, c.trailing_stop_activation_pct, best_pct) && is_trailed_out(
        a,
        c,
        p,
        bar.close_price,
    ) {
        return Some(ExitCause::TrailingStop);
    }
    let held: u64 = bar.bar_end_ms.saturating_sub(p.entry_time_ms);
    proof {
        assert(c.stale_exit_min_bars * c.bar_duration_ms <= u128::MAX) by (nonlinear_arith)
            requires
                c.stale_exit_min_bars <= u64::MAX,
                c.bar_duration_ms <= u64::MAX,
        ;
    }
    let least: u128 = c.stale_exit_min_bars as u128 * c.bar_duration_ms as u128;
    if held > c.time_stop_ms / 2 && held as u128 >= least && arith::less_eq(
        a,
        p.max_favorable,
        zero,
    ) {
        return Some(ExitCause::TimeStopStale);
    }
    if held > c.time_stop_ms && arith::less_eq(a, p.unrealized_pnl, zero) {
        return Some(ExitCause::TimeStop);
    }
    let score: F = composite_score(a, c, bar);
    let reversed: bool = match p.state {
        PositionState::Long => arith::less(a, score, c.long_exit_threshold),
        PositionState::Short => arith::less(a, c.short_exit_threshold, score),
        PositionState::Flat => false,
    };
    if reversed {
        Some(ExitCause::SignalReversal)
    } else {
        None
    }
}

/// The signal by which a position is left.
pub open spec fn exit_signal_of(state: PositionState) -> Signal {
    match state {
        PositionState::Long => Signal::ExitLong,
        PositionState::Short => Signal::ExitShort,
        PositionState::Flat => Signal::Hold,
    }
}

/// The size in base units that a new position gets: the equity at risk over the
/// distance of the stop, within the greatest position allowed.
pub open spec fn size_of<F>(m: Model<F>, c: StrategyConfig<F>, equity: F, price: F) -> F {
    if m.less_eq(price, m.zero()) || m.less_eq(c.stop_loss_pct, m.zero()) {
        m.zero()
    } else {
        let at_risk = m.times(equity, m.over(c.risk_per_trade_pct, m.ratio(100, 1)));
        let wanted = m.over(at_risk, m.over(c.stop_loss_pct, m.ratio(100, 1)));
        m.over(m.lesser(wanted, c.max_position_size_usd), price)
    }
}

/// The size in base units that a new position gets.
pub fn position_size<F: Copy, A: Arithmetic<F>>(
    a: &A,
    c: &StrategyConfig<F>,
    equity: F,
    price: F,
) -> (size: F)
    ensures
        forall|m: Model<F>| #[trigger]
            arith::describes(m, *a) ==> size == size_of(m, *c, equity, price),
{
    let zero: F = arith::zero(a);
    if arith::less_eq(a, price, zero) || arith::less_eq(a, c.stop_loss_pct, zero) {
        return zero;
    }
    let hundred: F = arith::ratio(a, 100, 1);
    let risk: F = arith::over(a, c.risk_per_trade_pct, hundred);
    let at_risk: F = arith::times(a, equity, risk);
    let distance: F = arith::over(a, c.stop_loss_pct, hundred);
    let wanted: F = arith::over(a, at_risk, distance);
    let allowed: F = arith::lesser(a, wanted, c.max_position_size_usd);
    arith::over(a, allowed, price)
}

// ---------------------------------------------------------------------------
// Engine
// ---------------------------------------------------------------------------

/// Decides after every bar whether a position is entered or left, and keeps the
/// account of it.
#[derive(Debug)]
pub struct StrategyEngine<F> {
    pub config: StrategyConfig<F>,
    pub position: Position<F>,
    pub trade_history: Vec<TradeRecord<F>>,
    pub next_trade_id: u64,
    pub equity: F,
    pub daily_start_equity: F,
    pub daily_pnl: F,
    pub consecutive_losses: usize,
    pub last_exit_time_ms: u64,
    /// Whether no circuit breaker has tripped.
    pub session_active: bool,
    pub last_bar: Option<AggregatedBar<F>>,
}

/// What an engine holds besides its settings.
#[verifier::ext_equal]
pub struct EngineView<F> {
    pub position: Position<F>,
    pub trades: Seq<TradeView<F>>,
    pub next_trade_id: u64,
    pub equity: F,
    pub daily_start_equity: F,
    pub daily_pnl: F,
    pub losses: usize,
    pub last_exit_ms: u64,
    pub active: bool,
    pub last_bar: Option<AggregatedBar<F>>,
}

/// What the trades of a list hold.
pub open spec fn trade_views<F>(trades: Seq<TradeRecord<F>>) -> Seq<TradeView<F>> {
    Seq::new(trades.len(), |i: int| trades[i]@)
}

impl<F> View for StrategyEngine<F> {
    type V = EngineView<F>;

    open spec fn view(&self) -> EngineView<F> {
        EngineView {
            position: self.position,
            trades: trade_views(self.trade_history@),
            next_trade_id: self.next_trade_id,
            equity: self.equity,
            daily_start_equity: self.daily_start_equity,
            daily_pnl: self.daily_pnl,
            losses: self.consecutive_losses,
            last_exit_ms: self.last_exit_time_ms,
            active: self.session_active,
            last_bar: self.last_bar,
        }
    }
}

/// Whether a circuit breaker trips: the day's loss is beyond its limit, or there
/// have been too many losses in a row.
pub open spec fn trips<F>(m: Model<F>, c: StrategyConfig<F>, e: EngineView<F>) -> bool {
    ||| m.less(m.zero(), e.equity) && m.less(
        m.times(m.over(e.daily_pnl, e.equity), m.ratio(100, 1)),
        m.neg(c.daily_loss_limit_pct),
    )
    ||| e.losses >= c.max_consecutive_losses
}

/// The engine once a bar has come and the circuit breakers have been checked.
pub open spec fn guarded<F>(
    m: Model<F>,
    c: StrategyConfig<F>,
    e: EngineView<F>,
    bar: AggregatedBar<F>,
) -> EngineView<F> {
    EngineView { last_bar: Some(bar), active: e.active && !trips(m, c, e), ..e }
}

/// What the engine wants done after a bar.
#[derive(Clone, Copy, Debug)]
pub enum Decision<F> {
    Hold,
    Enter { side: Side, quantity: F },
    Exit { cause: ExitCause },
}

/// The engine after it has looked at a bar, before any order has been placed.
pub open spec fn looked<F>(
    m: Model<F>,
    c: StrategyConfig<F>,
    e: EngineView<F>,
    bar: AggregatedBar<F>,
) -> EngineView<F> {
    let now = guarded(m, c, e, bar);
    if now.active {
        EngineView { position: repriced(m, now.position, bar.close_price), ..now }
    } else {
        now
    }
}

/// What the engine wants done after a bar.
pub open spec fn decided<F>(
    m: Model<F>,
    c: StrategyConfig<F>,
    e: EngineView<F>,
    bar: AggregatedBar<F>,
) -> Decision<F> {
    let now = looked(m, c, e, bar);
    if !now.active {
        Decision::Hold
    } else if now.position.state != PositionState::Flat {
        match exit_of(m, c, now.position, bar) {
            Some(cause) => Decision::Exit { cause },
            None => Decision::Hold,
        }
    } else {
        let quantity = size_of(m, c, now.equity, bar.close_price);
        let entry = entry_of(m, c, now.last_exit_ms, score_of(m, c, bar), bar);
        if m.less_eq(quantity, m.zero()) {
            Decision::Hold
        } else {
            match entry {
                Signal::GoLong => Decision::Enter { side: Side::Buy, quantity },
                Signal::GoShort => Decision::Enter { side: Side::Sell, quantity },
                _ => Decision::Hold,
            }
        }
    }
}

/// A position that has just been opened.
pub open spec fn opened_position<F>(
    m: Model<F>,
    side: Side,
    price: F,
    time_ms: u64,
    quantity: F,
) -> Position<F> {
    Position {
        state: match side {
            Side::Buy => PositionState::Long,
            Side::Sell => PositionState::Short,
        },
        entry_price: price,
        entry_time_ms: time_ms,
        quantity,
        unrealized_pnl: m.zero(),
        max_favorable: m.zero(),
        max_adverse: m.zero(),
    }
}

/// What a position realises at a price.
pub open spec fn realized<F>(m: Model<F>, p: Position<F>, price: F) -> F {
    match p.state {
        PositionState::Short => m.times(m.minus(p.entry_price, price), p.quantity),
        _ => m.times(m.minus(price, p.entry_price), p.quantity),
    }
}

/// What a position realises at a price, in percent of its entry price.
pub open spec fn realized_pct<F>(m: Model<F>, p: Position<F>, price: F) -> F {
    if m.less(m.zero(), p.entry_price) {
        let change = match p.state {
            PositionState::Short => m.minus(p.entry_price, price),
            _ => m.minus(price, p.entry_price),
        };
        m.times(m.over(change, p.entry_price), m.ratio(100, 1))
    } else {
        m.zero()
    }
}

/// The record of the trade by which an open position is closed.
pub open spec fn closing_trade<F>(
    m: Model<F>,
    symbol: Seq<char>,
    e: EngineView<F>,
    price: F,
    time_ms: u64,
    reason: Seq<char>,
) -> TradeView<F> {
    let p = e.position;
    TradeView {
        id: e.next_trade_id,
        symbol,
        side: if p.state == PositionState::Short {
            Side::Sell
        } else {
            Side::Buy
        },
        entry_time_ms: p.entry_time_ms,
        exit_time_ms: time_ms,
        entry_price: p.entry_price,
        exit_price: price,
        quantity: p.quantity,
        pnl: realized(m, p, price),
        pnl_pct: realized_pct(m, p, price),
        hold_duration_ms: elapsed_ms(p.entry_time_ms, time_ms) as u64,
        exit_reason: reason,
    }
}

/// The engine after its open position has been closed.
pub open spec fn closed<F>(
    m: Model<F>,
    symbol: Seq<char>,
    e: EngineView<F>,
    price: F,
    time_ms: u64,
    reason: Seq<char>,
) -> EngineView<F> {
    let trade = closing_trade(m, symbol, e, price, time_ms, reason);
    EngineView {
        position: flat_position(m),
        trades: e.trades.push(trade),
        next_trade_id: (e.next_trade_id + 1) as u64,
        equity: m.plus(e.equity, trade.pnl),
        daily_pnl: m.plus(e.daily_pnl, trade.pnl),
        losses: if m.less(trade.pnl, m.zero()) {
            (e.losses + 1) as usize
        } else {
            0
        },
        last_exit_ms: time_ms,
        ..e
    }
}

/// The engine after what it wanted has been done, or, where the exchange refused
/// the order, has not.
pub open spec fn settled<F>(
    m: Model<F>,
    symbol: Seq<char>,
    e: EngineView<F>,
    bar: AggregatedBar<F>,
    decision: Decision<F>,
    accepted: bool,
) -> EngineView<F> {
    match decision {
        Decision::Enter { side, quantity } if accepted => EngineView {
            position: opened_position(m, side, bar.close_price, bar.bar_end_ms, quantity),
            ..e
        },
        Decision::Exit { cause } if accepted && e.position.state != PositionState::Flat => closed(
            m,
            symbol,
            e,
            bar.close_price,
            bar.bar_end_ms,
            cause.word(),
        ),
        _ => e,
    }
}

/// The signal that goes out once what the engine wanted has been done or not.
pub open spec fn signalled<F>(state: PositionState, decision: Decision<F>, accepted: bool) -> Signal {
    match decision {
        Decision::Enter { side, .. } if accepted => match side {
            Side::Buy => Signal::GoLong,
            Side::Sell => Signal::GoShort,
        },
        Decision::Exit { .. } if accepted => exit_signal_of(state),
        _ => Signal::Hold,
    }
}

/// Whether the counters of an engine leave room for one more trade.
pub open spec fn can_record<F>(e: EngineView<F>) -> bool {
    e.next_trade_id < u64::MAX && e.losses < usize::MAX
}

/// An order for the exchange.
#[derive(Debug)]
pub struct OrderTicket<F> {
    /// The symbol in capitals.
    pub symbol: String,
    /// `BUY` or `SELL`.
    pub side: &'static str,
    pub quantity: F,
    /// Whether the order closes a position.
    pub closes: bool,
}

/// The word for a side on the exchange.
pub open spec fn side_word(side: Side) -> Seq<char> {
    match side {
        Side::Buy => "BUY"@,
        Side::Sell => "SELL"@,
    }
}

impl<F: Copy> StrategyEngine<F> {
    /// An engine without position and without trades.
    pub fn new<A: Arithmetic<F>>(a: &A, config: StrategyConfig<F>, equity: F) -> (engine:
        StrategyEngine<F>)
        ensures
            engine.config == config,
            engine@.position.state == PositionState::Flat,
            engine@.trades == Seq::<TradeView<F>>::empty(),
            engine@.next_trade_id == 1,
            engine@.equity == equity,
            engine@.daily_start_equity == equity,
            engine@.losses == 0,
            engine@.last_exit_ms == 0,
            engine@.active,
            engine@.last_bar is None,
            forall|m: Model<F>| #[trigger]
                arith::describes(m, *a) ==> engine@.position == flat_position(m)
                    && engine@.daily_pnl == m.zero(),
    {
        let engine = StrategyEngine {
            config,
            position: Position::flat(a),
            trade_history: Vec::new(),
            next_trade_id: 1,
            equity,
            daily_start_equity: equity,
            daily_pnl: arith::zero(a),
            consecutive_losses: 0,
            last_exit_time_ms: 0,
            session_active: true,
            last_bar: None,
        };
        proof {
            assert(engine@.trades =~= Seq::<TradeView<F>>::empty());
        }
        engine
    }

    /// The composite score of a bar.
    pub fn compute_score<A: Arithmetic<F>>(&self, a: &A, bar: &AggregatedBar<F>) -> (score: F)
        ensures
            forall|m: Model<F>| #[trigger]
                arith::describes(m, *a) ==> score == score_of(m, self.config, *bar),
    {
        composite_score(a, &self.config, bar)
    }

    /// The signal by which a position is entered, or none.
    pub fn check_entry<A: Arithmetic<F>>(
        &self,
        a: &A,
        score: F,
        bar: &AggregatedBar<F>,
    ) -> (signal: Signal)
        ensures
            is_cooling_down(self.config, self@.last_exit_ms, *bar) ==> signal == Signal::Hold,
            forall|m: Model<F>| #[trigger]
                arith::describes(m, *a) ==> signal == entry_of(
                    m,
                    self.config,
                    self@.last_exit_ms,
                    score,
                    *bar,
                ),
    {
        entry_signal(a, &self.config, self.last_exit_time_ms, score, bar)
    }

    /// The signal by which the position is left, or none.
    pub fn check_exit<A: Arithmetic<F>>(&self, a: &A, bar: &AggregatedBar<F>) -> (signal: Signal)
        ensures
            self@.position.state == PositionState::Flat ==> signal == Signal::Hold,
            forall|m: Model<F>| #[trigger]
                arith::describes(m, *a) ==> signal == match exit_of(
                    m,
                    self.config,
                    self@.position,
                    *bar,
                ) {
                    Some(_) => exit_signal_of(self@.position.state),
                    None => Signal::Hold,
                },
    {
        match exit_cause(a, &self.config, &self.position, bar) {
            Some(_) => match self.position.state {
                PositionState::Long => Signal::ExitLong,
                PositionState::Short => Signal::ExitShort,
                PositionState::Flat => Signal::Hold,
            },
            None => Signal::Hold,
        }
    }

    /// The word for the cause of an exit. Without size or value there is none to
    /// be known; where no other cause applies it is a reversal.
    pub fn determine_exit_reason<A: Arithmetic<F>>(
        &self,
        a: &A,
        bar: &AggregatedBar<F>,
    ) -> (word: &'static str)
        ensures
            self@.position.state == PositionState::Flat ==> word@ == "unknown"@,
            forall|m: Model<F>| #[trigger]
                arith::describes(m, *a) ==> word@ == (if !has_value(m, self@.position) {
                    "unknown"@
                } else {
                    match exit_of(m, self.config, self@.position, *bar) {
                        Some(cause) => cause.word(),
                        None => "signal_reversal"@,
                    }
                }),
    {
        let zero: F = arith::zero(a);
        let p: &Position<F> = &self.position;
        if p.is_flat() || arith::equal(a, p.quantity, zero) {
            return "unknown";
        }
        let value: F = arith::times(a, p.entry_price, p.quantity);
        if arith::equal(a, value, zero) {
            return "unknown";
        }
        match exit_cause(a, &self.config, p, bar) {
            Some(cause) => cause.as_str(),
            None => "signal_reversal",
        }
    }

    /// The size in base units that a new position gets.
    pub fn calculate_position_size<A: Arithmetic<F>>(&self, a: &A, price: F) -> (size: F)
        ensures
            forall|m: Model<F>| #[trigger]
                arith::describes(m, *a) ==> size == size_of(m, self.config, self@.equity, price),
    {
        position_size(a, &self.config, self.equity, price)
    }

    /// Halts trading where a circuit breaker trips.
    pub fn check_circuit_breakers<A: Arithmetic<F>>(&mut self, a: &A)
        ensures
            final(self).config == old(self).config,
            !old(self)@.active ==> !final(self)@.active,
            old(self)@.losses >= old(self).config.max_consecutive_losses ==> !final(self)@.active,
            final(self)@ == (EngineView { active: final(self)@.active, ..old(self)@ }),
            forall|m: Model<F>| #[trigger]
                arith::describes(m, *a) ==> final(self)@.active == (old(self)@.active && !trips(
                    m,
                    old(self).config,
                    old(self)@,
                )),
    {
        let zero: F = arith::zero(a);
        if arith::less(a, zero, self.equity) {
            let part: F = arith::over(a, self.daily_pnl, self.equity);
            let pct: F = arith::times(a, part, arith::ratio(a, 100, 1));
            let limit: F = arith::neg(a, self.config.daily_loss_limit_pct);
            if arith::less(a, pct, limit) {
                self.session_active = false;
            }
        }
        if self.consecutive_losses >= self.config.max_consecutive_losses {
            self.session_active = false;
        }
    }

    /// Looks at a bar: checks the circuit breakers, brings the position up to
    /// the bar's close, and says what is to be done.
    pub fn decide<A: Arithmetic<F>>(&mut self, a: &A, bar: &AggregatedBar<F>) -> (decision:
        Decision<F>)
        ensures
            final(self).config == old(self).config,
            final(self)@.trades == old(self)@.trades,
            final(self)@.next_trade_id == old(self)@.next_trade_id,
            final(self)@.losses == old(self)@.losses,
            final(self)@.position.state == old(self)@.position.state,
            final(self)@.last_bar == Some(*bar),
            !old(self)@.active ==> decision is Hold,
            decision is Exit ==> old(self)@.position.state != PositionState::Flat,
            decision is Enter ==> old(self)@.position.state == PositionState::Flat,
            forall|m: Model<F>| #[trigger]
                arith::describes(m, *a) ==> final(self)@ == looked(
                    m,
                    old(self).config,
                    old(self)@,
                    *bar,
                ) && decision == decided(m, old(self).config, old(self)@, *bar),
    {
        self.last_bar = Some(bar.clone());
        self.check_circuit_breakers(a);
        if !self.session_active {
            return Decision::Hold;
        }
        if !self.position.is_flat() {
            self.position.update_market(a, bar.close_price);
            return match exit_cause(a, &self.config, &self.position, bar) {
                Some(cause) => Decision::Exit { cause },
                None => Decision::Hold,
            };
        }
        let score: F = self.compute_score(a, bar);
        let entry: Signal = self.check_entry(a, score, bar);
        let quantity: F = self.calculate_position_size(a, bar.close_price);
        if arith::less_eq(a, quantity, arith::zero(a)) {
            return Decision::Hold;
        }
        match entry {
            Signal::GoLong => Decision::Enter { side: Side::Buy, quantity },
            Signal::GoShort => Decision::Enter { side: Side::Sell, quantity },
            _ => Decision::Hold,
        }
    }

    /// The order that a decision needs on the exchange.
    pub fn ticket(&self, decision: &Decision<F>) -> (ticket: Option<OrderTicket<F>>)
        ensures
            match *decision {
                Decision::Hold => ticket is None,
                Decision::Enter { side, quantity } => ticket matches Some(order)
                    && order.symbol@ == text::uppercase(self.config.symbol@) && order.side@
                    == side_word(side) && order.quantity == quantity && !order.closes,
                Decision::Exit { .. } => match self@.position.state {
                    PositionState::Flat => ticket is None,
                    PositionState::Long => ticket matches Some(order) && order.symbol@
                        == text::uppercase(self.config.symbol@) && order.side@ == side_word(
                        Side::Sell,
                    ) && order.quantity == self@.position.quantity && order.closes,
                    PositionState::Short => ticket matches Some(order) && order.symbol@
                        == text::uppercase(self.config.symbol@) && order.side@ == side_word(
                        Side::Buy,
                    ) && order.quantity == self@.position.quantity && order.closes,
                },
            },
    {
        match decision {
            Decision::Hold => None,
            Decision::Enter { side, quantity } => {
                let word: &'static str = match side {
                    Side::Buy => "BUY",
                    Side::Sell => "SELL",
                };
                Some(
                    OrderTicket {
                        symbol: text::to_upper(&self.config.symbol),
                        side: word,
                        quantity: *quantity,
                        closes: false,
                    },
                )
            },
            Decision::Exit { .. } => {
                let word: &'static str = match self.position.state {
                    PositionState::Long => "SELL",
                    PositionState::Short => "BUY",
                    PositionState::Flat => {
                        return None;
                    },
                };
                Some(
                    OrderTicket {
                        symbol: text::to_upper(&self.config.symbol),
                        side: word,
                        quantity: self.position.quantity,
                        closes: true,
                    },
                )
            },
        }
    }

    /// Puts a position of a given size in place of the one there is.
    fn take_position<A: Arithmetic<F>>(
        &mut self,
        a: &A,
        side: Side,
        price: F,
        time_ms: u64,
        quantity: F,
    )
        ensures
            final(self).config == old(self).config,
            final(self)@ == (EngineView { position: final(self)@.position, ..old(self)@ }),
            final(self)@.position.state == (match side {
                Side::Buy => PositionState::Long,
                Side::Sell => PositionState::Short,
            }),
            forall|m: Model<F>| #[trigger]
                arith::describes(m, *a) ==> final(self)@.position == opened_position(
                    m,
                    side,
                    price,
                    time_ms,
                    quantity,
                ),
    {
        let zero: F = arith::zero(a);
        let state: PositionState = match side {
            Side::Buy => PositionState::Long,
            Side::Sell => PositionState::Short,
        };
        self.position = Position {
            state,
            entry_price: price,
            entry_time_ms: time_ms,
            quantity,
            unrealized_pnl: zero,
            max_favorable: zero,
            max_adverse: zero,
        };
    }

    /// Opens a position of the size that the settings give. Where that is no
    /// more than zero nothing happens, and the result says so.
    pub fn open_position<A: Arithmetic<F>>(
        &mut self,
        a: &A,
        side: Side,
        price: F,
        time_ms: u64,
    ) -> (opened: bool)
        ensures
            final(self).config == old(self).config,
            !opened ==> final(self)@ == old(self)@,
            forall|m: Model<F>| #[trigger]
                arith::describes(m, *a) ==> {
                    let size = size_of(m, old(self).config, old(self)@.equity, price);
                    &&& opened == !m.less_eq(size, m.zero())
                    &&& opened ==> final(self)@ == (EngineView {
                        position: opened_position(m, side, price, time_ms, size),
                        ..old(self)@
                    })
                },
    {
        let quantity: F = self.calculate_position_size(a, price);
        if arith::less_eq(a, quantity, arith::zero(a)) {
            return false;
        }
        self.take_position(a, side, price, time_ms, quantity);
        true
    }

    /// Closes the position and records the trade. Without a position nothing
    /// happens, and the result says so.
    pub fn close_position<A: Arithmetic<F>>(
        &mut self,
        a: &A,
        price: F,
        time_ms: u64,
        reason: &str,
    ) -> (done: bool)
        requires
            old(self)@.position.state != PositionState::Flat ==> can_record(old(self)@),
        ensures
            final(self).config == old(self).config,
            done == (old(self)@.position.state != PositionState::Flat),
            !done ==> final(self)@ == old(self)@,
            done ==> final(self)@.position.state == PositionState::Flat,
            done ==> final(self)@.next_trade_id == old(self)@.next_trade_id + 1,
            done ==> final(self)@.trades.len() == old(self)@.trades.len() + 1,
            done ==> final(self)@.trades.drop_last() == old(self)@.trades,
            done ==> final(self)@.trades.last().id == old(self)@.next_trade_id,
            done ==> final(self)@.trades.last().exit_reason == reason@,
            done ==> final(self)@.last_exit_ms == time_ms,
            done ==> final(self)@.active == old(self)@.active,
            done ==> final(self)@.last_bar == old(self)@.last_bar,
            forall|m: Model<F>| #[trigger]
                arith::describes(m, *a) && done ==> final(self)@ == closed(
                    m,
                    old(self).config.symbol@,
                    old(self)@,
                    price,
                    time_ms,
                    reason@,
                ),
    {
        if self.position.is_flat() {
            return false;
        }
        let ghost before = self@;
        let p: Position<F> = self.position.clone();
        let short: bool = p.state == PositionState::Short;
        let side: Side = if short {
            Side::Sell
        } else {
            Side::Buy
        };
        let change: F = if short {
            arith::minus(a, p.entry_price, price)
        } else {
            arith::minus(a, price, p.entry_price)
        };
        let pnl: F = arith::times(a, change, p.quantity);
        let zero: F = arith::zero(a);
        let pnl_pct: F = if arith::less(a, zero, p.entry_price) {
            let part: F = arith::over(a, change, p.entry_price);
            arith::times(a, part, arith::ratio(a, 100, 1))
        } else {
            zero
        };
        let trade = TradeRecord {
            id: self.next_trade_id,
            symbol: self.config.symbol.clone(),
            side,
            entry_time_ms: p.entry_time_ms,
            exit_time_ms: time_ms,
            entry_price: p.entry_price,
            exit_price: price,
            quantity: p.quantity,
            pnl,
            pnl_pct,
            hold_duration_ms: time_ms.saturating_sub(p.entry_time_ms),
            exit_reason: reason.to_string(),
        };
        let ghost view = trade@;
        self.next_trade_id += 1;
        self.equity = arith::plus(a, self.equity, pnl);
        self.daily_pnl = arith::plus(a, self.daily_pnl, pnl);
        if arith::less(a, pnl, zero) {
            self.consecutive_losses += 1;
        } else {
            self.consecutive_losses = 0;
        }
        self.last_exit_time_ms = time_ms;
        self.trade_history.push(trade);
        self.position = Position::flat(a);
        proof {
            assert(self@.trades =~= before.trades.push(view));
            assert(self@.trades.drop_last() =~= before.trades);
        }
        true
    }

    /// Does what was decided after a bar, or, where the exchange refused the
    /// order, leaves the account as it is; returns the signal that goes out.
    pub fn settle<A: Arithmetic<F>>(
        &mut self,
        a: &A,
        bar: &AggregatedBar<F>,
        decision: &Decision<F>,
        accepted: bool,
    ) -> (signal: Signal)
        requires
            decision is Exit && accepted && old(self)@.position.state != PositionState::Flat
                ==> can_record(old(self)@),
        ensures
            final(self).config == old(self).config,
            signal == signalled(old(self)@.position.state, *decision, accepted),
            !accepted ==> final(self)@ == old(self)@,
            *decision is Hold ==> final(self)@ == old(self)@,
            forall|m: Model<F>| #[trigger]
                arith::describes(m, *a) ==> final(self)@ == settled(
                    m,
                    old(self).config.symbol@,
                    old(self)@,
                    *bar,
                    *decision,
                    accepted,
                ),
    {
        if !accepted {
            return Signal::Hold;
        }
        match decision {
            Decision::Hold => Signal::Hold,
            Decision::Enter { side, quantity } => {
                self.take_position(a, *side, bar.close_price, bar.bar_end_ms, *quantity);
                match side {
                    Side::Buy => Signal::GoLong,
                    Side::Sell => Signal::GoShort,
                }
            },
            Decision::Exit { cause } => {
                let signal: Signal = match self.position.state {
                    PositionState::Long => Signal::ExitLong,
                    PositionState::Short => Signal::ExitShort,
                    PositionState::Flat => Signal::Hold,
                };
                let _closed: bool = self.close_position(
                    a,
                    bar.close_price,
                    bar.bar_end_ms,
                    cause.as_str(),
                );
                signal
            },
        }
    }

    /// Looks at a bar and does at once what it decides, without an exchange.
    pub fn on_bar<A: Arithmetic<F>>(&mut self, a: &A, bar: &AggregatedBar<F>) -> (signal: Signal)
        requires
            old(self)@.position.state != PositionState::Flat ==> can_record(old(self)@),
        ensures
            final(self).config == old(self).config,
            !old(self)@.active ==> signal == Signal::Hold && final(self)@.trades
                == old(self)@.trades,
            forall|m: Model<F>| #[trigger]
                arith::describes(m, *a) ==> {
                    let looked = looked(m, old(self).config, old(self)@, *bar);
                    let decision = decided(m, old(self).config, old(self)@, *bar);
                    &&& final(self)@ == settled(
                        m,
                        old(self).config.symbol@,
                        looked,
                        *bar,
                        decision,
                        true,
                    )
                    &&& signal == signalled(looked.position.state, decision, true)
                },
    {
        let decision: Decision<F> = self.decide(a, bar);
        self.settle(a, bar, &decision, true)
    }
}

// ---------------------------------------------------------------------------
// Account
// ---------------------------------------------------------------------------

/// The position that the exchange reports, as the engine keeps it.
pub open spec fn adopted_position<F>(
    m: Model<F>,
    now_ms: u64,
    found: PositionInfo<F>,
) -> Position<F> {
    if m.less(m.zero(), m.abs(found.position_amt)) {
        Position {
            state: if m.less(m.zero(), found.position_amt) {
                PositionState::Long
            } else {
                PositionState::Short
            },
            entry_price: found.entry_price,
            entry_time_ms: now_ms,
            quantity: m.abs(found.position_amt),
            unrealized_pnl: found.unrealized_pnl,
            max_favorable: m.zero(),
            max_adverse: m.zero(),
        }
    } else {
        flat_position(m)
    }
}

/// The engine after what the exchange reports has been taken over: a balance
/// above zero becomes the equity, and the position is the reported one, flat
/// where the exchange holds none. A call that failed changes nothing.
pub open spec fn synced<F>(
    m: Model<F>,
    e: EngineView<F>,
    now_ms: u64,
    balance: Result<F, String>,
    found: Result<Option<PositionInfo<F>>, String>,
) -> EngineView<F> {
    EngineView {
        equity: match balance {
            Ok(amount) if m.less(m.zero(), amount) => amount,
            _ => e.equity,
        },
        position: match found {
            Ok(Some(info)) => adopted_position(m, now_ms, info),
            Ok(None) => flat_position(m),
            Err(_) => e.position,
        },
        ..e
    }
}

impl<F: Copy> StrategyEngine<F> {
    /// Takes over the balance and the position that the exchange reports.
    pub fn sync_from_exchange<A: Arithmetic<F>>(
        &mut self,
        a: &A,
        now_ms: u64,
        balance: &Result<F, String>,
        found: &Result<Option<PositionInfo<F>>, String>,
    )
        ensures
            final(self).config == old(self).config,
            *balance is Err && *found is Err ==> final(self)@ == old(self)@,
            *found matches Ok(None) ==> final(self)@.position.state == PositionState::Flat,
            final(self)@ == (EngineView {
                equity: final(self)@.equity,
                position: final(self)@.position,
                ..old(self)@
            }),
            forall|m: Model<F>| #[trigger]
                arith::describes(m, *a) ==> final(self)@ == synced(
                    m,
                    old(self)@,
                    now_ms,
                    *balance,
                    *found,
                ),
    {
        let zero: F = arith::zero(a);
        if let Ok(amount) = balance {
            if arith::less(a, zero, *amount) {
                self.equity = *amount;
            }
        }
        match found {
            Ok(Some(info)) => {
                let size: F = arith::abs(a, info.position_amt);
                if arith::less(a, zero, size) {
                    let state: PositionState = if arith::less(a, zero, info.position_amt) {
                        PositionState::Long
                    } else {
                        PositionState::Short
                    };
                    self.position = Position {
                        state,
                        entry_price: info.entry_price,
                        entry_time_ms: now_ms,
                        quantity: size,
                        unrealized_pnl: info.unrealized_pnl,
                        max_favorable: zero,
                        max_adverse: zero,
                    };
                } else {
                    self.position = Position::flat(a);
                }
            },
            Ok(None) => {
                self.position = Position::flat(a);
            },
            Err(_) => {},
        }
    }

    /// Starts a new day: the circuit breakers and the day's figures are reset,
    /// trades and position stay.
    pub fn reset_daily<A: Arithmetic<F>>(&mut self, a: &A, current_equity: F)
        ensures
            final(self).config == old(self).config,
            final(self)@ == (EngineView {
                equity: current_equity,
                daily_start_equity: current_equity,
                daily_pnl: final(self)@.daily_pnl,
                losses: 0,
                active: true,
                ..old(self)@
            }),
            forall|m: Model<F>| #[trigger]
                arith::describes(m, *a) ==> final(self)@.daily_pnl == m.zero(),
    {
        self.equity = current_equity;
        self.daily_start_equity = current_equity;
        self.daily_pnl = arith::zero(a);
        self.consecutive_losses = 0;
        self.session_active = true;
    }

    /// Starts anew: no position, no trades, all counters reset.
    pub fn reset_all<A: Arithmetic<F>>(&mut self, a: &A, equity: F)
        ensures
            final(self).config == old(self).config,
            final(self)@ == (EngineView {
                position: final(self)@.position,
                trades: Seq::empty(),
                next_trade_id: 1,
                equity,
                daily_start_equity: equity,
                daily_pnl: final(self)@.daily_pnl,
                losses: 0,
                last_exit_ms: 0,
                active: true,
                last_bar: None,
            }),
            final(self)@.position.state == PositionState::Flat,
            forall|m: Model<F>| #[trigger]
                arith::describes(m, *a) ==> final(self)@.position == flat_position(m)
                    && final(self)@.daily_pnl == m.zero(),
    {
        self.position = Position::flat(a);
        self.trade_history.clear();
        self.next_trade_id = 1;
        self.equity = equity;
        self.daily_start_equity = equity;
        self.daily_pnl = arith::zero(a);
        self.consecutive_losses = 0;
        self.last_exit_time_ms = 0;
        self.session_active = true;
        self.last_bar = None;
        proof {
            assert(self@.trades =~= Seq::<TradeView<F>>::empty());
        }
    }

    /// The position.
    pub fn position(&self) -> (position: &Position<F>)
        ensures
            *position == self@.position,
    {
        &self.position
    }

    /// The closed trades, oldest first.
    pub fn trade_history(&self) -> (trades: &Vec<TradeRecord<F>>)
        ensures
            trade_views(trades@) == self@.trades,
    {
        &self.trade_history
    }

    /// The equity.
    pub fn equity(&self) -> (equity: F)
        ensures
            equity == self@.equity,
    {
        self.equity
    }

    /// What the day has brought so far.
    pub fn daily_pnl(&self) -> (pnl: F)
        ensures
            pnl == self@.daily_pnl,
    {
        self.daily_pnl
    }

    /// Whether no circuit breaker has tripped.
    pub fn is_session_active(&self) -> (active: bool)
        ensures
            active == self@.active,
    {
        self.session_active
    }

    /// How many losses there have been in a row.
    pub fn consecutive_losses(&self) -> (losses: usize)
        ensures
            losses == self@.losses,
    {
        self.consecutive_losses
    }
}

// ---------------------------------------------------------------------------
// Laws
// ---------------------------------------------------------------------------

/// The engine after it has looked at a bar and done at once what it decided.
pub open spec fn after_bar<F>(
    m: Model<F>,
    c: StrategyConfig<F>,
    e: EngineView<F>,
    bar: AggregatedBar<F>,
) -> EngineView<F> {
    settled(m, c.symbol@, looked(m, c, e, bar), bar, decided(m, c, e, bar), true)
}

/// The signal that goes out after a bar.
pub open spec fn bar_signal<F>(
    m: Model<F>,
    c: StrategyConfig<F>,
    e: EngineView<F>,
    bar: AggregatedBar<F>,
) -> Signal {
    signalled(looked(m, c, e, bar).position.state, decided(m, c, e, bar), true)
}

/// Once trading has halted, bars bring no signal, no trade and no change of the
/// position, and trading stays halted.
pub proof fn law_halted_engine_holds<F>(
    m: Model<F>,
    c: StrategyConfig<F>,
    e: EngineView<F>,
    bar: AggregatedBar<F>,
)
    requires
        !e.active || trips(m, c, e),
    ensures
        bar_signal(m, c, e, bar) == Signal::Hold,
        after_bar(m, c, e, bar) == (EngineView { last_bar: Some(bar), active: false, ..e }),
{
}

/// The signal tells what happened to the position: an entry signal goes out
/// exactly where a flat engine opens the matching position, and an exit signal
/// exactly where the matching position is closed.
pub proof fn law_signal_tells_the_change<F>(
    m: Model<F>,
    c: StrategyConfig<F>,
    e: EngineView<F>,
    bar: AggregatedBar<F>,
)
    ensures
        ({
            let before = e.position.state;
            let after = after_bar(m, c, e, bar).position.state;
            &&& bar_signal(m, c, e, bar) == Signal::GoLong <==> before == PositionState::Flat
                && after == PositionState::Long
            &&& bar_signal(m, c, e, bar) == Signal::GoShort <==> before == PositionState::Flat
                && after == PositionState::Short
            &&& bar_signal(m, c, e, bar) == Signal::ExitLong <==> before == PositionState::Long
                && after == PositionState::Flat
            &&& bar_signal(m, c, e, bar) == Signal::ExitShort <==> before == PositionState::Short
                && after == PositionState::Flat
            &&& bar_signal(m, c, e, bar) == Signal::Hold <==> before == after
        }),
{
}

/// A trade is recorded exactly where a position is closed, under the next
/// number, with the price and time of the bar and the first cause that applies;
/// its profit goes into the equity and into the day's figure.
pub proof fn law_exit_is_recorded<F>(
    m: Model<F>,
    c: StrategyConfig<F>,
    e: EngineView<F>,
    bar: AggregatedBar<F>,
)
    requires
        can_record(e),
    ensures
        ({
            let signal = bar_signal(m, c, e, bar);
            let after = after_bar(m, c, e, bar);
            let exits = signal == Signal::ExitLong || signal == Signal::ExitShort;
            &&& !exits ==> after.trades == e.trades && after.next_trade_id == e.next_trade_id
            &&& exits ==> {
                let p = repriced(m, e.position, bar.close_price);
                let trade = after.trades.last();
                &&& after.trades == e.trades.push(trade)
                &&& trade.id == e.next_trade_id
                &&& after.next_trade_id == e.next_trade_id + 1
                &&& trade.exit_price == bar.close_price
                &&& trade.exit_time_ms == bar.bar_end_ms
                &&& trade.side == (if signal == Signal::ExitShort {
                    Side::Sell
                } else {
                    Side::Buy
                })
                &&& exit_of(m, c, p, bar) matches Some(cause) && trade.exit_reason == cause.word()
                &&& after.equity == m.plus(e.equity, trade.pnl)
                &&& after.daily_pnl == m.plus(e.daily_pnl, trade.pnl)
                &&& after.last_exit_ms == bar.bar_end_ms
            }
        }),
{
    let now = looked(m, c, e, bar);
    match decided(m, c, e, bar) {
        Decision::Exit { cause } => {
            let after = after_bar(m, c, e, bar);
            assert(after.trades.last() == closing_trade(
                m,
                c.symbol@,
                now,
                bar.close_price,
                bar.bar_end_ms,
                cause.word(),
            ));
        },
        _ => {},
    }
}

/// Trade numbers count up from one without a gap.
pub open spec fn numbered_from_one<F>(e: EngineView<F>) -> bool {
    &&& e.next_trade_id == e.trades.len() + 1
    &&& forall|i: int| 0 <= i < e.trades.len() ==> (#[trigger] e.trades[i]).id == i + 1
}

/// Bars keep the trades numbered from one without a gap, and never change a
/// trade that has been recorded.
pub proof fn law_trades_are_numbered<F>(
    m: Model<F>,
    c: StrategyConfig<F>,
    e: EngineView<F>,
    bar: AggregatedBar<F>,
)
    requires
        numbered_from_one(e),
        can_record(e),
    ensures
        numbered_from_one(after_bar(m, c, e, bar)),
        after_bar(m, c, e, bar).trades.take(e.trades.len() as int) == e.trades,
{
    law_exit_is_recorded(m, c, e, bar);
    let after = after_bar(m, c, e, bar);
    assert(after.trades.take(e.trades.len() as int) =~= e.trades);
}

/// While the cooldown after an exit lasts, no position is entered.
pub proof fn law_no_entry_in_cooldown<F>(
    m: Model<F>,
    c: StrategyConfig<F>,
    e: EngineView<F>,
    bar: AggregatedBar<F>,
)
    requires
        e.position.state == PositionState::Flat,
        is_cooling_down(c, e.last_exit_ms, bar),
    ensures
        bar_signal(m, c, e, bar) == Signal::Hold,
        after_bar(m, c, e, bar).position == e.position,
{
}

/// Where the exchange refuses the order, only the price of the position has been
/// brought up to date: no trade, no change of equity, and no signal.
pub proof fn law_refused_order_changes_nothing<F>(
    m: Model<F>,
    c: StrategyConfig<F>,
    e: EngineView<F>,
    bar: AggregatedBar<F>,
)
    ensures
        ({
            let now = looked(m, c, e, bar);
            let decision = decided(m, c, e, bar);
            &&& settled(m, c.symbol@, now, bar, decision, false) == now
            &&& signalled(now.position.state, decision, false) == Signal::Hold
            &&& now.trades == e.trades
            &&& now.equity == e.equity
            &&& now.position.state == e.position.state
        }),
{
}

/// The greatest profit and the greatest loss that a position has seen are kept,
/// or replaced by the gain at the new price.
pub proof fn law_extremes_are_kept_or_met<F>(m: Model<F>, p: Position<F>, price: F)
    ensures
        ({
            let after = repriced(m, p, price);
            &&& after.max_favorable == p.max_favorable || after.max_favorable
                == after.unrealized_pnl
            &&& after.max_adverse == p.max_adverse || after.max_adverse == after.unrealized_pnl
            &&& after.state == p.state
            &&& after.entry_price == p.entry_price
            &&& after.quantity == p.quantity
            &&& after.entry_time_ms == p.entry_time_ms
        }),
{
}

/// Whether a bar is the mirror image of another: what speaks for buying in the
/// one speaks as strongly for selling in the other.
pub open spec fn is_mirror_of<F>(
    m: Model<F>,
    bar: AggregatedBar<F>,
    mirror: AggregatedBar<F>,
) -> bool {
    let half = m.ratio(50, 1);
    &&& arith::alike(m, mirror.fk_net_direction_mean, m.neg(bar.fk_net_direction_mean))
    &&& arith::alike(m, mirror.aggression_shift_mean, m.neg(bar.aggression_shift_mean))
    &&& arith::alike(m, mirror.ob_imbalance_mean, m.neg(bar.ob_imbalance_mean))
    &&& arith::alike(
        m,
        m.minus(mirror.avg_buy_volume_pct, half),
        m.neg(m.minus(bar.avg_buy_volume_pct, half)),
    )
    &&& mirror.absorption_score_max == bar.absorption_score_max
}

/// Rising and falling prices are treated alike: the mirror image of a bar has
/// the score of the bar with the other sign, absorption included.
pub proof fn law_mirrored_bars_score_opposite<F>(
    m: Model<F>,
    c: StrategyConfig<F>,
    bar: AggregatedBar<F>,
    mirror: AggregatedBar<F>,
)
    requires
        arith::turns_signs(m),
        m.less(m.zero(), m.ratio(50, 1)),
        is_mirror_of(m, bar, mirror),
    ensures
        arith::alike(m, score_of(m, c, mirror), m.neg(score_of(m, c, bar))),
{
    lemma_mirrored_absorption(m, c, bar, mirror);
    let half = m.ratio(50, 1);
    let excess = m.minus(bar.avg_buy_volume_pct, half);
    let mirrored_excess = m.minus(mirror.avg_buy_volume_pct, half);
    let buying = m.over(excess, half);
    let mirrored_buying = m.over(mirrored_excess, half);
    assert(arith::alike(m, mirrored_buying, m.over(m.neg(excess), half)));
    arith::lemma_alike(m, mirrored_buying, m.over(m.neg(excess), half), m.neg(buying));
    let parts = seq![
        (bar.fk_net_direction_mean, mirror.fk_net_direction_mean, c.weight_fk_direction),
        (bar.aggression_shift_mean, mirror.aggression_shift_mean, c.weight_aggression_shift),
        (bar.ob_imbalance_mean, mirror.ob_imbalance_mean, c.weight_ob_imbalance),
        (
            absorption_direction(m, c, bar),
            absorption_direction(m, c, mirror),
            c.weight_absorption,
        ),
        (buying, mirrored_buying, c.weight_buy_volume_pct),
    ];
    let own = |i: int| m.times(parts[i].0, parts[i].2);
    let turned = |i: int| m.times(parts[i].1, parts[i].2);
    assert forall|i: int| 0 <= i < 5 implies arith::alike(
        m,
        #[trigger] turned(i),
        m.neg(own(i)),
    ) by {
        arith::lemma_turned_product(m, parts[i].0, parts[i].1, parts[i].2);
    }
    let one = own(0);
    let two = m.plus(one, own(1));
    let three = m.plus(two, own(2));
    let four = m.plus(three, own(3));
    arith::lemma_turned_sum(m, one, own(1), turned(0), turned(1));
    let turned_two = m.plus(turned(0), turned(1));
    arith::lemma_turned_sum(m, two, own(2), turned_two, turned(2));
    let turned_three = m.plus(turned_two, turned(2));
    arith::lemma_turned_sum(m, three, own(3), turned_three, turned(3));
    let turned_four = m.plus(turned_three, turned(3));
    arith::lemma_turned_sum(m, four, own(4), turned_four, turned(4));
}

/// The absorption of a mirrored bar points the other way.
proof fn lemma_mirrored_absorption<F>(
    m: Model<F>,
    c: StrategyConfig<F>,
    bar: AggregatedBar<F>,
    mirror: AggregatedBar<F>,
)
    requires
        arith::turns_signs(m),
        is_mirror_of(m, bar, mirror),
    ensures
        arith::alike(
            m,
            absorption_direction(m, c, mirror),
            m.neg(absorption_direction(m, c, bar)),
        ),
{
    let zero = m.zero();
    let flow = bar.fk_net_direction_mean;
    let turned_flow = mirror.fk_net_direction_mean;
    let book = bar.ob_imbalance_mean;
    let turned_book = mirror.ob_imbalance_mean;
    let high = c.absorption_ob_imbalance_threshold;
    let low = m.neg(high);
    assert(m.less(turned_flow, zero) == m.less(m.neg(flow), m.neg(zero)));
    assert(m.less(zero, turned_flow) == m.less(m.neg(zero), m.neg(flow)));
    assert(m.less(turned_book, low) == m.less(m.neg(book), m.neg(high)));
    assert(m.less(high, turned_book) == m.less(m.neg(low), m.neg(book)));
    arith::lemma_alike(m, m.neg(zero), zero, zero);
    arith::lemma_alike(
        m,
        m.neg(m.neg(bar.absorption_score_max)),
        bar.absorption_score_max,
        bar.absorption_score_max,
    );
}

/// Whether nothing keeps a position from being entered at a bar: the cooldown is
/// over, the spread is no wider and trades are no fewer than allowed.
pub open spec fn allows_entry<F>(
    m: Model<F>,
    c: StrategyConfig<F>,
    last_exit_ms: u64,
    bar: AggregatedBar<F>,
) -> bool {
    &&& last_exit_ms == 0 || bar.bar_end_ms >= last_exit_ms + c.cooldown_after_loss_ms
    &&& !m.less(c.max_spread_bps, bar.avg_spread_bps)
    &&& !m.less(bar.avg_trade_count_per_sec, c.min_trades_per_sec)
}

/// Whether no burst of a bar moved enough levels for a reversion.
pub open spec fn lacks_void<F>(c: StrategyConfig<F>, bar: AggregatedBar<F>) -> bool {
    bar.vd_buy_levels_max < c.min_void_levels_for_reversion && bar.vd_sell_levels_max
        < c.min_void_levels_for_reversion
}

/// Where nothing keeps a position from being entered and no void asks for a
/// reversion, a long is entered exactly where the score is above its threshold
/// and either absorption or buying confirms it, and a short exactly where no long
/// is, the score is below its threshold and either absorption or selling confirms
/// it.
pub proof fn law_entries_follow_the_score<F>(
    m: Model<F>,
    c: StrategyConfig<F>,
    last_exit_ms: u64,
    score: F,
    bar: AggregatedBar<F>,
)
    requires
        allows_entry(m, c, last_exit_ms, bar),
        lacks_void(c, bar),
    ensures
        ({
            let entry = entry_of(m, c, last_exit_ms, score, bar);
            let absorbs = m.less_eq(c.min_absorption_for_reversal, bar.absorption_score_max);
            let buying = m.less(c.min_momentum_threshold, bar.fk_net_direction_mean);
            let selling = m.less(bar.fk_net_direction_mean, m.neg(c.min_momentum_threshold));
            &&& entry == Signal::GoLong <==> m.less(c.long_entry_threshold, score) && (absorbs
                || buying)
            &&& entry == Signal::GoShort <==> entry != Signal::GoLong && m.less(
                score,
                c.short_entry_threshold,
            ) && (absorbs || selling)
            &&& entry == Signal::GoLong || entry == Signal::GoShort || entry == Signal::Hold
        }),
{
}

/// Selling through enough bids, a price that has recovered, bids that outweigh
/// asks and a tight spread make a long whatever the score; buying through enough
/// asks with everything the other way round makes a short. In exact arithmetic.
pub proof fn law_voids_are_faded<F>(
    m: Model<F>,
    v: spec_fn(F) -> real,
    c: StrategyConfig<F>,
    last_exit_ms: u64,
    score: F,
    bar: AggregatedBar<F>,
)
    requires
        arith::is_exact(m, v),
        last_exit_ms == 0 || bar.bar_end_ms >= last_exit_ms + c.cooldown_after_loss_ms,
        v(bar.avg_spread_bps) <= v(c.max_spread_bps),
        v(bar.avg_spread_bps) < v(c.max_spread_bps) * v(c.void_spread_tightness_pct),
    ensures
        ({
            let entry = entry_of(m, c, last_exit_ms, score, bar);
            let up = bar.vd_sell_levels_max >= c.min_void_levels_for_reversion && v(
                bar.close_price,
            ) > v(bar.low_price) * v(c.void_price_recovery_pct) && v(bar.ob_imbalance_mean) > v(
                c.void_ob_imbalance_threshold,
            );
            let down = bar.vd_buy_levels_max >= c.min_void_levels_for_reversion && v(
                bar.close_price,
            ) < v(bar.high_price) * (2real - v(c.void_price_recovery_pct)) && v(
                bar.ob_imbalance_mean,
            ) < -v(c.void_ob_imbalance_threshold);
            &&& up ==> entry == Signal::GoLong
            &&& !up && down ==> entry == Signal::GoShort
        }),
{
    arith::lemma_whole_number(m, v, 2);
}

/// No position is entered in the cooldown, at too wide a spread, or, where no
/// void asks for it, in too quiet a market.
pub proof fn law_entries_need_a_market<F>(
    m: Model<F>,
    c: StrategyConfig<F>,
    last_exit_ms: u64,
    score: F,
    bar: AggregatedBar<F>,
)
    ensures
        last_exit_ms > 0 && last_exit_ms <= bar.bar_end_ms < last_exit_ms
            + c.cooldown_after_loss_ms ==> entry_of(m, c, last_exit_ms, score, bar) == Signal::Hold,
        m.less(c.max_spread_bps, bar.avg_spread_bps) ==> entry_of(m, c, last_exit_ms, score, bar)
            == Signal::Hold,
        m.less(bar.avg_trade_count_per_sec, c.min_trades_per_sec) && lacks_void(c, bar)
            ==> entry_of(m, c, last_exit_ms, score, bar) == Signal::Hold,
{
}

/// Longs and shorts are entered alike: where the threshold of shorts is that of
/// longs with the other sign, a bar without a void makes a long exactly where its
/// mirror image makes a short.
pub proof fn law_mirrored_bars_enter_opposite<F>(
    m: Model<F>,
    c: StrategyConfig<F>,
    last_exit_ms: u64,
    score: F,
    bar: AggregatedBar<F>,
    mirrored_score: F,
    mirror: AggregatedBar<F>,
)
    requires
        arith::keeps_bounds(m),
        m.less_eq(m.zero(), c.long_entry_threshold),
        arith::alike(m, c.short_entry_threshold, m.neg(c.long_entry_threshold)),
        arith::alike(m, mirrored_score, m.neg(score)),
        arith::alike(m, mirror.fk_net_direction_mean, m.neg(bar.fk_net_direction_mean)),
        mirror.absorption_score_max == bar.absorption_score_max,
        mirror.avg_spread_bps == bar.avg_spread_bps,
        mirror.avg_trade_count_per_sec == bar.avg_trade_count_per_sec,
        mirror.bar_end_ms == bar.bar_end_ms,
        lacks_void(c, bar),
        lacks_void(c, mirror),
    ensures
        entry_of(m, c, last_exit_ms, score, bar) == Signal::GoLong <==> entry_of(
            m,
            c,
            last_exit_ms,
            mirrored_score,
            mirror,
        ) == Signal::GoShort,
        entry_of(m, c, last_exit_ms, score, bar) == Signal::GoShort <==> entry_of(
            m,
            c,
            last_exit_ms,
            mirrored_score,
            mirror,
        ) == Signal::GoLong,
{
    let high = c.long_entry_threshold;
    let low = c.short_entry_threshold;
    let zero = m.zero();
    let least = c.min_momentum_threshold;
    let flow = bar.fk_net_direction_mean;
    let turned = mirror.fk_net_direction_mean;
    assert(m.less(mirrored_score, low) == m.less(m.neg(score), m.neg(high)));
    assert(m.less(m.neg(score), m.neg(high)) == m.less(high, score));
    assert(arith::alike(m, m.neg(low), m.neg(m.neg(high))));
    arith::lemma_alike(m, m.neg(low), m.neg(m.neg(high)), high);
    assert(m.less(high, mirrored_score) == m.less(m.neg(low), m.neg(score)));
    assert(m.less(m.neg(low), m.neg(score)) == m.less(score, low));
    assert(m.less(turned, m.neg(least)) == m.less(m.neg(flow), m.neg(least)));
    assert(m.less(m.neg(flow), m.neg(least)) == m.less(least, flow));
    assert(m.less(least, turned) == m.less(m.neg(m.neg(least)), m.neg(flow)));
    assert(m.less(m.neg(m.neg(least)), m.neg(flow)) == m.less(flow, m.neg(least)));
    if m.less(high, score) && m.less(score, low) {
        assert(m.less(zero, score));
        assert(m.less(score, low) == m.less(score, m.neg(high)));
        assert(m.less(m.neg(m.neg(high)), m.neg(score)) == m.less(score, m.neg(high)));
        assert(m.less(high, m.neg(score)) == m.less(m.neg(m.neg(high)), m.neg(score)));
        assert(m.less(zero, m.neg(score)));
        assert(m.less(m.neg(zero), m.neg(score)) == m.less(score, zero));
        assert(m.less(zero, m.neg(score)) == m.less(m.neg(zero), m.neg(score)));
    }
}

/// In exact arithmetic a better score and more buying never take a long back, and
/// a worse score and more selling never take a short back, as long as no long is
/// made of it.
pub proof fn law_entries_grow_with_the_score<F>(
    m: Model<F>,
    v: spec_fn(F) -> real,
    c: StrategyConfig<F>,
    last_exit_ms: u64,
    score: F,
    other_score: F,
    bar: AggregatedBar<F>,
    other: AggregatedBar<F>,
)
    requires
        arith::is_exact(m, v),
        lacks_void(c, bar),
        other == (AggregatedBar { fk_net_direction_mean: other.fk_net_direction_mean, ..bar }),
    ensures
        entry_of(m, c, last_exit_ms, score, bar) == Signal::GoLong && v(score) <= v(other_score)
            && v(bar.fk_net_direction_mean) <= v(other.fk_net_direction_mean) ==> entry_of(
            m,
            c,
            last_exit_ms,
            other_score,
            other,
        ) == Signal::GoLong,
        entry_of(m, c, last_exit_ms, score, bar) == Signal::GoShort && v(other_score) <= v(score)
            && v(other.fk_net_direction_mean) <= v(bar.fk_net_direction_mean) ==> entry_of(
            m,
            c,
            last_exit_ms,
            other_score,
            other,
        ) == Signal::GoShort,
{
}

/// In exact arithmetic the score of a bar is the sum of its parts by their
/// weights: the direction of the fills, the shift of aggression, the imbalance of
/// the book, a strong absorption against the fills that the book confirms, and
/// how far buying is from half of the volume.
pub proof fn law_score_weighs_the_bar<F>(
    m: Model<F>,
    v: spec_fn(F) -> real,
    c: StrategyConfig<F>,
    bar: AggregatedBar<F>,
)
    requires
        arith::is_exact(m, v),
    ensures
        ({
            let flow = v(bar.fk_net_direction_mean);
            let book = v(bar.ob_imbalance_mean);
            let strength = v(bar.absorption_score_max);
            let strong = strength > v(c.min_absorption_for_reversal);
            let threshold = v(c.absorption_ob_imbalance_threshold);
            let absorption = if strong && flow < 0real && book > threshold {
                strength
            } else if strong && flow > 0real && book < -threshold {
                -strength
            } else {
                0real
            };
            let buying = (v(bar.avg_buy_volume_pct) - 50real) / 50real;
            v(score_of(m, c, bar)) == flow * v(c.weight_fk_direction) + v(
                bar.aggression_shift_mean,
            ) * v(c.weight_aggression_shift) + book * v(c.weight_ob_imbalance) + absorption * v(
                c.weight_absorption,
            ) + buying * v(c.weight_buy_volume_pct)
        }),
{
    arith::lemma_whole_number(m, v, 50);
    arith::lemma_whole_number(m, v, 0);
}

/// A position that no stop, no target and no limit of time closes is left exactly
/// where the score has turned against it: a long where the score is below its
/// exit threshold, a short where the score is above its own.
pub proof fn law_reversal_turns_against_the_position<F>(
    m: Model<F>,
    c: StrategyConfig<F>,
    p: Position<F>,
    bar: AggregatedBar<F>,
)
    requires
        has_value(m, p),
        exit_of(m, c, p, bar) is None || exit_of(m, c, p, bar) == Some(ExitCause::SignalReversal),
    ensures
        p.state == PositionState::Long ==> (exit_of(m, c, p, bar) is Some <==> m.less(
            score_of(m, c, bar),
            c.long_exit_threshold,
        )),
        p.state == PositionState::Short ==> (exit_of(m, c, p, bar) is Some <==> m.less(
            c.short_exit_threshold,
            score_of(m, c, bar),
        )),
{
}

/// Longs and shorts are left alike: where the exit threshold of shorts is that of
/// longs with the other sign, a long and a short with the same figures, neither
/// with enough profit for the trailing stop, are left for the same cause, the one
/// at a bar and the other at its mirror image.
pub proof fn law_mirrored_bars_exit_alike<F>(
    m: Model<F>,
    c: StrategyConfig<F>,
    long: Position<F>,
    short: Position<F>,
    bar: AggregatedBar<F>,
    mirror: AggregatedBar<F>,
)
    requires
        arith::turns_signs(m),
        m.less(m.zero(), m.ratio(50, 1)),
        long.state == PositionState::Long,
        short == (Position { state: PositionState::Short, ..long }),
        is_mirror_of(m, bar, mirror),
        mirror.bar_end_ms == bar.bar_end_ms,
        arith::alike(m, c.short_exit_threshold, m.neg(c.long_exit_threshold)),
        !m.less_eq(
            c.trailing_stop_activation_pct,
            m.times(
                m.over(long.max_favorable, m.times(long.entry_price, long.quantity)),
                m.ratio(100, 1),
            ),
        ),
    ensures
        exit_of(m, c, long, bar) == exit_of(m, c, short, mirror),
{
    law_mirrored_bars_score_opposite(m, c, bar, mirror);
    let score = score_of(m, c, bar);
    let turned = score_of(m, c, mirror);
    let long_exit = c.long_exit_threshold;
    assert(m.less(c.short_exit_threshold, turned) == m.less(m.neg(long_exit), m.neg(score)));
    assert(m.less(m.neg(long_exit), m.neg(score)) == m.less(score, long_exit));
}

/// In exact arithmetic the causes for which a position is left, in their order:
/// a loss of at least the stop in percent of the entry value, a profit of at
/// least the target, a price that has come back from the best one by the trailing
/// distance once the profit was great enough, half the time limit without any
/// profit, the time limit without a profit now, and a score that has turned.
pub proof fn law_exit_causes_in_order<F>(
    m: Model<F>,
    v: spec_fn(F) -> real,
    c: StrategyConfig<F>,
    p: Position<F>,
    bar: AggregatedBar<F>,
)
    requires
        arith::is_exact(m, v),
        p.state != PositionState::Flat,
        v(p.quantity) > 0real,
        v(p.entry_price) > 0real,
        p.entry_time_ms <= bar.bar_end_ms,
    ensures
        ({
            let cause = exit_of(m, c, p, bar);
            let value = v(p.entry_price) * v(p.quantity);
            let gain_pct = v(p.unrealized_pnl) / value * 100real;
            let best_pct = v(p.max_favorable) / value * 100real;
            let best = v(p.max_favorable) / v(p.quantity);
            let distance = v(c.trailing_stop_distance_pct) / 100real;
            let trailed = if p.state == PositionState::Long {
                v(bar.close_price) <= (v(p.entry_price) + best) * (1real - distance)
            } else {
                v(bar.close_price) >= (v(p.entry_price) - best) * (1real + distance)
            };
            let held = bar.bar_end_ms - p.entry_time_ms;
            let stop = gain_pct <= -v(c.stop_loss_pct);
            let target = gain_pct >= v(c.take_profit_pct);
            let trailing = best_pct >= v(c.trailing_stop_activation_pct) && trailed;
            let stale = held > c.time_stop_ms / 2 && held >= c.stale_exit_min_bars
                * c.bar_duration_ms && v(p.max_favorable) <= 0real;
            let late = held > c.time_stop_ms && v(p.unrealized_pnl) <= 0real;
            &&& stop ==> cause == Some(ExitCause::StopLoss)
            &&& !stop && target ==> cause == Some(ExitCause::TakeProfit)
            &&& !stop && !target && trailing ==> cause == Some(ExitCause::TrailingStop)
            &&& !stop && !target && !trailing && stale ==> cause == Some(ExitCause::TimeStopStale)
            &&& !stop && !target && !trailing && !stale && late ==> cause == Some(
                ExitCause::TimeStop,
            )
            &&& !stop && !target && !trailing && !stale && !late ==> cause is None || cause == Some(
                ExitCause::SignalReversal,
            )
        }),
{
    arith::lemma_whole_number(m, v, 0);
    arith::lemma_whole_number(m, v, 100);
    arith::lemma_whole_number(m, v, 1);
    let (q, e) = (v(p.quantity), v(p.entry_price));
    assert(e * q > 0real) by (nonlinear_arith)
        requires
            q > 0real,
            e > 0real,
    ;
}

/// In exact arithmetic a new position, at the price at which it is entered, is
/// worth no more than allowed and loses no more at its stop than the part of the
/// equity put at risk, and one of the two is reached.
pub proof fn law_size_risks_what_is_allowed<F>(
    m: Model<F>,
    v: spec_fn(F) -> real,
    c: StrategyConfig<F>,
    equity: F,
    price: F,
)
    requires
        arith::is_exact(m, v),
    ensures
        ({
            let worth = v(size_of(m, c, equity, price)) * v(price);
            let loss_pct = worth * v(c.stop_loss_pct);
            let risk_pct = v(equity) * v(c.risk_per_trade_pct);
            &&& v(price) <= 0real || v(c.stop_loss_pct) <= 0real ==> v(
                size_of(m, c, equity, price),
            ) == 0real
            &&& v(price) > 0real && v(c.stop_loss_pct) > 0real ==> {
                &&& worth <= v(c.max_position_size_usd)
                &&& loss_pct <= risk_pct
                &&& worth == v(c.max_position_size_usd) || loss_pct == risk_pct
            }
        }),
{
    arith::lemma_whole_number(m, v, 0);
    arith::lemma_whole_number(m, v, 100);
    if v(price) > 0real && v(c.stop_loss_pct) > 0real {
        let p = v(price);
        let s = v(c.stop_loss_pct);
        let r = v(c.risk_per_trade_pct);
        let e = v(equity);
        let most = v(c.max_position_size_usd);
        let risk = r / 100real;
        let part = s / 100real;
        let wanted = (e * risk) / part;
        arith::lemma_quotient(e * risk, part);
        let allowed = if most < wanted {
            most
        } else {
            wanted
        };
        arith::lemma_quotient(allowed, p);
        assert(v(size_of(m, c, equity, price)) * p == allowed);
        assert(wanted * s == e * r) by (nonlinear_arith)
            requires
                wanted * part == e * risk,
                s == part * 100real,
                r == risk * 100real,
        ;
        assert(most < wanted ==> most * s <= wanted * s) by (nonlinear_arith)
            requires
                s > 0real,
        ;
    }
}

/// In exact arithmetic a circuit breaker trips exactly where the day's loss is
/// more than the limit in percent of the equity, or too many trades in a row have
/// lost.
pub proof fn law_breakers_trip_on_losses<F>(
    m: Model<F>,
    v: spec_fn(F) -> real,
    c: StrategyConfig<F>,
    e: EngineView<F>,
    bar: AggregatedBar<F>,
)
    requires
        arith::is_exact(m, v),
        e.active,
        v(e.equity) > 0real,
    ensures
        after_bar(m, c, e, bar).active <==> {
            &&& e.losses < c.max_consecutive_losses
            &&& v(e.daily_pnl) * 100real >= -v(c.daily_loss_limit_pct) * v(e.equity)
        },
{
    arith::lemma_whole_number(m, v, 0);
    arith::lemma_whole_number(m, v, 100);
    let (d, q, l) = (v(e.daily_pnl), v(e.equity), v(c.daily_loss_limit_pct));
    let part = d / q;
    arith::lemma_quotient(d, q);
    assert((part * 100real < -l) <==> (d * 100real < -l * q)) by (nonlinear_arith)
        requires
            part * q == d,
            q > 0real,
    ;
}

/// In exact arithmetic closing a position books what it has brought: a long what
/// the price has risen since its entry and a short what it has fallen, times the
/// quantity. The equity and the day's profit grow by it, it is a loss in a row
/// where it is below zero, and the engine is flat.
pub proof fn law_closing_books_the_profit<F>(
    m: Model<F>,
    v: spec_fn(F) -> real,
    symbol: Seq<char>,
    e: EngineView<F>,
    price: F,
    time_ms: u64,
    reason: Seq<char>,
)
    requires
        arith::is_exact(m, v),
        can_record(e),
        e.position.state != PositionState::Flat,
        v(e.position.entry_price) > 0real,
        e.position.entry_time_ms <= time_ms,
    ensures
        ({
            let after = closed(m, symbol, e, price, time_ms, reason);
            let trade = after.trades.last();
            let p = e.position;
            let rise = v(price) - v(p.entry_price);
            let change = if p.state == PositionState::Long {
                rise
            } else {
                -rise
            };
            &&& after.position.state == PositionState::Flat
            &&& v(after.position.quantity) == 0real
            &&& trade.side == (if p.state == PositionState::Long {
                Side::Buy
            } else {
                Side::Sell
            })
            &&& v(trade.pnl) == change * v(p.quantity)
            &&& v(trade.pnl_pct) * v(p.entry_price) == change * 100real
            &&& trade.symbol == symbol
            &&& trade.exit_reason == reason
            &&& trade.quantity == p.quantity
            &&& trade.entry_price == p.entry_price
            &&& trade.exit_price == price
            &&& trade.exit_time_ms == trade.entry_time_ms + trade.hold_duration_ms
            &&& trade.entry_time_ms == p.entry_time_ms
            &&& trade.exit_time_ms == time_ms
            &&& v(after.equity) - v(e.equity) == v(trade.pnl)
            &&& v(after.daily_pnl) - v(e.daily_pnl) == v(trade.pnl)
            &&& after.losses == (if v(trade.pnl) < 0real {
                e.losses + 1
            } else {
                0
            })
            &&& after.daily_start_equity == e.daily_start_equity
            &&& after.active == e.active
        }),
{
    arith::lemma_whole_number(m, v, 0);
    arith::lemma_whole_number(m, v, 100);
    let p = e.position;
    let (entry, exit, q) = (v(p.entry_price), v(price), v(p.quantity));
    arith::lemma_quotient(exit - entry, entry);
    arith::lemma_quotient(entry - exit, entry);
    let up = (exit - entry) / entry;
    let down = (entry - exit) / entry;
    assert((up * 100real) * entry == (exit - entry) * 100real) by (nonlinear_arith)
        requires
            up * entry == exit - entry,
    ;
    assert((down * 100real) * entry == -(exit - entry) * 100real) by (nonlinear_arith)
        requires
            down * entry == entry - exit,
    ;
    assert(-(exit - entry) == entry - exit);
}

/// In exact arithmetic a position at a new price has gained what the price has
/// moved in its favour since the entry, times the quantity.
pub proof fn law_gain_follows_the_price<F>(
    m: Model<F>,
    v: spec_fn(F) -> real,
    p: Position<F>,
    price: F,
)
    requires
        arith::is_exact(m, v),
        p.state != PositionState::Flat,
        v(p.quantity) != 0real,
    ensures
        ({
            let after = repriced(m, p, price);
            let rise = v(price) - v(p.entry_price);
            let gain = if p.state == PositionState::Long {
                rise * v(p.quantity)
            } else {
                (-rise) * v(p.quantity)
            };
            &&& v(after.unrealized_pnl) == gain
            &&& v(after.max_favorable) >= gain && v(after.max_favorable) >= v(p.max_favorable)
            &&& v(after.max_adverse) <= gain && v(after.max_adverse) <= v(p.max_adverse)
            &&& after.state == p.state && after.quantity == p.quantity && after.entry_price
                == p.entry_price && after.entry_time_ms == p.entry_time_ms
        }),
{
    arith::lemma_whole_number(m, v, 0);
    assert(-(v(price) - v(p.entry_price)) == v(p.entry_price) - v(price));
}

/// A position is entered at the close of the bar, at the bar's end, with the size
/// that the equity allows, and nothing else of the engine changes.
pub proof fn law_entry_opens_at_the_close<F>(
    m: Model<F>,
    c: StrategyConfig<F>,
    e: EngineView<F>,
    bar: AggregatedBar<F>,
)
    requires
        e.active,
        !trips(m, c, e),
        e.position.state == PositionState::Flat,
    ensures
        ({
            let after = after_bar(m, c, e, bar);
            let entry = entry_of(m, c, e.last_exit_ms, score_of(m, c, bar), bar);
            let size = size_of(m, c, e.equity, bar.close_price);
            let enters = !m.less_eq(size, m.zero());
            &&& entry == Signal::GoLong && enters ==> after.position.state == PositionState::Long
            &&& entry == Signal::GoShort && enters ==> after.position.state == PositionState::Short
            &&& entry == Signal::Hold || !enters ==> after.position == e.position
            &&& after.position.state != PositionState::Flat ==> {
                &&& after.position.entry_price == bar.close_price
                &&& after.position.entry_time_ms == bar.bar_end_ms
                &&& after.position.quantity == size
                &&& after.position.unrealized_pnl == m.zero()
            }
            &&& after == (EngineView { position: after.position, last_bar: Some(bar), ..e })
        }),
{
}

/// In exact arithmetic the engine takes over what the exchange tells: a balance
/// above zero as the equity, and the position in its direction and size, flat
/// where there is none; a call that failed changes nothing.
pub proof fn law_sync_takes_over_the_exchange<F>(
    m: Model<F>,
    v: spec_fn(F) -> real,
    e: EngineView<F>,
    now_ms: u64,
    balance: Result<F, String>,
    found: Result<Option<PositionInfo<F>>, String>,
)
    requires
        arith::is_exact(m, v),
    ensures
        ({
            let after = synced(m, e, now_ms, balance, found);
            &&& balance matches Ok(amount) ==> after.equity == (if v(amount) > 0real {
                amount
            } else {
                e.equity
            })
            &&& balance is Err ==> after.equity == e.equity
            &&& found is Err ==> after.position == e.position
            &&& found matches Ok(None) ==> after.position.state == PositionState::Flat && v(
                after.position.quantity,
            ) == 0real
            &&& found matches Ok(Some(info)) ==> {
                let held = v(info.position_amt);
                let p = after.position;
                &&& held > 0real ==> p.state == PositionState::Long && v(p.quantity) == held
                &&& held < 0real ==> p.state == PositionState::Short && v(p.quantity) == -held
                &&& held == 0real ==> p.state == PositionState::Flat
                &&& held != 0real ==> p.entry_price == info.entry_price && p.unrealized_pnl
                    == info.unrealized_pnl && p.entry_time_ms == now_ms
            }
            &&& after.trades == e.trades
            &&& after.losses == e.losses
            &&& after.active == e.active
            &&& after.last_exit_ms == e.last_exit_ms
        }),
{
    arith::lemma_whole_number(m, v, 0);
}

/// After an exit the engine opens nothing until the cooldown is over, counted to
/// the end of a bar; from then on the exit no longer bears on what it does.
pub proof fn law_cooldown_lasts_its_time<F>(
    m: Model<F>,
    c: StrategyConfig<F>,
    e: EngineView<F>,
    bar: AggregatedBar<F>,
)
    requires
        e.position.state == PositionState::Flat,
        0 < e.last_exit_ms <= bar.bar_end_ms,
    ensures
        bar.bar_end_ms < e.last_exit_ms + c.cooldown_after_loss_ms ==> bar_signal(m, c, e, bar)
            == Signal::Hold,
        bar.bar_end_ms >= e.last_exit_ms + c.cooldown_after_loss_ms ==> bar_signal(m, c, e, bar)
            == bar_signal(m, c, (EngineView { last_exit_ms: 0, ..e }), bar),
{
}

/// In exact arithmetic a position without a size or without a value is not left,
/// nor is one that there is not.
pub proof fn law_position_without_value_is_kept<F>(
    m: Model<F>,
    v: spec_fn(F) -> real,
    c: StrategyConfig<F>,
    p: Position<F>,
    bar: AggregatedBar<F>,
)
    requires
        arith::is_exact(m, v),
        p.state == PositionState::Flat || v(p.quantity) == 0real || v(p.entry_price) == 0real,
    ensures
        exit_of(m, c, p, bar) is None,
{
    arith::lemma_whole_number(m, v, 0);
    let (price, size) = (v(p.entry_price), v(p.quantity));
    if price == 0real || size == 0real {
        assert(price * size == 0real) by (nonlinear_arith)
            requires
                price == 0real || size == 0real,
        ;
    }
}

} // verus!

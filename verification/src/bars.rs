//! Bars: samples of a stretch of time rolled up into summary figures.

use vstd::prelude::*;

use crate::arith;
use crate::arith::{Arithmetic, Model};
use crate::signal::SignalSample;

verus! {

/// Samples rolled up into one bar.
#[derive(Debug)]
pub struct AggregatedBar<F> {
    /// Time of the first sample.
    pub bar_start_ms: u64,
    /// Time of the last sample.
    pub bar_end_ms: u64,
    pub sample_count: usize,
    pub open_price: F,
    pub close_price: F,
    pub high_price: F,
    pub low_price: F,
    pub avg_mid_price: F,
    pub ob_imbalance_mean: F,
    pub ob_imbalance_max: F,
    pub ob_imbalance_min: F,
    /// Slope of the imbalance over the samples.
    pub ob_imbalance_trend: F,
    pub avg_spread_bps: F,
    pub cum_net_qty_final: F,
    pub cum_ratio_final: F,
    pub fk_net_direction_mean: F,
    pub fk_net_direction_max: F,
    pub fk_net_direction_min: F,
    pub fk_net_direction_final: F,
    pub fk_buy_fill_total: F,
    pub fk_sell_fill_total: F,
    pub fk_buy_kill_total: F,
    pub fk_sell_kill_total: F,
    pub aggression_shift_mean: F,
    pub aggression_shift_max: F,
    pub aggression_shift_min: F,
    pub aggression_shift_final: F,
    pub absorption_score_max: F,
    pub absorption_score_mean: F,
    pub absorption_score_final: F,
    /// Most levels moved by a single buy burst.
    pub vd_buy_levels_max: u64,
    /// Most levels moved by a single sell burst.
    pub vd_sell_levels_max: u64,
    pub avg_impact_buy_slippage_bps: F,
    pub avg_impact_sell_slippage_bps: F,
    pub total_trade_volume: F,
    pub avg_buy_volume_pct: F,
    pub avg_trade_count_per_sec: F,
}

impl<F: Copy> Clone for AggregatedBar<F> {
    fn clone(&self) -> (copy: AggregatedBar<F>)
        ensures
            copy == *self,
    {
        AggregatedBar {
            bar_start_ms: self.bar_start_ms,
            bar_end_ms: self.bar_end_ms,
            sample_count: self.sample_count,
            open_price: self.open_price,
            close_price: self.close_price,
            high_price: self.high_price,
            low_price: self.low_price,
            avg_mid_price: self.avg_mid_price,
            ob_imbalance_mean: self.ob_imbalance_mean,
            ob_imbalance_max: self.ob_imbalance_max,
            ob_imbalance_min: self.ob_imbalance_min,
            ob_imbalance_trend: self.ob_imbalance_trend,
            avg_spread_bps: self.avg_spread_bps,
            cum_net_qty_final: self.cum_net_qty_final,
            cum_ratio_final: self.cum_ratio_final,
            fk_net_direction_mean: self.fk_net_direction_mean,
            fk_net_direction_max: self.fk_net_direction_max,
            fk_net_direction_min: self.fk_net_direction_min,
            fk_net_direction_final: self.fk_net_direction_final,
            fk_buy_fill_total: self.fk_buy_fill_total,
            fk_sell_fill_total: self.fk_sell_fill_total,
            fk_buy_kill_total: self.fk_buy_kill_total,
            fk_sell_kill_total: self.fk_sell_kill_total,
            aggression_shift_mean: self.aggression_shift_mean,
            aggression_shift_max: self.aggression_shift_max,
            aggression_shift_min: self.aggression_shift_min,
            aggression_shift_final: self.aggression_shift_final,
            absorption_score_max: self.absorption_score_max,
            absorption_score_mean: self.absorption_score_mean,
            absorption_score_final: self.absorption_score_final,
            vd_buy_levels_max: self.vd_buy_levels_max,
            vd_sell_levels_max: self.vd_sell_levels_max,
            avg_impact_buy_slippage_bps: self.avg_impact_buy_slippage_bps,
            avg_impact_sell_slippage_bps: self.avg_impact_sell_slippage_bps,
            total_trade_volume: self.total_trade_volume,
            avg_buy_volume_pct: self.avg_buy_volume_pct,
            avg_trade_count_per_sec: self.avg_trade_count_per_sec,
        }
    }
}

// ---------------------------------------------------------------------------
// Slope
// ---------------------------------------------------------------------------

/// The whole numbers from zero up to, but not including, `n`.
pub open spec fn steps<F>(m: Model<F>, n: nat) -> Seq<F> {
    Seq::new(n, |i: int| m.count(i as u64))
}

/// The squares of the whole numbers below `n`.
pub open spec fn squared_steps<F>(m: Model<F>, n: nat) -> Seq<F> {
    Seq::new(n, |i: int| m.square(m.count(i as u64)))
}

/// Each value times its index.
pub open spec fn weighted<F>(m: Model<F>, values: Seq<F>) -> Seq<F> {
    Seq::new(values.len(), |i: int| m.times(m.count(i as u64), values[i]))
}

/// The slope of the line through the values over their indices by least
/// squares; zero where there are fewer than two.
pub open spec fn slope_of<F>(m: Model<F>, values: Seq<F>) -> F {
    if values.len() < 2 {
        m.zero()
    } else {
        let n = m.count(values.len() as u64);
        let sum_x = m.sum(steps(m, values.len()));
        let sum_y = m.sum(values);
        let sum_xy = m.sum(weighted(m, values));
        let sum_x2 = m.sum(squared_steps(m, values.len()));
        let denominator = m.minus(m.times(n, sum_x2), m.times(sum_x, sum_x));
        if m.less(m.abs(denominator), m.ratio(1, 10_000_000_000)) {
            m.zero()
        } else {
            m.over(m.minus(m.times(n, sum_xy), m.times(sum_x, sum_y)), denominator)
        }
    }
}

/// The slope of the line through the values over their indices by least
/// squares.
pub fn linear_slope<F: Copy, A: Arithmetic<F>>(a: &A, values: &Vec<F>) -> (slope: F)
    ensures
        forall|m: Model<F>| #[trigger] arith::describes(m, *a) ==> slope == slope_of(m, values@),
{
    let len: usize = values.len();
    if len < 2 {
        return arith::zero(a);
    }
    let mut xs: Vec<F> = Vec::new();
    let mut xys: Vec<F> = Vec::new();
    let mut squares: Vec<F> = Vec::new();
    let mut i: usize = 0;
    while i < len
        invariant
            i <= len,
            len == values.len(),
            forall|m: Model<F>| #[trigger]
                arith::describes(m, *a) ==> xs@ == steps(m, i as nat) && squares@ == squared_steps(
                    m,
                    i as nat,
                ) && xys@ == weighted(m, values@.take(i as int)),
        decreases len - i,
    {
        let x: F = arith::count(a, i as u64);
        xs.push(x);
        squares.push(arith::square(a, x));
        xys.push(arith::times(a, x, values[i]));
        i += 1;
        proof {
            assert forall|m: Model<F>| #[trigger] arith::describes(m, *a) implies xs@ == steps(
                m,
                i as nat,
            ) && squares@ == squared_steps(m, i as nat) && xys@ == weighted(
                m,
                values@.take(i as int),
            ) by {
                assert(xs@ =~= steps(m, i as nat));
                assert(squares@ =~= squared_steps(m, i as nat));
                assert(xys@ =~= weighted(m, values@.take(i as int)));
            }
        }
    }
    proof {
        assert(values@.take(len as int) =~= values@);
    }
    let n: F = arith::count(a, len as u64);
    let sum_x: F = arith::sum(a, &xs);
    let sum_y: F = arith::sum(a, values);
    let sum_xy: F = arith::sum(a, &xys);
    let sum_x2: F = arith::sum(a, &squares);
    let left: F = arith::times(a, n, sum_x2);
    let right: F = arith::times(a, sum_x, sum_x);
    let denominator: F = arith::minus(a, left, right);
    let size: F = arith::abs(a, denominator);
    if arith::less(a, size, arith::ratio(a, 1, 10_000_000_000)) {
        return arith::zero(a);
    }
    let up: F = arith::times(a, n, sum_xy);
    let down: F = arith::times(a, sum_x, sum_y);
    let numerator: F = arith::minus(a, up, down);
    arith::over(a, numerator, denominator)
}

// ---------------------------------------------------------------------------
// Columns of samples
// ---------------------------------------------------------------------------

/// A figure that every sample has.
#[derive(Clone, Copy, Debug, PartialEq, Eq, Structural)]
pub enum Column {
    MidPrice,
    SpreadBps,
    ObImbalance,
    FkNetDirection,
    FkBuyFill,
    FkSellFill,
    FkBuyKill,
    FkSellKill,
    AggressionShift,
    AbsorptionScore,
    ImpactBuySlippage,
    ImpactSellSlippage,
    TradeVolume,
    BuyVolumePct,
}

/// The figure of a sample.
pub open spec fn cell<F>(sample: SignalSample<F>, column: Column) -> F {
    match column {
        Column::MidPrice => sample.mid_price,
        Column::SpreadBps => sample.spread_bps,
        Column::ObImbalance => sample.ob_imbalance,
        Column::FkNetDirection => sample.fk_net_direction,
        Column::FkBuyFill => sample.fk_buy_fill_qty,
        Column::FkSellFill => sample.fk_sell_fill_qty,
        Column::FkBuyKill => sample.fk_buy_kill_qty,
        Column::FkSellKill => sample.fk_sell_kill_qty,
        Column::AggressionShift => sample.aggression_shift,
        Column::AbsorptionScore => sample.absorption_score,
        Column::ImpactBuySlippage => sample.impact_buy_slippage_bps,
        Column::ImpactSellSlippage => sample.impact_sell_slippage_bps,
        Column::TradeVolume => sample.trade_volume_1s,
        Column::BuyVolumePct => sample.buy_volume_pct_1s,
    }
}

/// The figures of all samples.
pub open spec fn cells<F>(samples: Seq<SignalSample<F>>, column: Column) -> Seq<F> {
    Seq::new(samples.len(), |i: int| cell(samples[i], column))
}

/// The trade counts of all samples as numbers.
pub open spec fn trade_counts<F>(m: Model<F>, samples: Seq<SignalSample<F>>) -> Seq<F> {
    Seq::new(samples.len(), |i: int| m.count(samples[i].trade_count_1s))
}

/// The figure of a sample.
fn cell_of<F: Copy>(sample: &SignalSample<F>, column: Column) -> (value: F)
    ensures
        value == cell(*sample, column),
{
    match column {
        Column::MidPrice => sample.mid_price,
        Column::SpreadBps => sample.spread_bps,
        Column::ObImbalance => sample.ob_imbalance,
        Column::FkNetDirection => sample.fk_net_direction,
        Column::FkBuyFill => sample.fk_buy_fill_qty,
        Column::FkSellFill => sample.fk_sell_fill_qty,
        Column::FkBuyKill => sample.fk_buy_kill_qty,
        Column::FkSellKill => sample.fk_sell_kill_qty,
        Column::AggressionShift => sample.aggression_shift,
        Column::AbsorptionScore => sample.absorption_score,
        Column::ImpactBuySlippage => sample.impact_buy_slippage_bps,
        Column::ImpactSellSlippage => sample.impact_sell_slippage_bps,
        Column::TradeVolume => sample.trade_volume_1s,
        Column::BuyVolumePct => sample.buy_volume_pct_1s,
    }
}

/// The figures of all samples.
fn column_of<F: Copy>(samples: &Vec<SignalSample<F>>, column: Column) -> (list: Vec<F>)
    ensures
        list@ == cells(samples@, column),
{
    let mut list: Vec<F> = Vec::new();
    let mut i: usize = 0;
    while i < samples.len()
        invariant
            i <= samples.len(),
            list@ == cells(samples@.take(i as int), column),
        decreases samples.len() - i,
    {
        list.push(cell_of(&samples[i], column));
        i += 1;
        proof {
            assert(list@ =~= cells(samples@.take(i as int), column));
        }
    }
    proof {
        assert(samples@.take(samples@.len() as int) =~= samples@);
    }
    list
}

/// The trade counts of all samples as numbers.
fn trade_count_column<F: Copy, A: Arithmetic<F>>(
    a: &A,
    samples: &Vec<SignalSample<F>>,
) -> (list: Vec<F>)
    ensures
        list.len() == samples.len(),
        forall|m: Model<F>| #[trigger]
            arith::describes(m, *a) ==> list@ == trade_counts(m, samples@),
{
    let mut list: Vec<F> = Vec::new();
    let mut i: usize = 0;
    while i < samples.len()
        invariant
            i <= samples.len(),
            list.len() == i,
            forall|m: Model<F>| #[trigger]
                arith::describes(m, *a) ==> list@ == trade_counts(m, samples@.take(i as int)),
        decreases samples.len() - i,
    {
        list.push(arith::count(a, samples[i].trade_count_1s));
        i += 1;
        proof {
            assert forall|m: Model<F>| #[trigger] arith::describes(m, *a) implies list@
                == trade_counts(m, samples@.take(i as int)) by {
                assert(list@ =~= trade_counts(m, samples@.take(i as int)));
            }
        }
    }
    proof {
        assert(samples@.take(samples@.len() as int) =~= samples@);
    }
    list
}

/// The most levels that a burst of one side moved.
pub open spec fn most_levels<F>(samples: Seq<SignalSample<F>>, buys: bool) -> u64
    decreases samples.len(),
{
    if samples.len() == 0 {
        0
    } else {
        let before = most_levels(samples.drop_last(), buys);
        let last = if buys {
            samples.last().vd_buy_levels
        } else {
            samples.last().vd_sell_levels
        };
        if last > before {
            last
        } else {
            before
        }
    }
}

/// The most levels that a burst of one side moved.
fn levels_moved<F>(samples: &Vec<SignalSample<F>>, buys: bool) -> (most: u64)
    ensures
        most == most_levels(samples@, buys),
{
    let mut most: u64 = 0;
    let mut i: usize = 0;
    while i < samples.len()
        invariant
            i <= samples.len(),
            most == most_levels(samples@.take(i as int), buys),
        decreases samples.len() - i,
    {
        proof {
            assert(samples@.take(i as int + 1).drop_last() =~= samples@.take(i as int));
        }
        let levels: u64 = if buys {
            samples[i].vd_buy_levels
        } else {
            samples[i].vd_sell_levels
        };
        if levels > most {
            most = levels;
        }
        i += 1;
    }
    proof {
        assert(samples@.take(samples@.len() as int) =~= samples@);
    }
    most
}

// ---------------------------------------------------------------------------
// Aggregation
// ---------------------------------------------------------------------------

/// The bar that samples roll up to.
pub open spec fn bar_of<F>(m: Model<F>, samples: Seq<SignalSample<F>>) -> AggregatedBar<F> {
    let col = |column: Column| cells(samples, column);
    AggregatedBar {
        bar_start_ms: samples[0].timestamp_ms,
        bar_end_ms: samples.last().timestamp_ms,
        sample_count: samples.len() as usize,
        open_price: samples[0].mid_price,
        close_price: samples.last().mid_price,
        high_price: m.greatest(col(Column::MidPrice)),
        low_price: m.least(col(Column::MidPrice)),
        avg_mid_price: m.mean(col(Column::MidPrice)),
        ob_imbalance_mean: m.mean(col(Column::ObImbalance)),
        ob_imbalance_max: m.greatest(col(Column::ObImbalance)),
        ob_imbalance_min: m.least(col(Column::ObImbalance)),
        ob_imbalance_trend: slope_of(m, col(Column::ObImbalance)),
        avg_spread_bps: m.mean(col(Column::SpreadBps)),
        cum_net_qty_final: samples.last().cum_net_qty,
        cum_ratio_final: samples.last().cum_ratio,
        fk_net_direction_mean: m.mean(col(Column::FkNetDirection)),
        fk_net_direction_max: m.greatest(col(Column::FkNetDirection)),
        fk_net_direction_min: m.least(col(Column::FkNetDirection)),
        fk_net_direction_final: samples.last().fk_net_direction,
        fk_buy_fill_total: m.sum(col(Column::FkBuyFill)),
        fk_sell_fill_total: m.sum(col(Column::FkSellFill)),
        fk_buy_kill_total: m.sum(col(Column::FkBuyKill)),
        fk_sell_kill_total: m.sum(col(Column::FkSellKill)),
        aggression_shift_mean: m.mean(col(Column::AggressionShift)),
        aggression_shift_max: m.greatest(col(Column::AggressionShift)),
        aggression_shift_min: m.least(col(Column::AggressionShift)),
        aggression_shift_final: samples.last().aggression_shift,
        absorption_score_max: m.greatest(col(Column::AbsorptionScore)),
        absorption_score_mean: m.mean(col(Column::AbsorptionScore)),
        absorption_score_final: samples.last().absorption_score,
        vd_buy_levels_max: most_levels(samples, true),
        vd_sell_levels_max: most_levels(samples, false),
        avg_impact_buy_slippage_bps: m.mean(col(Column::ImpactBuySlippage)),
        avg_impact_sell_slippage_bps: m.mean(col(Column::ImpactSellSlippage)),
        total_trade_volume: m.sum(col(Column::TradeVolume)),
        avg_buy_volume_pct: m.mean(col(Column::BuyVolumePct)),
        avg_trade_count_per_sec: m.mean(trade_counts(m, samples)),
    }
}

/// Whether a bar carries over what its samples give without arithmetic.
pub open spec fn frames<F>(samples: Seq<SignalSample<F>>, bar: AggregatedBar<F>) -> bool {
    &&& bar.bar_start_ms == samples[0].timestamp_ms
    &&& bar.bar_end_ms == samples.last().timestamp_ms
    &&& bar.sample_count == samples.len()
    &&& bar.open_price == samples[0].mid_price
    &&& bar.close_price == samples.last().mid_price
    &&& bar.vd_buy_levels_max == most_levels(samples, true)
    &&& bar.vd_sell_levels_max == most_levels(samples, false)
}

/// Rolls samples up into a bar.
pub fn aggregate<F: Copy, A: Arithmetic<F>>(
    a: &A,
    samples: &Vec<SignalSample<F>>,
) -> (bar: AggregatedBar<F>)
    requires
        samples.len() > 0,
    ensures
        frames(samples@, bar),
        forall|m: Model<F>| #[trigger] arith::describes(m, *a) ==> bar == bar_of(m, samples@),
{
    let first: &SignalSample<F> = &samples[0];
    let last: &SignalSample<F> = &samples[samples.len() - 1];
    let mids: Vec<F> = column_of(samples, Column::MidPrice);
    let imbalances: Vec<F> = column_of(samples, Column::ObImbalance);
    let directions: Vec<F> = column_of(samples, Column::FkNetDirection);
    let shifts: Vec<F> = column_of(samples, Column::AggressionShift);
    let absorptions: Vec<F> = column_of(samples, Column::AbsorptionScore);
    AggregatedBar {
        bar_start_ms: first.timestamp_ms,
        bar_end_ms: last.timestamp_ms,
        sample_count: samples.len(),
        open_price: first.mid_price,
        close_price: last.mid_price,
        high_price: arith::greatest(a, &mids),
        low_price: arith::least(a, &mids),
        avg_mid_price: arith::mean(a, &mids),
        ob_imbalance_mean: arith::mean(a, &imbalances),
        ob_imbalance_max: arith::greatest(a, &imbalances),
        ob_imbalance_min: arith::least(a, &imbalances),
        ob_imbalance_trend: linear_slope(a, &imbalances),
        avg_spread_bps: arith::mean(a, &column_of(samples, Column::SpreadBps)),
        cum_net_qty_final: last.cum_net_qty,
        cum_ratio_final: last.cum_ratio,
        fk_net_direction_mean: arith::mean(a, &directions),
        fk_net_direction_max: arith::greatest(a, &directions),
        fk_net_direction_min: arith::least(a, &directions),
        fk_net_direction_final: last.fk_net_direction,
        fk_buy_fill_total: arith::sum(a, &column_of(samples, Column::FkBuyFill)),
        fk_sell_fill_total: arith::sum(a, &column_of(samples, Column::FkSellFill)),
        fk_buy_kill_total: arith::sum(a, &column_of(samples, Column::FkBuyKill)),
        fk_sell_kill_total: arith::sum(a, &column_of(samples, Column::FkSellKill)),
        aggression_shift_mean: arith::mean(a, &shifts),
        aggression_shift_max: arith::greatest(a, &shifts),
        aggression_shift_min: arith::least(a, &shifts),
        aggression_shift_final: last.aggression_shift,
        absorption_score_max: arith::greatest(a, &absorptions),
        absorption_score_mean: arith::mean(a, &absorptions),
        absorption_score_final: last.absorption_score,
        vd_buy_levels_max: levels_moved(samples, true),
        vd_sell_levels_max: levels_moved(samples, false),
        avg_impact_buy_slippage_bps: arith::mean(a, &column_of(samples, Column::ImpactBuySlippage)),
        avg_impact_sell_slippage_bps: arith::mean(
            a,
            &column_of(samples, Column::ImpactSellSlippage),
        ),
        total_trade_volume: arith::sum(a, &column_of(samples, Column::TradeVolume)),
        avg_buy_volume_pct: arith::mean(a, &column_of(samples, Column::BuyVolumePct)),
        avg_trade_count_per_sec: arith::mean(a, &trade_count_column(a, samples)),
    }
}

/// The state of an aggregator: the samples of the unfinished bar, the time at
/// which that bar started, and how long a bar is.
#[verifier::ext_equal]
pub struct BarState<F> {
    pub pending: Seq<SignalSample<F>>,
    pub start: u64,
    pub duration: u64,
}

/// The time at which the unfinished bar ends once `sample` has come: a bar
/// starts with its first sample.
pub open spec fn boundary<F>(state: BarState<F>, sample: SignalSample<F>) -> int {
    if state.pending.len() == 0 {
        sample.timestamp_ms + state.duration
    } else {
        state.start + state.duration
    }
}

/// Whether a sample finishes the bar: there are samples before it, and it comes
/// at the boundary or later.
pub open spec fn finishes<F>(state: BarState<F>, sample: SignalSample<F>) -> bool {
    state.pending.len() > 0 && sample.timestamp_ms >= boundary(state, sample)
}

/// The state after a sample.
pub open spec fn stepped<F>(state: BarState<F>, sample: SignalSample<F>) -> BarState<F> {
    if finishes(state, sample) {
        BarState { pending: seq![sample], start: sample.timestamp_ms, duration: state.duration }
    } else {
        BarState {
            pending: state.pending.push(sample),
            start: if state.pending.len() == 0 {
                sample.timestamp_ms
            } else {
                state.start
            },
            duration: state.duration,
        }
    }
}

/// Collects samples and closes a bar when one comes at or after its end.
pub struct SignalBarAggregator<F> {
    bar_duration_ms: u64,
    samples: Vec<SignalSample<F>>,
    current_bar_start_ms: u64,
}

impl<F: Copy> SignalBarAggregator<F> {
    /// The state of the aggregator.
    pub closed spec fn state(&self) -> BarState<F> {
        BarState {
            pending: self.samples@,
            start: self.current_bar_start_ms,
            duration: self.bar_duration_ms,
        }
    }

    /// An aggregator without samples.
    pub fn new(bar_duration_ms: u64) -> (aggregator: SignalBarAggregator<F>)
        ensures
            aggregator.state() == (BarState::<F> {
                pending: Seq::empty(),
                start: 0,
                duration: bar_duration_ms,
            }),
    {
        SignalBarAggregator { bar_duration_ms, samples: Vec::new(), current_bar_start_ms: 0 }
    }

    /// Takes a sample. Where it comes at or after the end of the unfinished
    /// bar, that bar is closed without it and returned, and the sample starts
    /// the next one.
    pub fn push<A: Arithmetic<F>>(
        &mut self,
        a: &A,
        sample: SignalSample<F>,
    ) -> (completed: Option<AggregatedBar<F>>)
        requires
            boundary(old(self).state(), sample) <= u64::MAX,
        ensures
            final(self).state() == stepped(old(self).state(), sample),
            completed is Some <==> finishes(old(self).state(), sample),
            completed matches Some(bar) ==> frames(old(self).state().pending, bar) && forall|
                m: Model<F>,
            | #[trigger]
                arith::describes(m, *a) ==> bar == bar_of(m, old(self).state().pending),
    {
        if self.samples.len() == 0 {
            self.current_bar_start_ms = sample.timestamp_ms;
        }
        let next_boundary: u64 = self.current_bar_start_ms + self.bar_duration_ms;
        let mut completed: Option<AggregatedBar<F>> = None;
        if sample.timestamp_ms >= next_boundary && self.samples.len() > 0 {
            completed = Some(aggregate(a, &self.samples));
            self.samples.clear();
            self.current_bar_start_ms = sample.timestamp_ms;
        }
        self.samples.push(sample);
        proof {
            assert(self.samples@ =~= stepped(old(self).state(), sample).pending);
        }
        completed
    }

    /// Closes the unfinished bar, if it has samples.
    pub fn flush<A: Arithmetic<F>>(&mut self, a: &A) -> (completed: Option<AggregatedBar<F>>)
        ensures
            final(self).state() == (BarState { pending: Seq::empty(), ..old(self).state() }),
            completed is Some <==> old(self).state().pending.len() > 0,
            completed matches Some(bar) ==> frames(old(self).state().pending, bar) && forall|
                m: Model<F>,
            | #[trigger]
                arith::describes(m, *a) ==> bar == bar_of(m, old(self).state().pending),
    {
        if self.samples.len() == 0 {
            proof {
                assert(self.samples@ =~= Seq::empty());
            }
            return None;
        }
        let bar: AggregatedBar<F> = aggregate(a, &self.samples);
        self.samples.clear();
        proof {
            assert(self.samples@ =~= Seq::empty());
        }
        Some(bar)
    }
}

// ---------------------------------------------------------------------------
// Laws
// ---------------------------------------------------------------------------

/// The state after a list of samples.
pub open spec fn run<F>(state: BarState<F>, samples: Seq<SignalSample<F>>) -> BarState<F>
    decreases samples.len(),
{
    if samples.len() == 0 {
        state
    } else {
        stepped(run(state, samples.drop_last()), samples.last())
    }
}

/// The samples of the bars that a list of samples finishes, bar by bar.
pub open spec fn finished<F>(
    state: BarState<F>,
    samples: Seq<SignalSample<F>>,
) -> Seq<Seq<SignalSample<F>>>
    decreases samples.len(),
{
    if samples.len() == 0 {
        Seq::empty()
    } else {
        let before = run(state, samples.drop_last());
        let bars = finished(state, samples.drop_last());
        if finishes(before, samples.last()) {
            bars.push(before.pending)
        } else {
            bars
        }
    }
}

/// The samples of some bars one behind the other.
pub open spec fn flattened<F>(bars: Seq<Seq<SignalSample<F>>>) -> Seq<SignalSample<F>>
    decreases bars.len(),
{
    if bars.len() == 0 {
        Seq::empty()
    } else {
        flattened(bars.drop_last()) + bars.last()
    }
}

/// No sample is lost or counted twice: the samples of the finished bars and
/// those of the unfinished one are the samples that came, in their order.
pub proof fn law_bars_partition_the_samples<F>(state: BarState<F>, samples: Seq<SignalSample<F>>)
    requires
        state.pending.len() == 0,
    ensures
        flattened(finished(state, samples)) + run(state, samples).pending == samples,
    decreases samples.len(),
{
    if samples.len() == 0 {
        assert(flattened(finished(state, samples)) + run(state, samples).pending =~= samples);
    } else {
        let front = samples.drop_last();
        law_bars_partition_the_samples(state, front);
        let before = run(state, front);
        let bars = finished(state, front);
        let all = finished(state, samples);
        let after = run(state, samples);
        if finishes(before, samples.last()) {
            assert(all.drop_last() =~= bars);
            assert(flattened(all) + after.pending =~= flattened(bars) + before.pending + seq![
                samples.last(),
            ]);
        } else {
            assert(flattened(all) + after.pending =~= (flattened(bars) + before.pending).push(
                samples.last(),
            ));
        }
        assert((flattened(bars) + before.pending).push(samples.last()) =~= samples);
    }
}

/// Every sample of the unfinished bar but its first came before the bar's end,
/// and the bar starts with its first sample.
pub proof fn law_pending_samples_lie_within_the_bar<F>(
    state: BarState<F>,
    samples: Seq<SignalSample<F>>,
)
    requires
        state.pending.len() == 0,
    ensures
        ({
            let after = run(state, samples);
            &&& after.duration == state.duration
            &&& after.pending.len() > 0 ==> after.pending[0].timestamp_ms == after.start
            &&& forall|i: int|
                0 < i < after.pending.len() ==> (#[trigger] after.pending[i]).timestamp_ms
                    < after.start + after.duration
        }),
    decreases samples.len(),
{
    if samples.len() > 0 {
        law_pending_samples_lie_within_the_bar(state, samples.drop_last());
    }
}

/// The values of a figure in all samples.
pub open spec fn figure_values<F>(
    v: spec_fn(F) -> real,
    samples: Seq<SignalSample<F>>,
    figure: spec_fn(SignalSample<F>) -> F,
) -> Seq<real> {
    Seq::new(samples.len(), |i: int| v(figure(samples[i])))
}

/// Whether a number is the mean of a figure over all samples: as often as there
/// are samples, it makes up the sum of the figure over them, and it lies within
/// all bounds within which the figure lies.
pub open spec fn is_mean<F>(
    v: spec_fn(F) -> real,
    samples: Seq<SignalSample<F>>,
    figure: spec_fn(SignalSample<F>) -> F,
    mean: F,
) -> bool {
    &&& v(mean) * (samples.len() as real) == arith::total(figure_values(v, samples, figure))
    &&& exists|i: int| 0 <= i < samples.len() && v(figure(#[trigger] samples[i])) <= v(mean)
    &&& exists|i: int| 0 <= i < samples.len() && v(mean) <= v(figure(#[trigger] samples[i]))
}

/// Whether a number is the sum of a figure over all samples.
pub open spec fn is_total<F>(
    v: spec_fn(F) -> real,
    samples: Seq<SignalSample<F>>,
    figure: spec_fn(SignalSample<F>) -> F,
    sum: F,
) -> bool {
    v(sum) == arith::total(figure_values(v, samples, figure))
}

/// In exact arithmetic the means and totals of a bar are those of each figure
/// over all its samples.
pub proof fn law_bar_averages_its_samples<F>(
    m: Model<F>,
    v: spec_fn(F) -> real,
    samples: Seq<SignalSample<F>>,
)
    requires
        arith::is_exact(m, v),
        0 < samples.len() <= u64::MAX,
    ensures
        ({
            let bar = bar_of(m, samples);
            &&& is_mean(v, samples, |s: SignalSample<F>| s.mid_price, bar.avg_mid_price)
            &&& is_mean(v, samples, |s: SignalSample<F>| s.ob_imbalance, bar.ob_imbalance_mean)
            &&& is_mean(v, samples, |s: SignalSample<F>| s.spread_bps, bar.avg_spread_bps)
            &&& is_mean(
                v,
                samples,
                |s: SignalSample<F>| s.fk_net_direction,
                bar.fk_net_direction_mean,
            )
            &&& is_mean(
                v,
                samples,
                |s: SignalSample<F>| s.aggression_shift,
                bar.aggression_shift_mean,
            )
            &&& is_mean(
                v,
                samples,
                |s: SignalSample<F>| s.absorption_score,
                bar.absorption_score_mean,
            )
            &&& is_mean(
                v,
                samples,
                |s: SignalSample<F>| s.impact_buy_slippage_bps,
                bar.avg_impact_buy_slippage_bps,
            )
            &&& is_mean(
                v,
                samples,
                |s: SignalSample<F>| s.impact_sell_slippage_bps,
                bar.avg_impact_sell_slippage_bps,
            )
            &&& is_mean(
                v,
                samples,
                |s: SignalSample<F>| s.buy_volume_pct_1s,
                bar.avg_buy_volume_pct,
            )
            &&& is_mean(
                v,
                samples,
                |s: SignalSample<F>| m.count(s.trade_count_1s),
                bar.avg_trade_count_per_sec,
            )
            &&& is_total(v, samples, |s: SignalSample<F>| s.fk_buy_fill_qty, bar.fk_buy_fill_total)
            &&& is_total(
                v,
                samples,
                |s: SignalSample<F>| s.fk_sell_fill_qty,
                bar.fk_sell_fill_total,
            )
            &&& is_total(v, samples, |s: SignalSample<F>| s.fk_buy_kill_qty, bar.fk_buy_kill_total)
            &&& is_total(
                v,
                samples,
                |s: SignalSample<F>| s.fk_sell_kill_qty,
                bar.fk_sell_kill_total,
            )
            &&& is_total(v, samples, |s: SignalSample<F>| s.trade_volume_1s, bar.total_trade_volume)
        }),
{
    lemma_column_mean(m, v, samples, Column::MidPrice, |s: SignalSample<F>| s.mid_price);
    lemma_column_mean(m, v, samples, Column::ObImbalance, |s: SignalSample<F>| s.ob_imbalance);
    lemma_column_mean(m, v, samples, Column::SpreadBps, |s: SignalSample<F>| s.spread_bps);
    lemma_column_mean(
        m,
        v,
        samples,
        Column::FkNetDirection,
        |s: SignalSample<F>| s.fk_net_direction,
    );
    lemma_column_mean(
        m,
        v,
        samples,
        Column::AggressionShift,
        |s: SignalSample<F>| s.aggression_shift,
    );
    lemma_column_mean(
        m,
        v,
        samples,
        Column::AbsorptionScore,
        |s: SignalSample<F>| s.absorption_score,
    );
    lemma_column_mean(
        m,
        v,
        samples,
        Column::ImpactBuySlippage,
        |s: SignalSample<F>| s.impact_buy_slippage_bps,
    );
    lemma_column_mean(
        m,
        v,
        samples,
        Column::ImpactSellSlippage,
        |s: SignalSample<F>| s.impact_sell_slippage_bps,
    );
    lemma_column_mean(
        m,
        v,
        samples,
        Column::BuyVolumePct,
        |s: SignalSample<F>| s.buy_volume_pct_1s,
    );
    lemma_column_total(m, v, samples, Column::FkBuyFill, |s: SignalSample<F>| s.fk_buy_fill_qty);
    lemma_column_total(m, v, samples, Column::FkSellFill, |s: SignalSample<F>| s.fk_sell_fill_qty);
    lemma_column_total(m, v, samples, Column::FkBuyKill, |s: SignalSample<F>| s.fk_buy_kill_qty);
    lemma_column_total(m, v, samples, Column::FkSellKill, |s: SignalSample<F>| s.fk_sell_kill_qty);
    lemma_column_total(m, v, samples, Column::TradeVolume, |s: SignalSample<F>| s.trade_volume_1s);
    lemma_list_mean(
        m,
        v,
        samples,
        trade_counts(m, samples),
        |s: SignalSample<F>| m.count(s.trade_count_1s),
    );
}

/// The mean of a list that holds a figure of all samples is the mean of it.
proof fn lemma_list_mean<F>(
    m: Model<F>,
    v: spec_fn(F) -> real,
    samples: Seq<SignalSample<F>>,
    list: Seq<F>,
    figure: spec_fn(SignalSample<F>) -> F,
)
    requires
        arith::is_exact(m, v),
        0 < samples.len() <= u64::MAX,
        list.len() == samples.len(),
        forall|i: int| 0 <= i < samples.len() ==> #[trigger] list[i] == figure(samples[i]),
    ensures
        is_mean(v, samples, figure, m.mean(list)),
{
    let mean = m.mean(list);
    assert(arith::values(v, list) =~= figure_values(v, samples, figure));
    arith::law_mean_makes_up_the_sum(m, v, list);
    let all = figure_values(v, samples, figure);
    let n = samples.len() as real;
    if forall|i: int| 0 <= i < samples.len() ==> v(figure(#[trigger] samples[i])) > v(mean) {
        lemma_total_above(all, v(mean));
    }
    if forall|i: int| 0 <= i < samples.len() ==> v(figure(#[trigger] samples[i])) < v(mean) {
        lemma_total_below(all, v(mean));
    }
}

/// Values that are all above a bound make up more than as many times the bound.
proof fn lemma_total_above(list: Seq<real>, low: real)
    requires
        list.len() > 0,
        forall|i: int| 0 <= i < list.len() ==> low < #[trigger] list[i],
    ensures
        low * (list.len() as real) < arith::total(list),
    decreases list.len(),
{
    let front = list.drop_last();
    let k = front.len() as real;
    assert(list.len() as real == k + 1real);
    assert(low * (k + 1real) == low * k + low) by (nonlinear_arith);
    assert(low < list[list.len() - 1]);
    if front.len() > 0 {
        assert forall|i: int| 0 <= i < front.len() implies low < #[trigger] front[i] by {
            assert(front[i] == list[i]);
        }
        lemma_total_above(front, low);
    } else {
        assert(k == 0real);
        assert(low * 0real == 0real) by (nonlinear_arith);
    }
}

/// Values that are all below a bound make up less than as many times the bound.
proof fn lemma_total_below(list: Seq<real>, high: real)
    requires
        list.len() > 0,
        forall|i: int| 0 <= i < list.len() ==> #[trigger] list[i] < high,
    ensures
        arith::total(list) < high * (list.len() as real),
    decreases list.len(),
{
    let front = list.drop_last();
    let k = front.len() as real;
    assert(list.len() as real == k + 1real);
    assert(high * (k + 1real) == high * k + high) by (nonlinear_arith);
    assert(list[list.len() - 1] < high);
    if front.len() > 0 {
        assert forall|i: int| 0 <= i < front.len() implies #[trigger] front[i] < high by {
            assert(front[i] == list[i]);
        }
        lemma_total_below(front, high);
    } else {
        assert(k == 0real);
        assert(high * 0real == 0real) by (nonlinear_arith);
    }
}

/// The mean of a column is the mean of its figure.
proof fn lemma_column_mean<F>(
    m: Model<F>,
    v: spec_fn(F) -> real,
    samples: Seq<SignalSample<F>>,
    column: Column,
    figure: spec_fn(SignalSample<F>) -> F,
)
    requires
        arith::is_exact(m, v),
        0 < samples.len() <= u64::MAX,
        forall|s: SignalSample<F>| cell(s, column) == #[trigger] figure(s),
    ensures
        is_mean(v, samples, figure, m.mean(cells(samples, column))),
{
    let list = cells(samples, column);
    assert forall|i: int| 0 <= i < samples.len() implies #[trigger] list[i] == figure(
        samples[i],
    ) by {
        assert(cell(samples[i], column) == figure(samples[i]));
    }
    lemma_list_mean(m, v, samples, list, figure);
}

/// The sum of a column is the sum of its figure.
proof fn lemma_column_total<F>(
    m: Model<F>,
    v: spec_fn(F) -> real,
    samples: Seq<SignalSample<F>>,
    column: Column,
    figure: spec_fn(SignalSample<F>) -> F,
)
    requires
        arith::is_exact(m, v),
        forall|s: SignalSample<F>| cell(s, column) == #[trigger] figure(s),
    ensures
        is_total(v, samples, figure, m.sum(cells(samples, column))),
{
    let list = cells(samples, column);
    arith::law_sum_is_the_total(m, v, list);
    assert forall|i: int| 0 <= i < samples.len() implies v(#[trigger] list[i]) == v(
        figure(samples[i]),
    ) by {
        assert(cell(samples[i], column) == figure(samples[i]));
    }
    assert(arith::values(v, list) =~= figure_values(v, samples, figure));
}

/// Whether a number is the greatest of a figure over all samples: one of them has
/// it, and it is less than that of none.
pub open spec fn is_greatest<F>(
    m: Model<F>,
    samples: Seq<SignalSample<F>>,
    figure: spec_fn(SignalSample<F>) -> F,
    most: F,
) -> bool {
    &&& exists|i: int| 0 <= i < samples.len() && figure(#[trigger] samples[i]) == most
    &&& forall|i: int| 0 <= i < samples.len() ==> !m.less(most, figure(#[trigger] samples[i]))
}

/// Whether a number is the least of a figure over all samples.
pub open spec fn is_least<F>(
    m: Model<F>,
    samples: Seq<SignalSample<F>>,
    figure: spec_fn(SignalSample<F>) -> F,
    least: F,
) -> bool {
    &&& exists|i: int| 0 <= i < samples.len() && figure(#[trigger] samples[i]) == least
    &&& forall|i: int| 0 <= i < samples.len() ==> !m.less(figure(#[trigger] samples[i]), least)
}

/// Whether the figures whose extremes a bar holds are numbers in every sample.
pub open spec fn have_numbers<F>(m: Model<F>, samples: Seq<SignalSample<F>>) -> bool {
    forall|i: int|
        0 <= i < samples.len() ==> {
            let s = #[trigger] samples[i];
            &&& m.equal(s.mid_price, s.mid_price)
            &&& m.equal(s.ob_imbalance, s.ob_imbalance)
            &&& m.equal(s.fk_net_direction, s.fk_net_direction)
            &&& m.equal(s.aggression_shift, s.aggression_shift)
            &&& m.equal(s.absorption_score, s.absorption_score)
        }
}

/// The greatest and the least figures of a bar are figures of its samples, and no
/// sample lies beyond them.
pub proof fn law_bar_holds_the_extremes<F>(m: Model<F>, samples: Seq<SignalSample<F>>)
    requires
        arith::picks_extremes(m),
        samples.len() > 0,
        have_numbers(m, samples),
    ensures
        ({
            let bar = bar_of(m, samples);
            &&& is_greatest(m, samples, |s: SignalSample<F>| s.mid_price, bar.high_price)
            &&& is_least(m, samples, |s: SignalSample<F>| s.mid_price, bar.low_price)
            &&& is_greatest(m, samples, |s: SignalSample<F>| s.ob_imbalance, bar.ob_imbalance_max)
            &&& is_least(m, samples, |s: SignalSample<F>| s.ob_imbalance, bar.ob_imbalance_min)
            &&& is_greatest(
                m,
                samples,
                |s: SignalSample<F>| s.fk_net_direction,
                bar.fk_net_direction_max,
            )
            &&& is_least(
                m,
                samples,
                |s: SignalSample<F>| s.fk_net_direction,
                bar.fk_net_direction_min,
            )
            &&& is_greatest(
                m,
                samples,
                |s: SignalSample<F>| s.aggression_shift,
                bar.aggression_shift_max,
            )
            &&& is_least(
                m,
                samples,
                |s: SignalSample<F>| s.aggression_shift,
                bar.aggression_shift_min,
            )
            &&& is_greatest(
                m,
                samples,
                |s: SignalSample<F>| s.absorption_score,
                bar.absorption_score_max,
            )
        }),
{
    lemma_column_extremes(m, samples, Column::MidPrice, |s: SignalSample<F>| s.mid_price);
    lemma_column_extremes(m, samples, Column::ObImbalance, |s: SignalSample<F>| s.ob_imbalance);
    lemma_column_extremes(
        m,
        samples,
        Column::FkNetDirection,
        |s: SignalSample<F>| s.fk_net_direction,
    );
    lemma_column_extremes(
        m,
        samples,
        Column::AggressionShift,
        |s: SignalSample<F>| s.aggression_shift,
    );
    lemma_column_extremes(
        m,
        samples,
        Column::AbsorptionScore,
        |s: SignalSample<F>| s.absorption_score,
    );
}

/// The extremes of a column are those of its figure.
proof fn lemma_column_extremes<F>(
    m: Model<F>,
    samples: Seq<SignalSample<F>>,
    column: Column,
    figure: spec_fn(SignalSample<F>) -> F,
)
    requires
        arith::picks_extremes(m),
        samples.len() > 0,
        forall|s: SignalSample<F>| cell(s, column) == #[trigger] figure(s),
        forall|i: int|
            0 <= i < samples.len() ==> m.equal(
                figure(#[trigger] samples[i]),
                figure(samples[i]),
            ),
    ensures
        is_greatest(m, samples, figure, m.greatest(cells(samples, column))),
        is_least(m, samples, figure, m.least(cells(samples, column))),
{
    let list = cells(samples, column);
    assert forall|i: int| 0 <= i < list.len() implies #[trigger] list[i] == figure(
        samples[i],
    ) by {
        assert(cell(samples[i], column) == figure(samples[i]));
    }
    assert forall|i: int| 0 <= i < list.len() implies m.equal(#[trigger] list[i], list[i]) by {
        assert(m.equal(figure(samples[i]), figure(samples[i])));
    }
    arith::law_extremes_are_met(m, list);
    let high = choose|i: int| 0 <= i < list.len() && list[i] == m.greatest(list);
    let low = choose|i: int| 0 <= i < list.len() && list[i] == m.least(list);
    assert(figure(samples[high]) == m.greatest(list));
    assert(figure(samples[low]) == m.least(list));
    assert forall|i: int| 0 <= i < samples.len() implies !m.less(
        m.greatest(list),
        figure(#[trigger] samples[i]),
    ) && !m.less(figure(samples[i]), m.least(list)) by {
        assert(list[i] == figure(samples[i]));
    }
}

/// A bar begins with its first sample and ends with its last, opens and closes at
/// their prices, and holds the last figures of what is told at its end; the most
/// levels that a burst moved are those of one of its samples, and more than none
/// of them moved.
pub proof fn law_bar_spans_its_samples<F>(m: Model<F>, samples: Seq<SignalSample<F>>)
    requires
        0 < samples.len() <= usize::MAX,
    ensures
        ({
            let bar = bar_of(m, samples);
            let first = samples[0];
            let last = samples[samples.len() - 1];
            &&& bar.sample_count == samples.len()
            &&& bar.bar_start_ms == first.timestamp_ms
            &&& bar.open_price == first.mid_price
            &&& bar.bar_end_ms == last.timestamp_ms
            &&& bar.close_price == last.mid_price
            &&& bar.cum_net_qty_final == last.cum_net_qty
            &&& bar.cum_ratio_final == last.cum_ratio
            &&& bar.fk_net_direction_final == last.fk_net_direction
            &&& bar.aggression_shift_final == last.aggression_shift
            &&& bar.absorption_score_final == last.absorption_score
            &&& forall|i: int|
                0 <= i < samples.len() ==> (#[trigger] samples[i]).vd_buy_levels
                    <= bar.vd_buy_levels_max && samples[i].vd_sell_levels <= bar.vd_sell_levels_max
            &&& exists|i: int|
                0 <= i < samples.len() && (#[trigger] samples[i]).vd_buy_levels
                    == bar.vd_buy_levels_max
            &&& exists|i: int|
                0 <= i < samples.len() && (#[trigger] samples[i]).vd_sell_levels
                    == bar.vd_sell_levels_max
        }),
{
    lemma_most_levels(samples);
}

/// The most levels are those of one sample and less than those of none.
proof fn lemma_most_levels<F>(samples: Seq<SignalSample<F>>)
    requires
        samples.len() > 0,
    ensures
        forall|i: int|
            0 <= i < samples.len() ==> (#[trigger] samples[i]).vd_buy_levels <= most_levels(
                samples,
                true,
            ) && samples[i].vd_sell_levels <= most_levels(samples, false),
        exists|i: int|
            0 <= i < samples.len() && (#[trigger] samples[i]).vd_buy_levels == most_levels(
                samples,
                true,
            ),
        exists|i: int|
            0 <= i < samples.len() && (#[trigger] samples[i]).vd_sell_levels == most_levels(
                samples,
                false,
            ),
    decreases samples.len(),
{
    let front = samples.drop_last();
    let n = samples.len() - 1;
    assert(samples[n] == samples.last());
    if front.len() > 0 {
        lemma_most_levels(front);
        let b = choose|i: int|
            0 <= i < front.len() && (#[trigger] front[i]).vd_buy_levels == most_levels(front, true);
        let s = choose|i: int|
            0 <= i < front.len() && (#[trigger] front[i]).vd_sell_levels == most_levels(
                front,
                false,
            );
        assert(samples[b] == front[b] && samples[s] == front[s]);
        assert forall|i: int| 0 <= i < samples.len() implies (#[trigger] samples[i]).vd_buy_levels
            <= most_levels(samples, true) && samples[i].vd_sell_levels <= most_levels(
            samples,
            false,
        ) by {
            if i < n {
                assert(front[i] == samples[i]);
            }
        }
    } else {
        assert(most_levels(front, true) == 0 && most_levels(front, false) == 0);
    }
}

/// In exact arithmetic the means and totals of a bar do not depend on the order
/// in which its samples came.
pub proof fn law_bar_averages_in_any_order<F>(
    m: Model<F>,
    v: spec_fn(F) -> real,
    samples: Seq<SignalSample<F>>,
    other: Seq<SignalSample<F>>,
)
    requires
        arith::is_exact(m, v),
        0 < samples.len() <= u64::MAX,
        samples.to_multiset() == other.to_multiset(),
    ensures
        ({
            let a = bar_of(m, samples);
            let b = bar_of(m, other);
            &&& a.sample_count == b.sample_count
            &&& v(a.avg_mid_price) == v(b.avg_mid_price)
            &&& v(a.ob_imbalance_mean) == v(b.ob_imbalance_mean)
            &&& v(a.avg_spread_bps) == v(b.avg_spread_bps)
            &&& v(a.fk_net_direction_mean) == v(b.fk_net_direction_mean)
            &&& v(a.aggression_shift_mean) == v(b.aggression_shift_mean)
            &&& v(a.absorption_score_mean) == v(b.absorption_score_mean)
            &&& v(a.avg_impact_buy_slippage_bps) == v(b.avg_impact_buy_slippage_bps)
            &&& v(a.avg_impact_sell_slippage_bps) == v(b.avg_impact_sell_slippage_bps)
            &&& v(a.avg_buy_volume_pct) == v(b.avg_buy_volume_pct)
            &&& v(a.avg_trade_count_per_sec) == v(b.avg_trade_count_per_sec)
            &&& v(a.fk_buy_fill_total) == v(b.fk_buy_fill_total)
            &&& v(a.fk_sell_fill_total) == v(b.fk_sell_fill_total)
            &&& v(a.fk_buy_kill_total) == v(b.fk_buy_kill_total)
            &&& v(a.fk_sell_kill_total) == v(b.fk_sell_kill_total)
            &&& v(a.total_trade_volume) == v(b.total_trade_volume)
        }),
{
    broadcast use vstd::seq_lib::group_to_multiset_ensures;

    assert(samples.len() == samples.to_multiset().len());
    assert(other.len() == other.to_multiset().len());
    law_bar_averages_its_samples(m, v, samples);
    law_bar_averages_its_samples(m, v, other);
    let a = bar_of(m, samples);
    let b = bar_of(m, other);
    lemma_same_mean(
        v,
        samples,
        other,
        |s: SignalSample<F>| s.mid_price,
        a.avg_mid_price,
        b.avg_mid_price,
    );
    lemma_same_mean(
        v,
        samples,
        other,
        |s: SignalSample<F>| s.ob_imbalance,
        a.ob_imbalance_mean,
        b.ob_imbalance_mean,
    );
    lemma_same_mean(
        v,
        samples,
        other,
        |s: SignalSample<F>| s.spread_bps,
        a.avg_spread_bps,
        b.avg_spread_bps,
    );
    lemma_same_mean(
        v,
        samples,
        other,
        |s: SignalSample<F>| s.fk_net_direction,
        a.fk_net_direction_mean,
        b.fk_net_direction_mean,
    );
    lemma_same_mean(
        v,
        samples,
        other,
        |s: SignalSample<F>| s.aggression_shift,
        a.aggression_shift_mean,
        b.aggression_shift_mean,
    );
    lemma_same_mean(
        v,
        samples,
        other,
        |s: SignalSample<F>| s.absorption_score,
        a.absorption_score_mean,
        b.absorption_score_mean,
    );
    lemma_same_mean(
        v,
        samples,
        other,
        |s: SignalSample<F>| s.impact_buy_slippage_bps,
        a.avg_impact_buy_slippage_bps,
        b.avg_impact_buy_slippage_bps,
    );
    lemma_same_mean(
        v,
        samples,
        other,
        |s: SignalSample<F>| s.impact_sell_slippage_bps,
        a.avg_impact_sell_slippage_bps,
        b.avg_impact_sell_slippage_bps,
    );
    lemma_same_mean(
        v,
        samples,
        other,
        |s: SignalSample<F>| s.buy_volume_pct_1s,
        a.avg_buy_volume_pct,
        b.avg_buy_volume_pct,
    );
    lemma_same_mean(
        v,
        samples,
        other,
        |s: SignalSample<F>| m.count(s.trade_count_1s),
        a.avg_trade_count_per_sec,
        b.avg_trade_count_per_sec,
    );
    lemma_same_total(v, samples, other, |s: SignalSample<F>| s.fk_buy_fill_qty);
    lemma_same_total(v, samples, other, |s: SignalSample<F>| s.fk_sell_fill_qty);
    lemma_same_total(v, samples, other, |s: SignalSample<F>| s.fk_buy_kill_qty);
    lemma_same_total(v, samples, other, |s: SignalSample<F>| s.fk_sell_kill_qty);
    lemma_same_total(v, samples, other, |s: SignalSample<F>| s.trade_volume_1s);
}

/// The means of a figure over the same samples in another order are the same.
proof fn lemma_same_mean<F>(
    v: spec_fn(F) -> real,
    samples: Seq<SignalSample<F>>,
    other: Seq<SignalSample<F>>,
    figure: spec_fn(SignalSample<F>) -> F,
    mean: F,
    other_mean: F,
)
    requires
        samples.len() > 0,
        samples.len() == other.len(),
        samples.to_multiset() == other.to_multiset(),
        is_mean(v, samples, figure, mean),
        is_mean(v, other, figure, other_mean),
    ensures
        v(mean) == v(other_mean),
{
    lemma_same_total(v, samples, other, figure);
    let n = samples.len() as real;
    let (a, b) = (v(mean), v(other_mean));
    assert(a == b) by (nonlinear_arith)
        requires
            n > 0real,
            a * n == b * n,
    ;
}

/// The sum of a figure over samples does not depend on their order.
proof fn lemma_same_total<F>(
    v: spec_fn(F) -> real,
    samples: Seq<SignalSample<F>>,
    other: Seq<SignalSample<F>>,
    figure: spec_fn(SignalSample<F>) -> F,
)
    requires
        samples.to_multiset() == other.to_multiset(),
    ensures
        arith::total(figure_values(v, samples, figure)) == arith::total(
            figure_values(v, other, figure),
        ),
    decreases samples.len(),
{
    broadcast use vstd::seq_lib::group_to_multiset_ensures;

    assert(samples.len() == samples.to_multiset().len());
    assert(other.len() == other.to_multiset().len());
    if samples.len() > 0 {
        let n = samples.len() - 1;
        assert(samples.to_multiset().count(samples[n]) > 0) by {
            assert(samples.contains(samples[n]));
        }
        assert(other.contains(samples[n]));
        let j = choose|j: int| 0 <= j < other.len() && other[j] == samples[n];
        let one = figure_values(v, samples, figure);
        let two = figure_values(v, other, figure);
        arith::lemma_total_without(one, n);
        arith::lemma_total_without(two, j);
        assert(one.remove(n) =~= figure_values(v, samples.remove(n), figure));
        assert(two.remove(j) =~= figure_values(v, other.remove(j), figure));
        assert(samples.remove(n).to_multiset() =~= samples.to_multiset().remove(samples[n]));
        assert(other.remove(j).to_multiset() =~= other.to_multiset().remove(other[j]));
        lemma_same_total(v, samples.remove(n), other.remove(j), figure);
    } else {
        assert(figure_values(v, samples, figure) =~= figure_values(v, other, figure));
    }
}

/// In exact arithmetic values that lie on a line have the slope of that line,
/// wherever it starts; the places themselves are where it is seen that there are
/// enough of them to tell.
pub proof fn law_slope_of_a_line<F>(
    m: Model<F>,
    v: spec_fn(F) -> real,
    list: Seq<F>,
    start: real,
    slope: real,
)
    requires
        arith::is_exact(m, v),
        2 <= list.len() <= u64::MAX,
        v(slope_of(m, steps(m, list.len()))) != 0real,
        forall|i: int|
            0 <= i < list.len() ==> v(#[trigger] list[i]) == start + slope * (i as real),
    ensures
        v(slope_of(m, list)) == slope,
{
    let len = list.len();
    let places = steps(m, len);
    arith::lemma_whole_number(m, v, 0);
    arith::law_sum_is_the_total(m, v, places);
    arith::law_sum_is_the_total(m, v, squared_steps(m, len));
    arith::law_sum_is_the_total(m, v, list);
    arith::law_sum_is_the_total(m, v, weighted(m, list));
    lemma_line_sums(m, v, list, start, slope);
    let n = len as real;
    let sx = arith::total(arith::values(v, places));
    let sxx = arith::total(arith::values(v, squared_steps(m, len)));
    let sy = arith::total(arith::values(v, list));
    let sxy = arith::total(arith::values(v, weighted(m, list)));
    assert(v(m.count(len as u64)) == n);
    let d = n * sxx - sx * sx;
    arith::lemma_fraction(m, v, 1, 10_000_000_000);
    let tiny = v(m.ratio(1, 10_000_000_000));
    let whole = 10_000_000_000int as real;
    assert(tiny > 0real) by (nonlinear_arith)
        requires
            tiny * whole == 1real,
            whole > 0real,
    ;
    assert(d != 0real);
    lemma_line_numerator(n, sx, sxx, start, slope);
    let top = n * sxy - sx * sy;
    assert(top == slope * d);
    arith::lemma_quotient(top, d);
    let q = top / d;
    assert(q == slope) by (nonlinear_arith)
        requires
            q * d == slope * d,
            d != 0real,
    ;
    assert(v(slope_of(m, list)) == q);
}

proof fn lemma_line_numerator(n: real, sx: real, sxx: real, start: real, slope: real)
    ensures
        n * (start * sx + slope * sxx) - sx * (start * n + slope * sx) == slope * (n * sxx - sx
            * sx),
{
    let (p, q) = (start * sx, slope * sxx);
    let (r, s) = (start * n, slope * sx);
    assert(n * (p + q) == n * p + n * q) by (nonlinear_arith);
    assert(sx * (r + s) == sx * r + sx * s) by (nonlinear_arith);
    assert(n * (start * sx) == sx * (start * n)) by (nonlinear_arith);
    assert(n * (slope * sxx) == slope * (n * sxx)) by (nonlinear_arith);
    assert(sx * (slope * sx) == slope * (sx * sx)) by (nonlinear_arith);
    let (x, y) = (n * sxx, sx * sx);
    assert(slope * (x - y) == slope * x - slope * y) by (nonlinear_arith);
}

/// The sums over values that lie on a line.
proof fn lemma_line_sums<F>(
    m: Model<F>,
    v: spec_fn(F) -> real,
    list: Seq<F>,
    start: real,
    slope: real,
)
    requires
        arith::is_exact(m, v),
        list.len() <= u64::MAX,
        forall|i: int|
            0 <= i < list.len() ==> v(#[trigger] list[i]) == start + slope * (i as real),
    ensures
        ({
            let n = list.len();
            let sx = arith::total(arith::values(v, steps(m, n)));
            let sxx = arith::total(arith::values(v, squared_steps(m, n)));
            &&& arith::total(arith::values(v, list)) == start * (n as real) + slope * sx
            &&& arith::total(arith::values(v, weighted(m, list))) == start * sx + slope * sxx
        }),
    decreases list.len(),
{
    let n = list.len();
    if n > 0 {
        let front = list.drop_last();
        let k = (n - 1) as nat;
        assert forall|i: int| 0 <= i < front.len() implies v(#[trigger] front[i]) == start + slope
            * (i as real) by {
            assert(front[i] == list[i]);
        }
        lemma_line_sums(m, v, front, start, slope);
        let xs = arith::values(v, steps(m, n));
        let squares = arith::values(v, squared_steps(m, n));
        let ys = arith::values(v, list);
        let xys = arith::values(v, weighted(m, list));
        assert(xs.drop_last() =~= arith::values(v, steps(m, k)));
        assert(squares.drop_last() =~= arith::values(v, squared_steps(m, k)));
        assert(ys.drop_last() =~= arith::values(v, front));
        assert(xys.drop_last() =~= arith::values(v, weighted(m, front)));
        let x = k as real;
        let y = v(list[n - 1]);
        assert(y == start + slope * x);
        assert(xs.last() == x);
        assert(squares.last() == x * x);
        assert(xys.last() == x * y);
        let sx = arith::total(xs.drop_last());
        let sxx = arith::total(squares.drop_last());
        let z = slope * x;
        assert(n as real == x + 1real);
        assert(start * (x + 1real) == start * x + start) by (nonlinear_arith);
        assert(slope * (sx + x) == slope * sx + slope * x) by (nonlinear_arith);
        assert(start * (sx + x) == start * sx + start * x) by (nonlinear_arith);
        assert(x * (start + z) == start * x + x * z) by (nonlinear_arith);
        assert(x * (slope * x) == slope * (x * x)) by (nonlinear_arith);
        let xx = x * x;
        assert(slope * (sxx + xx) == slope * sxx + slope * xx) by (nonlinear_arith);
    } else {
        assert(n as real == 0real);
        assert(start * 0real == 0real) by (nonlinear_arith);
        assert(slope * 0real == 0real) by (nonlinear_arith);
    }
}

/// A bar lasts as long as it should: its samples but the first came before its
/// time was up, and the sample that begins what follows it did not.
pub proof fn law_bars_end_when_their_time_is_up<F>(
    state: BarState<F>,
    samples: Seq<SignalSample<F>>,
    k: int,
)
    requires
        state.pending.len() == 0,
        0 <= k < finished(state, samples).len(),
    ensures
        ({
            let bars = finished(state, samples);
            let bar = bars[k];
            let follows = if k + 1 < bars.len() {
                bars[k + 1]
            } else {
                run(state, samples).pending
            };
            &&& bar.len() > 0 && follows.len() > 0
            &&& forall|i: int|
                0 < i < bar.len() ==> (#[trigger] bar[i]).timestamp_ms < bar[0].timestamp_ms
                    + state.duration
            &&& follows[0].timestamp_ms >= bar[0].timestamp_ms + state.duration
        }),
    decreases samples.len(),
{
    let front = samples.drop_last();
    law_pending_samples_lie_within_the_bar(state, front);
    let before = run(state, front);
    let bars = finished(state, front);
    if k < bars.len() {
        law_bars_end_when_their_time_is_up(state, front, k);
    }
}

} // verus!

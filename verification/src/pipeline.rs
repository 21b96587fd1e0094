//! The strategy pipeline of a session: a sample every second, a bar every half
//! minute, and a decision after every bar.

use vstd::prelude::*;

use crate::arith;
use crate::arith::{Arithmetic, Model};
use crate::bars;
use crate::bars::{AggregatedBar, BarState, SignalBarAggregator};
use crate::signal;
use crate::signal::{MarketSnapshot, SignalConfig, SignalExtractor, SignalSample};
use crate::strategy;
use crate::strategy::{Signal, StrategyEngine};
use crate::strategy_config;
use crate::strategy_config::StrategyConfig;

verus! {

/// The milliseconds from one sample to the next.
pub const SAMPLE_EVERY_MS: u64 = 1_000;

/// The milliseconds that a bar of the pipeline takes.
pub const PIPELINE_BAR_MS: u64 = 30_000;

/// The most points of the equity history: a day of bars.
pub const EQUITY_HISTORY_MAX: usize = 2_880;

// ---------------------------------------------------------------------------
// Score of a sample
// ---------------------------------------------------------------------------

/// Which way a strong absorption points in a sample: against the direction of
/// the fills.
pub open spec fn sample_absorption<F>(m: Model<F>, s: SignalSample<F>) -> F {
    let strong = m.less(m.ratio(7, 10), s.absorption_score);
    if strong && m.less(s.fk_net_direction, m.zero()) {
        s.absorption_score
    } else if strong && m.less(m.zero(), s.fk_net_direction) {
        m.neg(s.absorption_score)
    } else {
        m.zero()
    }
}

/// The score of a sample: above zero where it speaks for rising prices.
pub open spec fn instant_score_of<F>(m: Model<F>, s: SignalSample<F>) -> F {
    let buying = m.over(m.minus(s.buy_volume_pct_1s, m.ratio(50, 1)), m.ratio(50, 1));
    m.plus(
        m.plus(
            m.plus(
                m.plus(
                    m.times(s.fk_net_direction, m.ratio(30, 100)),
                    m.times(s.aggression_shift, m.ratio(25, 100)),
                ),
                m.times(s.ob_imbalance, m.ratio(15, 100)),
            ),
            m.times(sample_absorption(m, s), m.ratio(15, 100)),
        ),
        m.times(buying, m.ratio(15, 100)),
    )
}

/// The score of a sample.
pub fn compute_instant_score<F: Copy, A: Arithmetic<F>>(a: &A, s: &SignalSample<F>) -> (score: F)
    ensures
        forall|m: Model<F>| #[trigger]
            arith::describes(m, *a) ==> score == instant_score_of(m, *s),
{
    let zero: F = arith::zero(a);
    let strong: bool = arith::less(a, arith::ratio(a, 7, 10), s.absorption_score);
    let absorption: F = if strong && arith::less(a, s.fk_net_direction, zero) {
        s.absorption_score
    } else if strong && arith::less(a, zero, s.fk_net_direction) {
        arith::neg(a, s.absorption_score)
    } else {
        zero
    };
    let fifty: F = arith::ratio(a, 50, 1);
    let buying: F = arith::over(a, arith::minus(a, s.buy_volume_pct_1s, fifty), fifty);
    let least: F = arith::ratio(a, 15, 100);
    let direction: F = arith::times(a, s.fk_net_direction, arith::ratio(a, 30, 100));
    let shift: F = arith::times(a, s.aggression_shift, arith::ratio(a, 25, 100));
    let book: F = arith::times(a, s.ob_imbalance, least);
    let absorbed: F = arith::times(a, absorption, least);
    let bought: F = arith::times(a, buying, least);
    let two: F = arith::plus(a, direction, shift);
    let three: F = arith::plus(a, two, book);
    let four: F = arith::plus(a, three, absorbed);
    arith::plus(a, four, bought)
}

// ---------------------------------------------------------------------------
// Pipeline
// ---------------------------------------------------------------------------

/// The strategy pipeline of a session.
pub struct StrategyPipeline<F> {
    pub enabled: bool,
    pub extractor: SignalExtractor<F>,
    pub aggregator: SignalBarAggregator<F>,
    pub engine: StrategyEngine<F>,
    pub initial_equity: F,
    pub equity_history: Vec<(u64, F)>,
    pub last_bar: Option<AggregatedBar<F>>,
    pub last_signal: Signal,
    pub last_instant_score: F,
}

/// Whether the settings of the engine are the default ones for a symbol.
pub open spec fn is_default_strategy<F>(config: StrategyConfig<F>, symbol: Seq<char>) -> bool {
    config.symbol@ == symbol && exists|base: StrategyConfig<F>| #[trigger]
        strategy_config::is_frame_30s(base) && config == (StrategyConfig {
            symbol: config.symbol,
            ..base
        })
}

/// Whether the settings of the extractor are the default ones for a symbol.
pub open spec fn is_default_signals<F>(config: SignalConfig<F>, symbol: Seq<char>) -> bool {
    &&& config.sample_interval_ms == 1_000
    &&& config.ob_near_ticks == 10
    &&& config.trade_window_ms == 1_000
    &&& config.absorption_lookback_ms == 5_000
    &&& config.aggression_shift_window_ms == 30_000
    &&& config.symbol@ == symbol
}

/// Adds a point to a history and drops the oldest where there are too many.
fn record_point<F: Copy>(history: &mut Vec<(u64, F)>, point: (u64, F))
    ensures
        final(history)@ == signal::last_of(old(history)@.push(point), EQUITY_HISTORY_MAX as int),
{
    let ghost all = history@.push(point);
    history.push(point);
    while history.len() > EQUITY_HISTORY_MAX
        invariant
            signal::last_of(all, EQUITY_HISTORY_MAX as int) == signal::last_of(
                history@,
                EQUITY_HISTORY_MAX as int,
            ),
        decreases history.len(),
    {
        let ghost now = history@;
        let _oldest: (u64, F) = history.remove(0);
        proof {
            assert(signal::last_of(now, EQUITY_HISTORY_MAX as int) =~= signal::last_of(
                history@,
                EQUITY_HISTORY_MAX as int,
            ));
        }
    }
}

impl<F: Copy> StrategyPipeline<F> {
    /// Whether a bar that has begun ends at a time that there is.
    pub open spec fn wf(&self) -> bool {
        &&& self.extractor.wf()
        &&& self.aggregator.state().duration == PIPELINE_BAR_MS
        &&& self.aggregator.state().start + PIPELINE_BAR_MS <= u64::MAX
    }

    /// Whether nothing has come yet.
    pub open spec fn is_fresh(&self, symbol: Seq<char>) -> bool {
        &&& self.wf()
        &&& is_default_signals(self.extractor.settings(), symbol)
        &&& self.extractor.kept() == Seq::<SignalSample<F>>::empty()
        &&& self.aggregator.state() == (BarState::<F> {
            pending: Seq::empty(),
            start: 0,
            duration: PIPELINE_BAR_MS,
        })
        &&& is_default_strategy(self.engine.config, symbol)
        &&& self.engine@.trades.len() == 0
        &&& self.engine@.next_trade_id == 1
        &&& self.engine@.equity == self.initial_equity
        &&& self.engine@.daily_start_equity == self.initial_equity
        &&& self.engine@.position.state == strategy::PositionState::Flat
        &&& self.engine@.losses == 0
        &&& self.engine@.last_exit_ms == 0
        &&& self.engine@.active
        &&& self.engine@.last_bar is None
        &&& self.equity_history@ == seq![(0u64, self.initial_equity)]
        &&& self.last_bar is None
        &&& self.last_signal == Signal::Hold
    }

    /// Whether the numbers of a pipeline are those at its start.
    pub open spec fn has_fresh_figures(&self, m: Model<F>) -> bool {
        &&& strategy_config::is_preset_30s(m, self.engine.config)
        &&& self.engine@.position == strategy::flat_position(m)
        &&& self.engine@.daily_pnl == m.zero()
        &&& self.extractor.settings().impact_notional_usd == m.ratio(10_000, 1)
        &&& self.last_instant_score == m.zero()
    }

    /// A pipeline for a symbol, with a first equity.
    fn fresh<A: Arithmetic<F>>(a: &A, symbol: &str, equity: F, enabled: bool) -> (pipeline:
        StrategyPipeline<F>)
        ensures
            pipeline.is_fresh(symbol@),
            pipeline.enabled == enabled,
            pipeline.initial_equity == equity,
            forall|m: Model<F>| #[trigger]
                arith::describes(m, *a) ==> pipeline.has_fresh_figures(m),
    {
        let base: StrategyConfig<F> = StrategyConfig::default(a);
        let config = StrategyConfig { symbol: symbol.to_string(), ..base };
        let mut signals: SignalConfig<F> = SignalConfig::default(a);
        signals.symbol = symbol.to_string();
        let mut history: Vec<(u64, F)> = Vec::new();
        history.push((0, equity));
        proof {
            assert(strategy_config::is_frame_30s(base));
            assert(history@ =~= seq![(0u64, equity)]);
        }
        StrategyPipeline {
            enabled,
            extractor: SignalExtractor::new(signals),
            aggregator: SignalBarAggregator::new(PIPELINE_BAR_MS),
            engine: StrategyEngine::new(a, config, equity),
            initial_equity: equity,
            equity_history: history,
            last_bar: None,
            last_signal: Signal::Hold,
            last_instant_score: arith::zero(a),
        }
    }

    /// A running pipeline for a symbol, with ten thousand to start with.
    pub fn new<A: Arithmetic<F>>(a: &A, symbol: &str) -> (pipeline: StrategyPipeline<F>)
        ensures
            pipeline.is_fresh(symbol@),
            pipeline.enabled,
            forall|m: Model<F>| #[trigger]
                arith::describes(m, *a) ==> pipeline.has_fresh_figures(m)
                    && pipeline.initial_equity == m.ratio(10_000, 1),
    {
        StrategyPipeline::fresh(a, symbol, arith::ratio(a, 10_000, 1), true)
    }

    /// Starts over for a symbol. Whether the pipeline runs, and its first
    /// equity, stay.
    pub fn restart<A: Arithmetic<F>>(&mut self, a: &A, symbol: &str)
        ensures
            final(self).is_fresh(symbol@),
            final(self).enabled == old(self).enabled,
            final(self).initial_equity == old(self).initial_equity,
            forall|m: Model<F>| #[trigger]
                arith::describes(m, *a) ==> final(self).has_fresh_figures(m),
    {
        *self = StrategyPipeline::fresh(a, symbol, self.initial_equity, self.enabled);
    }

    /// Whether the next sample is due, `elapsed_ms` after the last.
    pub fn is_due(&self, elapsed_ms: u64) -> (due: bool)
        ensures
            due == (self.enabled && elapsed_ms >= SAMPLE_EVERY_MS),
    {
        self.enabled && elapsed_ms >= SAMPLE_EVERY_MS
    }

    /// Takes a sample of the market. Where it closes a bar, the engine decides,
    /// the equity goes into the history, and the result is true.
    pub fn step<A: Arithmetic<F>>(&mut self, a: &A, market: &MarketSnapshot<F>) -> (closed: bool)
        requires
            old(self).wf(),
            market.last_event_time + PIPELINE_BAR_MS <= u64::MAX,
            strategy::can_record(old(self).engine@),
        ensures
            final(self).wf(),
            final(self).enabled == old(self).enabled,
            final(self).initial_equity == old(self).initial_equity,
            final(self).extractor.settings() == old(self).extractor.settings(),
            final(self).engine.config == old(self).engine.config,
            ({
                let sample = final(self).extractor.kept().last();
                let bars_before = old(self).aggregator.state();
                &&& signal::carries_over(old(self).extractor.settings(), *market, sample)
                &&& final(self).extractor.kept() == signal::last_of(
                    old(self).extractor.kept().push(sample),
                    signal::BUFFER_CAPACITY as int,
                )
                &&& closed == bars::finishes(bars_before, sample)
                &&& final(self).aggregator.state() == bars::stepped(bars_before, sample)
                &&& forall|m: Model<F>| #[trigger]
                    arith::describes(m, *a) ==> signal::is_sample_of(
                        m,
                        old(self).extractor.settings(),
                        *market,
                        sample,
                    ) && final(self).last_instant_score == instant_score_of(m, sample)
            }),
            !closed ==> {
                &&& final(self).engine == old(self).engine
                &&& final(self).equity_history@ == old(self).equity_history@
                &&& final(self).last_bar == old(self).last_bar
                &&& final(self).last_signal == old(self).last_signal
            },
            closed ==> final(self).last_bar is Some && {
                let bar = final(self).last_bar->0;
                &&& bars::frames(old(self).aggregator.state().pending, bar)
                &&& final(self).equity_history@ == signal::last_of(
                    old(self).equity_history@.push((bar.bar_end_ms, final(self).engine@.equity)),
                    EQUITY_HISTORY_MAX as int,
                )
                &&& forall|m: Model<F>| #[trigger]
                    arith::describes(m, *a) ==> {
                        &&& bar == bars::bar_of(m, old(self).aggregator.state().pending)
                        &&& final(self).engine@ == strategy::after_bar(
                            m,
                            old(self).engine.config,
                            old(self).engine@,
                            bar,
                        )
                        &&& final(self).last_signal == strategy::bar_signal(
                            m,
                            old(self).engine.config,
                            old(self).engine@,
                            bar,
                        )
                    }
            },
    {
        let sample: SignalSample<F> = self.extractor.sample(a, market);
        proof {
            assert(self.extractor.kept().last() == sample);
        }
        self.last_instant_score = compute_instant_score(a, &sample);
        match self.aggregator.push(a, sample) {
            Some(bar) => {
                let end: u64 = bar.bar_end_ms;
                self.last_signal = self.engine.on_bar(a, &bar);
                self.last_bar = Some(bar);
                let equity: F = self.engine.equity();
                record_point(&mut self.equity_history, (end, equity));
                true
            },
            None => false,
        }
    }
}

// ---------------------------------------------------------------------------
// Laws
// ---------------------------------------------------------------------------

/// The equity history never holds more than a day of bars, and its last point is
/// the one that came last.
pub proof fn law_equity_history_is_bounded<F>(history: Seq<(u64, F)>, point: (u64, F))
    ensures
        signal::last_of(history.push(point), EQUITY_HISTORY_MAX as int).len()
            <= EQUITY_HISTORY_MAX,
        signal::last_of(history.push(point), EQUITY_HISTORY_MAX as int).last() == point,
{
}

/// A bar is closed by the first sample that comes half a minute or more after it
/// has begun, never before.
pub proof fn law_bars_take_half_a_minute<F>(state: BarState<F>, sample: SignalSample<F>)
    requires
        state.duration == PIPELINE_BAR_MS,
        bars::finishes(state, sample),
    ensures
        sample.timestamp_ms - state.start >= PIPELINE_BAR_MS,
{
}

/// In exact arithmetic the score of a sample is the sum of its parts by their
/// weights in hundredths: 30 for the direction of the fills, 25 for the shift of
/// aggression, and 15 each for the imbalance of the book, a strong absorption
/// against the fills, and how far buying is from half of the volume.
pub proof fn law_instant_score_weighs_the_sample<F>(
    m: Model<F>,
    v: spec_fn(F) -> real,
    s: SignalSample<F>,
)
    requires
        arith::is_exact(m, v),
    ensures
        ({
            let flow = v(s.fk_net_direction);
            let strength = v(s.absorption_score);
            let absorption = if strength > (7real / 10real) && flow < 0real {
                strength
            } else if strength > (7real / 10real) && flow > 0real {
                -strength
            } else {
                0real
            };
            let buying = (v(s.buy_volume_pct_1s) - 50real) / 50real;
            v(instant_score_of(m, s)) == (3real / 10real) * flow + (1real / 4real) * v(s.aggression_shift)
                + (3real / 20real) * v(s.ob_imbalance) + (3real / 20real) * absorption + (3real / 20real) * buying
        }),
{
    arith::lemma_whole_number(m, v, 0);
    arith::lemma_whole_number(m, v, 50);
    lemma_hundredths(m, v, 30);
    lemma_hundredths(m, v, 25);
    lemma_hundredths(m, v, 15);
    arith::lemma_fraction(m, v, 7, 10);
    assert(v(m.ratio(7, 10)) * 10real == 7real) by {
        assert(10int as real == 10real);
        assert(7int as real == 7real);
    }
}

proof fn lemma_hundredths<F>(m: Model<F>, v: spec_fn(F) -> real, n: int)
    requires
        arith::is_exact(m, v),
        0 <= n <= 100,
    ensures
        v(m.ratio(n, 100)) == (n as real) / 100real,
{
    assert(100int as real == 100real);
}

} // verus!

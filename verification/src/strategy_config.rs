//! Settings of the trading strategy.

use vstd::prelude::*;

use crate::arith;
use crate::arith::{Arithmetic, Model};

verus! {

/// Settings of the strategy engine.
#[derive(Debug)]
pub struct StrategyConfig<F> {
    /// Trading symbol.
    pub symbol: String,
    /// Length of a bar in milliseconds.
    pub bar_duration_ms: u64,
    /// Score above which a long position may be entered.
    pub long_entry_threshold: F,
    /// Score below which a short position may be entered.
    pub short_entry_threshold: F,
    /// Absorption from which on a reversal counts as confirmed.
    pub min_absorption_for_reversal: F,
    /// Net direction beyond which momentum counts as confirmed.
    pub min_momentum_threshold: F,
    /// Imbalance that confirms the direction of an absorption in the score.
    pub absorption_ob_imbalance_threshold: F,
    /// Score below which a long position is left.
    pub long_exit_threshold: F,
    /// Score above which a short position is left.
    pub short_exit_threshold: F,
    /// Greatest average spread at which a position is entered.
    pub max_spread_bps: F,
    /// Least ratio of opposite-side to same-side slippage.
    pub min_liquidity_skew_ratio: F,
    /// Greatest adverse slope of the book.
    pub trend_divergence_threshold: F,
    /// Whether session volume has to agree with the direction.
    pub enforce_macro_trend: bool,
    /// Levels that a burst has to move to leave a void.
    pub min_void_levels_for_reversion: u64,
    /// Factor over the low by which the price has to have recovered.
    pub void_price_recovery_pct: F,
    /// Imbalance that confirms an entry into a void.
    pub void_ob_imbalance_threshold: F,
    /// Fraction of the greatest spread below which the spread counts as tight.
    pub void_spread_tightness_pct: F,
    /// Least average number of trades per second at which a position is entered.
    pub min_trades_per_sec: F,
    /// Weight of the fill:kill direction in the score.
    pub weight_fk_direction: F,
    /// Weight of the aggression shift in the score.
    pub weight_aggression_shift: F,
    /// Weight of the book imbalance in the score.
    pub weight_ob_imbalance: F,
    /// Weight of the absorption in the score.
    pub weight_absorption: F,
    /// Weight of the share of buys in the score.
    pub weight_buy_volume_pct: F,
    /// Share of the equity, in percent, risked on a trade.
    pub risk_per_trade_pct: F,
    /// Greatest position in quote currency.
    pub max_position_size_usd: F,
    /// Loss, in percent of the entry value, at which a position is left.
    pub stop_loss_pct: F,
    /// Profit, in percent of the entry value, at which a position is left.
    pub take_profit_pct: F,
    /// Profit, in percent, from which on the stop trails the best price.
    pub trailing_stop_activation_pct: F,
    /// Distance of the trailing stop from the best price in percent.
    pub trailing_stop_distance_pct: F,
    /// Time after which a position without profit is left.
    pub time_stop_ms: u64,
    /// Bars that a position is given before it can count as stale.
    pub stale_exit_min_bars: u64,
    /// Most positions open at a time.
    pub max_open_positions: usize,
    /// Daily loss, in percent of the equity, beyond which trading halts.
    pub daily_loss_limit_pct: F,
    /// Losses in a row at which trading halts.
    pub max_consecutive_losses: usize,
    /// Time after an exit in which no position is entered.
    pub cooldown_after_loss_ms: u64,
}

impl<F: Copy> Clone for StrategyConfig<F> {
    fn clone(&self) -> (copy: StrategyConfig<F>)
        ensures
            copy == *self,
    {
        StrategyConfig {
            symbol: self.symbol.clone(),
            bar_duration_ms: self.bar_duration_ms,
            long_entry_threshold: self.long_entry_threshold,
            short_entry_threshold: self.short_entry_threshold,
            min_absorption_for_reversal: self.min_absorption_for_reversal,
            min_momentum_threshold: self.min_momentum_threshold,
            absorption_ob_imbalance_threshold: self.absorption_ob_imbalance_threshold,
            long_exit_threshold: self.long_exit_threshold,
            short_exit_threshold: self.short_exit_threshold,
            max_spread_bps: self.max_spread_bps,
            min_liquidity_skew_ratio: self.min_liquidity_skew_ratio,
            trend_divergence_threshold: self.trend_divergence_threshold,
            enforce_macro_trend: self.enforce_macro_trend,
            min_void_levels_for_reversion: self.min_void_levels_for_reversion,
            void_price_recovery_pct: self.void_price_recovery_pct,
            void_ob_imbalance_threshold: self.void_ob_imbalance_threshold,
            void_spread_tightness_pct: self.void_spread_tightness_pct,
            min_trades_per_sec: self.min_trades_per_sec,
            weight_fk_direction: self.weight_fk_direction,
            weight_aggression_shift: self.weight_aggression_shift,
            weight_ob_imbalance: self.weight_ob_imbalance,
            weight_absorption: self.weight_absorption,
            weight_buy_volume_pct: self.weight_buy_volume_pct,
            risk_per_trade_pct: self.risk_per_trade_pct,
            max_position_size_usd: self.max_position_size_usd,
            stop_loss_pct: self.stop_loss_pct,
            take_profit_pct: self.take_profit_pct,
            trailing_stop_activation_pct: self.trailing_stop_activation_pct,
            trailing_stop_distance_pct: self.trailing_stop_distance_pct,
            time_stop_ms: self.time_stop_ms,
            stale_exit_min_bars: self.stale_exit_min_bars,
            max_open_positions: self.max_open_positions,
            daily_loss_limit_pct: self.daily_loss_limit_pct,
            max_consecutive_losses: self.max_consecutive_losses,
            cooldown_after_loss_ms: self.cooldown_after_loss_ms,
        }
    }
}

/// The figures of the preset for 15-second bars that need no arithmetic.
pub open spec fn is_frame_15s<F>(config: StrategyConfig<F>) -> bool {
    &&& config.symbol@ == Seq::<char>::empty()
    &&& config.bar_duration_ms == 15_000
    &&& config.enforce_macro_trend
    &&& config.min_void_levels_for_reversion == 25
    &&& config.time_stop_ms == 20_000
    &&& config.stale_exit_min_bars == 2
    &&& config.max_open_positions == 1
    &&& config.max_consecutive_losses == 5
    &&& config.cooldown_after_loss_ms == 60_000
}

/// The figures of the preset for 15-second bars.
pub open spec fn is_preset_15s<F>(m: Model<F>, config: StrategyConfig<F>) -> bool {
    &&& config.long_entry_threshold == m.ratio(4, 10)
    &&& config.short_entry_threshold == m.ratio(-4, 10)
    &&& config.min_absorption_for_reversal == m.ratio(55, 100)
    &&& config.min_momentum_threshold == m.ratio(12, 100)
    &&& config.absorption_ob_imbalance_threshold == m.ratio(8, 100)
    &&& config.long_exit_threshold == m.ratio(-5, 100)
    &&& config.short_exit_threshold == m.ratio(5, 100)
    &&& config.max_spread_bps == m.ratio(12, 1)
    &&& config.min_liquidity_skew_ratio == m.ratio(11, 10)
    &&& config.trend_divergence_threshold == m.ratio(-6, 100)
    &&& config.void_price_recovery_pct == m.ratio(10_005, 10_000)
    &&& config.void_ob_imbalance_threshold == m.ratio(4, 100)
    &&& config.void_spread_tightness_pct == m.ratio(75, 100)
    &&& config.min_trades_per_sec == m.ratio(3, 10)
    &&& config.weight_fk_direction == m.ratio(35, 100)
    &&& config.weight_aggression_shift == m.ratio(25, 100)
    &&& config.weight_ob_imbalance == m.ratio(1, 10)
    &&& config.weight_absorption == m.ratio(1, 10)
    &&& config.weight_buy_volume_pct == m.ratio(2, 10)
    &&& config.risk_per_trade_pct == m.ratio(4, 10)
    &&& config.max_position_size_usd == m.ratio(10_000, 1)
    &&& config.stop_loss_pct == m.ratio(2, 10)
    &&& config.take_profit_pct == m.ratio(1, 10)
    &&& config.trailing_stop_activation_pct == m.ratio(1, 10)
    &&& config.trailing_stop_distance_pct == m.ratio(5, 100)
    &&& config.daily_loss_limit_pct == m.ratio(3, 1)
}

/// The figures of the preset for 30-second bars that need no arithmetic.
pub open spec fn is_frame_30s<F>(config: StrategyConfig<F>) -> bool {
    &&& config.symbol@ == Seq::<char>::empty()
    &&& config.bar_duration_ms == 30_000
    &&& config.enforce_macro_trend
    &&& config.min_void_levels_for_reversion == 20
    &&& config.time_stop_ms == 45_000
    &&& config.stale_exit_min_bars == 1
    &&& config.max_open_positions == 1
    &&& config.max_consecutive_losses == 5
    &&& config.cooldown_after_loss_ms == 90_000
}

/// The figures of the preset for 30-second bars.
pub open spec fn is_preset_30s<F>(m: Model<F>, config: StrategyConfig<F>) -> bool {
    &&& config.long_entry_threshold == m.ratio(3, 10)
    &&& config.short_entry_threshold == m.ratio(-3, 10)
    &&& config.min_absorption_for_reversal == m.ratio(45, 100)
    &&& config.min_momentum_threshold == m.ratio(1, 10)
    &&& config.absorption_ob_imbalance_threshold == m.ratio(6, 100)
    &&& config.long_exit_threshold == m.ratio(-8, 100)
    &&& config.short_exit_threshold == m.ratio(8, 100)
    &&& config.max_spread_bps == m.ratio(15, 1)
    &&& config.min_liquidity_skew_ratio == m.ratio(105, 100)
    &&& config.trend_divergence_threshold == m.ratio(-8, 100)
    &&& config.void_price_recovery_pct == m.ratio(10_003, 10_000)
    &&& config.void_ob_imbalance_threshold == m.ratio(3, 100)
    &&& config.void_spread_tightness_pct == m.ratio(8, 10)
    &&& config.min_trades_per_sec == m.ratio(2, 10)
    &&& config.weight_fk_direction == m.ratio(3, 10)
    &&& config.weight_aggression_shift == m.ratio(25, 100)
    &&& config.weight_ob_imbalance == m.ratio(15, 100)
    &&& config.weight_absorption == m.ratio(15, 100)
    &&& config.weight_buy_volume_pct == m.ratio(15, 100)
    &&& config.risk_per_trade_pct == m.ratio(5, 10)
    &&& config.max_position_size_usd == m.ratio(10_000, 1)
    &&& config.stop_loss_pct == m.ratio(3, 10)
    &&& config.take_profit_pct == m.ratio(15, 100)
    &&& config.trailing_stop_activation_pct == m.ratio(15, 100)
    &&& config.trailing_stop_distance_pct == m.ratio(8, 100)
    &&& config.daily_loss_limit_pct == m.ratio(3, 1)
}

/// The figures of the preset for 1-minute bars that need no arithmetic.
pub open spec fn is_frame_1m<F>(config: StrategyConfig<F>) -> bool {
    &&& config.symbol@ == Seq::<char>::empty()
    &&& config.bar_duration_ms == 60_000
    &&& config.enforce_macro_trend
    &&& config.min_void_levels_for_reversion == 15
    &&& config.time_stop_ms == 90_000
    &&& config.stale_exit_min_bars == 1
    &&& config.max_open_positions == 1
    &&& config.max_consecutive_losses == 5
    &&& config.cooldown_after_loss_ms == 120_000
}

/// The figures of the preset for 1-minute bars.
pub open spec fn is_preset_1m<F>(m: Model<F>, config: StrategyConfig<F>) -> bool {
    &&& config.long_entry_threshold == m.ratio(25, 100)
    &&& config.short_entry_threshold == m.ratio(-25, 100)
    &&& config.min_absorption_for_reversal == m.ratio(4, 10)
    &&& config.min_momentum_threshold == m.ratio(8, 100)
    &&& config.absorption_ob_imbalance_threshold == m.ratio(5, 100)
    &&& config.long_exit_threshold == m.ratio(-1, 10)
    &&& config.short_exit_threshold == m.ratio(1, 10)
    &&& config.max_spread_bps == m.ratio(18, 1)
    &&& config.min_liquidity_skew_ratio == m.ratio(1, 1)
    &&& config.trend_divergence_threshold == m.ratio(-1, 10)
    &&& config.void_price_recovery_pct == m.ratio(10_002, 10_000)
    &&& config.void_ob_imbalance_threshold == m.ratio(2, 100)
    &&& config.void_spread_tightness_pct == m.ratio(85, 100)
    &&& config.min_trades_per_sec == m.ratio(1, 10)
    &&& config.weight_fk_direction == m.ratio(25, 100)
    &&& config.weight_aggression_shift == m.ratio(2, 10)
    &&& config.weight_ob_imbalance == m.ratio(2, 10)
    &&& config.weight_absorption == m.ratio(2, 10)
    &&& config.weight_buy_volume_pct == m.ratio(15, 100)
    &&& config.risk_per_trade_pct == m.ratio(6, 10)
    &&& config.max_position_size_usd == m.ratio(10_000, 1)
    &&& config.stop_loss_pct == m.ratio(4, 10)
    &&& config.take_profit_pct == m.ratio(2, 10)
    &&& config.trailing_stop_activation_pct == m.ratio(2, 10)
    &&& config.trailing_stop_distance_pct == m.ratio(1, 10)
    &&& config.daily_loss_limit_pct == m.ratio(3, 1)
}

impl<F: Copy> StrategyConfig<F> {
    /// Settings for 15-second bars. High noise and fast signals, small moves.
    pub fn for_15s<A: Arithmetic<F>>(a: &A) -> (config: StrategyConfig<F>)
        ensures
            is_frame_15s(config),
            forall|m: Model<F>| #[trigger] arith::describes(m, *a) ==> is_preset_15s(m, config),
    {
        StrategyConfig {
            symbol: String::new(),
            bar_duration_ms: 15_000,
            long_entry_threshold: arith::ratio(a, 4, 10),
            short_entry_threshold: arith::ratio(a, -4, 10),
            min_absorption_for_reversal: arith::ratio(a, 55, 100),
            min_momentum_threshold: arith::ratio(a, 12, 100),
            absorption_ob_imbalance_threshold: arith::ratio(a, 8, 100),
            long_exit_threshold: arith::ratio(a, -5, 100),
            short_exit_threshold: arith::ratio(a, 5, 100),
            max_spread_bps: arith::ratio(a, 12, 1),
            min_liquidity_skew_ratio: arith::ratio(a, 11, 10),
            trend_divergence_threshold: arith::ratio(a, -6, 100),
            enforce_macro_trend: true,
            min_void_levels_for_reversion: 25,
            void_price_recovery_pct: arith::ratio(a, 10_005, 10_000),
            void_ob_imbalance_threshold: arith::ratio(a, 4, 100),
            void_spread_tightness_pct: arith::ratio(a, 75, 100),
            min_trades_per_sec: arith::ratio(a, 3, 10),
            weight_fk_direction: arith::ratio(a, 35, 100),
            weight_aggression_shift: arith::ratio(a, 25, 100),
            weight_ob_imbalance: arith::ratio(a, 1, 10),
            weight_absorption: arith::ratio(a, 1, 10),
            weight_buy_volume_pct: arith::ratio(a, 2, 10),
            risk_per_trade_pct: arith::ratio(a, 4, 10),
            max_position_size_usd: arith::ratio(a, 10_000, 1),
            stop_loss_pct: arith::ratio(a, 2, 10),
            take_profit_pct: arith::ratio(a, 1, 10),
            trailing_stop_activation_pct: arith::ratio(a, 1, 10),
            trailing_stop_distance_pct: arith::ratio(a, 5, 100),
            time_stop_ms: 20_000,
            stale_exit_min_bars: 2,
            max_open_positions: 1,
            daily_loss_limit_pct: arith::ratio(a, 3, 1),
            max_consecutive_losses: 5,
            cooldown_after_loss_ms: 60_000,
        }
    }

    /// Settings for 30-second bars. Balanced noise and moderate moves.
    pub fn for_30s<A: Arithmetic<F>>(a: &A) -> (config: StrategyConfig<F>)
        ensures
            is_frame_30s(config),
            forall|m: Model<F>| #[trigger] arith::describes(m, *a) ==> is_preset_30s(m, config),
    {
        StrategyConfig {
            symbol: String::new(),
            bar_duration_ms: 30_000,
            long_entry_threshold: arith::ratio(a, 3, 10),
            short_entry_threshold: arith::ratio(a, -3, 10),
            min_absorption_for_reversal: arith::ratio(a, 45, 100),
            min_momentum_threshold: arith::ratio(a, 1, 10),
            absorption_ob_imbalance_threshold: arith::ratio(a, 6, 100),
            long_exit_threshold: arith::ratio(a, -8, 100),
            short_exit_threshold: arith::ratio(a, 8, 100),
            max_spread_bps: arith::ratio(a, 15, 1),
            min_liquidity_skew_ratio: arith::ratio(a, 105, 100),
            trend_divergence_threshold: arith::ratio(a, -8, 100),
            enforce_macro_trend: true,
            min_void_levels_for_reversion: 20,
            void_price_recovery_pct: arith::ratio(a, 10_003, 10_000),
            void_ob_imbalance_threshold: arith::ratio(a, 3, 100),
            void_spread_tightness_pct: arith::ratio(a, 8, 10),
            min_trades_per_sec: arith::ratio(a, 2, 10),
            weight_fk_direction: arith::ratio(a, 3, 10),
            weight_aggression_shift: arith::ratio(a, 25, 100),
            weight_ob_imbalance: arith::ratio(a, 15, 100),
            weight_absorption: arith::ratio(a, 15, 100),
            weight_buy_volume_pct: arith::ratio(a, 15, 100),
            risk_per_trade_pct: arith::ratio(a, 5, 10),
            max_position_size_usd: arith::ratio(a, 10_000, 1),
            stop_loss_pct: arith::ratio(a, 3, 10),
            take_profit_pct: arith::ratio(a, 15, 100),
            trailing_stop_activation_pct: arith::ratio(a, 15, 100),
            trailing_stop_distance_pct: arith::ratio(a, 8, 100),
            time_stop_ms: 45_000,
            stale_exit_min_bars: 1,
            max_open_positions: 1,
            daily_loss_limit_pct: arith::ratio(a, 3, 1),
            max_consecutive_losses: 5,
            cooldown_after_loss_ms: 90_000,
        }
    }

    /// Settings for 1-minute bars. Low noise and smooth signals, larger moves.
    pub fn for_1m<A: Arithmetic<F>>(a: &A) -> (config: StrategyConfig<F>)
        ensures
            is_frame_1m(config),
            forall|m: Model<F>| #[trigger] arith::describes(m, *a) ==> is_preset_1m(m, config),
    {
        StrategyConfig {
            symbol: String::new(),
            bar_duration_ms: 60_000,
            long_entry_threshold: arith::ratio(a, 25, 100),
            short_entry_threshold: arith::ratio(a, -25, 100),
            min_absorption_for_reversal: arith::ratio(a, 4, 10),
            min_momentum_threshold: arith::ratio(a, 8, 100),
            absorption_ob_imbalance_threshold: arith::ratio(a, 5, 100),
            long_exit_threshold: arith::ratio(a, -1, 10),
            short_exit_threshold: arith::ratio(a, 1, 10),
            max_spread_bps: arith::ratio(a, 18, 1),
            min_liquidity_skew_ratio: arith::ratio(a, 1, 1),
            trend_divergence_threshold: arith::ratio(a, -1, 10),
            enforce_macro_trend: true,
            min_void_levels_for_reversion: 15,
            void_price_recovery_pct: arith::ratio(a, 10_002, 10_000),
            void_ob_imbalance_threshold: arith::ratio(a, 2, 100),
            void_spread_tightness_pct: arith::ratio(a, 85, 100),
            min_trades_per_sec: arith::ratio(a, 1, 10),
            weight_fk_direction: arith::ratio(a, 25, 100),
            weight_aggression_shift: arith::ratio(a, 2, 10),
            weight_ob_imbalance: arith::ratio(a, 2, 10),
            weight_absorption: arith::ratio(a, 2, 10),
            weight_buy_volume_pct: arith::ratio(a, 15, 100),
            risk_per_trade_pct: arith::ratio(a, 6, 10),
            max_position_size_usd: arith::ratio(a, 10_000, 1),
            stop_loss_pct: arith::ratio(a, 4, 10),
            take_profit_pct: arith::ratio(a, 2, 10),
            trailing_stop_activation_pct: arith::ratio(a, 2, 10),
            trailing_stop_distance_pct: arith::ratio(a, 1, 10),
            time_stop_ms: 90_000,
            stale_exit_min_bars: 1,
            max_open_positions: 1,
            daily_loss_limit_pct: arith::ratio(a, 3, 1),
            max_consecutive_losses: 5,
            cooldown_after_loss_ms: 120_000,
        }
    }

    /// The settings that apply unless others are chosen: those for 30-second
    /// bars.
    pub fn default<A: Arithmetic<F>>(a: &A) -> (config: StrategyConfig<F>)
        ensures
            is_frame_30s(config),
            forall|m: Model<F>| #[trigger] arith::describes(m, *a) ==> is_preset_30s(m, config),
    {
        StrategyConfig::for_30s(a)
    }

    /// The settings for bars of a given length: those for 15-second bars up to
    /// 20 seconds, those for 30-second bars up to 45 seconds, and those for
    /// 1-minute bars beyond.
    pub fn for_bar_duration<A: Arithmetic<F>>(a: &A, bar_duration_ms: u64) -> (config:
        StrategyConfig<F>)
        ensures
            bar_duration_ms <= 20_000 ==> is_frame_15s(config),
            20_000 < bar_duration_ms <= 45_000 ==> is_frame_30s(config),
            45_000 < bar_duration_ms ==> is_frame_1m(config),
            forall|m: Model<F>| #[trigger]
                arith::describes(m, *a) ==> if bar_duration_ms <= 20_000 {
                    is_preset_15s(m, config)
                } else if bar_duration_ms <= 45_000 {
                    is_preset_30s(m, config)
                } else {
                    is_preset_1m(m, config)
                },
    {
        if bar_duration_ms <= 20_000 {
            StrategyConfig::for_15s(a)
        } else if bar_duration_ms <= 45_000 {
            StrategyConfig::for_30s(a)
        } else {
            StrategyConfig::for_1m(a)
        }
    }
}

// ---------------------------------------------------------------------------
// Laws
// ---------------------------------------------------------------------------

/// Whether settings are balanced: the weights of the score make up one, longs and
/// shorts are entered and left at opposite scores, a position is left at a score
/// nearer to zero than the one that it is entered at, and stops and targets are
/// above zero, with the trailing stop closer than the profit from which it holds.
pub open spec fn is_balanced<F>(v: spec_fn(F) -> real, c: StrategyConfig<F>) -> bool {
    &&& v(c.weight_fk_direction) + v(c.weight_aggression_shift) + v(c.weight_ob_imbalance) + v(
        c.weight_absorption,
    ) + v(c.weight_buy_volume_pct) == 1real
    &&& v(c.weight_fk_direction) > 0real && v(c.weight_aggression_shift) > 0real && v(
        c.weight_ob_imbalance,
    ) > 0real && v(c.weight_absorption) > 0real && v(c.weight_buy_volume_pct) > 0real
    &&& v(c.short_entry_threshold) == -v(c.long_entry_threshold)
    &&& v(c.short_exit_threshold) == -v(c.long_exit_threshold)
    &&& v(c.long_exit_threshold) < 0real < v(c.short_exit_threshold) < v(c.long_entry_threshold)
    &&& v(c.stop_loss_pct) > 0real && v(c.take_profit_pct) > 0real
    &&& 0real < v(c.trailing_stop_distance_pct) < v(c.trailing_stop_activation_pct)
    &&& v(c.min_momentum_threshold) > 0real
    &&& 0real < v(c.void_spread_tightness_pct) < 1real < v(c.void_price_recovery_pct)
}

/// In exact arithmetic all presets are balanced, and the longer the bars, the
/// lower the score that is asked for and the wider the stop, the target and the
/// spread.
pub proof fn law_presets_are_balanced<F>(
    m: Model<F>,
    v: spec_fn(F) -> real,
    short: StrategyConfig<F>,
    middle: StrategyConfig<F>,
    long: StrategyConfig<F>,
)
    requires
        arith::is_exact(m, v),
        is_preset_15s(m, short),
        is_preset_30s(m, middle),
        is_preset_1m(m, long),
    ensures
        is_balanced(v, short),
        is_balanced(v, middle),
        is_balanced(v, long),
        v(short.long_entry_threshold) > v(middle.long_entry_threshold) > v(
            long.long_entry_threshold,
        ),
        v(short.stop_loss_pct) < v(middle.stop_loss_pct) < v(long.stop_loss_pct),
        v(short.take_profit_pct) < v(middle.take_profit_pct) < v(long.take_profit_pct),
        v(short.max_spread_bps) < v(middle.max_spread_bps) < v(long.max_spread_bps),
        v(short.min_momentum_threshold) > v(middle.min_momentum_threshold) > v(
            long.min_momentum_threshold,
        ),
{
    lemma_parts(m, v);
    assert(v(short.weight_fk_direction) == 35real / 100real);
    assert(v(short.weight_aggression_shift) == 25real / 100real);
    assert(v(short.weight_ob_imbalance) == 1real / 10real);
    assert(v(short.weight_absorption) == 1real / 10real);
    assert(v(short.weight_buy_volume_pct) == 2real / 10real);
    assert(v(short.long_entry_threshold) == 4real / 10real);
    assert(v(short.short_entry_threshold) == -4real / 10real);
    assert(v(short.long_exit_threshold) == -5real / 100real);
    assert(v(short.short_exit_threshold) == 5real / 100real);
    assert(v(short.stop_loss_pct) == 2real / 10real);
    assert(v(short.take_profit_pct) == 1real / 10real);
    assert(v(short.trailing_stop_activation_pct) == 1real / 10real);
    assert(v(short.trailing_stop_distance_pct) == 5real / 100real);
    assert(v(short.min_momentum_threshold) == 12real / 100real);
    assert(v(short.void_spread_tightness_pct) == 75real / 100real);
    assert(v(short.void_price_recovery_pct) == 10_005real / 10_000real);
    assert(v(middle.weight_fk_direction) == 3real / 10real);
    assert(v(middle.weight_aggression_shift) == 25real / 100real);
    assert(v(middle.weight_ob_imbalance) == 15real / 100real);
    assert(v(middle.weight_absorption) == 15real / 100real);
    assert(v(middle.weight_buy_volume_pct) == 15real / 100real);
    assert(v(middle.long_entry_threshold) == 3real / 10real);
    assert(v(middle.short_entry_threshold) == -3real / 10real);
    assert(v(middle.long_exit_threshold) == -8real / 100real);
    assert(v(middle.short_exit_threshold) == 8real / 100real);
    assert(v(middle.stop_loss_pct) == 3real / 10real);
    assert(v(middle.take_profit_pct) == 15real / 100real);
    assert(v(middle.trailing_stop_activation_pct) == 15real / 100real);
    assert(v(middle.trailing_stop_distance_pct) == 8real / 100real);
    assert(v(middle.min_momentum_threshold) == 1real / 10real);
    assert(v(middle.void_spread_tightness_pct) == 8real / 10real);
    assert(v(middle.void_price_recovery_pct) == 10_003real / 10_000real);
    assert(v(long.weight_fk_direction) == 25real / 100real);
    assert(v(long.weight_aggression_shift) == 2real / 10real);
    assert(v(long.weight_ob_imbalance) == 2real / 10real);
    assert(v(long.weight_absorption) == 2real / 10real);
    assert(v(long.weight_buy_volume_pct) == 15real / 100real);
    assert(v(long.long_entry_threshold) == 25real / 100real);
    assert(v(long.short_entry_threshold) == -25real / 100real);
    assert(v(long.long_exit_threshold) == -1real / 10real);
    assert(v(long.short_exit_threshold) == 1real / 10real);
    assert(v(long.stop_loss_pct) == 4real / 10real);
    assert(v(long.take_profit_pct) == 2real / 10real);
    assert(v(long.trailing_stop_activation_pct) == 2real / 10real);
    assert(v(long.trailing_stop_distance_pct) == 1real / 10real);
    assert(v(long.min_momentum_threshold) == 8real / 100real);
    assert(v(long.void_spread_tightness_pct) == 85real / 100real);
    assert(v(long.void_price_recovery_pct) == 10_002real / 10_000real);
    arith::lemma_whole_number(m, v, 12);
    arith::lemma_whole_number(m, v, 15);
    arith::lemma_whole_number(m, v, 18);
}

proof fn lemma_parts<F>(m: Model<F>, v: spec_fn(F) -> real)
    requires
        arith::is_exact(m, v),
    ensures
        forall|n: int| -1_000 <= n <= 1_000 ==> v(#[trigger] m.ratio(n, 10)) == n as real / 10real,
        forall|n: int| -1_000 <= n <= 1_000 ==> v(#[trigger] m.ratio(n, 100)) == n as real / 100real,
        forall|n: int|
            0 <= n <= 100_000 ==> v(#[trigger] m.ratio(n, 10_000)) == n as real / 10_000real,
{
    assert(10int as real == 10real);
    assert(100int as real == 100real);
    assert(10_000int as real == 10_000real);
}

} // verus!

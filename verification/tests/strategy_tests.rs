//! Bars, positions, entries and exits, presets and reports.

use openbook::account::PositionInfo;
use openbook::arith::{Arithmetic, Style, Term, Test};
use openbook::bars::{linear_slope, AggregatedBar, SignalBarAggregator};
use openbook::report::PerformanceReport;
use openbook::signal::SignalSample;
use openbook::strategy::{Position, PositionState, Side, Signal, StrategyEngine, TradeRecord};
use openbook::strategy_config::StrategyConfig;

/// Arithmetic on `f64`.
struct Num;

impl Arithmetic<f64> for Num {
    fn eval(&self, term: Term<f64>) -> f64 {
        match term {
            Term::Ratio(n, d) => n as f64 / d as f64,
            Term::Count(n) => n as f64,
            Term::Infinity => f64::INFINITY,
            Term::NegInfinity => f64::NEG_INFINITY,
            Term::Neg(x) => -x,
            Term::Abs(x) => x.abs(),
            Term::Square(x) => x.powi(2),
            Term::Sqrt(x) => x.sqrt(),
            Term::Ln(x) => x.ln(),
            Term::Floor(x) => x.floor(),
            Term::Ceil(x) => x.ceil(),
            Term::Round(x) => x.round(),
            Term::Add(x, y) => x + y,
            Term::Sub(x, y) => x - y,
            Term::Mul(x, y) => x * y,
            Term::Div(x, y) => x / y,
            Term::Max(x, y) => x.max(y),
            Term::Min(x, y) => x.min(y),
        }
    }

    fn test(&self, comparison: Test<f64>) -> bool {
        match comparison {
            Test::Less(x, y) => x < y,
            Test::LessEq(x, y) => x <= y,
            Test::Equal(x, y) => x == y,
            Test::Finite(x) => x.is_finite(),
        }
    }

    fn whole(&self, number: f64) -> u64 {
        number as u64
    }

    fn text(&self, number: f64, style: Style) -> String {
        match style {
            Style::Shortest => format!("{}", number),
            Style::Fixed(p) => format!("{:.*}", p, number),
            Style::Signed(p) => format!("{:+.*}", p, number),
        }
    }

    fn parse(&self, text: &str) -> Result<f64, String> {
        text.parse::<f64>().map_err(|e| e.to_string())
    }
}

/// Helper to create a sample with specific values
fn make_sample(timestamp_ms: u64, mid_price: f64, ob_imbalance: f64, fk_net_direction: f64,
               aggression_shift: f64, absorption_score: f64, buy_volume_pct: f64) -> SignalSample<f64> {
    SignalSample {
        timestamp_ms,
        symbol: "BTCUSDT".to_string(),
        mid_price,
        spread_bps: 1.0,
        ob_imbalance,
        ob_bid_depth_near: 100.0,
        ob_ask_depth_near: 100.0,
        fk_buy_fill_qty: 50.0,
        fk_buy_kill_qty: 10.0,
        fk_sell_fill_qty: 50.0,
        fk_sell_kill_qty: 10.0,
        fk_net_direction,
        fk_buy_signed_log_ratio: None,
        fk_sell_signed_log_ratio: None,
        cum_fill_qty: 100.0,
        cum_kill_qty: 20.0,
        cum_net_qty: 0.0,
        cum_ratio: 1.0,
        impact_buy_slippage_bps: 0.5,
        impact_sell_slippage_bps: 0.5,
        impact_buy_levels_consumed: 1,
        impact_sell_levels_consumed: 1,
        trade_count_1s: 10,
        trade_volume_1s: 1000.0,
        buy_volume_pct_1s: buy_volume_pct,
        absorption_score,
        aggression_shift,
        vd_buy_levels: 0,
        vd_sell_levels: 0,
    }
}

/// Helper to create a bullish bar that should trigger long entry
fn make_bullish_bar(bar_end_ms: u64) -> AggregatedBar<f64> {
    AggregatedBar {
        bar_start_ms: bar_end_ms - 60_000,
        bar_end_ms,
        sample_count: 60,
        open_price: 50000.0,
        close_price: 50100.0,
        high_price: 50150.0,
        low_price: 49950.0,
        avg_mid_price: 50050.0,
        ob_imbalance_mean: 0.5,
        ob_imbalance_max: 0.6,
        ob_imbalance_min: 0.4,
        ob_imbalance_trend: 0.01,
        avg_spread_bps: 1.0,
        cum_net_qty_final: 100.0,
        cum_ratio_final: 1.0,
        fk_net_direction_mean: 0.5,
        fk_net_direction_max: 0.6,
        fk_net_direction_min: 0.4,
        fk_net_direction_final: 0.5,
        fk_buy_fill_total: 3000.0,
        fk_sell_fill_total: 1000.0,
        fk_buy_kill_total: 500.0,
        fk_sell_kill_total: 200.0,
        aggression_shift_mean: 1.5,
        aggression_shift_max: 2.0,
        aggression_shift_min: 1.0,
        aggression_shift_final: 1.5,
        absorption_score_max: 0.71,
        absorption_score_mean: 0.5,
        absorption_score_final: 0.6,
        vd_buy_levels_max: 0,
        vd_sell_levels_max: 0,
        avg_impact_buy_slippage_bps: 0.5,
        avg_impact_sell_slippage_bps: 1.0,
        total_trade_volume: 60000.0,
        avg_buy_volume_pct: 80.0,
        avg_trade_count_per_sec: 10.0,
    }
}

/// Helper to create a bearish bar that should trigger short entry
fn make_bearish_bar(bar_end_ms: u64) -> AggregatedBar<f64> {
    AggregatedBar {
        bar_start_ms: bar_end_ms - 60_000,
        bar_end_ms,
        sample_count: 60,
        open_price: 50000.0,
        close_price: 49900.0,
        high_price: 50050.0,
        low_price: 49850.0,
        avg_mid_price: 49950.0,
        ob_imbalance_mean: -0.5,
        ob_imbalance_max: -0.4,
        ob_imbalance_min: -0.6,
        ob_imbalance_trend: -0.01,
        avg_spread_bps: 1.0,
        cum_net_qty_final: -100.0,
        cum_ratio_final: 0.5,
        fk_net_direction_mean: -0.5,
        fk_net_direction_max: -0.4,
        fk_net_direction_min: -0.6,
        fk_net_direction_final: -0.5,
        fk_buy_fill_total: 1000.0,
        fk_sell_fill_total: 3000.0,
        fk_buy_kill_total: 200.0,
        fk_sell_kill_total: 500.0,
        aggression_shift_mean: -1.5,
        aggression_shift_max: -1.0,
        aggression_shift_min: -2.0,
        aggression_shift_final: -1.5,
        absorption_score_max: 0.71,
        absorption_score_mean: 0.5,
        absorption_score_final: 0.6,
        vd_buy_levels_max: 0,
        vd_sell_levels_max: 0,
        avg_impact_buy_slippage_bps: 1.0,
        avg_impact_sell_slippage_bps: 0.5,
        total_trade_volume: 60000.0,
        avg_buy_volume_pct: 20.0,
        avg_trade_count_per_sec: 10.0,
    }
}

#[test]
fn test_bar_aggregation() {
    let mut aggregator = SignalBarAggregator::new(60_000);

    // Push 60 samples spanning 60 seconds
    for i in 0..60 {
        let sample = make_sample(
            i * 1000, // 0, 1000, 2000, ... 59000 ms
            50000.0 + i as f64 * 10.0, // Rising price
            0.1 * (i as f64 / 59.0),   // Rising imbalance
            0.2,
            0.5,
            0.3,
            60.0,
        );
        let result = aggregator.push(&Num, sample);
        // No bar should complete until we push a sample at or after 60000ms
        assert!(result.is_none(), "Bar should not complete at sample {}", i);
    }

    // Push one more sample to trigger bar completion
    let trigger_sample = make_sample(60_000, 50600.0, 0.2, 0.2, 0.5, 0.3, 60.0);
    let bar = aggregator.push(&Num, trigger_sample).expect("Bar should complete");

    // Verify bar fields
    assert_eq!(bar.sample_count, 60);
    assert_eq!(bar.bar_start_ms, 0);
    assert_eq!(bar.bar_end_ms, 59_000);
    assert_eq!(bar.open_price, 50000.0);
    assert_eq!(bar.close_price, 50590.0);
    assert!((bar.high_price - 50590.0).abs() < 0.01);
    assert!((bar.low_price - 50000.0).abs() < 0.01);
    assert!(bar.ob_imbalance_trend > 0.0, "Trend should be positive for rising imbalance");
    assert_eq!(bar.fk_buy_fill_total, 60.0 * 50.0);
}

#[test]
fn test_bar_flush() {
    let mut aggregator = SignalBarAggregator::new(60_000);

    // Push only 10 samples (partial bar)
    for i in 0..10 {
        let sample = make_sample(i * 1000, 50000.0, 0.0, 0.0, 0.0, 0.0, 50.0);
        aggregator.push(&Num, sample);
    }

    // Flush should return partial bar
    let bar = aggregator.flush(&Num).expect("Flush should return partial bar");
    assert_eq!(bar.sample_count, 10);
    assert_eq!(bar.bar_start_ms, 0);
    assert_eq!(bar.bar_end_ms, 9_000);

    // Second flush should return None
    assert!(aggregator.flush(&Num).is_none());
}

#[test]
fn test_position_flat() {
    let pos = Position::flat(&Num);

    assert!(pos.is_flat());
    assert_eq!(pos.state, PositionState::Flat);
    assert_eq!(pos.entry_price, 0.0);
    assert_eq!(pos.quantity, 0.0);
    assert_eq!(pos.unrealized_pnl, 0.0);
    assert_eq!(pos.max_favorable, 0.0);
    assert_eq!(pos.max_adverse, 0.0);
}

#[test]
fn test_position_update_market() {
    let mut pos = Position {
        state: PositionState::Long,
        entry_price: 50000.0,
        entry_time_ms: 0,
        quantity: 1.0,
        unrealized_pnl: 0.0,
        max_favorable: 0.0,
        max_adverse: 0.0,
    };

    // Price goes up
    pos.update_market(&Num, 50500.0);
    assert!((pos.unrealized_pnl - 500.0).abs() < 0.01);
    assert!((pos.max_favorable - 500.0).abs() < 0.01);
    assert_eq!(pos.max_adverse, 0.0);

    // Price goes down below entry
    pos.update_market(&Num, 49500.0);
    assert!((pos.unrealized_pnl - (-500.0)).abs() < 0.01);
    assert!((pos.max_favorable - 500.0).abs() < 0.01); // Should retain max
    assert!((pos.max_adverse - (-500.0)).abs() < 0.01);

    // Test short position
    let mut short_pos = Position {
        state: PositionState::Short,
        entry_price: 50000.0,
        entry_time_ms: 0,
        quantity: 1.0,
        unrealized_pnl: 0.0,
        max_favorable: 0.0,
        max_adverse: 0.0,
    };

    // Price goes down (profit for short)
    short_pos.update_market(&Num, 49500.0);
    assert!((short_pos.unrealized_pnl - 500.0).abs() < 0.01);
    assert!((short_pos.max_favorable - 500.0).abs() < 0.01);
}

#[test]
fn test_strategy_long_entry() {
    let config = StrategyConfig {
        symbol: "BTCUSDT".to_string(),
        ..StrategyConfig::default(&Num)
    };
    let mut engine = StrategyEngine::new(&Num, config, 10_000.0);

    let bar = make_bullish_bar(60_000);
    let signal = engine.on_bar(&Num, &bar);

    assert_eq!(signal, Signal::GoLong, "Should trigger GoLong for bullish bar");
}

#[test]
fn test_strategy_short_entry() {
    let config = StrategyConfig {
        symbol: "BTCUSDT".to_string(),
        ..StrategyConfig::default(&Num)
    };
    let mut engine = StrategyEngine::new(&Num, config, 10_000.0);

    let bar = make_bearish_bar(60_000);
    let signal = engine.on_bar(&Num, &bar);

    assert_eq!(signal, Signal::GoShort, "Should trigger GoShort for bearish bar");
}

#[test]
fn test_strategy_stop_loss() {
    let config = StrategyConfig {
        symbol: "BTCUSDT".to_string(),
        stop_loss_pct: 0.15,
        ..StrategyConfig::default(&Num)
    };
    let mut engine = StrategyEngine::new(&Num, config, 10_000.0);

    // Enter long
    let entry_bar = make_bullish_bar(60_000);
    let signal = engine.on_bar(&Num, &entry_bar);
    assert_eq!(signal, Signal::GoLong);

    // Manually open position (engine.on_bar doesn't actually open positions,
    // it just returns signals - the caller would handle execution)
    engine.open_position(&Num, Side::Buy, 50000.0, 60_000);
    assert_eq!(engine.position().state, PositionState::Long);

    // Create a bar that triggers stop loss
    // stop_loss_pct = 0.15, so need price drop of 0.15% from 50000 = 75 points
    let stop_loss_bar = AggregatedBar {
        bar_start_ms: 60_000,
        bar_end_ms: 120_000,
        sample_count: 60,
        open_price: 50000.0,
        close_price: 49920.0, // Drop of 80 points = 0.16% > 0.15% stop loss
        high_price: 50000.0,
        low_price: 49900.0,
        avg_mid_price: 49950.0,
        // Other fields don't matter for stop loss check
        ob_imbalance_mean: 0.0,
        ob_imbalance_max: 0.0,
        ob_imbalance_min: 0.0,
        ob_imbalance_trend: 0.0,
        avg_spread_bps: 0.0,
        cum_net_qty_final: 0.0,
        cum_ratio_final: 0.0,
        fk_net_direction_mean: 0.0,
        fk_net_direction_max: 0.0,
        fk_net_direction_min: 0.0,
        fk_net_direction_final: 0.0,
        fk_buy_fill_total: 0.0,
        fk_sell_fill_total: 0.0,
        fk_buy_kill_total: 0.0,
        fk_sell_kill_total: 0.0,
        aggression_shift_mean: 0.0,
        aggression_shift_max: 0.0,
        aggression_shift_min: 0.0,
        aggression_shift_final: 0.0,
        absorption_score_max: 0.0,
        absorption_score_mean: 0.0,
        absorption_score_final: 0.0,
        vd_buy_levels_max: 0,
        vd_sell_levels_max: 0,
        avg_impact_buy_slippage_bps: 0.0,
        avg_impact_sell_slippage_bps: 0.0,
        total_trade_volume: 0.0,
        avg_buy_volume_pct: 50.0,
        avg_trade_count_per_sec: 0.0,
    };

    let signal = engine.on_bar(&Num, &stop_loss_bar);
    assert_eq!(signal, Signal::ExitLong, "Should trigger stop loss exit");
}

#[test]
fn test_strategy_take_profit() {
    let config = StrategyConfig {
        symbol: "BTCUSDT".to_string(),
        take_profit_pct: 0.30,
        ..StrategyConfig::default(&Num)
    };
    let mut engine = StrategyEngine::new(&Num, config, 10_000.0);

    // Enter long
    engine.open_position(&Num, Side::Buy, 50000.0, 60_000);

    // Create a bar that triggers take profit
    // take_profit_pct = 0.30, so need price rise of 0.30% from 50000 = 150 points
    let tp_bar = AggregatedBar {
        bar_start_ms: 60_000,
        bar_end_ms: 120_000,
        sample_count: 60,
        open_price: 50000.0,
        close_price: 50160.0, // Rise of 160 points = 0.32% > 0.30% take profit
        high_price: 50200.0,
        low_price: 50000.0,
        avg_mid_price: 50080.0,
        ob_imbalance_mean: 0.5,
        ob_imbalance_max: 0.6,
        ob_imbalance_min: 0.4,
        ob_imbalance_trend: 0.0,
        avg_spread_bps: 1.0,
        cum_net_qty_final: 100.0,
        cum_ratio_final: 1.0,
        fk_net_direction_mean: 0.5,
        fk_net_direction_max: 0.6,
        fk_net_direction_min: 0.4,
        fk_net_direction_final: 0.5,
        fk_buy_fill_total: 1000.0,
        fk_sell_fill_total: 500.0,
        fk_buy_kill_total: 100.0,
        fk_sell_kill_total: 50.0,
        aggression_shift_mean: 0.5,
        aggression_shift_max: 0.6,
        aggression_shift_min: 0.4,
        aggression_shift_final: 0.5,
        absorption_score_max: 0.5,
        absorption_score_mean: 0.4,
        absorption_score_final: 0.5,
        vd_buy_levels_max: 0,
        vd_sell_levels_max: 0,
        avg_impact_buy_slippage_bps: 0.5,
        avg_impact_sell_slippage_bps: 0.5,
        total_trade_volume: 10000.0,
        avg_buy_volume_pct: 70.0,
        avg_trade_count_per_sec: 5.0,
    };

    let signal = engine.on_bar(&Num, &tp_bar);
    assert_eq!(signal, Signal::ExitLong, "Should trigger take profit exit");
}

#[test]
fn test_strategy_circuit_breaker() {
    let config = StrategyConfig {
        symbol: "BTCUSDT".to_string(),
        daily_loss_limit_pct: 2.0,
        ..StrategyConfig::default(&Num)
    };
    let mut engine = StrategyEngine::new(&Num, config, 10_000.0);

    // Simulate losses that exceed daily limit
    // Need daily_pnl / equity * 100 < -2.0
    // With equity 10000, need daily_pnl < -200

    // Manually create losing trades to trigger circuit breaker
    for i in 0..5 {
        engine.open_position(&Num, Side::Buy, 50000.0, i * 60_000);
        engine.close_position(&Num, 49500.0, (i + 1) * 60_000, "test_loss");
    }

    // Each trade loses (50000 - 49500) * quantity
    // quantity = 10000 * (0.5/100) / (0.15/100) = 33333.33 base units (clamped to 10000/50000 = 0.2)
    // Actually: quantity_usd = 10000 * 0.005 / 0.0015 = 33333, clamped to 10000
    // quantity = 10000 / 50000 = 0.2
    // Each loss = 500 * 0.2 = 100
    // After 5 trades: daily_pnl = -500, which is -5% of 10000

    // Trigger circuit breaker check via on_bar
    let bar = make_bullish_bar(400_000);
    let signal = engine.on_bar(&Num, &bar);

    assert!(!engine.is_session_active(), "Session should be inactive after exceeding daily loss limit");
    assert_eq!(signal, Signal::Hold, "Should not enter when circuit breaker is active");
}

#[test]
fn test_performance_report() {
    let trades = vec![
        TradeRecord {
            id: 1,
            symbol: "BTCUSDT".to_string(),
            side: Side::Buy,
            entry_time_ms: 0,
            exit_time_ms: 60_000,
            entry_price: 50000.0,
            exit_price: 50500.0,
            quantity: 0.1,
            pnl: 50.0,
            pnl_pct: 1.0,
            hold_duration_ms: 60_000,
            exit_reason: "take_profit".to_string(),
        },
        TradeRecord {
            id: 2,
            symbol: "BTCUSDT".to_string(),
            side: Side::Buy,
            entry_time_ms: 120_000,
            exit_time_ms: 180_000,
            entry_price: 50000.0,
            exit_price: 49750.0,
            quantity: 0.1,
            pnl: -25.0,
            pnl_pct: -0.5,
            hold_duration_ms: 60_000,
            exit_reason: "stop_loss".to_string(),
        },
        TradeRecord {
            id: 3,
            symbol: "BTCUSDT".to_string(),
            side: Side::Sell,
            entry_time_ms: 240_000,
            exit_time_ms: 300_000,
            entry_price: 50000.0,
            exit_price: 49500.0,
            quantity: 0.1,
            pnl: 50.0,
            pnl_pct: 1.0,
            hold_duration_ms: 60_000,
            exit_reason: "take_profit".to_string(),
        },
    ];

    let report = PerformanceReport::from_trades(&Num, &trades, 10_000.0);

    assert_eq!(report.total_trades, 3);
    assert_eq!(report.winning_trades, 2);
    assert_eq!(report.losing_trades, 1);
    assert!((report.win_rate - 66.666).abs() < 0.1);
    assert!((report.total_pnl - 75.0).abs() < 0.01);
    assert!((report.total_pnl_pct - 0.75).abs() < 0.01);
    assert!((report.avg_win - 50.0).abs() < 0.01);
    assert!((report.avg_loss - (-25.0)).abs() < 0.01);
    assert!((report.profit_factor - 4.0).abs() < 0.01);
    assert_eq!(report.best_trade_pnl, 50.0);
    assert_eq!(report.worst_trade_pnl, -25.0);
    assert_eq!(report.longest_win_streak, 1); // Win, Loss, Win
    assert_eq!(report.longest_loss_streak, 1);
    assert_eq!(report.avg_hold_duration_ms, 60_000);
}

#[test]
fn test_linear_slope() {
    // Test with constant values (slope should be 0)
    let constant = vec![5.0, 5.0, 5.0, 5.0, 5.0];
    let slope = linear_slope(&Num, &constant);
    assert!(slope.abs() < 1e-10, "Constant values should have zero slope");

    // Test with linearly increasing values (slope should be 1)
    let increasing: Vec<f64> = (0..5).map(|i| i as f64).collect();
    let slope = linear_slope(&Num, &increasing);
    assert!((slope - 1.0).abs() < 1e-10, "Linear increase should have slope 1");

    // Test with linearly decreasing values (slope should be -1)
    let decreasing: Vec<f64> = (0..5).map(|i| (4 - i) as f64).collect();
    let slope = linear_slope(&Num, &decreasing);
    assert!((slope - (-1.0)).abs() < 1e-10, "Linear decrease should have slope -1");

    // Test with steeper slope (2x)
    let steep: Vec<f64> = (0..5).map(|i| 2.0 * i as f64).collect();
    let slope = linear_slope(&Num, &steep);
    assert!((slope - 2.0).abs() < 1e-10, "2x linear should have slope 2");

    // Test with single value (should return 0)
    let single = vec![42.0];
    let slope = linear_slope(&Num, &single);
    assert_eq!(slope, 0.0, "Single value should have zero slope");

    // Test with empty vec (should return 0)
    let empty: Vec<f64> = vec![];
    let slope = linear_slope(&Num, &empty);
    assert_eq!(slope, 0.0, "Empty vec should have zero slope");
}

#[test]
fn test_on_bar_opens_position_and_records_trade() {
    let config = StrategyConfig {
        symbol: "BTCUSDT".to_string(),
        ..StrategyConfig::default(&Num)
    };
    let mut engine = StrategyEngine::new(&Num, config, 10_000.0);

    // Entry: bullish bar should open a long position
    let entry_bar = make_bullish_bar(60_000);
    let signal = engine.on_bar(&Num, &entry_bar);
    assert_eq!(signal, Signal::GoLong);
    assert!(!engine.position().is_flat(), "Position should be open after GoLong");
    assert_eq!(engine.position().state, PositionState::Long);
    assert_eq!(engine.position().entry_price, entry_bar.close_price);
    assert_eq!(engine.trade_history().len(), 0, "No trade recorded until exit");

    // Exit: bearish bar should close the long (score < long_exit_threshold = -0.2)
    let exit_bar = make_bearish_bar(90_000);
    let exit_signal = engine.on_bar(&Num, &exit_bar);
    assert_eq!(exit_signal, Signal::ExitLong);
    assert!(engine.position().is_flat(), "Position should be flat after exit");
    assert_eq!(engine.trade_history().len(), 1, "One trade should be recorded");

    let trade = &engine.trade_history()[0];
    assert_eq!(trade.side, Side::Buy);
    assert_eq!(trade.entry_price, entry_bar.close_price);
    assert_eq!(trade.exit_price, exit_bar.close_price);
    assert!(!trade.exit_reason.is_empty());
}

#[test]
fn test_on_bar_short_entry_and_exit() {
    let config = StrategyConfig {
        symbol: "BTCUSDT".to_string(),
        ..StrategyConfig::default(&Num)
    };
    let mut engine = StrategyEngine::new(&Num, config, 10_000.0);

    // Entry: bearish bar should open a short position
    let entry_bar = make_bearish_bar(60_000);
    let signal = engine.on_bar(&Num, &entry_bar);
    assert_eq!(signal, Signal::GoShort);
    assert_eq!(engine.position().state, PositionState::Short);

    // Exit: bullish bar should close the short (score > short_exit_threshold = 0.2)
    let exit_bar = make_bullish_bar(90_000);
    let exit_signal = engine.on_bar(&Num, &exit_bar);
    assert_eq!(exit_signal, Signal::ExitShort);
    assert!(engine.position().is_flat());
    assert_eq!(engine.trade_history().len(), 1);
    assert_eq!(engine.trade_history()[0].side, Side::Sell);
}

// =========================================================================
// Tests for configurable thresholds
// =========================================================================

#[test]
fn test_timeframe_presets_have_correct_bar_duration() {
    let config_15s = StrategyConfig::for_15s(&Num);
    let config_30s = StrategyConfig::for_30s(&Num);
    let config_1m = StrategyConfig::for_1m(&Num);

    assert_eq!(config_15s.bar_duration_ms, 15_000);
    assert_eq!(config_30s.bar_duration_ms, 30_000);
    assert_eq!(config_1m.bar_duration_ms, 60_000);
}

#[test]
fn test_timeframe_presets_weights_sum_to_one() {
    let config_15s = StrategyConfig::for_15s(&Num);
    let config_30s = StrategyConfig::for_30s(&Num);
    let config_1m = StrategyConfig::for_1m(&Num);

    let sum_15s = config_15s.weight_fk_direction + config_15s.weight_aggression_shift
        + config_15s.weight_ob_imbalance + config_15s.weight_absorption
        + config_15s.weight_buy_volume_pct;
    let sum_30s = config_30s.weight_fk_direction + config_30s.weight_aggression_shift
        + config_30s.weight_ob_imbalance + config_30s.weight_absorption
        + config_30s.weight_buy_volume_pct;
    let sum_1m = config_1m.weight_fk_direction + config_1m.weight_aggression_shift
        + config_1m.weight_ob_imbalance + config_1m.weight_absorption
        + config_1m.weight_buy_volume_pct;

    assert!((sum_15s - 1.0).abs() < 1e-10, "15s weights should sum to 1.0, got {}", sum_15s);
    assert!((sum_30s - 1.0).abs() < 1e-10, "30s weights should sum to 1.0, got {}", sum_30s);
    assert!((sum_1m - 1.0).abs() < 1e-10, "1m weights should sum to 1.0, got {}", sum_1m);
}

#[test]
fn test_timeframe_presets_progressive_thresholds() {
    let config_15s = StrategyConfig::for_15s(&Num);
    let config_30s = StrategyConfig::for_30s(&Num);
    let config_1m = StrategyConfig::for_1m(&Num);

    // 15s should have widest entry thresholds (most noise filtering)
    assert!(config_15s.long_entry_threshold > config_30s.long_entry_threshold,
        "15s entry threshold ({}) should be > 30s ({})",
        config_15s.long_entry_threshold, config_30s.long_entry_threshold);
    assert!(config_30s.long_entry_threshold > config_1m.long_entry_threshold,
        "30s entry threshold ({}) should be > 1m ({})",
        config_30s.long_entry_threshold, config_1m.long_entry_threshold);

    // 15s should have tightest exit thresholds
    assert!(config_15s.long_exit_threshold.abs() < config_30s.long_exit_threshold.abs(),
        "15s exit threshold ({}) should be tighter than 30s ({})",
        config_15s.long_exit_threshold, config_30s.long_exit_threshold);

    // 15s should have highest void level requirement
    assert!(config_15s.min_void_levels_for_reversion > config_30s.min_void_levels_for_reversion,
        "15s void levels ({}) should be > 30s ({})",
        config_15s.min_void_levels_for_reversion, config_30s.min_void_levels_for_reversion);
    assert!(config_30s.min_void_levels_for_reversion > config_1m.min_void_levels_for_reversion,
        "30s void levels ({}) should be > 1m ({})",
        config_30s.min_void_levels_for_reversion, config_1m.min_void_levels_for_reversion);

    // 1m should have widest stop loss
    assert!(config_1m.stop_loss_pct > config_30s.stop_loss_pct,
        "1m stop loss ({}) should be > 30s ({})",
        config_1m.stop_loss_pct, config_30s.stop_loss_pct);
    assert!(config_30s.stop_loss_pct > config_15s.stop_loss_pct,
        "30s stop loss ({}) should be > 15s ({})",
        config_30s.stop_loss_pct, config_15s.stop_loss_pct);
}

#[test]
fn test_for_bar_duration_selects_correct_preset() {
    let config_10s = StrategyConfig::for_bar_duration(&Num, 10_000);
    assert_eq!(config_10s.bar_duration_ms, 15_000, "10s should map to 15s preset");

    let config_15s = StrategyConfig::for_bar_duration(&Num, 15_000);
    assert_eq!(config_15s.bar_duration_ms, 15_000);

    let config_20s = StrategyConfig::for_bar_duration(&Num, 20_000);
    assert_eq!(config_20s.bar_duration_ms, 15_000, "20s should map to 15s preset");

    let config_30s = StrategyConfig::for_bar_duration(&Num, 30_000);
    assert_eq!(config_30s.bar_duration_ms, 30_000);

    let config_45s = StrategyConfig::for_bar_duration(&Num, 45_000);
    assert_eq!(config_45s.bar_duration_ms, 30_000, "45s should map to 30s preset");

    let config_60s = StrategyConfig::for_bar_duration(&Num, 60_000);
    assert_eq!(config_60s.bar_duration_ms, 60_000);

    let config_120s = StrategyConfig::for_bar_duration(&Num, 120_000);
    assert_eq!(config_120s.bar_duration_ms, 60_000, "120s should map to 1m preset");
}

#[test]
fn test_void_confirmation_requires_all_conditions() {
    // Create config with strict void confirmation thresholds
    let config = StrategyConfig {
        symbol: "BTCUSDT".to_string(),
        min_void_levels_for_reversion: 25,
        void_price_recovery_pct: 1.001, // 0.1% recovery required
        void_ob_imbalance_threshold: 0.1,
        void_spread_tightness_pct: 0.5, // Very tight spread required
        max_spread_bps: 10.0,
        ..StrategyConfig::default(&Num)
    };
    let engine = StrategyEngine::new(&Num, config, 10_000.0);

    // Bar with void but NO price recovery, NO OB imbalance, NO tight spread
    let void_bar_no_confirm = AggregatedBar {
        bar_start_ms: 0,
        bar_end_ms: 30_000,
        sample_count: 30,
        open_price: 50000.0,
        close_price: 49900.0, // BELOW low * 1.001 - no recovery
        high_price: 50100.0,
        low_price: 49800.0, // close = 49900, low = 49800, 49800 * 1.001 = 49849.8, 49900 > 49849.8 - actually recovers!
        avg_mid_price: 49950.0,
        ob_imbalance_mean: 0.0, // No OB imbalance
        ob_imbalance_max: 0.0,
        ob_imbalance_min: 0.0,
        ob_imbalance_trend: 0.0,
        avg_spread_bps: 8.0, // 8.0 < 10.0 * 0.5 = 5.0? No, 8.0 > 5.0 - spread not tight
        cum_net_qty_final: 0.0,
        cum_ratio_final: 1.0,
        fk_net_direction_mean: 0.0,
        fk_net_direction_max: 0.0,
        fk_net_direction_min: 0.0,
        fk_net_direction_final: 0.0,
        fk_buy_fill_total: 0.0,
        fk_sell_fill_total: 100.0,
        fk_buy_kill_total: 0.0,
        fk_sell_kill_total: 50.0,
        aggression_shift_mean: 0.0,
        aggression_shift_max: 0.0,
        aggression_shift_min: 0.0,
        aggression_shift_final: 0.0,
        absorption_score_max: 0.0,
        absorption_score_mean: 0.0,
        absorption_score_final: 0.0,
        vd_buy_levels_max: 0,
        vd_sell_levels_max: 30, // Void exists!
        avg_impact_buy_slippage_bps: 5.0,
        avg_impact_sell_slippage_bps: 5.0,
        total_trade_volume: 1000.0,
        avg_buy_volume_pct: 30.0,
        avg_trade_count_per_sec: 2.0,
    };

    let signal = engine.check_entry(&Num, 0.0, &void_bar_no_confirm);
    assert_eq!(signal, Signal::Hold, "Should not enter void without all confirmations");
}

#[test]
fn test_void_confirmation_with_all_conditions_met() {
    let config = StrategyConfig {
        symbol: "BTCUSDT".to_string(),
        min_void_levels_for_reversion: 25,
        void_price_recovery_pct: 1.0005,
        void_ob_imbalance_threshold: 0.05,
        void_spread_tightness_pct: 0.7,
        max_spread_bps: 10.0,
        ..StrategyConfig::default(&Num)
    };
    let engine = StrategyEngine::new(&Num, config, 10_000.0);

    // Bar with void AND all confirmations
    let void_bar_with_confirm = AggregatedBar {
        bar_start_ms: 0,
        bar_end_ms: 30_000,
        sample_count: 30,
        open_price: 50000.0,
        close_price: 49950.0, // Must be > low * 1.0005
        high_price: 50100.0,
        low_price: 49900.0, // 49900 * 1.0005 = 49924.95, close 49950 > 49924.95 ✓
        avg_mid_price: 49975.0,
        ob_imbalance_mean: 0.1, // > 0.05 ✓
        ob_imbalance_max: 0.15,
        ob_imbalance_min: 0.05,
        ob_imbalance_trend: 0.0,
        avg_spread_bps: 5.0, // 5.0 < 10.0 * 0.7 = 7.0 ✓
        cum_net_qty_final: 0.0,
        cum_ratio_final: 1.0,
        fk_net_direction_mean: 0.0,
        fk_net_direction_max: 0.0,
        fk_net_direction_min: 0.0,
        fk_net_direction_final: 0.0,
        fk_buy_fill_total: 0.0,
        fk_sell_fill_total: 100.0,
        fk_buy_kill_total: 0.0,
        fk_sell_kill_total: 50.0,
        aggression_shift_mean: 0.0,
        aggression_shift_max: 0.0,
        aggression_shift_min: 0.0,
        aggression_shift_final: 0.0,
        absorption_score_max: 0.0,
        absorption_score_mean: 0.0,
        absorption_score_final: 0.0,
        vd_buy_levels_max: 0,
        vd_sell_levels_max: 30, // Void exists ✓
        avg_impact_buy_slippage_bps: 5.0,
        avg_impact_sell_slippage_bps: 5.0,
        total_trade_volume: 1000.0,
        avg_buy_volume_pct: 30.0,
        avg_trade_count_per_sec: 2.0,
    };

    let signal = engine.check_entry(&Num, 0.0, &void_bar_with_confirm);
    assert_eq!(signal, Signal::GoLong, "Should enter void long with all confirmations");
}

#[test]
fn test_stale_exit_respects_min_bars() {
    // Config with 2 bar minimum for stale exit, 30s bars
    let config = StrategyConfig {
        symbol: "BTCUSDT".to_string(),
        bar_duration_ms: 30_000,
        time_stop_ms: 60_000, // 2 bars
        stale_exit_min_bars: 2, // Require 2 bars before stale exit
        stop_loss_pct: 1.0, // High to not trigger
        take_profit_pct: 1.0, // High to not trigger
        ..StrategyConfig::default(&Num)
    };
    let mut engine = StrategyEngine::new(&Num, config, 10_000.0);
    engine.open_position(&Num, Side::Buy, 50000.0, 0);

    // Update position to show no favorable movement
    engine.position.update_market(&Num, 49900.0); // Moved against us

    // Bar at 20s (less than 2 bars = 60s) - should NOT trigger stale exit
    let bar_early = AggregatedBar {
        bar_start_ms: 0,
        bar_end_ms: 20_000, // Only 20s, less than 2 bars
        sample_count: 20,
        open_price: 50000.0,
        close_price: 49900.0,
        high_price: 50000.0,
        low_price: 49900.0,
        avg_mid_price: 49950.0,
        ob_imbalance_mean: 0.0,
        ob_imbalance_max: 0.0,
        ob_imbalance_min: 0.0,
        ob_imbalance_trend: 0.0,
        avg_spread_bps: 5.0,
        cum_net_qty_final: 0.0,
        cum_ratio_final: 1.0,
        fk_net_direction_mean: 0.0,
        fk_net_direction_max: 0.0,
        fk_net_direction_min: 0.0,
        fk_net_direction_final: 0.0,
        fk_buy_fill_total: 0.0,
        fk_sell_fill_total: 0.0,
        fk_buy_kill_total: 0.0,
        fk_sell_kill_total: 0.0,
        aggression_shift_mean: 0.0,
        aggression_shift_max: 0.0,
        aggression_shift_min: 0.0,
        aggression_shift_final: 0.0,
        absorption_score_max: 0.0,
        absorption_score_mean: 0.0,
        absorption_score_final: 0.0,
        vd_buy_levels_max: 0,
        vd_sell_levels_max: 0,
        avg_impact_buy_slippage_bps: 5.0,
        avg_impact_sell_slippage_bps: 5.0,
        total_trade_volume: 0.0,
        avg_buy_volume_pct: 50.0,
        avg_trade_count_per_sec: 1.0,
    };

    let signal_early = engine.check_exit(&Num, &bar_early);
    assert_ne!(signal_early, Signal::ExitLong,
        "Should NOT exit stale before min_bars (20s < 60s)");

    // Bar at 70s (more than 2 bars = 60s) - SHOULD trigger stale exit
    let bar_late = AggregatedBar {
        bar_start_ms: 0,
        bar_end_ms: 70_000, // 70s, more than 2 bars (60s)
        sample_count: 70,
        open_price: 50000.0,
        close_price: 49900.0,
        high_price: 50000.0,
        low_price: 49900.0,
        avg_mid_price: 49950.0,
        ob_imbalance_mean: 0.0,
        ob_imbalance_max: 0.0,
        ob_imbalance_min: 0.0,
        ob_imbalance_trend: 0.0,
        avg_spread_bps: 5.0,
        cum_net_qty_final: 0.0,
        cum_ratio_final: 1.0,
        fk_net_direction_mean: 0.0,
        fk_net_direction_max: 0.0,
        fk_net_direction_min: 0.0,
        fk_net_direction_final: 0.0,
        fk_buy_fill_total: 0.0,
        fk_sell_fill_total: 0.0,
        fk_buy_kill_total: 0.0,
        fk_sell_kill_total: 0.0,
        aggression_shift_mean: 0.0,
        aggression_shift_max: 0.0,
        aggression_shift_min: 0.0,
        aggression_shift_final: 0.0,
        absorption_score_max: 0.0,
        absorption_score_mean: 0.0,
        absorption_score_final: 0.0,
        vd_buy_levels_max: 0,
        vd_sell_levels_max: 0,
        avg_impact_buy_slippage_bps: 5.0,
        avg_impact_sell_slippage_bps: 5.0,
        total_trade_volume: 0.0,
        avg_buy_volume_pct: 50.0,
        avg_trade_count_per_sec: 1.0,
    };

    let signal_late = engine.check_exit(&Num, &bar_late);
    assert_eq!(signal_late, Signal::ExitLong,
        "SHOULD exit stale after min_bars (70s > 60s)");
}

#[test]
fn test_momentum_threshold_configurable() {
    // Test with high momentum threshold - should NOT enter
    let config_high = StrategyConfig {
        symbol: "BTCUSDT".to_string(),
        long_entry_threshold: 0.3,
        min_momentum_threshold: 0.5, // Very high
        min_absorption_for_reversal: 0.9, // Very high (effectively disabled)
        ..StrategyConfig::default(&Num)
    };
    let engine_high = StrategyEngine::new(&Num, config_high, 10_000.0);

    let bar_moderate_momentum = AggregatedBar {
        bar_start_ms: 0,
        bar_end_ms: 30_000,
        sample_count: 30,
        open_price: 50000.0,
        close_price: 50100.0,
        high_price: 50100.0,
        low_price: 50000.0,
        avg_mid_price: 50050.0,
        ob_imbalance_mean: 0.2,
        ob_imbalance_max: 0.3,
        ob_imbalance_min: 0.1,
        ob_imbalance_trend: 0.0,
        avg_spread_bps: 5.0,
        cum_net_qty_final: 100.0,
        cum_ratio_final: 1.5,
        fk_net_direction_mean: 0.4, // Score = 0.4 * 0.3 = 0.12... but we pass score directly
        fk_net_direction_max: 0.5,
        fk_net_direction_min: 0.3,
        fk_net_direction_final: 0.4,
        fk_buy_fill_total: 100.0,
        fk_sell_fill_total: 20.0,
        fk_buy_kill_total: 10.0,
        fk_sell_kill_total: 5.0,
        aggression_shift_mean: 0.3,
        aggression_shift_max: 0.4,
        aggression_shift_min: 0.2,
        aggression_shift_final: 0.3,
        absorption_score_max: 0.5, // Below 0.9 threshold
        absorption_score_mean: 0.4,
        absorption_score_final: 0.5,
        vd_buy_levels_max: 0,
        vd_sell_levels_max: 0,
        avg_impact_buy_slippage_bps: 5.0,
        avg_impact_sell_slippage_bps: 8.0, // skew = 8/5 = 1.6 > 1.2
        total_trade_volume: 1000.0,
        avg_buy_volume_pct: 80.0,
        avg_trade_count_per_sec: 2.0,
    };

    // Score above entry threshold, but momentum below min_momentum_threshold
    let signal = engine_high.check_entry(&Num, 0.35, &bar_moderate_momentum);
    assert_eq!(signal, Signal::Hold,
        "Should NOT enter when momentum ({}) < min_momentum_threshold (0.5)",
        bar_moderate_momentum.fk_net_direction_mean);

    // Test with low momentum threshold - SHOULD enter
    let config_low = StrategyConfig {
        symbol: "BTCUSDT".to_string(),
        long_entry_threshold: 0.3,
        min_momentum_threshold: 0.1, // Very low
        min_absorption_for_reversal: 0.9,
        ..StrategyConfig::default(&Num)
    };
    let engine_low = StrategyEngine::new(&Num, config_low, 10_000.0);

    let signal = engine_low.check_entry(&Num, 0.35, &bar_moderate_momentum);
    assert_eq!(signal, Signal::GoLong,
        "SHOULD enter when momentum ({}) > min_momentum_threshold (0.1)",
        bar_moderate_momentum.fk_net_direction_mean);
}

#[test]
fn test_default_config_is_30s_preset() {
    let default_config = StrategyConfig::default(&Num);
    let preset_30s = StrategyConfig::for_30s(&Num);

    assert_eq!(default_config.bar_duration_ms, preset_30s.bar_duration_ms);
    assert_eq!(default_config.long_entry_threshold, preset_30s.long_entry_threshold);
    assert_eq!(default_config.short_entry_threshold, preset_30s.short_entry_threshold);
    assert_eq!(default_config.stop_loss_pct, preset_30s.stop_loss_pct);
    assert_eq!(default_config.min_void_levels_for_reversion, preset_30s.min_void_levels_for_reversion);
}

fn long_engine() -> StrategyEngine<f64> {
    let config = StrategyConfig { symbol: "BTCUSDT".to_string(), ..StrategyConfig::default(&Num) };
    let mut engine = StrategyEngine::new(&Num, config, 10_000.0);
    assert_eq!(engine.on_bar(&Num, &make_bullish_bar(60_000)), Signal::GoLong);
    assert_eq!(engine.position().state, PositionState::Long);
    engine
}

fn held(position_amt: f64) -> PositionInfo<f64> {
    PositionInfo {
        symbol: "BTCUSDT".to_string(),
        position_amt,
        entry_price: 48_000.0,
        unrealized_pnl: -12.5,
        leverage: 5,
        margin_type: "cross".to_string(),
    }
}

#[test]
fn a_position_on_the_exchange_is_taken_over() {
    let mut engine = long_engine();
    engine.sync_from_exchange(&Num, 70_000, &Ok(12_345.0), &Ok(Some(held(-0.5))));
    assert_eq!(engine.equity(), 12_345.0);
    let position = engine.position();
    assert_eq!(position.state, PositionState::Short);
    assert_eq!(position.entry_price, 48_000.0);
    assert_eq!(position.entry_time_ms, 70_000);
    assert_eq!(position.quantity, 0.5);
    assert_eq!(position.unrealized_pnl, -12.5);
    assert_eq!((position.max_favorable, position.max_adverse), (0.0, 0.0));

    engine.sync_from_exchange(&Num, 80_000, &Ok(0.0), &Ok(Some(held(0.25))));
    assert_eq!(engine.equity(), 12_345.0);
    assert_eq!(engine.position().state, PositionState::Long);
    engine.sync_from_exchange(&Num, 90_000, &Ok(0.0), &Ok(Some(held(0.0))));
    assert!(engine.position().is_flat());
}

#[test]
fn no_position_on_the_exchange_leaves_the_engine_flat() {
    let mut engine = long_engine();
    engine.sync_from_exchange(&Num, 70_000, &Err("down".to_string()), &Ok(None));
    assert!(engine.position().is_flat());
    assert_eq!(engine.position().quantity, 0.0);
    assert_eq!(engine.position().entry_time_ms, 0);
}

#[test]
fn an_exchange_that_does_not_answer_changes_nothing() {
    let mut engine = long_engine();
    let equity = engine.equity();
    let quantity = engine.position().quantity;
    let down = || "down".to_string();
    engine.sync_from_exchange(&Num, 70_000, &Err(down()), &Err(down()));
    assert_eq!(engine.equity(), equity);
    assert_eq!(engine.position().state, PositionState::Long);
    assert_eq!(engine.position().quantity, quantity);
    assert_eq!(engine.position().entry_time_ms, 60_000);
}

#[test]
fn mirrored_bars_score_opposite() {
    let engine = StrategyEngine::new(&Num, StrategyConfig::default(&Num), 10_000.0);
    for flow in [-0.6, 0.0, 0.4] {
        for book in [-0.5, 0.3] {
            let mut bar = make_bullish_bar(60_000);
            bar.fk_net_direction_mean = flow;
            bar.ob_imbalance_mean = book;
            bar.absorption_score_max = 0.95;
            let mut mirror = make_bullish_bar(60_000);
            mirror.fk_net_direction_mean = -flow;
            mirror.ob_imbalance_mean = -book;
            mirror.absorption_score_max = 0.95;
            mirror.aggression_shift_mean = -bar.aggression_shift_mean;
            mirror.avg_buy_volume_pct = 100.0 - bar.avg_buy_volume_pct;
            assert_eq!(engine.compute_score(&Num, &mirror), -engine.compute_score(&Num, &bar));
        }
    }
}

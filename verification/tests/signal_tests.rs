//! Signals of a snapshot of the market, and their lines of text.

use openbook::arith::{Arithmetic, Style, Term, Test};
use openbook::signal::{
    absorption_score, aggression_shift, average_option, cumulative_ratio, fill_kill_aggregation,
    mid_price, net_direction, order_book_imbalance, sample_csv_header, sample_csv_row, spread_bps,
    trade_flow,
    BurstDirection, FillKillSample, ImpactEstimate, Level, MarketSnapshot, MarketTrade, RatioValue,
    SignalConfig, SignalExtractor, SignalSample, BUFFER_CAPACITY,
};

/// Arithmetic on `f64`.
struct Num;

impl Arithmetic<f64> for Num {
    fn eval(&self, term: Term<f64>) -> f64 {
        match term {
            Term::Ratio(n, d) => n as f64 / d as f64,
            Term::Count(n) => n as f64,
            Term::Infinity => f64::INFINITY,
            Term::NegInfinity => f64::NEG_INFINITY,
            Term::Neg(x) => -x,
            Term::Abs(x) => x.abs(),
            Term::Square(x) => x.powi(2),
            Term::Sqrt(x) => x.sqrt(),
            Term::Ln(x) => x.ln(),
            Term::Floor(x) => x.floor(),
            Term::Ceil(x) => x.ceil(),
            Term::Round(x) => x.round(),
            Term::Add(x, y) => x + y,
            Term::Sub(x, y) => x - y,
            Term::Mul(x, y) => x * y,
            Term::Div(x, y) => x / y,
            Term::Max(x, y) => x.max(y),
            Term::Min(x, y) => x.min(y),
        }
    }

    fn test(&self, comparison: Test<f64>) -> bool {
        match comparison {
            Test::Less(x, y) => x < y,
            Test::LessEq(x, y) => x <= y,
            Test::Equal(x, y) => x == y,
            Test::Finite(x) => x.is_finite(),
        }
    }

    fn whole(&self, number: f64) -> u64 {
        number as u64
    }

    fn text(&self, number: f64, style: Style) -> String {
        match style {
            Style::Shortest => format!("{}", number),
            Style::Fixed(p) => format!("{:.*}", p, number),
            Style::Signed(p) => format!("{:+.*}", p, number),
        }
    }

    fn parse(&self, text: &str) -> Result<f64, String> {
        text.parse::<f64>().map_err(|e| e.to_string())
    }
}

fn empty_market() -> MarketSnapshot<f64> {
    MarketSnapshot {
        last_event_time: 0,
        tick_size: 0.1,
        best_bid: None,
        best_ask: None,
        spread: None,
        bids: Vec::new(),
        asks: Vec::new(),
        fill_kill: Vec::new(),
        rolling_window_ms: 300_000,
        cum_fill_qty: 0.0,
        cum_kill_qty: 0.0,
        cum_ratio: None,
        buy_impact: ImpactEstimate { slippage_bps: 0.0, levels_consumed: 0 },
        sell_impact: ImpactEstimate { slippage_bps: 0.0, levels_consumed: 0 },
        trades: Vec::new(),
        vd_buy_levels: 0,
        vd_sell_levels: 0,
    }
}

fn burst(time: u64, direction: BurstDirection, fill: f64, kill: f64) -> FillKillSample<f64> {
    FillKillSample {
        timestamp_ms: time,
        direction,
        fill_qty: fill,
        kill_qty: kill,
        ratio: RatioValue::Na,
        signed_log_ratio: Some(0.5),
        overfill: false,
    }
}

fn trade(time: u64, price: f64, quantity: f64, is_buy: bool) -> MarketTrade<f64> {
    MarketTrade { received_at_ms: time, price, quantity, is_buy }
}

#[test]
fn signal_config_defaults() {
    let cfg = SignalConfig::default(&Num);
    assert_eq!(cfg.sample_interval_ms, 1_000);
    assert_eq!(cfg.ob_near_ticks, 10);
    assert!((cfg.impact_notional_usd - 10_000.0_f64).abs() < f64::EPSILON);
    assert_eq!(cfg.trade_window_ms, 1_000);
    assert_eq!(cfg.absorption_lookback_ms, 5_000);
    assert_eq!(cfg.aggression_shift_window_ms, 30_000);
    assert_eq!(cfg.symbol, "btcusdt");
}

fn assert_send_sync<T: Send + Sync>() {}

#[test]
fn signal_sample_is_send_sync() {
    assert_send_sync::<SignalSample<f64>>();
}

#[test]
fn signal_extractor_empty_book() {
    let config = SignalConfig::default(&Num);
    let mut extractor = SignalExtractor::new(config);

    let sample = extractor.sample(&Num, &empty_market());
    assert_eq!(sample.mid_price, 0.0);
    assert_eq!(sample.spread_bps, 0.0);
    assert_eq!(sample.ob_imbalance, 0.0);
    assert!(extractor.latest().is_some());
    assert_eq!(extractor.recent_samples(5).len(), 1);
}

#[test]
fn average_option_f64_empty() {
    assert_eq!(average_option::<f64, Num>(&Num, &vec![]), None);
}

#[test]
fn average_option_f64_single() {
    assert_eq!(average_option(&Num, &vec![3.0]), Some(3.0));
}

#[test]
fn average_option_f64_multiple() {
    let vals = vec![1.0, 2.0, 3.0, 4.0, 5.0];
    assert_eq!(average_option(&Num, &vals), Some(3.0));
}

#[test]
fn csv_header_and_row_agree() {
    let mut market = empty_market();
    market.last_event_time = 1000;
    market.best_bid = Some(2999.0);
    market.best_ask = Some(3001.0);
    let mut config = SignalConfig::default(&Num);
    config.symbol = "ethusdt".to_string();
    let extractor = SignalExtractor::new(config);
    let sample = extractor.compute_sample(&Num, &market);
    let header = sample_csv_header();
    let row = sample_csv_row(&Num, &sample);
    assert!(header.starts_with("timestamp_ms,"));
    assert!(row.starts_with("1000,ethusdt,3000,"));
    assert_eq!(header.split(',').count(), 27);
    assert_eq!(row.split(',').count(), 27);
}

#[test]
fn mid_price_needs_a_side() {
    assert_eq!(mid_price(&Num, Some(99.0), Some(101.0)), 100.0);
    assert_eq!(mid_price::<f64, Num>(&Num, None, None), 0.0);
}

#[test]
fn spread_in_basis_points() {
    assert_eq!(spread_bps(&Num, Some(1.0), 100.0), 100.0);
    assert_eq!(spread_bps(&Num, Some(1.0), 0.0), 0.0);
    assert_eq!(spread_bps(&Num, None, 100.0), 0.0);
}

#[test]
fn imbalance_counts_levels_near_the_mid() {
    let bids = vec![
        Level { price: 90.0, quantity: 50.0 },
        Level { price: 99.5, quantity: 3.0 },
    ];
    let asks = vec![
        Level { price: 100.5, quantity: 1.0 },
        Level { price: 110.0, quantity: 50.0 },
    ];
    let balance = order_book_imbalance(&Num, &bids, &asks, 100.0, 0.1, 10);
    assert_eq!(balance.bid_depth, 3.0);
    assert_eq!(balance.ask_depth, 1.0);
    assert_eq!(balance.imbalance, 0.5);
}

#[test]
fn fills_and_kills_are_added_up_by_side() {
    let samples = vec![
        burst(100, BurstDirection::Buy, 9.0, 9.0),
        burst(900_000, BurstDirection::Buy, 3.0, 1.0),
        burst(900_100, BurstDirection::Sell, 1.0, 2.0),
    ];
    let totals = fill_kill_aggregation(&Num, &samples, 900_200, 300_000);
    assert_eq!(totals.buy_fill, 3.0);
    assert_eq!(totals.buy_kill, 1.0);
    assert_eq!(totals.sell_fill, 1.0);
    assert_eq!(totals.sell_kill, 2.0);
    assert_eq!(totals.net_direction, 0.5);
    assert_eq!(totals.buy_signed_log_ratio, Some(0.5));
}

#[test]
fn aggression_shifts_between_the_halves_of_the_window() {
    let samples = vec![
        burst(1_000, BurstDirection::Sell, 2.0, 0.0),
        burst(29_000, BurstDirection::Buy, 2.0, 0.0),
    ];
    assert_eq!(aggression_shift(&Num, &samples, 30_000, 30_000), 2.0);
    assert_eq!(aggression_shift::<f64, Num>(&Num, &vec![], 30_000, 30_000), 0.0);
}

#[test]
fn ratio_without_denominator() {
    assert_eq!(cumulative_ratio(&Num, Some(RatioValue::Finite(1.5))), 1.5);
    assert_eq!(cumulative_ratio::<f64, Num>(&Num, Some(RatioValue::Infinite)), f64::INFINITY);
    assert_eq!(cumulative_ratio::<f64, Num>(&Num, Some(RatioValue::Na)), 0.0);
    assert_eq!(cumulative_ratio::<f64, Num>(&Num, None), 0.0);
}

#[test]
fn trades_of_the_last_second() {
    let trades = vec![
        trade(1_000, 100.0, 7.0, true),
        trade(9_500, 100.0, 3.0, true),
        trade(9_900, 100.0, 1.0, false),
    ];
    let flow = trade_flow(&Num, &trades, 10_000, 1_000);
    assert_eq!(flow.count, 2);
    assert_eq!(flow.volume, 400.0);
    assert_eq!(flow.buy_volume_pct, 75.0);
}

#[test]
fn absorption_is_between_zero_and_one() {
    let trades = vec![
        trade(9_000, 100.0, 5.0, true),
        trade(9_500, 100.0, 5.0, true),
        trade(9_900, 100.0, 5.0, true),
    ];
    let score = absorption_score(&Num, &trades, 10_000, 5_000);
    assert!((0.0..=1.0).contains(&score));
    assert!(score > 0.0);
    assert_eq!(absorption_score::<f64, Num>(&Num, &vec![], 10_000, 5_000), 0.0);
}

#[test]
fn absorption_falls_with_the_price_change() {
    let quiet = vec![trade(9_000, 100.0, 1.0, true), trade(9_500, 100.0, 1.0, true)];
    assert_eq!(absorption_score(&Num, &quiet, 10_000, 5_000), 1.0);
    let loud = vec![trade(9_000, 100.0, 0.001, true), trade(9_500, 101.0, 0.001, true)];
    let score = absorption_score(&Num, &loud, 10_000, 5_000);
    assert!((score - (0.201f64.ln() + 5.0) / 10.0).abs() < 1e-9);
    let heavy = vec![trade(9_000, 100.0, 9.0, true), trade(9_500, 101.0, 9.0, true)];
    assert_eq!(absorption_score(&Num, &heavy, 10_000, 5_000), 1.0);
    let thin = vec![trade(9_000, 100.0, 1e-9, true), trade(9_500, 200.0, 1e-9, true)];
    assert_eq!(absorption_score(&Num, &thin, 10_000, 5_000), 0.0);
}

#[test]
fn no_trades_are_neutral() {
    let old = vec![trade(1_000, 100.0, 5.0, true)];
    let flow = trade_flow(&Num, &old, 10_000, 1_000);
    assert_eq!((flow.count, flow.volume, flow.buy_volume_pct), (0, 0.0, 50.0));
    assert_eq!(absorption_score(&Num, &old, 10_000, 1_000), 0.0);
}

#[test]
fn a_book_without_asks_is_neutral() {
    let mut market = empty_market();
    market.best_bid = Some(100.0);
    market.bids = vec![Level { price: 100.0, quantity: 2.0 }];
    let sample = SignalExtractor::new(SignalConfig::default(&Num)).sample(&Num, &market);
    assert_eq!((sample.mid_price, sample.spread_bps, sample.ob_imbalance), (0.0, 0.0, 0.0));
    assert_eq!((sample.ob_bid_depth_near, sample.ob_ask_depth_near), (0.0, 0.0));
}

#[test]
fn extractor_keeps_the_latest_samples() {
    let mut extractor = SignalExtractor::new(SignalConfig::default(&Num));
    let mut market = empty_market();
    for i in 0..(BUFFER_CAPACITY as u64 + 5) {
        market.last_event_time = i;
        let _ = extractor.sample(&Num, &market);
    }
    assert_eq!(extractor.recent_samples(1_000).len(), BUFFER_CAPACITY);
    assert_eq!(extractor.recent_samples(1_000)[0].timestamp_ms, 5);
    assert_eq!(extractor.latest().map(|s| s.timestamp_ms), Some(BUFFER_CAPACITY as u64 + 4));
    assert_eq!(extractor.recent_samples(2).len(), 2);
}

#[test]
fn swapped_sides_turn_the_shift() {
    let samples = vec![
        burst(1_000, BurstDirection::Sell, 2.0, 0.0),
        burst(2_000, BurstDirection::Buy, 0.3, 0.0),
        burst(20_000, BurstDirection::Sell, 0.1, 0.0),
        burst(29_000, BurstDirection::Buy, 2.0, 0.0),
    ];
    let swapped: Vec<FillKillSample<f64>> = samples
        .iter()
        .map(|sample| FillKillSample {
            direction: match sample.direction {
                BurstDirection::Buy => BurstDirection::Sell,
                BurstDirection::Sell => BurstDirection::Buy,
            },
            ..*sample
        })
        .collect();
    let shift = aggression_shift(&Num, &samples, 30_000, 30_000);
    assert!(0.0 < shift && shift < 2.0);
    assert_eq!(aggression_shift(&Num, &swapped, 30_000, 30_000), -shift);
}

#[test]
fn directions_and_imbalances_lie_within_their_bounds() {
    for bought in [0.0, 1e-12, 0.1, 0.3, 1e300] {
        for sold in [0.0, 1e-12, 0.1, 0.7, 1e300] {
            let direction = net_direction(&Num, bought, sold);
            assert!((-1.0..=1.0).contains(&direction));
            assert_eq!(net_direction(&Num, sold, bought), -direction);
        }
    }
    let bids = vec![Level { price: 99.9, quantity: 3.0 }];
    let balance = order_book_imbalance(&Num, &bids, &vec![], 100.0, 0.1, 10);
    assert_eq!(balance.imbalance, 1.0);
}

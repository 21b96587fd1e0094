use std::sync::Arc;

use openbook::arith::{Arithmetic, Rounding, Style, Term, Test};
use openbook::charts::{
    compute_shared_time_domain, cumulative_chart, equity_curve, event_marks, hover_line,
    hovered_time, kpi_line, level_lines, plot_area, CumulativeSample, EventSettings, FillKillKpis,
};
use openbook::geometry::{Area, Spot};
use openbook::ladder::{
    ask_ladder, bar_width, bid_ladder, book_ladder, gather, read_bin_width, Middle,
};
use openbook::panel::{
    connection_text, history_secs, impact_pane, latency_text, signal_text, stats_bar,
    strategy_pane, trade_log, ImpactPane, MarketFigures, MarketImpact, Severity,
};
use openbook::picker::Tone;
use openbook::pipeline::{compute_instant_score, StrategyPipeline, EQUITY_HISTORY_MAX};
use openbook::session::{base_asset_symbol, connect_request, read_amount, ConnectRequest, DesyncWatch};
use openbook::signal::{
    BurstDirection, FillKillSample, ImpactEstimate, Level, MarketSnapshot, RatioValue,
    SignalConfig, SignalExtractor, SignalSample,
};
use openbook::slices::DepthSlice;
use openbook::snapshot::{FeedTrade, Readings, SharedState};
use openbook::strategy::{PositionState, Side, Signal, TradeRecord};
use openbook::terminal::OrderBookApp;
use openbook::workspace::PaneKind;

/// Arithmetic on `f64`, and on `f32` for the screen.
struct Num;

impl Arithmetic<f64> for Num {
    fn eval(&self, term: Term<f64>) -> f64 {
        match term {
            Term::Ratio(n, d) => n as f64 / d as f64,
            Term::Count(n) => n as f64,
            Term::Infinity => f64::INFINITY,
            Term::NegInfinity => f64::NEG_INFINITY,
            Term::Neg(x) => -x,
            Term::Abs(x) => x.abs(),
            Term::Square(x) => x.powi(2),
            Term::Sqrt(x) => x.sqrt(),
            Term::Ln(x) => x.ln(),
            Term::Floor(x) => x.floor(),
            Term::Ceil(x) => x.ceil(),
            Term::Round(x) => x.round(),
            Term::Add(x, y) => x + y,
            Term::Sub(x, y) => x - y,
            Term::Mul(x, y) => x * y,
            Term::Div(x, y) => x / y,
            Term::Max(x, y) => x.max(y),
            Term::Min(x, y) => x.min(y),
        }
    }

    fn test(&self, comparison: Test<f64>) -> bool {
        match comparison {
            Test::Less(x, y) => x < y,
            Test::LessEq(x, y) => x <= y,
            Test::Equal(x, y) => x == y,
            Test::Finite(x) => x.is_finite(),
        }
    }

    fn whole(&self, number: f64) -> u64 {
        number as u64
    }

    fn text(&self, number: f64, style: Style) -> String {
        match style {
            Style::Shortest => format!("{}", number),
            Style::Fixed(p) => format!("{:.*}", p, number),
            Style::Signed(p) => format!("{:+.*}", p, number),
        }
    }

    fn parse(&self, text: &str) -> Result<f64, String> {
        text.parse::<f64>().map_err(|e| e.to_string())
    }
}


impl Arithmetic<f32> for Num {
    fn eval(&self, term: Term<f32>) -> f32 {
        match term {
            Term::Ratio(n, d) => n as f32 / d as f32,
            Term::Count(n) => n as f32,
            Term::Infinity => f32::INFINITY,
            Term::NegInfinity => f32::NEG_INFINITY,
            Term::Neg(x) => -x,
            Term::Abs(x) => x.abs(),
            Term::Square(x) => x.powi(2),
            Term::Sqrt(x) => x.sqrt(),
            Term::Ln(x) => x.ln(),
            Term::Floor(x) => x.floor(),
            Term::Ceil(x) => x.ceil(),
            Term::Round(x) => x.round(),
            Term::Add(x, y) => x + y,
            Term::Sub(x, y) => x - y,
            Term::Mul(x, y) => x * y,
            Term::Div(x, y) => x / y,
            Term::Max(x, y) => x.max(y),
            Term::Min(x, y) => x.min(y),
        }
    }

    fn test(&self, comparison: Test<f32>) -> bool {
        match comparison {
            Test::Less(x, y) => x < y,
            Test::LessEq(x, y) => x <= y,
            Test::Equal(x, y) => x == y,
            Test::Finite(x) => x.is_finite(),
        }
    }

    fn whole(&self, number: f32) -> u64 {
        number as u64
    }

    fn text(&self, number: f32, style: Style) -> String {
        match style {
            Style::Shortest => format!("{}", number),
            Style::Fixed(p) => format!("{:.*}", p, number),
            Style::Signed(p) => format!("{:+.*}", p, number),
        }
    }

    fn parse(&self, text: &str) -> Result<f32, String> {
        text.parse::<f32>().map_err(|e| e.to_string())
    }
}

impl Rounding<f64, f32> for Num {
    fn narrow(&self, number: f64) -> f32 {
        number as f32
    }

    fn widen(&self, number: f32) -> f64 {
        number as f64
    }
}

fn area(left: f32, top: f32, right: f32, bottom: f32) -> Area<f32> {
    Area { left, top, right, bottom }
}

fn total(timestamp_ms: u64, fill: f64, kill: f64) -> CumulativeSample<f64> {
    CumulativeSample {
        timestamp_ms,
        cum_fill_qty: fill,
        cum_kill_qty: kill,
        ratio: RatioValue::Na,
    }
}

fn burst(timestamp_ms: u64, fill: f64, ratio: RatioValue<f64>, log: Option<f64>) -> FillKillSample<f64> {
    FillKillSample {
        timestamp_ms,
        direction: BurstDirection::Buy,
        fill_qty: fill,
        kill_qty: 1.0,
        ratio,
        signed_log_ratio: log,
        overfill: true,
    }
}

// ---------------------------------------------------------------------------
// Charts
// ---------------------------------------------------------------------------

#[test]
fn a_domain_holds_its_times() {
    let totals = vec![total(100, 1.0, 1.0), total(900, 2.0, 1.0), total(1_000, 3.0, 1.0)];
    let bursts = vec![
        burst(150, 1.0, RatioValue::Na, None),
        burst(600, 1.0, RatioValue::Na, None),
        burst(1_100, 1.0, RatioValue::Na, None),
    ];
    let domain = compute_shared_time_domain(&totals, &bursts, 500);
    assert_eq!((domain.start_ms, domain.end_ms), (600, 1_100));
    assert_eq!((domain.cumulative_from, domain.cumulative_to), (1, 3));
    assert_eq!((domain.events_from, domain.events_to), (1, 3));
    let none = compute_shared_time_domain::<f64>(&vec![], &vec![], 500);
    assert_eq!((none.start_ms, none.end_ms), (0, 1));
    let point = compute_shared_time_domain(&vec![total(0, 1.0, 1.0)], &vec![], 500);
    assert_eq!((point.start_ms, point.end_ms), (0, 1));
}

#[test]
fn a_plot_leaves_room_for_its_labels() {
    let plot = plot_area(&Num, area(0.0, 0.0, 160.0, 100.0), 22.0f32).unwrap();
    assert_eq!((plot.left, plot.top, plot.right, plot.bottom), (52.0, 22.0, 152.0, 82.0));
    assert!(plot_area(&Num, area(0.0, 0.0, 62.0, 100.0), 22.0f32).is_none());
}

#[test]
fn a_hovered_time_is_shared() {
    let plot = area(0.0, 0.0, 100.0, 50.0);
    let spot = Some(Spot { x: 25.0f32, y: 10.0 });
    let time: Option<f64> = hovered_time(&Num, plot, spot, 1_000, 2_000);
    assert_eq!(time, Some(1_250.0));
    let off: Option<f64> = hovered_time(&Num, plot, Some(Spot { x: 25.0f32, y: 60.0 }), 1_000, 2_000);
    assert_eq!(off, None);
    let gone: Option<f64> = hovered_time(&Num, plot, None, 1_000, 2_000);
    assert_eq!(gone, None);
    let x: Option<f32> = hover_line(&Num, plot, 1_250.0f64, 1_000, 2_000);
    assert_eq!(x, Some(25.0));
}

#[test]
fn totals_are_drawn_as_two_lines() {
    let plot = area(0.0, 0.0, 100.0, 50.0);
    let totals = vec![total(0, 2.0, 0.0), total(500, 4.0, 1.0)];
    let domain = compute_shared_time_domain(&totals, &vec![], 500);
    let chart = cumulative_chart(&Num, plot, domain, &totals).unwrap();
    assert_eq!(chart.top_label, "4.00");
    assert_eq!((chart.fill[0].x, chart.fill[0].y), (0.0, 25.0));
    assert_eq!((chart.fill[1].x, chart.fill[1].y), (100.0, 0.0));
    assert_eq!(chart.kill[1].y, 37.5);
    let none = compute_shared_time_domain(&totals, &vec![burst(9_000, 1.0, RatioValue::Na, None)], 500);
    assert!(cumulative_chart(&Num, plot, none, &totals).is_none());
}

#[test]
fn bursts_are_marked() {
    let plot = area(0.0, 0.0, 100.0, 60.0);
    let bursts = vec![
        burst(0, 2.0, RatioValue::Infinite, None),
        burst(100, 4.0, RatioValue::Infinite, Some(0.0)),
        burst(500, 1.0, RatioValue::Finite(2.0), Some(3.0)),
        burst(1_000, 1.0, RatioValue::Infinite, Some(-9.0)),
    ];
    let domain = compute_shared_time_domain(&vec![], &bursts, 1_000);
    let settings = EventSettings { show_infinity: true, highlight_overfill: true };
    let marks = event_marks(&Num, plot, domain, settings, &bursts);
    assert_eq!(marks.len(), 4);
    assert!(marks[0].infinity.as_ref().unwrap().is_labelled);
    assert!(marks[0].infinity.as_ref().unwrap().is_overfill);
    assert!(marks[0].dot.is_none());
    assert!(!marks[1].infinity.as_ref().unwrap().is_labelled);
    let dot = marks[1].dot.as_ref().unwrap();
    assert_eq!((dot.y, dot.radius), (30.0, 6.0));
    assert!(marks[2].infinity.is_none());
    assert_eq!(marks[2].dot.as_ref().unwrap().y, 0.0);
    assert_eq!(marks[2].dot.as_ref().unwrap().radius, 3.0);
    assert!(marks[3].infinity.as_ref().unwrap().is_labelled);
    assert_eq!(marks[3].dot.as_ref().unwrap().y, 60.0);
    let plain = EventSettings { show_infinity: false, highlight_overfill: false };
    let quiet = event_marks(&Num, plot, domain, plain, &bursts);
    assert!(quiet.iter().all(|m| m.infinity.is_none()));
    assert!(!quiet[1].dot.as_ref().unwrap().is_overfill);
}

#[test]
fn log_levels_have_lines() {
    let lines = level_lines::<f64, f32, Num>(&Num, area(0.0, 0.0, 100.0, 60.0));
    let labels: Vec<&str> = lines.iter().map(|l| l.label.as_str()).collect();
    assert_eq!(labels, vec!["-2", "-1", "0", "+1", "+2"]);
    assert_eq!(lines[2].y, 30.0);
    assert!(lines[2].is_zero && !lines[1].is_zero);
    assert!(lines[4].y < lines[3].y);
}

fn kpis(ratio: RatioValue<f64>) -> FillKillKpis<f64> {
    FillKillKpis {
        cum_fill_qty: 1.5,
        cum_kill_qty: 2.0,
        cum_net_qty: -0.5,
        cum_ratio: ratio,
        overfill_pct: 12.34,
    }
}

#[test]
fn key_figures_are_written() {
    let line = kpi_line(&Num, &kpis(RatioValue::Finite(0.75)));
    assert_eq!(line.fill, "5m Fill 1.500");
    assert_eq!(line.kill, "5m Kill 2.000");
    assert_eq!(line.ratio, "5m F:K 0.75");
    assert!(line.has_ratio);
    assert_eq!(line.net, "5m Net -0.500");
    assert!(matches!(line.net_tone, Tone::Down));
    assert_eq!(line.overfill, "Overfill 12.3%");
    assert_eq!(kpi_line(&Num, &kpis(RatioValue::Infinite)).ratio, "5m F:K \u{221e}");
    let none = kpi_line(&Num, &kpis(RatioValue::Na));
    assert_eq!(none.ratio, "5m F:K N/A");
    assert!(!none.has_ratio);
}

#[test]
fn equity_is_drawn() {
    let plot = area(0.0, 0.0, 100.0, 50.0);
    let history = vec![(0, 100.0), (1, 90.0), (2, 110.0)];
    let curve = equity_curve(&Num, plot, &history, 100.0).unwrap();
    assert_eq!((curve.points[0].x, curve.points[0].y), (0.0, 25.0));
    assert_eq!((curve.points[1].x, curve.points[1].y), (50.0, 50.0));
    assert_eq!((curve.points[2].x, curve.points[2].y), (100.0, 0.0));
    assert_eq!(curve.initial_y, Some(25.0));
    assert!(curve.is_up);
    assert_eq!(
        (curve.top_label.as_str(), curve.bottom_label.as_str(), curve.last_label.as_str()),
        ("110", "90", "110")
    );
    assert!(equity_curve(&Num, plot, &vec![(0, 1.0)], 1.0).is_none());
    assert!(equity_curve(&Num, area(0.0, 0.0, 5.0, 50.0), &history, 1.0).is_none());
    assert_eq!(equity_curve(&Num, plot, &history, 500.0).unwrap().initial_y, None);
}

// ---------------------------------------------------------------------------
// The book
// ---------------------------------------------------------------------------

#[test]
fn bins_ascend() {
    let levels = vec![(101.2, 1.0), (100.1, 2.0), (101.9, 4.0), (99.9, 8.0)];
    assert_eq!(gather(&Num, &levels, 1.0), vec![(99.0, 8.0), (100.0, 2.0), (101.0, 5.0)]);
    assert_eq!(bid_ladder(&Num, &levels, 1.0)[0], (101.0, 5.0));
    assert_eq!(ask_ladder(&Num, &levels, 1.0)[0], (99.0, 8.0));
    let many: Vec<(f64, f64)> = (0..40).map(|i| (i as f64, 1.0)).collect();
    let bids = bid_ladder(&Num, &many, 1.0);
    assert_eq!((bids.len(), bids[0].0, bids[14].0), (15, 39.0, 25.0));
    let asks = ask_ladder(&Num, &many, 1.0);
    assert_eq!((asks.len(), asks[14].0), (15, 14.0));
}

#[test]
fn the_book_is_shown_as_a_ladder() {
    let bids = vec![(99.0, 2.0), (98.0, 4.0)];
    let asks = vec![(101.0, 1.0)];
    let ladder = book_ladder(&Num, &bids, &asks, &vec![], 2.0, 1.0, 100.0f32, 1);
    assert_eq!(ladder.bids.len(), 2);
    assert_eq!(ladder.bids[0].price, "99.0");
    assert_eq!(ladder.bids[0].qty, "2.0000");
    assert!(ladder.bids[0].is_best && !ladder.bids[1].is_best);
    assert_eq!(ladder.bids[0].bar, 50.0);
    assert_eq!(ladder.bids[1].bar, 100.0);
    assert_eq!(ladder.asks[0].bar, 25.0);
    assert!(matches!(ladder.middle, Middle::Spread(ref s) if s == "--- Spread: 2.0 ---"));
    let trades = vec![(1, 99.0, 1.0, true), (2, 100.5, 1.0, false)];
    let ladder = book_ladder(&Num, &bids, &asks, &trades, 2.0, 1.0, 100.0f32, 1);
    assert!(matches!(ladder.middle, Middle::LastTrade(ref s, false) if s == "--- LTP: 100.5 ---"));
    assert_eq!(bar_width(&Num, 400.0f32), 218.0);
    assert_eq!(bar_width(&Num, 100.0f32), 20.0);
}

#[test]
fn a_bin_width_is_read() {
    assert_eq!(read_bin_width(&Num, " 2.5 ", 1.0f64), 2.5);
    assert_eq!(read_bin_width(&Num, "0", 1.0f64), 1.0);
    assert_eq!(read_bin_width(&Num, "abc", 3.0f64), 3.0);
}

// ---------------------------------------------------------------------------
// Panels
// ---------------------------------------------------------------------------

#[test]
fn the_head_line_is_written() {
    assert_eq!(connection_text(true, "Live"), "\u{25cf} Live");
    assert_eq!(connection_text(false, "Down"), "\u{25cc} Down");
    assert_eq!(latency_text(42), "42ms");
    assert_eq!(latency_text(-1), "N/A");
    let list: Vec<DepthSlice<f64>> = [1_000, 91_500]
        .iter()
        .map(|t| DepthSlice { timestamp_ms: *t, levels: vec![], bids_len: 0 })
        .collect();
    assert_eq!(history_secs(&list, 300_000), 90);
    assert_eq!(history_secs(&list, 60_000), 60);
    assert_eq!(history_secs::<f64>(&vec![], 60_000), 0);
}

#[test]
fn market_figures_are_written() {
    let figures = MarketFigures {
        mid: 200.0,
        spread: 0.5,
        imbalance: 12.34,
        tps: 3.0,
        bid_count: 7,
        ask_count: 9,
    };
    let bar = stats_bar(&Num, figures, 1);
    assert_eq!(bar.mid, "200.0");
    assert_eq!(bar.spread, "0.5 (0.2500%)");
    assert_eq!(bar.imbalance, "+12.3%");
    assert!(matches!(bar.imbalance_tone, Tone::Up));
    assert_eq!((bar.tps.as_str(), bar.bids.as_str(), bar.asks.as_str()), ("3.0/s", "7", "9"));
    let empty = MarketFigures { mid: 0.0, imbalance: -1.0, ..figures };
    let bar = stats_bar(&Num, empty, 1);
    assert_eq!(bar.spread, "0.5 (0.0000%)");
    assert_eq!(bar.imbalance, "-1.0%");
}

fn impact(bps: f64, filled: bool) -> MarketImpact<f64> {
    MarketImpact {
        avg_fill_price: 100.0,
        worst_fill_price: 101.0,
        slippage_pct: bps / 100.0,
        slippage_bps: bps,
        levels_consumed: 3,
        total_qty_filled: 2.0,
        total_notional: 200.0,
        fully_filled: filled,
    }
}

fn impact_rows(bps: f64, filled: bool) -> openbook::panel::ImpactRows {
    match impact_pane(&Num, impact(bps, filled), 500.0, "ethusdt", 1) {
        ImpactPane::Rows(rows) => rows,
        _ => panic!("rows are due"),
    }
}

#[test]
fn market_impact_is_told() {
    let rows = impact_rows(4.0, true);
    assert_eq!((rows.avg_fill.as_str(), rows.worst_fill.as_str()), ("100.0", "101.0"));
    assert_eq!(rows.slippage, "0.040% (4.0 bps)");
    assert!(matches!(rows.severity, Severity::Low));
    assert_eq!(rows.levels_used, "3");
    assert_eq!(rows.qty_filled, "2.000000 ETH");
    assert_eq!(rows.notional, "$200.00");
    assert_eq!(rows.status, "Fully filled ($200.00)");
    assert!(matches!(impact_rows(20.0, true).severity, Severity::Medium));
    let part = impact_rows(21.0, false);
    assert!(matches!(part.severity, Severity::High));
    assert_eq!(part.status, "Partial fill ($200.00 of $500.00)");
    assert!(!part.fully_filled);
    assert!(matches!(
        impact_pane(&Num, impact(1.0, true), 0.0, "x", 1),
        ImpactPane::NoNotional
    ));
    let mut none = impact(1.0, false);
    none.total_qty_filled = 0.0;
    assert!(matches!(impact_pane(&Num, none, 5.0, "x", 1), ImpactPane::NoBook));
}

#[test]
fn signals_have_words() {
    assert_eq!(signal_text(Signal::GoLong), "\u{25b2} GO LONG");
    assert_eq!(signal_text(Signal::GoShort), "\u{25bc} GO SHORT");
    assert_eq!(signal_text(Signal::ExitLong), "\u{2715} EXIT LONG");
    assert_eq!(signal_text(Signal::ExitShort), "\u{2715} EXIT SHORT");
    assert_eq!(signal_text(Signal::Hold), "\u{2014} HOLD");
}

fn record(id: u64, side: Side, pnl: f64) -> TradeRecord<f64> {
    TradeRecord {
        id,
        symbol: "btcusdt".to_string(),
        side,
        entry_time_ms: 0,
        exit_time_ms: 60_000,
        entry_price: 100.0,
        exit_price: 100.0 + pnl,
        quantity: 1.0,
        pnl,
        pnl_pct: pnl,
        hold_duration_ms: 60_000,
        exit_reason: "take_profit".to_string(),
    }
}

#[test]
fn the_trade_log_starts_with_the_newest() {
    let lines = trade_log(&Num, &vec![record(1, Side::Buy, 2.0), record(2, Side::Sell, -1.5)]);
    assert_eq!(lines.len(), 2);
    assert_eq!(lines[0].id, "2");
    assert_eq!(lines[0].side.text, "SELL");
    assert_eq!(lines[0].exit, "98.50");
    assert_eq!(lines[0].pnl.text, "-1.50");
    assert!(matches!(lines[0].pnl.tone, Tone::Down));
    assert_eq!(lines[1].pnl_pct, "+2.00%");
    assert_eq!(lines[1].reason, "take_profit");
    assert_eq!(lines[1].entry, "100.00");
}

// ---------------------------------------------------------------------------
// The pipeline
// ---------------------------------------------------------------------------

fn market(time: u64, bid: f64, ask: f64) -> MarketSnapshot<f64> {
    MarketSnapshot {
        last_event_time: time,
        tick_size: 0.1,
        best_bid: Some(bid),
        best_ask: Some(ask),
        spread: Some(ask - bid),
        bids: vec![Level { price: bid, quantity: 1.0 }],
        asks: vec![Level { price: ask, quantity: 1.0 }],
        fill_kill: Vec::new(),
        rolling_window_ms: 300_000,
        cum_fill_qty: 0.0,
        cum_kill_qty: 0.0,
        cum_ratio: None,
        buy_impact: ImpactEstimate { slippage_bps: 0.0, levels_consumed: 0 },
        sell_impact: ImpactEstimate { slippage_bps: 0.0, levels_consumed: 0 },
        trades: Vec::new(),
        vd_buy_levels: 0,
        vd_sell_levels: 0,
    }
}

fn sample() -> SignalSample<f64> {
    let mut extractor = SignalExtractor::new(SignalConfig::default(&Num));
    extractor.sample(&Num, &market(1_000, 99.0, 101.0))
}

#[test]
fn the_instant_score_weighs_a_sample() {
    let mut s = sample();
    s.fk_net_direction = 0.5;
    s.aggression_shift = 0.4;
    s.ob_imbalance = 0.2;
    s.absorption_score = 0.8;
    s.buy_volume_pct_1s = 75.0;
    let expected = 0.5 * 0.30 + 0.4 * 0.25 + 0.2 * 0.15 + -0.8 * 0.15 + 0.5 * 0.15;
    assert!((compute_instant_score(&Num, &s) - expected).abs() < 1e-12);
    s.fk_net_direction = -0.5;
    let expected = -0.5 * 0.30 + 0.4 * 0.25 + 0.2 * 0.15 + 0.8 * 0.15 + 0.5 * 0.15;
    assert!((compute_instant_score(&Num, &s) - expected).abs() < 1e-12);
    s.absorption_score = 0.7;
    let expected = -0.5 * 0.30 + 0.4 * 0.25 + 0.2 * 0.15 + 0.5 * 0.15;
    assert!((compute_instant_score(&Num, &s) - expected).abs() < 1e-12);
}

#[test]
fn bars_take_half_a_minute() {
    let mut pipeline: StrategyPipeline<f64> = StrategyPipeline::new(&Num, "ethusdt");
    assert_eq!(pipeline.engine.config.symbol, "ethusdt");
    assert!(pipeline.is_due(1_000));
    assert!(!pipeline.is_due(999));
    for second in 0..30 {
        assert!(!pipeline.step(&Num, &market(1_000 + second * 1_000, 99.0, 101.0)));
    }
    assert!(pipeline.step(&Num, &market(31_000, 99.0, 101.0)));
    assert!(pipeline.last_bar.is_some());
    assert_eq!(pipeline.equity_history.len(), 2);
    assert_eq!(pipeline.equity_history[0], (0, 10_000.0));
    assert!(matches!(pipeline.last_signal, Signal::Hold));
    pipeline.enabled = false;
    assert!(!pipeline.is_due(5_000));
    pipeline.restart(&Num, "solusdt");
    assert!(!pipeline.enabled);
    assert!(pipeline.last_bar.is_none());
    assert_eq!(pipeline.engine.config.symbol, "solusdt");
    assert_eq!(pipeline.equity_history.len(), 1);
}

#[test]
fn the_equity_history_is_bounded() {
    let mut pipeline: StrategyPipeline<f64> = StrategyPipeline::new(&Num, "x");
    for bar in 0..(EQUITY_HISTORY_MAX as u64 + 20) {
        pipeline.step(&Num, &market(1_000 + bar * 30_000, 99.0, 101.0));
    }
    assert_eq!(pipeline.equity_history.len(), EQUITY_HISTORY_MAX);
    assert!(pipeline.equity_history[0].0 > 0);
}

#[test]
fn the_strategy_pane_tells_the_state() {
    let mut pipeline: StrategyPipeline<f64> = StrategyPipeline::new(&Num, "btcusdt");
    let pane = strategy_pane(&Num, &pipeline, "btcusdt", 100.0);
    assert_eq!(pane.running, "RUNNING");
    assert_eq!(pane.symbol, "BTCUSDT");
    assert_eq!(pane.score.text, "+0.000");
    assert!(matches!(pane.score.tone, Tone::Even));
    assert_eq!(pane.signal, "\u{2014} HOLD");
    assert_eq!(pane.position.text, "FLAT");
    assert!(pane.open.is_none() && pane.bar.is_none());
    assert_eq!(pane.equity.text, "10000.00");
    assert_eq!(pane.initial, "10000.00");
    assert_eq!(pane.daily_pnl.text, "+0.00");
    assert_eq!(pane.daily_pct, "+0.00%");
    assert_eq!(pane.trades, "0");
    assert_eq!(pane.circuit, "ACTIVE");
    assert_eq!(pane.losses, "0");
    assert!(!pane.many_losses);
    pipeline.enabled = false;
    pipeline.last_instant_score = -0.25;
    pipeline.engine.consecutive_losses = 3;
    pipeline.engine.session_active = false;
    pipeline.engine.position.state = PositionState::Long;
    pipeline.engine.position.entry_price = 99.0;
    pipeline.engine.position.unrealized_pnl = 1.0;
    let pane = strategy_pane(&Num, &pipeline, "btcusdt", 100.0);
    assert_eq!(pane.running, "PAUSED");
    assert_eq!(pane.live_score.text, "-0.250");
    assert!(matches!(pane.live_score.tone, Tone::Down));
    assert_eq!(pane.circuit, "TRIPPED");
    assert!(pane.many_losses);
    assert_eq!(pane.position.text, "LONG");
    let open = pane.open.unwrap();
    assert_eq!((open.entry.as_str(), open.current.as_str()), ("99.00", "100.00"));
    assert_eq!(open.pnl.text, "+1.00");
}

// ---------------------------------------------------------------------------
// The session
// ---------------------------------------------------------------------------

#[test]
fn a_session_waits_a_second() {
    let mut watch = DesyncWatch::new();
    assert!(!watch.observe(false, "Desynced: gap", 5_000));
    assert!(!watch.observe(false, "Desynced: gap", 5_999));
    assert!(watch.observe(false, "Desynced: gap", 6_000));
    assert_eq!(watch.deadline_ms, None);
    assert!(!watch.observe(false, "Desynced", 7_000));
    assert!(!watch.observe(true, "Desynced", 9_000));
    assert_eq!(watch.deadline_ms, None);
    assert!(!watch.observe(false, "Connecting", 9_000));
    assert_eq!(watch.deadline_ms, None);
}

#[test]
fn a_connection_is_asked_for() {
    let request: ConnectRequest<f64> = connect_request(&Num, "  EthUSDT ", "btcusdt", " 0.5");
    assert_eq!(request.symbol_input, "ethusdt");
    assert_eq!(request.symbol, "ethusdt");
    assert_eq!(request.bin_width, 0.5);
    let request: ConnectRequest<f64> = connect_request(&Num, " ", " SolUsdt", "-2");
    assert_eq!(request.symbol_input, " SolUsdt");
    assert_eq!(request.entered_symbol, "solusdt");
    assert_eq!(request.bin_width, 1.0);
    let request: ConnectRequest<f64> = connect_request(&Num, "", "  ", "x");
    assert_eq!(request.entered_symbol, "");
    assert_eq!(request.symbol, "btcusdt");
    assert_eq!(request.bin_width, 1.0);
}

#[test]
fn amounts_and_assets_are_read() {
    assert_eq!(read_amount(&Num, " 12.5 ", 1.0f64), 12.5);
    assert_eq!(read_amount(&Num, "-4", 1.0f64), 0.0);
    assert_eq!(read_amount(&Num, "?", 7.0f64), 7.0);
    assert_eq!(base_asset_symbol("ethusdt"), "ETH");
    assert_eq!(base_asset_symbol("btcusd"), "BTC");
    assert_eq!(base_asset_symbol("dogebtc"), "DOGEBTC");
    assert_eq!(base_asset_symbol(""), "BASE");
}

// ---------------------------------------------------------------------------
// Snapshots
// ---------------------------------------------------------------------------

fn shared() -> SharedState<f64, u8, u16> {
    SharedState {
        bids: vec![(98.0, 1.0), (99.0, 3.0)],
        asks: vec![(101.0, 1.0), (102.0, 1.0)],
        clock_offset: 100,
        trades: vec![FeedTrade { timestamp_ms: 5, price: 100.0, quantity: 2.0, is_buy: true }],
        checkpoints: vec![Arc::new(7)],
        deltas: vec![Arc::new(8), Arc::new(9)],
        fill_kill: vec![burst(5, 1.0, RatioValue::Na, None)],
        cumulative: vec![total(5, 1.0, 1.0)],
        connected: true,
        status_msg: "Live".to_string(),
        latency_ms: 12,
        tick_size: 0.1,
        price_decimals: 1,
        depth_epoch: 1,
        trade_epoch: 1,
        depth_history_epoch: 1,
        fill_kill_epoch: 1,
        cumulative_epoch: 1,
        snapshot_book_epoch: 0,
        snapshot_bids: Arc::new(Vec::new()),
        snapshot_asks: Arc::new(Vec::new()),
        snapshot_trade_epoch: 0,
        snapshot_trades: Arc::new(Vec::new()),
        snapshot_depth_history_epoch: 0,
        snapshot_checkpoints: Arc::new(Vec::new()),
        snapshot_deltas: Arc::new(Vec::new()),
        snapshot_fill_kill_epoch: 0,
        snapshot_fill_kill: Arc::new(Vec::new()),
        snapshot_cumulative_epoch: 0,
        snapshot_cumulative: Arc::new(Vec::new()),
        snapshot_slices_epoch: 0,
        snapshot_slices: Arc::new(Vec::new()),
    }
}

fn readings(slices: Option<Vec<DepthSlice<f64>>>) -> Readings<f64> {
    Readings {
        tps: 4.0,
        spread: Some(2.0),
        buy_impact: impact(1.0, true),
        sell_impact: impact(2.0, true),
        kpis: kpis(RatioValue::Na),
        slices,
    }
}

#[test]
fn a_snapshot_is_asked_for() {
    let state = shared();
    let request = state.snapshot_request(&Num, 1_100);
    assert_eq!(request.exchange_now_ms, 1_000);
    assert_eq!(request.mid, 100.0);
    assert!(request.wants_slices);
    assert_eq!(state.snapshot_request(&Num, 50).exchange_now_ms, 0);
}

#[test]
fn a_snapshot_holds_the_market() {
    let mut state = shared();
    let slices = vec![DepthSlice { timestamp_ms: 3, levels: vec![], bids_len: 0 }];
    let shot = state.clone_snapshot(&Num, readings(Some(slices)));
    assert_eq!(*shot.bids, vec![(99.0, 3.0), (98.0, 1.0)]);
    assert_eq!(*shot.asks, vec![(101.0, 1.0), (102.0, 1.0)]);
    assert_eq!(shot.mid_price, 100.0);
    assert_eq!(shot.spread, 2.0);
    assert!((shot.imbalance - 100.0 / 3.0).abs() < 1e-9);
    assert_eq!(shot.tps, 4.0);
    assert_eq!(*shot.trades, vec![(5, 100.0, 2.0, true)]);
    assert_eq!((shot.book_bid_count, shot.book_ask_count), (2, 2));
    assert_eq!(shot.depth_checkpoints.len(), 1);
    assert_eq!(*shot.depth_deltas[1], 9);
    assert_eq!(shot.depth_slices.len(), 1);
    assert_eq!(shot.fill_kill_series.len(), 1);
    assert_eq!(shot.cumulative_series.len(), 1);
    assert_eq!(shot.status_msg, "Live");
    assert!(!state.snapshot_request(&Num, 1_100).wants_slices);
}

#[test]
fn a_snapshot_lists_the_best_first() {
    let mut state = shared();
    state.bids.insert(0, (97.0, 2.0));
    state.asks.push((103.0, 0.0));
    let shot = state.clone_snapshot(&Num, readings(None));
    assert!(shot.bids.windows(2).all(|pair| pair[0].0 > pair[1].0));
    assert!(shot.asks.windows(2).all(|pair| pair[0].0 < pair[1].0));
    assert_eq!((shot.bids.len(), shot.asks.len()), (3, 3));
    let again = state.clone_snapshot(&Num, readings(None));
    assert_eq!(*again.bids, *shot.bids);
    assert_eq!(*again.asks, *shot.asks);
    assert_eq!(*again.trades, *shot.trades);
    assert_eq!(again.imbalance, shot.imbalance);

    state.asks.clear();
    state.depth_epoch = 2;
    assert_eq!(state.clone_snapshot(&Num, readings(None)).imbalance, 100.0);
    state.asks.push((101.0, 4.0));
    state.bids.clear();
    state.depth_epoch = 3;
    assert_eq!(state.clone_snapshot(&Num, readings(None)).imbalance, -100.0);
}

#[test]
fn unchanged_parts_are_shared_between_snapshots() {
    let mut state = shared();
    let one = state.clone_snapshot(&Num, readings(None));
    state.trade_epoch = 2;
    state.trades.push(FeedTrade { timestamp_ms: 6, price: 1.0, quantity: 1.0, is_buy: false });
    let two = state.clone_snapshot(&Num, readings(None));
    assert!(Arc::ptr_eq(&one.bids, &two.bids));
    assert!(Arc::ptr_eq(&one.depth_slices, &two.depth_slices));
    assert!(!Arc::ptr_eq(&one.trades, &two.trades));
    assert_eq!(two.trades.len(), 2);
    state.bids.clear();
    state.asks.clear();
    state.depth_epoch = 2;
    let three = state.clone_snapshot(&Num, Readings { spread: None, ..readings(None) });
    assert_eq!((three.mid_price, three.spread, three.imbalance), (0.0, 0.0, 0.0));
}

// ---------------------------------------------------------------------------
// The terminal
// ---------------------------------------------------------------------------

fn terminal() -> OrderBookApp<f64, f32> {
    OrderBookApp::new(&Num, None, None, None)
}

#[test]
fn a_terminal_starts_with_bitcoin() {
    let app = terminal();
    assert_eq!(app.active_symbol, "btcusdt");
    assert_eq!(app.active_bin_width, 1.0);
    assert_eq!(app.impact_notional_usd, 10_000.0);
    assert!(app.impact_side_is_buy && app.show_perf_overlay);
    assert!(app.desk.pane_visible(PaneKind::Heatmap));
    assert_eq!(app.desk.active_name(), "Default");
    assert!(app.render_key.is_none());
    assert_eq!(app.pipeline.initial_equity, 10_000.0);
}

#[test]
fn reconnecting_starts_anew() {
    let mut app = terminal();
    app.lens.price_center = 50.0;
    app.fill_kill_hover_ts = Some(3.0);
    app.picker.query = "ethusdt".to_string();
    app.bin_width_input = "0.25".to_string();
    let request = app.reconnect(&Num);
    assert_eq!(request.symbol, "ethusdt");
    assert_eq!(app.active_symbol, "ethusdt");
    assert_eq!(app.active_bin_width, 0.25);
    assert_eq!(app.picker.symbol_input, "ethusdt");
    assert_eq!(app.lens.price_center, 0.0);
    assert_eq!(app.fill_kill_hover_ts, None);
    assert_eq!(app.pipeline.engine.config.symbol, "ethusdt");
}

#[test]
fn reconnecting_forgets_losses_and_the_cooldown() {
    let mut app = terminal();
    let engine = &mut app.pipeline.engine;
    engine.consecutive_losses = 5;
    engine.last_exit_time_ms = 900;
    engine.next_trade_id = 8;
    engine.daily_pnl = -300.0;
    engine.daily_start_equity = 9_000.0;
    engine.session_active = false;
    app.picker.query = "ethusdt".to_string();
    app.reconnect(&Num);
    let engine = &app.pipeline.engine;
    assert_eq!(engine.consecutive_losses, 0);
    assert_eq!(engine.last_exit_time_ms, 0);
    assert_eq!(engine.next_trade_id, 1);
    assert_eq!(engine.daily_pnl, 0.0);
    assert_eq!(engine.daily_start_equity, 10_000.0);
    assert!(engine.is_session_active());
    assert!(engine.position().is_flat());
    assert!(engine.last_bar.is_none());
}

#[test]
fn a_frame_begins_with_the_entries() {
    let mut app = terminal();
    app.impact_notional_input = "2500".to_string();
    assert_eq!(app.begin_frame(&Num, 10), 16);
    assert_eq!(app.impact_notional_usd, 2_500.0);
    assert_eq!(app.perf.snapshot().repaint_target_ms, 16.0);
    app.impact_notional_input = "".to_string();
    assert_eq!(app.begin_frame(&Num, 900), 66);
    assert_eq!(app.impact_notional_usd, 2_500.0);
}

#[test]
fn a_desynced_market_is_left_after_a_second() {
    let mut app = terminal();
    let bids = vec![(99.0, 1.0)];
    let asks = vec![(101.0, 1.0)];
    assert!(app.follow_market(&Num, true, "Live", 0, 100.0, &bids, &asks, 0.1).is_none());
    assert_eq!(app.lens.price_center, 100.0);
    assert!(app.follow_market(&Num, false, "Desynced", 10, 100.0, &bids, &asks, 0.1).is_none());
    let request = app.follow_market(&Num, false, "Desynced", 1_010, 100.0, &bids, &asks, 0.1);
    assert_eq!(request.unwrap().symbol, "btcusdt");
    assert_eq!(app.lens.price_center, 0.0);
}

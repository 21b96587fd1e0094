use openbook::arith::{Arithmetic, Rounding, Style, Term, Test};
use openbook::geometry::{
    fraction, heatmap_frame, live_strip_width, project_level_y, project_time_x,
    split_heatmap_rects, time_span, Area, Spot,
};
use openbook::heatmap::{
    accumulate_side_qty, background, build_slice_index_map, find_row, heatmap_cell_idx,
    heatmap_color, legend_colors, legend_columns, lerp_color, price_at_row, Band, HeatGrid, Rgb,
};
use openbook::lens::{snap_price_to_bin, span_secs, Lens};
use openbook::perf::{repaint_ms, PerfStats};
use openbook::picker::{
    fuzzy_score, list_symbols, picker_line, tone, CatalogEntry, PickerKeys, PickerSortMode,
    SymbolPicker, Ticker, Tone,
};
use openbook::pointer::{
    depth_time_bounds, format_hms, hover_cell_from_pointer, hover_text, is_live_time_view,
    last_trade_mark, latest_trade_auto_center_price, latest_trade_for_pointer, needs_rebuild,
    perf_text, pointer_y_fraction, prepare_view, price_labels, time_labels, trade_dots, DotFrame,
    HeatmapHoverLookup, HeatmapRenderKey,
};
use openbook::slices::{
    nearest_depth_slice_index_from_slices, slice_columns, time_range, DepthSlice,
};
use openbook::tape::{
    build_tape_rows, count_matching, format_hms_millis, format_price, format_volume, pad_left,
    pad_right, width_of, TapeBody, TapeColumn, TapeSettings,
};

/// Arithmetic on `f64`, and on `f32` for the screen.
struct Num;

impl Arithmetic<f64> for Num {
    fn eval(&self, term: Term<f64>) -> f64 {
        match term {
            Term::Ratio(n, d) => n as f64 / d as f64,
            Term::Count(n) => n as f64,
            Term::Infinity => f64::INFINITY,
            Term::NegInfinity => f64::NEG_INFINITY,
            Term::Neg(x) => -x,
            Term::Abs(x) => x.abs(),
            Term::Square(x) => x.powi(2),
            Term::Sqrt(x) => x.sqrt(),
            Term::Ln(x) => x.ln(),
            Term::Floor(x) => x.floor(),
            Term::Ceil(x) => x.ceil(),
            Term::Round(x) => x.round(),
            Term::Add(x, y) => x + y,
            Term::Sub(x, y) => x - y,
            Term::Mul(x, y) => x * y,
            Term::Div(x, y) => x / y,
            Term::Max(x, y) => x.max(y),
            Term::Min(x, y) => x.min(y),
        }
    }

    fn test(&self, comparison: Test<f64>) -> bool {
        match comparison {
            Test::Less(x, y) => x < y,
            Test::LessEq(x, y) => x <= y,
            Test::Equal(x, y) => x == y,
            Test::Finite(x) => x.is_finite(),
        }
    }

    fn whole(&self, number: f64) -> u64 {
        number as u64
    }

    fn text(&self, number: f64, style: Style) -> String {
        match style {
            Style::Shortest => format!("{}", number),
            Style::Fixed(p) => format!("{:.*}", p, number),
            Style::Signed(p) => format!("{:+.*}", p, number),
        }
    }

    fn parse(&self, text: &str) -> Result<f64, String> {
        text.parse::<f64>().map_err(|e| e.to_string())
    }
}


impl Arithmetic<f32> for Num {
    fn eval(&self, term: Term<f32>) -> f32 {
        match term {
            Term::Ratio(n, d) => n as f32 / d as f32,
            Term::Count(n) => n as f32,
            Term::Infinity => f32::INFINITY,
            Term::NegInfinity => f32::NEG_INFINITY,
            Term::Neg(x) => -x,
            Term::Abs(x) => x.abs(),
            Term::Square(x) => x.powi(2),
            Term::Sqrt(x) => x.sqrt(),
            Term::Ln(x) => x.ln(),
            Term::Floor(x) => x.floor(),
            Term::Ceil(x) => x.ceil(),
            Term::Round(x) => x.round(),
            Term::Add(x, y) => x + y,
            Term::Sub(x, y) => x - y,
            Term::Mul(x, y) => x * y,
            Term::Div(x, y) => x / y,
            Term::Max(x, y) => x.max(y),
            Term::Min(x, y) => x.min(y),
        }
    }

    fn test(&self, comparison: Test<f32>) -> bool {
        match comparison {
            Test::Less(x, y) => x < y,
            Test::LessEq(x, y) => x <= y,
            Test::Equal(x, y) => x == y,
            Test::Finite(x) => x.is_finite(),
        }
    }

    fn whole(&self, number: f32) -> u64 {
        number as u64
    }

    fn text(&self, number: f32, style: Style) -> String {
        match style {
            Style::Shortest => format!("{}", number),
            Style::Fixed(p) => format!("{:.*}", p, number),
            Style::Signed(p) => format!("{:+.*}", p, number),
        }
    }

    fn parse(&self, text: &str) -> Result<f32, String> {
        text.parse::<f32>().map_err(|e| e.to_string())
    }
}

impl Rounding<f64, f32> for Num {
    fn narrow(&self, number: f64) -> f32 {
        number as f32
    }

    fn widen(&self, number: f32) -> f64 {
        number as f64
    }
}

fn trades() -> Vec<(u64, f64, f64, bool)> {
    vec![
        (3_723_004, 100.0, 2.0, true),
        (3_723_005, 101.0, 0.5, false),
        (3_723_006, 99.5, 10.0, true),
    ]
}

fn slice(timestamp_ms: u64, bids: &[(f64, f64)], asks: &[(f64, f64)]) -> DepthSlice<f64> {
    let mut levels = bids.to_vec();
    levels.extend_from_slice(asks);
    DepthSlice { timestamp_ms, levels, bids_len: bids.len() }
}

fn plain(times: &[u64]) -> Vec<DepthSlice<f64>> {
    times.iter().map(|t| slice(*t, &[], &[])).collect()
}

fn area(left: f32, top: f32, right: f32, bottom: f32) -> Area<f32> {
    Area { left, top, right, bottom }
}

fn lens(center: f64, range: f64) -> Lens<f64> {
    Lens {
        price_center: center,
        price_center_ema: center,
        price_range: range,
        auto_center: false,
        time_offset: 0.0,
        time_window: 0.0,
    }
}

// ---------------------------------------------------------------------------
// The tape
// ---------------------------------------------------------------------------

#[test]
fn prices_and_volumes_are_written() {
    assert_eq!(format_price(&Num, 101.256f64, 2), "101.26");
    assert_eq!(format_volume(&Num, 2_500_000_000.0f64), "2.5B");
    assert_eq!(format_volume(&Num, 1_000_000.0f64), "1.0M");
    assert_eq!(format_volume(&Num, 999_949.0f64), "999.9K");
    assert_eq!(format_volume(&Num, 999.0f64), "999");
}

#[test]
fn clock_times_are_written() {
    assert_eq!(format_hms_millis(3_723_004), "01:02:03.004");
    assert_eq!(format_hms_millis(86_400_000 + 999), "00:00:00.999");
    assert_eq!(format_hms(3_723), "01:02:03");
    assert_eq!(format_hms(90_000), "01:00:00");
}

#[test]
fn the_newest_trade_comes_first() {
    let rows = build_tape_rows(&Num, &trades(), None, 2);
    assert_eq!(rows.len(), 2);
    assert_eq!(rows[0].timestamp_ms, 3_723_006);
    assert_eq!(rows[0].notional_usd, 995.0);
    assert_eq!(rows[1].timestamp_ms, 3_723_005);
    assert!(!rows[1].is_buy);
}

#[test]
fn a_tape_without_a_bound_shows_all() {
    assert_eq!(build_tape_rows(&Num, &trades(), None, 300).len(), 3);
    assert_eq!(build_tape_rows(&Num, &trades(), Some(f64::INFINITY), 300).len(), 3);
    assert_eq!(build_tape_rows(&Num, &trades(), None, 0).len(), 0);
    assert_eq!(count_matching(&Num, &trades(), None), 3);
}

#[test]
fn small_trades_are_left_out() {
    let rows = build_tape_rows(&Num, &trades(), Some(200.0), 300);
    assert_eq!(rows.len(), 2);
    assert_eq!(rows[1].timestamp_ms, 3_723_004);
    assert_eq!(count_matching(&Num, &trades(), Some(200.0)), 2);
    assert_eq!(build_tape_rows(&Num, &trades(), Some(-5.0), 300).len(), 3);
}

#[test]
fn cells_are_padded_to_their_column() {
    assert_eq!(pad_right("BUY", 4), "BUY ");
    assert_eq!(pad_left("7", 3), "  7");
    assert_eq!(pad_left("long", 2), "long");
    let rows = build_tape_rows(&Num, &trades(), None, 300);
    assert_eq!(width_of(&Num, 2, TapeColumn::Price, &rows), 6);
    assert_eq!(width_of(&Num, 2, TapeColumn::Qty, &rows), 7);
    assert_eq!(width_of(&Num, 2, TapeColumn::Notional, &rows), 8);
}

#[test]
fn the_tape_pane_shows_a_table() {
    let mut settings: TapeSettings<f64> = TapeSettings::new(&Num);
    assert_eq!(settings.row_cap, 120);
    let pane = settings.pane(&Num, &trades(), 2);
    assert_eq!(pane.caption, "Showing 3/3 (of 3)");
    match pane.body {
        TapeBody::Table { heading, lines } => {
            assert_eq!(heading, "Time         Side  Price     Qty Notional");
            assert_eq!(lines.len(), 3);
            assert_eq!(lines[0].time, "01:02:03.006 ");
            assert_eq!(lines[0].side, "BUY  ");
            assert_eq!(lines[0].price, " 99.50 ");
            assert_eq!(lines[0].qty, "10.0000 ");
            assert_eq!(lines[0].notional, " $995.00");
            assert!(!lines[1].is_buy);
            assert_eq!(lines[1].side, "SELL ");
        }
        _ => panic!("a table is due"),
    }
    settings.min_notional_enabled = true;
    assert!(matches!(settings.pane(&Num, &trades(), 2).body, TapeBody::NoneMatch));
    assert!(matches!(settings.pane(&Num, &vec![], 2).body, TapeBody::NoTrades));
}

#[test]
fn tape_settings_are_read() {
    let mut settings: TapeSettings<f64> = TapeSettings::new(&Num);
    settings.set_row_cap(-4);
    assert_eq!(settings.row_cap, 20);
    settings.set_row_cap(1_000);
    assert_eq!(settings.row_cap, 300);
    settings.set_row_cap(55);
    assert_eq!(settings.row_cap, 55);
    settings.min_notional_input = " 250 ".to_string();
    settings.read_min_notional(&Num);
    assert_eq!(settings.min_notional_usd, 250.0);
    settings.min_notional_input = "-3".to_string();
    settings.read_min_notional(&Num);
    assert_eq!(settings.min_notional_usd, 0.0);
    settings.min_notional_usd = 9.0;
    for entry in ["x", "inf"] {
        settings.min_notional_input = entry.to_string();
        settings.read_min_notional(&Num);
        assert_eq!(settings.min_notional_usd, 9.0);
    }
}

// ---------------------------------------------------------------------------
// Frame rates
// ---------------------------------------------------------------------------

#[test]
fn repainting_slows_down_when_nothing_moves() {
    assert_eq!(repaint_ms(0), 16);
    assert_eq!(repaint_ms(199), 16);
    assert_eq!(repaint_ms(200), 66);
}

#[test]
fn a_window_of_frames_is_summed_up() {
    let mut stats: PerfStats<f64> = PerfStats::new(&Num);
    assert_eq!(stats.snapshot().repaint_target_ms, 66.0);
    stats.set_repaint_target_ms(&Num, -5.0);
    assert_eq!(stats.snapshot().repaint_target_ms, 0.0);
    assert!(!stats.record_frame(&Num, 4.0, 0.5));
    assert!(!stats.record_heatmap_rebuild(&Num, 3.0, 0.7));
    assert!(!stats.record_heatmap_rebuild(&Num, 1.0, 0.8));
    assert!(stats.record_frame(&Num, 8.0, 2.0));
    let told = stats.snapshot();
    assert_eq!(told.fps, 1.0);
    assert_eq!(told.frame_avg_ms, 6.0);
    assert_eq!(told.frame_max_ms, 8.0);
    assert_eq!(told.heatmap_rebuilds_per_sec, 1.0);
    assert_eq!(told.heatmap_rebuild_avg_ms, 2.0);
    assert_eq!(told.heatmap_rebuild_last_ms, 1.0);
    assert_eq!(told.heatmap_rebuild_max_ms, 3.0);
    assert_eq!(stats.frame_count, 0);
    assert!(stats.roll_window_if_ready(&Num, 1.0));
    assert_eq!(stats.snapshot().frame_avg_ms, 0.0);
}

#[test]
fn figures_are_told_in_seven_lines() {
    let mut stats: PerfStats<f64> = PerfStats::new(&Num);
    stats.record_frame(&Num, 8.0, 1.0);
    let mut view = lens(100.0, 10.0);
    view.price_center_ema = 99.5;
    let lines = perf_text(&Num, stats.snapshot(), view, 99.0, 0.5);
    assert_eq!(
        lines,
        vec![
            "FPS: 1.0 (avg 8.00ms, max 8.00ms)",
            "Heatmap rebuild: 0.0/s",
            "Rebuild avg/last/max: 0.00/0.00/0.00ms",
            "Repaint target: 66ms",
            "Auto-center: OFF",
            "Mid/EMA/Snapped: 99.00 / 99.50 / 100.00",
            "Snap delta: +0.5000 (+1.000 bins @ 0.5000)",
        ]
    );
}

// ---------------------------------------------------------------------------
// The symbol picker
// ---------------------------------------------------------------------------

fn entry(symbol: &str, base: &str) -> CatalogEntry {
    CatalogEntry { symbol: symbol.to_string(), base_asset: base.to_string() }
}

fn ticker(symbol: &str, price: f64, change: f64, volume: f64) -> Ticker<f64> {
    Ticker {
        symbol: symbol.to_string(),
        last_price: price,
        change_pct_24h: change,
        quote_volume_24h: volume,
    }
}

fn catalog() -> Vec<CatalogEntry> {
    vec![entry("BTCUSDT", "BTC"), entry("ETHUSDT", "ETH"), entry("ADAUSDT", "ADA")]
}

fn tickers() -> Vec<Ticker<f64>> {
    vec![ticker("BTCUSDT", 40_000.0, -1.5, 900.0), ticker("ETHUSDT", 2.5, 3.0, 1_000.0)]
}

fn score(query: &str) -> i32 {
    fuzzy_score(&entry("1000PEPEUSDT", "PEPE"), &query.chars().collect())
}

fn shown(query: &str, mode: PickerSortMode) -> Vec<String> {
    list_symbols(&Num, &catalog(), &tickers(), query, mode).iter().map(|r| r.symbol.clone()).collect()
}

#[test]
fn answers_are_scored() {
    assert_eq!(score(""), 0);
    assert_eq!(score("1000"), 100);
    assert_eq!(score("PEPE"), 90);
    assert_eq!(score("USDT"), 70);
    assert_eq!(score("EPUS"), 30);
    assert_eq!(score("XYZ"), -1);
    assert_eq!(fuzzy_score(&entry("XUSDT", "QRST"), &vec!['R', 'S']), 60);
}

#[test]
fn symbols_are_listed_in_order() {
    assert_eq!(shown("", PickerSortMode::Volume), vec!["ETHUSDT", "BTCUSDT", "ADAUSDT"]);
    assert_eq!(shown("", PickerSortMode::Change), vec!["ETHUSDT", "ADAUSDT", "BTCUSDT"]);
    assert_eq!(shown("", PickerSortMode::Alphabetical), vec!["ADAUSDT", "BTCUSDT", "ETHUSDT"]);
    assert_eq!(shown(" eth ", PickerSortMode::Volume), vec!["ETHUSDT"]);
    assert_eq!(shown("zzz", PickerSortMode::Volume), Vec::<String>::new());
    let many: Vec<CatalogEntry> = (0..20).map(|i| entry(&format!("S{}", i), "S")).collect();
    assert_eq!(list_symbols(&Num, &many, &tickers(), "", PickerSortMode::Volume).len(), 8);
}

fn keys(down: bool, up: bool, enter: bool, escape: bool) -> PickerKeys {
    PickerKeys { down, up, enter, escape }
}

#[test]
fn keys_move_the_selection_within_the_rows() {
    let mut picker: SymbolPicker<f64> = SymbolPicker::new();
    assert!(picker.touch(true, false));
    assert!(picker.open);
    picker.recompute_picker_list(&Num, &catalog(), &tickers(), 4);
    assert_eq!(picker.filtered.len(), 3);
    for _ in 0..5 {
        assert!(!picker.press(keys(true, false, false, false), true));
    }
    assert_eq!(picker.selected_idx, 2);
    picker.press(keys(false, true, false, false), true);
    assert_eq!(picker.selected_idx, 1);
    assert!(picker.press(keys(false, false, true, false), true));
    assert_eq!(picker.query, "btcusdt");
    assert_eq!(picker.symbol_input, "btcusdt");
    assert!(!picker.open);
}

#[test]
fn escape_closes_the_picker() {
    let mut picker: SymbolPicker<f64> = SymbolPicker::new();
    picker.touch(false, true);
    assert!(!picker.press(keys(false, false, false, true), true));
    assert!(!picker.open);
    assert!(picker.press(keys(false, false, true, false), true));
    assert!(!picker.press(keys(false, false, true, false), false));
    picker.open = true;
    picker.close();
    assert!(!picker.open);
}

#[test]
fn the_list_is_made_again_when_it_is_stale() {
    let mut picker: SymbolPicker<f64> = SymbolPicker::new();
    assert!(!picker.needs_recompute(3));
    picker.open = true;
    assert!(picker.needs_recompute(3));
    picker.recompute_picker_list(&Num, &catalog(), &tickers(), 3);
    assert!(!picker.needs_recompute(3));
    picker.query = "ada".to_string();
    picker.selected_idx = 2;
    assert!(picker.needs_recompute(3));
    picker.recompute_picker_list(&Num, &catalog(), &tickers(), 3);
    assert_eq!(picker.filtered.len(), 1);
    assert_eq!(picker.selected_idx, 0);
    picker.set_sort_mode(PickerSortMode::Change);
    assert!(matches!(picker.sort_mode, PickerSortMode::Change));
    picker.hover(5);
    assert_eq!(picker.selected_idx, 5);
    picker.touch(false, true);
    assert_eq!(picker.selected_idx, 0);
    picker.select_symbol_for_reconnect("SOLUSDT");
    assert_eq!(picker.query, "solusdt");
}

#[test]
fn picker_lines_are_written() {
    let rows = list_symbols(&Num, &catalog(), &tickers(), "", PickerSortMode::Volume);
    let eth = picker_line(&Num, &rows[0]);
    assert_eq!(eth.symbol, "ETHUSDT (ETH)");
    assert_eq!(eth.price, "2.5000");
    assert_eq!(eth.change, "+3.00%");
    assert!(matches!(eth.change_tone, Tone::Up));
    assert_eq!(eth.volume, "1.0K");
    let btc = picker_line(&Num, &rows[1]);
    assert_eq!(btc.price, "40000.00");
    assert_eq!(btc.change, "-1.50%");
    assert!(matches!(btc.change_tone, Tone::Down));
    let ada = picker_line(&Num, &rows[2]);
    assert_eq!(ada.price, "\u{2014}");
    assert_eq!(ada.change, "0.00%");
    assert!(matches!(tone(&Num, 0.0f64), Tone::Even));
}

// ---------------------------------------------------------------------------
// Slices
// ---------------------------------------------------------------------------

#[test]
fn the_nearest_slice_is_found() {
    let list = plain(&[10, 20, 40]);
    assert_eq!(nearest_depth_slice_index_from_slices(&list, 0), 0);
    assert_eq!(nearest_depth_slice_index_from_slices(&list, 14), 0);
    assert_eq!(nearest_depth_slice_index_from_slices(&list, 15), 0);
    assert_eq!(nearest_depth_slice_index_from_slices(&list, 16), 1);
    assert_eq!(nearest_depth_slice_index_from_slices(&list, 31), 2);
    assert_eq!(nearest_depth_slice_index_from_slices(&list, 99), 2);
}

#[test]
fn slices_span_a_time() {
    assert_eq!(time_range(&plain(&[10, 20, 40])), Some((10, 40)));
    assert_eq!(time_range(&plain(&[])), None);
    assert_eq!(depth_time_bounds(&Num, &plain(&[10, 40])), Some((10.0, 40.0)));
    assert_eq!(depth_time_bounds(&Num, &plain(&[])), None);
}

#[test]
fn columns_get_their_nearest_slice() {
    let list = plain(&[10, 20, 40]);
    assert_eq!(slice_columns(&list, &vec![0, 12, 18, 29, 33, 50]), vec![0, 0, 1, 1, 2, 2]);
    assert_eq!(build_slice_index_map(&Num, &list, 4, 10.0, 30.0), vec![0, 1, 2, 2]);
}

// ---------------------------------------------------------------------------
// Geometry
// ---------------------------------------------------------------------------

#[test]
fn areas_are_measured() {
    let plot = area(10.0, 20.0, 110.0, 70.0);
    assert_eq!(plot.width(&Num), 100.0);
    assert_eq!(plot.height(&Num), 50.0);
    assert!(plot.holds(&Num, Spot { x: 10.0, y: 70.0 }));
    assert!(!plot.holds(&Num, Spot { x: 9.0, y: 30.0 }));
    assert_eq!(fraction(&Num, 60.0f32, 10.0, 100.0), 0.5);
    assert_eq!(fraction(&Num, 200.0f32, 10.0, 100.0), 1.0);
}

#[test]
fn the_live_strip_is_bounded() {
    assert_eq!(live_strip_width(&Num, 1_000.0f32), 88.0);
    assert_eq!(live_strip_width(&Num, 400.0f32), 64.0);
    assert_eq!(live_strip_width(&Num, 100.0f32), 28.0);
    assert_eq!(live_strip_width(&Num, 50.0f32), 20.0);
    let (past, present) = split_heatmap_rects(&Num, area(0.0, 5.0, 400.0, 105.0));
    assert_eq!(past.right, 336.0);
    assert_eq!(present.left, 336.0);
    assert_eq!(present.right, 400.0);
    assert_eq!(past.bottom, 105.0);
}

#[test]
fn the_heatmap_fills_its_room() {
    let frame = heatmap_frame(&Num, Spot { x: 500.0f32, y: 300.0 });
    assert_eq!(frame.axis_width, 70.0);
    assert_eq!(frame.width, 422.0);
    assert_eq!(frame.height, 262.0);
    assert_eq!(frame.image_width, 422);
    assert_eq!(frame.image_height, 262);
    let wide = heatmap_frame(&Num, Spot { x: 5_000.0f32, y: 5_000.0 });
    assert_eq!(wide.image_width, 800);
    assert_eq!(wide.image_height, 600);
    let narrow = heatmap_frame(&Num, Spot { x: 0.0f32, y: 0.0 });
    assert_eq!(narrow.axis_width, 24.0);
    assert_eq!(narrow.width, 24.0);
}

#[test]
fn times_and_levels_are_projected() {
    let plot = area(10.0, 20.0, 110.0, 70.0);
    assert_eq!(time_span(5, 5), 1);
    assert_eq!(time_span(5, 25), 20);
    assert_eq!(project_time_x(&Num, plot, 1_500.0f64, 1_000, 2_000), 60.0);
    assert_eq!(project_time_x(&Num, plot, 9_000.0f64, 1_000, 2_000), 110.0);
    assert_eq!(project_level_y(&Num, plot, 0.5f64), 45.0);
    assert_eq!(project_level_y(&Num, plot, -2.0f64), 70.0);
}

// ---------------------------------------------------------------------------
// The lens
// ---------------------------------------------------------------------------

#[test]
fn prices_snap_to_bins() {
    assert_eq!(snap_price_to_bin(&Num, 101.3f64, 0.5), 101.5);
    assert_eq!(snap_price_to_bin(&Num, 101.3f64, 0.0), 101.3);
    assert_eq!(span_secs(&Num, 1_000.0f64, 3_500.0), 2.5);
    assert_eq!(span_secs(&Num, 5.0f64, 5.0), 0.001);
}

#[test]
fn a_new_lens_finds_the_market() {
    let mut view: Lens<f64> = Lens::new(&Num);
    let bids = vec![(99.0, 1.0), (98.0, 1.0)];
    let asks = vec![(101.0, 1.0), (104.0, 1.0)];
    view.follow(&Num, 100.0, &bids, &asks, 0.1, 1.0);
    assert_eq!(view.price_center, 100.0);
    assert_eq!(view.price_center_ema, 100.0);
    assert_eq!(view.price_range, 9.0);
    assert_eq!(view.price_min(&Num), 95.5);
    assert_eq!(view.price_max(&Num), 104.5);
    view.follow(&Num, 200.0, &bids, &asks, 0.1, 1.0);
    assert_eq!(view.price_center_ema, 103.0);
    assert_eq!(view.price_center, 103.0);
    assert_eq!(view.price_range, 9.0);
}

#[test]
fn a_moved_lens_ignores_the_market() {
    let mut view = lens(100.0, 10.0);
    view.follow(&Num, 500.0, &vec![], &vec![], 0.1, 1.0);
    assert_eq!(view.price_center, 100.0);
    assert_eq!(view.price_range, 10.0);
}

#[test]
fn a_lens_keeps_the_price_under_the_cursor() {
    let mut view = lens(100.0, 10.0);
    view.auto_center = true;
    let top = Some(Spot { x: 0.0f32, y: 0.0 });
    view.apply_price_zoom_at_cursor(&Num, 1.0f32, top, 0.0, 100.0, 0.01);
    assert_eq!(view.price_range, 9.0);
    assert_eq!(view.price_max(&Num), 105.0);
    assert!(!view.auto_center);
    view.apply_price_zoom_at_cursor(&Num, -1.0f32, None, 0.0, 100.0, 0.01);
    assert_eq!(view.price_range, 9.9);
    assert!(view.is_custom(&Num));
}

#[test]
fn time_is_zoomed_around_the_cursor() {
    let mut view = lens(100.0, 10.0);
    let data = area(0.0, 0.0, 100.0, 50.0);
    let middle = Some(Spot { x: 50.0f32, y: 10.0 });
    view.apply_time_zoom_at_cursor(&Num, 1.0f32, middle, data, 100.0);
    assert_eq!(view.time_window, 90.0);
    assert_eq!(view.time_offset, 5.0);
    view.apply_time_zoom_at_cursor(&Num, -1.0f32, None, data, 60.0);
    assert_eq!(view.time_window, 60.0);
    assert_eq!(view.time_offset, 0.0);
}

#[test]
fn a_fitted_lens_lies_within_the_span() {
    let mut view = lens(100.0, 10.0);
    assert_eq!(view.view_times(&Num, 0.0, 100_000.0), (0.0, 100_000.0));
    view.time_window = 500.0;
    view.time_offset = 700.0;
    assert_eq!(view.view_times(&Num, 0.0, 100_000.0), (0.0, 100_000.0));
    assert_eq!(view.time_window, 100.0);
    assert_eq!(view.time_offset, 0.0);
    view.time_window = 10.0;
    view.time_offset = 20.0;
    assert_eq!(view.view_times(&Num, 0.0, 100_000.0), (70_000.0, 80_000.0));
    view.time_window = 1.0;
    view.view_times(&Num, 0.0, 100_000.0);
    assert_eq!(view.time_window, 5.0);
}

#[test]
fn dragging_moves_the_lens() {
    let mut view = lens(100.0, 10.0);
    view.drag(&Num, Spot { x: 0.0f32, y: 5.0 }, 200.0, 50.0, 100.0);
    assert_eq!(view.price_center, 101.0);
    assert_eq!(view.time_window, 0.0);
    view.time_window = 50.0;
    view.drag(&Num, Spot { x: 20.0f32, y: 0.0 }, 200.0, 50.0, 100.0);
    assert_eq!(view.time_offset, 5.0);
    view.drag(&Num, Spot { x: 9_000.0f32, y: 0.0 }, 200.0, 50.0, 100.0);
    assert_eq!(view.time_offset, 50.0);
}

#[test]
fn recentering_forgets() {
    let mut view = lens(100.0, 10.0);
    view.price_center_ema = 7.0;
    view.time_window = 50.0;
    view.time_offset = 5.0;
    view.recenter(&Num);
    assert!(view.auto_center);
    assert_eq!(view.price_center_ema, 100.0);
    assert_eq!(view.price_range, 0.0);
    assert_eq!(view.time_window, 0.0);
    assert!(!view.is_custom(&Num));
    let mut other = lens(f64::INFINITY, 1.0);
    other.price_center_ema = 3.0;
    other.enable_heatmap_auto_center(&Num);
    assert_eq!(other.price_center_ema, 3.0);
}

// ---------------------------------------------------------------------------
// The heatmap
// ---------------------------------------------------------------------------

fn same(color: Rgb, r: u8, g: u8, b: u8) -> bool {
    color.r == r && color.g == g && color.b == b
}

#[test]
fn colours_run_from_stop_to_stop() {
    assert!(same(background(), 13, 17, 23));
    let from = Rgb { r: 0, g: 100, b: 10 };
    let to = Rgb { r: 100, g: 0, b: 10 };
    assert!(same(lerp_color(&Num, from, to, 0.5f32), 50, 50, 10));
    assert!(same(lerp_color(&Num, from, to, 7.0f32), 100, 0, 10));
    assert!(same(heatmap_color::<f64, f32, Num>(&Num, 0.0, true), 5, 10, 5));
    assert!(same(heatmap_color::<f64, f32, Num>(&Num, 0.0, false), 10, 5, 5));
    assert!(same(heatmap_color::<f64, f32, Num>(&Num, 0.5, true), 0, 180, 120));
    assert!(same(heatmap_color::<f64, f32, Num>(&Num, 0.5, false), 180, 30, 60));
    assert!(same(heatmap_color::<f64, f32, Num>(&Num, 2.0, true), 255, 255, 219));
}

#[test]
fn the_legend_runs_from_asks_to_bids() {
    assert_eq!(legend_columns(&Num, 120.4f32), 120);
    assert_eq!(legend_columns(&Num, -3.0f32), 1);
    let colors = legend_colors::<f64, f32, Num>(&Num, 5);
    assert_eq!(colors.len(), 5);
    assert!(same(colors[0], 255, 255, 219));
    assert!(same(colors[2], 5, 10, 5));
    assert!(same(colors[4], 255, 255, 219));
}

fn band() -> Band<f64> {
    Band { low: 90.0, high: 110.0, rows: 10, min_qty: 0.5 }
}

#[test]
fn a_level_rests_in_one_row() {
    assert_eq!(find_row(&Num, band(), (109.0, 1.0)), Some(0));
    assert_eq!(find_row(&Num, band(), (100.0, 1.0)), Some(5));
    assert_eq!(find_row(&Num, band(), (91.0, 1.0)), Some(9));
    assert_eq!(find_row(&Num, band(), (90.0, 1.0)), None);
    assert_eq!(price_at_row(&Num, band(), 0), 109.0);
    assert_eq!(price_at_row(&Num, band(), 9), 91.0);
    let empty = Band { low: 90.0, high: 90.0, rows: 10, min_qty: 0.0 };
    assert_eq!(price_at_row(&Num, empty, 3), 90.0);
}

#[test]
fn a_hidden_level_rests_nowhere() {
    assert_eq!(find_row(&Num, band(), (100.0, 0.4)), None);
    assert_eq!(find_row(&Num, band(), (89.0, 1.0)), None);
    assert_eq!(find_row(&Num, band(), (111.0, 1.0)), None);
}

#[test]
fn quantities_gather_in_cells() {
    assert_eq!(heatmap_cell_idx(2, 3, 10), 23);
    let mut bids = vec![0.0f32, 1.0];
    let mut asks = vec![0.0f32, 2.0];
    assert_eq!(accumulate_side_qty(&Num, &mut bids, &mut asks, 1, 4.0f64, true), 7.0);
    assert_eq!(accumulate_side_qty(&Num, &mut bids, &mut asks, 1, 1.0f64, false), 8.0);
    assert_eq!(bids, vec![0.0, 5.0]);
    assert_eq!(asks, vec![0.0, 3.0]);
    let mut grid: HeatGrid<f32> = HeatGrid::new();
    let list = vec![
        slice(10, &[(100.0, 2.0), (99.9, 3.0)], &[(103.0, 1.0)]),
        slice(20, &[(100.0, 9.0)], &[(104.0, 0.1)]),
    ];
    let peak = grid.fill(&Num, band(), &list);
    assert_eq!(peak, 9.0);
    assert_eq!(grid.cell(&Num, 5), (5.0, 0.0));
    assert_eq!(grid.cell(&Num, 3), (0.0, 1.0));
    assert_eq!(grid.cell(&Num, 15), (9.0, 0.0));
    assert_eq!(grid.cell(&Num, 13), (0.0, 0.0));
    assert_eq!(grid.cell(&Num, 99), (0.0, 0.0));
}

#[test]
fn an_image_shows_the_book_over_time() {
    let mut grid: HeatGrid<f32> = HeatGrid::new();
    let list = vec![slice(0, &[(99.0, 4.0)], &[]), slice(100, &[], &[(101.0, 4.0)])];
    let image = grid.build_heatmap_image(&Num, lens(100.0, 4.0), &list, 2, 2, 0.0, 0.0, 100.0);
    assert_eq!((image.width, image.height, image.pixels.len()), (2, 2, 4));
    // The ask stands above on the right, the bid below on the left.
    assert!(same(image.pixels[0], 13, 17, 23));
    assert!(same(image.pixels[1], 255, 255, 219));
    assert!(same(image.pixels[2], 255, 255, 219));
    assert!(same(image.pixels[3], 13, 17, 23));
    let blank = grid.build_heatmap_image(&Num, lens(100.0, 4.0), &vec![], 3, 0, 0.0, 0.0, 1.0);
    assert_eq!((blank.width, blank.height, blank.pixels.len()), (3, 1, 3));
    let hidden = grid.build_heatmap_image(&Num, lens(100.0, 4.0), &list, 2, 2, 9.0, 0.0, 100.0);
    assert!(hidden.pixels.iter().all(|p| same(*p, 13, 17, 23)));
}

// ---------------------------------------------------------------------------
// Marks over the heatmap
// ---------------------------------------------------------------------------

#[test]
fn no_trade_is_later_than_the_latest() {
    let list = vec![(5, 1.0, 1.0, true), (9, 2.0, 1.0, true), (9, 3.0, 1.0, true), (7, 4.0, 1.0, true)];
    assert_eq!(latest_trade_for_pointer(&list), Some((9, 3.0)));
    assert_eq!(latest_trade_for_pointer::<f64>(&vec![]), None);
}

#[test]
fn a_view_is_live_near_the_end() {
    assert!(is_live_time_view(&Num, 99.5f64, 100.0, 1.0));
    assert!(!is_live_time_view(&Num, 98.0f64, 100.0, 1.0));
    assert!(!is_live_time_view(&Num, 101.0f64, 100.0, 1.0));
    assert!(is_live_time_view(&Num, 100.0f64, 100.0, -1.0));
    assert_eq!(latest_trade_auto_center_price(&Num, true, Some((1, 5.0f64))), Some(5.0));
    assert_eq!(latest_trade_auto_center_price(&Num, false, Some((1, 5.0f64))), None);
    assert_eq!(latest_trade_auto_center_price(&Num, true, Some((1, f64::NAN))), None);
    assert_eq!(latest_trade_auto_center_price::<f64, Num>(&Num, true, None), None);
}

#[test]
fn a_price_has_its_height() {
    let y: Option<f32> = pointer_y_fraction(&Num, 101.0f64, 100.0, 104.0);
    assert_eq!(y, Some(0.75));
    let outside: Option<f32> = pointer_y_fraction(&Num, 99.0f64, 100.0, 104.0);
    assert_eq!(outside, None);
    let flat: Option<f32> = pointer_y_fraction(&Num, 100.0f64, 100.0, 100.0);
    assert_eq!(flat, None);
    let endless: Option<f32> = pointer_y_fraction(&Num, 100.0f64, f64::NEG_INFINITY, 104.0);
    assert_eq!(endless, None);
}

#[test]
fn the_last_trade_is_marked_while_live() {
    let mark = last_trade_mark::<f64, f32, Num>(
        &Num,
        lens(100.0, 4.0),
        true,
        Some((50, 101.0)),
        0.0,
        100.0,
    )
    .unwrap();
    assert_eq!(mark.along, 0.5);
    assert_eq!(mark.down, 0.25);
    assert_eq!(mark.price, 101.0);
    let late =
        last_trade_mark::<f64, f32, Num>(&Num, lens(100.0, 4.0), false, Some((50, 101.0)), 0.0, 100.0);
    assert!(late.is_none());
}

#[test]
fn trades_are_dots_of_their_size() {
    let frame = DotFrame {
        low: 90.0f64,
        high: 110.0,
        start: 0.0,
        end: 100.0,
        data: area(10.0, 0.0, 110.0, 50.0),
        top: 5.0f32,
        height: 40.0,
    };
    let list = vec![
        (50, 100.0, 4.0, true),
        (100, 110.0, 2.0, false),
        (101, 100.0, 1.0, true),
        (10, 80.0, 1.0, true),
    ];
    let dots = trade_dots(&Num, frame, &list);
    assert_eq!(dots.len(), 2);
    assert_eq!(dots[0].spot.x, 60.0);
    assert_eq!(dots[0].spot.y, 25.0);
    assert_eq!(dots[0].radius, 7.0);
    assert!(dots[0].is_buy);
    assert_eq!(dots[1].spot.x, 110.0);
    assert_eq!(dots[1].radius, 4.5);
}

#[test]
fn the_cell_under_the_cursor_is_told() {
    let mut grid: HeatGrid<f32> = HeatGrid::new();
    let list = vec![slice(0, &[(99.0, 4.0)], &[]), slice(100, &[], &[(101.0, 2.5)])];
    grid.build_heatmap_image(&Num, lens(100.0, 4.0), &list, 2, 2, 0.0, 0.0, 100.0);
    let lookup = HeatmapHoverLookup {
        data: area(0.0, 0.0, 100.0, 50.0),
        height: 50.0f32,
        view_start: 0.0f64,
        view_end: 100.0,
        rows: 2,
    };
    let spot = Spot { x: 90.0f32, y: 10.0 };
    let cell = hover_cell_from_pointer(&Num, lens(100.0, 4.0), &list, lookup, spot).unwrap();
    assert_eq!((cell.slice_idx, cell.row, cell.timestamp_ms), (1, 0, 100));
    assert_eq!(cell.price, 101.0);
    let told = hover_text(&Num, &grid, cell, 2, 1);
    assert_eq!(told.time, "Time: 00:00:00.100");
    assert_eq!(told.price, "Price: 101.0");
    assert_eq!(told.size, "Size: 2.5000");
    assert_eq!(told.notional, "Notional: 252.50");
    let edge = Spot { x: 0.0f32, y: 50.0 };
    let last = hover_cell_from_pointer(&Num, lens(100.0, 4.0), &list, lookup, edge).unwrap();
    assert_eq!((last.slice_idx, last.row), (0, 1));
    let off = Spot { x: 101.0f32, y: 10.0 };
    assert!(hover_cell_from_pointer(&Num, lens(100.0, 4.0), &list, lookup, off).is_none());
    assert!(hover_cell_from_pointer(&Num, lens(100.0, 0.0), &list, lookup, spot).is_none());
}

#[test]
fn the_axes_are_labelled() {
    let prices = price_labels::<f64, f32, Num>(&Num, lens(100.0, 8.0), 1);
    let labels: Vec<&str> = prices.iter().map(|l| l.label.as_str()).collect();
    assert_eq!(
        labels,
        vec!["104.0", "103.0", "102.0", "101.0", "100.0", "99.0", "98.0", "97.0", "96.0"]
    );
    assert_eq!(prices[4].at, 0.5);
    let times = time_labels::<f64, f32, Num>(&Num, 0.0, 6_000.0);
    assert_eq!(times.len(), 7);
    assert_eq!(times[0].label, "00:00:00");
    assert_eq!(times[3].label, "00:00:03");
    assert_eq!(times[6].label, "00:00:06");
    assert_eq!(times[6].at, 1.0);
}

#[test]
fn an_image_is_made_again_when_its_key_changes() {
    let key = HeatmapRenderKey {
        depth_history_epoch: 1,
        image_width: 2,
        image_height: 3,
        price_center_bits: 4,
        price_range_bits: 5,
        time_offset_bits: 6,
        time_window_bits: 7,
        min_qty_bits: 8,
    };
    assert!(needs_rebuild(None, key));
    assert!(!needs_rebuild(Some(key), key));
    let other = HeatmapRenderKey { min_qty_bits: 9, ..key };
    assert!(needs_rebuild(Some(key), other));
}

#[test]
fn a_view_is_prepared_from_the_history() {
    let list = plain(&[1_000, 21_000]);
    let trade = vec![(20_000, 105.0, 1.0, true)];
    let mut view = lens(100.0, 4.0);
    let told = prepare_view(&Num, &mut view, &list, &trade).unwrap();
    assert_eq!((told.start, told.end), (1_000.0, 21_000.0));
    assert_eq!(told.span_secs, 20.0);
    assert!(told.live);
    assert_eq!(told.latest, Some((20_000, 105.0)));
    assert_eq!(view.price_center, 105.0);
    let mut centred = lens(100.0, 4.0);
    centred.auto_center = true;
    prepare_view(&Num, &mut centred, &list, &trade);
    assert_eq!(centred.price_center, 100.0);
    let mut back = lens(100.0, 4.0);
    back.time_window = 5.0;
    back.time_offset = 10.0;
    let old = prepare_view(&Num, &mut back, &list, &trade).unwrap();
    assert_eq!((old.start, old.end, old.live), (6_000.0, 11_000.0, false));
    assert_eq!(back.price_center, 100.0);
    assert!(prepare_view(&Num, &mut view, &vec![], &trade).is_none());
}

//! The panels of text: the header, the figures of the market, the estimate of
//! market impact, the strategy and its trades.

use vstd::prelude::*;

use crate::arith;
use crate::arith::{fixed, Arithmetic, Model, Style};
use crate::bars::AggregatedBar;
use crate::picker;
use crate::picker::{tone, Tone};
use crate::pipeline::StrategyPipeline;
use crate::report;
use crate::report::PerformanceReport;
use crate::session;
use crate::session::base_asset_symbol;
use crate::slices;
use crate::slices::{time_range, DepthSlice};
use crate::strategy;
use crate::strategy::{PositionState, Side, Signal, TradeRecord, TradeView};
use crate::tape::format_price;
use crate::text;
use crate::text::{decimal_text, to_upper};

verus! {

/// A number with decimals and a sign.
fn signed<F: Copy, A: Arithmetic<F>>(a: &A, number: F, decimals: usize) -> (written: String)
    ensures
        forall|m: Model<F>| #[trigger]
            arith::describes(m, *a) ==> written@ == (m.text)(number, Style::Signed(decimals)),
{
    arith::text(a, number, Style::Signed(decimals))
}

/// A text and one behind it.
fn followed_by(front: String, end: &str) -> (whole: String)
    ensures
        whole@ == front@ + end@,
{
    let mut whole: String = front;
    whole.append(end);
    whole
}

/// Up where a number is at least a bound, else down.
pub open spec fn tone_from<F>(m: Model<F>, value: F, bound: F) -> Tone {
    if m.less_eq(bound, value) {
        Tone::Up
    } else {
        Tone::Down
    }
}

/// Up where a number is at least a bound, else down.
fn tone_at_least<F: Copy, A: Arithmetic<F>>(a: &A, value: F, bound: F) -> (t: Tone)
    ensures
        forall|m: Model<F>| #[trigger]
            arith::describes(m, *a) ==> t == tone_from(m, value, bound),
{
    if arith::less_eq(a, bound, value) {
        Tone::Up
    } else {
        Tone::Down
    }
}

/// Up where a number is above a bound, else down.
pub open spec fn tone_above<F>(m: Model<F>, value: F, bound: F) -> Tone {
    if m.less(bound, value) {
        Tone::Up
    } else {
        Tone::Down
    }
}

/// Up where a number is above a bound, else down.
fn tone_over<F: Copy, A: Arithmetic<F>>(a: &A, value: F, bound: F) -> (t: Tone)
    ensures
        forall|m: Model<F>| #[trigger]
            arith::describes(m, *a) ==> t == tone_above(m, value, bound),
{
    if arith::less(a, bound, value) {
        Tone::Up
    } else {
        Tone::Down
    }
}

// ---------------------------------------------------------------------------
// Header
// ---------------------------------------------------------------------------

/// The state of the connection, behind a full circle where there is one.
pub fn connection_text(connected: bool, status: &str) -> (line: String)
    ensures
        line@ == (if connected {
            "● "@
        } else {
            "◌ "@
        }) + status@,
{
    let mut line: String = if connected {
        "● ".to_string()
    } else {
        "◌ ".to_string()
    };
    line.append(status);
    line
}

/// The latency in milliseconds, where it is known.
pub fn latency_text(latency_ms: i64) -> (line: String)
    ensures
        line@ == if latency_ms >= 0 {
            text::decimal(latency_ms as nat) + "ms"@
        } else {
            "N/A"@
        },
{
    if latency_ms >= 0 {
        followed_by(decimal_text(latency_ms as u128), "ms")
    } else {
        "N/A".to_string()
    }
}

/// The seconds that the slices reach back, as far as history is kept.
pub open spec fn history_secs_of(times: Seq<u64>, max_age_ms: u64) -> int {
    let span: int = if times.len() > 0 && times.last() > times[0] {
        times.last() - times[0]
    } else {
        0
    };
    (if span < max_age_ms {
        span
    } else {
        max_age_ms as int
    }) / 1_000
}

/// The seconds that the slices reach back, as far as history is kept.
pub fn history_secs<F>(list: &Vec<DepthSlice<F>>, max_age_ms: u64) -> (secs: u64)
    ensures
        secs == history_secs_of(slices::times(list@), max_age_ms),
{
    let span: u64 = match time_range(list) {
        Some((first, last)) => last.saturating_sub(first),
        None => 0,
    };
    let kept: u64 = if span < max_age_ms {
        span
    } else {
        max_age_ms
    };
    kept / 1_000
}

/// The figures of the market as text.
#[derive(Debug)]
pub struct StatsBar {
    pub mid: String,
    pub spread: String,
    pub imbalance: String,
    pub imbalance_tone: Tone,
    pub tps: String,
    pub bids: String,
    pub asks: String,
}

/// The figures of the market.
#[derive(Clone, Copy, Debug)]
pub struct MarketFigures<F> {
    pub mid: F,
    pub spread: F,
    pub imbalance: F,
    pub tps: F,
    pub bid_count: usize,
    pub ask_count: usize,
}

/// The spread in percent of the middle.
pub open spec fn spread_pct<F>(m: Model<F>, spread: F, mid: F) -> F {
    if m.less(m.zero(), mid) {
        m.times(m.over(spread, mid), m.ratio(100, 1))
    } else {
        m.zero()
    }
}

/// Whether the texts tell the figures.
pub open spec fn is_stats_bar<F>(
    m: Model<F>,
    f: MarketFigures<F>,
    decimals: usize,
    bar: StatsBar,
) -> bool {
    let sign = if m.less(m.zero(), f.imbalance) {
        "+"@
    } else {
        ""@
    };
    &&& bar.mid@ == (m.text)(f.mid, Style::Fixed(decimals))
    &&& bar.spread@ == (m.text)(f.spread, Style::Fixed(decimals)) + " ("@ + (m.text)(
        spread_pct(m, f.spread, f.mid),
        Style::Fixed(4),
    ) + "%)"@
    &&& bar.imbalance@ == sign + (m.text)(f.imbalance, Style::Fixed(1)) + "%"@
    &&& bar.imbalance_tone == picker::tone_of(m, f.imbalance)
    &&& bar.tps@ == (m.text)(f.tps, Style::Fixed(1)) + "/s"@
    &&& bar.bids@ == text::decimal(f.bid_count as nat)
    &&& bar.asks@ == text::decimal(f.ask_count as nat)
}

/// The figures of the market as text.
pub fn stats_bar<F: Copy, A: Arithmetic<F>>(a: &A, f: MarketFigures<F>, decimals: usize) -> (bar:
    StatsBar)
    ensures
        forall|m: Model<F>| #[trigger]
            arith::describes(m, *a) ==> is_stats_bar(m, f, decimals, bar),
{
    let zero: F = arith::zero(a);
    let pct: F = if arith::less(a, zero, f.mid) {
        arith::times(a, arith::over(a, f.spread, f.mid), arith::ratio(a, 100, 1))
    } else {
        zero
    };
    let mut spread: String = format_price(a, f.spread, decimals);
    spread.append(" (");
    spread.append(&fixed(a, pct, 4));
    spread.append("%)");
    let mut imbalance: String = if arith::less(a, zero, f.imbalance) {
        "+".to_string()
    } else {
        "".to_string()
    };
    imbalance.append(&fixed(a, f.imbalance, 1));
    imbalance.append("%");
    StatsBar {
        mid: format_price(a, f.mid, decimals),
        spread,
        imbalance,
        imbalance_tone: tone(a, f.imbalance),
        tps: followed_by(fixed(a, f.tps, 1), "/s"),
        bids: decimal_text(f.bid_count as u128),
        asks: decimal_text(f.ask_count as u128),
    }
}

// ---------------------------------------------------------------------------
// Market impact
// ---------------------------------------------------------------------------

/// What an order of a notional would do to the book.
#[derive(Clone, Copy, Debug)]
pub struct MarketImpact<F> {
    pub avg_fill_price: F,
    pub worst_fill_price: F,
    pub slippage_pct: F,
    pub slippage_bps: F,
    pub levels_consumed: usize,
    pub total_qty_filled: F,
    pub total_notional: F,
    pub fully_filled: bool,
}

/// How bad a slippage is.
#[derive(Clone, Copy, Debug, PartialEq, Eq, Structural)]
pub enum Severity {
    Low,
    Medium,
    High,
}

/// How bad a slippage is: low below five basis points, high above twenty.
pub open spec fn severity_of<F>(m: Model<F>, slippage_bps: F) -> Severity {
    if m.less(slippage_bps, m.ratio(5, 1)) {
        Severity::Low
    } else if m.less_eq(slippage_bps, m.ratio(20, 1)) {
        Severity::Medium
    } else {
        Severity::High
    }
}

/// The estimate as text.
#[derive(Debug)]
pub struct ImpactRows {
    pub avg_fill: String,
    pub worst_fill: String,
    pub slippage: String,
    pub severity: Severity,
    pub levels_used: String,
    pub qty_filled: String,
    pub notional: String,
    pub status: String,
    pub fully_filled: bool,
}

/// What the panel of market impact shows.
#[derive(Debug)]
pub enum ImpactPane {
    /// There is no notional to estimate for.
    NoNotional,
    /// There is no book to estimate from.
    NoBook,
    Rows(ImpactRows),
}

/// Whether the texts tell the estimate for a notional of a symbol.
pub open spec fn is_impact_rows<F>(
    m: Model<F>,
    impact: MarketImpact<F>,
    notional: F,
    symbol: Seq<char>,
    decimals: usize,
    rows: ImpactRows,
) -> bool {
    let two = |x: F| (m.text)(x, Style::Fixed(2));
    &&& rows.avg_fill@ == (m.text)(impact.avg_fill_price, Style::Fixed(decimals))
    &&& rows.worst_fill@ == (m.text)(impact.worst_fill_price, Style::Fixed(decimals))
    &&& rows.slippage@ == (m.text)(impact.slippage_pct, Style::Fixed(3)) + "% ("@ + (m.text)(
        impact.slippage_bps,
        Style::Fixed(1),
    ) + " bps)"@
    &&& rows.severity == severity_of(m, impact.slippage_bps)
    &&& rows.levels_used@ == text::decimal(impact.levels_consumed as nat)
    &&& rows.qty_filled@ == (m.text)(impact.total_qty_filled, Style::Fixed(6)) + " "@
        + session::base_asset_of(symbol)
    &&& rows.notional@ == "$"@ + two(impact.total_notional)
    &&& rows.fully_filled == impact.fully_filled
    &&& rows.status@ == if impact.fully_filled {
        "Fully filled ($"@ + two(impact.total_notional) + ")"@
    } else {
        "Partial fill ($"@ + two(impact.total_notional) + " of $"@ + two(notional) + ")"@
    }
}

/// Whether the panel shows what it is to show.
pub open spec fn is_impact_pane<F>(
    m: Model<F>,
    impact: MarketImpact<F>,
    notional: F,
    symbol: Seq<char>,
    decimals: usize,
    pane: ImpactPane,
) -> bool {
    let no_notional = m.less_eq(notional, m.zero());
    let no_book = m.less_eq(impact.total_qty_filled, m.zero());
    match pane {
        ImpactPane::NoNotional => no_notional,
        ImpactPane::NoBook => !no_notional && no_book,
        ImpactPane::Rows(rows) => !no_notional && !no_book && is_impact_rows(
            m,
            impact,
            notional,
            symbol,
            decimals,
            rows,
        ),
    }
}

/// What the panel of market impact shows of an estimate for a notional.
pub fn impact_pane<F: Copy, A: Arithmetic<F>>(
    a: &A,
    impact: MarketImpact<F>,
    notional: F,
    symbol: &str,
    decimals: usize,
) -> (pane: ImpactPane)
    ensures
        forall|m: Model<F>| #[trigger]
            arith::describes(m, *a) ==> is_impact_pane(
                m,
                impact,
                notional,
                symbol@,
                decimals,
                pane,
            ),
{
    let zero: F = arith::zero(a);
    if arith::less_eq(a, notional, zero) {
        return ImpactPane::NoNotional;
    }
    if arith::less_eq(a, impact.total_qty_filled, zero) {
        return ImpactPane::NoBook;
    }
    let severity: Severity = if arith::less(a, impact.slippage_bps, arith::ratio(a, 5, 1)) {
        Severity::Low
    } else if arith::less_eq(a, impact.slippage_bps, arith::ratio(a, 20, 1)) {
        Severity::Medium
    } else {
        Severity::High
    };
    let mut slippage: String = fixed(a, impact.slippage_pct, 3);
    slippage.append("% (");
    slippage.append(&fixed(a, impact.slippage_bps, 1));
    slippage.append(" bps)");
    let mut qty_filled: String = fixed(a, impact.total_qty_filled, 6);
    qty_filled.append(" ");
    qty_filled.append(&base_asset_symbol(symbol));
    let total: String = fixed(a, impact.total_notional, 2);
    let mut status: String = if impact.fully_filled {
        "Fully filled ($".to_string()
    } else {
        "Partial fill ($".to_string()
    };
    status.append(&total);
    if !impact.fully_filled {
        status.append(" of $");
        status.append(&fixed(a, notional, 2));
    }
    status.append(")");
    ImpactPane::Rows(
        ImpactRows {
            avg_fill: format_price(a, impact.avg_fill_price, decimals),
            worst_fill: format_price(a, impact.worst_fill_price, decimals),
            slippage,
            severity,
            levels_used: decimal_text(impact.levels_consumed as u128),
            qty_filled,
            notional: followed_by("$".to_string(), &total),
            status,
            fully_filled: impact.fully_filled,
        },
    )
}

// ---------------------------------------------------------------------------
// Strategy
// ---------------------------------------------------------------------------

/// A text and whether what it tells is good or bad.
#[derive(Debug)]
pub struct Cell {
    pub text: String,
    pub tone: Tone,
}

/// Whether a cell holds a text in a tone.
pub open spec fn is_cell(cell: Cell, text: Seq<char>, tone: Tone) -> bool {
    cell.text@ == text && cell.tone == tone
}

/// The tone of a score: up above a tenth, down below minus a tenth.
pub open spec fn score_tone<F>(m: Model<F>, score: F) -> Tone {
    if m.less(m.ratio(1, 10), score) {
        Tone::Up
    } else if m.less(score, m.ratio(-1, 10)) {
        Tone::Down
    } else {
        Tone::Even
    }
}

/// A score with three decimals and its tone.
fn score_cell<F: Copy, A: Arithmetic<F>>(a: &A, score: F) -> (cell: Cell)
    ensures
        forall|m: Model<F>| #[trigger]
            arith::describes(m, *a) ==> is_cell(
                cell,
                (m.text)(score, Style::Signed(3)),
                score_tone(m, score),
            ),
{
    let tone: Tone = if arith::less(a, arith::ratio(a, 1, 10), score) {
        Tone::Up
    } else if arith::less(a, score, arith::ratio(a, -1, 10)) {
        Tone::Down
    } else {
        Tone::Even
    };
    Cell { text: signed(a, score, 3), tone }
}

/// The words for a signal.
pub open spec fn signal_words(signal: Signal) -> Seq<char> {
    match signal {
        Signal::GoLong => "▲ GO LONG"@,
        Signal::GoShort => "▼ GO SHORT"@,
        Signal::ExitLong => "✕ EXIT LONG"@,
        Signal::ExitShort => "✕ EXIT SHORT"@,
        Signal::Hold => "— HOLD"@,
    }
}

/// The words for a signal.
pub fn signal_text(signal: Signal) -> (words: &'static str)
    ensures
        words@ == signal_words(signal),
{
    match signal {
        Signal::GoLong => "▲ GO LONG",
        Signal::GoShort => "▼ GO SHORT",
        Signal::ExitLong => "✕ EXIT LONG",
        Signal::ExitShort => "✕ EXIT SHORT",
        Signal::Hold => "— HOLD",
    }
}

/// The word for the state of a position.
pub open spec fn state_word(state: PositionState) -> Seq<char> {
    match state {
        PositionState::Flat => "FLAT"@,
        PositionState::Long => "LONG"@,
        PositionState::Short => "SHORT"@,
    }
}

/// The tone of the state of a position.
pub open spec fn state_tone(state: PositionState) -> Tone {
    match state {
        PositionState::Flat => Tone::Even,
        PositionState::Long => Tone::Up,
        PositionState::Short => Tone::Down,
    }
}

/// The state of a position.
fn state_cell(state: PositionState) -> (cell: Cell)
    ensures
        is_cell(cell, state_word(state), state_tone(state)),
{
    match state {
        PositionState::Flat => Cell { text: "FLAT".to_string(), tone: Tone::Even },
        PositionState::Long => Cell { text: "LONG".to_string(), tone: Tone::Up },
        PositionState::Short => Cell { text: "SHORT".to_string(), tone: Tone::Down },
    }
}

/// An open position as text.
#[derive(Debug)]
pub struct OpenRows {
    pub entry: String,
    pub current: String,
    pub pnl: Cell,
}

/// What the last bar says, as text.
#[derive(Debug)]
pub struct BarRows {
    pub direction: Cell,
    pub shift: Cell,
    pub imbalance: Cell,
    pub absorption: String,
    pub buy_volume: Cell,
}

/// The strategy as text.
#[derive(Debug)]
pub struct StrategyPane {
    pub running: &'static str,
    pub symbol: String,
    pub score: Cell,
    pub live_score: Cell,
    pub signal: &'static str,
    pub position: Cell,
    pub open: Option<OpenRows>,
    pub equity: Cell,
    pub initial: String,
    pub daily_pnl: Cell,
    pub daily_pct: String,
    pub trades: String,
    pub win_rate: Cell,
    pub profit_factor: String,
    pub max_drawdown: String,
    pub circuit: &'static str,
    pub losses: String,
    pub many_losses: bool,
    pub bar: Option<BarRows>,
}

/// Whether the texts tell what a bar says.
pub open spec fn is_bar_rows<F>(m: Model<F>, bar: AggregatedBar<F>, rows: BarRows) -> bool {
    let three = |x: F| (m.text)(x, Style::Fixed(3));
    let sign = |x: F| tone_above(m, x, m.zero());
    &&& is_cell(rows.direction, three(bar.fk_net_direction_mean), sign(bar.fk_net_direction_mean))
    &&& is_cell(rows.shift, three(bar.aggression_shift_mean), sign(bar.aggression_shift_mean))
    &&& is_cell(rows.imbalance, three(bar.ob_imbalance_mean), sign(bar.ob_imbalance_mean))
    &&& rows.absorption@ == three(bar.absorption_score_max)
    &&& is_cell(
        rows.buy_volume,
        (m.text)(bar.avg_buy_volume_pct, Style::Fixed(1)) + "%"@,
        tone_above(m, bar.avg_buy_volume_pct, m.ratio(50, 1)),
    )
}

/// The score of the last bar, zero where there is none.
pub open spec fn bar_score<F>(m: Model<F>, p: StrategyPipeline<F>) -> F {
    match p.last_bar {
        Some(bar) => strategy::score_of(m, p.engine.config, bar),
        None => m.zero(),
    }
}

/// The profit of the day in percent of the first equity.
pub open spec fn daily_pct_of<F>(m: Model<F>, p: StrategyPipeline<F>) -> F {
    if m.less(m.zero(), p.initial_equity) {
        m.times(m.over(p.engine@.daily_pnl, p.initial_equity), m.ratio(100, 1))
    } else {
        m.zero()
    }
}

/// Whether the texts tell of the scores, the signal and the position.
pub open spec fn tells_position<F>(
    m: Model<F>,
    p: StrategyPipeline<F>,
    mid: F,
    pane: StrategyPane,
) -> bool {
    let position = p.engine@.position;
    let two = |x: F| (m.text)(x, Style::Fixed(2));
    let gain = |x: F| (m.text)(x, Style::Signed(2));
    &&& is_cell(
        pane.score,
        (m.text)(bar_score(m, p), Style::Signed(3)),
        score_tone(m, bar_score(m, p)),
    )
    &&& is_cell(
        pane.live_score,
        (m.text)(p.last_instant_score, Style::Signed(3)),
        score_tone(m, p.last_instant_score),
    )
    &&& pane.signal@ == signal_words(p.last_signal)
    &&& is_cell(pane.position, state_word(position.state), state_tone(position.state))
    &&& match pane.open {
        Some(rows) => position.state != PositionState::Flat && rows.entry@ == two(
            position.entry_price,
        ) && rows.current@ == two(mid) && is_cell(
            rows.pnl,
            gain(position.unrealized_pnl),
            tone_from(m, position.unrealized_pnl, m.zero()),
        ),
        None => position.state == PositionState::Flat,
    }
}

/// Whether the texts tell of the account and of the trades.
pub open spec fn tells_account<F>(m: Model<F>, p: StrategyPipeline<F>, pane: StrategyPane) -> bool {
    let e = p.engine@;
    let r = report::report_of(m, e.trades, p.initial_equity);
    let two = |x: F| (m.text)(x, Style::Fixed(2));
    let gain = |x: F| (m.text)(x, Style::Signed(2));
    &&& is_cell(pane.equity, two(e.equity), tone_from(m, e.equity, p.initial_equity))
    &&& pane.initial@ == two(p.initial_equity)
    &&& is_cell(pane.daily_pnl, gain(e.daily_pnl), tone_from(m, e.daily_pnl, m.zero()))
    &&& pane.daily_pct@ == gain(daily_pct_of(m, p)) + "%"@
    &&& pane.trades@ == text::decimal(e.trades.len())
    &&& is_cell(
        pane.win_rate,
        (m.text)(r.win_rate, Style::Fixed(1)) + "%"@,
        tone_from(m, r.win_rate, m.ratio(50, 1)),
    )
    &&& pane.profit_factor@ == two(r.profit_factor)
    &&& pane.max_drawdown@ == two(r.max_drawdown_pct) + "%"@
    &&& match pane.bar {
        Some(rows) => p.last_bar is Some && is_bar_rows(m, p.last_bar->0, rows),
        None => p.last_bar is None,
    }
}

/// What a bar says, as text.
fn bar_rows<F: Copy, A: Arithmetic<F>>(a: &A, bar: &AggregatedBar<F>) -> (rows: BarRows)
    ensures
        forall|m: Model<F>| #[trigger] arith::describes(m, *a) ==> is_bar_rows(m, *bar, rows),
{
    let zero: F = arith::zero(a);
    BarRows {
        direction: Cell {
            text: fixed(a, bar.fk_net_direction_mean, 3),
            tone: tone_over(a, bar.fk_net_direction_mean, zero),
        },
        shift: Cell {
            text: fixed(a, bar.aggression_shift_mean, 3),
            tone: tone_over(a, bar.aggression_shift_mean, zero),
        },
        imbalance: Cell {
            text: fixed(a, bar.ob_imbalance_mean, 3),
            tone: tone_over(a, bar.ob_imbalance_mean, zero),
        },
        absorption: fixed(a, bar.absorption_score_max, 3),
        buy_volume: Cell {
            text: followed_by(fixed(a, bar.avg_buy_volume_pct, 1), "%"),
            tone: tone_over(a, bar.avg_buy_volume_pct, arith::ratio(a, 50, 1)),
        },
    }
}

/// The strategy as text.
pub fn strategy_pane<F: Copy, A: Arithmetic<F>>(
    a: &A,
    p: &StrategyPipeline<F>,
    symbol: &str,
    mid: F,
) -> (pane: StrategyPane)
    requires
        report::total_hold(p.engine@.trades) <= u64::MAX,
    ensures
        pane.running@ == (if p.enabled {
            "RUNNING"@
        } else {
            "PAUSED"@
        }),
        pane.symbol@ == text::uppercase(symbol@),
        pane.circuit@ == (if p.engine@.active {
            "ACTIVE"@
        } else {
            "TRIPPED"@
        }),
        pane.losses@ == text::decimal(p.engine@.losses as nat),
        pane.many_losses == (p.engine@.losses > 2),
        forall|m: Model<F>| #[trigger]
            arith::describes(m, *a) ==> tells_position(m, *p, mid, pane) && tells_account(
                m,
                *p,
                pane,
            ),
{
    let zero: F = arith::zero(a);
    let score: F = match &p.last_bar {
        Some(bar) => p.engine.compute_score(a, bar),
        None => zero,
    };
    let open: Option<OpenRows> = if p.engine.position.is_flat() {
        None
    } else {
        let pnl: F = p.engine.position.unrealized_pnl;
        Some(
            OpenRows {
                entry: fixed(a, p.engine.position.entry_price, 2),
                current: fixed(a, mid, 2),
                pnl: Cell { text: signed(a, pnl, 2), tone: tone_at_least(a, pnl, zero) },
            },
        )
    };
    let equity: F = p.engine.equity();
    let daily_pnl: F = p.engine.daily_pnl();
    let daily_pct: F = if arith::less(a, zero, p.initial_equity) {
        arith::times(a, arith::over(a, daily_pnl, p.initial_equity), arith::ratio(a, 100, 1))
    } else {
        zero
    };
    let trades: &Vec<TradeRecord<F>> = p.engine.trade_history();
    let r: PerformanceReport<F> = PerformanceReport::from_trades(a, trades, p.initial_equity);
    let losses: usize = p.engine.consecutive_losses();
    let bar: Option<BarRows> = match &p.last_bar {
        Some(bar) => Some(bar_rows(a, bar)),
        None => None,
    };
    StrategyPane {
        running: if p.enabled {
            "RUNNING"
        } else {
            "PAUSED"
        },
        symbol: to_upper(symbol),
        score: score_cell(a, score),
        live_score: score_cell(a, p.last_instant_score),
        signal: signal_text(p.last_signal),
        position: state_cell(p.engine.position.state),
        open,
        equity: Cell {
            text: fixed(a, equity, 2),
            tone: tone_at_least(a, equity, p.initial_equity),
        },
        initial: fixed(a, p.initial_equity, 2),
        daily_pnl: Cell { text: signed(a, daily_pnl, 2), tone: tone_at_least(a, daily_pnl, zero) },
        daily_pct: followed_by(signed(a, daily_pct, 2), "%"),
        trades: decimal_text(r.total_trades as u128),
        win_rate: Cell {
            text: followed_by(fixed(a, r.win_rate, 1), "%"),
            tone: tone_at_least(a, r.win_rate, arith::ratio(a, 50, 1)),
        },
        profit_factor: fixed(a, r.profit_factor, 2),
        max_drawdown: followed_by(fixed(a, r.max_drawdown_pct, 2), "%"),
        circuit: if p.engine.is_session_active() {
            "ACTIVE"
        } else {
            "TRIPPED"
        },
        losses: decimal_text(losses as u128),
        many_losses: losses > 2,
        bar,
    }
}

// ---------------------------------------------------------------------------
// Trades
// ---------------------------------------------------------------------------

/// A closed trade as text.
#[derive(Debug)]
pub struct TradeLine {
    pub id: String,
    pub side: Cell,
    pub entry: String,
    pub exit: String,
    pub pnl: Cell,
    pub pnl_pct: String,
    pub reason: String,
}

/// Whether the texts tell of a trade.
pub open spec fn is_trade_line<F>(m: Model<F>, t: TradeView<F>, line: TradeLine) -> bool {
    &&& line.id@ == text::decimal(t.id as nat)
    &&& is_cell(
        line.side,
        strategy::side_word(t.side),
        if t.side == Side::Buy {
            Tone::Up
        } else {
            Tone::Down
        },
    )
    &&& line.entry@ == (m.text)(t.entry_price, Style::Fixed(2))
    &&& line.exit@ == (m.text)(t.exit_price, Style::Fixed(2))
    &&& is_cell(line.pnl, (m.text)(t.pnl, Style::Signed(2)), tone_from(m, t.pnl, m.zero()))
    &&& line.pnl_pct@ == (m.text)(t.pnl_pct, Style::Signed(2)) + "%"@
    &&& line.reason@ == t.exit_reason
}

/// The closed trades as text, the latest first.
pub fn trade_log<F: Copy, A: Arithmetic<F>>(a: &A, trades: &Vec<TradeRecord<F>>) -> (lines: Vec<
    TradeLine,
>)
    ensures
        lines.len() == trades.len(),
        forall|m: Model<F>, i: int|
            #![trigger arith::describes(m, *a), lines@[i]]
            arith::describes(m, *a) && 0 <= i < lines.len() ==> is_trade_line(
                m,
                trades@[trades@.len() - 1 - i]@,
                lines@[i],
            ),
{
    let zero: F = arith::zero(a);
    let mut lines: Vec<TradeLine> = Vec::new();
    while lines.len() < trades.len()
        invariant
            lines.len() <= trades.len(),
            forall|m: Model<F>| #[trigger] arith::describes(m, *a) ==> zero == m.zero(),
            forall|m: Model<F>, i: int|
                #![trigger arith::describes(m, *a), lines@[i]]
                arith::describes(m, *a) && 0 <= i < lines.len() ==> is_trade_line(
                    m,
                    trades@[trades@.len() - 1 - i]@,
                    lines@[i],
                ),
        decreases trades.len() - lines.len(),
    {
        let t: &TradeRecord<F> = &trades[trades.len() - 1 - lines.len()];
        let side: Cell = match t.side {
            Side::Buy => Cell { text: "BUY".to_string(), tone: Tone::Up },
            Side::Sell => Cell { text: "SELL".to_string(), tone: Tone::Down },
        };
        lines.push(
            TradeLine {
                id: decimal_text(t.id as u128),
                side,
                entry: fixed(a, t.entry_price, 2),
                exit: fixed(a, t.exit_price, 2),
                pnl: Cell { text: signed(a, t.pnl, 2), tone: tone_at_least(a, t.pnl, zero) },
                pnl_pct: followed_by(signed(a, t.pnl_pct, 2), "%"),
                reason: t.exit_reason.clone(),
            },
        );
    }
    lines
}

/// In exact arithmetic the spread that is shown is as many percent of the middle
/// as it is.
pub proof fn law_spread_is_told_in_percent<F>(
    m: Model<F>,
    v: spec_fn(F) -> real,
    spread: F,
    mid: F,
)
    requires
        arith::is_exact(m, v),
        v(mid) > 0real,
    ensures
        v(spread_pct(m, spread, mid)) * v(mid) == 100real * v(spread),
{
    arith::lemma_whole_number(m, v, 0);
    arith::lemma_whole_number(m, v, 100);
    assert(100int as real == 100real);
    let (s, t) = (v(spread), v(mid));
    arith::lemma_quotient(s, t);
    let part = s / t;
    assert((part * 100real) * t == 100real * s) by (nonlinear_arith)
        requires
            part * t == s,
    ;
}

/// In exact arithmetic the profit of the day that is shown is as many percent of
/// the first equity as it is.
pub proof fn law_daily_profit_is_told_in_percent<F>(
    m: Model<F>,
    v: spec_fn(F) -> real,
    p: StrategyPipeline<F>,
)
    requires
        arith::is_exact(m, v),
        v(p.initial_equity) > 0real,
    ensures
        v(daily_pct_of(m, p)) * v(p.initial_equity) == 100real * v(p.engine@.daily_pnl),
{
    arith::lemma_whole_number(m, v, 0);
    arith::lemma_whole_number(m, v, 100);
    assert(100int as real == 100real);
    let (s, t) = (v(p.engine@.daily_pnl), v(p.initial_equity));
    arith::lemma_quotient(s, t);
    let part = s / t;
    assert((part * 100real) * t == 100real * s) by (nonlinear_arith)
        requires
            part * t == s,
    ;
}

/// In exact arithmetic a slippage below five basis points is low, one above twenty
/// high, and one in between neither.
pub proof fn law_severity_grows_with_the_slippage<F>(
    m: Model<F>,
    v: spec_fn(F) -> real,
    slippage_bps: F,
)
    requires
        arith::is_exact(m, v),
    ensures
        severity_of(m, slippage_bps) == Severity::Low <==> v(slippage_bps) < 5real,
        severity_of(m, slippage_bps) == Severity::High <==> v(slippage_bps) > 20real,
{
    arith::lemma_whole_number(m, v, 5);
    arith::lemma_whole_number(m, v, 20);
    assert(5int as real == 5real);
    assert(20int as real == 20real);
}

} // verus!

//! Performance figures of closed trades, and trades as lines of a file.

use vstd::prelude::*;

use crate::arith;
use crate::arith::{Arithmetic, Model, Style};
use crate::strategy;
use crate::strategy::{Side, StrategyEngine, TradeRecord, TradeView};
use crate::text;

verus! {

// ---------------------------------------------------------------------------
// Profits and losses
// ---------------------------------------------------------------------------

/// What each trade brought.
pub open spec fn pnls<F>(trades: Seq<TradeView<F>>) -> Seq<F> {
    Seq::new(trades.len(), |i: int| trades[i].pnl)
}

/// Which outcome of a trade is meant.
#[derive(Clone, Copy, Debug, PartialEq, Eq, Structural)]
pub enum Outcome {
    Win,
    Loss,
}

/// Whether a trade that brought `pnl` had the outcome. One that brought nothing
/// had neither.
pub open spec fn is_outcome<F>(m: Model<F>, pnl: F, outcome: Outcome) -> bool {
    match outcome {
        Outcome::Win => m.less(m.zero(), pnl),
        Outcome::Loss => m.less(pnl, m.zero()),
    }
}

/// What the trades with an outcome brought, losses without their sign.
pub open spec fn amounts<F>(m: Model<F>, list: Seq<F>, outcome: Outcome) -> Seq<F>
    decreases list.len(),
{
    if list.len() == 0 {
        Seq::empty()
    } else {
        let before = amounts(m, list.drop_last(), outcome);
        if is_outcome(m, list.last(), outcome) {
            before.push(
                match outcome {
                    Outcome::Win => list.last(),
                    Outcome::Loss => m.abs(list.last()),
                },
            )
        } else {
            before
        }
    }
}

/// How many trades at the end of the list in a row had the outcome.
pub open spec fn closing_run<F>(m: Model<F>, list: Seq<F>, outcome: Outcome) -> nat
    decreases list.len(),
{
    if list.len() > 0 && is_outcome(m, list.last(), outcome) {
        closing_run(m, list.drop_last(), outcome) + 1
    } else {
        0
    }
}

/// The longest run of trades in a row with the outcome.
pub open spec fn longest_run<F>(m: Model<F>, list: Seq<F>, outcome: Outcome) -> nat
    decreases list.len(),
{
    if list.len() == 0 {
        0
    } else {
        let before = longest_run(m, list.drop_last(), outcome);
        let run = closing_run(m, list, outcome);
        if run > before {
            run
        } else {
            before
        }
    }
}

/// An equity curve: where it stands, its peak, and its deepest fall from a peak
/// in percent.
pub struct Curve<F> {
    pub equity: F,
    pub peak: F,
    pub worst: F,
}

/// The equity curve after trades have brought what they brought.
pub open spec fn curve_of<F>(m: Model<F>, start: F, list: Seq<F>) -> Curve<F>
    decreases list.len(),
{
    if list.len() == 0 {
        Curve { equity: start, peak: start, worst: m.zero() }
    } else {
        let before = curve_of(m, start, list.drop_last());
        let equity = m.plus(before.equity, list.last());
        let peak = if m.less(before.peak, equity) {
            equity
        } else {
            before.peak
        };
        let fall = m.times(m.over(m.minus(peak, equity), peak), m.ratio(100, 1));
        Curve {
            equity,
            peak,
            worst: if m.less(m.zero(), peak) && m.less(before.worst, fall) {
                fall
            } else {
                before.worst
            },
        }
    }
}

/// The square of each number's distance from another.
pub open spec fn squared_distances<F>(m: Model<F>, list: Seq<F>, from: F) -> Seq<F> {
    Seq::new(list.len(), |i: int| m.square(m.minus(list[i], from)))
}

/// What each trade brought.
fn pnl_column<F: Copy>(trades: &Vec<TradeRecord<F>>) -> (list: Vec<F>)
    ensures
        list@ == pnls(strategy::trade_views(trades@)),
{
    let mut list: Vec<F> = Vec::new();
    let mut i: usize = 0;
    while i < trades.len()
        invariant
            i <= trades.len(),
            list.len() == i,
            forall|k: int| 0 <= k < i ==> list@[k] == trades@[k].pnl,
        decreases trades.len() - i,
    {
        list.push(trades[i].pnl);
        i += 1;
    }
    proof {
        assert(list@ =~= pnls(strategy::trade_views(trades@)));
    }
    list
}

/// Whether a trade that brought `pnl` had the outcome.
fn had_outcome<F: Copy, A: Arithmetic<F>>(a: &A, pnl: F, outcome: Outcome) -> (had: bool)
    ensures
        forall|m: Model<F>| #[trigger]
            arith::describes(m, *a) ==> had == is_outcome(m, pnl, outcome),
{
    let zero: F = arith::zero(a);
    match outcome {
        Outcome::Win => arith::less(a, zero, pnl),
        Outcome::Loss => arith::less(a, pnl, zero),
    }
}

/// What the trades with an outcome brought, losses without their sign.
fn outcome_amounts<F: Copy, A: Arithmetic<F>>(
    a: &A,
    list: &Vec<F>,
    outcome: Outcome,
) -> (picked: Vec<F>)
    ensures
        picked.len() <= list.len(),
        forall|m: Model<F>| #[trigger]
            arith::describes(m, *a) ==> picked@ == amounts(m, list@, outcome),
{
    let mut picked: Vec<F> = Vec::new();
    let mut i: usize = 0;
    while i < list.len()
        invariant
            i <= list.len(),
            picked.len() <= i,
            forall|m: Model<F>| #[trigger]
                arith::describes(m, *a) ==> picked@ == amounts(
                    m,
                    list@.take(i as int),
                    outcome,
                ),
        decreases list.len() - i,
    {
        proof {
            assert(list@.take(i as int + 1).drop_last() =~= list@.take(i as int));
        }
        if had_outcome(a, list[i], outcome) {
            let amount: F = match outcome {
                Outcome::Win => list[i],
                Outcome::Loss => arith::abs(a, list[i]),
            };
            picked.push(amount);
        }
        i += 1;
    }
    proof {
        assert(list@.take(list@.len() as int) =~= list@);
    }
    picked
}

/// The longest run of trades in a row with the outcome.
fn longest_streak<F: Copy, A: Arithmetic<F>>(a: &A, list: &Vec<F>, outcome: Outcome) -> (longest:
    usize)
    ensures
        longest <= list.len(),
        forall|m: Model<F>| #[trigger]
            arith::describes(m, *a) ==> longest == longest_run(m, list@, outcome),
{
    let mut longest: usize = 0;
    let mut run: usize = 0;
    let mut i: usize = 0;
    while i < list.len()
        invariant
            i <= list.len(),
            run <= i,
            longest <= i,
            forall|m: Model<F>| #[trigger]
                arith::describes(m, *a) ==> longest == longest_run(
                    m,
                    list@.take(i as int),
                    outcome,
                ) && run == closing_run(m, list@.take(i as int), outcome),
        decreases list.len() - i,
    {
        proof {
            assert(list@.take(i as int + 1).drop_last() =~= list@.take(i as int));
        }
        if had_outcome(a, list[i], outcome) {
            run += 1;
            if run > longest {
                longest = run;
            }
        } else {
            run = 0;
        }
        i += 1;
    }
    proof {
        assert(list@.take(list@.len() as int) =~= list@);
    }
    longest
}

/// The deepest fall of the equity from a peak, in percent.
fn deepest_fall<F: Copy, A: Arithmetic<F>>(a: &A, start: F, list: &Vec<F>) -> (worst: F)
    ensures
        forall|m: Model<F>| #[trigger]
            arith::describes(m, *a) ==> worst == curve_of(m, start, list@).worst,
{
    let zero: F = arith::zero(a);
    let hundred: F = arith::ratio(a, 100, 1);
    let mut equity: F = start;
    let mut peak: F = start;
    let mut worst: F = zero;
    let mut i: usize = 0;
    while i < list.len()
        invariant
            i <= list.len(),
            forall|m: Model<F>| #[trigger]
                arith::describes(m, *a) ==> zero == m.zero() && hundred == m.ratio(100, 1)
                    && curve_of(m, start, list@.take(i as int)) == (Curve { equity, peak, worst }),
        decreases list.len() - i,
    {
        proof {
            assert(list@.take(i as int + 1).drop_last() =~= list@.take(i as int));
        }
        equity = arith::plus(a, equity, list[i]);
        if arith::less(a, peak, equity) {
            peak = equity;
        }
        if arith::less(a, zero, peak) {
            let drop: F = arith::minus(a, peak, equity);
            let part: F = arith::over(a, drop, peak);
            let fall: F = arith::times(a, part, hundred);
            if arith::less(a, worst, fall) {
                worst = fall;
            }
        }
        i += 1;
    }
    proof {
        assert(list@.take(list@.len() as int) =~= list@);
    }
    worst
}

/// The square of each number's distance from another.
fn distances_squared<F: Copy, A: Arithmetic<F>>(a: &A, list: &Vec<F>, from: F) -> (squares: Vec<F>)
    ensures
        squares.len() == list.len(),
        forall|m: Model<F>| #[trigger]
            arith::describes(m, *a) ==> squares@ == squared_distances(m, list@, from),
{
    let mut squares: Vec<F> = Vec::new();
    let mut i: usize = 0;
    while i < list.len()
        invariant
            i <= list.len(),
            squares.len() == i,
            forall|m: Model<F>| #[trigger]
                arith::describes(m, *a) ==> forall|k: int|
                    0 <= k < i ==> #[trigger] squares@[k] == m.square(m.minus(list@[k], from)),
        decreases list.len() - i,
    {
        let distance: F = arith::minus(a, list[i], from);
        squares.push(arith::square(a, distance));
        i += 1;
    }
    proof {
        assert forall|m: Model<F>| #[trigger] arith::describes(m, *a) implies squares@
            == squared_distances(m, list@, from) by {
            assert(squares@ =~= squared_distances(m, list@, from));
        }
    }
    squares
}

// ---------------------------------------------------------------------------
// Figures of an engine
// ---------------------------------------------------------------------------

/// The share of winning trades in percent, zero without trades.
pub open spec fn win_rate_of<F>(m: Model<F>, list: Seq<F>) -> F {
    if list.len() == 0 {
        m.zero()
    } else {
        m.times(
            m.over(
                m.count(amounts(m, list, Outcome::Win).len() as u64),
                m.count(list.len() as u64),
            ),
            m.ratio(100, 1),
        )
    }
}

/// What was won over what was lost: infinite where there were only wins, zero
/// where there was neither.
pub open spec fn profit_factor_of<F>(m: Model<F>, list: Seq<F>) -> F {
    let won = m.sum(amounts(m, list, Outcome::Win));
    let lost = m.sum(amounts(m, list, Outcome::Loss));
    if m.equal(lost, m.zero()) {
        if m.less(m.zero(), won) {
            m.infinity()
        } else {
            m.zero()
        }
    } else {
        m.over(won, lost)
    }
}

impl<F: Copy> StrategyEngine<F> {
    /// The share of winning trades in percent.
    pub fn win_rate<A: Arithmetic<F>>(&self, a: &A) -> (rate: F)
        ensures
            forall|m: Model<F>| #[trigger]
                arith::describes(m, *a) ==> rate == win_rate_of(m, pnls(self@.trades)),
    {
        let list: Vec<F> = pnl_column(&self.trade_history);
        if list.len() == 0 {
            return arith::zero(a);
        }
        let wins: Vec<F> = outcome_amounts(a, &list, Outcome::Win);
        let won: F = arith::count(a, wins.len() as u64);
        let part: F = arith::over(a, won, arith::count(a, list.len() as u64));
        arith::times(a, part, arith::ratio(a, 100, 1))
    }

    /// What was won over what was lost.
    pub fn profit_factor<A: Arithmetic<F>>(&self, a: &A) -> (factor: F)
        ensures
            forall|m: Model<F>| #[trigger]
                arith::describes(m, *a) ==> factor == profit_factor_of(m, pnls(self@.trades)),
    {
        let list: Vec<F> = pnl_column(&self.trade_history);
        let zero: F = arith::zero(a);
        let won: F = arith::sum(a, &outcome_amounts(a, &list, Outcome::Win));
        let lost: F = arith::sum(a, &outcome_amounts(a, &list, Outcome::Loss));
        if arith::equal(a, lost, zero) {
            if arith::less(a, zero, won) {
                arith::infinity(a)
            } else {
                zero
            }
        } else {
            arith::over(a, won, lost)
        }
    }

    /// What all trades brought together.
    pub fn total_pnl<A: Arithmetic<F>>(&self, a: &A) -> (total: F)
        ensures
            forall|m: Model<F>| #[trigger]
                arith::describes(m, *a) ==> total == m.sum(pnls(self@.trades)),
    {
        arith::sum(a, &pnl_column(&self.trade_history))
    }

    /// The deepest fall of the equity from a peak over all trades, in percent.
    pub fn max_drawdown_pct<A: Arithmetic<F>>(&self, a: &A) -> (worst: F)
        ensures
            forall|m: Model<F>| #[trigger]
                arith::describes(m, *a) ==> worst == (if self@.trades.len() == 0 {
                    m.zero()
                } else {
                    curve_of(
                        m,
                        m.minus(self@.equity, m.sum(pnls(self@.trades))),
                        pnls(self@.trades),
                    ).worst
                }),
    {
        let list: Vec<F> = pnl_column(&self.trade_history);
        if list.len() == 0 {
            return arith::zero(a);
        }
        let total: F = arith::sum(a, &list);
        let start: F = arith::minus(a, self.equity, total);
        deepest_fall(a, start, &list)
    }
}

// ---------------------------------------------------------------------------
// Report
// ---------------------------------------------------------------------------

/// Summary of closed trades.
#[derive(Debug)]
pub struct PerformanceReport<F> {
    pub total_trades: usize,
    pub winning_trades: usize,
    pub losing_trades: usize,
    /// In percent.
    pub win_rate: F,
    pub total_pnl: F,
    /// In percent of the starting equity.
    pub total_pnl_pct: F,
    pub avg_win: F,
    /// Below zero.
    pub avg_loss: F,
    /// What was won over what was lost.
    pub profit_factor: F,
    pub max_drawdown_pct: F,
    pub sharpe_ratio: F,
    pub avg_hold_duration_ms: u64,
    pub best_trade_pnl: F,
    pub worst_trade_pnl: F,
    pub longest_win_streak: usize,
    pub longest_loss_streak: usize,
}

/// How long all trades together were held.
pub open spec fn total_hold<F>(trades: Seq<TradeView<F>>) -> nat
    decreases trades.len(),
{
    if trades.len() == 0 {
        0
    } else {
        total_hold(trades.drop_last()) + trades.last().hold_duration_ms as nat
    }
}

/// Mean profit over its deviation, for a year of 1-minute bars; zero where there
/// is no deviation.
pub open spec fn sharpe_of<F>(m: Model<F>, list: Seq<F>) -> F {
    let mean = m.mean(list);
    let deviation = m.sqrt(m.mean(squared_distances(m, list, mean)));
    if m.less(m.zero(), deviation) {
        m.times(m.over(mean, deviation), m.sqrt(m.ratio(525_600, 1)))
    } else {
        m.zero()
    }
}

/// The summary of closed trades.
pub open spec fn report_of<F>(
    m: Model<F>,
    trades: Seq<TradeView<F>>,
    start: F,
) -> PerformanceReport<F> {
    let list = pnls(trades);
    let wins = amounts(m, list, Outcome::Win);
    let losses = amounts(m, list, Outcome::Loss);
    let won = m.sum(wins);
    let lost = m.sum(losses);
    if trades.len() == 0 {
        PerformanceReport {
            total_trades: 0,
            winning_trades: 0,
            losing_trades: 0,
            win_rate: m.zero(),
            total_pnl: m.zero(),
            total_pnl_pct: m.zero(),
            avg_win: m.zero(),
            avg_loss: m.zero(),
            profit_factor: m.zero(),
            max_drawdown_pct: m.zero(),
            sharpe_ratio: m.zero(),
            avg_hold_duration_ms: 0,
            best_trade_pnl: m.zero(),
            worst_trade_pnl: m.zero(),
            longest_win_streak: 0,
            longest_loss_streak: 0,
        }
    } else {
        PerformanceReport {
            total_trades: trades.len() as usize,
            winning_trades: wins.len() as usize,
            losing_trades: losses.len() as usize,
            win_rate: win_rate_of(m, list),
            total_pnl: m.sum(list),
            total_pnl_pct: if m.less(m.zero(), start) {
                m.times(m.over(m.sum(list), start), m.ratio(100, 1))
            } else {
                m.zero()
            },
            avg_win: if wins.len() > 0 {
                m.over(won, m.count(wins.len() as u64))
            } else {
                m.zero()
            },
            avg_loss: if losses.len() > 0 {
                m.neg(m.over(lost, m.count(losses.len() as u64)))
            } else {
                m.zero()
            },
            profit_factor: if m.less(m.zero(), lost) {
                m.over(won, lost)
            } else if m.less(m.zero(), won) {
                m.infinity()
            } else {
                m.zero()
            },
            max_drawdown_pct: curve_of(m, start, list).worst,
            sharpe_ratio: sharpe_of(m, list),
            avg_hold_duration_ms: (total_hold(trades) / trades.len()) as u64,
            best_trade_pnl: m.greatest(list),
            worst_trade_pnl: m.least(list),
            longest_win_streak: longest_run(m, list, Outcome::Win) as usize,
            longest_loss_streak: longest_run(m, list, Outcome::Loss) as usize,
        }
    }
}

/// How long all trades together were held.
fn hold_sum<F>(trades: &Vec<TradeRecord<F>>) -> (total: u64)
    requires
        total_hold(strategy::trade_views(trades@)) <= u64::MAX,
    ensures
        total == total_hold(strategy::trade_views(trades@)),
{
    let ghost views = strategy::trade_views(trades@);
    let mut total: u64 = 0;
    let mut i: usize = 0;
    while i < trades.len()
        invariant
            i <= trades.len(),
            views == strategy::trade_views(trades@),
            total == total_hold(views.take(i as int)),
            total_hold(views) <= u64::MAX,
        decreases trades.len() - i,
    {
        proof {
            assert(views.take(i as int + 1).drop_last() =~= views.take(i as int));
            lemma_hold_grows(views, i as int + 1);
        }
        total += trades[i].hold_duration_ms;
        i += 1;
    }
    proof {
        assert(views.take(views.len() as int) =~= views);
    }
    total
}

proof fn lemma_hold_grows<F>(trades: Seq<TradeView<F>>, n: int)
    requires
        0 <= n <= trades.len(),
    ensures
        total_hold(trades.take(n)) <= total_hold(trades),
    decreases trades.len() - n,
{
    if n < trades.len() {
        lemma_hold_grows(trades, n + 1);
        assert(trades.take(n + 1).drop_last() =~= trades.take(n));
    } else {
        assert(trades.take(n) =~= trades);
    }
}

impl<F: Copy> PerformanceReport<F> {
    /// Summarises closed trades.
    pub fn from_trades<A: Arithmetic<F>>(
        a: &A,
        trades: &Vec<TradeRecord<F>>,
        starting_equity: F,
    ) -> (report: PerformanceReport<F>)
        requires
            total_hold(strategy::trade_views(trades@)) <= u64::MAX,
        ensures
            report.total_trades == trades.len(),
            trades.len() > 0 ==> report.avg_hold_duration_ms == total_hold(
                strategy::trade_views(trades@),
            ) / trades@.len(),
            report.winning_trades <= report.total_trades,
            report.losing_trades <= report.total_trades,
            report.longest_win_streak <= report.total_trades,
            report.longest_loss_streak <= report.total_trades,
            forall|m: Model<F>| #[trigger]
                arith::describes(m, *a) ==> report == report_of(
                    m,
                    strategy::trade_views(trades@),
                    starting_equity,
                ),
    {
        let zero: F = arith::zero(a);
        let hundred: F = arith::ratio(a, 100, 1);
        let list: Vec<F> = pnl_column(trades);
        if trades.len() == 0 {
            return PerformanceReport {
                total_trades: 0,
                winning_trades: 0,
                losing_trades: 0,
                win_rate: zero,
                total_pnl: zero,
                total_pnl_pct: zero,
                avg_win: zero,
                avg_loss: zero,
                profit_factor: zero,
                max_drawdown_pct: zero,
                sharpe_ratio: zero,
                avg_hold_duration_ms: 0,
                best_trade_pnl: zero,
                worst_trade_pnl: zero,
                longest_win_streak: 0,
                longest_loss_streak: 0,
            };
        }
        let total_trades: usize = trades.len();
        let wins: Vec<F> = outcome_amounts(a, &list, Outcome::Win);
        let losses: Vec<F> = outcome_amounts(a, &list, Outcome::Loss);
        let winners: F = arith::count(a, wins.len() as u64);
        let losers: F = arith::count(a, losses.len() as u64);
        let everyone: F = arith::count(a, list.len() as u64);
        let win_part: F = arith::over(a, winners, everyone);
        let win_rate: F = arith::times(a, win_part, hundred);
        let total_pnl: F = arith::sum(a, &list);
        let total_pnl_pct: F = if arith::less(a, zero, starting_equity) {
            let part: F = arith::over(a, total_pnl, starting_equity);
            arith::times(a, part, hundred)
        } else {
            zero
        };
        let won: F = arith::sum(a, &wins);
        let lost: F = arith::sum(a, &losses);
        let avg_win: F = if wins.len() > 0 {
            arith::over(a, won, winners)
        } else {
            zero
        };
        let avg_loss: F = if losses.len() > 0 {
            let size: F = arith::over(a, lost, losers);
            arith::neg(a, size)
        } else {
            zero
        };
        let profit_factor: F = if arith::less(a, zero, lost) {
            arith::over(a, won, lost)
        } else if arith::less(a, zero, won) {
            arith::infinity(a)
        } else {
            zero
        };
        let max_drawdown_pct: F = deepest_fall(a, starting_equity, &list);
        let mean: F = arith::mean(a, &list);
        let squares: Vec<F> = distances_squared(a, &list, mean);
        let variance: F = arith::mean(a, &squares);
        let deviation: F = arith::sqrt(a, variance);
        let yearly: F = arith::sqrt(a, arith::ratio(a, 525_600, 1));
        let sharpe_ratio: F = if arith::less(a, zero, deviation) {
            let part: F = arith::over(a, mean, deviation);
            arith::times(a, part, yearly)
        } else {
            zero
        };
        let held: u64 = hold_sum(trades);
        let avg_hold_duration_ms: u64 = held / total_trades as u64;
        PerformanceReport {
            total_trades,
            winning_trades: wins.len(),
            losing_trades: losses.len(),
            win_rate,
            total_pnl,
            total_pnl_pct,
            avg_win,
            avg_loss,
            profit_factor,
            max_drawdown_pct,
            sharpe_ratio,
            avg_hold_duration_ms,
            best_trade_pnl: arith::greatest(a, &list),
            worst_trade_pnl: arith::least(a, &list),
            longest_win_streak: longest_streak(a, &list, Outcome::Win),
            longest_loss_streak: longest_streak(a, &list, Outcome::Loss),
        }
    }
}

// ---------------------------------------------------------------------------
// CSV
// ---------------------------------------------------------------------------

/// The heading of a file of trades.
pub fn trade_csv_header() -> (line: String)
    ensures
        line@ == "id,symbol,side,entry_time_ms,exit_time_ms,entry_price,exit_price,quantity,pnl,pnl_pct,hold_duration_ms,exit_reason"@,
{
    "id,symbol,side,entry_time_ms,exit_time_ms,entry_price,exit_price,quantity,pnl,pnl_pct,hold_duration_ms,exit_reason".to_string()
}

/// The fields of a trade in a file, in the order of the heading.
pub open spec fn trade_fields<F>(m: Model<F>, t: TradeView<F>) -> Seq<Seq<char>> {
    let n = |number: F| (m.text)(number, Style::Fixed(8));
    seq![
        text::decimal(t.id as nat),
        t.symbol,
        match t.side {
            Side::Buy => "Buy"@,
            Side::Sell => "Sell"@,
        },
        text::decimal(t.entry_time_ms as nat),
        text::decimal(t.exit_time_ms as nat),
        n(t.entry_price),
        n(t.exit_price),
        n(t.quantity),
        n(t.pnl),
        n(t.pnl_pct),
        text::decimal(t.hold_duration_ms as nat),
        t.exit_reason,
    ]
}

/// A trade as a line of a file.
pub fn trade_csv_row<F: Copy, A: Arithmetic<F>>(a: &A, t: &TradeRecord<F>) -> (line: String)
    ensures
        forall|m: Model<F>| #[trigger]
            arith::describes(m, *a) ==> line@ == text::joined(trade_fields(m, t@), ","@),
{
    let style: Style = Style::Fixed(8);
    let side: String = match t.side {
        Side::Buy => "Buy".to_string(),
        Side::Sell => "Sell".to_string(),
    };
    let mut fields: Vec<String> = Vec::new();
    fields.push(text::decimal_text(t.id as u128));
    fields.push(t.symbol.clone());
    fields.push(side);
    fields.push(text::decimal_text(t.entry_time_ms as u128));
    fields.push(text::decimal_text(t.exit_time_ms as u128));
    fields.push(arith::text(a, t.entry_price, style));
    fields.push(arith::text(a, t.exit_price, style));
    fields.push(arith::text(a, t.quantity, style));
    fields.push(arith::text(a, t.pnl, style));
    fields.push(arith::text(a, t.pnl_pct, style));
    fields.push(text::decimal_text(t.hold_duration_ms as u128));
    fields.push(t.exit_reason.clone());
    proof {
        assert forall|m: Model<F>| #[trigger] arith::describes(m, *a) implies text::views(fields@)
            == trade_fields(m, t@) by {
            assert(text::views(fields@) =~= trade_fields(m, t@));
        }
    }
    text::join(&fields, ",")
}

// ---------------------------------------------------------------------------
// Laws
// ---------------------------------------------------------------------------

/// A run of trades with one outcome is no longer than the number of trades with
/// that outcome, and there are no more of these than trades.
pub proof fn law_runs_are_bounded<F>(m: Model<F>, list: Seq<F>, outcome: Outcome)
    ensures
        closing_run(m, list, outcome) <= longest_run(m, list, outcome),
        longest_run(m, list, outcome) <= amounts(m, list, outcome).len(),
        amounts(m, list, outcome).len() <= list.len(),
    decreases list.len(),
{
    if list.len() > 0 {
        law_runs_are_bounded(m, list.drop_last(), outcome);
        lemma_run_within_amounts(m, list, outcome);
    }
}

proof fn lemma_run_within_amounts<F>(m: Model<F>, list: Seq<F>, outcome: Outcome)
    ensures
        closing_run(m, list, outcome) <= amounts(m, list, outcome).len(),
    decreases list.len(),
{
    if list.len() > 0 && is_outcome(m, list.last(), outcome) {
        lemma_run_within_amounts(m, list.drop_last(), outcome);
    }
}

/// Where no number is both above and below zero, winning and losing trades
/// together are no more than all trades.
pub proof fn law_outcomes_are_exclusive<F>(m: Model<F>, list: Seq<F>)
    requires
        forall|i: int|
            0 <= i < list.len() ==> !(m.less(m.zero(), #[trigger] list[i]) && m.less(
                list[i],
                m.zero(),
            )),
    ensures
        amounts(m, list, Outcome::Win).len() + amounts(m, list, Outcome::Loss).len() <= list.len(),
    decreases list.len(),
{
    if list.len() > 0 {
        let front = list.drop_last();
        assert forall|i: int| 0 <= i < front.len() implies !(m.less(m.zero(), #[trigger] front[i])
            && m.less(front[i], m.zero())) by {
            assert(front[i] == list[i]);
        }
        law_outcomes_are_exclusive(m, front);
        assert(list.last() == list[list.len() - 1]);
    }
}

/// The equity after the first `n` trades.
pub open spec fn equity_after<F>(
    v: spec_fn(F) -> real,
    start: F,
    list: Seq<F>,
    n: int,
) -> real {
    v(start) + arith::total(arith::values(v, list.take(n)))
}

/// By how much of one equity another is below it, in percent.
pub open spec fn fall_pct(from: real, to: real) -> real {
    (from - to) / from * 100real
}

/// In exact arithmetic the drawdown is the deepest fall of the equity from the
/// highest that it had been: after any number of trades the equity is no further
/// below any equity before than that, as long as it is not below zero, and no
/// further below the highest before in any case; and it is zero or one of these
/// falls.
pub proof fn law_drawdown_is_the_deepest_fall<F>(
    m: Model<F>,
    v: spec_fn(F) -> real,
    start: F,
    list: Seq<F>,
)
    requires
        arith::is_exact(m, v),
    ensures
        ({
            let worst = v(curve_of(m, start, list).worst);
            let equity = |n: int| equity_after(v, start, list, n);
            &&& forall|i: int, k: int|
                0 <= i <= k <= list.len() && #[trigger] equity(i) > 0real && #[trigger] equity(k)
                    >= 0real ==> fall_pct(equity(i), equity(k)) <= worst
            &&& forall|i: int, k: int|
                0 <= i <= k <= list.len() && #[trigger] equity(i) > 0real && (forall|j: int|
                    0 <= j <= k ==> #[trigger] equity(j) <= equity(i)) ==> fall_pct(
                    equity(i),
                    #[trigger] equity(k),
                ) <= worst
            &&& worst == 0real || exists|i: int, k: int|
                0 <= i <= k <= list.len() && worst == fall_pct(
                    #[trigger] equity(i),
                    #[trigger] equity(k),
                )
        }),
{
    let worst = v(curve_of(m, start, list).worst);
    let equity = |n: int| equity_after(v, start, list, n);
    lemma_curve(m, v, start, list);
    assert forall|i: int, k: int|
        0 <= i <= k <= list.len() && #[trigger] equity(i) > 0real && #[trigger] equity(k)
            >= 0real implies fall_pct(equity(i), equity(k)) <= worst by {
        assert(has_top(v, start, list, k));
        let top = choose|p: int| 0 <= p <= k && #[trigger] is_top(v, start, list, p, k);
        assert(equity_after(v, start, list, i) <= equity_after(v, start, list, top));
        lemma_fall_grows(equity(k), equity(i), equity(top));
        assert(equity_after(v, start, list, top) > 0real);
        assert(fall_pct(equity(top), equity(k)) <= worst);
    }
    assert forall|i: int, k: int|
        0 <= i <= k <= list.len() && #[trigger] equity(i) > 0real && (forall|j: int|
            0 <= j <= k ==> #[trigger] equity(j) <= equity(i)) implies fall_pct(
        equity(i),
        #[trigger] equity(k),
    ) <= worst by {
        assert(is_top(v, start, list, i, k)) by {
            assert forall|j: int| 0 <= j <= k implies #[trigger] equity_after(v, start, list, j)
                <= equity_after(v, start, list, i) by {
                assert(equity(j) <= equity(i));
            }
        }
    }
    if worst != 0real {
        let (i, k) = choose|i: int, k: int|
            0 <= i <= k <= list.len() && worst == fall_pct(
                #[trigger] equity_after(v, start, list, i),
                #[trigger] equity_after(v, start, list, k),
            );
        assert(worst == fall_pct(equity(i), equity(k)));
    }
}

/// Whether the equity after `top` trades is the highest of those up to `n`.
spec fn is_top<F>(v: spec_fn(F) -> real, start: F, list: Seq<F>, top: int, n: int) -> bool {
    forall|j: int|
        0 <= j <= n ==> #[trigger] equity_after(v, start, list, j) <= equity_after(
            v,
            start,
            list,
            top,
        )
}

/// Whether one of the equities up to `n` is the highest of them.
spec fn has_top<F>(v: spec_fn(F) -> real, start: F, list: Seq<F>, n: int) -> bool {
    exists|top: int| 0 <= top <= n && #[trigger] is_top(v, start, list, top, n)
}

/// What an equity that is not below zero falls from a higher one is the greater
/// part of it.
proof fn lemma_fall_grows(to: real, low: real, high: real)
    requires
        0real < low <= high,
        to >= 0real,
    ensures
        fall_pct(low, to) <= fall_pct(high, to),
{
    let x = (low - to) / low;
    let y = (high - to) / high;
    arith::lemma_quotient(low - to, low);
    arith::lemma_quotient(high - to, high);
    let a = 1real - x;
    let b = 1real - y;
    assert(a * low == to) by (nonlinear_arith)
        requires
            x * low == low - to,
            a == 1real - x,
    ;
    assert(b * high == to) by (nonlinear_arith)
        requires
            y * high == high - to,
            b == 1real - y,
    ;
    assert(b <= a) by (nonlinear_arith)
        requires
            a * low == to,
            b * high == to,
            0real < low <= high,
            to >= 0real,
    ;
}

/// The equity curve: where it stands, that its peak is the highest equity so far,
/// and what its deepest fall is.
proof fn lemma_curve<F>(m: Model<F>, v: spec_fn(F) -> real, start: F, list: Seq<F>)
    requires
        arith::is_exact(m, v),
    ensures
        ({
            let curve = curve_of(m, start, list);
            let worst = v(curve.worst);
            &&& v(curve.equity) == equity_after(v, start, list, list.len() as int)
            &&& exists|p: int|
                0 <= p <= list.len() && v(curve.peak) == #[trigger] equity_after(v, start, list, p)
            &&& forall|j: int|
                0 <= j <= list.len() ==> #[trigger] equity_after(v, start, list, j) <= v(curve.peak)
            &&& worst >= 0real
            &&& worst == 0real || exists|i: int, k: int|
                0 <= i <= k <= list.len() && worst == fall_pct(
                    #[trigger] equity_after(v, start, list, i),
                    #[trigger] equity_after(v, start, list, k),
                )
            &&& forall|k: int| 0 <= k <= list.len() ==> #[trigger] has_top(v, start, list, k)
            &&& forall|p: int, k: int|
                0 <= p <= k <= list.len() && #[trigger] is_top(v, start, list, p, k)
                    && equity_after(v, start, list, p) > 0real ==> fall_pct(
                    equity_after(v, start, list, p),
                    equity_after(v, start, list, k),
                ) <= worst
        }),
    decreases list.len(),
{
    let curve = curve_of(m, start, list);
    let n = list.len() as int;
    arith::lemma_whole_number(m, v, 0);
    arith::lemma_whole_number(m, v, 100);
    if n == 0 {
        assert(list.take(0) =~= Seq::empty());
        assert(arith::values(v, list.take(0)).len() == 0);
        assert(v(curve.peak) == equity_after(v, start, list, 0));
        assert(is_top(v, start, list, 0, 0));
        let e = equity_after(v, start, list, 0);
        assert(e > 0real ==> (e - e) / e * 100real == 0real) by (nonlinear_arith);
    } else {
        let front = list.drop_last();
        lemma_curve(m, v, start, front);
        let before = curve_of(m, start, front);
        assert forall|j: int| 0 <= j < n implies #[trigger] equity_after(v, start, list, j)
            == equity_after(v, start, front, j) by {
            assert(list.take(j) =~= front.take(j));
        }
        let here = equity_after(v, start, list, n);
        assert(list.take(n) =~= list);
        assert(front.take(n - 1) =~= front);
        assert(arith::values(v, list).drop_last() =~= arith::values(v, front));
        assert(arith::values(v, list).last() == v(list.last()));
        assert(here == equity_after(v, start, front, n - 1) + v(list.last()));
        assert(v(curve.equity) == here);
        let old_top = choose|p: int|
            0 <= p <= front.len() && v(before.peak) == #[trigger] equity_after(v, start, front, p);
        assert(equity_after(v, start, list, old_top) == v(before.peak));
        let top = if v(before.peak) < here {
            n
        } else {
            old_top
        };
        assert(v(curve.peak) == equity_after(v, start, list, top));
        assert forall|j: int| 0 <= j <= n implies #[trigger] equity_after(v, start, list, j) <= v(
            curve.peak,
        ) by {
            if j < n {
                assert(equity_after(v, start, front, j) <= v(before.peak));
            }
        }
        let fall = fall_pct(v(curve.peak), here);
        assert(v(curve.peak) > 0real ==> (v(curve.worst) == if v(before.worst) < fall {
            fall
        } else {
            v(before.worst)
        }));
        if v(curve.worst) != 0real {
            if v(curve.worst) == v(before.worst) {
                let (i, k) = choose|i: int, k: int|
                    0 <= i <= k <= front.len() && v(before.worst) == fall_pct(
                        #[trigger] equity_after(v, start, front, i),
                        #[trigger] equity_after(v, start, front, k),
                    );
                assert(v(curve.worst) == fall_pct(
                    equity_after(v, start, list, i),
                    equity_after(v, start, list, k),
                ));
            } else {
                assert(v(curve.worst) == fall_pct(
                    equity_after(v, start, list, top),
                    equity_after(v, start, list, n),
                ));
            }
        }
        assert forall|k: int| 0 <= k <= n implies #[trigger] has_top(v, start, list, k) by {
            if k < n {
                assert(has_top(v, start, front, k));
                let p = choose|p: int| 0 <= p <= k && #[trigger] is_top(v, start, front, p, k);
                assert(is_top(v, start, list, p, k)) by {
                    assert forall|j: int| 0 <= j <= k implies #[trigger] equity_after(
                        v,
                        start,
                        list,
                        j,
                    ) <= equity_after(v, start, list, p) by {
                        assert(equity_after(v, start, front, j) <= equity_after(
                            v,
                            start,
                            front,
                            p,
                        ));
                    }
                }
            } else {
                assert(is_top(v, start, list, top, n));
            }
        }
        assert forall|p: int, k: int|
            0 <= p <= k <= n && #[trigger] is_top(v, start, list, p, k) && equity_after(
                v,
                start,
                list,
                p,
            ) > 0real implies fall_pct(
            equity_after(v, start, list, p),
            equity_after(v, start, list, k),
        ) <= v(curve.worst) by {
            if k < n {
                assert(is_top(v, start, front, p, k)) by {
                    assert forall|j: int| 0 <= j <= k implies #[trigger] equity_after(
                        v,
                        start,
                        front,
                        j,
                    ) <= equity_after(v, start, front, p) by {
                        assert(equity_after(v, start, list, j) <= equity_after(v, start, list, p));
                    }
                }
                assert(v(before.worst) <= v(curve.worst));
            } else {
                assert(equity_after(v, start, list, top) <= equity_after(v, start, list, p));
                assert(equity_after(v, start, list, p) == v(curve.peak));
            }
        }
    }
}

/// The trades that brought something, or that cost something.
pub open spec fn with_outcome<F>(v: spec_fn(F) -> real, list: Seq<F>, wins: bool) -> Seq<F> {
    list.filter(
        |pnl: F|
            if wins {
                v(pnl) > 0real
            } else {
                v(pnl) < 0real
            },
    )
}

/// In exact arithmetic the figures of a report are those of its trades: how many
/// won and lost, what share won, what all brought, alone and in percent of the
/// starting equity, what a winning and what a losing trade brought on average,
/// and what was won for each unit lost.
pub proof fn law_report_tells_of_its_trades<F>(
    m: Model<F>,
    v: spec_fn(F) -> real,
    trades: Seq<TradeView<F>>,
    start: F,
)
    requires
        arith::is_exact(m, v),
        0 < trades.len() <= usize::MAX,
    ensures
        ({
            let report = report_of(m, trades, start);
            let list = Seq::new(trades.len(), |i: int| trades[i].pnl);
            let wins = with_outcome(v, list, true);
            let losses = with_outcome(v, list, false);
            let won = arith::total(arith::values(v, wins));
            let lost = -arith::total(arith::values(v, losses));
            let all = arith::total(arith::values(v, list));
            &&& report.total_trades == trades.len()
            &&& report.winning_trades == wins.len()
            &&& report.losing_trades == losses.len()
            &&& v(report.win_rate) * (trades.len() as real) == (wins.len() as real) * 100real
            &&& v(report.total_pnl) == all
            &&& v(start) > 0real ==> v(report.total_pnl_pct) * v(start) == all * 100real
            &&& v(start) <= 0real ==> v(report.total_pnl_pct) == 0real
            &&& wins.len() > 0 ==> v(report.avg_win) * (wins.len() as real) == won
            &&& wins.len() == 0 ==> v(report.avg_win) == 0real
            &&& losses.len() > 0 ==> v(report.avg_loss) * (losses.len() as real) == -lost
            &&& losses.len() == 0 ==> v(report.avg_loss) == 0real
            &&& losses.len() > 0 ==> v(report.profit_factor) * lost == won
            &&& losses.len() == 0 && wins.len() > 0 ==> report.profit_factor == m.infinity()
            &&& losses.len() == 0 && wins.len() == 0 ==> report.profit_factor == m.zero()
        }),
{
    let list = Seq::new(trades.len(), |i: int| trades[i].pnl);
    assert(list =~= pnls(trades));
    let wins = with_outcome(v, list, true);
    let losses = with_outcome(v, list, false);
    lemma_amounts(m, v, list);
    arith::lemma_whole_number(m, v, 0);
    arith::lemma_whole_number(m, v, 100);
    arith::law_sum_is_the_total(m, v, list);
    arith::law_sum_is_the_total(m, v, amounts(m, list, Outcome::Win));
    arith::law_sum_is_the_total(m, v, amounts(m, list, Outcome::Loss));
    let n = trades.len() as real;
    let w = wins.len() as real;
    let l = losses.len() as real;
    let won = arith::total(arith::values(v, wins));
    let lost = -arith::total(arith::values(v, losses));
    let all = arith::total(arith::values(v, list));
    law_runs_are_bounded(m, list, Outcome::Win);
    law_runs_are_bounded(m, list, Outcome::Loss);
    assert(v(m.count(list.len() as u64)) == n);
    arith::lemma_quotient(w, n);
    lemma_hundredfold(w / n, n, w);
    if v(start) > 0real {
        arith::lemma_quotient(all, v(start));
        lemma_hundredfold(all / v(start), v(start), all);
    }
    if wins.len() > 0 {
        arith::lemma_quotient(won, w);
    }
    if losses.len() > 0 {
        arith::lemma_quotient(lost, l);
        let mean = lost / l;
        assert((-mean) * l == -lost) by (nonlinear_arith)
            requires
                mean * l == lost,
        ;
        arith::lemma_quotient(won, lost);
    }
}

/// A part in percent.
proof fn lemma_hundredfold(part: real, whole: real, amount: real)
    requires
        part * whole == amount,
    ensures
        (part * 100real) * whole == amount * 100real,
{
    assert((part * 100real) * whole == amount * 100real) by (nonlinear_arith)
        requires
            part * whole == amount,
    ;
}

/// The amounts of the trades with an outcome are those that the trades with it
/// brought, losses without their sign.
proof fn lemma_amounts<F>(m: Model<F>, v: spec_fn(F) -> real, list: Seq<F>)
    requires
        arith::is_exact(m, v),
    ensures
        amounts(m, list, Outcome::Win) == with_outcome(v, list, true),
        amounts(m, list, Outcome::Loss).len() == with_outcome(v, list, false).len(),
        arith::total(arith::values(v, amounts(m, list, Outcome::Loss))) == -arith::total(
            arith::values(v, with_outcome(v, list, false)),
        ),
        with_outcome(v, list, true).len() > 0 ==> arith::total(
            arith::values(v, with_outcome(v, list, true)),
        ) > 0real,
        with_outcome(v, list, false).len() > 0 ==> arith::total(
            arith::values(v, with_outcome(v, list, false)),
        ) < 0real,
        with_outcome(v, list, true).len() == 0 ==> arith::total(
            arith::values(v, with_outcome(v, list, true)),
        ) == 0real,
        with_outcome(v, list, false).len() == 0 ==> arith::total(
            arith::values(v, with_outcome(v, list, false)),
        ) == 0real,
    decreases list.len(),
{
    reveal(Seq::filter);
    arith::lemma_whole_number(m, v, 0);
    if list.len() > 0 {
        let front = list.drop_last();
        let last = list.last();
        lemma_amounts(m, v, front);
        let wins = with_outcome(v, front, true);
        let losses = with_outcome(v, front, false);
        let sizes = amounts(m, front, Outcome::Loss);
        if v(last) > 0real {
            assert(with_outcome(v, list, true) == wins.push(last));
            assert(with_outcome(v, list, false) == losses);
            assert(arith::values(v, wins.push(last)).drop_last() =~= arith::values(v, wins));
        } else if v(last) < 0real {
            assert(with_outcome(v, list, true) == wins);
            assert(with_outcome(v, list, false) == losses.push(last));
            assert(arith::values(v, losses.push(last)).drop_last() =~= arith::values(v, losses));
            assert(arith::values(v, sizes.push(m.abs(last))).drop_last() =~= arith::values(
                v,
                sizes,
            ));
        } else {
            assert(with_outcome(v, list, true) == wins);
            assert(with_outcome(v, list, false) == losses);
        }
    } else {
        assert(amounts(m, list, Outcome::Win) =~= with_outcome(v, list, true));
    }
}

/// The best trade of a report brought what one of its trades brought, and none
/// brought more; the worst what one brought, and none less.
pub proof fn law_report_tells_best_and_worst<F>(
    m: Model<F>,
    trades: Seq<TradeView<F>>,
    start: F,
)
    requires
        arith::picks_extremes(m),
        trades.len() > 0,
        forall|i: int|
            0 <= i < trades.len() ==> m.equal((#[trigger] trades[i]).pnl, trades[i].pnl),
    ensures
        ({
            let report = report_of(m, trades, start);
            &&& exists|i: int|
                0 <= i < trades.len() && (#[trigger] trades[i]).pnl == report.best_trade_pnl
            &&& exists|i: int|
                0 <= i < trades.len() && (#[trigger] trades[i]).pnl == report.worst_trade_pnl
            &&& forall|i: int|
                0 <= i < trades.len() ==> !m.less(
                    report.best_trade_pnl,
                    (#[trigger] trades[i]).pnl,
                ) && !m.less(trades[i].pnl, report.worst_trade_pnl)
        }),
{
    let list = pnls(trades);
    assert forall|i: int| 0 <= i < list.len() implies m.equal(#[trigger] list[i], list[i]) by {
        assert(m.equal(trades[i].pnl, trades[i].pnl));
    }
    arith::law_extremes_are_met(m, list);
    let b = choose|i: int| 0 <= i < list.len() && list[i] == m.greatest(list);
    let w = choose|i: int| 0 <= i < list.len() && list[i] == m.least(list);
    assert(trades[b].pnl == m.greatest(list));
    assert(trades[w].pnl == m.least(list));
    assert forall|i: int| 0 <= i < trades.len() implies !m.less(
        m.greatest(list),
        (#[trigger] trades[i]).pnl,
    ) && !m.less(trades[i].pnl, m.least(list)) by {
        assert(list[i] == trades[i].pnl);
    }
}

/// Whether all trades from one place to before another won, or lost.
pub open spec fn is_streak<F>(m: Model<F>, list: Seq<F>, from: int, to: int, wins: bool) -> bool {
    &&& 0 <= from <= to <= list.len()
    &&& forall|i: int|
        from <= i < to ==> if wins {
            m.less(m.zero(), #[trigger] list[i])
        } else {
            m.less(list[i], m.zero())
        }
}

/// The longest streak is as long as one of trades in a row that won, or lost, and
/// none is longer.
pub proof fn law_streaks_are_the_longest<F>(
    m: Model<F>,
    trades: Seq<TradeView<F>>,
    start: F,
)
    requires
        0 < trades.len() <= usize::MAX,
    ensures
        ({
            let report = report_of(m, trades, start);
            let list = Seq::new(trades.len(), |i: int| trades[i].pnl);
            &&& forall|from: int, to: int| #[trigger]
                is_streak(m, list, from, to, true) ==> to - from <= report.longest_win_streak
            &&& forall|from: int, to: int| #[trigger]
                is_streak(m, list, from, to, false) ==> to - from <= report.longest_loss_streak
            &&& exists|from: int, to: int| #[trigger]
                is_streak(m, list, from, to, true) && to - from == report.longest_win_streak
            &&& exists|from: int, to: int| #[trigger]
                is_streak(m, list, from, to, false) && to - from == report.longest_loss_streak
        }),
{
    let list = Seq::new(trades.len(), |i: int| trades[i].pnl);
    assert(list =~= pnls(trades));
    lemma_streaks(m, list, true);
    lemma_streaks(m, list, false);
    law_runs_are_bounded(m, list, Outcome::Win);
    law_runs_are_bounded(m, list, Outcome::Loss);
}

proof fn lemma_streaks<F>(m: Model<F>, list: Seq<F>, wins: bool)
    ensures
        ({
            let outcome = if wins {
                Outcome::Win
            } else {
                Outcome::Loss
            };
            let n = list.len() as int;
            &&& is_streak(m, list, n - closing_run(m, list, outcome), n, wins)
            &&& forall|from: int| #[trigger]
                is_streak(m, list, from, n, wins) ==> n - from <= closing_run(m, list, outcome)
            &&& forall|from: int, to: int| #[trigger]
                is_streak(m, list, from, to, wins) ==> to - from <= longest_run(m, list, outcome)
            &&& exists|from: int, to: int| #[trigger]
                is_streak(m, list, from, to, wins) && to - from == longest_run(m, list, outcome)
        }),
    decreases list.len(),
{
    let outcome = if wins {
        Outcome::Win
    } else {
        Outcome::Loss
    };
    let n = list.len() as int;
    if n == 0 {
        assert(is_streak(m, list, 0, 0, wins));
    } else {
        let front = list.drop_last();
        lemma_streaks(m, front, wins);
        let run = closing_run(m, list, outcome) as int;
        assert forall|from: int, to: int| to < n implies #[trigger] is_streak(
            m,
            list,
            from,
            to,
            wins,
        ) == is_streak(m, front, from, to, wins) by {
            assert forall|i: int| 0 <= i < n - 1 implies front[i] == #[trigger] list[i] by {}
            if is_streak(m, front, from, to, wins) {
                assert forall|i: int| from <= i < to implies if wins {
                    m.less(m.zero(), #[trigger] list[i])
                } else {
                    m.less(list[i], m.zero())
                } by {
                    assert(front[i] == list[i]);
                }
            }
        }
        assert(list[n - 1] == list.last());
        assert(is_streak(m, list, n - run, n, wins)) by {
            if run > 0 {
                assert(is_streak(m, front, n - run, n - 1, wins));
                assert(is_streak(m, list, n - run, n - 1, wins));
            }
        }
        assert forall|from: int| #[trigger] is_streak(m, list, from, n, wins) implies n - from
            <= run by {
            if from < n {
                assert(is_streak(m, list, from, n - 1, wins));
                assert(is_streak(m, front, from, n - 1, wins));
                assert(is_outcome(m, list[n - 1], outcome));
            }
        }
        assert forall|from: int, to: int| #[trigger]
            is_streak(m, list, from, to, wins) implies to - from <= longest_run(
            m,
            list,
            outcome,
        ) by {
            if to < n {
                assert(is_streak(m, front, from, to, wins));
            } else {
                assert(is_streak(m, list, from, n, wins));
            }
        }
        if run > longest_run(m, front, outcome) {
            assert(is_streak(m, list, n - run, n, wins));
        } else {
            let (from, to) = choose|from: int, to: int| #[trigger]
                is_streak(m, front, from, to, wins) && to - from == longest_run(m, front, outcome);
            assert(is_streak(m, list, from, to, wins));
        }
    }
}

/// The average time that trades were held, as often as there are trades, is no
/// more than all of them were held together, and a millisecond more is more.
pub proof fn law_average_hold_shares_the_time<F>(
    m: Model<F>,
    trades: Seq<TradeView<F>>,
    start: F,
)
    requires
        trades.len() > 0,
        total_hold(trades) <= u64::MAX,
    ensures
        ({
            let average = report_of(m, trades, start).avg_hold_duration_ms;
            &&& average * trades.len() <= total_hold(trades) < (average + 1) * trades.len()
            &&& forall|i: int|
                0 <= i < trades.len() ==> (#[trigger] trades[i]).hold_duration_ms <= total_hold(
                    trades,
                )
        }),
{
    let all = total_hold(trades) as int;
    let n = trades.len() as int;
    vstd::arithmetic::div_mod::lemma_fundamental_div_mod(all, n);
    vstd::arithmetic::div_mod::lemma_mod_bound(all, n);
    let average = all / n;
    assert(average <= all) by (nonlinear_arith)
        requires
            n > 0,
            average == all / n,
            all >= 0,
    ;
    assert(average >= 0) by (nonlinear_arith)
        requires
            n > 0,
            average == all / n,
            all >= 0,
    ;
    assert(average * n == n * average) by (nonlinear_arith);
    assert((average + 1) * n == n * average + n) by (nonlinear_arith);
    assert forall|i: int| 0 <= i < trades.len() implies (#[trigger] trades[i]).hold_duration_ms
        <= total_hold(trades) by {
        lemma_hold_grows(trades, i + 1);
        assert(trades.take(i + 1).drop_last() =~= trades.take(i));
        assert(trades.take(i + 1).last() == trades[i]);
    }
}

/// Whether an arithmetic takes exact roots.
pub open spec fn takes_roots<F>(m: Model<F>, v: spec_fn(F) -> real) -> bool {
    forall|x: F|
        v(x) >= 0real ==> v(#[trigger] m.sqrt(x)) >= 0real && v(m.sqrt(x)) * v(m.sqrt(x)) == v(x)
}

/// The sum of the squares of how far values lie from another.
pub open spec fn square_distance(list: Seq<real>, from: real) -> real
    decreases list.len(),
{
    if list.len() == 0 {
        0real
    } else {
        square_distance(list.drop_last(), from) + (list.last() - from) * (list.last() - from)
    }
}

/// In exact arithmetic the Sharpe ratio is the mean of what trades brought over
/// its standard deviation, scaled to the minutes of a year, and zero where all
/// trades brought the same.
pub proof fn law_sharpe_scales_mean_by_deviation<F>(
    m: Model<F>,
    v: spec_fn(F) -> real,
    trades: Seq<TradeView<F>>,
    start: F,
    deviation: real,
    year: real,
)
    requires
        arith::is_exact(m, v),
        takes_roots(m, v),
        0 < trades.len() <= usize::MAX,
        deviation >= 0real,
        year >= 0real,
        year * year == 525_600real,
        ({
            let list = Seq::new(trades.len(), |i: int| v(trades[i].pnl));
            let n = trades.len() as real;
            (deviation * deviation) * n == square_distance(list, arith::total(list) / n)
        }),
    ensures
        ({
            let list = Seq::new(trades.len(), |i: int| v(trades[i].pnl));
            let n = trades.len() as real;
            let sharpe = v(report_of(m, trades, start).sharpe_ratio);
            &&& deviation > 0real ==> sharpe * deviation == (arith::total(list) / n) * year
            &&& deviation == 0real ==> sharpe == 0real
        }),
{
    let pnl = pnls(trades);
    let list = Seq::new(trades.len(), |i: int| v(trades[i].pnl));
    let n = trades.len() as real;
    assert(arith::values(v, pnl) =~= list);
    arith::law_sum_is_the_total(m, v, pnl);
    assert(v(m.count(pnl.len() as u64)) == n);
    let mean = m.mean(pnl);
    assert(v(mean) == arith::total(list) / n);
    let squares = squared_distances(m, pnl, mean);
    arith::law_sum_is_the_total(m, v, squares);
    lemma_square_distance(m, v, pnl, mean);
    let variance = m.mean(squares);
    assert(v(m.count(squares.len() as u64)) == n);
    arith::lemma_quotient(square_distance(list, v(mean)), n);
    let d2 = deviation * deviation;
    assert(v(variance) == d2) by {
        let q = v(variance);
        assert(q * n == d2 * n);
        assert(q == d2) by (nonlinear_arith)
            requires
                q * n == d2 * n,
                n > 0real,
        ;
    }
    assert(d2 >= 0real) by (nonlinear_arith)
        requires
            d2 == deviation * deviation,
    ;
    let root = v(m.sqrt(variance));
    lemma_same_root(root, deviation);
    arith::lemma_whole_number(m, v, 525_600);
    arith::lemma_whole_number(m, v, 0);
    let y = v(m.sqrt(m.ratio(525_600, 1)));
    lemma_same_root(y, year);
    if deviation > 0real {
        let part = v(mean) / deviation;
        arith::lemma_quotient(v(mean), deviation);
        assert((part * year) * deviation == v(mean) * year) by (nonlinear_arith)
            requires
                part * deviation == v(mean),
        ;
    }
}

/// A root that is not below zero is the only one.
proof fn lemma_same_root(x: real, y: real)
    requires
        x >= 0real,
        y >= 0real,
        x * x == y * y,
    ensures
        x == y,
{
    assert(x == y) by (nonlinear_arith)
        requires
            x >= 0real,
            y >= 0real,
            x * x == y * y,
    ;
}

proof fn lemma_square_distance<F>(m: Model<F>, v: spec_fn(F) -> real, list: Seq<F>, from: F)
    requires
        arith::is_exact(m, v),
    ensures
        arith::total(arith::values(v, squared_distances(m, list, from))) == square_distance(
            arith::values(v, list),
            v(from),
        ),
    decreases list.len(),
{
    if list.len() > 0 {
        let front = list.drop_last();
        lemma_square_distance(m, v, front, from);
        let all = arith::values(v, squared_distances(m, list, from));
        assert(all.drop_last() =~= arith::values(v, squared_distances(m, front, from)));
        assert(arith::values(v, list).drop_last() =~= arith::values(v, front));
    }
}

/// In exact arithmetic the share of winning trades and the profit factor that an
/// engine tells are those of the report of its trades.
pub proof fn law_engine_agrees_with_its_report<F>(
    m: Model<F>,
    v: spec_fn(F) -> real,
    trades: Seq<TradeView<F>>,
    start: F,
)
    requires
        arith::is_exact(m, v),
        0 < trades.len() <= usize::MAX,
    ensures
        win_rate_of(m, pnls(trades)) == report_of(m, trades, start).win_rate,
        profit_factor_of(m, pnls(trades)) == report_of(m, trades, start).profit_factor,
{
    arith::lemma_whole_number(m, v, 0);
    lemma_amounts(m, v, pnls(trades));
    arith::law_sum_is_the_total(m, v, amounts(m, pnls(trades), Outcome::Loss));
}

} // verus!

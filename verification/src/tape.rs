//! The trade tape: the latest trades, newest first, as a table of text.

use vstd::prelude::*;

use crate::arith;
use crate::arith::{Arithmetic, Model, Style};
use crate::text;
use crate::text::{chars_of, decimal_text, digits_text, text_of, trimmed};

verus! {

/// The fewest rows that the tape can be set to.
pub const TAPE_ROW_CAP_MIN: usize = 20;

/// The most rows that the tape can be set to.
pub const TAPE_ROW_CAP_MAX: usize = 300;

/// The width of the column of times.
pub const TIME_WIDTH: usize = 12;

/// The width of the column of sides.
pub const SIDE_WIDTH: usize = 4;

// ---------------------------------------------------------------------------
// Numbers and times as text
// ---------------------------------------------------------------------------

/// A price with a given number of decimals.
pub fn format_price<F: Copy, A: Arithmetic<F>>(a: &A, value: F, decimals: usize) -> (price: String)
    ensures
        forall|m: Model<F>| #[trigger]
            arith::describes(m, *a) ==> price@ == (m.text)(value, Style::Fixed(decimals)),
{
    arith::text(a, value, Style::Fixed(decimals))
}

/// A volume in billions, millions or thousands, or as a whole number.
pub open spec fn volume_text<F>(m: Model<F>, volume: F) -> Seq<char> {
    let billion = m.ratio(1_000_000_000, 1);
    let million = m.ratio(1_000_000, 1);
    let thousand = m.ratio(1_000, 1);
    if m.less_eq(billion, volume) {
        (m.text)(m.over(volume, billion), Style::Fixed(1)) + "B"@
    } else if m.less_eq(million, volume) {
        (m.text)(m.over(volume, million), Style::Fixed(1)) + "M"@
    } else if m.less_eq(thousand, volume) {
        (m.text)(m.over(volume, thousand), Style::Fixed(1)) + "K"@
    } else {
        (m.text)(volume, Style::Fixed(0))
    }
}

/// A volume in billions, millions or thousands, or as a whole number.
pub fn format_volume<F: Copy, A: Arithmetic<F>>(a: &A, volume: F) -> (written: String)
    ensures
        forall|m: Model<F>| #[trigger]
            arith::describes(m, *a) ==> written@ == volume_text(m, volume),
{
    let billion: F = arith::ratio(a, 1_000_000_000, 1);
    let million: F = arith::ratio(a, 1_000_000, 1);
    let thousand: F = arith::ratio(a, 1_000, 1);
    let (unit, letter): (F, &str) = if arith::less_eq(a, billion, volume) {
        (billion, "B")
    } else if arith::less_eq(a, million, volume) {
        (million, "M")
    } else if arith::less_eq(a, thousand, volume) {
        (thousand, "K")
    } else {
        return arith::text(a, volume, Style::Fixed(0));
    };
    let mut written: String = arith::text(a, arith::over(a, volume, unit), Style::Fixed(1));
    written.append(letter);
    written
}

/// The time of day of a time in milliseconds: hours, minutes, seconds and
/// milliseconds.
pub open spec fn clock_text(timestamp_ms: u64) -> Seq<char> {
    let day_ms = timestamp_ms as nat % 86_400_000;
    text::digits(day_ms / 3_600_000, 2) + ":"@ + text::digits(day_ms / 60_000 % 60, 2) + ":"@
        + text::digits(day_ms / 1_000 % 60, 2) + "."@ + text::digits(day_ms % 1_000, 3)
}

/// Minutes and seconds of a day in milliseconds, counted in two ways.
proof fn lemma_clock(day_ms: nat)
    ensures
        (day_ms % 3_600_000) / 60_000 == day_ms / 60_000 % 60,
        (day_ms % 60_000) / 1_000 == day_ms / 1_000 % 60,
{
}

/// The time of day of a time in milliseconds.
pub fn format_hms_millis(timestamp_ms: u64) -> (clock: String)
    ensures
        clock@ == clock_text(timestamp_ms),
{
    let day_ms: u64 = timestamp_ms % 86_400_000;
    let hours: u64 = day_ms / 3_600_000;
    let minutes: u64 = (day_ms % 3_600_000) / 60_000;
    let seconds: u64 = (day_ms % 60_000) / 1_000;
    let millis: u64 = day_ms % 1_000;
    proof {
        lemma_clock(day_ms as nat);
    }
    let mut clock: String = digits_text(hours as u128, 2);
    clock.append(":");
    clock.append(&digits_text(minutes as u128, 2));
    clock.append(":");
    clock.append(&digits_text(seconds as u128, 2));
    clock.append(".");
    clock.append(&digits_text(millis as u128, 3));
    clock
}

// ---------------------------------------------------------------------------
// Rows
// ---------------------------------------------------------------------------

/// One trade of the tape.
#[derive(Clone, Copy, Debug)]
pub struct TapeRow<F> {
    pub timestamp_ms: u64,
    pub is_buy: bool,
    pub price: F,
    pub qty: F,
    pub notional_usd: F,
}

/// The row of a trade: time, price, quantity and whether a buyer took it.
pub open spec fn row_of<F>(m: Model<F>, trade: (u64, F, F, bool)) -> TapeRow<F> {
    TapeRow {
        timestamp_ms: trade.0,
        is_buy: trade.3,
        price: trade.1,
        qty: trade.2,
        notional_usd: m.times(trade.1, trade.2),
    }
}

/// The bound below which trades are left out: none where the number given is
/// not finite, and never below zero.
pub open spec fn bound_of<F>(m: Model<F>, min_notional: Option<F>) -> Option<F> {
    match min_notional {
        Some(value) if m.finite(value) => Some(m.greater(value, m.zero())),
        _ => None,
    }
}

/// Whether a trade is shown under a bound.
pub open spec fn is_shown<F>(m: Model<F>, bound: Option<F>, trade: (u64, F, F, bool)) -> bool {
    match bound {
        Some(least) => !m.less(m.times(trade.1, trade.2), least),
        None => true,
    }
}

/// The rows of the trades that are shown, the last trade first.
pub open spec fn rows_of<F>(
    m: Model<F>,
    bound: Option<F>,
    trades: Seq<(u64, F, F, bool)>,
) -> Seq<TapeRow<F>>
    decreases trades.len(),
{
    if trades.len() == 0 {
        Seq::empty()
    } else {
        let rest = rows_of(m, bound, trades.drop_last());
        if is_shown(m, bound, trades.last()) {
            seq![row_of(m, trades.last())] + rest
        } else {
            rest
        }
    }
}

/// The first rows of a list, at most `cap`.
pub open spec fn first_of<T>(list: Seq<T>, cap: int) -> Seq<T> {
    if list.len() <= cap {
        list
    } else {
        list.take(cap)
    }
}

/// The rows of the trades that are shown, the last trade first, at most
/// `row_cap`.
pub fn build_tape_rows<F: Copy, A: Arithmetic<F>>(
    a: &A,
    trades: &Vec<(u64, F, F, bool)>,
    min_notional: Option<F>,
    row_cap: usize,
) -> (rows: Vec<TapeRow<F>>)
    ensures
        rows.len() <= row_cap,
        forall|m: Model<F>| #[trigger]
            arith::describes(m, *a) ==> rows@ == first_of(
                rows_of(m, bound_of(m, min_notional), trades@),
                row_cap as int,
            ),
{
    let mut rows: Vec<TapeRow<F>> = Vec::new();
    if row_cap == 0 {
        return rows;
    }
    let bound: Option<F> = match min_notional {
        Some(value) => if arith::finite(a, value) {
            Some(arith::greater(a, value, arith::zero(a)))
        } else {
            None
        },
        None => None,
    };
    let mut i: usize = trades.len();
    proof {
        assert(trades@.take(i as int) =~= trades@);
        assert forall|m: Model<F>| #[trigger] arith::describes(m, *a) implies rows_of(
            m,
            bound_of(m, min_notional),
            trades@,
        ) == rows@ + rows_of(m, bound, trades@.take(i as int)) by {
            assert(bound == bound_of(m, min_notional));
            assert(rows@ + rows_of(m, bound, trades@) =~= rows_of(m, bound, trades@));
        }
    }
    while i > 0 && rows.len() < row_cap
        invariant
            i <= trades.len(),
            rows.len() <= row_cap,
            forall|m: Model<F>| #[trigger]
                arith::describes(m, *a) ==> bound == bound_of(m, min_notional) && rows_of(
                    m,
                    bound_of(m, min_notional),
                    trades@,
                ) == rows@ + rows_of(m, bound, trades@.take(i as int)),
        decreases i,
    {
        let trade: (u64, F, F, bool) = trades[i - 1];
        let notional: F = arith::times(a, trade.1, trade.2);
        let kept: bool = match bound {
            Some(least) => !arith::less(a, notional, least),
            None => true,
        };
        let ghost before = rows@;
        proof {
            let front = trades@.take(i as int);
            assert(front.drop_last() =~= trades@.take(i as int - 1));
            assert(front.last() == trade);
        }
        if kept {
            rows.push(
                TapeRow {
                    timestamp_ms: trade.0,
                    is_buy: trade.3,
                    price: trade.1,
                    qty: trade.2,
                    notional_usd: notional,
                },
            );
        }
        i -= 1;
        proof {
            assert forall|m: Model<F>| #[trigger] arith::describes(m, *a) implies rows_of(
                m,
                bound_of(m, min_notional),
                trades@,
            ) == rows@ + rows_of(m, bound, trades@.take(i as int)) by {
                let rest = rows_of(m, bound, trades@.take(i as int));
                if kept {
                    assert(before + (seq![row_of(m, trade)] + rest) =~= rows@ + rest);
                }
            }
        }
    }
    proof {
        assert forall|m: Model<F>| #[trigger] arith::describes(m, *a) implies rows@ == first_of(
            rows_of(m, bound_of(m, min_notional), trades@),
            row_cap as int,
        ) by {
            let all = rows_of(m, bound, trades@);
            let rest = rows_of(m, bound, trades@.take(i as int));
            assert(all == rows@ + rest);
            if i == 0 {
                assert(rest =~= Seq::empty());
            }
            assert(rows@ =~= first_of(all, row_cap as int));
        }
    }
    rows
}

/// How many of the trades are worth at least a bound.
pub open spec fn worth_at_least<F>(
    m: Model<F>,
    trades: Seq<(u64, F, F, bool)>,
    least: F,
) -> nat
    decreases trades.len(),
{
    if trades.len() == 0 {
        0
    } else {
        let rest = worth_at_least(m, trades.drop_last(), least);
        if m.less_eq(least, m.times(trades.last().1, trades.last().2)) {
            rest + 1
        } else {
            rest
        }
    }
}

/// How many of the trades are worth at least a bound; all where there is none.
pub fn count_matching<F: Copy, A: Arithmetic<F>>(
    a: &A,
    trades: &Vec<(u64, F, F, bool)>,
    min_notional: Option<F>,
) -> (n: usize)
    ensures
        n <= trades.len(),
        min_notional is None ==> n == trades.len(),
        forall|m: Model<F>| #[trigger]
            arith::describes(m, *a) ==> (min_notional matches Some(least) ==> n == worth_at_least(
                m,
                trades@,
                least,
            )),
{
    let least: F = match min_notional {
        Some(least) => least,
        None => {
            return trades.len();
        },
    };
    let mut n: usize = 0;
    let mut i: usize = 0;
    while i < trades.len()
        invariant
            n <= i <= trades.len(),
            forall|m: Model<F>| #[trigger]
                arith::describes(m, *a) ==> n == worth_at_least(
                    m,
                    trades@.take(i as int),
                    least,
                ),
        decreases trades.len() - i,
    {
        proof {
            assert(trades@.take(i as int + 1).drop_last() =~= trades@.take(i as int));
        }
        let trade: (u64, F, F, bool) = trades[i];
        if arith::less_eq(a, least, arith::times(a, trade.1, trade.2)) {
            n += 1;
        }
        i += 1;
    }
    proof {
        assert(trades@.take(trades@.len() as int) =~= trades@);
    }
    n
}

// ---------------------------------------------------------------------------
// Table
// ---------------------------------------------------------------------------

/// As many spaces.
pub open spec fn spaces(n: int) -> Seq<char> {
    Seq::new(
        if n < 0 {
            0
        } else {
            n as nat
        },
        |i: int| ' ',
    )
}

/// A text filled up with spaces behind it.
pub open spec fn filled_right(s: Seq<char>, width: int) -> Seq<char> {
    s + spaces(width - s.len())
}

/// A text filled up with spaces before it.
pub open spec fn filled_left(s: Seq<char>, width: int) -> Seq<char> {
    spaces(width - s.len()) + s
}

/// As many spaces as a text of `len` characters lacks.
fn gap(len: usize, width: usize) -> (blank: String)
    ensures
        blank@ == spaces(width - len),
{
    let mut blank: String = String::new();
    let mut at: usize = len;
    while at < width
        invariant
            len <= at,
            at <= width || at == len,
            blank@ == spaces(at - len),
        decreases width - at,
    {
        blank.push(' ');
        at += 1;
        proof {
            assert(blank@ =~= spaces(at - len));
        }
    }
    proof {
        assert(blank@ =~= spaces(width - len));
    }
    blank
}

/// A text filled up with spaces behind it.
pub fn pad_right(s: &str, width: usize) -> (padded: String)
    ensures
        padded@ == filled_right(s@, width as int),
{
    let chars: Vec<char> = chars_of(s);
    let mut padded: String = text_of(&chars);
    padded.append(&gap(chars.len(), width));
    padded
}

/// A text filled up with spaces before it.
pub fn pad_left(s: &str, width: usize) -> (padded: String)
    ensures
        padded@ == filled_left(s@, width as int),
{
    let chars: Vec<char> = chars_of(s);
    let mut padded: String = gap(chars.len(), width);
    padded.append(s);
    padded
}

/// A column of the table whose width depends on what stands in it.
#[derive(Clone, Copy, Debug)]
pub enum TapeColumn {
    Price,
    Qty,
    Notional,
}

/// What stands over a column.
pub open spec fn column_heading(column: TapeColumn) -> Seq<char> {
    match column {
        TapeColumn::Price => "Price"@,
        TapeColumn::Qty => "Qty"@,
        TapeColumn::Notional => "Notional"@,
    }
}

/// What stands over a column.
fn heading_of(column: TapeColumn) -> (heading: &'static str)
    ensures
        heading@ == column_heading(column),
{
    match column {
        TapeColumn::Price => "Price",
        TapeColumn::Qty => "Qty",
        TapeColumn::Notional => "Notional",
    }
}

/// What a row has in a column.
pub open spec fn column_text<F>(
    m: Model<F>,
    decimals: usize,
    column: TapeColumn,
    row: TapeRow<F>,
) -> Seq<char> {
    match column {
        TapeColumn::Price => (m.text)(row.price, Style::Fixed(decimals)),
        TapeColumn::Qty => (m.text)(row.qty, Style::Fixed(4)),
        TapeColumn::Notional => "$"@ + (m.text)(row.notional_usd, Style::Fixed(2)),
    }
}

/// What a row has in a column.
fn cell_of<F: Copy, A: Arithmetic<F>>(
    a: &A,
    decimals: usize,
    column: TapeColumn,
    row: &TapeRow<F>,
) -> (cell: String)
    ensures
        forall|m: Model<F>| #[trigger]
            arith::describes(m, *a) ==> cell@ == column_text(m, decimals, column, *row),
{
    match column {
        TapeColumn::Price => format_price(a, row.price, decimals),
        TapeColumn::Qty => arith::text(a, row.qty, Style::Fixed(4)),
        TapeColumn::Notional => {
            let mut cell: String = "$".to_string();
            cell.append(&arith::text(a, row.notional_usd, Style::Fixed(2)));
            cell
        },
    }
}

/// The width of a column: that of the widest text in it or over it.
pub open spec fn column_width<F>(
    m: Model<F>,
    decimals: usize,
    column: TapeColumn,
    rows: Seq<TapeRow<F>>,
) -> nat
    decreases rows.len(),
{
    if rows.len() == 0 {
        column_heading(column).len()
    } else {
        let rest = column_width(m, decimals, column, rows.drop_last());
        let own = column_text(m, decimals, column, rows.last()).len();
        if own > rest {
            own
        } else {
            rest
        }
    }
}

/// The width of a column.
pub fn width_of<F: Copy, A: Arithmetic<F>>(
    a: &A,
    decimals: usize,
    column: TapeColumn,
    rows: &Vec<TapeRow<F>>,
) -> (width: usize)
    ensures
        forall|m: Model<F>| #[trigger]
            arith::describes(m, *a) ==> width == column_width(m, decimals, column, rows@),
{
    let mut width: usize = chars_of(heading_of(column)).len();
    let mut i: usize = 0;
    while i < rows.len()
        invariant
            i <= rows.len(),
            forall|m: Model<F>| #[trigger]
                arith::describes(m, *a) ==> width == column_width(
                    m,
                    decimals,
                    column,
                    rows@.take(i as int),
                ),
        decreases rows.len() - i,
    {
        proof {
            assert(rows@.take(i as int + 1).drop_last() =~= rows@.take(i as int));
        }
        let own: usize = chars_of(&cell_of(a, decimals, column, &rows[i])).len();
        if own > width {
            width = own;
        }
        i += 1;
    }
    proof {
        assert(rows@.take(rows@.len() as int) =~= rows@);
    }
    width
}

/// A line of the table: each cell with the space behind it.
#[derive(Debug)]
pub struct TapeLine {
    pub is_buy: bool,
    pub time: String,
    pub side: String,
    pub price: String,
    pub qty: String,
    pub notional: String,
}

/// The word for the side that took a trade.
pub open spec fn taker_word(is_buy: bool) -> Seq<char> {
    if is_buy {
        "BUY"@
    } else {
        "SELL"@
    }
}

/// Whether a line shows a row of a table.
pub open spec fn is_line_of<F>(
    m: Model<F>,
    decimals: usize,
    rows: Seq<TapeRow<F>>,
    row: TapeRow<F>,
    line: TapeLine,
) -> bool {
    let cell = |column: TapeColumn|
        filled_left(
            column_text(m, decimals, column, row),
            column_width(m, decimals, column, rows) as int,
        );
    &&& line.is_buy == row.is_buy
    &&& line.time@ == filled_right(clock_text(row.timestamp_ms), TIME_WIDTH as int) + " "@
    &&& line.side@ == filled_right(taker_word(row.is_buy), SIDE_WIDTH as int) + " "@
    &&& line.price@ == cell(TapeColumn::Price) + " "@
    &&& line.qty@ == cell(TapeColumn::Qty) + " "@
    &&& line.notional@ == cell(TapeColumn::Notional)
}

/// What stands over the table.
pub open spec fn heading_line<F>(
    m: Model<F>,
    decimals: usize,
    rows: Seq<TapeRow<F>>,
) -> Seq<char> {
    let over = |column: TapeColumn|
        filled_left(
            column_heading(column),
            column_width(m, decimals, column, rows) as int,
        );
    filled_right("Time"@, TIME_WIDTH as int) + " "@ + filled_right("Side"@, SIDE_WIDTH as int)
        + " "@ + over(TapeColumn::Price) + " "@ + over(TapeColumn::Qty) + " "@ + over(
        TapeColumn::Notional,
    )
}

/// What the tape shows below its caption.
#[derive(Debug)]
pub enum TapeBody {
    NoTrades,
    NoneMatch,
    Table { heading: String, lines: Vec<TapeLine> },
}

/// What the tape shows.
#[derive(Debug)]
pub struct TapePane {
    pub caption: String,
    pub body: TapeBody,
}

/// How many rows are shown, how many trades are worth the bound, and how many
/// there are.
pub open spec fn caption_text(shown: nat, matching: nat, all: nat) -> Seq<char> {
    "Showing "@ + text::decimal(shown) + "/"@ + text::decimal(matching) + " (of "@
        + text::decimal(all) + ")"@
}

/// How many rows are shown, how many trades are worth the bound, and how many
/// there are.
fn caption_of(shown: usize, matching: usize, all: usize) -> (caption: String)
    ensures
        caption@ == caption_text(shown as nat, matching as nat, all as nat),
{
    let mut caption: String = "Showing ".to_string();
    caption.append(&decimal_text(shown as u128));
    caption.append("/");
    caption.append(&decimal_text(matching as u128));
    caption.append(" (of ");
    caption.append(&decimal_text(all as u128));
    caption.append(")");
    caption
}

/// Whether the lines show the rows, one for one.
pub open spec fn are_lines_of<F>(
    m: Model<F>,
    decimals: usize,
    rows: Seq<TapeRow<F>>,
    lines: Seq<TapeLine>,
) -> bool {
    &&& lines.len() == rows.len()
    &&& forall|i: int|
        0 <= i < lines.len() ==> is_line_of(m, decimals, rows, rows[i], #[trigger] lines[i])
}

/// The lines of a table.
fn lines_of<F: Copy, A: Arithmetic<F>>(
    a: &A,
    decimals: usize,
    rows: &Vec<TapeRow<F>>,
) -> (lines: Vec<TapeLine>)
    ensures
        lines.len() == rows.len(),
        forall|m: Model<F>| #[trigger]
            arith::describes(m, *a) ==> are_lines_of(m, decimals, rows@, lines@),
{
    let price_width: usize = width_of(a, decimals, TapeColumn::Price, rows);
    let qty_width: usize = width_of(a, decimals, TapeColumn::Qty, rows);
    let notional_width: usize = width_of(a, decimals, TapeColumn::Notional, rows);
    let mut lines: Vec<TapeLine> = Vec::new();
    let mut i: usize = 0;
    while i < rows.len()
        invariant
            i <= rows.len(),
            lines.len() == i,
            forall|m: Model<F>| #[trigger]
                arith::describes(m, *a) ==> price_width == column_width(
                    m,
                    decimals,
                    TapeColumn::Price,
                    rows@,
                ) && qty_width == column_width(m, decimals, TapeColumn::Qty, rows@)
                    && notional_width == column_width(m, decimals, TapeColumn::Notional, rows@),
            forall|m: Model<F>, k: int|
                #![trigger arith::describes(m, *a), lines@[k]]
                arith::describes(m, *a) && 0 <= k < i ==> is_line_of(
                    m,
                    decimals,
                    rows@,
                    rows@[k],
                    lines@[k],
                ),
        decreases rows.len() - i,
    {
        let row: TapeRow<F> = rows[i];
        let mut time: String = pad_right(&format_hms_millis(row.timestamp_ms), TIME_WIDTH);
        time.append(" ");
        let word: &str = if row.is_buy {
            "BUY"
        } else {
            "SELL"
        };
        let mut side: String = pad_right(word, SIDE_WIDTH);
        side.append(" ");
        let mut price: String = pad_left(
            &cell_of(a, decimals, TapeColumn::Price, &row),
            price_width,
        );
        price.append(" ");
        let mut qty: String = pad_left(&cell_of(a, decimals, TapeColumn::Qty, &row), qty_width);
        qty.append(" ");
        let notional: String = pad_left(
            &cell_of(a, decimals, TapeColumn::Notional, &row),
            notional_width,
        );
        lines.push(TapeLine { is_buy: row.is_buy, time, side, price, qty, notional });
        i += 1;
    }
    lines
}

/// What stands over the table.
fn heading_row<F: Copy, A: Arithmetic<F>>(
    a: &A,
    decimals: usize,
    rows: &Vec<TapeRow<F>>,
) -> (heading: String)
    ensures
        forall|m: Model<F>| #[trigger]
            arith::describes(m, *a) ==> heading@ == heading_line(m, decimals, rows@),
{
    let price_width: usize = width_of(a, decimals, TapeColumn::Price, rows);
    let qty_width: usize = width_of(a, decimals, TapeColumn::Qty, rows);
    let notional_width: usize = width_of(a, decimals, TapeColumn::Notional, rows);
    let mut heading: String = pad_right("Time", TIME_WIDTH);
    heading.append(" ");
    heading.append(&pad_right("Side", SIDE_WIDTH));
    heading.append(" ");
    heading.append(&pad_left("Price", price_width));
    heading.append(" ");
    heading.append(&pad_left("Qty", qty_width));
    heading.append(" ");
    heading.append(&pad_left("Notional", notional_width));
    heading
}

/// How the tape is set.
#[derive(Debug)]
pub struct TapeSettings<F> {
    pub row_cap: usize,
    pub min_notional_enabled: bool,
    pub min_notional_usd: F,
    pub min_notional_input: String,
}

/// The bound that the settings ask for.
pub open spec fn wanted_bound<F>(m: Model<F>, s: TapeSettings<F>) -> Option<F> {
    if s.min_notional_enabled {
        Some(m.greater(s.min_notional_usd, m.zero()))
    } else {
        None
    }
}

/// How many trades are worth the bound that the settings ask for.
pub open spec fn matching_count<F>(
    m: Model<F>,
    s: TapeSettings<F>,
    trades: Seq<(u64, F, F, bool)>,
) -> nat {
    match wanted_bound(m, s) {
        Some(least) => worth_at_least(m, trades, least),
        None => trades.len(),
    }
}

/// The rows that the tape shows under its settings.
pub open spec fn shown_rows<F>(
    m: Model<F>,
    s: TapeSettings<F>,
    trades: Seq<(u64, F, F, bool)>,
) -> Seq<TapeRow<F>> {
    first_of(rows_of(m, bound_of(m, wanted_bound(m, s)), trades), s.row_cap as int)
}

/// Whether the tape shows what it is to show.
pub open spec fn is_pane_of<F>(
    m: Model<F>,
    s: TapeSettings<F>,
    trades: Seq<(u64, F, F, bool)>,
    decimals: usize,
    pane: TapePane,
) -> bool {
    let rows = shown_rows(m, s, trades);
    let matching = matching_count(m, s, trades);
    &&& pane.caption@ == caption_text(rows.len(), matching, trades.len())
    &&& match pane.body {
        TapeBody::NoTrades => trades.len() == 0,
        TapeBody::NoneMatch => trades.len() > 0 && matching == 0,
        TapeBody::Table { heading, lines } => trades.len() > 0 && matching > 0 && heading@
            == heading_line(m, decimals, rows) && are_lines_of(m, decimals, rows, lines@),
    }
}

impl<F: Copy> TapeSettings<F> {
    /// 120 rows, and a bound of ten thousand that is not in force.
    pub fn new<A: Arithmetic<F>>(a: &A) -> (settings: TapeSettings<F>)
        ensures
            settings.row_cap == 120,
            !settings.min_notional_enabled,
            settings.min_notional_input@ == "10000"@,
            forall|m: Model<F>| #[trigger]
                arith::describes(m, *a) ==> settings.min_notional_usd == m.ratio(10_000, 1),
    {
        TapeSettings {
            row_cap: 120,
            min_notional_enabled: false,
            min_notional_usd: arith::ratio(a, 10_000, 1),
            min_notional_input: "10000".to_string(),
        }
    }

    /// Sets the number of rows, within its bounds.
    pub fn set_row_cap(&mut self, rows: i64)
        ensures
            final(self).row_cap == if rows < TAPE_ROW_CAP_MIN {
                TAPE_ROW_CAP_MIN as int
            } else if rows > TAPE_ROW_CAP_MAX {
                TAPE_ROW_CAP_MAX as int
            } else {
                rows as int
            },
            *final(self) == (TapeSettings { row_cap: final(self).row_cap, ..*old(self) }),
    {
        self.row_cap = if rows < 20 {
            TAPE_ROW_CAP_MIN
        } else if rows > 300 {
            TAPE_ROW_CAP_MAX
        } else {
            rows as usize
        };
    }

    /// Takes over the bound that a user has entered, never below zero, where
    /// the entry spells a finite number.
    pub fn read_min_notional<A: Arithmetic<F>>(&mut self, a: &A)
        ensures
            final(self).row_cap == old(self).row_cap,
            final(self).min_notional_enabled == old(self).min_notional_enabled,
            final(self).min_notional_input == old(self).min_notional_input,
            forall|m: Model<F>| #[trigger]
                arith::describes(m, *a) ==> final(self).min_notional_usd == match (m.parse)(
                    text::trim(old(self).min_notional_input@),
                ) {
                    Ok(value) if m.finite(value) => m.greater(value, m.zero()),
                    _ => old(self).min_notional_usd,
                },
    {
        let entered: String = text_of(&trimmed(&self.min_notional_input));
        match arith::parse(a, &entered) {
            Ok(value) => {
                if arith::finite(a, value) {
                    self.min_notional_usd = arith::greater(a, value, arith::zero(a));
                }
            },
            Err(_) => {},
        }
    }

    /// What the tape shows of the trades.
    pub fn pane<A: Arithmetic<F>>(
        &self,
        a: &A,
        trades: &Vec<(u64, F, F, bool)>,
        decimals: usize,
    ) -> (pane: TapePane)
        ensures
            forall|m: Model<F>| #[trigger]
                arith::describes(m, *a) ==> is_pane_of(m, *self, trades@, decimals, pane),
    {
        let bound: Option<F> = if self.min_notional_enabled {
            Some(arith::greater(a, self.min_notional_usd, arith::zero(a)))
        } else {
            None
        };
        let matching: usize = count_matching(a, trades, bound);
        let rows: Vec<TapeRow<F>> = build_tape_rows(a, trades, bound, self.row_cap);
        let caption: String = caption_of(rows.len(), matching, trades.len());
        let body: TapeBody = if trades.len() == 0 {
            TapeBody::NoTrades
        } else if matching == 0 {
            TapeBody::NoneMatch
        } else {
            TapeBody::Table {
                heading: heading_row(a, decimals, &rows),
                lines: lines_of(a, decimals, &rows),
            }
        };
        TapePane { caption, body }
    }
}

// ---------------------------------------------------------------------------
// Laws
// ---------------------------------------------------------------------------

/// Whether the trades come in the order of their times.
pub open spec fn in_time_order<F>(trades: Seq<(u64, F, F, bool)>) -> bool {
    forall|i: int, j: int| 0 <= i <= j < trades.len() ==> trades[i].0 <= trades[j].0
}

/// Whether a row is that of one of the trades that are shown.
pub open spec fn comes_from<F>(
    m: Model<F>,
    bound: Option<F>,
    trades: Seq<(u64, F, F, bool)>,
    row: TapeRow<F>,
) -> bool {
    exists|k: int|
        0 <= k < trades.len() && is_shown(m, bound, #[trigger] trades[k]) && row == row_of(
            m,
            trades[k],
        )
}

/// Of trades in the order of their times, the rows come newest first, and each
/// is the row of a trade that is shown.
pub proof fn law_rows_come_newest_first<F>(
    m: Model<F>,
    bound: Option<F>,
    trades: Seq<(u64, F, F, bool)>,
)
    requires
        in_time_order(trades),
    ensures
        forall|i: int|
            0 <= i < rows_of(m, bound, trades).len() ==> comes_from(
                m,
                bound,
                trades,
                #[trigger] rows_of(m, bound, trades)[i],
            ),
        forall|i: int, j: int|
            0 <= i <= j < rows_of(m, bound, trades).len() ==> (#[trigger] rows_of(
                m,
                bound,
                trades,
            )[i]).timestamp_ms >= (#[trigger] rows_of(m, bound, trades)[j]).timestamp_ms,
    decreases trades.len(),
{
    if trades.len() > 0 {
        let front = trades.drop_last();
        assert(in_time_order(front));
        law_rows_come_newest_first(m, bound, front);
        let rest = rows_of(m, bound, front);
        let rows = rows_of(m, bound, trades);
        let shift: int = if is_shown(m, bound, trades.last()) {
            1
        } else {
            0
        };
        assert forall|i: int| 0 <= i < rows.len() implies comes_from(
            m,
            bound,
            trades,
            #[trigger] rows[i],
        ) by {
            if i < shift {
                assert(trades[trades.len() - 1] == trades.last());
            } else {
                assert(rows[i] == rest[i - shift]);
                assert(comes_from(m, bound, front, rest[i - shift]));
                let k = choose|k: int|
                    0 <= k < front.len() && is_shown(m, bound, #[trigger] front[k]) && rest[i
                        - shift] == row_of(m, front[k]);
                assert(front[k] == trades[k]);
            }
        }
        assert forall|i: int, j: int| 0 <= i <= j < rows.len() implies (
        #[trigger] rows[i]).timestamp_ms >= (#[trigger] rows[j]).timestamp_ms by {
            if i >= shift {
                assert(rows[i] == rest[i - shift] && rows[j] == rest[j - shift]);
            } else {
                assert(comes_from(m, bound, trades, rows[j]));
                let k = choose|k: int|
                    0 <= k < trades.len() && is_shown(m, bound, #[trigger] trades[k]) && rows[j]
                        == row_of(m, trades[k]);
                assert(trades[k].0 <= trades[trades.len() - 1].0);
            }
        }
    }
}

/// Without a bound every trade has a row, in reverse order.
pub proof fn law_unbounded_tape_shows_all<F>(m: Model<F>, trades: Seq<(u64, F, F, bool)>)
    ensures
        rows_of(m, None, trades) == Seq::new(
            trades.len(),
            |i: int| row_of(m, trades[trades.len() - 1 - i]),
        ),
    decreases trades.len(),
{
    let whole = Seq::new(trades.len(), |i: int| row_of(m, trades[trades.len() - 1 - i]));
    if trades.len() > 0 {
        law_unbounded_tape_shows_all(m, trades.drop_last());
    }
    assert(rows_of(m, None, trades) =~= whole);
}

/// The tape shows exactly the trades that are worth at least the bound, the last
/// one first, each with what it is worth.
pub proof fn law_tape_shows_what_is_worth_it<F>(
    m: Model<F>,
    v: spec_fn(F) -> real,
    min_notional: Option<F>,
    trades: Seq<(u64, F, F, bool)>,
)
    requires
        arith::is_exact(m, v),
        min_notional matches Some(least) ==> m.finite(least),
    ensures
        ({
            let rows = rows_of(m, bound_of(m, min_notional), trades);
            let kept = trades.filter(
                |t: (u64, F, F, bool)|
                    match min_notional {
                        Some(least) => v(t.1) * v(t.2) >= v(least) && v(t.1) * v(t.2) >= 0real,
                        None => true,
                    },
            );
            &&& rows.len() == kept.len()
            &&& forall|i: int|
                0 <= i < rows.len() ==> {
                    let row = #[trigger] rows[i];
                    let trade = kept[kept.len() - 1 - i];
                    &&& row.timestamp_ms == trade.0
                    &&& row.price == trade.1
                    &&& row.qty == trade.2
                    &&& row.is_buy == trade.3
                    &&& v(row.notional_usd) == v(trade.1) * v(trade.2)
                }
        }),
    decreases trades.len(),
{
    reveal(Seq::filter);
    arith::lemma_whole_number(m, v, 0);
    if trades.len() > 0 {
        let front = trades.drop_last();
        law_tape_shows_what_is_worth_it(m, v, min_notional, front);
        let rows = rows_of(m, bound_of(m, min_notional), trades);
        let rest = rows_of(m, bound_of(m, min_notional), front);
        let keeps = |t: (u64, F, F, bool)|
            match min_notional {
                Some(least) => v(t.1) * v(t.2) >= v(least) && v(t.1) * v(t.2) >= 0real,
                None => true,
            };
        let kept = trades.filter(keeps);
        let before = front.filter(keeps);
        let last = trades.last();
        assert(keeps(last) == is_shown(m, bound_of(m, min_notional), last));
        if keeps(last) {
            assert(kept == before.push(last));
            assert forall|i: int| 0 <= i < rows.len() implies {
                let row = #[trigger] rows[i];
                let trade = kept[kept.len() - 1 - i];
                &&& row.timestamp_ms == trade.0
                &&& row.price == trade.1
                &&& row.qty == trade.2
                &&& row.is_buy == trade.3
                &&& v(row.notional_usd) == v(trade.1) * v(trade.2)
            } by {
                if i > 0 {
                    assert(rows[i] == rest[i - 1]);
                    assert(kept[kept.len() - 1 - i] == before[before.len() - 1 - (i - 1)]);
                }
            }
        }
    }
}

/// The clock shows the hours, minutes, seconds and milliseconds that make up the
/// time since midnight.
pub proof fn law_clock_tells_the_time(
    timestamp_ms: u64,
    hours: nat,
    minutes: nat,
    seconds: nat,
    millis: nat,
)
    requires
        hours < 24,
        minutes < 60,
        seconds < 60,
        millis < 1_000,
        timestamp_ms as nat % 86_400_000 == hours * 3_600_000 + minutes * 60_000 + seconds * 1_000
            + millis,
    ensures
        clock_text(timestamp_ms) == text::digits(hours, 2) + ":"@ + text::digits(minutes, 2) + ":"@
            + text::digits(seconds, 2) + "."@ + text::digits(millis, 3),
{
    let day = timestamp_ms as nat % 86_400_000;
    assert(day / 3_600_000 == hours);
    assert(day / 60_000 == hours * 60 + minutes);
    assert(day / 60_000 % 60 == minutes);
    assert(day / 1_000 == (hours * 60 + minutes) * 60 + seconds);
    assert(day / 1_000 % 60 == seconds);
    assert(day % 1_000 == millis);
}

} // verus!

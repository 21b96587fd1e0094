//! The symbol picker: a search over the symbols of an exchange, with the keys
//! and clicks that drive it.

use vstd::prelude::*;

use crate::arith;
use crate::arith::{Arithmetic, Model, Style};
use crate::tape;
use crate::text;
use crate::text::{
    chars_of, comes_before, has_part, has_subsequence, part_at, same_text, text_of, to_lower,
    to_upper, trimmed,
};

verus! {

/// The most rows that the picker shows.
pub const PICKER_MAX_ROWS: usize = 8;

/// By what the rows are ordered.
#[derive(Clone, Copy, Debug, PartialEq, Eq, Structural)]
pub enum PickerSortMode {
    Volume,
    Change,
    Alphabetical,
}

/// A symbol that can be picked.
#[derive(Debug)]
pub struct CatalogEntry {
    pub symbol: String,
    pub base_asset: String,
}

/// The latest figures of a symbol.
#[derive(Debug)]
pub struct Ticker<F> {
    pub symbol: String,
    pub last_price: F,
    pub change_pct_24h: F,
    pub quote_volume_24h: F,
}

/// A row of the picker.
#[derive(Debug)]
pub struct PickerRow<F> {
    pub symbol: String,
    pub base_asset: String,
    pub last_price: F,
    pub change_pct: F,
    pub quote_volume: F,
    pub fuzzy_score: i32,
}

/// What a symbol is.
pub struct EntryView {
    pub symbol: Seq<char>,
    pub base_asset: Seq<char>,
}

/// What the figures of a symbol are.
pub struct TickerView<F> {
    pub symbol: Seq<char>,
    pub last_price: F,
    pub change_pct_24h: F,
    pub quote_volume_24h: F,
}

/// What a row holds.
pub struct RowView<F> {
    pub symbol: Seq<char>,
    pub base_asset: Seq<char>,
    pub last_price: F,
    pub change_pct: F,
    pub quote_volume: F,
    pub fuzzy_score: i32,
}

impl View for CatalogEntry {
    type V = EntryView;

    open spec fn view(&self) -> EntryView {
        EntryView { symbol: self.symbol@, base_asset: self.base_asset@ }
    }
}

impl<F> View for Ticker<F> {
    type V = TickerView<F>;

    open spec fn view(&self) -> TickerView<F> {
        TickerView {
            symbol: self.symbol@,
            last_price: self.last_price,
            change_pct_24h: self.change_pct_24h,
            quote_volume_24h: self.quote_volume_24h,
        }
    }
}

impl<F> View for PickerRow<F> {
    type V = RowView<F>;

    open spec fn view(&self) -> RowView<F> {
        RowView {
            symbol: self.symbol@,
            base_asset: self.base_asset@,
            last_price: self.last_price,
            change_pct: self.change_pct,
            quote_volume: self.quote_volume,
            fuzzy_score: self.fuzzy_score,
        }
    }
}

/// What the symbols of a catalog are.
pub open spec fn entries(catalog: Seq<CatalogEntry>) -> Seq<EntryView> {
    Seq::new(catalog.len(), |i: int| catalog[i]@)
}

/// What the figures of a list are.
pub open spec fn tickers_view<F>(tickers: Seq<Ticker<F>>) -> Seq<TickerView<F>> {
    Seq::new(tickers.len(), |i: int| tickers[i]@)
}

/// What the rows of a list hold.
pub open spec fn rows_view<F>(rows: Seq<PickerRow<F>>) -> Seq<RowView<F>> {
    Seq::new(rows.len(), |i: int| rows[i]@)
}

// ---------------------------------------------------------------------------
// Search
// ---------------------------------------------------------------------------

/// What is searched for: the entry without the white space around it, in
/// capitals.
pub open spec fn query_of(entered: Seq<char>) -> Seq<char> {
    text::uppercase(text::trim(entered))
}

/// How well a symbol answers a query; below zero where it does not.
pub open spec fn score_of(entry: EntryView, query: Seq<char>) -> i32 {
    if query.len() == 0 {
        0
    } else if text::stands_at(entry.symbol, query, 0) {
        100
    } else if text::stands_at(entry.base_asset, query, 0) {
        90
    } else if text::holds_part(entry.symbol, query) {
        70
    } else if text::holds_part(entry.base_asset, query) {
        60
    } else if text::is_subsequence(query, entry.symbol) {
        30
    } else {
        (-1) as i32
    }
}

/// How well a symbol answers a query.
pub fn fuzzy_score(entry: &CatalogEntry, query: &Vec<char>) -> (score: i32)
    ensures
        score == score_of(entry@, query@),
{
    let symbol: Vec<char> = chars_of(&entry.symbol);
    let base: Vec<char> = chars_of(&entry.base_asset);
    if query.len() == 0 {
        0
    } else if part_at(&symbol, query, 0) {
        100
    } else if part_at(&base, query, 0) {
        90
    } else if has_part(&symbol, query) {
        70
    } else if has_part(&base, query) {
        60
    } else if has_subsequence(&symbol, query) {
        30
    } else {
        -1
    }
}

/// The figures of a symbol, if there are any.
pub open spec fn ticker_of<F>(tickers: Seq<TickerView<F>>, symbol: Seq<char>) -> Option<
    TickerView<F>,
>
    decreases tickers.len(),
{
    if tickers.len() == 0 {
        None
    } else if tickers[0].symbol == symbol {
        Some(tickers[0])
    } else {
        ticker_of(tickers.skip(1), symbol)
    }
}

/// The place of the figures of a symbol, or the length of the list.
fn find_ticker<F>(tickers: &Vec<Ticker<F>>, symbol: &str) -> (at: usize)
    ensures
        at <= tickers.len(),
        ticker_of(tickers_view(tickers@), symbol@) == if at < tickers.len() {
            Some(tickers@[at as int]@)
        } else {
            None
        },
{
    let ghost all = tickers_view(tickers@);
    let mut at: usize = 0;
    proof {
        assert(all.skip(0) =~= all);
    }
    while at < tickers.len()
        invariant
            at <= tickers.len(),
            all == tickers_view(tickers@),
            ticker_of(all, symbol@) == ticker_of(all.skip(at as int), symbol@),
        decreases tickers.len() - at,
    {
        proof {
            assert(all.skip(at as int)[0] == tickers@[at as int]@);
            assert(all.skip(at as int).skip(1) =~= all.skip(at as int + 1));
        }
        if same_text(&tickers[at].symbol, symbol) {
            return at;
        }
        at += 1;
    }
    at
}

/// The row of a symbol; figures that are not known are zero.
pub open spec fn row_of<F>(
    m: Model<F>,
    entry: EntryView,
    tickers: Seq<TickerView<F>>,
    query: Seq<char>,
) -> RowView<F> {
    let found = ticker_of(tickers, entry.symbol);
    RowView {
        symbol: entry.symbol,
        base_asset: entry.base_asset,
        last_price: match found {
            Some(ticker) => ticker.last_price,
            None => m.zero(),
        },
        change_pct: match found {
            Some(ticker) => ticker.change_pct_24h,
            None => m.zero(),
        },
        quote_volume: match found {
            Some(ticker) => ticker.quote_volume_24h,
            None => m.zero(),
        },
        fuzzy_score: score_of(entry, query),
    }
}

/// The rows of the symbols that answer a query, in the order of the catalog.
pub open spec fn answers<F>(
    m: Model<F>,
    catalog: Seq<EntryView>,
    tickers: Seq<TickerView<F>>,
    query: Seq<char>,
) -> Seq<RowView<F>>
    decreases catalog.len(),
{
    if catalog.len() == 0 {
        Seq::empty()
    } else {
        let rest = answers(m, catalog.drop_last(), tickers, query);
        if score_of(catalog.last(), query) < 0 {
            rest
        } else {
            rest.push(row_of(m, catalog.last(), tickers, query))
        }
    }
}

// ---------------------------------------------------------------------------
// Order
// ---------------------------------------------------------------------------

/// Whether a row comes strictly before another: the better score first where
/// there is a query, then by the order that is set.
pub open spec fn goes_before<F>(
    m: Model<F>,
    mode: PickerSortMode,
    scored: bool,
    a: RowView<F>,
    b: RowView<F>,
) -> bool {
    if scored && a.fuzzy_score != b.fuzzy_score {
        a.fuzzy_score > b.fuzzy_score
    } else {
        match mode {
            PickerSortMode::Volume => m.less(b.quote_volume, a.quote_volume),
            PickerSortMode::Change => m.less(b.change_pct, a.change_pct),
            PickerSortMode::Alphabetical => text::precedes(a.symbol, b.symbol),
        }
    }
}

/// Whether a row comes strictly before another.
fn precedes_row<F: Copy, A: Arithmetic<F>>(
    a: &A,
    mode: PickerSortMode,
    scored: bool,
    left: &PickerRow<F>,
    right: &PickerRow<F>,
) -> (before: bool)
    ensures
        forall|m: Model<F>| #[trigger]
            arith::describes(m, *a) ==> before == goes_before(m, mode, scored, left@, right@),
{
    if scored && left.fuzzy_score != right.fuzzy_score {
        left.fuzzy_score > right.fuzzy_score
    } else {
        match mode {
            PickerSortMode::Volume => arith::less(a, right.quote_volume, left.quote_volume),
            PickerSortMode::Change => arith::less(a, right.change_pct, left.change_pct),
            PickerSortMode::Alphabetical => comes_before(
                &chars_of(&left.symbol),
                &chars_of(&right.symbol),
            ),
        }
    }
}

/// The list with one more row, put behind the last one that it does not come
/// before.
pub open spec fn placed<F>(
    m: Model<F>,
    mode: PickerSortMode,
    scored: bool,
    sorted: Seq<RowView<F>>,
    row: RowView<F>,
) -> Seq<RowView<F>>
    decreases sorted.len(),
{
    if sorted.len() > 0 && goes_before(m, mode, scored, row, sorted.last()) {
        placed(m, mode, scored, sorted.drop_last(), row).push(sorted.last())
    } else {
        sorted.push(row)
    }
}

/// The rows in order, those that neither comes before the other as they came.
pub open spec fn arranged<F>(
    m: Model<F>,
    mode: PickerSortMode,
    scored: bool,
    rows: Seq<RowView<F>>,
) -> Seq<RowView<F>>
    decreases rows.len(),
{
    if rows.len() == 0 {
        Seq::empty()
    } else {
        placed(m, mode, scored, arranged(m, mode, scored, rows.drop_last()), rows.last())
    }
}

/// Where a row is put.
proof fn lemma_placed<F>(
    m: Model<F>,
    mode: PickerSortMode,
    scored: bool,
    sorted: Seq<RowView<F>>,
    row: RowView<F>,
    at: int,
)
    requires
        0 <= at <= sorted.len(),
        forall|k: int|
            at <= k < sorted.len() ==> goes_before(m, mode, scored, row, #[trigger] sorted[k]),
        at > 0 ==> !goes_before(m, mode, scored, row, sorted[at - 1]),
    ensures
        placed(m, mode, scored, sorted, row) == sorted.insert(at, row),
    decreases sorted.len(),
{
    if at == sorted.len() {
        assert(sorted.insert(at, row) =~= sorted.push(row));
    } else {
        let front = sorted.drop_last();
        assert forall|k: int| at <= k < front.len() implies goes_before(
            m,
            mode,
            scored,
            row,
            #[trigger] front[k],
        ) by {
            assert(front[k] == sorted[k]);
        }
        lemma_placed(m, mode, scored, front, row, at);
        assert(sorted.insert(at, row) =~= front.insert(at, row).push(sorted.last()));
    }
}

/// Puts a row into a list that is in order.
fn place<F: Copy, A: Arithmetic<F>>(
    a: &A,
    mode: PickerSortMode,
    scored: bool,
    sorted: &mut Vec<PickerRow<F>>,
    row: PickerRow<F>,
)
    ensures
        final(sorted).len() == old(sorted).len() + 1,
        forall|m: Model<F>| #[trigger]
            arith::describes(m, *a) ==> rows_view(final(sorted)@) == placed(
                m,
                mode,
                scored,
                rows_view(old(sorted)@),
                row@,
            ),
{
    let ghost before = rows_view(sorted@);
    let ghost view = row@;
    let mut at: usize = sorted.len();
    while at > 0
        invariant_except_break
            at <= sorted.len(),
            before == rows_view(sorted@),
            view == row@,
            forall|m: Model<F>, k: int|
                #![trigger arith::describes(m, *a), before[k]]
                arith::describes(m, *a) && at <= k < sorted.len() ==> goes_before(
                    m,
                    mode,
                    scored,
                    view,
                    before[k],
                ),
        ensures
            at <= sorted.len(),
            forall|m: Model<F>, k: int|
                #![trigger arith::describes(m, *a), before[k]]
                arith::describes(m, *a) && at <= k < sorted.len() ==> goes_before(
                    m,
                    mode,
                    scored,
                    view,
                    before[k],
                ),
            forall|m: Model<F>| #[trigger]
                arith::describes(m, *a) ==> at > 0 ==> !goes_before(
                    m,
                    mode,
                    scored,
                    view,
                    before[at - 1],
                ),
        decreases at,
    {
        let earlier: bool = precedes_row(a, mode, scored, &row, &sorted[at - 1]);
        proof {
            assert(before[at - 1] == sorted@[at - 1]@);
        }
        if !earlier {
            break;
        }
        at -= 1;
    }
    sorted.insert(at, row);
    proof {
        assert(rows_view(sorted@) =~= before.insert(at as int, view));
        assert forall|m: Model<F>| #[trigger] arith::describes(m, *a) implies rows_view(sorted@)
            == placed(m, mode, scored, before, view) by {
            lemma_placed(m, mode, scored, before, view, at as int);
        }
    }
}

/// The rows that the picker shows: those that answer what a user has entered,
/// in order, as far as there is room.
pub open spec fn listing<F>(
    m: Model<F>,
    catalog: Seq<EntryView>,
    tickers: Seq<TickerView<F>>,
    entered: Seq<char>,
    mode: PickerSortMode,
) -> Seq<RowView<F>> {
    let query = query_of(entered);
    tape::first_of(
        arranged(m, mode, query.len() > 0, answers(m, catalog, tickers, query)),
        PICKER_MAX_ROWS as int,
    )
}

/// The rows that the picker shows.
pub fn list_symbols<F: Copy, A: Arithmetic<F>>(
    a: &A,
    catalog: &Vec<CatalogEntry>,
    tickers: &Vec<Ticker<F>>,
    entered: &str,
    mode: PickerSortMode,
) -> (rows: Vec<PickerRow<F>>)
    ensures
        rows.len() <= PICKER_MAX_ROWS,
        forall|m: Model<F>| #[trigger]
            arith::describes(m, *a) ==> rows_view(rows@) == listing(
                m,
                entries(catalog@),
                tickers_view(tickers@),
                entered@,
                mode,
            ),
{
    let query: Vec<char> = chars_of(&to_upper(&text_of(&trimmed(entered))));
    let scored: bool = query.len() > 0;
    let ghost all = entries(catalog@);
    let ghost figures = tickers_view(tickers@);
    let mut rows: Vec<PickerRow<F>> = Vec::new();
    let mut i: usize = 0;
    proof {
        assert(rows_view(rows@) =~= Seq::empty());
        assert(all.take(0) =~= Seq::empty());
    }
    while i < catalog.len()
        invariant
            i <= catalog.len(),
            all == entries(catalog@),
            figures == tickers_view(tickers@),
            query@ == query_of(entered@),
            scored == (query@.len() > 0),
            forall|m: Model<F>| #[trigger]
                arith::describes(m, *a) ==> rows_view(rows@) == arranged(
                    m,
                    mode,
                    scored,
                    answers(m, all.take(i as int), figures, query@),
                ),
        decreases catalog.len() - i,
    {
        proof {
            assert(all.take(i as int + 1).drop_last() =~= all.take(i as int));
            assert(all.take(i as int + 1).last() == catalog@[i as int]@);
        }
        let score: i32 = fuzzy_score(&catalog[i], &query);
        if score >= 0 {
            let at: usize = find_ticker(tickers, &catalog[i].symbol);
            let zero: F = arith::zero(a);
            let known: bool = at < tickers.len();
            let row = PickerRow {
                symbol: catalog[i].symbol.clone(),
                base_asset: catalog[i].base_asset.clone(),
                last_price: if known {
                    tickers[at].last_price
                } else {
                    zero
                },
                change_pct: if known {
                    tickers[at].change_pct_24h
                } else {
                    zero
                },
                quote_volume: if known {
                    tickers[at].quote_volume_24h
                } else {
                    zero
                },
                fuzzy_score: score,
            };
            let ghost before = rows_view(rows@);
            let ghost view = row@;
            place(a, mode, scored, &mut rows, row);
            proof {
                assert forall|m: Model<F>| #[trigger] arith::describes(m, *a) implies rows_view(
                    rows@,
                ) == arranged(
                    m,
                    mode,
                    scored,
                    answers(m, all.take(i as int + 1), figures, query@),
                ) by {
                    let so_far = answers(m, all.take(i as int), figures, query@);
                    let entry = catalog@[i as int]@;
                    assert(view == row_of(m, entry, figures, query@));
                    let now = answers(m, all.take(i as int + 1), figures, query@);
                    assert(now == so_far.push(view));
                    assert(now.drop_last() =~= so_far);
                }
            }
        }
        i += 1;
    }
    let ghost whole = rows_view(rows@);
    proof {
        assert(all.take(all.len() as int) =~= all);
    }
    if rows.len() > PICKER_MAX_ROWS {
        rows.truncate(PICKER_MAX_ROWS);
    }
    proof {
        assert(rows_view(rows@) =~= tape::first_of(whole, PICKER_MAX_ROWS as int));
    }
    rows
}

// ---------------------------------------------------------------------------
// Keys and clicks
// ---------------------------------------------------------------------------

/// The picker and the field that it fills in.
#[derive(Debug)]
pub struct SymbolPicker<F> {
    pub symbol_input: String,
    pub open: bool,
    pub query: String,
    pub selected_idx: usize,
    pub sort_mode: PickerSortMode,
    pub last_epoch: u64,
    pub last_query: String,
    pub filtered: Vec<PickerRow<F>>,
}

/// What the picker holds.
pub struct PickerView<F> {
    pub symbol_input: Seq<char>,
    pub open: bool,
    pub query: Seq<char>,
    pub selected_idx: usize,
    pub sort_mode: PickerSortMode,
    pub last_epoch: u64,
    pub last_query: Seq<char>,
    pub filtered: Seq<RowView<F>>,
}

impl<F> View for SymbolPicker<F> {
    type V = PickerView<F>;

    open spec fn view(&self) -> PickerView<F> {
        PickerView {
            symbol_input: self.symbol_input@,
            open: self.open,
            query: self.query@,
            selected_idx: self.selected_idx,
            sort_mode: self.sort_mode,
            last_epoch: self.last_epoch,
            last_query: self.last_query@,
            filtered: rows_view(self.filtered@),
        }
    }
}

/// The keys that were pressed in a frame.
#[derive(Clone, Copy, Debug)]
pub struct PickerKeys {
    pub down: bool,
    pub up: bool,
    pub enter: bool,
    pub escape: bool,
}

/// The last index of a list, zero for an empty one.
pub open spec fn last_index(len: nat) -> int {
    if len == 0 {
        0
    } else {
        len - 1
    }
}

/// The lesser of two indices.
pub open spec fn least_index(i: int, j: int) -> int {
    if i < j {
        i
    } else {
        j
    }
}

/// The row that is selected after the arrow keys, within the list.
pub open spec fn moved(selected: int, len: nat, keys: PickerKeys) -> int {
    let start = least_index(selected, last_index(len));
    let down = if keys.down {
        least_index(start + 1, last_index(len))
    } else {
        start
    };
    if keys.up && down > 0 {
        down - 1
    } else {
        down
    }
}

/// The picker after a symbol has been picked.
pub open spec fn picked<F>(p: PickerView<F>, symbol: Seq<char>) -> PickerView<F> {
    PickerView {
        query: text::lowercase(symbol),
        symbol_input: text::lowercase(symbol),
        open: false,
        ..p
    }
}

/// The picker after the keys of a frame. A closed picker ignores them; an open
/// one moves its selection, closes on escape, and on enter picks what is
/// selected.
pub open spec fn after_keys<F>(p: PickerView<F>, keys: PickerKeys) -> PickerView<F> {
    if !p.open {
        p
    } else {
        let at = moved(p.selected_idx as int, p.filtered.len(), keys);
        let here = PickerView { selected_idx: at as usize, ..p };
        if keys.escape {
            PickerView { open: false, ..here }
        } else if !keys.enter {
            here
        } else if p.filtered.len() == 0 {
            PickerView { open: false, ..here }
        } else {
            picked(here, p.filtered[at].symbol)
        }
    }
}

/// Whether the keys of a frame ask for a connection.
pub open spec fn asks_to_connect<F>(p: PickerView<F>, keys: PickerKeys, has_focus: bool) -> bool {
    keys.enter && if p.open {
        !keys.escape || has_focus
    } else {
        has_focus
    }
}

impl<F: Copy> SymbolPicker<F> {
    /// A closed picker over nothing, set to bitcoin.
    pub fn new() -> (picker: SymbolPicker<F>)
        ensures
            picker@ == (PickerView::<F> {
                symbol_input: "btcusdt"@,
                open: false,
                query: Seq::empty(),
                selected_idx: 0,
                sort_mode: PickerSortMode::Volume,
                last_epoch: 0,
                last_query: Seq::empty(),
                filtered: Seq::empty(),
            }),
    {
        let picker = SymbolPicker {
            symbol_input: "btcusdt".to_string(),
            open: false,
            query: String::new(),
            selected_idx: 0,
            sort_mode: PickerSortMode::Volume,
            last_epoch: 0,
            last_query: String::new(),
            filtered: Vec::new(),
        };
        proof {
            assert(picker@.query =~= Seq::empty());
            assert(picker@.last_query =~= Seq::empty());
            assert(picker@.filtered =~= Seq::empty());
        }
        picker
    }

    /// Whether the list is out of date: the entry has changed since it was made,
    /// or the picker is open and there are newer figures.
    pub fn needs_recompute(&self, ticker_epoch: u64) -> (stale: bool)
        ensures
            stale == (self@.query != self@.last_query || (self@.open && ticker_epoch
                != self@.last_epoch)),
    {
        !same_text(&self.query, &self.last_query) || (self.open && ticker_epoch != self.last_epoch)
    }

    /// Makes the list anew. A selection beyond its end goes to its last row.
    pub fn recompute_picker_list<A: Arithmetic<F>>(
        &mut self,
        a: &A,
        catalog: &Vec<CatalogEntry>,
        tickers: &Vec<Ticker<F>>,
        ticker_epoch: u64,
    )
        ensures
            final(self)@ == (PickerView {
                last_epoch: ticker_epoch,
                last_query: old(self)@.query,
                filtered: final(self)@.filtered,
                selected_idx: least_index(
                    old(self)@.selected_idx as int,
                    last_index(final(self)@.filtered.len()),
                ) as usize,
                ..old(self)@
            }),
            forall|m: Model<F>| #[trigger]
                arith::describes(m, *a) ==> final(self)@.filtered == listing(
                    m,
                    entries(catalog@),
                    tickers_view(tickers@),
                    old(self)@.query,
                    old(self)@.sort_mode,
                ),
    {
        let rows: Vec<PickerRow<F>> = list_symbols(
            a,
            catalog,
            tickers,
            &self.query,
            self.sort_mode,
        );
        self.last_epoch = ticker_epoch;
        self.last_query = self.query.clone();
        self.filtered = rows;
        if self.selected_idx >= self.filtered.len() {
            self.selected_idx = self.filtered.len().saturating_sub(1);
        }
    }

    /// Takes note that the entry has got the focus or has changed, and tells
    /// whether the list is to be made anew.
    pub fn touch(&mut self, gained_focus: bool, changed: bool) -> (recompute: bool)
        ensures
            recompute == (gained_focus || changed),
            final(self)@ == (PickerView {
                open: old(self)@.open || gained_focus || changed,
                selected_idx: if changed {
                    0
                } else {
                    old(self)@.selected_idx
                },
                ..old(self)@
            }),
    {
        if gained_focus || changed {
            self.open = true;
        }
        if changed {
            self.selected_idx = 0;
        }
        gained_focus || changed
    }

    /// Fills in a symbol and closes the picker.
    pub fn select_symbol_for_reconnect(&mut self, symbol: &str)
        ensures
            final(self)@ == picked(old(self)@, symbol@),
    {
        self.query = to_lower(symbol);
        self.symbol_input = self.query.clone();
        self.open = false;
    }

    /// Closes the picker.
    pub fn close(&mut self)
        ensures
            final(self)@ == (PickerView { open: false, ..old(self)@ }),
    {
        self.open = false;
    }

    /// Sets the order of the rows.
    pub fn set_sort_mode(&mut self, mode: PickerSortMode)
        ensures
            final(self)@ == (PickerView { sort_mode: mode, ..old(self)@ }),
    {
        self.sort_mode = mode;
    }

    /// Selects the row under the pointer.
    pub fn hover(&mut self, idx: usize)
        ensures
            final(self)@ == (PickerView { selected_idx: idx, ..old(self)@ }),
    {
        self.selected_idx = idx;
    }

    /// Answers the keys of a frame, and tells whether they ask for a connection.
    pub fn press(&mut self, keys: PickerKeys, has_focus: bool) -> (connect: bool)
        ensures
            final(self)@ == after_keys(old(self)@, keys),
            connect == asks_to_connect(old(self)@, keys, has_focus),
    {
        let mut connect: bool = false;
        if self.open {
            let max_idx: usize = self.filtered.len().saturating_sub(1);
            let mut selected: usize = if self.selected_idx < max_idx {
                self.selected_idx
            } else {
                max_idx
            };
            if keys.down && selected < max_idx {
                selected += 1;
            }
            if keys.up && selected > 0 {
                selected -= 1;
            }
            self.selected_idx = selected;
            if keys.escape {
                self.open = false;
            } else if keys.enter {
                if self.filtered.len() == 0 {
                    self.open = false;
                } else {
                    let symbol: String = self.filtered[selected].symbol.clone();
                    self.select_symbol_for_reconnect(&symbol);
                }
                connect = true;
            }
        }
        if !self.open && has_focus && keys.enter {
            connect = true;
        }
        connect
    }
}

// ---------------------------------------------------------------------------
// Rows as text
// ---------------------------------------------------------------------------

/// Whether a number is above, below or at zero.
#[derive(Clone, Copy, Debug, PartialEq, Eq, Structural)]
pub enum Tone {
    Up,
    Down,
    Even,
}

/// Whether a number is above, below or at zero.
pub open spec fn tone_of<F>(m: Model<F>, value: F) -> Tone {
    if m.less(m.zero(), value) {
        Tone::Up
    } else if m.less(value, m.zero()) {
        Tone::Down
    } else {
        Tone::Even
    }
}

/// Whether a number is above, below or at zero.
pub fn tone<F: Copy, A: Arithmetic<F>>(a: &A, value: F) -> (tone: Tone)
    ensures
        forall|m: Model<F>| #[trigger] arith::describes(m, *a) ==> tone == tone_of(m, value),
{
    let zero: F = arith::zero(a);
    if arith::less(a, zero, value) {
        Tone::Up
    } else if arith::less(a, value, zero) {
        Tone::Down
    } else {
        Tone::Even
    }
}

/// The price of a row: two decimals from a thousand on, else four; a dash where
/// there is none.
pub open spec fn price_text<F>(m: Model<F>, price: F) -> Seq<char> {
    if m.less(m.zero(), price) {
        if m.less_eq(m.ratio(1_000, 1), price) {
            (m.text)(price, Style::Fixed(2))
        } else {
            (m.text)(price, Style::Fixed(4))
        }
    } else {
        "—"@
    }
}

/// The change of a row in percent, with a plus where the price has risen.
pub open spec fn change_text<F>(m: Model<F>, change: F) -> Seq<char> {
    let sign = if m.less(m.zero(), change) {
        "+"@
    } else {
        ""@
    };
    sign + (m.text)(change, Style::Fixed(2)) + "%"@
}

/// A row of the picker as text.
#[derive(Debug)]
pub struct PickerLine {
    pub symbol: String,
    pub price: String,
    pub change: String,
    pub change_tone: Tone,
    pub volume: String,
}

/// Whether a line shows a row.
pub open spec fn is_line_of<F>(m: Model<F>, row: RowView<F>, line: PickerLine) -> bool {
    &&& line.symbol@ == row.symbol + " ("@ + row.base_asset + ")"@
    &&& line.price@ == price_text(m, row.last_price)
    &&& line.change@ == change_text(m, row.change_pct)
    &&& line.change_tone == tone_of(m, row.change_pct)
    &&& line.volume@ == tape::volume_text(m, row.quote_volume)
}

/// A row of the picker as text.
pub fn picker_line<F: Copy, A: Arithmetic<F>>(a: &A, row: &PickerRow<F>) -> (line: PickerLine)
    ensures
        forall|m: Model<F>| #[trigger] arith::describes(m, *a) ==> is_line_of(m, row@, line),
{
    let zero: F = arith::zero(a);
    let mut symbol: String = row.symbol.clone();
    symbol.append(" (");
    symbol.append(&row.base_asset);
    symbol.append(")");
    let price: String = if arith::less(a, zero, row.last_price) {
        if arith::less_eq(a, arith::ratio(a, 1_000, 1), row.last_price) {
            arith::text(a, row.last_price, Style::Fixed(2))
        } else {
            arith::text(a, row.last_price, Style::Fixed(4))
        }
    } else {
        "—".to_string()
    };
    let mut change: String = if arith::less(a, zero, row.change_pct) {
        "+".to_string()
    } else {
        "".to_string()
    };
    change.append(&arith::text(a, row.change_pct, Style::Fixed(2)));
    change.append("%");
    PickerLine {
        symbol,
        price,
        change,
        change_tone: tone(a, row.change_pct),
        volume: tape::format_volume(a, row.quote_volume),
    }
}

// ---------------------------------------------------------------------------
// Laws
// ---------------------------------------------------------------------------

/// Whether the order ranks the rows: of two never each comes before the other,
/// and a row that another does not come before ranks with it before whatever
/// that other ranks before.
pub open spec fn ranks<F>(
    m: Model<F>,
    mode: PickerSortMode,
    scored: bool,
    rows: Seq<RowView<F>>,
) -> bool {
    &&& forall|i: int, j: int|
        0 <= i < rows.len() && 0 <= j < rows.len() && #[trigger] goes_before(
            m,
            mode,
            scored,
            rows[i],
            rows[j],
        ) ==> !goes_before(m, mode, scored, rows[j], rows[i])
    &&& forall|i: int, j: int, k: int|
        #![trigger goes_before(m, mode, scored, rows[i], rows[j]), goes_before(m, mode, scored, rows[j], rows[k])]
        0 <= i < rows.len() && 0 <= j < rows.len() && 0 <= k < rows.len() && !goes_before(
            m,
            mode,
            scored,
            rows[i],
            rows[j],
        ) && !goes_before(m, mode, scored, rows[j], rows[k]) ==> !goes_before(
            m,
            mode,
            scored,
            rows[i],
            rows[k],
        )
}

/// Whether no row of a list comes before one that stands ahead of it.
pub open spec fn is_in_order<F>(
    m: Model<F>,
    mode: PickerSortMode,
    scored: bool,
    rows: Seq<RowView<F>>,
) -> bool {
    forall|i: int, j: int|
        0 <= i < j < rows.len() ==> !goes_before(
            m,
            mode,
            scored,
            #[trigger] rows[j],
            #[trigger] rows[i],
        )
}

/// Whether every row of a list is one of another.
pub open spec fn are_among<F>(rows: Seq<RowView<F>>, all: Seq<RowView<F>>) -> bool {
    forall|i: int| 0 <= i < rows.len() ==> all.contains(#[trigger] rows[i])
}

proof fn lemma_placed_in_order<F>(
    m: Model<F>,
    mode: PickerSortMode,
    scored: bool,
    sorted: Seq<RowView<F>>,
    row: RowView<F>,
    all: Seq<RowView<F>>,
)
    requires
        ranks(m, mode, scored, all),
        is_in_order(m, mode, scored, sorted),
        are_among(sorted, all),
        all.contains(row),
    ensures
        is_in_order(m, mode, scored, placed(m, mode, scored, sorted, row)),
        are_among(placed(m, mode, scored, sorted, row), all),
        placed(m, mode, scored, sorted, row).len() == sorted.len() + 1,
        placed(m, mode, scored, sorted, row).to_multiset() =~= sorted.to_multiset().insert(row),
    decreases sorted.len(),
{
    let after = placed(m, mode, scored, sorted, row);
    broadcast use vstd::seq_lib::group_to_multiset_ensures;

    if sorted.len() > 0 && goes_before(m, mode, scored, row, sorted.last()) {
        let front = sorted.drop_last();
        assert forall|i: int| 0 <= i < front.len() implies all.contains(#[trigger] front[i]) by {
            assert(front[i] == sorted[i]);
        }
        assert(is_in_order(m, mode, scored, front)) by {
            assert forall|i: int, j: int| 0 <= i < j < front.len() implies !goes_before(
                m,
                mode,
                scored,
                #[trigger] front[j],
                #[trigger] front[i],
            ) by {
                assert(front[i] == sorted[i] && front[j] == sorted[j]);
            }
        }
        lemma_placed_in_order(m, mode, scored, front, row, all);
        let head = placed(m, mode, scored, front, row);
        let last = sorted.last();
        lemma_placed_members(m, mode, scored, front, row);
        assert(sorted =~= front.push(last));
        assert(all.contains(sorted[sorted.len() - 1]));
        assert forall|i: int, j: int| 0 <= i < j < after.len() implies !goes_before(
            m,
            mode,
            scored,
            #[trigger] after[j],
            #[trigger] after[i],
        ) by {
            if j < head.len() {
                assert(after[i] == head[i] && after[j] == head[j]);
            } else {
                assert(after[j] == last && after[i] == head[i]);
                let x = choose|x: int| 0 <= x < all.len() && all[x] == last;
                let y = choose|y: int| 0 <= y < all.len() && all[y] == row;
                if head[i] == row {
                    assert(goes_before(m, mode, scored, all[y], all[x]));
                } else {
                    let k = choose|k: int| 0 <= k < front.len() && front[k] == head[i];
                    assert(front[k] == sorted[k]);
                    assert(!goes_before(m, mode, scored, sorted[sorted.len() - 1], sorted[k]));
                }
            }
        }
        assert forall|i: int| 0 <= i < after.len() implies all.contains(#[trigger] after[i]) by {
            if i < head.len() {
                assert(after[i] == head[i]);
            }
        }
    } else {
        assert forall|i: int, j: int| 0 <= i < j < after.len() implies !goes_before(
            m,
            mode,
            scored,
            #[trigger] after[j],
            #[trigger] after[i],
        ) by {
            if j < sorted.len() {
                assert(after[i] == sorted[i] && after[j] == sorted[j]);
            } else if i < sorted.len() - 1 {
                assert(after[j] == row && after[i] == sorted[i]);
                let last = sorted[sorted.len() - 1];
                assert(!goes_before(m, mode, scored, row, last));
                assert(!goes_before(m, mode, scored, last, sorted[i]));
                assert(all.contains(last) && all.contains(sorted[i]));
                let x = choose|x: int| 0 <= x < all.len() && all[x] == row;
                let y = choose|y: int| 0 <= y < all.len() && all[y] == last;
                let z = choose|z: int| 0 <= z < all.len() && all[z] == sorted[i];
                assert(!goes_before(m, mode, scored, all[x], all[y]));
                assert(!goes_before(m, mode, scored, all[y], all[z]));
                assert(!goes_before(m, mode, scored, all[x], all[z]));
            } else {
                assert(after[j] == row && after[i] == sorted.last());
            }
        }
        assert forall|i: int| 0 <= i < after.len() implies all.contains(#[trigger] after[i]) by {
            if i < sorted.len() {
                assert(after[i] == sorted[i]);
            }
        }
    }
}

proof fn lemma_placed_members<F>(
    m: Model<F>,
    mode: PickerSortMode,
    scored: bool,
    sorted: Seq<RowView<F>>,
    row: RowView<F>,
)
    ensures
        forall|i: int|
            0 <= i < placed(m, mode, scored, sorted, row).len() ==> ({
                let r = #[trigger] placed(m, mode, scored, sorted, row)[i];
                r == row || exists|k: int| 0 <= k < sorted.len() && sorted[k] == r
            }),
    decreases sorted.len(),
{
    let after = placed(m, mode, scored, sorted, row);
    if sorted.len() > 0 && goes_before(m, mode, scored, row, sorted.last()) {
        let front = sorted.drop_last();
        lemma_placed_members(m, mode, scored, front, row);
        let head = placed(m, mode, scored, front, row);
        assert forall|i: int| 0 <= i < after.len() implies ({
            let r = #[trigger] after[i];
            r == row || exists|k: int| 0 <= k < sorted.len() && sorted[k] == r
        }) by {
            if i < head.len() {
                assert(after[i] == head[i]);
                if head[i] != row {
                    let k = choose|k: int| 0 <= k < front.len() && front[k] == head[i];
                    assert(sorted[k] == front[k]);
                }
            } else {
                assert(sorted[sorted.len() - 1] == after[i]);
            }
        }
    } else {
        assert forall|i: int| 0 <= i < after.len() implies ({
            let r = #[trigger] after[i];
            r == row || exists|k: int| 0 <= k < sorted.len() && sorted[k] == r
        }) by {
            if i < sorted.len() {
                assert(sorted[i] == after[i]);
            }
        }
    }
}

/// Where the order ranks the rows, arranging them brings them in order and loses
/// or adds none.
pub proof fn law_rows_are_in_order<F>(
    m: Model<F>,
    mode: PickerSortMode,
    scored: bool,
    rows: Seq<RowView<F>>,
)
    requires
        ranks(m, mode, scored, rows),
    ensures
        is_in_order(m, mode, scored, arranged(m, mode, scored, rows)),
        arranged(m, mode, scored, rows).len() == rows.len(),
        arranged(m, mode, scored, rows).to_multiset() =~= rows.to_multiset(),
{
    lemma_arranged(m, mode, scored, rows, rows.len() as int);
    assert(rows.take(rows.len() as int) =~= rows);
}

proof fn lemma_arranged<F>(
    m: Model<F>,
    mode: PickerSortMode,
    scored: bool,
    rows: Seq<RowView<F>>,
    n: int,
)
    requires
        ranks(m, mode, scored, rows),
        0 <= n <= rows.len(),
    ensures
        is_in_order(m, mode, scored, arranged(m, mode, scored, rows.take(n))),
        are_among(arranged(m, mode, scored, rows.take(n)), rows),
        arranged(m, mode, scored, rows.take(n)).len() == n,
        arranged(m, mode, scored, rows.take(n)).to_multiset() =~= rows.take(n).to_multiset(),
    decreases n,
{
    broadcast use vstd::seq_lib::group_to_multiset_ensures;

    let part = rows.take(n);
    if n > 0 {
        lemma_arranged(m, mode, scored, rows, n - 1);
        assert(part.drop_last() =~= rows.take(n - 1));
        assert(part =~= rows.take(n - 1).push(rows[n - 1]));
        assert(rows.contains(rows[n - 1]));
        lemma_placed_in_order(
            m,
            mode,
            scored,
            arranged(m, mode, scored, rows.take(n - 1)),
            rows[n - 1],
            rows,
        );
    } else {
        assert(part =~= Seq::empty());
        assert(arranged(m, mode, scored, part) =~= Seq::empty());
    }
}

/// Whether what the rows are ordered by are numbers: each equals itself.
pub open spec fn orders_by_numbers<F>(
    m: Model<F>,
    mode: PickerSortMode,
    rows: Seq<RowView<F>>,
) -> bool {
    forall|i: int|
        0 <= i < rows.len() ==> {
            let row = #[trigger] rows[i];
            match mode {
                PickerSortMode::Volume => m.equal(row.quote_volume, row.quote_volume),
                PickerSortMode::Change => m.equal(row.change_pct, row.change_pct),
                PickerSortMode::Alphabetical => true,
            }
        }
}

/// The alphabetical order ranks all rows, and the orders by volume and change do
/// where volumes and changes are numbers and numbers are ordered as numbers are.
pub proof fn law_orders_rank_rows<F>(
    m: Model<F>,
    mode: PickerSortMode,
    scored: bool,
    rows: Seq<RowView<F>>,
)
    requires
        mode == PickerSortMode::Alphabetical || arith::orders_numbers(m),
        orders_by_numbers(m, mode, rows),
    ensures
        ranks(m, mode, scored, rows),
{
    assert forall|i: int, j: int|
        0 <= i < rows.len() && 0 <= j < rows.len() && #[trigger] goes_before(
            m,
            mode,
            scored,
            rows[i],
            rows[j],
        ) implies !goes_before(m, mode, scored, rows[j], rows[i]) by {
        if mode == PickerSortMode::Alphabetical {
            if text::precedes(rows[i].symbol, rows[j].symbol) && text::precedes(
                rows[j].symbol,
                rows[i].symbol,
            ) {
                text::lemma_precedes_transitive(rows[i].symbol, rows[j].symbol, rows[i].symbol);
                text::lemma_precedes_irreflexive(rows[i].symbol);
            }
        }
    }
    assert forall|i: int, j: int, k: int|
        #![trigger goes_before(m, mode, scored, rows[i], rows[j]), goes_before(m, mode, scored, rows[j], rows[k])]
        0 <= i < rows.len() && 0 <= j < rows.len() && 0 <= k < rows.len() && !goes_before(
            m,
            mode,
            scored,
            rows[i],
            rows[j],
        ) && !goes_before(m, mode, scored, rows[j], rows[k]) implies !goes_before(
        m,
        mode,
        scored,
        rows[i],
        rows[k],
    ) by {
        if mode == PickerSortMode::Alphabetical {
            let (a, b, c) = (rows[i].symbol, rows[j].symbol, rows[k].symbol);
            if text::precedes(a, c) {
                text::lemma_precedes_total(a, b);
                text::lemma_precedes_total(b, c);
                if text::precedes(b, a) {
                    text::lemma_precedes_transitive(b, a, c);
                }
            }
        } else {
            assert(mode == PickerSortMode::Volume || mode == PickerSortMode::Change);
        }
    }
}

/// Every row answers the query; where nothing is asked every symbol has a row.
pub proof fn law_answers_answer<F>(
    m: Model<F>,
    catalog: Seq<EntryView>,
    tickers: Seq<TickerView<F>>,
    query: Seq<char>,
)
    ensures
        forall|i: int|
            0 <= i < answers(m, catalog, tickers, query).len() ==> (#[trigger] answers(
                m,
                catalog,
                tickers,
                query,
            )[i]).fuzzy_score >= 0,
        query.len() == 0 ==> answers(m, catalog, tickers, query).len() == catalog.len(),
    decreases catalog.len(),
{
    if catalog.len() > 0 {
        law_answers_answer(m, catalog.drop_last(), tickers, query);
        let rest = answers(m, catalog.drop_last(), tickers, query);
        let all = answers(m, catalog, tickers, query);
        assert forall|i: int| 0 <= i < all.len() implies (#[trigger] all[i]).fuzzy_score >= 0 by {
            if i < rest.len() {
                assert(all[i] == rest[i]);
            }
        }
    }
}

/// The selection of an open picker stays within its list.
pub proof fn law_selection_stays_within<F>(p: PickerView<F>, keys: PickerKeys)
    requires
        p.open,
        p.filtered.len() <= PICKER_MAX_ROWS,
    ensures
        after_keys(p, keys).selected_idx <= last_index(p.filtered.len()),
        after_keys(p, keys).filtered == p.filtered,
{
}

/// Whether a text begins with another.
pub open spec fn begins_with(whole: Seq<char>, part: Seq<char>) -> bool {
    part.len() <= whole.len() && whole.take(part.len() as int) == part
}

/// Whether a text holds another anywhere.
pub open spec fn contains_text(whole: Seq<char>, part: Seq<char>) -> bool {
    exists|i: int|
        0 <= i && i + part.len() <= whole.len() && #[trigger] whole.subrange(i, i + part.len())
            == part
}

/// A symbol that begins with what is asked for answers better than one of which
/// only the base asset does, that better than one that holds it further on, and
/// each better than one that does not hold it at all.
pub proof fn law_closer_answers_score_higher(entry: EntryView, other: EntryView, query: Seq<char>)
    requires
        query.len() > 0,
    ensures
        begins_with(entry.symbol, query) && !begins_with(other.symbol, query) ==> score_of(
            entry,
            query,
        ) > score_of(other, query),
        begins_with(entry.base_asset, query) && !begins_with(other.symbol, query) && !begins_with(
            other.base_asset,
            query,
        ) ==> score_of(entry, query) > score_of(other, query),
        contains_text(entry.symbol, query) && !contains_text(other.symbol, query) && !begins_with(
            other.base_asset,
            query,
        ) ==> score_of(entry, query) > score_of(other, query),
        contains_text(entry.symbol, query) || contains_text(entry.base_asset, query) ==> score_of(
            entry,
            query,
        ) > 0,
        score_of(entry, query) >= 0 ==> contains_text(entry.base_asset, query)
            || text::is_subsequence(query, entry.symbol) || contains_text(entry.symbol, query),
{
    lemma_text_tests(entry.symbol, query);
    lemma_text_tests(entry.base_asset, query);
    lemma_text_tests(other.symbol, query);
    lemma_text_tests(other.base_asset, query);
}

proof fn lemma_text_tests(whole: Seq<char>, part: Seq<char>)
    ensures
        text::stands_at(whole, part, 0) == begins_with(whole, part),
        text::holds_part(whole, part) == contains_text(whole, part),
        begins_with(whole, part) ==> contains_text(whole, part),
{
    if begins_with(whole, part) {
        assert(whole.subrange(0, part.len() as int) =~= whole.take(part.len() as int));
    }
    if text::stands_at(whole, part, 0) {
        assert(whole.take(part.len() as int) =~= part);
    }
    if text::holds_part(whole, part) {
        let i = choose|i: int| #[trigger] text::stands_at(whole, part, i);
        assert(whole.subrange(i, i + part.len()) =~= part);
    }
    if contains_text(whole, part) {
        let i = choose|i: int|
            0 <= i && i + part.len() <= whole.len() && #[trigger] whole.subrange(
                i,
                i + part.len(),
            ) == part;
        assert(text::stands_at(whole, part, i));
    }
}

/// A row shows the figures of the first ticker of its symbol.
pub proof fn law_row_shows_its_ticker<F>(
    m: Model<F>,
    entry: EntryView,
    tickers: Seq<TickerView<F>>,
    query: Seq<char>,
    at: int,
)
    requires
        0 <= at < tickers.len(),
        tickers[at].symbol == entry.symbol,
        forall|i: int| 0 <= i < at ==> (#[trigger] tickers[i]).symbol != entry.symbol,
    ensures
        ({
            let row = row_of(m, entry, tickers, query);
            &&& row.symbol == entry.symbol
            &&& row.base_asset == entry.base_asset
            &&& row.last_price == tickers[at].last_price
            &&& row.change_pct == tickers[at].change_pct_24h
            &&& row.quote_volume == tickers[at].quote_volume_24h
        }),
{
    lemma_first_ticker(tickers, entry.symbol, at);
}

proof fn lemma_first_ticker<F>(tickers: Seq<TickerView<F>>, symbol: Seq<char>, at: int)
    requires
        0 <= at < tickers.len(),
        tickers[at].symbol == symbol,
        forall|i: int| 0 <= i < at ==> (#[trigger] tickers[i]).symbol != symbol,
    ensures
        ticker_of(tickers, symbol) == Some(tickers[at]),
    decreases tickers.len(),
{
    if at > 0 {
        let rest = tickers.skip(1);
        assert(tickers[0].symbol != symbol);
        assert forall|i: int| 0 <= i < at - 1 implies (#[trigger] rest[i]).symbol != symbol by {
            assert(rest[i] == tickers[i + 1]);
        }
        lemma_first_ticker(rest, symbol, at - 1);
    }
}

} // verus!

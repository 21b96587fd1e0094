//! The connection of a session: what to connect to, and when to connect again.

use vstd::prelude::*;

use crate::arith;
use crate::arith::{Arithmetic, Model};
use crate::text;
use crate::text::{chars_of, has_part, part_at, text_of, to_lower, to_upper, trimmed};

verus! {

/// The milliseconds for which a book may be out of step before the session
/// connects again.
pub const RECONNECT_AFTER_MS: u64 = 1_000;

// ---------------------------------------------------------------------------
// Out of step
// ---------------------------------------------------------------------------

/// Whether a session is cut off because its book is out of step.
pub open spec fn is_desynced(connected: bool, status: Seq<char>) -> bool {
    !connected && text::holds_part(status, "Desynced"@)
}

/// The time at which a session connects again, if it is to.
#[derive(Clone, Copy, Debug)]
pub struct DesyncWatch {
    pub deadline_ms: Option<u64>,
}

/// The watch after the state of the connection has been looked at.
pub open spec fn watched(watch: DesyncWatch, desynced: bool, now_ms: u64) -> DesyncWatch {
    DesyncWatch {
        deadline_ms: if !desynced {
            None
        } else {
            match watch.deadline_ms {
                None => Some((now_ms + RECONNECT_AFTER_MS) as u64),
                Some(deadline) => if now_ms >= deadline {
                    None
                } else {
                    Some(deadline)
                },
            }
        },
    }
}

/// Whether it is time to connect again.
pub open spec fn is_time(watch: DesyncWatch, desynced: bool, now_ms: u64) -> bool {
    desynced && (watch.deadline_ms matches Some(deadline) && now_ms >= deadline)
}

impl DesyncWatch {
    /// A watch with nothing to wait for.
    pub fn new() -> (watch: DesyncWatch)
        ensures
            watch.deadline_ms is None,
    {
        DesyncWatch { deadline_ms: None }
    }

    /// Looks at the state of the connection, and tells whether it is time to
    /// connect again.
    pub fn observe(&mut self, connected: bool, status: &str, now_ms: u64) -> (reconnect: bool)
        requires
            now_ms + RECONNECT_AFTER_MS <= u64::MAX,
        ensures
            *final(self) == watched(*old(self), is_desynced(connected, status@), now_ms),
            reconnect == is_time(*old(self), is_desynced(connected, status@), now_ms),
    {
        let desynced: bool = !connected && has_part(&chars_of(status), &chars_of("Desynced"));
        if !desynced {
            self.deadline_ms = None;
            return false;
        }
        match self.deadline_ms {
            Some(deadline) => if now_ms >= deadline {
                self.deadline_ms = None;
                true
            } else {
                false
            },
            None => {
                self.deadline_ms = Some(now_ms + RECONNECT_AFTER_MS);
                false
            },
        }
    }
}

/// A session that falls out of step connects again a second later, not before,
/// and not at all where it comes back into step in between.
pub proof fn law_session_waits_a_second(now_ms: u64, later_ms: u64, desynced_later: bool)
    requires
        now_ms + RECONNECT_AFTER_MS <= u64::MAX,
    ensures
        ({
            let idle = DesyncWatch { deadline_ms: None };
            let waiting = watched(idle, true, now_ms);
            &&& !is_time(idle, true, now_ms)
            &&& is_time(waiting, desynced_later, later_ms) <==> desynced_later && later_ms
                >= now_ms + RECONNECT_AFTER_MS
            &&& !desynced_later ==> watched(waiting, desynced_later, later_ms) == idle
        }),
{
}

// ---------------------------------------------------------------------------
// What to connect to
// ---------------------------------------------------------------------------

/// What a session connects to.
#[derive(Debug)]
pub struct ConnectRequest<F> {
    /// What stands in the entry of the symbol from then on.
    pub symbol_input: String,
    /// The symbol of the strategy pipeline, empty where none was entered.
    pub entered_symbol: String,
    /// The symbol that is connected to.
    pub symbol: String,
    pub bin_width: F,
}

/// What stands in the entry of the symbol: the query of the picker where there
/// is one.
pub open spec fn wanted_input(query: Seq<char>, symbol_input: Seq<char>) -> Seq<char> {
    if text::trim(query).len() > 0 {
        text::lowercase(text::trim(query))
    } else {
        symbol_input
    }
}

/// The symbol that was entered.
pub open spec fn wanted_symbol(query: Seq<char>, symbol_input: Seq<char>) -> Seq<char> {
    text::lowercase(text::trim(wanted_input(query, symbol_input)))
}

/// The bin width that was entered; one where it is no number or not above zero.
pub open spec fn wanted_width<F>(m: Model<F>, entered: Seq<char>) -> F {
    match (m.parse)(text::trim(entered)) {
        Ok(value) if !m.less_eq(value, m.zero()) => value,
        _ => m.ratio(1, 1),
    }
}

/// What a session connects to by what a user has entered.
pub fn connect_request<F: Copy, A: Arithmetic<F>>(
    a: &A,
    query: &str,
    symbol_input: &str,
    bin_width_input: &str,
) -> (request: ConnectRequest<F>)
    ensures
        request.symbol_input@ == wanted_input(query@, symbol_input@),
        request.entered_symbol@ == wanted_symbol(query@, symbol_input@),
        request.symbol@ == if wanted_symbol(query@, symbol_input@).len() == 0 {
            "btcusdt"@
        } else {
            wanted_symbol(query@, symbol_input@)
        },
        forall|m: Model<F>| #[trigger]
            arith::describes(m, *a) ==> request.bin_width == wanted_width(m, bin_width_input@),
{
    let searched: Vec<char> = trimmed(query);
    let input: String = if searched.len() > 0 {
        to_lower(&text_of(&searched))
    } else {
        symbol_input.to_string()
    };
    let entered: String = to_lower(&text_of(&trimmed(&input)));
    let symbol: String = if chars_of(&entered).len() == 0 {
        "btcusdt".to_string()
    } else {
        entered.clone()
    };
    let one: F = arith::ratio(a, 1, 1);
    let bin_width: F = match arith::parse(a, &text_of(&trimmed(bin_width_input))) {
        Ok(value) => if arith::less_eq(a, value, arith::zero(a)) {
            one
        } else {
            value
        },
        Err(_) => one,
    };
    ConnectRequest { symbol_input: input, entered_symbol: entered, symbol, bin_width }
}

// ---------------------------------------------------------------------------
// Entries
// ---------------------------------------------------------------------------

/// The number that a user has entered, never below zero; the one there is where
/// the entry is no number.
pub fn read_amount<F: Copy, A: Arithmetic<F>>(a: &A, entered: &str, current: F) -> (amount: F)
    ensures
        forall|m: Model<F>| #[trigger]
            arith::describes(m, *a) ==> amount == match (m.parse)(text::trim(entered@)) {
                Ok(value) => m.greater(value, m.zero()),
                Err(_) => current,
            },
{
    match arith::parse(a, &text_of(&trimmed(entered))) {
        Ok(value) => arith::greater(a, value, arith::zero(a)),
        Err(_) => current,
    }
}

/// Whether a text ends in another.
pub open spec fn ends_in(s: Seq<char>, end: Seq<char>) -> bool {
    text::stands_at(s, end, s.len() - end.len())
}

/// The text without its last characters.
pub open spec fn without_last(s: Seq<char>, n: int) -> Seq<char> {
    s.take(s.len() - n)
}

/// The asset that a symbol trades, in capitals.
pub open spec fn base_asset_of(symbol: Seq<char>) -> Seq<char> {
    let upper = text::uppercase(symbol);
    if ends_in(upper, "USDT"@) {
        without_last(upper, "USDT"@.len() as int)
    } else if ends_in(upper, "USD"@) {
        without_last(upper, "USD"@.len() as int)
    } else if upper.len() == 0 {
        "BASE"@
    } else {
        upper
    }
}

/// The text before an end, if it has that end.
fn before_end(s: &Vec<char>, end: &str) -> (rest: Option<String>)
    ensures
        rest is Some <==> ends_in(s@, end@),
        rest matches Some(front) ==> front@ == without_last(s@, end@.len() as int),
{
    let tail: Vec<char> = chars_of(end);
    if s.len() < tail.len() {
        return None;
    }
    let at: usize = s.len() - tail.len();
    if !part_at(s, &tail, at) {
        return None;
    }
    let mut front: String = String::new();
    let mut i: usize = 0;
    proof {
        assert(front@ =~= s@.take(0));
    }
    while i < at
        invariant
            i <= at <= s.len(),
            front@ == s@.take(i as int),
        decreases at - i,
    {
        front.push(s[i]);
        proof {
            assert(s@.take(i as int).push(s@[i as int]) =~= s@.take(i as int + 1));
        }
        i += 1;
    }
    Some(front)
}

/// The asset that a symbol trades, in capitals.
pub fn base_asset_symbol(symbol: &str) -> (asset: String)
    ensures
        asset@ == base_asset_of(symbol@),
{
    let upper: String = to_upper(symbol);
    let chars: Vec<char> = chars_of(&upper);
    if let Some(asset) = before_end(&chars, "USDT") {
        asset
    } else if let Some(asset) = before_end(&chars, "USD") {
        asset
    } else if chars.len() == 0 {
        "BASE".to_string()
    } else {
        upper
    }
}

/// The asset of a symbol is what stands before the dollar in which it is quoted;
/// a symbol quoted in anything else is an asset of its own.
pub proof fn law_asset_stands_before_its_quote(symbol: Seq<char>, asset: Seq<char>)
    ensures
        text::uppercase(symbol) == asset + seq!['U', 'S', 'D', 'T'] ==> base_asset_of(symbol)
            == asset,
        text::uppercase(symbol) == asset + seq!['U', 'S', 'D'] ==> base_asset_of(symbol) == asset,
        text::uppercase(symbol).len() > 0 ==> {
            let base = base_asset_of(symbol);
            ||| base == text::uppercase(symbol)
            ||| text::uppercase(symbol) == base + seq!['U', 'S', 'D', 'T']
            ||| text::uppercase(symbol) == base + seq!['U', 'S', 'D']
        },
        text::uppercase(symbol).len() == 0 ==> base_asset_of(symbol) == seq!['B', 'A', 'S', 'E'],
{
    reveal_strlit("USDT");
    reveal_strlit("USD");
    reveal_strlit("BASE");
    let upper = text::uppercase(symbol);
    let tether = seq!['U', 'S', 'D', 'T'];
    let dollar = seq!['U', 'S', 'D'];
    assert("USDT"@ =~= tether);
    assert("USD"@ =~= dollar);
    assert("BASE"@ =~= seq!['B', 'A', 'S', 'E']);
    if upper == asset + tether {
        assert(upper.subrange(upper.len() - 4, upper.len() as int) =~= tether);
        assert(without_last(upper, 4) =~= asset);
    }
    if upper == asset + dollar {
        assert(upper.last() == 'D');
        assert(upper.subrange(upper.len() - 3, upper.len() as int) =~= dollar);
        if upper.len() >= 4 {
            assert(upper.subrange(upper.len() - 4, upper.len() as int)[3] == 'D');
        }
        assert(without_last(upper, 3) =~= asset);
    }
    if ends_in(upper, "USDT"@) {
        assert(upper =~= without_last(upper, 4) + tether);
    } else if ends_in(upper, "USD"@) {
        assert(upper =~= without_last(upper, 3) + dollar);
    }
}

} // verus!

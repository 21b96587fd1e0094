//! The client of the exchange, without its connection: requests are put
//! together here and replies are read here; sending them is left to the caller.

use serde_json::Value;
use vstd::prelude::*;

use crate::account::ApiLogEntry;
use crate::arith;
use crate::arith::{Arithmetic, Model};
use crate::json;
use crate::json::{parse_json, Json};
use crate::signal;
use crate::signing;
use crate::signing::{current_timestamp_ms, sign_at};
use crate::text;
use crate::text::{chars_of, decimal_text, has_part};

verus! {

/// How many entries the log keeps.
pub const MAX_LOG_ENTRIES: usize = 500;

/// Most fills that the exchange returns at a time.
pub const TRADE_PAGE_LIMIT: u32 = 1000;

/// The client of the exchange: keys, request window, log, and the step and least
/// size of quantities.
#[derive(Debug)]
pub struct BinanceTestnetClient<F> {
    pub api_key: String,
    pub secret_key: String,
    pub base_url: String,
    /// Milliseconds for which a request is good.
    pub recv_window: u64,
    /// Calls to the exchange, oldest first.
    pub error_log: Vec<ApiLogEntry>,
    pub step_size: F,
    /// Step of market orders.
    pub market_step_size: F,
    /// Least quantity of an order.
    pub min_qty: F,
}

/// What a log entry holds.
#[verifier::ext_equal]
pub struct LogView {
    pub timestamp_ms: u64,
    pub method: Seq<char>,
    pub endpoint: Seq<char>,
    pub status_code: Option<u16>,
    pub body: Seq<char>,
    pub is_error: bool,
}

impl View for ApiLogEntry {
    type V = LogView;

    open spec fn view(&self) -> LogView {
        LogView {
            timestamp_ms: self.timestamp_ms,
            method: self.method@,
            endpoint: self.endpoint@,
            status_code: self.status_code,
            body: self.error_body@,
            is_error: self.is_error,
        }
    }
}

/// What the entries of a log hold.
pub open spec fn log_views(entries: Seq<ApiLogEntry>) -> Seq<LogView> {
    Seq::new(entries.len(), |i: int| entries[i]@)
}

/// The log with one more entry, the oldest ones dropped where it gets too long.
pub open spec fn logged(log: Seq<LogView>, entry: LogView) -> Seq<LogView> {
    signal::last_of(log.push(entry), MAX_LOG_ENTRIES as int)
}

impl<F: Copy> BinanceTestnetClient<F> {
    /// What the log holds, oldest first.
    pub open spec fn log_view(&self) -> Seq<LogView> {
        log_views(self.error_log@)
    }

    /// Whether two clients differ at most in their logs.
    pub open spec fn same_but_log(&self, other: BinanceTestnetClient<F>) -> bool {
        &&& self.api_key == other.api_key
        &&& self.secret_key == other.secret_key
        &&& self.base_url == other.base_url
        &&& self.recv_window == other.recv_window
        &&& self.step_size == other.step_size
        &&& self.market_step_size == other.market_step_size
        &&& self.min_qty == other.min_qty
    }

    /// A client with an empty log and a step of one thousandth.
    pub fn new<A: Arithmetic<F>>(a: &A, api_key: String, secret_key: String) -> (client:
        BinanceTestnetClient<F>)
        ensures
            client.api_key == api_key,
            client.secret_key == secret_key,
            client.base_url@ == "https://demo-fapi.binance.com"@,
            client.recv_window == 5000,
            client.log_view() == Seq::<LogView>::empty(),
            forall|m: Model<F>| #[trigger]
                arith::describes(m, *a) ==> client.step_size == m.ratio(1, 1000)
                    && client.market_step_size == m.ratio(1, 1000) && client.min_qty == m.ratio(
                    1,
                    1000,
                ),
    {
        let thousandth: F = arith::ratio(a, 1, 1000);
        let client = BinanceTestnetClient {
            api_key,
            secret_key,
            base_url: "https://demo-fapi.binance.com".to_string(),
            recv_window: 5000,
            error_log: Vec::new(),
            step_size: thousandth,
            market_step_size: thousandth,
            min_qty: thousandth,
        };
        proof {
            assert(client.log_view() =~= Seq::<LogView>::empty());
        }
        client
    }

    // -----------------------------------------------------------------------
    // Log
    // -----------------------------------------------------------------------

    /// Logs a call made at a given time.
    pub fn log_at(
        &mut self,
        timestamp_ms: u64,
        method: &str,
        endpoint: &str,
        status_code: Option<u16>,
        error_body: &str,
        is_error: bool,
    )
        ensures
            final(self).same_but_log(*old(self)),
            final(self).log_view() == logged(
                old(self).log_view(),
                LogView {
                    timestamp_ms,
                    method: method@,
                    endpoint: endpoint@,
                    status_code,
                    body: error_body@,
                    is_error,
                },
            ),
    {
        let ghost before = self.log_view();
        let entry = ApiLogEntry {
            timestamp_ms,
            method: method.to_string(),
            endpoint: endpoint.to_string(),
            status_code,
            error_body: error_body.to_string(),
            is_error,
        };
        let ghost view = entry@;
        self.error_log.push(entry);
        proof {
            assert(self.log_view() =~= before.push(view));
        }
        if self.error_log.len() > MAX_LOG_ENTRIES {
            let excess: usize = self.error_log.len() - MAX_LOG_ENTRIES;
            let kept: Vec<ApiLogEntry> = self.error_log.split_off(excess);
            self.error_log = kept;
            proof {
                assert(self.log_view() =~= before.push(view).skip(excess as int));
            }
        }
    }

    /// Logs a call made now.
    pub fn log(
        &mut self,
        method: &str,
        endpoint: &str,
        status_code: Option<u16>,
        error_body: &str,
        is_error: bool,
    )
        ensures
            final(self).same_but_log(*old(self)),
            exists|now: u64|
                final(self).log_view() == #[trigger] logged(
                    old(self).log_view(),
                    LogView {
                        timestamp_ms: now,
                        method: method@,
                        endpoint: endpoint@,
                        status_code,
                        body: error_body@,
                        is_error,
                    },
                ),
    {
        let now: u64 = current_timestamp_ms();
        self.log_at(now, method, endpoint, status_code, error_body, is_error);
    }

    /// A copy of the log, oldest entry first.
    pub fn error_log(&self) -> (entries: Vec<ApiLogEntry>)
        ensures
            log_views(entries@) == self.log_view(),
    {
        let mut entries: Vec<ApiLogEntry> = Vec::new();
        let mut i: usize = 0;
        while i < self.error_log.len()
            invariant
                i <= self.error_log.len(),
                entries.len() == i,
                forall|k: int| 0 <= k < i ==> (#[trigger] entries@[k])@ == self.error_log@[k]@,
            decreases self.error_log.len() - i,
        {
            entries.push(self.error_log[i].clone());
            i += 1;
        }
        proof {
            assert(log_views(entries@) =~= self.log_view());
        }
        entries
    }

    /// Empties the log.
    pub fn clear_error_log(&mut self)
        ensures
            final(self).same_but_log(*old(self)),
            final(self).log_view() == Seq::<LogView>::empty(),
    {
        self.error_log.clear();
        proof {
            assert(self.log_view() =~= Seq::<LogView>::empty());
        }
    }

    // -----------------------------------------------------------------------
    // Requests
    // -----------------------------------------------------------------------

    /// Signs the parameters of a request made now: adds the time and the window
    /// to them, sorts them by name, adds the signature, and returns the query.
    pub fn sign(&self, params: &mut Vec<(String, String)>) -> (query: String)
        ensures
            exists|now: u64|
                (query@, signing::params_view(final(params)@)) == #[trigger] signing::signed_query(
                    self.secret_key@,
                    self.recv_window,
                    signing::params_view(old(params)@),
                    now,
                ),
    {
        let now: u64 = current_timestamp_ms();
        sign_at(&self.secret_key, self.recv_window, params, now)
    }

    /// The address of a signed request made at a given time.
    pub fn signed_url_at(&self, path: &str, params: Vec<(String, String)>, timestamp_ms: u64) -> (url:
        String)
        ensures
            url@ == self.base_url@ + path@ + "?"@ + signing::signed_query(
                self.secret_key@,
                self.recv_window,
                signing::params_view(params@),
                timestamp_ms,
            ).0,
    {
        let mut list: Vec<(String, String)> = params;
        let query: String = sign_at(&self.secret_key, self.recv_window, &mut list, timestamp_ms);
        let mut url: String = self.base_url.clone();
        url.append(path);
        url.append("?");
        url.append(&query);
        url
    }

    /// The address of a signed request made now.
    pub fn signed_url(&self, path: &str, params: Vec<(String, String)>) -> (url: String)
        ensures
            exists|now: u64|
                url@ == self.base_url@ + path@ + "?"@ + #[trigger] signing::signed_query(
                    self.secret_key@,
                    self.recv_window,
                    signing::params_view(params@),
                    now,
                ).0,
    {
        let now: u64 = current_timestamp_ms();
        self.signed_url_at(path, params, now)
    }
}

// ---------------------------------------------------------------------------
// Replies
// ---------------------------------------------------------------------------

/// What came back from the exchange.
#[derive(Debug)]
pub enum Reply {
    /// A response with its status, and its body or why it could not be read.
    Response { status: u16, body: Result<String, String> },
    /// No response, and why.
    NoResponse(String),
}

/// Whether a status tells of success.
pub open spec fn is_success(status: u16) -> bool {
    200 <= status < 300
}

/// An entry of the log for a call.
pub open spec fn note(
    now: u64,
    method: Seq<char>,
    path: Seq<char>,
    status: Option<u16>,
    body: Seq<char>,
    is_error: bool,
) -> LogView {
    LogView { timestamp_ms: now, method, endpoint: path, status_code: status, body, is_error }
}

/// The message for a reply that brings no value.
pub open spec fn failure_message(method: Seq<char>, path: Seq<char>, reply: Reply) -> Seq<char> {
    match reply {
        Reply::NoResponse(cause) => method + " "@ + path + " request failed: "@ + cause@,
        Reply::Response { body: Err(cause), .. } => method + " "@ + path
            + " failed to read response: "@ + cause@,
        Reply::Response { status, body: Ok(body) } => if is_success(status) {
            let complaint = match json::json_parsed(body@) {
                Err(message) => message,
                Ok(_) => Seq::empty(),
            };
            "Failed to parse "@ + method + " "@ + path + " response: "@ + complaint
        } else {
            method + " "@ + path + " failed ("@ + text::decimal(status as nat) + "): "@ + body@
        },
    }
}

/// The value that a reply brings, or the message where it brings none.
pub open spec fn reply_outcome(method: Seq<char>, path: Seq<char>, reply: Reply) -> Result<
    Json,
    Seq<char>,
> {
    match reply {
        Reply::Response { status, body: Ok(body) } if is_success(status)
            && json::json_parsed(body@) is Ok => json::json_parsed(body@),
        _ => Err(failure_message(method, path, reply)),
    }
}

/// The log after a reply: a body with a status of success is noted, and so is
/// every failure.
pub open spec fn reply_log(
    log: Seq<LogView>,
    now: u64,
    method: Seq<char>,
    path: Seq<char>,
    reply: Reply,
) -> Seq<LogView> {
    let status = match reply {
        Reply::Response { status, .. } => Some(status),
        Reply::NoResponse(_) => None,
    };
    let noted = match reply {
        Reply::Response { status, body: Ok(body) } if is_success(status) => logged(
            log,
            note(now, method, path, Some(status), body@, false),
        ),
        _ => log,
    };
    match reply_outcome(method, path, reply) {
        Ok(_) => noted,
        Err(message) => logged(noted, note(now, method, path, status, message, true)),
    }
}

/// Whether an outcome is the value or the message that a specification asks for.
pub open spec fn is_value_outcome(
    outcome: Result<Value, String>,
    wanted: Result<Json, Seq<char>>,
) -> bool {
    match wanted {
        Ok(json) => outcome matches Ok(value) && json::json_of(value) == json,
        Err(message) => outcome matches Err(text) && text@ == message,
    }
}

/// `<method> <path><rest>`.
fn call_text(method: &str, path: &str, rest: &str) -> (message: String)
    ensures
        message@ == method@ + " "@ + path@ + rest@,
{
    let mut message: String = method.to_string();
    message.append(" ");
    message.append(path);
    message.append(rest);
    message
}

/// The message for a reply with a status that does not tell of success.
fn status_text(method: &str, path: &str, status: u16, body: &str) -> (message: String)
    ensures
        message@ == method@ + " "@ + path@ + " failed ("@ + text::decimal(status as nat) + "): "@
            + body@,
{
    let mut message: String = call_text(method, path, " failed (");
    message.append(&decimal_text(status as u128));
    message.append("): ");
    message.append(body);
    message
}

/// The message for a body that is no JSON.
fn parse_text(method: &str, path: &str, complaint: &str) -> (message: String)
    ensures
        message@ == "Failed to parse "@ + method@ + " "@ + path@ + " response: "@ + complaint@,
{
    let mut message: String = "Failed to parse ".to_string();
    message.append(method);
    message.append(" ");
    message.append(path);
    message.append(" response: ");
    message.append(complaint);
    message
}

impl<F: Copy> BinanceTestnetClient<F> {
    /// Reads a reply that came at a given time, and logs it.
    pub fn handle_reply_at(
        &mut self,
        now: u64,
        method: &str,
        path: &str,
        reply: &Reply,
    ) -> (outcome: Result<Value, String>)
        ensures
            final(self).same_but_log(*old(self)),
            is_value_outcome(outcome, reply_outcome(method@, path@, *reply)),
            final(self).log_view() == reply_log(old(self).log_view(), now, method@, path@, *reply),
    {
        match reply {
            Reply::NoResponse(cause) => {
                let mut message: String = call_text(method, path, " request failed: ");
                message.append(cause);
                self.log_at(now, method, path, None, &message, true);
                Err(message)
            },
            Reply::Response { status, body } => match body {
                Err(cause) => {
                    let mut message: String = call_text(method, path, " failed to read response: ");
                    message.append(cause);
                    self.log_at(now, method, path, Some(*status), &message, true);
                    Err(message)
                },
                Ok(body) => if *status >= 200 && *status < 300 {
                    self.log_at(now, method, path, Some(*status), body, false);
                    match parse_json(body) {
                        Ok(value) => Ok(value),
                        Err(complaint) => {
                            let message: String = parse_text(method, path, &complaint);
                            self.log_at(now, method, path, Some(*status), &message, true);
                            Err(message)
                        },
                    }
                } else {
                    let message: String = status_text(method, path, *status, body);
                    self.log_at(now, method, path, Some(*status), &message, true);
                    Err(message)
                },
            },
        }
    }

    /// Reads a reply that came now, and logs it.
    pub fn handle_reply(&mut self, method: &str, path: &str, reply: &Reply) -> (outcome: Result<
        Value,
        String,
    >)
        ensures
            final(self).same_but_log(*old(self)),
            is_value_outcome(outcome, reply_outcome(method@, path@, *reply)),
            exists|now: u64|
                final(self).log_view() == #[trigger] reply_log(
                    old(self).log_view(),
                    now,
                    method@,
                    path@,
                    *reply,
                ),
    {
        let now: u64 = current_timestamp_ms();
        self.handle_reply_at(now, method, path, reply)
    }
}

// ---------------------------------------------------------------------------
// Connection test
// ---------------------------------------------------------------------------

/// The message for a connection test that failed.
pub open spec fn connection_message(cause: Seq<char>) -> Seq<char> {
    if text::holds_part(cause, "401"@) || text::holds_part(cause, "403"@) || text::holds_part(
        cause,
        "Invalid API-key"@,
    ) {
        "API keys are invalid: "@ + cause
    } else if text::holds_part(cause, "Signature"@) {
        "Signature verification failed: "@ + cause
    } else {
        "Connection test failed: "@ + cause
    }
}

/// Whether a text holds another.
fn mentions(chars: &Vec<char>, part: &str) -> (found: bool)
    ensures
        found == text::holds_part(chars@, part@),
{
    has_part(chars, &chars_of(part))
}

impl<F: Copy> BinanceTestnetClient<F> {
    /// What the outcome of an account query says of the connection.
    pub fn test_connection(outcome: &Result<Value, String>) -> (verdict: Result<(), String>)
        ensures
            match *outcome {
                Ok(_) => verdict is Ok,
                Err(cause) => verdict matches Err(message) && message@ == connection_message(
                    cause@,
                ),
            },
    {
        match outcome {
            Ok(_) => Ok(()),
            Err(cause) => {
                let chars: Vec<char> = chars_of(cause);
                let mut message: String = if mentions(&chars, "401") || mentions(&chars, "403")
                    || mentions(&chars, "Invalid API-key") {
                    "API keys are invalid: ".to_string()
                } else if mentions(&chars, "Signature") {
                    "Signature verification failed: ".to_string()
                } else {
                    "Connection test failed: ".to_string()
                };
                message.append(cause);
                Err(message)
            },
        }
    }
}

// ---------------------------------------------------------------------------
// Laws
// ---------------------------------------------------------------------------

/// Every call leaves a note at the end of the log, marked as an error exactly
/// where the call brings no value, and the log never holds more notes than
/// there is room for.
pub proof fn law_calls_are_noted(
    log: Seq<LogView>,
    now: u64,
    method: Seq<char>,
    path: Seq<char>,
    reply: Reply,
)
    ensures
        ({
            let after = reply_log(log, now, method, path, reply);
            &&& 0 < after.len() <= MAX_LOG_ENTRIES
            &&& after.last().timestamp_ms == now
            &&& after.last().method == method
            &&& after.last().endpoint == path
            &&& after.last().is_error <==> reply_outcome(method, path, reply) is Err
        }),
{
}

} // verus!

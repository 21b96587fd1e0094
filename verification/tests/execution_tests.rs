use openbook::account::{pair_round_trips, AccountInfo, UserTrade};
use openbook::arith::{Arithmetic, Style, Term, Test};
use openbook::exchange::TradePages;
use openbook::execution::{BinanceTestnetClient, Reply, MAX_LOG_ENTRIES};
use openbook::json::{extract_bool, extract_f64, extract_string, extract_u32, extract_u64};
use openbook::signing::{
    current_timestamp_ms, millis_to_timestamp, query_string, sign_at, sort_params, timestamp_of,
    url_encode,
};
use serde_json::Value;

/// Arithmetic on `f64`, and on `f32` for the screen.
struct Num;

impl Arithmetic<f64> for Num {
    fn eval(&self, term: Term<f64>) -> f64 {
        match term {
            Term::Ratio(n, d) => n as f64 / d as f64,
            Term::Count(n) => n as f64,
            Term::Infinity => f64::INFINITY,
            Term::NegInfinity => f64::NEG_INFINITY,
            Term::Neg(x) => -x,
            Term::Abs(x) => x.abs(),
            Term::Square(x) => x.powi(2),
            Term::Sqrt(x) => x.sqrt(),
            Term::Ln(x) => x.ln(),
            Term::Floor(x) => x.floor(),
            Term::Ceil(x) => x.ceil(),
            Term::Round(x) => x.round(),
            Term::Add(x, y) => x + y,
            Term::Sub(x, y) => x - y,
            Term::Mul(x, y) => x * y,
            Term::Div(x, y) => x / y,
            Term::Max(x, y) => x.max(y),
            Term::Min(x, y) => x.min(y),
        }
    }

    fn test(&self, comparison: Test<f64>) -> bool {
        match comparison {
            Test::Less(x, y) => x < y,
            Test::LessEq(x, y) => x <= y,
            Test::Equal(x, y) => x == y,
            Test::Finite(x) => x.is_finite(),
        }
    }

    fn whole(&self, number: f64) -> u64 {
        number as u64
    }

    fn text(&self, number: f64, style: Style) -> String {
        match style {
            Style::Shortest => format!("{}", number),
            Style::Fixed(p) => format!("{:.*}", p, number),
            Style::Signed(p) => format!("{:+.*}", p, number),
        }
    }

    fn parse(&self, text: &str) -> Result<f64, String> {
        text.parse::<f64>().map_err(|e| e.to_string())
    }
}

fn read(text: &str) -> Value {
    serde_json::from_str(text).unwrap()
}

fn new_client() -> BinanceTestnetClient<f64> {
    BinanceTestnetClient::new(&Num, "test_api_key".to_string(), "test_secret_key".to_string())
}

fn answered(status: u16, body: &str) -> Reply {
    Reply::Response { status, body: Ok(body.to_string()) }
}

fn params(list: &[(&str, &str)]) -> Vec<(String, String)> {
    list.iter().map(|(n, v)| (n.to_string(), v.to_string())).collect()
}

// ---------------------------------------------------------------------------
// Fields of a JSON value
// ---------------------------------------------------------------------------

#[test]
fn test_extract_f64_from_number() {
    let json = read(r#"{"value": 123.45}"#);
    assert_eq!(extract_f64(&Num, &json, "value").unwrap(), 123.45);
}

#[test]
fn test_extract_f64_from_string() {
    let json = read(r#"{"value": "123.45"}"#);
    assert_eq!(extract_f64(&Num, &json, "value").unwrap(), 123.45);
}

#[test]
fn test_extract_f64_missing() {
    let json = read(r#"{"other": 123.45}"#);
    assert!(extract_f64(&Num, &json, "value").is_err());
}

#[test]
fn test_extract_u64_from_number() {
    let json = read(r#"{"value": 12345}"#);
    assert_eq!(extract_u64(&json, "value").unwrap(), 12345);
}

#[test]
fn test_extract_u64_from_string() {
    let json = read(r#"{"value": "12345"}"#);
    assert_eq!(extract_u64(&json, "value").unwrap(), 12345);
}

#[test]
fn test_extract_string() {
    let json = read(r#"{"name": "BTCUSDT"}"#);
    assert_eq!(extract_string(&json, "name").unwrap(), "BTCUSDT");
}

#[test]
fn test_extract_bool() {
    let json = read(r#"{"buyer": true}"#);
    assert!(extract_bool(&json, "buyer").unwrap());
}

#[test]
fn extract_f64_names_what_is_wrong() {
    let json = read(r#"{"text": "abc", "flag": true, "list": [1, 2]}"#);
    assert_eq!(
        extract_f64(&Num, &json, "text").unwrap_err(),
        "Field 'text' string 'abc' is not a valid f64: invalid float literal"
    );
    assert_eq!(
        extract_f64(&Num, &json, "flag").unwrap_err(),
        "Field 'flag' has unexpected type: true"
    );
    assert_eq!(
        extract_f64(&Num, &json, "list").unwrap_err(),
        "Field 'list' has unexpected type: [1,2]"
    );
    assert_eq!(
        extract_f64(&Num, &json, "none").unwrap_err(),
        "Field 'none' not found in response"
    );
    assert_eq!(extract_f64(&Num, &read(r#"{"n": -7}"#), "n").unwrap(), -7.0);
}

#[test]
fn extract_u64_names_what_is_wrong() {
    let json = read(r#"{"low": -1, "part": 1.5, "text": "x", "nil": null}"#);
    assert_eq!(extract_u64(&json, "low").unwrap_err(), "Field 'low' is not a valid u64 number");
    assert_eq!(extract_u64(&json, "part").unwrap_err(), "Field 'part' is not a valid u64 number");
    assert_eq!(
        extract_u64(&json, "text").unwrap_err(),
        "Field 'text' string 'x' is not a valid u64: invalid digit found in string"
    );
    assert_eq!(extract_u64(&json, "nil").unwrap_err(), "Field 'nil' has unexpected type: null");
    assert_eq!(extract_u64(&json, "gone").unwrap_err(), "Field 'gone' not found in response");
    let top = read(r#"{"n": 18446744073709551615}"#);
    assert_eq!(extract_u64(&top, "n").unwrap(), u64::MAX);
}

#[test]
fn extract_u32_is_bounded() {
    let json = read(r#"{"fit": 4294967295, "big": 4294967296, "text": "20", "long": "4294967296"}"#);
    assert_eq!(extract_u32(&json, "fit").unwrap(), u32::MAX);
    assert_eq!(extract_u32(&json, "big").unwrap_err(), "Field 'big' is not a valid u32 number");
    assert_eq!(extract_u32(&json, "text").unwrap(), 20);
    assert_eq!(
        extract_u32(&json, "long").unwrap_err(),
        "Field 'long' string '4294967296' is not a valid u32: number too large to fit in target type"
    );
    assert_eq!(
        extract_u32(&read(r#"{"b": false}"#), "b").unwrap_err(),
        "Field 'b' has unexpected type: false"
    );
    assert_eq!(extract_u32(&json, "no").unwrap_err(), "Field 'no' not found in response");
}

#[test]
fn extract_string_and_bool_name_what_is_wrong() {
    let json = read(r#"{"n": 5, "word": "yes", "t": "true", "f": "false"}"#);
    assert_eq!(extract_string(&json, "n").unwrap_err(), "Field 'n' expected string, got: 5");
    assert_eq!(extract_string(&json, "m").unwrap_err(), "Field 'm' not found in response");
    assert!(extract_bool(&json, "t").unwrap());
    assert!(!extract_bool(&json, "f").unwrap());
    assert_eq!(
        extract_bool(&json, "word").unwrap_err(),
        "Field 'word' string 'yes' is not a valid bool: provided string was not `true` or `false`"
    );
    assert_eq!(extract_bool(&json, "n").unwrap_err(), "Field 'n' expected bool, got: 5");
    assert_eq!(extract_bool(&json, "m").unwrap_err(), "Field 'm' not found in response");
}

#[test]
fn fields_of_what_is_no_object_are_missing() {
    let json = read("[1, 2]");
    assert_eq!(extract_u64(&json, "id").unwrap_err(), "Field 'id' not found in response");
}

// ---------------------------------------------------------------------------
// Signing
// ---------------------------------------------------------------------------

#[test]
fn test_url_encode() {
    // Simple alphanumeric should pass through
    assert_eq!(url_encode("BTCUSDT"), "BTCUSDT");
    assert_eq!(url_encode("12345"), "12345");

    // Special characters should be encoded
    assert_eq!(url_encode(" "), "%20");
    assert_eq!(url_encode("&"), "%26");
    assert_eq!(url_encode("="), "%3D");

    // Unreserved characters should pass through
    assert_eq!(url_encode("-"), "-");
    assert_eq!(url_encode("_"), "_");
    assert_eq!(url_encode("."), ".");
    assert_eq!(url_encode("~"), "~");
}

#[test]
fn url_encode_spells_out_bytes() {
    assert_eq!(url_encode("a/b?c"), "a%2Fb%3Fc");
    assert_eq!(url_encode("\u{e9}"), "%C3%A9");
    assert_eq!(url_encode(""), "");
}

#[test]
fn test_sign_produces_valid_signature() {
    // Create a client with known keys
    let client = new_client();

    let mut params = vec![("symbol".to_string(), "BTCUSDT".to_string())];

    let query_string = client.sign(&mut params);

    // Should contain the given params
    assert!(query_string.contains("symbol=BTCUSDT"));
    // Should contain timestamp and recvWindow
    assert!(query_string.contains("timestamp="));
    assert!(query_string.contains("recvWindow=5000"));
    // Should contain signature
    assert!(query_string.contains("signature="));

    // Signature should be a hex string
    let sig_part: Vec<&str> = query_string.split("signature=").collect();
    assert_eq!(sig_part.len(), 2);
    let sig = sig_part[1];
    assert!(sig.len() == 64); // SHA256 hex is 64 chars
    assert!(sig.chars().all(|c| c.is_ascii_hexdigit()));
}

#[test]
fn test_params_sorted_before_signing() {
    let client = new_client();

    let mut params = vec![
        ("z".to_string(), "last".to_string()),
        ("a".to_string(), "first".to_string()),
        ("m".to_string(), "middle".to_string()),
    ];

    let query_string = client.sign(&mut params);

    // Check that params are sorted (after removing signature part)
    let without_sig = query_string.split("&signature=").next().unwrap();
    let parts: Vec<&str> = without_sig.split('&').collect();

    // Find the non-timestamp/recvWindow params
    let param_parts: Vec<&str> = parts
        .iter()
        .filter(|p| !p.starts_with("timestamp=") && !p.starts_with("recvWindow="))
        .copied()
        .collect();

    assert_eq!(param_parts[0], "a=first");
    assert_eq!(param_parts[1], "m=middle");
    assert_eq!(param_parts[2], "z=last");
}

#[test]
fn a_known_query_has_its_known_signature() {
    let mut list = params(&[("symbol", "BTCUSDT")]);
    let query = sign_at("test_secret_key", 5000, &mut list, 1_700_000_000_000);
    assert_eq!(
        query,
        "recvWindow=5000&symbol=BTCUSDT&timestamp=1700000000000&signature=\
         7e97625c1c9f0334686675b07dbbbeb6361e2cd304cb3e3fb243f4f0bec092cb"
    );
    assert_eq!(list.len(), 4);
    assert_eq!(list[3].0, "signature");
    assert_eq!(list[3].1, "7e97625c1c9f0334686675b07dbbbeb6361e2cd304cb3e3fb243f4f0bec092cb");
    assert_eq!(list[0].0, "recvWindow");
}

#[test]
fn one_query_is_signed_the_same_twice() {
    let mut one = params(&[("b", "2"), ("a", "1")]);
    let mut two = params(&[("a", "1"), ("b", "2")]);
    assert_eq!(sign_at("k", 5000, &mut one, 7), sign_at("k", 5000, &mut two, 7));
    assert_ne!(
        sign_at("k", 5000, &mut params(&[("a", "1")]), 7),
        sign_at("l", 5000, &mut params(&[("a", "1")]), 7)
    );
}

#[test]
fn params_are_sorted_by_name_and_joined() {
    let sorted = sort_params(params(&[("b", "2"), ("a", "x y"), ("ab", "3")]));
    assert_eq!(query_string(&sorted), "a=x%20y&ab=3&b=2");
    assert_eq!(query_string(&params(&[])), "");
}

#[test]
fn timestamps_come_from_the_epoch() {
    assert_eq!(millis_to_timestamp(None), 0);
    assert_eq!(millis_to_timestamp(Some(1_700_000_000_000)), 1_700_000_000_000);
    let epoch = std::time::UNIX_EPOCH;
    assert_eq!(timestamp_of(epoch), 0);
    assert_eq!(timestamp_of(epoch + std::time::Duration::from_nanos(1_999_999)), 1);
    assert_eq!(timestamp_of(epoch + std::time::Duration::from_secs(1_700_000_000)), 1_700_000_000_000);
    assert_eq!(timestamp_of(epoch - std::time::Duration::from_secs(5)), 0);
    assert!(current_timestamp_ms() > 1_600_000_000_000);
}

#[test]
fn signed_urls_start_at_the_base() {
    let client = new_client();
    let url = client.signed_url_at("/fapi/v2/account", params(&[]), 1_700_000_000_000);
    assert!(url.starts_with(
        "https://demo-fapi.binance.com/fapi/v2/account?recvWindow=5000&timestamp=1700000000000&signature="
    ));
    assert!(client.signed_url("/x", params(&[])).starts_with("https://demo-fapi.binance.com/x?"));
}

// ---------------------------------------------------------------------------
// Log and replies
// ---------------------------------------------------------------------------

#[test]
fn test_log_entry_creation() {
    let mut client = new_client();

    client.log("GET", "/fapi/v1/test", Some(200), "OK", false);

    let log = client.error_log();
    assert_eq!(log.len(), 1);
    assert_eq!(log[0].method, "GET");
    assert_eq!(log[0].endpoint, "/fapi/v1/test");
    assert_eq!(log[0].status_code, Some(200));
    assert!(!log[0].is_error);
}

#[test]
fn test_log_max_entries() {
    let mut client = new_client();

    // Add more than 500 entries
    for i in 0..600 {
        client.log("GET", &format!("/test/{}", i), Some(200), "OK", false);
    }

    let log = client.error_log();
    assert_eq!(log.len(), 500);
    assert_eq!(log.len(), MAX_LOG_ENTRIES);
    // Oldest entries should be drained
    assert_eq!(log[0].endpoint, "/test/100");
}

#[test]
fn test_clear_error_log() {
    let mut client = new_client();

    client.log("GET", "/test1", Some(200), "OK", false);
    client.log("GET", "/test2", Some(500), "Error", true);
    assert_eq!(client.error_log().len(), 2);

    client.clear_error_log();
    assert_eq!(client.error_log().len(), 0);
}

#[test]
fn a_good_reply_gives_its_value() {
    let mut client = new_client();
    let outcome = client.handle_reply_at(9, "GET", "/p", &answered(200, r#"{"id": 4}"#));
    assert_eq!(extract_u64(&outcome.unwrap(), "id").unwrap(), 4);
    let log = client.error_log();
    assert_eq!(log.len(), 1);
    assert_eq!(log[0].timestamp_ms, 9);
    assert_eq!(log[0].error_body, r#"{"id": 4}"#);
    assert!(!log[0].is_error);
}

#[test]
fn a_refused_reply_tells_its_status() {
    let mut client = new_client();
    let outcome = client.handle_reply_at(9, "POST", "/p", &answered(400, "bad"));
    assert_eq!(outcome.unwrap_err(), "POST /p failed (400): bad");
    let log = client.error_log();
    assert_eq!(log.len(), 1);
    assert!(log[0].is_error);
    assert_eq!(log[0].status_code, Some(400));
    assert_eq!(log[0].error_body, "POST /p failed (400): bad");
}

#[test]
fn replies_without_a_body_are_told_apart() {
    let mut client = new_client();
    let lost = Reply::NoResponse("timed out".to_string());
    assert_eq!(
        client.handle_reply("GET", "/p", &lost).unwrap_err(),
        "GET /p request failed: timed out"
    );
    let torn = Reply::Response { status: 200, body: Err("cut off".to_string()) };
    assert_eq!(
        client.handle_reply("GET", "/p", &torn).unwrap_err(),
        "GET /p failed to read response: cut off"
    );
    let log = client.error_log();
    assert_eq!(log.len(), 2);
    assert_eq!(log[0].status_code, None);
    assert_eq!(log[1].status_code, Some(200));
}

#[test]
fn a_reply_that_is_no_json_is_an_error() {
    let mut client = new_client();
    let outcome = client.handle_reply_at(1, "GET", "/p", &answered(200, "{"));
    let message = outcome.unwrap_err();
    assert!(message.starts_with("Failed to parse GET /p response: "));
    assert!(message.contains("EOF"));
    assert_eq!(client.error_log().len(), 2);
}

#[test]
fn a_connection_is_tested_by_its_reply() {
    assert!(BinanceTestnetClient::<f64>::test_connection(&Ok(read("{}"))).is_ok());
    assert_eq!(
        BinanceTestnetClient::<f64>::test_connection(&Err("no".to_string())).unwrap_err(),
        "Connection test failed: no"
    );
    for (cause, message) in [
        ("GET /x failed (401): no", "API keys are invalid: GET /x failed (401): no"),
        ("code 403", "API keys are invalid: code 403"),
        ("Invalid API-key, IP", "API keys are invalid: Invalid API-key, IP"),
        ("Signature is off", "Signature verification failed: Signature is off"),
    ] {
        assert_eq!(
            BinanceTestnetClient::<f64>::test_connection(&Err(cause.to_string())).unwrap_err(),
            message
        );
    }
}

// ---------------------------------------------------------------------------
// Account, position and orders
// ---------------------------------------------------------------------------

const ACCOUNT: &str = r#"{
    "totalWalletBalance": "1000.5", "totalMarginBalance": "1010", "availableBalance": 900.25,
    "totalUnrealizedProfit": "9.5",
    "assets": [
        {"asset": "USDT", "walletBalance": "1000", "unrealizedProfit": "9.5"},
        {"asset": "BROKEN"},
        {"asset": "BNB", "walletBalance": 2, "unrealizedProfit": 0}
    ]
}"#;

fn read_account(text: &str) -> Result<AccountInfo<f64>, String> {
    BinanceTestnetClient::get_account(&Num, &Ok(read(text)))
}

#[test]
fn an_account_is_read_with_its_whole_assets() {
    let account = read_account(ACCOUNT).unwrap();
    assert_eq!(account.total_wallet_balance, 1000.5);
    assert_eq!(account.total_margin_balance, 1010.0);
    assert_eq!(account.available_balance, 900.25);
    assert_eq!(account.unrealized_pnl, 9.5);
    assert_eq!(account.assets.len(), 2);
    assert_eq!(account.assets[0].asset, "USDT");
    assert_eq!(account.assets[1].asset, "BNB");
    assert_eq!(account.assets[1].wallet_balance, 2.0);
}

#[test]
fn an_account_without_a_figure_is_an_error() {
    assert_eq!(
        read_account("{}").unwrap_err(),
        "Field 'totalWalletBalance' not found in response"
    );
    let failed: Result<AccountInfo<f64>, String> =
        BinanceTestnetClient::get_account(&Num, &Err("down".to_string()));
    assert_eq!(failed.unwrap_err(), "down");
}

#[test]
fn the_balance_is_what_is_available() {
    assert_eq!(BinanceTestnetClient::get_balance(&read_account(ACCOUNT)), Ok(900.25));
    assert_eq!(
        BinanceTestnetClient::<f64>::get_balance(&Err("down".to_string())),
        Err("down".to_string())
    );
}

#[test]
fn the_position_of_a_symbol_is_found() {
    let list = r#"[
        {"symbol": "ETHUSDT", "positionAmt": "1"},
        {"positionAmt": "3"},
        {"symbol": "BTCUSDT", "positionAmt": "-0.5", "entryPrice": "100", "unRealizedProfit": "2",
         "leverage": "10", "marginType": "cross"}
    ]"#;
    let found = BinanceTestnetClient::get_position(&Num, "BTCUSDT", &Ok(read(list))).unwrap().unwrap();
    assert_eq!(found.symbol, "BTCUSDT");
    assert_eq!(found.position_amt, -0.5);
    assert_eq!(found.entry_price, 100.0);
    assert_eq!(found.unrealized_pnl, 2.0);
    assert_eq!(found.leverage, 10);
    assert_eq!(found.margin_type, "cross");
    assert!(BinanceTestnetClient::<f64>::get_position(&Num, "SOLUSDT", &Ok(read(list)))
        .unwrap()
        .is_none());
}

#[test]
fn an_empty_position_is_none() {
    let list = r#"[{"symbol": "BTCUSDT", "positionAmt": "0.000"}]"#;
    assert!(BinanceTestnetClient::<f64>::get_position(&Num, "BTCUSDT", &Ok(read(list)))
        .unwrap()
        .is_none());
}

#[test]
fn a_position_reply_must_be_a_list() {
    assert_eq!(
        BinanceTestnetClient::<f64>::get_position(&Num, "X", &Ok(read("{}"))).unwrap_err(),
        "Expected array response from positionRisk"
    );
    let short = r#"[{"symbol": "X", "positionAmt": 1}]"#;
    assert_eq!(
        BinanceTestnetClient::<f64>::get_position(&Num, "X", &Ok(read(short))).unwrap_err(),
        "Field 'entryPrice' not found in response"
    );
}

#[test]
fn an_order_below_the_minimum_is_refused() {
    let mut client = new_client();
    client.min_qty = 0.001;
    client.market_step_size = 0.001;
    assert_eq!(
        client.market_order_params(&Num, "BTCUSDT", "buy", 0.0005).unwrap_err(),
        "Quantity 0.0005 is below minimum 0.001 for BTCUSDT"
    );
    let list = client.market_order_params(&Num, "BTCUSDT", "buy", 0.0129).unwrap();
    assert_eq!(
        list,
        params(&[
            ("symbol", "BTCUSDT"),
            ("side", "BUY"),
            ("type", "MARKET"),
            ("quantity", "0.012"),
        ])
    );
}

#[test]
fn quantities_are_cut_to_whole_steps() {
    let mut client = new_client();
    client.market_step_size = 0.001;
    assert_eq!(client.format_quantity(&Num, 0.0049999999), "0.005");
    assert_eq!(client.format_quantity(&Num, 1.23456), "1.234");
    assert_eq!(client.format_quantity(&Num, 2.0), "2.");
    assert_eq!(client.format_quantity(&Num, 100.0004), "100.");
    assert_eq!(client.format_quantity(&Num, 0.0002), "0.");
    assert_eq!(client.format_quantity(&Num, 1.5), "1.5");
    client.market_step_size = 1.0;
    assert_eq!(client.format_quantity(&Num, 7.9), "7");
    client.market_step_size = 0.0;
    assert_eq!(client.format_quantity(&Num, 7.25), "7.25");
}

#[test]
fn a_placed_order_is_read() {
    let reply = r#"{"orderId": 77, "symbol": "BTCUSDT", "side": "BUY", "price": "0", "origQty": "0.5",
        "executedQty": "0.25", "status": "NEW", "type": "MARKET"}"#;
    let order = BinanceTestnetClient::place_market_order(&Num, &Ok(read(reply))).unwrap();
    let price: f64 = order.price;
    assert_eq!(order.order_id, 77);
    assert_eq!(order.symbol, "BTCUSDT");
    assert_eq!(order.side, "BUY");
    assert_eq!(price, 0.0);
    assert_eq!(order.orig_qty, 0.5);
    assert_eq!(order.executed_qty, 0.25);
    assert_eq!(order.status, "NEW");
    assert_eq!(order.order_type, "MARKET");
    assert_eq!(
        BinanceTestnetClient::<f64>::place_market_order(&Num, &Ok(read("{}"))).unwrap_err(),
        "Field 'orderId' not found in response"
    );
}

#[test]
fn symbol_rules_are_taken_over() {
    let mut client = new_client();
    let info = r#"{"symbols": [
        {"symbol": "ETHUSDT", "filters": []},
        {"symbol": "BTCUSDT", "filters": [
            {"filterType": "LOT_SIZE", "stepSize": "0.01", "minQty": "0.02"},
            {"filterType": "MARKET_LOT_SIZE", "stepSize": "0.1", "minQty": "0.3"}
        ]}
    ]}"#;
    assert!(client.symbol_info_url("btcusdt").ends_with("/fapi/v1/exchangeInfo?symbol=BTCUSDT"));
    client.fetch_symbol_info(&Num, 5, "btcusdt", &answered(200, info));
    assert_eq!(client.step_size(), 0.01);
    assert_eq!(client.market_step_size, 0.1);
    assert_eq!(client.min_qty, 0.3);
    let log = client.error_log();
    assert_eq!(log[0].error_body, "Symbol info fetched");
    assert_eq!(log[0].timestamp_ms, 5);
}

#[test]
fn the_lot_rule_stands_in_for_the_market_rule() {
    let mut client = new_client();
    let info = r#"{"symbols": [{"symbol": "X", "filters": [
        {"filterType": "LOT_SIZE", "stepSize": "0.01", "minQty": "0.02"}
    ]}]}"#;
    client.fetch_symbol_info(&Num, 5, "x", &answered(200, info));
    assert_eq!(client.market_step_size, 0.01);
    assert_eq!(client.min_qty, 0.02);
}

#[test]
fn a_failed_symbol_query_keeps_the_rules() {
    let mut client = new_client();
    let step = client.step_size;
    client.fetch_symbol_info(&Num, 5, "X", &Reply::NoResponse("down".to_string()));
    let torn = Reply::Response { status: 200, body: Err("cut".to_string()) };
    client.fetch_symbol_info(&Num, 6, "X", &torn);
    client.fetch_symbol_info(&Num, 7, "X", &answered(200, "no json"));
    assert_eq!(client.step_size, step);
    let log = client.error_log();
    assert_eq!(log.len(), 2);
    assert_eq!(log[0].error_body, "Request failed: down");
    assert_eq!(log[1].error_body, "Failed to read response: cut");
}

// ---------------------------------------------------------------------------
// Fills
// ---------------------------------------------------------------------------

fn fill(id: u64, side: &str, price: f64, qty: f64, pnl: f64, commission: f64) -> UserTrade<f64> {
    UserTrade {
        id,
        symbol: "BTCUSDT".to_string(),
        side: side.to_string(),
        price,
        qty,
        realized_pnl: pnl,
        commission,
        commission_asset: "USDT".to_string(),
        time: id * 1000,
        position_side: "BOTH".to_string(),
        buyer: side == "BUY",
        maker: false,
    }
}

#[test]
fn fills_are_read_and_a_broken_one_is_an_error() {
    let list = r#"[
        {"id": 1, "symbol": "BTCUSDT", "side": "BUY", "price": "10", "qty": "2", "realizedPnl": "0",
         "commission": "0.1", "commissionAsset": "USDT", "time": 99, "positionSide": "BOTH",
         "buyer": true, "maker": false}
    ]"#;
    let outcome: Result<Vec<UserTrade<f64>>, String> =
        BinanceTestnetClient::get_user_trades(&Num, &Ok(read(list)));
    let fills = outcome.unwrap();
    assert_eq!(fills.len(), 1);
    assert_eq!(fills[0].id, 1);
    assert_eq!(fills[0].qty, 2.0);
    assert_eq!(fills[0].time, 99);
    assert!(fills[0].buyer);
    assert_eq!(
        BinanceTestnetClient::<f64>::get_user_trades(&Num, &Ok(read(r#"[{"id": 2}]"#))).unwrap_err(),
        "Field 'symbol' not found in response"
    );
    assert_eq!(
        BinanceTestnetClient::<f64>::get_user_trades(&Num, &Ok(read("{}"))).unwrap_err(),
        "Expected array response from userTrades"
    );
}

#[test]
fn a_trade_query_is_capped() {
    assert_eq!(
        BinanceTestnetClient::<f64>::user_trades_params("X", None, 5000),
        params(&[("symbol", "X"), ("limit", "1000")])
    );
    assert_eq!(
        BinanceTestnetClient::<f64>::user_trades_params("X", Some(7), 50),
        params(&[("symbol", "X"), ("limit", "50"), ("fromId", "7")])
    );
}

#[test]
fn pages_follow_each_other_without_overlap() {
    let mut pages: TradePages<f64> = TradePages::new();
    assert_eq!(
        pages.next_request("X").unwrap(),
        params(&[("symbol", "X"), ("limit", "1000"), ("fromId", "1")])
    );
    pages.accept((1..=1000).map(|id| fill(id, "BUY", 1.0, 1.0, 0.0, 0.0)).collect());
    assert!(!pages.done);
    assert_eq!(pages.from_id, 1001);
    pages.accept((1001..=1003).map(|id| fill(id, "BUY", 1.0, 1.0, 0.0, 0.0)).collect());
    assert!(pages.done);
    assert!(pages.next_request("X").is_none());
    assert_eq!(pages.trades.len(), 1003);
    assert!(pages.trades.windows(2).all(|w| w[0].id < w[1].id));
}

#[test]
fn a_purchase_and_a_sale_make_a_long_trip() {
    let trips = pair_round_trips(
        &Num,
        &vec![fill(1, "BUY", 100.0, 1.0, 0.0, 0.5), fill(2, "SELL", 110.0, 1.0, 10.0, 0.5)],
    );
    assert_eq!(trips.len(), 1);
    assert_eq!(trips[0].id, 1);
    assert_eq!(trips[0].side, "LONG");
    assert_eq!(trips[0].entry_time_ms, 1000);
    assert_eq!(trips[0].exit_time_ms, 2000);
    assert_eq!(trips[0].entry_price, 100.0);
    assert_eq!(trips[0].exit_price, 110.0);
    assert_eq!(trips[0].quantity, 1.0);
    assert_eq!(trips[0].realized_pnl, 10.0);
    assert_eq!(trips[0].commission, 1.0);
    assert_eq!(trips[0].net_pnl, 9.0);
}

#[test]
fn entries_and_partial_exits_are_averaged() {
    let trips = pair_round_trips(
        &Num,
        &vec![
            fill(1, "SELL", 100.0, 1.0, 0.0, -1.0),
            fill(2, "SELL", 110.0, 1.0, 0.0, -1.0),
            fill(3, "BUY", 90.0, 1.0, 15.0, -1.0),
            fill(4, "BUY", 80.0, 1.0, 25.0, -1.0),
        ],
    );
    assert_eq!(trips.len(), 1);
    assert_eq!(trips[0].side, "SHORT");
    assert_eq!(trips[0].entry_price, 105.0);
    assert_eq!(trips[0].exit_price, 85.0);
    assert_eq!(trips[0].quantity, 2.0);
    assert_eq!(trips[0].realized_pnl, 40.0);
    assert_eq!(trips[0].commission, -4.0);
    assert_eq!(trips[0].net_pnl, 36.0);
}

#[test]
fn entries_after_a_partial_exit_are_averaged_too() {
    let trips = pair_round_trips(
        &Num,
        &vec![
            fill(1, "BUY", 100.0, 2.0, 0.0, 0.0),
            fill(2, "SELL", 110.0, 1.0, 10.0, 0.0),
            fill(3, "BUY", 120.0, 1.0, 0.0, 0.0),
            fill(4, "SELL", 130.0, 2.0, 40.0, 0.0),
        ],
    );
    assert_eq!(trips.len(), 1);
    assert_eq!(trips[0].quantity, 3.0);
    assert_eq!(trips[0].entry_price, 320.0 / 3.0);
    assert_eq!(trips[0].exit_price, 370.0 / 3.0);
}

#[test]
fn a_fill_beyond_the_close_opens_the_next_trip() {
    let trips = pair_round_trips(
        &Num,
        &vec![
            fill(1, "BUY", 100.0, 1.0, 0.0, 0.0),
            fill(2, "SELL", 110.0, 3.0, 10.0, 0.0),
            fill(3, "BUY", 105.0, 2.0, 10.0, 0.0),
        ],
    );
    assert_eq!(trips.len(), 2);
    assert_eq!(trips[1].id, 2);
    assert_eq!(trips[1].side, "SHORT");
    assert_eq!(trips[1].entry_time_ms, 2000);
    assert_eq!(trips[1].entry_price, 110.0);
    assert_eq!(trips[1].quantity, 2.0);
    assert_eq!(trips[1].realized_pnl, 10.0);
}

#[test]
fn later_fills_keep_finished_trips() {
    let mut fills =
        vec![fill(1, "BUY", 100.0, 1.0, 0.0, 0.5), fill(2, "SELL", 110.0, 1.0, 10.0, 0.5)];
    let before = pair_round_trips(&Num, &fills);
    fills.push(fill(3, "BUY", 120.0, 1.0, 0.0, 0.5));
    let after = pair_round_trips(&Num, &fills);
    assert_eq!(after.len(), before.len());
    assert_eq!(after[0].exit_time_ms, before[0].exit_time_ms);
    assert_eq!(after[0].net_pnl, before[0].net_pnl);
}

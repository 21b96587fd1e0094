//! Signed query strings.

use hmac::{Hmac, Mac};
use percent_encoding::{utf8_percent_encode, NON_ALPHANUMERIC};
use sha2::Sha256;
use vstd::prelude::*;

use crate::text;
use crate::text::{chars_of, comes_before, decimal_text};

verus! {

// ---------------------------------------------------------------------------
// Time
// ---------------------------------------------------------------------------

/// `std::time::SystemTime`, opaque.
#[verifier::external_type_specification]
#[verifier::external_body]
pub struct ExSystemTime(std::time::SystemTime);

/// How far a time lies after the epoch, in nanoseconds, as
/// `SystemTime::duration_since` measures it; below zero where it lies before.
pub uninterp spec fn nanos_after_epoch(time: std::time::SystemTime) -> int;

/// The length of a stretch of time, in nanoseconds.
pub uninterp spec fn nanos_in(duration: std::time::Duration) -> nat;

/// `SystemTime::now`: nothing is known of the time.
#[verifier::external_body]
fn system_now() -> std::time::SystemTime {
    std::time::SystemTime::now()
}

/// `SystemTime::duration_since` the epoch: the time that has passed since then,
/// none where the time lies before it.
#[verifier::external_body]
fn since_epoch(time: std::time::SystemTime) -> (elapsed: Option<std::time::Duration>)
    ensures
        match elapsed {
            Some(duration) => nanos_in(duration) == nanos_after_epoch(time),
            None => nanos_after_epoch(time) < 0,
        },
{
    time.duration_since(std::time::UNIX_EPOCH).ok()
}

/// `Duration::as_millis`: the whole milliseconds of a stretch of time.
#[verifier::external_body]
fn millis_of(duration: std::time::Duration) -> (millis: u128)
    ensures
        millis == nanos_in(duration) / 1_000_000,
{
    duration.as_millis()
}

/// The timestamp of a time so many nanoseconds after the epoch: the whole
/// milliseconds in 64 bits, zero before the epoch.
pub open spec fn timestamp_at(nanos: int) -> u64 {
    if nanos < 0 {
        0
    } else {
        ((nanos / 1_000_000) % 0x1_0000_0000_0000_0000) as u64
    }
}

/// A time in milliseconds since the epoch, zero where it lies before it.
pub fn timestamp_of(time: std::time::SystemTime) -> (timestamp: u64)
    ensures
        timestamp == timestamp_at(nanos_after_epoch(time)),
{
    match since_epoch(time) {
        Some(duration) => millis_to_timestamp(Some(millis_of(duration))),
        None => millis_to_timestamp(None),
    }
}

/// The current time in milliseconds since the epoch, zero where the clock stands
/// before it. Which time the clock shows is left open.
pub fn current_timestamp_ms() -> (timestamp: u64)
    ensures
        exists|now: std::time::SystemTime|
            timestamp == timestamp_at(#[trigger] nanos_after_epoch(now)),
{
    timestamp_of(system_now())
}

/// Milliseconds since the epoch in 64 bits, zero where there are none.
pub fn millis_to_timestamp(millis: Option<u128>) -> (timestamp: u64)
    ensures
        timestamp == (match millis {
            Some(n) => (n % 0x1_0000_0000_0000_0000) as u64,
            None => 0u64,
        }),
{
    match millis {
        Some(n) => (n % 0x1_0000_0000_0000_0000) as u64,
        None => 0,
    }
}

// ---------------------------------------------------------------------------
// Percent encoding
// ---------------------------------------------------------------------------

/// Whether a byte is an ASCII letter or digit.
pub open spec fn is_alphanumeric(b: u8) -> bool {
    ||| '0' as u8 <= b <= '9' as u8
    ||| 'A' as u8 <= b <= 'Z' as u8
    ||| 'a' as u8 <= b <= 'z' as u8
}

/// The character of a hexadecimal digit, a capital where it is a letter.
pub open spec fn hex_capital(d: u8) -> char {
    if d < 10 {
        ('0' as u8 + d) as char
    } else {
        ('A' as u8 + (d - 10)) as char
    }
}

/// A letter or digit as it is, any other byte as a percent sign and two
/// hexadecimal digits.
pub open spec fn encoded_byte(b: u8) -> Seq<char> {
    if is_alphanumeric(b) {
        seq![b as char]
    } else {
        seq!['%', hex_capital(b / 16), hex_capital(b % 16)]
    }
}

/// Bytes with all but letters and digits percent-encoded.
pub open spec fn encoded_bytes(bytes: Seq<u8>) -> Seq<char>
    decreases bytes.len(),
{
    if bytes.len() == 0 {
        Seq::empty()
    } else {
        encoded_bytes(bytes.drop_last()) + encoded_byte(bytes.last())
    }
}

/// `percent_encoding::utf8_percent_encode` with its set `NON_ALPHANUMERIC`: the
/// bytes of the text in UTF-8, all but ASCII letters and digits encoded.
#[verifier::external_body]
fn encode_text(text: &str) -> (encoded: String)
    ensures
        encoded@ == encoded_bytes(vstd::utf8::encode_utf8(text@)),
{
    utf8_percent_encode(text, NON_ALPHANUMERIC).to_string()
}

/// Whether a character is one of the marks that need no encoding in a query.
pub open spec fn is_unreserved_mark(c: char) -> bool {
    c == '-' || c == '_' || c == '.' || c == '~'
}

/// A character as it stands in a query.
pub open spec fn query_char(c: char) -> Seq<char> {
    if is_unreserved_mark(c) {
        seq![c]
    } else {
        encoded_bytes(vstd::utf8::encode_utf8(seq![c]))
    }
}

/// A text as it stands in a query: letters, digits and the unreserved marks as
/// they are, everything else percent-encoded byte by byte.
pub open spec fn query_text(s: Seq<char>) -> Seq<char>
    decreases s.len(),
{
    if s.len() == 0 {
        Seq::empty()
    } else {
        query_text(s.drop_last()) + query_char(s.last())
    }
}

/// A text as it stands in a query.
pub fn url_encode(s: &str) -> (encoded: String)
    ensures
        encoded@ == query_text(s@),
{
    let chars: Vec<char> = chars_of(s);
    let mut encoded: String = String::new();
    let mut i: usize = 0;
    while i < chars.len()
        invariant
            i <= chars.len(),
            chars@ == s@,
            encoded@ == query_text(s@.take(i as int)),
        decreases chars.len() - i,
    {
        proof {
            assert(s@.take(i as int + 1).drop_last() =~= s@.take(i as int));
        }
        let c: char = chars[i];
        let mut one: String = String::new();
        one.push(c);
        proof {
            assert(one@ =~= seq![c]);
        }
        if c == '-' || c == '_' || c == '.' || c == '~' {
            encoded.append(&one);
        } else {
            encoded.append(&encode_text(&one));
        }
        i += 1;
    }
    proof {
        assert(s@.take(s@.len() as int) =~= s@);
    }
    encoded
}

// ---------------------------------------------------------------------------
// Signature
// ---------------------------------------------------------------------------

/// The HMAC of a message under a key with SHA-256.
pub uninterp spec fn hmac_sha256(key: Seq<u8>, message: Seq<u8>) -> Seq<u8>;

/// `hmac::Hmac` over `sha2::Sha256`: the code of the message under the key, 32
/// bytes long. A key may have any length.
#[verifier::external_body]
fn message_code(key: &[u8], message: &[u8]) -> (code: Vec<u8>)
    ensures
        code@ == hmac_sha256(key@, message@),
        code@.len() == 32,
{
    let mut mac = <Hmac<Sha256> as Mac>::new_from_slice(key).expect("any key length is accepted");
    mac.update(message);
    mac.finalize().into_bytes().to_vec()
}

/// The character of a hexadecimal digit, a small letter where it is one.
pub open spec fn hex_small(d: u8) -> char {
    if d < 10 {
        ('0' as u8 + d) as char
    } else {
        ('a' as u8 + (d - 10)) as char
    }
}

/// Bytes in hexadecimal, two digits each.
pub open spec fn hex_text(bytes: Seq<u8>) -> Seq<char> {
    Seq::new(
        2 * bytes.len(),
        |i: int|
            if i % 2 == 0 {
                hex_small(bytes[i / 2] / 16)
            } else {
                hex_small(bytes[i / 2] % 16)
            },
    )
}

/// `hex::encode`: the bytes in hexadecimal with small letters.
#[verifier::external_body]
fn hex_of(bytes: &Vec<u8>) -> (encoded: String)
    ensures
        encoded@ == hex_text(bytes@),
{
    hex::encode(bytes)
}

/// A parameter of a query: name and value.
pub struct ParamView {
    pub name: Seq<char>,
    pub value: Seq<char>,
}

/// The parameters of a list.
pub open spec fn params_view(params: Seq<(String, String)>) -> Seq<ParamView> {
    Seq::new(params.len(), |i: int| ParamView { name: params[i].0@, value: params[i].1@ })
}

/// The list with one more parameter, put behind the last one whose name does not
/// come after its own.
pub open spec fn placed(sorted: Seq<ParamView>, param: ParamView) -> Seq<ParamView>
    decreases sorted.len(),
{
    if sorted.len() > 0 && text::precedes(param.name, sorted.last().name) {
        placed(sorted.drop_last(), param).push(sorted.last())
    } else {
        sorted.push(param)
    }
}

/// The parameters by name, those of one name in the order in which they came.
pub open spec fn arranged(params: Seq<ParamView>) -> Seq<ParamView>
    decreases params.len(),
{
    if params.len() == 0 {
        Seq::empty()
    } else {
        placed(arranged(params.drop_last()), params.last())
    }
}

/// Where a parameter is put.
proof fn lemma_placed(sorted: Seq<ParamView>, param: ParamView, at: int)
    requires
        0 <= at <= sorted.len(),
        forall|k: int|
            at <= k < sorted.len() ==> text::precedes(param.name, (#[trigger] sorted[k]).name),
        at > 0 ==> !text::precedes(param.name, sorted[at - 1].name),
    ensures
        placed(sorted, param) == sorted.insert(at, param),
    decreases sorted.len(),
{
    if at == sorted.len() {
        assert(sorted.insert(at, param) =~= sorted.push(param));
    } else {
        let front = sorted.drop_last();
        assert forall|k: int| at <= k < front.len() implies text::precedes(
            param.name,
            (#[trigger] front[k]).name,
        ) by {
            assert(front[k] == sorted[k]);
        }
        lemma_placed(front, param, at);
        assert(sorted.insert(at, param) =~= front.insert(at, param).push(sorted.last()));
    }
}

/// Puts a parameter into a sorted list.
fn place(sorted: &mut Vec<(String, String)>, param: (String, String))
    ensures
        params_view(final(sorted)@) == placed(
            params_view(old(sorted)@),
            ParamView { name: param.0@, value: param.1@ },
        ),
{
    let name: Vec<char> = chars_of(&param.0);
    let ghost before = params_view(sorted@);
    let ghost view = ParamView { name: param.0@, value: param.1@ };
    let mut at: usize = sorted.len();
    while at > 0 && comes_before(&name, &chars_of(&sorted[at - 1].0))
        invariant
            at <= sorted.len(),
            name@ == view.name,
            before == params_view(sorted@),
            forall|k: int|
                at <= k < sorted.len() ==> text::precedes(view.name, (#[trigger] before[k]).name),
        decreases at,
    {
        at -= 1;
    }
    proof {
        lemma_placed(before, view, at as int);
    }
    sorted.insert(at, param);
    proof {
        assert(params_view(sorted@) =~= before.insert(at as int, view));
    }
}

/// Sorts parameters by name, keeping the order of those with one name.
pub fn sort_params(params: Vec<(String, String)>) -> (sorted: Vec<(String, String)>)
    ensures
        params_view(sorted@) == arranged(params_view(params@)),
{
    let ghost all = params_view(params@);
    let mut rest: Vec<(String, String)> = params;
    let mut sorted: Vec<(String, String)> = Vec::new();
    let ghost mut done: int = 0;
    proof {
        assert(all.skip(0) =~= all);
        assert(params_view(sorted@) =~= arranged(all.take(0)));
    }
    while rest.len() > 0
        invariant
            0 <= done <= all.len(),
            rest@.len() == all.len() - done,
            params_view(rest@) == all.skip(done),
            params_view(sorted@) == arranged(all.take(done)),
        decreases rest.len(),
    {
        let ghost before = params_view(rest@);
        proof {
            assert(before[0] == all[done]);
            assert(all.take(done + 1).drop_last() =~= all.take(done));
        }
        let param: (String, String) = rest.remove(0);
        proof {
            assert(params_view(rest@) =~= before.skip(1));
            assert(before.skip(1) =~= all.skip(done + 1));
            done = done + 1;
        }
        place(&mut sorted, param);
    }
    proof {
        assert(all.take(done) =~= all);
    }
    sorted
}

/// `name=value` as it stands in a query.
pub open spec fn query_pair(param: ParamView) -> Seq<char> {
    query_text(param.name) + "="@ + query_text(param.value)
}

/// The parameters as a query string.
pub open spec fn query_of(params: Seq<ParamView>) -> Seq<char> {
    text::joined(Seq::new(params.len(), |i: int| query_pair(params[i])), "&"@)
}

/// The parameters as a query string.
pub fn query_string(params: &Vec<(String, String)>) -> (query: String)
    ensures
        query@ == query_of(params_view(params@)),
{
    let ghost views = params_view(params@);
    let mut pairs: Vec<String> = Vec::new();
    let mut i: usize = 0;
    while i < params.len()
        invariant
            i <= params.len(),
            views == params_view(params@),
            pairs.len() == i,
            forall|k: int| 0 <= k < i ==> (#[trigger] pairs@[k])@ == query_pair(views[k]),
        decreases params.len() - i,
    {
        let mut pair: String = url_encode(&params[i].0);
        pair.append("=");
        pair.append(&url_encode(&params[i].1));
        pairs.push(pair);
        i += 1;
    }
    proof {
        assert(text::views(pairs@) =~= Seq::new(views.len(), |k: int| query_pair(views[k])));
    }
    text::join(&pairs, "&")
}

/// The parameters of a request with the time and the window in which it is good.
pub open spec fn stamped(params: Seq<ParamView>, timestamp_ms: u64, recv_window: u64) -> Seq<
    ParamView,
> {
    params.push(
        ParamView { name: "timestamp"@, value: text::decimal(timestamp_ms as nat) },
    ).push(ParamView { name: "recvWindow"@, value: text::decimal(recv_window as nat) })
}

/// The signature of a query under a secret.
pub open spec fn signature_of(secret: Seq<char>, query: Seq<char>) -> Seq<char> {
    hex_text(
        hmac_sha256(vstd::utf8::encode_utf8(secret), vstd::utf8::encode_utf8(query)),
    )
}

/// What signing a request gives: the query string with the signature behind it,
/// and the parameters by name with the signature last.
pub open spec fn signed_query(
    secret: Seq<char>,
    recv_window: u64,
    params: Seq<ParamView>,
    timestamp_ms: u64,
) -> (Seq<char>, Seq<ParamView>) {
    let sorted = arranged(stamped(params, timestamp_ms, recv_window));
    let query = query_of(sorted);
    let signature = signature_of(secret, query);
    (
        query + "&signature="@ + signature,
        sorted.push(ParamView { name: "signature"@, value: signature }),
    )
}

/// Signs a request made at a given time.
pub fn sign_at(
    secret: &str,
    recv_window: u64,
    params: &mut Vec<(String, String)>,
    timestamp_ms: u64,
) -> (query: String)
    ensures
        (query@, params_view(final(params)@)) == signed_query(
            secret@,
            recv_window,
            params_view(old(params)@),
            timestamp_ms,
        ),
{
    let ghost before = params_view(params@);
    let mut list: Vec<(String, String)> = Vec::new();
    list.append(params);
    let time: String = decimal_text(timestamp_ms as u128);
    let window: String = decimal_text(recv_window as u128);
    list.push(("timestamp".to_string(), time));
    list.push(("recvWindow".to_string(), window));
    proof {
        assert(params_view(list@) =~= stamped(before, timestamp_ms, recv_window));
    }
    let mut sorted: Vec<(String, String)> = sort_params(list);
    let ghost by_name = params_view(sorted@);
    let query: String = query_string(&sorted);
    let code: Vec<u8> = message_code(secret.as_bytes(), query.as_str().as_bytes());
    let signature: String = hex_of(&code);
    let mut whole: String = query;
    whole.append("&signature=");
    whole.append(&signature);
    sorted.push(("signature".to_string(), signature));
    proof {
        assert(params_view(sorted@) =~= by_name.push(
            ParamView { name: "signature"@, value: signature@ },
        ));
    }
    *params = sorted;
    whole
}

// ---------------------------------------------------------------------------
// Laws
// ---------------------------------------------------------------------------

/// Whether no parameter stands behind one whose name comes after its own.
pub open spec fn is_by_name(params: Seq<ParamView>) -> bool {
    forall|i: int, j: int|
        0 <= i < j < params.len() ==> !text::precedes(
            (#[trigger] params[j]).name,
            (#[trigger] params[i]).name,
        )
}

/// The parameters with one name, in their order.
pub open spec fn of_name(params: Seq<ParamView>, name: Seq<char>) -> Seq<ParamView>
    decreases params.len(),
{
    if params.len() == 0 {
        Seq::empty()
    } else {
        let before = of_name(params.drop_last(), name);
        if params.last().name == name {
            before.push(params.last())
        } else {
            before
        }
    }
}

proof fn lemma_placed_by_name(sorted: Seq<ParamView>, param: ParamView)
    requires
        is_by_name(sorted),
    ensures
        is_by_name(placed(sorted, param)),
        placed(sorted, param).len() == sorted.len() + 1,
        forall|p: ParamView|
            placed(sorted, param).contains(p) ==> p == param || #[trigger] sorted.contains(p),
    decreases sorted.len(),
{
    let after = placed(sorted, param);
    if sorted.len() > 0 && text::precedes(param.name, sorted.last().name) {
        let front = sorted.drop_last();
        assert forall|i: int, j: int| 0 <= i < j < front.len() implies !text::precedes(
            (#[trigger] front[j]).name,
            (#[trigger] front[i]).name,
        ) by {
            assert(front[i] == sorted[i] && front[j] == sorted[j]);
        }
        lemma_placed_by_name(front, param);
        let inner = placed(front, param);
        let last = sorted.last();
        assert forall|i: int, j: int| 0 <= i < j < after.len() implies !text::precedes(
            (#[trigger] after[j]).name,
            (#[trigger] after[i]).name,
        ) by {
            assert(after[i] == inner[i]);
            if j < inner.len() {
                assert(after[j] == inner[j]);
            } else {
                assert(inner.contains(inner[i]));
                if inner[i] == param {
                    if text::precedes(last.name, param.name) {
                        text::lemma_precedes_transitive(last.name, param.name, last.name);
                        text::lemma_precedes_irreflexive(last.name);
                    }
                } else {
                    assert(front.contains(inner[i]));
                    let k = choose|k: int| 0 <= k < front.len() && front[k] == inner[i];
                    assert(sorted[k] == inner[i]);
                    assert(sorted[sorted.len() - 1] == last);
                }
            }
        }
        assert forall|p: ParamView| after.contains(p) implies p == param
            || #[trigger] sorted.contains(p) by {
            let k = choose|k: int| 0 <= k < after.len() && after[k] == p;
            if k < inner.len() {
                assert(inner[k] == p);
                assert(inner.contains(p));
                if p != param {
                    assert(front.contains(p));
                    let n = choose|n: int| 0 <= n < front.len() && front[n] == p;
                    assert(sorted[n] == p);
                }
            } else {
                assert(sorted[sorted.len() - 1] == p);
            }
        }
    } else {
        assert forall|i: int, j: int| 0 <= i < j < after.len() implies !text::precedes(
            (#[trigger] after[j]).name,
            (#[trigger] after[i]).name,
        ) by {
            assert(after[i] == sorted[i]);
            if j < sorted.len() {
                assert(after[j] == sorted[j]);
            } else {
                let last = sorted.last();
                if text::precedes(param.name, sorted[i].name) {
                    text::lemma_precedes_total(sorted[i].name, last.name);
                    if i < sorted.len() - 1 {
                        assert(!text::precedes(
                            sorted[sorted.len() - 1].name,
                            sorted[i].name,
                        ));
                    }
                    if text::precedes(sorted[i].name, last.name) {
                        text::lemma_precedes_transitive(param.name, sorted[i].name, last.name);
                    }
                }
            }
        }
        assert forall|p: ParamView| after.contains(p) implies p == param
            || #[trigger] sorted.contains(p) by {
            let k = choose|k: int| 0 <= k < after.len() && after[k] == p;
            if k < sorted.len() {
                assert(sorted[k] == p);
            }
        }
    }
}

proof fn lemma_placed_of_name(sorted: Seq<ParamView>, param: ParamView, name: Seq<char>)
    requires
        is_by_name(sorted),
    ensures
        of_name(placed(sorted, param), name) == (if param.name == name {
            of_name(sorted, name).push(param)
        } else {
            of_name(sorted, name)
        }),
    decreases sorted.len(),
{
    let after = placed(sorted, param);
    if sorted.len() > 0 && text::precedes(param.name, sorted.last().name) {
        let front = sorted.drop_last();
        assert forall|i: int, j: int| 0 <= i < j < front.len() implies !text::precedes(
            (#[trigger] front[j]).name,
            (#[trigger] front[i]).name,
        ) by {
            assert(front[i] == sorted[i] && front[j] == sorted[j]);
        }
        lemma_placed_of_name(front, param, name);
        assert(after.drop_last() =~= placed(front, param));
        if sorted.last().name == name && param.name == name {
            text::lemma_precedes_irreflexive(name);
        }
    } else {
        assert(after.drop_last() =~= sorted);
    }
}

/// Sorted parameters are by name, as many as before, and those of each name are
/// the ones that came, in the order in which they came: the sort is stable.
pub proof fn law_sort_is_stable(params: Seq<ParamView>, name: Seq<char>)
    ensures
        is_by_name(arranged(params)),
        arranged(params).len() == params.len(),
        of_name(arranged(params), name) == of_name(params, name),
    decreases params.len(),
{
    if params.len() > 0 {
        law_sort_is_stable(params.drop_last(), name);
        lemma_placed_by_name(arranged(params.drop_last()), params.last());
        lemma_placed_of_name(arranged(params.drop_last()), params.last(), name);
    }
}

/// Whether a character may stand in a query without a meaning of its own.
pub open spec fn is_query_safe(c: char) -> bool {
    ||| '0' <= c <= '9'
    ||| 'A' <= c <= 'Z'
    ||| 'a' <= c <= 'z'
    ||| is_unreserved_mark(c)
    ||| c == '%'
}

proof fn lemma_encoded_bytes_safe(bytes: Seq<u8>)
    ensures
        forall|i: int|
            0 <= i < encoded_bytes(bytes).len() ==> is_query_safe(
                #[trigger] encoded_bytes(bytes)[i],
            ),
    decreases bytes.len(),
{
    if bytes.len() > 0 {
        lemma_encoded_bytes_safe(bytes.drop_last());
        let front = encoded_bytes(bytes.drop_last());
        let all = encoded_bytes(bytes);
        assert forall|i: int| 0 <= i < all.len() implies is_query_safe(#[trigger] all[i]) by {
            if i < front.len() {
                assert(all[i] == front[i]);
            } else {
                assert(all[i] == encoded_byte(bytes.last())[i - front.len()]);
            }
        }
    }
}

/// Neither a separator nor any other character with a meaning in a query is left
/// in an encoded text.
pub proof fn law_encoded_text_is_query_safe(s: Seq<char>)
    ensures
        forall|i: int| 0 <= i < query_text(s).len() ==> is_query_safe(#[trigger] query_text(s)[i]),
    decreases s.len(),
{
    if s.len() > 0 {
        law_encoded_text_is_query_safe(s.drop_last());
        lemma_encoded_bytes_safe(vstd::utf8::encode_utf8(seq![s.last()]));
        let front = query_text(s.drop_last());
        let all = query_text(s);
        assert forall|i: int| 0 <= i < all.len() implies is_query_safe(#[trigger] all[i]) by {
            if i < front.len() {
                assert(all[i] == front[i]);
            } else {
                assert(all[i] == query_char(s.last())[i - front.len()]);
            }
        }
    }
}

/// A code of 32 bytes gives a signature of 64 hexadecimal digits.
pub proof fn law_signature_is_hexadecimal(code: Seq<u8>)
    requires
        code.len() == 32,
    ensures
        hex_text(code).len() == 64,
        forall|i: int|
            0 <= i < 64 ==> ('0' <= #[trigger] hex_text(code)[i] <= '9' || 'a' <= hex_text(
                code,
            )[i] <= 'f'),
{
}

/// A signed query is the query of its parameters by name, the time and the window
/// among them, with the signature of just that query under the secret behind it;
/// under each name stand the parameters that were given, in their order.
pub proof fn law_signature_covers_the_query(
    secret: Seq<char>,
    recv_window: u64,
    params: Seq<ParamView>,
    timestamp_ms: u64,
    name: Seq<char>,
)
    requires
        forall|i: int|
            0 <= i < params.len() ==> (#[trigger] params[i]).name != "timestamp"@ && params[i].name
                != "recvWindow"@,
    ensures
        ({
            let (query, list) = signed_query(secret, recv_window, params, timestamp_ms);
            let sent = list.drop_last();
            let signature = hex_text(
                hmac_sha256(
                    vstd::utf8::encode_utf8(secret),
                    vstd::utf8::encode_utf8(query_of(sent)),
                ),
            );
            &&& query == query_of(sent) + "&signature="@ + signature
            &&& list.last() == (ParamView { name: "signature"@, value: signature })
            &&& is_by_name(sent)
            &&& sent.len() == params.len() + 2
            &&& name != "timestamp"@ && name != "recvWindow"@ ==> of_name(sent, name) == of_name(
                params,
                name,
            )
            &&& of_name(sent, "timestamp"@) == seq![
                ParamView { name: "timestamp"@, value: text::decimal(timestamp_ms as nat) },
            ]
            &&& of_name(sent, "recvWindow"@) == seq![
                ParamView { name: "recvWindow"@, value: text::decimal(recv_window as nat) },
            ]
        }),
{
    reveal_strlit("timestamp");
    reveal_strlit("recvWindow");
    assert("timestamp"@.len() != "recvWindow"@.len());
    let all = stamped(params, timestamp_ms, recv_window);
    let (query, list) = signed_query(secret, recv_window, params, timestamp_ms);
    assert(list.drop_last() =~= arranged(all));
    law_sort_is_stable(all, name);
    law_sort_is_stable(all, "timestamp"@);
    law_sort_is_stable(all, "recvWindow"@);
    let stamp = ParamView { name: "timestamp"@, value: text::decimal(timestamp_ms as nat) };
    let one = params.push(stamp);
    assert(all.drop_last() =~= one);
    assert(one.drop_last() =~= params);
    lemma_none_of_name(params, "timestamp"@);
    lemma_none_of_name(params, "recvWindow"@);
    let good = ParamView { name: "recvWindow"@, value: text::decimal(recv_window as nat) };
    assert(all.last() == good);
    assert(one.last() == stamp);
    assert(of_name(one, "timestamp"@) == of_name(params, "timestamp"@).push(stamp));
    assert(of_name(all, "timestamp"@) == of_name(one, "timestamp"@));
    assert(of_name(all, "timestamp"@) =~= seq![stamp]);
    assert(of_name(one, "recvWindow"@) == of_name(params, "recvWindow"@));
    assert(of_name(all, "recvWindow"@) == of_name(one, "recvWindow"@).push(good));
    assert(of_name(all, "recvWindow"@) =~= seq![good]);
    if name != "timestamp"@ && name != "recvWindow"@ {
        assert(of_name(one, name) == of_name(params, name));
        assert(of_name(all, name) == of_name(one, name));
    }
}

proof fn lemma_none_of_name(params: Seq<ParamView>, name: Seq<char>)
    requires
        forall|i: int| 0 <= i < params.len() ==> (#[trigger] params[i]).name != name,
    ensures
        of_name(params, name) == Seq::<ParamView>::empty(),
    decreases params.len(),
{
    if params.len() > 0 {
        let front = params.drop_last();
        assert(params[params.len() - 1].name != name);
        assert forall|i: int| 0 <= i < front.len() implies (#[trigger] front[i]).name != name by {
            assert(front[i] == params[i]);
        }
        lemma_none_of_name(front, name);
    }
}

/// The number for which a hexadecimal digit stands.
pub open spec fn digit_value(c: char) -> int {
    if '0' <= c <= '9' {
        c as int - '0' as int
    } else if 'A' <= c <= 'F' {
        c as int - 'A' as int + 10
    } else {
        c as int - 'a' as int + 10
    }
}

/// The bytes for which the text of a query stands: a percent sign and two
/// hexadecimal digits for the byte that they name, any other character for its
/// own code.
pub open spec fn decoded(s: Seq<char>) -> Seq<u8>
    decreases s.len(),
{
    if s.len() == 0 {
        Seq::empty()
    } else if s[0] == '%' && s.len() >= 3 {
        seq![(16 * digit_value(s[1]) + digit_value(s[2])) as u8] + decoded(s.skip(3))
    } else {
        seq![s[0] as u8] + decoded(s.skip(1))
    }
}

proof fn lemma_byte_decoded(b: u8, rest: Seq<char>)
    ensures
        decoded(encoded_byte(b) + rest) == seq![b] + decoded(rest),
{
    let all = encoded_byte(b) + rest;
    if is_alphanumeric(b) {
        assert(all.skip(1) =~= rest);
        assert(all[0] == b as char);
    } else {
        assert(all.skip(3) =~= rest);
        assert(all[0] == '%');
        assert(all[1] == hex_capital(b / 16));
        assert(all[2] == hex_capital(b % 16));
        assert(digit_value(all[1]) == b / 16);
        assert(digit_value(all[2]) == b % 16);
        assert(16 * digit_value(all[1]) + digit_value(all[2]) == b);
    }
}

proof fn lemma_bytes_decoded(bytes: Seq<u8>, rest: Seq<char>)
    ensures
        decoded(encoded_bytes(bytes) + rest) == bytes + decoded(rest),
    decreases bytes.len(),
{
    if bytes.len() == 0 {
        assert(encoded_bytes(bytes) + rest =~= rest);
        assert(bytes + decoded(rest) =~= decoded(rest));
    } else {
        let front = bytes.drop_last();
        let last = encoded_byte(bytes.last());
        assert(encoded_bytes(bytes) + rest =~= encoded_bytes(front) + (last + rest));
        lemma_bytes_decoded(front, last + rest);
        lemma_byte_decoded(bytes.last(), rest);
        assert(front + (seq![bytes.last()] + decoded(rest)) =~= bytes + decoded(rest));
    }
}

proof fn lemma_utf8_of_one(c: char)
    ensures
        c as u32 <= 0x7f ==> vstd::utf8::encode_utf8(seq![c]) == seq![c as u8],
{
    let one = seq![c];
    assert(one.drop_first() =~= Seq::<char>::empty());
    assert(vstd::utf8::encode_utf8(one.drop_first()) =~= Seq::<u8>::empty());
    assert(vstd::utf8::encode_utf8(one) =~= vstd::utf8::encode_scalar(c as u32));
    let code = c as u32;
    if code <= 0x7f {
        assert((code & 0x7f) == code) by (bit_vector)
            requires
                code <= 0x7f,
        ;
    }
}

proof fn lemma_utf8_of_last(s: Seq<char>)
    requires
        s.len() > 0,
    ensures
        vstd::utf8::encode_utf8(s) == vstd::utf8::encode_utf8(s.drop_last())
            + vstd::utf8::encode_utf8(seq![s.last()]),
    decreases s.len(),
{
    if s.len() == 1 {
        assert(s =~= seq![s.last()]);
        assert(s.drop_last() =~= Seq::<char>::empty());
        assert(vstd::utf8::encode_utf8(s.drop_last()) =~= Seq::<u8>::empty());
        assert(Seq::<u8>::empty() + vstd::utf8::encode_utf8(s) =~= vstd::utf8::encode_utf8(s));
    } else {
        let rest = s.drop_first();
        lemma_utf8_of_last(rest);
        assert(rest.last() == s.last());
        assert(rest.drop_last() =~= s.drop_last().drop_first());
        assert(s.drop_last()[0] == s[0]);
        assert(vstd::utf8::encode_utf8(s) =~= vstd::utf8::encode_utf8(s.drop_last())
            + vstd::utf8::encode_utf8(seq![s.last()]));
    }
}

proof fn lemma_text_decoded(s: Seq<char>, rest: Seq<char>)
    ensures
        decoded(query_text(s) + rest) == vstd::utf8::encode_utf8(s) + decoded(rest),
    decreases s.len(),
{
    if s.len() == 0 {
        assert(query_text(s) + rest =~= rest);
        assert(vstd::utf8::encode_utf8(s) + decoded(rest) =~= decoded(rest));
    } else {
        let front = s.drop_last();
        let c = s.last();
        let last = query_char(c);
        let bytes = vstd::utf8::encode_utf8(seq![c]);
        assert(query_text(s) + rest =~= query_text(front) + (last + rest));
        lemma_text_decoded(front, last + rest);
        lemma_utf8_of_last(s);
        if is_unreserved_mark(c) {
            lemma_utf8_of_one(c);
            assert((last + rest).skip(1) =~= rest);
        } else {
            lemma_bytes_decoded(bytes, rest);
        }
        assert(decoded(last + rest) =~= bytes + decoded(rest));
        assert(vstd::utf8::encode_utf8(front) + (bytes + decoded(rest))
            =~= vstd::utf8::encode_utf8(s) + decoded(rest));
    }
}

/// Encoding loses nothing: decoded, the text of a query gives the bytes of the
/// text that was encoded.
pub proof fn law_encoded_text_is_decoded(s: Seq<char>)
    ensures
        decoded(query_text(s)) == vstd::utf8::encode_utf8(s),
{
    lemma_text_decoded(s, Seq::empty());
    assert(query_text(s) + Seq::<char>::empty() =~= query_text(s));
    assert(vstd::utf8::encode_utf8(s) + Seq::<u8>::empty() =~= vstd::utf8::encode_utf8(s));
}

/// A text of letters, digits, hyphens, underscores, points and tildes stands in a
/// query as it is.
pub proof fn law_plain_text_stays(s: Seq<char>)
    requires
        forall|i: int|
            0 <= i < s.len() ==> {
                let c = #[trigger] s[i];
                ||| '0' <= c <= '9'
                ||| 'A' <= c <= 'Z'
                ||| 'a' <= c <= 'z'
                ||| c == '-' || c == '_' || c == '.' || c == '~'
            },
    ensures
        query_text(s) == s,
    decreases s.len(),
{
    if s.len() > 0 {
        let front = s.drop_last();
        let c = s.last();
        assert(c == s[s.len() - 1]);
        assert forall|i: int| 0 <= i < front.len() implies {
            let c = #[trigger] front[i];
            ||| '0' <= c <= '9'
            ||| 'A' <= c <= 'Z'
            ||| 'a' <= c <= 'z'
            ||| c == '-' || c == '_' || c == '.' || c == '~'
        } by {
            assert(front[i] == s[i]);
        }
        law_plain_text_stays(front);
        if !is_unreserved_mark(c) {
            lemma_utf8_of_one(c);
            let bytes = vstd::utf8::encode_utf8(seq![c]);
            assert(bytes.drop_last() =~= Seq::<u8>::empty());
            assert(encoded_bytes(bytes.drop_last()) =~= Seq::<char>::empty());
            assert(encoded_bytes(bytes) =~= seq![c]);
        }
        assert(query_text(s) =~= front + seq![c]);
        assert(front + seq![c] =~= s);
    }
}

/// The digits of a signature name its bytes, two digits each, the higher one
/// first.
pub proof fn law_signature_names_its_bytes(code: Seq<u8>, i: int)
    requires
        0 <= i < code.len(),
    ensures
        hex_text(code).len() == 2 * code.len(),
        16 * digit_value(hex_text(code)[2 * i]) + digit_value(hex_text(code)[2 * i + 1]) == code[i],
{
    let b = code[i];
    assert((2 * i) / 2 == i && (2 * i + 1) / 2 == i);
    assert((2 * i) % 2 == 0 && (2 * i + 1) % 2 == 1);
    assert(hex_text(code)[2 * i] == hex_small(b / 16));
    assert(hex_text(code)[2 * i + 1] == hex_small(b % 16));
    assert(digit_value(hex_small(b / 16)) == b / 16);
    assert(digit_value(hex_small(b % 16)) == b % 16);
}

} // verus!

//! JSON as `serde_json` holds it, and how fields are read from it.

use serde_json::Value;
use vstd::prelude::*;

use crate::arith;
use crate::arith::{Arithmetic, Model};
use crate::text;

verus! {

/// `serde_json::Value`, opaque.
#[verifier::external_type_specification]
#[verifier::external_body]
pub struct ExValue(serde_json::Value);

/// What a JSON value holds. A number is known by its text and, where it is a
/// whole number that fits, by its value; an object by its members in the order
/// in which they are kept, no name occurring twice.
pub enum Json {
    Null,
    Bool(bool),
    Number(Seq<char>, Option<u64>),
    Text(Seq<char>),
    List(Seq<Json>),
    Object(Seq<(Seq<char>, Json)>),
}

/// What a value holds.
pub uninterp spec fn json_of(value: Value) -> Json;

/// What a text holds as JSON, or what is wrong with it.
pub uninterp spec fn json_parsed(text: Seq<char>) -> Result<Json, Seq<char>>;

/// The text of a JSON value without blanks.
pub uninterp spec fn json_text(json: Json) -> Seq<char>;

/// The member of an object with the given name.
pub open spec fn find_member(members: Seq<(Seq<char>, Json)>, name: Seq<char>) -> Option<Json>
    decreases members.len(),
{
    if members.len() == 0 {
        None
    } else if members[0].0 == name {
        Some(members[0].1)
    } else {
        find_member(members.skip(1), name)
    }
}

/// The member of a value with the given name; none where the value is no object.
pub open spec fn member_of(json: Json, name: Seq<char>) -> Option<Json> {
    match json {
        Json::Object(members) => find_member(members, name),
        _ => None,
    }
}

/// What the values of a list hold.
pub open spec fn jsons(values: Seq<Value>) -> Seq<Json> {
    Seq::new(values.len(), |i: int| json_of(values[i]))
}

// ---------------------------------------------------------------------------
// Calls into serde_json and std
// ---------------------------------------------------------------------------

/// `serde_json::from_str` into a value: the value that the text holds, or the
/// error as text.
#[verifier::external_body]
pub(crate) fn parse_json(text: &str) -> (outcome: Result<Value, String>)
    ensures
        match outcome {
            Ok(value) => json_parsed(text@) == Ok::<Json, Seq<char>>(json_of(value)),
            Err(message) => json_parsed(text@) == Err::<Json, Seq<char>>(message@),
        },
{
    serde_json::from_str(text).map_err(|e| e.to_string())
}

/// `Value::get` with a name: the member of that name where the value is an
/// object that has it.
#[verifier::external_body]
pub(crate) fn get_member<'a>(value: &'a Value, name: &str) -> (member: Option<&'a Value>)
    ensures
        match member {
            Some(found) => member_of(json_of(*value), name@) == Some(json_of(*found)),
            None => member_of(json_of(*value), name@) is None,
        },
{
    value.get(name)
}

/// A value told apart by its variant.
pub enum Shape<'a> {
    Null,
    Bool(bool),
    Number(String, Option<u64>),
    Text(&'a String),
    List(&'a Vec<Value>),
    Object,
}

/// Whether a shape is that of a value.
pub open spec fn is_shape_of(shape: Shape, json: Json) -> bool {
    match shape {
        Shape::Null => json == Json::Null,
        Shape::Bool(flag) => json == Json::Bool(flag),
        Shape::Number(digits, whole) => json == Json::Number(digits@, whole),
        Shape::Text(text) => json == Json::Text(text@),
        Shape::List(values) => json == Json::List(jsons(values@)),
        Shape::Object => json is Object,
    }
}

/// The variant of a `serde_json::Value` with what it holds. Of a number that is
/// its text, by `Number::to_string`, and its value where it is whole, not
/// negative and fits, by `Number::as_u64`.
#[verifier::external_body]
pub(crate) fn shape_of<'a>(value: &'a Value) -> (shape: Shape<'a>)
    ensures
        is_shape_of(shape, json_of(*value)),
{
    match value {
        Value::Null => Shape::Null,
        Value::Bool(flag) => Shape::Bool(*flag),
        Value::Number(number) => Shape::Number(number.to_string(), number.as_u64()),
        Value::String(text) => Shape::Text(text),
        Value::Array(values) => Shape::List(values),
        Value::Object(_) => Shape::Object,
    }
}

/// `Value::to_string`: the text of a value without blanks.
#[verifier::external_body]
pub(crate) fn render(value: &Value) -> (text: String)
    ensures
        text@ == json_text(json_of(*value)),
{
    value.to_string()
}

/// What `str::parse` says of a text that is no `u64`.
pub uninterp spec fn u64_complaint(text: Seq<char>) -> Seq<char>;

/// What `str::parse` says of a text that is no `u32`.
pub uninterp spec fn u32_complaint(text: Seq<char>) -> Seq<char>;

/// What `str::parse` says of a text that is no `bool`.
pub uninterp spec fn bool_complaint(text: Seq<char>) -> Seq<char>;

/// The number that digits spell in base ten.
pub open spec fn digits_value(digits: Seq<char>) -> nat
    decreases digits.len(),
{
    if digits.len() == 0 {
        0
    } else {
        digits_value(digits.drop_last()) * 10 + (digits.last() as nat - '0' as nat) as nat
    }
}

/// Whether a text is one or more decimal digits.
pub open spec fn all_digits(s: Seq<char>) -> bool {
    s.len() > 0 && forall|i: int| 0 <= i < s.len() ==> '0' <= #[trigger] s[i] <= '9'
}

/// The number that a text spells: one or more digits, with or without a plus
/// sign before them.
pub open spec fn spelled(s: Seq<char>) -> Option<nat> {
    let digits = if s.len() > 0 && s[0] == '+' {
        s.skip(1)
    } else {
        s
    };
    if all_digits(digits) {
        Some(digits_value(digits))
    } else {
        None
    }
}

/// `str::parse` into a `u64`: the number that the text spells where there is one
/// that fits.
#[verifier::external_body]
pub(crate) fn parse_u64(text: &str) -> (outcome: Result<u64, String>)
    ensures
        match outcome {
            Ok(number) => spelled(text@) == Some(number as nat),
            Err(message) => message@ == u64_complaint(text@) && (spelled(text@) matches Some(n)
                ==> n > u64::MAX),
        },
{
    text.parse::<u64>().map_err(|e| e.to_string())
}

/// `str::parse` into a `u32`: the number that the text spells where there is one
/// that fits.
#[verifier::external_body]
pub(crate) fn parse_u32(text: &str) -> (outcome: Result<u32, String>)
    ensures
        match outcome {
            Ok(number) => spelled(text@) == Some(number as nat),
            Err(message) => message@ == u32_complaint(text@) && (spelled(text@) matches Some(n)
                ==> n > u32::MAX),
        },
{
    text.parse::<u32>().map_err(|e| e.to_string())
}

/// `str::parse` into a `bool`: exactly the words `true` and `false` are read.
#[verifier::external_body]
pub(crate) fn parse_bool(text: &str) -> (outcome: Result<bool, String>)
    ensures
        match outcome {
            Ok(true) => text@ == "true"@,
            Ok(false) => text@ == "false"@,
            Err(message) => message@ == bool_complaint(text@) && text@ != "true"@ && text@
                != "false"@,
        },
{
    text.parse::<bool>().map_err(|e| e.to_string())
}

// ---------------------------------------------------------------------------
// Fields
// ---------------------------------------------------------------------------

/// `Field '<field>' <rest>`.
pub open spec fn field_message(field: Seq<char>, rest: Seq<char>) -> Seq<char> {
    "Field '"@ + field + "' "@ + rest
}

/// `string '<text>' is not a valid <kind>: <complaint>`.
pub open spec fn bad_string(
    text: Seq<char>,
    kind: Seq<char>,
    complaint: Seq<char>,
) -> Seq<char> {
    "string '"@ + text + "' is not a valid "@ + kind + ": "@ + complaint
}

/// The whole number in a field: a number, or a string that spells one.
pub open spec fn u64_field(json: Json, field: Seq<char>) -> Result<u64, Seq<char>> {
    match member_of(json, field) {
        Some(Json::Number(_, Some(whole))) => Ok(whole),
        Some(Json::Number(_, None)) => Err(field_message(field, "is not a valid u64 number"@)),
        Some(Json::Text(text)) => match spelled(text) {
            Some(n) if n <= u64::MAX => Ok(n as u64),
            _ => Err(field_message(field, bad_string(text, "u64"@, u64_complaint(text)))),
        },
        Some(other) => Err(field_message(field, "has unexpected type: "@ + json_text(other))),
        None => Err(field_message(field, "not found in response"@)),
    }
}

/// The whole number in a field that has to fit in 32 bits.
pub open spec fn u32_field(json: Json, field: Seq<char>) -> Result<u32, Seq<char>> {
    match member_of(json, field) {
        Some(Json::Number(_, whole)) => match whole {
            Some(n) if n <= u32::MAX => Ok(n as u32),
            _ => Err(field_message(field, "is not a valid u32 number"@)),
        },
        Some(Json::Text(text)) => match spelled(text) {
            Some(n) if n <= u32::MAX => Ok(n as u32),
            _ => Err(field_message(field, bad_string(text, "u32"@, u32_complaint(text)))),
        },
        Some(other) => Err(field_message(field, "has unexpected type: "@ + json_text(other))),
        None => Err(field_message(field, "not found in response"@)),
    }
}

/// The string in a field.
pub open spec fn string_field(json: Json, field: Seq<char>) -> Result<Seq<char>, Seq<char>> {
    match member_of(json, field) {
        Some(Json::Text(text)) => Ok(text),
        Some(other) => Err(field_message(field, "expected string, got: "@ + json_text(other))),
        None => Err(field_message(field, "not found in response"@)),
    }
}

/// The truth value in a field: a boolean, or a string that spells one.
pub open spec fn bool_field(json: Json, field: Seq<char>) -> Result<bool, Seq<char>> {
    match member_of(json, field) {
        Some(Json::Bool(flag)) => Ok(flag),
        Some(Json::Text(text)) => if text == "true"@ {
            Ok(true)
        } else if text == "false"@ {
            Ok(false)
        } else {
            Err(field_message(field, bad_string(text, "bool"@, bool_complaint(text))))
        },
        Some(other) => Err(field_message(field, "expected bool, got: "@ + json_text(other))),
        None => Err(field_message(field, "not found in response"@)),
    }
}

/// The number in a field: a number, or a string that spells one.
pub open spec fn number_field<F>(m: Model<F>, json: Json, field: Seq<char>) -> Result<
    F,
    Seq<char>,
> {
    match member_of(json, field) {
        Some(Json::Number(digits, _)) => match (m.parse)(digits) {
            Ok(number) => Ok(number),
            Err(_) => Err(field_message(field, "is not a valid f64 number"@)),
        },
        Some(Json::Text(text)) => match (m.parse)(text) {
            Ok(number) => Ok(number),
            Err(complaint) => Err(field_message(field, bad_string(text, "f64"@, complaint))),
        },
        Some(other) => Err(field_message(field, "has unexpected type: "@ + json_text(other))),
        None => Err(field_message(field, "not found in response"@)),
    }
}

/// An outcome with its message as characters.
pub open spec fn outcome_view<T>(outcome: Result<T, String>) -> Result<T, Seq<char>> {
    match outcome {
        Ok(value) => Ok(value),
        Err(message) => Err(message@),
    }
}

/// An outcome that is a string, as characters.
pub open spec fn text_outcome(outcome: Result<String, String>) -> Result<Seq<char>, Seq<char>> {
    match outcome {
        Ok(value) => Ok(value@),
        Err(message) => Err(message@),
    }
}

/// `Field '<field>' <rest>`.
fn field_text(field: &str, rest: &str) -> (message: String)
    ensures
        message@ == field_message(field@, rest@),
{
    let mut message: String = "Field '".to_string();
    message.append(field);
    message.append("' ");
    message.append(rest);
    message
}

/// `string '<text>' is not a valid <kind>: <complaint>`.
fn bad_string_text(text: &str, kind: &str, complaint: &str) -> (message: String)
    ensures
        message@ == bad_string(text@, kind@, complaint@),
{
    let mut message: String = "string '".to_string();
    message.append(text);
    message.append("' is not a valid ");
    message.append(kind);
    message.append(": ");
    message.append(complaint);
    message
}

/// `Field '<field>' <lead><value>`.
fn unexpected(field: &str, lead: &str, value: &Value) -> (message: String)
    ensures
        message@ == field_message(field@, lead@ + json_text(json_of(*value))),
{
    let mut rest: String = lead.to_string();
    rest.append(&render(value));
    field_text(field, &rest)
}

/// The number in a field: a number, or a string that spells one.
pub fn extract_f64<F: Copy, A: Arithmetic<F>>(a: &A, value: &Value, field: &str) -> (outcome:
    Result<F, String>)
    ensures
        forall|m: Model<F>| #[trigger]
            arith::describes(m, *a) ==> outcome_view(outcome) == number_field(
                m,
                json_of(*value),
                field@,
            ),
{
    match get_member(value, field) {
        Some(found) => match shape_of(found) {
            Shape::Number(digits, _) => match arith::parse(a, &digits) {
                Ok(parsed) => Ok(parsed),
                Err(_) => Err(field_text(field, "is not a valid f64 number")),
            },
            Shape::Text(text) => match arith::parse(a, text) {
                Ok(parsed) => Ok(parsed),
                Err(complaint) => Err(
                    field_text(field, &bad_string_text(text, "f64", &complaint)),
                ),
            },
            _ => Err(unexpected(field, "has unexpected type: ", found)),
        },
        None => Err(field_text(field, "not found in response")),
    }
}

/// The whole number in a field: a number, or a string that spells one.
pub fn extract_u64(value: &Value, field: &str) -> (outcome: Result<u64, String>)
    ensures
        outcome_view(outcome) == u64_field(json_of(*value), field@),
{
    match get_member(value, field) {
        Some(found) => match shape_of(found) {
            Shape::Number(_, whole) => match whole {
                Some(n) => Ok(n),
                None => Err(field_text(field, "is not a valid u64 number")),
            },
            Shape::Text(text) => match parse_u64(text) {
                Ok(parsed) => Ok(parsed),
                Err(complaint) => Err(
                    field_text(field, &bad_string_text(text, "u64", &complaint)),
                ),
            },
            _ => Err(unexpected(field, "has unexpected type: ", found)),
        },
        None => Err(field_text(field, "not found in response")),
    }
}

/// The whole number in a field that has to fit in 32 bits.
pub fn extract_u32(value: &Value, field: &str) -> (outcome: Result<u32, String>)
    ensures
        outcome_view(outcome) == u32_field(json_of(*value), field@),
{
    match get_member(value, field) {
        Some(found) => match shape_of(found) {
            Shape::Number(_, whole) => match whole {
                Some(n) => if n <= u32::MAX as u64 {
                    Ok(n as u32)
                } else {
                    Err(field_text(field, "is not a valid u32 number"))
                },
                None => Err(field_text(field, "is not a valid u32 number")),
            },
            Shape::Text(text) => match parse_u32(text) {
                Ok(parsed) => Ok(parsed),
                Err(complaint) => Err(
                    field_text(field, &bad_string_text(text, "u32", &complaint)),
                ),
            },
            _ => Err(unexpected(field, "has unexpected type: ", found)),
        },
        None => Err(field_text(field, "not found in response")),
    }
}

/// The string in a field.
pub fn extract_string(value: &Value, field: &str) -> (outcome: Result<String, String>)
    ensures
        text_outcome(outcome) == string_field(json_of(*value), field@),
{
    match get_member(value, field) {
        Some(found) => match shape_of(found) {
            Shape::Text(text) => Ok(text.clone()),
            _ => Err(unexpected(field, "expected string, got: ", found)),
        },
        None => Err(field_text(field, "not found in response")),
    }
}

/// The truth value in a field: a boolean, or a string that spells one.
pub fn extract_bool(value: &Value, field: &str) -> (outcome: Result<bool, String>)
    ensures
        outcome_view(outcome) == bool_field(json_of(*value), field@),
{
    proof {
        reveal_strlit("true");
        reveal_strlit("false");
        assert("true"@.len() != "false"@.len());
    }
    match get_member(value, field) {
        Some(found) => match shape_of(found) {
            Shape::Bool(flag) => Ok(flag),
            Shape::Text(text) => match parse_bool(text) {
                Ok(parsed) => Ok(parsed),
                Err(complaint) => Err(
                    field_text(field, &bad_string_text(text, "bool", &complaint)),
                ),
            },
            _ => Err(unexpected(field, "expected bool, got: ", found)),
        },
        None => Err(field_text(field, "not found in response")),
    }
}

/// The numeral of a number is read as that number, with or without a plus sign.
pub proof fn law_numeral_is_read_back(n: nat)
    ensures
        spelled(text::decimal(n)) == Some(n),
        spelled(seq!['+'] + text::decimal(n)) == Some(n),
{
    let digits = text::decimal(n);
    text::lemma_decimal_digits(n);
    text::lemma_decimal_nonempty(n);
    lemma_digits_value(n);
    assert('0' <= digits[0] <= '9');
    let signed = seq!['+'] + digits;
    assert(signed.skip(1) =~= digits);
}

proof fn lemma_digits_value(n: nat)
    ensures
        digits_value(text::decimal(n)) == n,
    decreases n,
{
    let digits = text::decimal(n);
    assert(digits_value(Seq::<char>::empty()) == 0);
    assert(text::digit_char(n % 10) as nat == '0' as nat + n % 10);
    if n < 10 {
        assert(digits.drop_last() =~= Seq::<char>::empty());
        assert(n % 10 == n);
    } else {
        lemma_digits_value(n / 10);
        assert(digits.drop_last() =~= text::decimal(n / 10));
    }
}

/// A text with anything but digits in it, save a plus sign before them, or with
/// none at all is no number.
pub proof fn law_other_text_is_no_number(s: Seq<char>, i: int)
    ensures
        s.len() == 0 ==> spelled(s) is None,
        0 <= i < s.len() && !('0' <= s[i] <= '9') && !(i == 0 && s[i] == '+') ==> spelled(s) is None,
        s.len() == 1 && s[0] == '+' ==> spelled(s) is None,
{
    if 0 <= i < s.len() && s[0] == '+' && i > 0 {
        assert(s.skip(1)[i - 1] == s[i]);
    }
}

} // verus!

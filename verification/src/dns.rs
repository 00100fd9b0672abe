use vstd::prelude::*;

use crate::cert::string_views;
use crate::text::{
    ascii_lowercase, chars_equal_str, chars_of, decimal, decimal_text, same_chars,
    string_from_chars, to_ascii_lowercase, trim, trim_matches, trimmed, trimmed_matches,
    utf8_len_at_most,
};
use vstd::utf8::{decode_utf8, encode_utf8, is_char_boundary};

verus! {

/// A JSON value as the DNS API answers with it. A number keeps the `i64` it
/// stands for, where it is an integer in `i64`'s range (what `as_i64` gives);
/// an object keeps its entries in order, each key once.
#[derive(Debug)]
pub enum Json {
    Null,
    Bool(bool),
    Number(Option<i64>),
    Str(String),
    Array(Vec<Json>),
    Object(Vec<(String, Json)>),
}

/// The value of the first entry with key `key`.
pub open spec fn entry_lookup(entries: Seq<(String, Json)>, key: Seq<char>) -> Option<Json>
    decreases entries.len(),
{
    if entries.len() == 0 {
        None
    } else if entries[0].0@ == key {
        Some(entries[0].1)
    } else {
        entry_lookup(entries.drop_first(), key)
    }
}

/// The value under `key` of an object; `None` for a missing key or a value that
/// is no object (`Value::get`).
pub open spec fn json_get(j: Json, key: Seq<char>) -> Option<Json> {
    match j {
        Json::Object(entries) => entry_lookup(entries@, key),
        _ => None,
    }
}

/// The value under `key`, or `Null` where there is none (`Value`'s indexing).
pub open spec fn json_field(j: Json, key: Seq<char>) -> Json {
    match json_get(j, key) {
        Some(v) => v,
        None => Json::Null,
    }
}

/// The text of a string value.
pub open spec fn json_as_str(j: Json) -> Option<Seq<char>> {
    match j {
        Json::Str(s) => Some(s@),
        _ => None,
    }
}

impl Json {
    /// The value under `key` of an object.
    pub fn get(&self, key: &str) -> (r: Option<&Json>)
        ensures
            r is Some <==> json_get(*self, key@) is Some,
            r matches Some(v) ==> json_get(*self, key@) == Some(*v),
    {
        match self {
            Json::Object(entries) => {
                let k = chars_of(key);
                let mut i: usize = 0;
                assert(entries@.skip(0) =~= entries@);
                while i < entries.len()
                    invariant
                        0 <= i <= entries.len(),
                        k@ == key@,
                        json_get(*self, key@) == entry_lookup(entries@, key@),
                        entry_lookup(entries@, key@) == entry_lookup(entries@.skip(i as int), key@),
                    decreases entries.len() - i,
                {
                    let ghost rest = entries@.skip(i as int);
                    assert(rest[0] == entries@[i as int]);
                    assert(rest.drop_first() =~= entries@.skip(i + 1));
                    let kc = chars_of(entries[i].0.as_str());
                    if crate::text::same_chars(&kc, &k) {
                        return Some(&entries[i].1);
                    }
                    i = i + 1;
                }
                None
            },
            _ => None,
        }
    }
}

/// The words that the DNS API uses for success in a status field (after trimming
/// and ASCII lower-casing).
pub open spec fn is_success_word(w: Seq<char>) -> bool {
    ||| w == "0"@
    ||| w == "1"@
    ||| w == "ok"@
    ||| w == "true"@
    ||| w == "success"@
    ||| w == "successful"@
    ||| w == "200"@
}

/// Whether a status value reports success: `true`; the integers 0, 1 and 200;
/// or a text that is a success word once trimmed and lower-cased.
pub open spec fn spec_success_value(v: Json) -> bool {
    match v {
        Json::Bool(b) => b,
        Json::Number(n) => n matches Some(x) && (x == 0 || x == 1 || x == 200),
        Json::Str(s) => is_success_word(ascii_lowercase(trim(s@))),
        _ => false,
    }
}

/// Whether a status value reports success (see `spec_success_value`).
pub fn success_value(value: &Json) -> (r: bool)
    ensures
        r == spec_success_value(*value),
{
    match value {
        Json::Bool(b) => *b,
        Json::Number(n) => match n {
            Some(x) => *x == 0 || *x == 1 || *x == 200,
            None => false,
        },
        Json::Str(s) => {
            let chars = chars_of(s.as_str());
            let t = trimmed(&chars);
            let w = to_ascii_lowercase(&t);
            crate::text::chars_equal_str(&w, "0") || crate::text::chars_equal_str(&w, "1")
                || crate::text::chars_equal_str(&w, "ok") || crate::text::chars_equal_str(&w, "true")
                || crate::text::chars_equal_str(&w, "success") || crate::text::chars_equal_str(
                &w,
                "successful",
            ) || crate::text::chars_equal_str(&w, "200")
        },
        _ => false,
    }
}

/// Why the DNS API's answer counts as refused.
#[derive(Debug, PartialEq, Eq, Structural)]
pub enum ApiRejection {
    /// A status field (`code`, `status`, `result` or `success`) reports failure.
    Failure,
    /// No status field, but an `error` or `errors` field.
    Error,
}

/// The verdict on an answer of the DNS API: the first of `code`, `status` and
/// `result` that is present decides; else `success`, which must be `true`; else
/// an `error` or `errors` field refuses; else the answer is accepted.
pub open spec fn api_verdict(j: Json) -> Result<(), ApiRejection> {
    if let Some(v) = json_get(j, "code"@) {
        if spec_success_value(v) { Ok(()) } else { Err(ApiRejection::Failure) }
    } else if let Some(v) = json_get(j, "status"@) {
        if spec_success_value(v) { Ok(()) } else { Err(ApiRejection::Failure) }
    } else if let Some(v) = json_get(j, "result"@) {
        if spec_success_value(v) { Ok(()) } else { Err(ApiRejection::Failure) }
    } else if let Some(v) = json_get(j, "success"@) {
        if v == Json::Bool(true) { Ok(()) } else { Err(ApiRejection::Failure) }
    } else if json_get(j, "error"@) is Some || json_get(j, "errors"@) is Some {
        Err(ApiRejection::Error)
    } else {
        Ok(())
    }
}

/// Law: the status fields decide in the order `code`, `status`, `result`: the first
/// one present accepts the answer exactly when `success_value` accepts its value,
/// whatever the later fields hold. Without any of them, a `success` field accepts
/// exactly when it is `true`; without that too, an `error` or `errors` field
/// refuses with `Error`; an answer with none of these fields is accepted.
pub proof fn law_status_fields_decide(j: Json)
    ensures
        json_get(j, "code"@) matches Some(v) ==> (api_verdict(j) is Ok <==> spec_success_value(v)),
        json_get(j, "code"@) is None ==> (json_get(j, "status"@) matches Some(v) ==> (api_verdict(
            j,
        ) is Ok <==> spec_success_value(v))),
        json_get(j, "code"@) is None ==> (json_get(j, "status"@) is None ==> (json_get(
            j,
            "result"@,
        ) matches Some(v) ==> (api_verdict(j) is Ok <==> spec_success_value(v)))),
        json_get(j, "code"@) is None && json_get(j, "status"@) is None && json_get(j, "result"@)
            is None ==> (json_get(j, "success"@) matches Some(v) ==> (api_verdict(j) is Ok <==> v
            == Json::Bool(true))),
        json_get(j, "code"@) is None && json_get(j, "status"@) is None && json_get(j, "result"@)
            is None && json_get(j, "success"@) is None ==> (api_verdict(j) is Ok <==> (json_get(
            j,
            "error"@,
        ) is None && json_get(j, "errors"@) is None)),
        api_verdict(j) is Err ==> (api_verdict(j) == Err::<(), ApiRejection>(ApiRejection::Error)
            <==> (json_get(j, "code"@) is None && json_get(j, "status"@) is None && json_get(
            j,
            "result"@,
        ) is None && json_get(j, "success"@) is None)),
{
}

/// Law: a status value counts as success when it is `true`, or one of the
/// integers 0, 1 and 200; never when it is `false`, another integer, a number
/// that is no `i64`, null, an array or an object. A string counts when, trimmed
/// of white space and with ASCII letters lower-cased, it is one of `0`, `1`,
/// `ok`, `true`, `success`, `successful` and `200`.
pub proof fn law_success_values(v: Json)
    ensures
        v matches Json::Str(s) ==> (spec_success_value(v) <==> ({
            let w = ascii_lowercase(trim(s@));
            ||| w == "0"@
            ||| w == "1"@
            ||| w == "ok"@
            ||| w == "true"@
            ||| w == "success"@
            ||| w == "successful"@
            ||| w == "200"@
        })),
        v matches Json::Bool(b) ==> (spec_success_value(v) <==> b),
        v matches Json::Number(Some(n)) ==> (spec_success_value(v) <==> (n == 0 || n == 1 || n
            == 200)),
        v matches Json::Number(None) ==> !spec_success_value(v),
        v matches Json::Null ==> !spec_success_value(v),
        v matches Json::Array(_) ==> !spec_success_value(v),
        v matches Json::Object(_) ==> !spec_success_value(v),
{
}

/// Checks an answer of the DNS API (see `api_verdict`).
pub fn ensure_api_success(json: &Json) -> (r: Result<(), ApiRejection>)
    ensures
        r == api_verdict(*json),
{
    if let Some(v) = json.get("code") {
        return if success_value(v) { Ok(()) } else { Err(ApiRejection::Failure) };
    }
    if let Some(v) = json.get("status") {
        return if success_value(v) { Ok(()) } else { Err(ApiRejection::Failure) };
    }
    if let Some(v) = json.get("result") {
        return if success_value(v) { Ok(()) } else { Err(ApiRejection::Failure) };
    }
    if let Some(v) = json.get("success") {
        return match v {
            Json::Bool(true) => Ok(()),
            _ => Err(ApiRejection::Failure),
        };
    }
    if json.get("error").is_some() || json.get("errors").is_some() {
        return Err(ApiRejection::Error);
    }
    Ok(())
}

/// An answer text cut to its first 600 bytes, with `...` appended, where it is
/// longer than that.
pub open spec fn compact_text(t: Seq<char>) -> Seq<char> {
    let b = encode_utf8(t);
    if b.len() > 600 {
        decode_utf8(b.take(600)) + "..."@
    } else {
        t
    }
}

/// A serialized answer, shortened for an error message (see `compact_text`).
/// The cut must fall between characters.
pub fn compact_json(text: &str) -> (r: String)
    requires
        encode_utf8(text@).len() > 600 ==> is_char_boundary(encode_utf8(text@), 600),
    ensures
        r@ == compact_text(text@),
{
    let chars = chars_of(text);
    if utf8_len_at_most(&chars, 600) {
        text.to_owned()
    } else {
        let (head, _) = text.split_at(600);
        proof {
            vstd::utf8::encode_utf8_decode_utf8(head@);
        }
        let mut r = head.to_owned();
        r.append("...");
        r
    }
}

/// The start of the error message for a refused answer.
pub open spec fn rejection_prefix(kind: ApiRejection) -> Seq<char> {
    match kind {
        ApiRejection::Failure => "west.cn API returned failure: "@,
        ApiRejection::Error => "west.cn API returned error: "@,
    }
}

impl ApiRejection {
    /// The error message for a refused answer whose serialized form is `json_text`.
    pub fn message(&self, json_text: &str) -> (r: String)
        requires
            encode_utf8(json_text@).len() > 600 ==> is_char_boundary(encode_utf8(json_text@), 600),
        ensures
            r@ == rejection_prefix(*self) + compact_text(json_text@),
    {
        let mut r = match self {
            ApiRejection::Failure => "west.cn API returned failure: ".to_owned(),
            ApiRejection::Error => "west.cn API returned error: ".to_owned(),
        };
        let c = compact_json(json_text);
        r.append(c.as_str());
        r
    }
}

/// What the GBK decoder of `encoding_rs` (with its byte-order-mark sniffing)
/// makes of a byte sequence.
pub uninterp spec fn spec_gbk_decode(bytes: Seq<u8>) -> Seq<char>;

/// `encoding_rs::GBK.decode`: the text of `bytes`, decoded as GBK unless a
/// byte-order mark names another encoding. The contract names the result.
#[verifier::external_body]
fn gbk_decode(bytes: &[u8]) -> (r: String)
    ensures
        r@ == spec_gbk_decode(bytes@),
{
    let (text, _, _) = encoding_rs::GBK.decode(bytes);
    text.into_owned()
}

/// The text of a DNS API answer body, which the API sends in GBK.
pub fn response_text(body: &[u8]) -> (r: String)
    ensures
        r@ == spec_gbk_decode(body@),
{
    gbk_decode(body)
}

/// serde_json's JSON value type, held opaquely.
#[verifier::external_type_specification]
#[verifier::external_body]
pub struct ExJsonValue(serde_json::Value);

/// Converts a value read by serde_json into the library's model, variant by
/// variant: a number keeps `as_i64`, arrays and objects are converted element by
/// element in serde_json's order.
#[verifier::external_body]
fn json_of_value(v: &serde_json::Value) -> Json {
    match v {
        serde_json::Value::Null => Json::Null,
        serde_json::Value::Bool(b) => Json::Bool(*b),
        serde_json::Value::Number(n) => Json::Number(n.as_i64()),
        serde_json::Value::String(s) => Json::Str(s.clone()),
        serde_json::Value::Array(a) => Json::Array(a.iter().map(json_of_value).collect()),
        serde_json::Value::Object(m) => Json::Object(
            m.iter().map(|(k, v)| (k.clone(), json_of_value(v))).collect(),
        ),
    }
}

/// The JSON value that `serde_json::from_str` reads from a text, in the
/// library's model (see `json_of_value`); `None` where the text is no JSON.
pub uninterp spec fn spec_parse_json(text: Seq<char>) -> Option<Json>;

/// The compact serialization (`Value`'s `Display`) of the JSON value that
/// serde_json reads from a text.
pub uninterp spec fn spec_json_compact(text: Seq<char>) -> Seq<char>;

/// `serde_json::from_str::<serde_json::Value>`, the value converted to the
/// library's model, with its compact serialization (`to_string`). The contract
/// names both results.
#[verifier::external_body]
fn parse_json(text: &str) -> (r: Option<(Json, String)>)
    ensures
        r is Some <==> spec_parse_json(text@) is Some,
        r matches Some((j, c)) ==> spec_parse_json(text@) == Some(j) && c@ == spec_json_compact(
            text@,
        ),
{
    let v: serde_json::Value = serde_json::from_str(text).ok()?;
    Some((json_of_value(&v), v.to_string()))
}

/// Why an answer of the DNS API is not accepted.
#[derive(Debug)]
pub enum AnswerError {
    /// The body is no JSON text.
    Parse,
    /// The answer refuses the request; `compact` is its compact serialization.
    Rejected { kind: ApiRejection, compact: String },
}

/// Reads and checks a DNS API answer body: decoded from GBK, read as JSON, then
/// judged by `api_verdict`. The accepted answer is returned.
pub fn check_answer(body: &[u8]) -> (r: Result<Json, AnswerError>)
    ensures
        spec_parse_json(spec_gbk_decode(body@)) is None ==> r matches Err(AnswerError::Parse),
        spec_parse_json(spec_gbk_decode(body@)) matches Some(j) ==> match api_verdict(j) {
            Ok(()) => r == Ok::<Json, AnswerError>(j),
            Err(k) => r matches Err(AnswerError::Rejected { kind, compact }) && kind == k && compact@
                == spec_json_compact(spec_gbk_decode(body@)),
        },
{
    let text = response_text(body);
    match parse_json(text.as_str()) {
        None => Err(AnswerError::Parse),
        Some((json, compact)) => match ensure_api_success(&json) {
            Ok(()) => Ok(json),
            Err(kind) => Err(AnswerError::Rejected { kind, compact }),
        },
    }
}

/// The text under `key`, where that value is a string.
pub open spec fn str_at(item: Json, key: Seq<char>) -> Option<Seq<char>> {
    match json_get(item, key) {
        Some(Json::Str(s)) => Some(s@),
        _ => None,
    }
}

/// The value of a listed DNS record: the first of `record_value`, `value` and
/// `record` that holds a string.
pub open spec fn spec_record_value(item: Json) -> Option<Seq<char>> {
    if str_at(item, "record_value"@) is Some {
        str_at(item, "record_value"@)
    } else if str_at(item, "value"@) is Some {
        str_at(item, "value"@)
    } else {
        str_at(item, "record"@)
    }
}

/// Whether a listed record's value is `expected`, as it is or between quotes.
pub open spec fn spec_record_value_matches(item: Json, expected: Seq<char>) -> bool {
    match spec_record_value(item) {
        Some(v) => v == expected || trim_matches(v, '"') == expected,
        None => false,
    }
}

fn str_field<'a>(item: &'a Json, key: &str) -> (r: Option<&'a String>)
    ensures
        r is Some <==> str_at(*item, key@) is Some,
        r matches Some(s) ==> str_at(*item, key@) == Some(s@),
{
    match item.get(key) {
        Some(Json::Str(s)) => Some(s),
        _ => None,
    }
}

/// The value of a listed DNS record (see `spec_record_value`).
pub fn record_value(item: &Json) -> (r: Option<&String>)
    ensures
        r is Some <==> spec_record_value(*item) is Some,
        r matches Some(s) ==> spec_record_value(*item) == Some(s@),
{
    if let Some(s) = str_field(item, "record_value") {
        return Some(s);
    }
    if let Some(s) = str_field(item, "value") {
        return Some(s);
    }
    str_field(item, "record")
}

/// Whether a listed record's value is `expected` (see `spec_record_value_matches`).
pub fn record_value_matches(item: &Json, expected: &str) -> (r: bool)
    ensures
        r == spec_record_value_matches(*item, expected@),
{
    match record_value(item) {
        Some(v) => {
            let vc = chars_of(v.as_str());
            let ec = chars_of(expected);
            same_chars(&vc, &ec) || same_chars(&trimmed_matches(&vc, '"'), &ec)
        },
        None => false,
    }
}

/// A TXT record that this process created for a challenge: its zone, host name
/// and value.
#[derive(Debug)]
pub struct TxtRecord {
    pub zone: String,
    pub hostname: String,
    pub value: String,
}

/// Whether a listed item is the TXT record `rec`: same host name, type `TXT`,
/// and a value that matches `rec`'s (see `spec_record_value_matches`).
pub open spec fn item_matches(item: Json, rec: TxtRecord) -> bool {
    &&& json_as_str(json_field(item, "hostname"@)) == Some(rec.hostname@)
    &&& json_as_str(json_field(item, "record_type"@)) == Some("TXT"@)
    &&& spec_record_value_matches(item, rec.value@)
}

/// The id of a listed record as text: its `record_id` as a decimal integer or a
/// string; empty where it is neither.
pub open spec fn record_id(item: Json) -> Seq<char> {
    match json_field(item, "record_id"@) {
        Json::Number(Some(n)) => decimal(n as int),
        Json::Str(s) => s@,
        _ => seq![],
    }
}

/// The ids of the items that are `rec` and have an id, in listing order.
pub open spec fn removal_ids(items: Seq<Json>, rec: TxtRecord) -> Seq<Seq<char>>
    decreases items.len(),
{
    if items.len() == 0 {
        seq![]
    } else {
        let prev = removal_ids(items.drop_last(), rec);
        let it = items.last();
        if item_matches(it, rec) && record_id(it).len() > 0 {
            prev.push(record_id(it))
        } else {
            prev
        }
    }
}

/// The items of a record listing: `body.items` where that is an array.
pub open spec fn listed_items(listing: Json) -> Seq<Json> {
    match json_field(json_field(listing, "body"@), "items"@) {
        Json::Array(items) => items@,
        _ => seq![],
    }
}

/// The ids of the records to remove after a challenge: those of `listing`'s items
/// that are the record `rec`.
pub open spec fn spec_records_to_remove(listing: Json, rec: TxtRecord) -> Seq<Seq<char>> {
    removal_ids(listed_items(listing), rec)
}

fn str_is(j: Option<&Json>, expected: &str) -> (r: bool)
    ensures
        r == (json_as_str(
            match j {
                Some(v) => *v,
                None => Json::Null,
            },
        ) == Some(expected@)),
{
    match j {
        Some(Json::Str(s)) => {
            let c = chars_of(s.as_str());
            chars_equal_str(&c, expected)
        },
        _ => false,
    }
}

/// The id of a listed record as text (see `record_id`).
pub fn listed_record_id(item: &Json) -> (r: Vec<char>)
    ensures
        r@ == record_id(*item),
{
    match item.get("record_id") {
        Some(Json::Number(Some(n))) => decimal_text(*n),
        Some(Json::Str(s)) => chars_of(s.as_str()),
        _ => Vec::new(),
    }
}

/// Whether a listed item is the TXT record `rec` (see `item_matches`).
pub fn is_created_record(item: &Json, rec: &TxtRecord) -> (r: bool)
    ensures
        r == item_matches(*item, *rec),
{
    str_is(item.get("hostname"), rec.hostname.as_str()) && str_is(item.get("record_type"), "TXT")
        && record_value_matches(item, rec.value.as_str())
}

/// The ids of the records to delete for `record`, from the answer to a listing
/// of its zone (see `spec_records_to_remove`).
pub fn records_to_remove(listing: &Json, record: &TxtRecord) -> (r: Vec<String>)
    ensures
        string_views(r@) == spec_records_to_remove(*listing, *record),
{
    let mut out: Vec<String> = Vec::new();
    let body = match listing.get("body") {
        Some(b) => b,
        None => return out,
    };
    let items = match body.get("items") {
        Some(Json::Array(items)) => items,
        _ => {
            assert(string_views(out@) =~= Seq::<Seq<char>>::empty());
            return out;
        },
    };
    assert(listed_items(*listing) == items@);
    let mut i: usize = 0;
    assert(items@.take(0) =~= Seq::<Json>::empty());
    assert(string_views(out@) =~= Seq::<Seq<char>>::empty());
    while i < items.len()
        invariant
            0 <= i <= items.len(),
            string_views(out@) == removal_ids(items@.take(i as int), *record),
        decreases items.len() - i,
    {
        let item = &items[i];
        proof {
            let t = items@.take(i + 1);
            assert(t.drop_last() =~= items@.take(i as int));
            assert(t.last() == *item);
        }
        if is_created_record(item, record) {
            let id = listed_record_id(item);
            if id.len() > 0 {
                let ghost before = out@;
                out.push(string_from_chars(&id));
                assert(string_views(out@) =~= string_views(before).push(id@));
            }
        }
        i = i + 1;
    }
    assert(items@.take(items.len() as int) =~= items@);
    out
}

/// Law: cleanup removes only records that this process created. Every id chosen
/// for removal is the non-empty id of a listed item with the record's host name,
/// type `TXT` and the record's value; and every such item's id is chosen.
pub proof fn law_cleanup_only_created(items: Seq<Json>, rec: TxtRecord)
    ensures
        forall|k: int|
            0 <= k < removal_ids(items, rec).len() ==> exists|j: int|
                0 <= j < items.len() && item_matches(#[trigger] items[j], rec)
                    && record_id(items[j]) == #[trigger] removal_ids(items, rec)[k]
                    && record_id(items[j]).len() > 0,
        forall|j: int|
            0 <= j < items.len() && item_matches(#[trigger] items[j], rec) && record_id(items[j]).len()
                > 0 ==> removal_ids(items, rec).contains(record_id(items[j])),
    decreases items.len(),
{
    if items.len() > 0 {
        let d = items.drop_last();
        law_cleanup_only_created(d, rec);
        let ids = removal_ids(items, rec);
        let prev = removal_ids(d, rec);
        assert forall|k: int| 0 <= k < ids.len() implies exists|j: int|
            0 <= j < items.len() && item_matches(#[trigger] items[j], rec) && record_id(items[j])
                == #[trigger] ids[k] && record_id(items[j]).len() > 0 by {
            if k < prev.len() {
                assert(ids[k] == prev[k]);
                let j = choose|j: int|
                    0 <= j < d.len() && item_matches(#[trigger] d[j], rec) && record_id(d[j])
                        == #[trigger] prev[k] && record_id(d[j]).len() > 0;
                assert(items[j] == d[j]);
            } else {
                let j = items.len() - 1;
                assert(items[j] == items.last());
            }
        }
        assert forall|j: int|
            0 <= j < items.len() && item_matches(#[trigger] items[j], rec) && record_id(
                items[j],
            ).len() > 0 implies ids.contains(record_id(items[j])) by {
            if j < d.len() {
                assert(items[j] == d[j]);
                let k = choose|k: int| 0 <= k < prev.len() && prev[k] == record_id(d[j]);
                assert(ids[k] == prev[k]);
            } else {
                assert(ids.last() == record_id(items[j]));
                assert(ids[ids.len() - 1] == record_id(items[j]));
            }
        }
    }
}

/// The form fields of a request to the DNS API: `act` and `domain` first, then
/// the request's own fields.
pub open spec fn pair_views(v: Seq<(String, String)>) -> Seq<(Seq<char>, Seq<char>)> {
    Seq::new(v.len(), |i: int| (v[i].0@, v[i].1@))
}

/// The fields of the request that adds the TXT record `value` at `hostname` in
/// `zone`, with a time to live of 600 seconds.
pub fn add_record_params(zone: &str, hostname: &str, value: &str) -> (r: Vec<(String, String)>)
    ensures
        pair_views(r@) == seq![
            ("act"@, "dnsrec.add"@),
            ("domain"@, zone@),
            ("record_type"@, "TXT"@),
            ("hostname"@, hostname@),
            ("record_value"@, value@),
            ("record_ttl"@, "600"@),
        ],
{
    let mut r: Vec<(String, String)> = Vec::new();
    r.push(("act".to_owned(), "dnsrec.add".to_owned()));
    r.push(("domain".to_owned(), zone.to_owned()));
    r.push(("record_type".to_owned(), "TXT".to_owned()));
    r.push(("hostname".to_owned(), hostname.to_owned()));
    r.push(("record_value".to_owned(), value.to_owned()));
    r.push(("record_ttl".to_owned(), "600".to_owned()));
    assert(pair_views(r@) =~= seq![
        ("act"@, "dnsrec.add"@),
        ("domain"@, zone@),
        ("record_type"@, "TXT"@),
        ("hostname"@, hostname@),
        ("record_value"@, value@),
        ("record_ttl"@, "600"@),
    ]);
    r
}

/// The fields of the request that lists up to 100 records of `zone`.
pub fn list_records_params(zone: &str) -> (r: Vec<(String, String)>)
    ensures
        pair_views(r@) == seq![("act"@, "dnsrec.list"@), ("domain"@, zone@), ("limit"@, "100"@)],
{
    let mut r: Vec<(String, String)> = Vec::new();
    r.push(("act".to_owned(), "dnsrec.list".to_owned()));
    r.push(("domain".to_owned(), zone.to_owned()));
    r.push(("limit".to_owned(), "100".to_owned()));
    assert(pair_views(r@) =~= seq![("act"@, "dnsrec.list"@), ("domain"@, zone@), ("limit"@, "100"@)]);
    r
}

/// The fields of the request that removes the record `record_id` of `zone`.
pub fn remove_record_params(zone: &str, record_id: &str) -> (r: Vec<(String, String)>)
    ensures
        pair_views(r@) == seq![
            ("act"@, "dnsrec.remove"@),
            ("domain"@, zone@),
            ("record_id"@, record_id@),
        ],
{
    let mut r: Vec<(String, String)> = Vec::new();
    r.push(("act".to_owned(), "dnsrec.remove".to_owned()));
    r.push(("domain".to_owned(), zone.to_owned()));
    r.push(("record_id".to_owned(), record_id.to_owned()));
    assert(pair_views(r@) =~= seq![
        ("act"@, "dnsrec.remove"@),
        ("domain"@, zone@),
        ("record_id"@, record_id@),
    ]);
    r
}

} // verus!

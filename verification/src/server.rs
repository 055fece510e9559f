use vstd::prelude::*;

use crate::json::{
    bool_field, field, i64_value, jstr, object1, object2, push_value, str_field_or, str_or, views,
    Json, JsonV,
};
use crate::logging::LogEntry;
use crate::text::{decimal, push_decimal, string_views};

verus! {

/// The model a chat request asks for (`gpt-4o` where it names none).
pub open spec fn requested_model(body: JsonV) -> Seq<char> {
    str_field_or(body, "model"@, "gpt-4o"@)
}

/// Whether a chat request asks for a streamed reply (not where it does not say).
pub open spec fn requested_stream(body: JsonV) -> bool {
    match bool_field(body, "stream"@) {
        Some(b) => b,
        None => false,
    }
}

/// `error` for a reply with an `error` member, else `ok`.
pub open spec fn reply_status(reply: JsonV) -> Seq<char> {
    if field(reply, "error"@) is Some {
        "error"@
    } else {
        "ok"@
    }
}

/// The token count `key` of a reply's `usage` member (0 where there is none
/// that is a 64-bit integer).
pub open spec fn usage_tokens(reply: JsonV, key: Seq<char>) -> i64 {
    match field(reply, "usage"@) {
        Some(u) => match field(u, key) {
            Some(t) => match i64_value(t) {
                Some(n) => n,
                None => 0,
            },
            None => 0,
        },
        None => 0,
    }
}

/// One entry of the model list.
pub open spec fn model_entry(id: Seq<char>) -> JsonV {
    JsonV::Object(seq![("id"@, jstr(id)), ("object"@, jstr("model"@))])
}

/// The entries of the model list, in order.
pub open spec fn model_entries(ids: Seq<Seq<char>>) -> Seq<JsonV>
    decreases ids.len(),
{
    if ids.len() == 0 {
        Seq::empty()
    } else {
        model_entries(ids.drop_last()).push(model_entry(ids.last()))
    }
}

/// The reply to a request for the model list.
pub open spec fn model_list(ids: Seq<Seq<char>>) -> JsonV {
    JsonV::Object(seq![("object"@, jstr("list"@)), ("data"@, JsonV::Array(model_entries(ids)))])
}

/// The model a chat request asks for.
pub fn request_model(body: &Json) -> (r: String)
    ensures
        r@ == requested_model(body@),
{
    str_or(body, "model", "gpt-4o")
}

/// Whether a chat request asks for a streamed reply.
pub fn request_stream(body: &Json) -> (r: bool)
    ensures
        r == requested_stream(body@),
        r <==> field(body@, "stream"@) == Some(JsonV::Bool(true)),
{
    match body.get("stream") {
        Some(s) => match s.as_bool() {
            Some(b) => b,
            None => false,
        },
        None => false,
    }
}

/// The token count `key` of a reply's `usage` member.
fn usage_count(reply: &Json, key: &str) -> (r: i64)
    ensures
        r == usage_tokens(reply@, key@),
{
    match reply.get("usage") {
        Some(u) => match u.get(key) {
            Some(t) => match t.as_i64() {
                Some(n) => n,
                None => 0,
            },
            None => 0,
        },
        None => 0,
    }
}

/// The log entry for a request answered with the JSON reply `reply`.
pub fn log_entry_for_reply(model: String, latency_ms: i64, timestamp: String, reply: &Json) -> (r:
    LogEntry)
    ensures
        r.timestamp@ == timestamp@,
        r.source@ == "api"@,
        r.model@ == model@,
        r.tokens_in == usage_tokens(reply@, "prompt_tokens"@),
        r.tokens_out == usage_tokens(reply@, "completion_tokens"@),
        r.latency_ms == latency_ms,
        r.status@ == reply_status(reply@),
{
    let status = if reply.get("error").is_some() {
        "error".to_owned()
    } else {
        "ok".to_owned()
    };
    LogEntry {
        timestamp,
        source: "api".to_owned(),
        model,
        tokens_in: usage_count(reply, "prompt_tokens"),
        tokens_out: usage_count(reply, "completion_tokens"),
        latency_ms,
        status,
    }
}

/// The log entry for a request answered with a stream; its tokens are not
/// counted.
pub fn log_entry_for_stream(model: String, latency_ms: i64, timestamp: String) -> (r: LogEntry)
    ensures
        r.timestamp@ == timestamp@,
        r.source@ == "api"@,
        r.model@ == model@,
        r.tokens_in == 0,
        r.tokens_out == 0,
        r.latency_ms == latency_ms,
        r.status@ == "stream"@,
{
    LogEntry {
        timestamp,
        source: "api".to_owned(),
        model,
        tokens_in: 0,
        tokens_out: 0,
        latency_ms,
        status: "stream".to_owned(),
    }
}

/// The reply to a request for the model list: every model as an entry.
pub fn models_listing(models: &Vec<String>) -> (r: Json)
    ensures
        r@ == model_list(string_views(models@)),
{
    let ghost ids = string_views(models@);
    let mut entries: Vec<Json> = Vec::new();
    assert(views(entries@) =~= Seq::empty());
    let mut i: usize = 0;
    while i < models.len()
        invariant
            ids == string_views(models@),
            i <= models.len(),
            views(entries@) == model_entries(ids.subrange(0, i as int)),
        decreases models.len() - i,
    {
        let ghost prefix = ids.subrange(0, i + 1);
        assert(prefix.drop_last() =~= ids.subrange(0, i as int));
        let entry = object2("id", Json::Str(models[i].clone()), "object", Json::string("model"));
        push_value(&mut entries, entry);
        i = i + 1;
    }
    assert(ids.subrange(0, i as int) =~= ids);
    proof {
        crate::json::lemma_views(entries@);
    }
    let ghost ev = views(entries@);
    let data = Json::Array(entries);
    assert(data@ == JsonV::Array(ev));
    object2("object", Json::string("list"), "data", data)
}

/// The reply to a health check.
pub fn health_body() -> (r: Json)
    ensures
        r@ == JsonV::Object(seq![("status"@, jstr("ok"@))]),
{
    object1("status", Json::string("ok"))
}

#[verifier::external_type_specification]
#[verifier::external_body]
pub struct ExSystemTime(std::time::SystemTime);

/// Calls `std::time::SystemTime::now`: the time of the system clock.  Nothing
/// is claimed of the time it gives.
#[verifier::external_body]
fn system_now() -> std::time::SystemTime {
    std::time::SystemTime::now()
}

/// Calls `SystemTime::duration_since` with `UNIX_EPOCH`: how long after the
/// Unix epoch `t` is, or `None` where it is before it.  Nothing more is claimed.
#[verifier::external_body]
fn since_unix_epoch(t: &std::time::SystemTime) -> Option<core::time::Duration> {
    t.duration_since(std::time::UNIX_EPOCH).ok()
}

/// Calls `Duration::as_secs`: the whole seconds of `d`.  Nothing is claimed
/// of the number.
#[verifier::external_body]
fn whole_seconds(d: &core::time::Duration) -> u64 {
    d.as_secs()
}

/// The text of a log timestamp for a clock reading.
pub open spec fn timestamp_of(secs: Option<u64>) -> Seq<char> {
    decimal(
        match secs {
            Some(s) => s as nat,
            None => 0nat,
        },
    )
}

/// The log timestamp for a clock reading: the whole seconds since the Unix
/// epoch in decimal, or `0` for a clock set before the epoch (`None`).
pub fn timestamp_text(secs: Option<u64>) -> (r: String)
    ensures
        r@ == timestamp_of(secs),
{
    let n = match secs {
        Some(s) => s,
        None => 0,
    };
    let mut r = String::new();
    push_decimal(&mut r, n);
    assert(r@ =~= decimal(n as nat));
    r
}

/// The current time as a log timestamp: [`timestamp_text`] of the system
/// clock's whole seconds since the Unix epoch.
pub fn chrono_now() -> (r: String)
    ensures
        exists|secs: Option<u64>| r@ == #[trigger] timestamp_of(secs),
{
    let now = system_now();
    let secs = match since_unix_epoch(&now) {
        Some(d) => Some(whole_seconds(&d)),
        None => None,
    };
    let r = timestamp_text(secs);
    assert(r@ == timestamp_of(secs));
    r
}

/// A request asks for a streamed reply exactly when its `stream` member is the
/// boolean `true`: `false`, any other value, or no such member asks for a
/// plain reply.
pub proof fn lemma_stream_only_when_true(body: JsonV)
    ensures
        requested_stream(body) <==> field(body, "stream"@) == Some(JsonV::Bool(true)),
        field(body, "stream"@) == Some(JsonV::Bool(false)) ==> !requested_stream(body),
{
}

} // verus!

//! What the searches have in common: the parts of a request to the search
//! backend, and how its answer is taken apart.

use crate::json::{json_number_of, json_parsed, or_null, values_of, Json, JsonValue};
use crate::text::join;
use vstd::prelude::*;

verus! {

/// What the search backend gave.
#[derive(Debug, Clone, PartialEq, Eq)]
pub enum SearchOutcome {
    /// The backend answered, with this body.
    Answered(String),
    /// The request failed, for the reason given.
    Failed(String),
}

/// What the body of an answer reads as JSON; nothing for a failure.
pub open spec fn parsed_body(outcome: SearchOutcome) -> Option<JsonValue> {
    match outcome {
        SearchOutcome::Answered(body) => json_parsed(body@),
        SearchOutcome::Failed(_) => None,
    }
}

impl SearchOutcome {
    /// The body of an answer as a document, where it is one.
    pub fn body(&self) -> (r: Option<Json>)
        ensures
            crate::json::value_of(r) == parsed_body(*self),
    {
        match self {
            SearchOutcome::Answered(body) => Json::from_text(body.as_str()),
            SearchOutcome::Failed(_) => None,
        }
    }
}

/// The filter that asks for `value` as a phrase in `field`.
pub open spec fn match_phrase_of(field: Seq<char>, value: Seq<char>) -> JsonValue {
    JsonValue::empty_object().with(
        "match_phrase"@,
        JsonValue::empty_object().with(field, JsonValue::Text(value)),
    )
}

/// The filter that asks for `value` as a phrase in `field`.
pub fn match_phrase(field: &str, value: &str) -> (r: Json)
    ensures
        r@ == match_phrase_of(field@, value@),
{
    Json::object().with("match_phrase", Json::object().with(field, Json::text(value)))
}

/// The order of the hits: by time stamp, in the direction of `order`.
pub open spec fn timestamp_sort_of(order: Seq<char>) -> JsonValue {
    JsonValue::empty_array().append(
        JsonValue::empty_object().with(
            "@timestamp"@,
            JsonValue::empty_object().with("order"@, JsonValue::Text(order)).with(
                "unmapped_type"@,
                JsonValue::Text("boolean"@),
            ),
        ),
    )
}

/// The order of the hits: by time stamp, in the direction of `order`.
pub fn timestamp_sort(order: &str) -> (r: Json)
    ensures
        r@ == timestamp_sort_of(order@),
{
    Json::list().append(
        Json::object().with(
            "@timestamp",
            Json::object().with("order", Json::text(order)).with(
                "unmapped_type",
                Json::text("boolean"),
            ),
        ),
    )
}

/// The request for every field, mapped or not.
pub open spec fn every_field_of() -> JsonValue {
    JsonValue::empty_object().with("field"@, JsonValue::Text("*"@)).with(
        "include_unmapped"@,
        JsonValue::Bool(true),
    )
}

/// The request for every field, mapped or not.
pub fn every_field() -> (r: Json)
    ensures
        r@ == every_field_of(),
{
    Json::object().with("field", Json::text("*")).with("include_unmapped", Json::Bool(true))
}

/// The request for the time field `name`, written as a date.
pub open spec fn date_field_of(name: Seq<char>) -> JsonValue {
    JsonValue::empty_object().with("field"@, JsonValue::Text(name)).with(
        "format"@,
        JsonValue::Text("strict_date_optional_time"@),
    )
}

/// The request for the time field `name`, written as a date.
pub fn date_field(name: &str) -> (r: Json)
    ensures
        r@ == date_field_of(name@),
{
    Json::object().with("field", Json::text(name)).with(
        "format",
        Json::text("strict_date_optional_time"),
    )
}

/// The longest highlighted fragment.
pub const FRAGMENT_SIZE: u64 = 2147483647;

/// How matches are marked in the hits.
pub open spec fn highlight_of() -> JsonValue {
    JsonValue::empty_object().with(
        "pre_tags"@,
        JsonValue::empty_array().append(JsonValue::Text("@kibana-highlighted-field@"@)),
    ).with(
        "post_tags"@,
        JsonValue::empty_array().append(JsonValue::Text("@/kibana-highlighted-field@"@)),
    ).with(
        "fields"@,
        JsonValue::empty_object().with("*"@, JsonValue::empty_object()),
    ).with("fragment_size"@, JsonValue::Number(json_number_of(FRAGMENT_SIZE)))
}

/// How matches are marked in the hits.
pub fn highlight() -> (r: Json)
    ensures
        r@ == highlight_of(),
{
    Json::object().with(
        "pre_tags",
        Json::list().append(Json::text("@kibana-highlighted-field@")),
    ).with("post_tags", Json::list().append(Json::text("@/kibana-highlighted-field@"))).with(
        "fields",
        Json::object().with("*", Json::object()),
    ).with("fragment_size", Json::unsigned(FRAGMENT_SIZE))
}

/// The hits of an answer: the items of `hits` in its `hits`, none where
/// the answer has no such list.
pub open spec fn hits_of(body: JsonValue) -> Seq<JsonValue> {
    or_null(body.member("hits"@)).items_at("hits"@)
}

/// The hits of an answer.
pub fn hits(body: &Json) -> (r: Option<&Vec<Json>>)
    ensures
        match r {
            Some(items) => values_of(items@) == hits_of(body@),
            None => hits_of(body@) == Seq::<JsonValue>::empty(),
        },
{
    match body.member("hits") {
        Some(outer) => match outer.member("hits") {
            Some(inner) => inner.as_array(),
            None => None,
        },
        None => None,
    }
}

/// The reply to a search that failed: an empty list under `list`, and the
/// reason under `error`.
pub open spec fn failure_of(list: Seq<char>, prefix: Seq<char>, reason: Seq<char>) -> JsonValue {
    JsonValue::empty_object().with(list, JsonValue::empty_array()).with(
        "error"@,
        JsonValue::Text(prefix + reason),
    )
}

/// The reply to a search that failed.
pub fn failure(list: &str, prefix: &str, reason: &str) -> (r: Json)
    ensures
        r@ == failure_of(list@, prefix@, reason@),
{
    Json::object().with(list, Json::list()).with(
        "error",
        Json::text(join(prefix, reason).as_str()),
    )
}

/// The reply to a request that failed: the reason under `error`, and nothing
/// else.
pub open spec fn error_of(prefix: Seq<char>, reason: Seq<char>) -> JsonValue {
    JsonValue::empty_object().with("error"@, JsonValue::Text(prefix + reason))
}

/// The reply to a request that failed.
pub fn error(prefix: &str, reason: &str) -> (r: Json)
    ensures
        r@ == error_of(prefix@, reason@),
{
    Json::object().with("error", Json::text(join(prefix, reason).as_str()))
}

} // verus!

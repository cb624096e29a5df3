//! Search by one keyword.

use crate::json::{json_number_of, or_null, value_of, values_of, Json, JsonValue};
use crate::routes::query::{
    date_field, date_field_of, every_field, every_field_of, failure, failure_of, highlight,
    highlight_of, hits, hits_of, parsed_body, timestamp_sort, timestamp_sort_of, SearchOutcome,
};
use vstd::prelude::*;

verus! {

/// What a caller asks for: the log lines of an index that match a keyword.
#[derive(Debug, Clone, PartialEq, Eq)]
pub struct SearchRequest {
    /// The index or index pattern to search.
    pub es_index: String,
    /// The keyword to look for in the message.
    pub keyword: String,
}

/// How many lines are asked for.
pub const SEARCH_SIZE: u64 = 500;

/// The condition of a request: the message matches the keyword.
pub open spec fn keyword_condition(request: SearchRequest) -> JsonValue {
    JsonValue::empty_object().with(
        "bool"@,
        JsonValue::empty_object().with("must"@, JsonValue::empty_array()).with(
            "filter"@,
            JsonValue::empty_array().append(
                JsonValue::empty_object().with(
                    "match"@,
                    JsonValue::empty_object().with("message"@, JsonValue::Text(request.keyword@)),
                ),
            ),
        ).with("should"@, JsonValue::empty_array()).with("must_not"@, JsonValue::empty_array()),
    )
}

/// The request to the search backend: the lines whose message matches the
/// keyword, newest first.
pub open spec fn keyword_query(request: SearchRequest) -> JsonValue {
    JsonValue::empty_object().with("track_total_hits"@, JsonValue::Bool(false)).with(
        "sort"@,
        timestamp_sort_of("desc"@),
    ).with(
        "fields"@,
        JsonValue::empty_array().append(every_field_of()).append(date_field_of("@timestamp"@))
            .append(date_field_of("event_time"@)),
    ).with("size"@, JsonValue::Number(json_number_of(SEARCH_SIZE))).with(
        "version"@,
        JsonValue::Bool(true),
    ).with("script_fields"@, JsonValue::empty_object()).with(
        "stored_fields"@,
        JsonValue::empty_array().append(JsonValue::Text("*"@)),
    ).with("runtime_mappings"@, JsonValue::empty_object()).with(
        "_source"@,
        JsonValue::Bool(false),
    ).with("query"@, keyword_condition(request)).with("highlight"@, highlight_of())
}

/// The request to the search backend.
pub fn keyword_search_query(request: &SearchRequest) -> (r: Json)
    ensures
        r@ == keyword_query(*request),
{
    let condition = Json::object().with(
        "bool",
        Json::object().with("must", Json::list()).with(
            "filter",
            Json::list().append(
                Json::object().with(
                    "match",
                    Json::object().with("message", Json::text(request.keyword.as_str())),
                ),
            ),
        ).with("should", Json::list()).with("must_not", Json::list()),
    );
    Json::object().with("track_total_hits", Json::Bool(false)).with(
        "sort",
        timestamp_sort("desc"),
    ).with(
        "fields",
        Json::list().append(every_field()).append(date_field("@timestamp")).append(
            date_field("event_time"),
        ),
    ).with("size", Json::unsigned(SEARCH_SIZE)).with("version", Json::Bool(true)).with(
        "script_fields",
        Json::object(),
    ).with("stored_fields", Json::list().append(Json::text("*"))).with(
        "runtime_mappings",
        Json::object(),
    ).with("_source", Json::Bool(false)).with("query", condition).with("highlight", highlight())
}

/// One line of the reply, from one hit: its index, and the first value of
/// each field that the hit carries.
pub open spec fn keyword_line(hit: JsonValue) -> JsonValue {
    let source = or_null(hit.member("fields"@));
    JsonValue::empty_object().with("_index"@, JsonValue::Text(hit.text_or_empty("_index"@))).with(
        "file_name"@,
        JsonValue::Text(source.first_text("log.file.path"@)),
    ).with("message"@, JsonValue::Text(source.first_text("message"@))).with(
        "@timestamp"@,
        JsonValue::Text(source.first_text("@timestamp"@)),
    ).with("service"@, JsonValue::Text(source.first_text("service"@))).with(
        "hostname"@,
        JsonValue::Text(source.first_text("hostname"@)),
    )
}

/// The lines of the reply, one from each hit, in order.
pub open spec fn keyword_lines(hits: Seq<JsonValue>) -> Seq<JsonValue> {
    Seq::new(hits.len(), |i: int| keyword_line(hits[i]))
}

/// The reply to the caller, from the body of the backend's answer.
pub open spec fn keyword_reply(body: JsonValue) -> JsonValue {
    JsonValue::empty_object().with("results"@, JsonValue::Array(keyword_lines(hits_of(body))))
}

/// One line of the reply, from one hit.
pub fn keyword_search_line(hit: &Json) -> (r: Json)
    ensures
        r@ == keyword_line(hit@),
{
    let source = hit.member("fields");
    Json::object().with("_index", Json::text(hit.text_or_empty("_index").as_str())).with(
        "file_name",
        Json::text(Json::first_text(source, "log.file.path").as_str()),
    ).with("message", Json::text(Json::first_text(source, "message").as_str())).with(
        "@timestamp",
        Json::text(Json::first_text(source, "@timestamp").as_str()),
    ).with("service", Json::text(Json::first_text(source, "service").as_str())).with(
        "hostname",
        Json::text(Json::first_text(source, "hostname").as_str()),
    )
}

/// The reply to the caller, from the body of the backend's answer.
pub fn keyword_search_reply(body: &Json) -> (r: Json)
    ensures
        r@ == keyword_reply(body@),
{
    let mut lines: Vec<Json> = Vec::new();
    match hits(body) {
        Some(found) => {
            let mut i: usize = 0;
            while i < found.len()
                invariant
                    i <= found.len(),
                    lines.len() == i,
                    forall|j: int| 0 <= j < i ==> (#[trigger] lines@[j])@ == keyword_line(found@[j]@),
                decreases found.len() - i,
            {
                lines.push(keyword_search_line(&found[i]));
                i = i + 1;
            }
            assert(values_of(lines@) =~= keyword_lines(values_of(found@)));
        },
        None => {
            assert(values_of(lines@) =~= keyword_lines(Seq::empty()));
        },
    }
    Json::object().with("results", Json::array(lines))
}

/// The reply to the caller for what the backend gave, where `parsed` is
/// what the body of an answer reads as JSON: the lines of an answer, the
/// reason of a failure, and nothing for an answer that is not JSON.
pub open spec fn keyword_outcome(outcome: SearchOutcome, parsed: Option<JsonValue>) -> Option<
    JsonValue,
> {
    match outcome {
        SearchOutcome::Failed(reason) => Some(
            failure_of("results"@, "Error during search: "@, reason@),
        ),
        SearchOutcome::Answered(_) => match parsed {
            Some(body) => Some(keyword_reply(body)),
            None => None,
        },
    }
}

/// The reply to the caller for what the backend gave.
pub fn keyword_search(outcome: &SearchOutcome) -> (r: Option<Json>)
    ensures
        value_of(r) == keyword_outcome(*outcome, parsed_body(*outcome)),
{
    match outcome {
        SearchOutcome::Failed(reason) => Some(
            failure("results", "Error during search: ", reason.as_str()),
        ),
        SearchOutcome::Answered(_) => match outcome.body() {
            Some(body) => Some(keyword_search_reply(&body)),
            None => None,
        },
    }
}

} // verus!

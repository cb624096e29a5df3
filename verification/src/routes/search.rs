//! Search by keyword, time range, host, service and file.

use crate::json::{json_number_of, or_null, value_of, values_of, Json, JsonValue};
use crate::routes::query::{
    date_field, date_field_of, every_field, every_field_of, failure, failure_of, highlight,
    highlight_of, hits, hits_of, match_phrase, match_phrase_of, parsed_body, timestamp_sort,
    timestamp_sort_of, SearchOutcome,
};
use vstd::prelude::*;

verus! {

/// What a caller asks for: the log lines of an index that hold a keyword,
/// from a span of time, of one file of one service on one host.
#[derive(Debug, Clone, PartialEq, Eq)]
pub struct SearchRequest {
    pub es_index: String,
    pub keyword: String,
    pub start_time: String,
    pub end_time: String,
    pub hostname: String,
    pub service: String,
    pub basename: String,
}

/// How many lines are asked for.
pub const SEARCH_SIZE: u64 = 500;

/// The filter that asks for a time stamp from `start` to `end`.
pub open spec fn time_range(start: Seq<char>, end: Seq<char>) -> JsonValue {
    JsonValue::empty_object().with(
        "range"@,
        JsonValue::empty_object().with(
            "@timestamp"@,
            JsonValue::empty_object().with(
                "format"@,
                JsonValue::Text("strict_date_optional_time"@),
            ).with("gte"@, JsonValue::Text(start)).with("lte"@, JsonValue::Text(end)),
        ),
    )
}

/// The filter that asks for the host, the service and the file of a request.
pub open spec fn origin_filter(request: SearchRequest) -> JsonValue {
    JsonValue::empty_object().with(
        "bool"@,
        JsonValue::empty_object().with("must"@, JsonValue::empty_array()).with(
            "filter"@,
            JsonValue::empty_array().append(match_phrase_of("hostname"@, request.hostname@))
                .append(match_phrase_of("service"@, request.service@)).append(
                match_phrase_of("basename"@, request.basename@),
            ),
        ).with("should"@, JsonValue::empty_array()).with("must_not"@, JsonValue::empty_array()),
    )
}

/// The request to the search backend: the lines that hold the keyword, fall
/// into the span of time and come from the file asked for, oldest first.
pub open spec fn search_query(request: SearchRequest) -> JsonValue {
    JsonValue::empty_object().with("track_total_hits"@, JsonValue::Bool(false)).with(
        "sort"@,
        timestamp_sort_of("asc"@),
    ).with(
        "fields"@,
        JsonValue::empty_array().append(every_field_of()).append(date_field_of("@timestamp"@)),
    ).with("size"@, JsonValue::Number(json_number_of(SEARCH_SIZE))).with(
        "query"@,
        JsonValue::empty_object().with(
            "bool"@,
            JsonValue::empty_object().with(
                "filter"@,
                JsonValue::empty_array().append(match_phrase_of("message"@, request.keyword@))
                    .append(time_range(request.start_time@, request.end_time@)).append(
                    origin_filter(request),
                ),
            ),
        ),
    ).with("highlight"@, highlight_of())
}

/// The request to the search backend.
pub fn search_logs_query(request: &SearchRequest) -> (r: Json)
    ensures
        r@ == search_query(*request),
{
    let range = Json::object().with(
        "range",
        Json::object().with(
            "@timestamp",
            Json::object().with("format", Json::text("strict_date_optional_time")).with(
                "gte",
                Json::text(request.start_time.as_str()),
            ).with("lte", Json::text(request.end_time.as_str())),
        ),
    );
    let origin = Json::object().with(
        "bool",
        Json::object().with("must", Json::list()).with(
            "filter",
            Json::list().append(match_phrase("hostname", request.hostname.as_str())).append(
                match_phrase("service", request.service.as_str()),
            ).append(match_phrase("basename", request.basename.as_str())),
        ).with("should", Json::list()).with("must_not", Json::list()),
    );
    Json::object().with("track_total_hits", Json::Bool(false)).with(
        "sort",
        timestamp_sort("asc"),
    ).with("fields", Json::list().append(every_field()).append(date_field("@timestamp"))).with(
        "size",
        Json::unsigned(SEARCH_SIZE),
    ).with(
        "query",
        Json::object().with(
            "bool",
            Json::object().with(
                "filter",
                Json::list().append(match_phrase("message", request.keyword.as_str())).append(
                    range,
                ).append(origin),
            ),
        ),
    ).with("highlight", highlight())
}

/// One line of the reply, from one hit: what its source says of the host,
/// the file, the message, the time and the level, each empty where the
/// source does not say it as a text.
pub open spec fn search_line(hit: JsonValue) -> JsonValue {
    let source = or_null(hit.member("_source"@));
    JsonValue::empty_object().with("hostname"@, JsonValue::Text(source.text_or_empty("hostname"@)))
        .with("basename"@, JsonValue::Text(source.text_or_empty("basename"@))).with(
        "message"@,
        JsonValue::Text(source.text_or_empty("message"@)),
    ).with("timestamp"@, JsonValue::Text(source.text_or_empty("@timestamp"@))).with(
        "log_level"@,
        JsonValue::Text(source.text_or_empty("log_level"@)),
    )
}

/// The lines of the reply, one from each hit, in order.
pub open spec fn search_lines(hits: Seq<JsonValue>) -> Seq<JsonValue> {
    Seq::new(hits.len(), |i: int| search_line(hits[i]))
}

/// The reply to the caller, from the body of the backend's answer.
pub open spec fn search_reply(body: JsonValue) -> JsonValue {
    JsonValue::empty_object().with("results"@, JsonValue::Array(search_lines(hits_of(body))))
}

/// What the member `key` of a hit's source holds as a text, or the empty
/// text.
fn source_text(source: Option<&Json>, key: &str) -> (r: String)
    ensures
        r@ == or_null(crate::json::value_of_ref(source)).text_or_empty(key@),
{
    match source {
        Some(doc) => doc.text_or_empty(key),
        None => String::new(),
    }
}

/// One line of the reply, from one hit.
pub fn search_logs_line(hit: &Json) -> (r: Json)
    ensures
        r@ == search_line(hit@),
{
    let source = hit.member("_source");
    Json::object().with("hostname", Json::text(source_text(source, "hostname").as_str())).with(
        "basename",
        Json::text(source_text(source, "basename").as_str()),
    ).with("message", Json::text(source_text(source, "message").as_str())).with(
        "timestamp",
        Json::text(source_text(source, "@timestamp").as_str()),
    ).with("log_level", Json::text(source_text(source, "log_level").as_str()))
}

/// The reply to the caller, from the body of the backend's answer.
pub fn search_logs_reply(body: &Json) -> (r: Json)
    ensures
        r@ == search_reply(body@),
{
    let mut lines: Vec<Json> = Vec::new();
    match hits(body) {
        Some(found) => {
            let mut i: usize = 0;
            while i < found.len()
                invariant
                    i <= found.len(),
                    lines.len() == i,
                    forall|j: int| 0 <= j < i ==> (#[trigger] lines@[j])@ == search_line(found@[j]@),
                decreases found.len() - i,
            {
                lines.push(search_logs_line(&found[i]));
                i = i + 1;
            }
            assert(values_of(lines@) =~= search_lines(values_of(found@)));
        },
        None => {
            assert(values_of(lines@) =~= search_lines(Seq::empty()));
        },
    }
    Json::object().with("results", Json::array(lines))
}

/// The reply to the caller for what the backend gave, where `parsed` is
/// what the body of an answer reads as JSON: the lines of an answer, the
/// reason of a failure, and nothing for an answer that is not JSON.
pub open spec fn search_outcome(outcome: SearchOutcome, parsed: Option<JsonValue>) -> Option<
    JsonValue,
> {
    match outcome {
        SearchOutcome::Failed(reason) => Some(
            failure_of("results"@, "Error during search: "@, reason@),
        ),
        SearchOutcome::Answered(_) => match parsed {
            Some(body) => Some(search_reply(body)),
            None => None,
        },
    }
}

/// The reply to the caller for what the backend gave.
pub fn search_logs(outcome: &SearchOutcome) -> (r: Option<Json>)
    ensures
        value_of(r) == search_outcome(*outcome, parsed_body(*outcome)),
{
    match outcome {
        SearchOutcome::Failed(reason) => Some(
            failure("results", "Error during search: ", reason.as_str()),
        ),
        SearchOutcome::Answered(_) => match outcome.body() {
            Some(body) => Some(search_logs_reply(&body)),
            None => None,
        },
    }
}

} // verus!

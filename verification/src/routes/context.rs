//! The lines around one log line: what one file of one service on one host
//! logged.

use crate::json::{
    json_number_of, or_null, separated, texts_among, value_of, values_of, Json, JsonValue,
};
use crate::routes::query::{
    date_field, date_field_of, every_field, every_field_of, failure, failure_of, highlight,
    highlight_of, hits, hits_of, match_phrase, match_phrase_of, parsed_body, timestamp_sort,
    timestamp_sort_of, SearchOutcome,
};
use vstd::prelude::*;

verus! {

/// What a caller asks for: the log lines of one file of one service on one
/// host.
#[derive(Debug, Clone, PartialEq, Eq)]
pub struct LogContextRequest {
    pub start_time: String,
    pub end_time: String,
    pub es_index: String,
    pub hostname: String,
    pub service: String,
    pub basename: String,
}

/// How many lines are asked for.
pub const CONTEXT_SIZE: u64 = 30;

/// The filters of a request: the index, the service, the host and the file.
pub open spec fn context_filters(request: LogContextRequest) -> JsonValue {
    JsonValue::empty_array().append(match_phrase_of("_index"@, request.es_index@)).append(
        match_phrase_of("service.keyword"@, request.service@),
    ).append(match_phrase_of("hostname.keyword"@, request.hostname@)).append(
        match_phrase_of("log.file.path.keyword"@, request.basename@),
    )
}

/// The request to the search backend: the lines that pass the filters,
/// oldest first.
pub open spec fn context_query(request: LogContextRequest) -> JsonValue {
    JsonValue::empty_object().with(
        "query"@,
        JsonValue::empty_object().with(
            "bool"@,
            JsonValue::empty_object().with("filter"@, context_filters(request)),
        ),
    ).with("track_total_hits"@, JsonValue::Bool(false)).with(
        "sort"@,
        timestamp_sort_of("asc"@),
    ).with(
        "fields"@,
        JsonValue::empty_array().append(every_field_of()).append(date_field_of("@timestamp"@)),
    ).with("size"@, JsonValue::Number(json_number_of(CONTEXT_SIZE))).with(
        "version"@,
        JsonValue::Bool(true),
    ).with("script_fields"@, JsonValue::empty_object()).with(
        "stored_fields"@,
        JsonValue::empty_array().append(JsonValue::Text("*"@)),
    ).with("runtime_mappings"@, JsonValue::empty_object()).with(
        "_source"@,
        JsonValue::Bool(false),
    ).with("highlight"@, highlight_of())
}

/// The request to the search backend.
pub fn log_context_query(request: &LogContextRequest) -> (r: Json)
    ensures
        r@ == context_query(*request),
{
    let filters = Json::list().append(match_phrase("_index", request.es_index.as_str())).append(
        match_phrase("service.keyword", request.service.as_str()),
    ).append(match_phrase("hostname.keyword", request.hostname.as_str())).append(
        match_phrase("log.file.path.keyword", request.basename.as_str()),
    );
    Json::object().with(
        "query",
        Json::object().with("bool", Json::object().with("filter", filters)),
    ).with("track_total_hits", Json::Bool(false)).with("sort", timestamp_sort("asc")).with(
        "fields",
        Json::list().append(every_field()).append(date_field("@timestamp")),
    ).with("size", Json::unsigned(CONTEXT_SIZE)).with("version", Json::Bool(true)).with(
        "script_fields",
        Json::object(),
    ).with("stored_fields", Json::list().append(Json::text("*"))).with(
        "runtime_mappings",
        Json::object(),
    ).with("_source", Json::Bool(false)).with("highlight", highlight())
}

/// One line of the reply, from one hit: the first value of each field that
/// the hit carries, and all the values of its `service`, separated by a
/// comma and a blank.
pub open spec fn context_line(hit: JsonValue) -> JsonValue {
    let source = or_null(hit.member("fields"@));
    JsonValue::empty_object().with("timestamp"@, JsonValue::Text(source.first_text("@timestamp"@)))
        .with("message"@, JsonValue::Text(source.first_text("message"@))).with(
        "hostname"@,
        JsonValue::Text(source.first_text("hostname"@)),
    ).with(
        "service"@,
        JsonValue::Text(separated(texts_among(source.items_at("service"@)), ", "@)),
    ).with("basename"@, JsonValue::Text(source.first_text("basename"@))).with(
        "log_level"@,
        JsonValue::Text(source.first_text("log_level"@)),
    )
}

/// The lines of the reply, one from each hit, in order.
pub open spec fn context_lines(hits: Seq<JsonValue>) -> Seq<JsonValue> {
    Seq::new(hits.len(), |i: int| context_line(hits[i]))
}

/// The reply to the caller, from the body of the backend's answer.
pub open spec fn context_reply(body: JsonValue) -> JsonValue {
    JsonValue::empty_object().with(
        "log_context"@,
        JsonValue::Array(context_lines(hits_of(body))),
    )
}

/// One line of the reply, from one hit.
pub fn log_context_line(hit: &Json) -> (r: Json)
    ensures
        r@ == context_line(hit@),
{
    let source = hit.member("fields");
    let service = match source {
        Some(fields) => match fields.member("service") {
            Some(held) => match held.as_array() {
                Some(items) => Json::join_texts(items, ", "),
                None => String::new(),
            },
            None => String::new(),
        },
        None => String::new(),
    };
    proof {
        assert(texts_among(Seq::<JsonValue>::empty()) =~= Seq::empty());
    }
    Json::object().with(
        "timestamp",
        Json::text(Json::first_text(source, "@timestamp").as_str()),
    ).with("message", Json::text(Json::first_text(source, "message").as_str())).with(
        "hostname",
        Json::text(Json::first_text(source, "hostname").as_str()),
    ).with("service", Json::text(service.as_str())).with(
        "basename",
        Json::text(Json::first_text(source, "basename").as_str()),
    ).with("log_level", Json::text(Json::first_text(source, "log_level").as_str()))
}

/// The reply to the caller, from the body of the backend's answer.
pub fn log_context_reply(body: &Json) -> (r: Json)
    ensures
        r@ == context_reply(body@),
{
    let mut lines: Vec<Json> = Vec::new();
    match hits(body) {
        Some(found) => {
            let mut i: usize = 0;
            while i < found.len()
                invariant
                    i <= found.len(),
                    lines.len() == i,
                    forall|j: int| 0 <= j < i ==> (#[trigger] lines@[j])@ == context_line(found@[j]@),
                decreases found.len() - i,
            {
                lines.push(log_context_line(&found[i]));
                i = i + 1;
            }
            assert(values_of(lines@) =~= context_lines(values_of(found@)));
        },
        None => {
            assert(values_of(lines@) =~= context_lines(Seq::empty()));
        },
    }
    Json::object().with("log_context", Json::array(lines))
}

/// The reply to the caller for what the backend gave, where `parsed` is
/// what the body of an answer reads as JSON: the lines of an answer, the
/// reason of a failure, and nothing for an answer that is not JSON.
pub open spec fn context_outcome(outcome: SearchOutcome, parsed: Option<JsonValue>) -> Option<
    JsonValue,
> {
    match outcome {
        SearchOutcome::Failed(reason) => Some(
            failure_of("log_context"@, "Error during search: "@, reason@),
        ),
        SearchOutcome::Answered(_) => match parsed {
            Some(body) => Some(context_reply(body)),
            None => None,
        },
    }
}

/// The reply to the caller for what the backend gave.
pub fn get_log_context(outcome: &SearchOutcome) -> (r: Option<Json>)
    ensures
        value_of(r) == context_outcome(*outcome, parsed_body(*outcome)),
{
    match outcome {
        SearchOutcome::Failed(reason) => Some(
            failure("log_context", "Error during search: ", reason.as_str()),
        ),
        SearchOutcome::Answered(_) => match outcome.body() {
            Some(body) => Some(log_context_reply(&body)),
            None => None,
        },
    }
}

} // verus!

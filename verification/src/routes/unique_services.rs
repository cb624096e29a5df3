//! The distinct values of one field.

use crate::json::{json_number_of, or_null, text_values, values_of, Json, JsonValue};
use crate::routes::query::{error, error_of, parsed_body, SearchOutcome};
use crate::text::texts;
use vstd::prelude::*;

verus! {

/// What a caller asks for: the distinct values of `field` in the indices
/// that `index_pattern` names.
#[derive(Debug, Clone, PartialEq, Eq)]
pub struct SearchParams {
    pub index_pattern: String,
    pub field: String,
}

/// The most values that are asked for.
pub const MOST_VALUES: u64 = 10000;

/// The request to the search backend: no hits, and the values of the field
/// in groups.
pub open spec fn values_query(params: SearchParams) -> JsonValue {
    JsonValue::empty_object().with("size"@, JsonValue::Number(json_number_of(0))).with(
        "aggs"@,
        JsonValue::empty_object().with(
            "unique_services"@,
            JsonValue::empty_object().with(
                "terms"@,
                JsonValue::empty_object().with("field"@, JsonValue::Text(params.field@)).with(
                    "size"@,
                    JsonValue::Number(json_number_of(MOST_VALUES)),
                ),
            ),
        ),
    )
}

/// The request to the search backend.
pub fn unique_services_query(params: &SearchParams) -> (r: Json)
    ensures
        r@ == values_query(*params),
{
    Json::object().with("size", Json::unsigned(0)).with(
        "aggs",
        Json::object().with(
            "unique_services",
            Json::object().with(
                "terms",
                Json::object().with("field", Json::text(params.field.as_str())).with(
                    "size",
                    Json::unsigned(MOST_VALUES),
                ),
            ),
        ),
    )
}

/// The texts that the documents of a list hold under `key`, in order; a
/// document that holds no text there is passed over.
pub open spec fn texts_under(items: Seq<JsonValue>, key: Seq<char>) -> Seq<Seq<char>>
    decreases items.len(),
{
    if items.len() == 0 {
        Seq::empty()
    } else {
        match items.last().text_at(key) {
            Some(s) => texts_under(items.drop_last(), key).push(s),
            None => texts_under(items.drop_last(), key),
        }
    }
}

/// The texts that the documents of a list hold under `key`, in order.
pub fn collect_texts(items: &Vec<Json>, key: &str) -> (r: Vec<String>)
    ensures
        texts(r@) == texts_under(values_of(items@), key@),
{
    let ghost all = values_of(items@);
    let mut out: Vec<String> = Vec::new();
    let mut i: usize = 0;
    assert(all.take(0) =~= Seq::empty());
    assert(texts(out@) =~= Seq::empty());
    while i < items.len()
        invariant
            i <= items.len(),
            all == values_of(items@),
            texts(out@) == texts_under(all.take(i as int), key@),
        decreases items.len() - i,
    {
        proof {
            assert(all.take(i + 1).drop_last() =~= all.take(i as int));
            assert(all.take(i + 1).last() == items@[i as int]@);
        }
        match items[i].text_at(key) {
            Some(s) => {
                let ghost before = out@;
                out.push(s.clone());
                assert(texts(out@) =~= texts(before).push(s@));
            },
            None => {},
        }
        i = i + 1;
    }
    assert(all.take(i as int) =~= all);
    out
}

/// The groups of an answer: the items of `buckets` in `unique_services` in
/// its `aggregations`, none where the answer has no such list.
pub open spec fn buckets_of(body: JsonValue) -> Seq<JsonValue> {
    or_null(or_null(body.member("aggregations"@)).member("unique_services"@)).items_at("buckets"@)
}

/// The reply to the caller, from the body of the backend's answer: the key
/// of each group that has a text for its key.
pub open spec fn values_reply(body: JsonValue) -> JsonValue {
    JsonValue::empty_object().with(
        "unique_services"@,
        JsonValue::Array(text_values(texts_under(buckets_of(body), "key"@))),
    )
}

/// The reply to the caller, from the body of the backend's answer.
pub fn unique_services_reply(body: &Json) -> (r: Json)
    ensures
        r@ == values_reply(body@),
{
    let buckets = match body.member("aggregations") {
        Some(aggregations) => match aggregations.member("unique_services") {
            Some(group) => match group.member("buckets") {
                Some(held) => held.as_array(),
                None => None,
            },
            None => None,
        },
        None => None,
    };
    let keys = match buckets {
        Some(items) => collect_texts(items, "key"),
        None => {
            let none: Vec<String> = Vec::new();
            assert(texts(none@) =~= texts_under(Seq::empty(), "key"@));
            none
        },
    };
    Json::object().with("unique_services", Json::texts(&keys))
}

/// The body that stands in for an answer that is not JSON.
pub open spec fn unreadable_body() -> JsonValue {
    JsonValue::empty_object().with("error"@, JsonValue::Text("Failed to parse response"@))
}

/// The reply to the caller for what the backend gave, where `parsed` is
/// what the body of an answer reads as JSON: the values of an answer, none
/// for an answer that is not JSON, and the reason of a failure.
pub open spec fn values_outcome(outcome: SearchOutcome, parsed: Option<JsonValue>) -> JsonValue {
    match outcome {
        SearchOutcome::Failed(reason) => error_of("Error indexing logs: "@, reason@),
        SearchOutcome::Answered(_) => match parsed {
            Some(body) => values_reply(body),
            None => values_reply(unreadable_body()),
        },
    }
}

/// The reply to the caller for what the backend gave.
pub fn get_unique_services(outcome: &SearchOutcome) -> (r: Json)
    ensures
        r@ == values_outcome(*outcome, parsed_body(*outcome)),
{
    match outcome {
        SearchOutcome::Failed(reason) => error("Error indexing logs: ", reason.as_str()),
        SearchOutcome::Answered(_) => match outcome.body() {
            Some(body) => unique_services_reply(&body),
            None => unique_services_reply(
                &Json::object().with("error", Json::text("Failed to parse response")),
            ),
        },
    }
}

} // verus!

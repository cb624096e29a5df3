//! The names of the indices.

use crate::json::{text_values, Json, JsonValue};
use crate::routes::query::{error, error_of, parsed_body, SearchOutcome};
use crate::routes::unique_services::{collect_texts, texts_under, unreadable_body};
use crate::text::texts;
use vstd::prelude::*;

verus! {

/// The reply to the caller, from the body of the backend's answer: the
/// `index` of each item of the list that has a text there, and none where
/// the answer is no list.
pub open spec fn indices_reply(body: JsonValue) -> JsonValue {
    JsonValue::empty_object().with(
        "indices"@,
        JsonValue::Array(
            text_values(
                texts_under(
                    match body {
                        JsonValue::Array(items) => items,
                        _ => Seq::empty(),
                    },
                    "index"@,
                ),
            ),
        ),
    )
}

/// The reply to the caller, from the body of the backend's answer.
pub fn indices_from(body: &Json) -> (r: Json)
    ensures
        r@ == indices_reply(body@),
{
    let names = match body.as_array() {
        Some(items) => collect_texts(items, "index"),
        None => {
            let none: Vec<String> = Vec::new();
            assert(texts(none@) =~= texts_under(Seq::empty(), "index"@));
            none
        },
    };
    Json::object().with("indices", Json::texts(&names))
}

/// The reply to the caller for what the backend gave, where `parsed` is
/// what the body of an answer reads as JSON: the names of an answer, none
/// for an answer that is not JSON, and the reason of a failure.
pub open spec fn indices_outcome(outcome: SearchOutcome, parsed: Option<JsonValue>) -> JsonValue {
    match outcome {
        SearchOutcome::Failed(reason) => error_of("Error indexing logs: "@, reason@),
        SearchOutcome::Answered(_) => match parsed {
            Some(body) => indices_reply(body),
            None => indices_reply(unreadable_body()),
        },
    }
}

/// The reply to the caller for what the backend gave.
pub fn get_indices(outcome: &SearchOutcome) -> (r: Json)
    ensures
        r@ == indices_outcome(*outcome, parsed_body(*outcome)),
{
    match outcome {
        SearchOutcome::Failed(reason) => error("Error indexing logs: ", reason.as_str()),
        SearchOutcome::Answered(_) => match outcome.body() {
            Some(body) => indices_from(&body),
            None => indices_from(
                &Json::object().with("error", Json::text("Failed to parse response")),
            ),
        },
    }
}

} // verus!

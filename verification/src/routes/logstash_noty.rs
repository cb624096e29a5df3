//! The notification that the log pipeline sends.

use crate::json::{Json, JsonValue};
use vstd::prelude::*;

verus! {

/// The reply to a notification, whatever it says.
pub open spec fn notification_reply() -> JsonValue {
    JsonValue::empty_object().with("results"@, JsonValue::Text("ok"@))
}

/// The reply to the notification `request`: it is taken note of, and that
/// is all.
pub fn logstash_noty(request: &Json) -> (r: Json)
    ensures
        r@ == notification_reply(),
{
    Json::object().with("results", Json::text("ok"))
}

} // verus!

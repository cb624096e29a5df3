//! The aggregator: one inventory of the whole fleet.
//!
//! For each edge address the caller opens a connection, sends the discovery
//! request and waits for one reply, all under a deadline. This module decides
//! what each event on such a connection means, and merges what the edges
//! answered. An edge that fails in any way is left out of the merged result;
//! it never fails the others.

use crate::json::{json_parsed, lookup, value_of, Json, JsonValue};
use crate::text::{join, join3, same_text};
use crate::websocket::{response_document, Incoming, ServiceFilesView, DISCOVER};
use vstd::prelude::*;

verus! {

/// The seconds that an edge has to accept the connection.
pub const CONNECT_TIMEOUT_SECS: u64 = 3;

/// The seconds that the caller waits for an edge, all told.
pub const EDGE_TIMEOUT_SECS: u64 = 2;

/// The address to connect to for the edge at `address`.
pub fn edge_url(address: &str) -> (r: String)
    ensures
        r@ == "ws://"@ + address@,
{
    join("ws://", address)
}

/// How the exchange with one edge ended.
#[derive(Debug, PartialEq)]
pub enum EdgeOutcome {
    /// The edge answered with its inventory.
    Reply(Json),
    /// The connection could not be opened, for the reason given.
    ConnectFailed(String),
    /// The deadline passed.
    TimedOut,
    /// The edge answered with something that is no inventory.
    Malformed,
    /// The edge went away without an answer.
    NoReply,
}

/// The mathematical value of an [`EdgeOutcome`].
pub ghost enum EdgeOutcomeView {
    Reply(JsonValue),
    ConnectFailed(Seq<char>),
    TimedOut,
    Malformed,
    NoReply,
}

impl View for EdgeOutcome {
    type V = EdgeOutcomeView;

    open spec fn view(&self) -> EdgeOutcomeView {
        match self {
            EdgeOutcome::Reply(doc) => EdgeOutcomeView::Reply(doc@),
            EdgeOutcome::ConnectFailed(reason) => EdgeOutcomeView::ConnectFailed(reason@),
            EdgeOutcome::TimedOut => EdgeOutcomeView::TimedOut,
            EdgeOutcome::Malformed => EdgeOutcomeView::Malformed,
            EdgeOutcome::NoReply => EdgeOutcomeView::NoReply,
        }
    }
}

/// The value of an optional outcome.
pub open spec fn outcome_view(outcome: Option<EdgeOutcome>) -> Option<EdgeOutcomeView> {
    match outcome {
        Some(o) => Some(o@),
        None => None,
    }
}

/// What is to be said of an outcome for the edge at `address`; nothing of a
/// reply.
pub open spec fn report_of(outcome: EdgeOutcomeView, address: Seq<char>) -> Option<Seq<char>> {
    match outcome {
        EdgeOutcomeView::Reply(_) => None,
        EdgeOutcomeView::ConnectFailed(reason) => Some(
            "WebSocketClient::connect failed for "@ + address + ": Failed to connect: "@ + reason,
        ),
        EdgeOutcomeView::TimedOut => Some("WebSocketClient::connect timed out for "@ + address),
        EdgeOutcomeView::Malformed => Some("No valid data received for "@ + address),
        EdgeOutcomeView::NoReply => Some("No valid data received for "@ + address),
    }
}

impl EdgeOutcome {
    /// What is to be said of the outcome for the edge at `address`.
    pub fn report(&self, address: &str) -> (r: Option<String>)
        ensures
            match r {
                Some(line) => report_of(self@, address@) == Some(line@),
                None => report_of(self@, address@) is None,
            },
    {
        match self {
            EdgeOutcome::Reply(_) => None,
            EdgeOutcome::ConnectFailed(reason) => {
                let head = join3(
                    "WebSocketClient::connect failed for ",
                    address,
                    ": Failed to connect: ",
                );
                Some(join(head.as_str(), reason.as_str()))
            },
            EdgeOutcome::TimedOut => Some(join("WebSocketClient::connect timed out for ", address)),
            EdgeOutcome::Malformed => Some(join("No valid data received for ", address)),
            EdgeOutcome::NoReply => Some(join("No valid data received for ", address)),
        }
    }
}

/// The inventory that a reply holds, where `parsed` is what the reply reads
/// as JSON: the document itself where its `cmd` names the discovery command,
/// nothing otherwise.
pub open spec fn reply_in(parsed: Option<JsonValue>) -> Option<JsonValue> {
    match parsed {
        Some(doc) => if doc.text_at("cmd"@) == Some(DISCOVER@) {
            Some(doc)
        } else {
            None
        },
        None => None,
    }
}

/// What an agent answers to a discovery request is taken as an inventory:
/// the document of a reply whose command is the discovery command holds
/// itself.
pub proof fn lemma_reply_is_taken(services: Seq<ServiceFilesView>)
    ensures
        reply_in(Some(response_document(DISCOVER@, services))) == Some(
            response_document(DISCOVER@, services),
        ),
{
    reveal_strlit("cmd");
    reveal_strlit("services");
    let doc = response_document(DISCOVER@, services);
    let members = doc->Object_0;
    assert("cmd"@.len() == 3);
    assert("services"@.len() == 8);
    assert(members.len() == 2);
    assert(members.last().0 == "services"@);
    assert(members.drop_last().last() == ("cmd"@, JsonValue::Text(DISCOVER@)));
    assert(lookup(members.drop_last(), "cmd"@) == Some(JsonValue::Text(DISCOVER@)));
    assert(lookup(members, "cmd"@) == Some(JsonValue::Text(DISCOVER@)));
}

/// The inventory that a reply holds, given what the reply reads as JSON.
pub fn accept_reply(parsed: Option<Json>) -> (r: Option<Json>)
    ensures
        value_of(r) == reply_in(value_of(parsed)),
{
    match parsed {
        Some(doc) => {
            let named = match doc.text_at("cmd") {
                Some(cmd) => same_text(cmd.as_str(), DISCOVER),
                None => false,
            };
            if named {
                Some(doc)
            } else {
                None
            }
        },
        None => None,
    }
}

/// The inventory that the reply `text` holds.
pub fn decode_reply(text: &str) -> (r: Option<Json>)
    ensures
        value_of(r) == reply_in(json_parsed(text@)),
{
    accept_reply(Json::from_text(text))
}

/// Where the exchange with one edge stands.
#[derive(Debug, Clone, Copy, PartialEq, Eq, Structural)]
pub enum ClientState {
    /// The connection is being opened.
    Connecting,
    /// The request is sent; the reply is awaited.
    AwaitingReply,
    /// The exchange is over.
    Finished,
}

/// What happened in the exchange with one edge.
#[derive(Debug, Clone, PartialEq, Eq)]
pub enum ClientEvent {
    /// The connection is open.
    Connected,
    /// The connection could not be opened, for the reason given.
    ConnectFailed(String),
    /// The deadline passed.
    TimedOut,
    /// A message came.
    Received(Incoming),
    /// The edge went away.
    Ended,
}

/// What the caller is to do next in the exchange with one edge.
#[derive(Debug, Clone, Copy, PartialEq, Eq, Structural)]
pub enum ClientAction {
    /// Send the discovery request.
    SendDiscovery,
    /// Wait for the next event.
    Wait,
    /// Drop the connection and whatever still comes on it.
    Stop,
}

/// One step of the exchange with one edge.
#[derive(Debug, PartialEq)]
pub struct ClientStep {
    /// Where the exchange stands after the event.
    pub state: ClientState,
    /// What the caller is to do.
    pub action: ClientAction,
    /// How the exchange ended, where this event ended it.
    pub outcome: Option<EdgeOutcome>,
}

/// What a message that comes while the reply is awaited means for the
/// exchange, where `parsed` is what a text message reads as JSON: a text
/// message is the reply and ends the exchange, as a reply where it holds an
/// inventory and as malformed where it does not; any other message is passed
/// over.
pub open spec fn outcome_of_message(message: Incoming, parsed: Option<JsonValue>) -> Option<
    EdgeOutcomeView,
> {
    match message {
        Incoming::Text(_) => match reply_in(parsed) {
            Some(doc) => Some(EdgeOutcomeView::Reply(doc)),
            None => Some(EdgeOutcomeView::Malformed),
        },
        _ => None,
    }
}

/// How `event` ends the exchange that stands at `state`, where `parsed` is
/// what a text message reads as JSON; `None` where it does not end it.
///
/// Nothing ends an exchange that is over. The deadline ends any other. A
/// failure to connect ends the attempt to. While the reply is awaited, the
/// first text message ends the exchange, and so does the edge's going away.
pub open spec fn outcome_on(
    state: ClientState,
    event: ClientEvent,
    parsed: Option<JsonValue>,
) -> Option<EdgeOutcomeView> {
    match state {
        ClientState::Finished => None,
        ClientState::Connecting => match event {
            ClientEvent::ConnectFailed(reason) => Some(EdgeOutcomeView::ConnectFailed(reason@)),
            ClientEvent::TimedOut => Some(EdgeOutcomeView::TimedOut),
            _ => None,
        },
        ClientState::AwaitingReply => match event {
            ClientEvent::TimedOut => Some(EdgeOutcomeView::TimedOut),
            ClientEvent::Received(message) => outcome_of_message(message, parsed),
            ClientEvent::Ended => Some(EdgeOutcomeView::NoReply),
            _ => None,
        },
    }
}

/// Where the exchange stands after `event`, given how the event ends it.
pub open spec fn state_on(
    state: ClientState,
    event: ClientEvent,
    outcome: Option<EdgeOutcomeView>,
) -> ClientState {
    if outcome is Some {
        ClientState::Finished
    } else if state is Connecting && event is Connected {
        ClientState::AwaitingReply
    } else {
        state
    }
}

/// What the caller is to do after `event`, given how the event ends the
/// exchange: send the request once the connection is open, stop where the
/// exchange is over, wait otherwise.
pub open spec fn action_on(
    state: ClientState,
    event: ClientEvent,
    outcome: Option<EdgeOutcomeView>,
) -> ClientAction {
    if outcome is Some || state is Finished {
        ClientAction::Stop
    } else if state is Connecting && event is Connected {
        ClientAction::SendDiscovery
    } else {
        ClientAction::Wait
    }
}

/// What a text message reads as JSON; nothing for any other event.
pub open spec fn parsed_on(event: ClientEvent) -> Option<JsonValue> {
    match event {
        ClientEvent::Received(Incoming::Text(text)) => json_parsed(text@),
        _ => None,
    }
}

/// The exchange with one edge.
pub struct WebSocketClient {
    state: ClientState,
}

impl WebSocketClient {
    /// Where the exchange stands.
    pub closed spec fn standing(&self) -> ClientState {
        self.state
    }

    /// Begins the exchange with the edge at `address`: the exchange, about
    /// to open its connection, and the address to connect to.
    pub fn connect(address: &str) -> (r: (WebSocketClient, String))
        ensures
            r.0.standing() == ClientState::Connecting,
            r.1@ == "ws://"@ + address@,
    {
        (WebSocketClient { state: ClientState::Connecting }, edge_url(address))
    }

    /// Where the exchange stands.
    pub fn state(&self) -> (r: ClientState)
        ensures
            r == self.standing(),
    {
        self.state
    }

    /// Takes one event, given what a text message reads as JSON.
    pub fn advance(&mut self, event: &ClientEvent, parsed: Option<Json>) -> (r: ClientStep)
        ensures
            outcome_view(r.outcome) == outcome_on(old(self).standing(), *event, value_of(parsed)),
            r.state == state_on(old(self).standing(), *event, outcome_view(r.outcome)),
            r.action == action_on(old(self).standing(), *event, outcome_view(r.outcome)),
            final(self).standing() == r.state,
    {
        let outcome = match self.state {
            ClientState::Finished => None,
            ClientState::Connecting => match event {
                ClientEvent::ConnectFailed(reason) => Some(EdgeOutcome::ConnectFailed(reason.clone())),
                ClientEvent::TimedOut => Some(EdgeOutcome::TimedOut),
                _ => None,
            },
            ClientState::AwaitingReply => match event {
                ClientEvent::TimedOut => Some(EdgeOutcome::TimedOut),
                ClientEvent::Received(message) => match message {
                    Incoming::Text(_) => match accept_reply(parsed) {
                        Some(doc) => Some(EdgeOutcome::Reply(doc)),
                        None => Some(EdgeOutcome::Malformed),
                    },
                    _ => None,
                },
                ClientEvent::Ended => Some(EdgeOutcome::NoReply),
                _ => None,
            },
        };
        let opened = match (self.state, event) {
            (ClientState::Connecting, ClientEvent::Connected) => true,
            _ => false,
        };
        let state = if outcome.is_some() {
            ClientState::Finished
        } else if opened {
            ClientState::AwaitingReply
        } else {
            self.state
        };
        let action = if outcome.is_some() {
            ClientAction::Stop
        } else {
            match self.state {
                ClientState::Finished => ClientAction::Stop,
                _ => if opened {
                    ClientAction::SendDiscovery
                } else {
                    ClientAction::Wait
                },
            }
        };
        self.state = state;
        ClientStep { state, action, outcome }
    }

    /// Takes one event.
    pub fn get_log_source(&mut self, event: &ClientEvent) -> (r: ClientStep)
        ensures
            outcome_view(r.outcome) == outcome_on(old(self).standing(), *event, parsed_on(*event)),
            r.state == state_on(old(self).standing(), *event, outcome_view(r.outcome)),
            r.action == action_on(old(self).standing(), *event, outcome_view(r.outcome)),
            final(self).standing() == r.state,
    {
        match event {
            ClientEvent::Received(Incoming::Text(text)) => {
                let parsed = Json::from_text(text.as_str());
                self.advance(event, parsed)
            },
            _ => self.advance(event, None),
        }
    }
}

/// The index of the member `key` among `members`, or their number where
/// there is none.
pub open spec fn position(members: Seq<(Seq<char>, JsonValue)>, key: Seq<char>) -> int
    decreases members.len(),
{
    if members.len() == 0 {
        0
    } else if members[0].0 == key {
        0
    } else {
        1 + position(members.drop_first(), key)
    }
}

/// `members` with `value` for the member `key`: in the place of the first
/// member of that key, or at the end where there is none.
pub open spec fn put(
    members: Seq<(Seq<char>, JsonValue)>,
    key: Seq<char>,
    value: JsonValue,
) -> Seq<(Seq<char>, JsonValue)> {
    let at = position(members, key);
    if at < members.len() {
        members.update(at, (key, value))
    } else {
        members.push((key, value))
    }
}

/// The members of the merged result of `results`, each an edge's address and
/// how the exchange with it ended: one member for each address that
/// answered, in the order of the first time the address stands in the list,
/// with the last answer from that address.
pub open spec fn merged(results: Seq<(Seq<char>, EdgeOutcomeView)>) -> Seq<(Seq<char>, JsonValue)>
    decreases results.len(),
{
    if results.len() == 0 {
        Seq::empty()
    } else {
        let before = merged(results.drop_last());
        match results.last().1 {
            EdgeOutcomeView::Reply(doc) => put(before, results.last().0, doc),
            _ => before,
        }
    }
}

/// The address and the outcome's value of each result of a list, in order.
pub open spec fn result_views(results: Seq<(String, EdgeOutcome)>) -> Seq<(Seq<char>, EdgeOutcomeView)> {
    Seq::new(results.len(), |i: int| (results[i].0@, results[i].1@))
}

/// How many of `results` are answers.
pub open spec fn answers(results: Seq<(Seq<char>, EdgeOutcomeView)>) -> nat
    decreases results.len(),
{
    if results.len() == 0 {
        0
    } else {
        answers(results.drop_last()) + if results.last().1 is Reply {
            1nat
        } else {
            0nat
        }
    }
}

/// How many of `results` are failures.
pub open spec fn failures(results: Seq<(Seq<char>, EdgeOutcomeView)>) -> nat {
    (results.len() - answers(results)) as nat
}

/// Whether no address stands twice in `results`.
pub open spec fn distinct_addresses(results: Seq<(Seq<char>, EdgeOutcomeView)>) -> bool {
    forall|i: int, j: int|
        0 <= i < results.len() && 0 <= j < results.len() && i != j ==> (#[trigger] results[i]).0
            != (#[trigger] results[j]).0
}

/// Whether `key` is the key of one of `members`.
pub open spec fn has_key(members: Seq<(Seq<char>, JsonValue)>, key: Seq<char>) -> bool {
    exists|i: int| 0 <= i < members.len() && (#[trigger] members[i]).0 == key
}

/// Whether no key stands twice in `members`.
pub open spec fn distinct_keys(members: Seq<(Seq<char>, JsonValue)>) -> bool {
    forall|i: int, j: int|
        0 <= i < members.len() && 0 <= j < members.len() && i != j ==> (#[trigger] members[i]).0
            != (#[trigger] members[j]).0
}

/// The position of a key is that of a member with this key, or the number of
/// members where no member has it.
pub proof fn lemma_position(members: Seq<(Seq<char>, JsonValue)>, key: Seq<char>)
    ensures
        0 <= position(members, key) <= members.len(),
        position(members, key) < members.len() ==> members[position(members, key)].0 == key,
        forall|i: int| 0 <= i < position(members, key) ==> (#[trigger] members[i]).0 != key,
        position(members, key) == members.len() <==> !has_key(members, key),
    decreases members.len(),
{
    if members.len() == 0 {
    } else if members[0].0 == key {
        assert(has_key(members, key));
    } else {
        let rest = members.drop_first();
        lemma_position(rest, key);
        let at = position(rest, key);
        assert forall|i: int| 0 <= i < 1 + at implies (#[trigger] members[i]).0 != key by {
            if i > 0 {
                assert(rest[i - 1] == members[i]);
            }
        }
        if at < rest.len() {
            assert(members[1 + at] == rest[at]);
            assert(has_key(members, key));
        } else {
            if has_key(members, key) {
                let i = choose|i: int| 0 <= i < members.len() && (#[trigger] members[i]).0 == key;
                assert(rest[i - 1] == members[i]);
                assert(has_key(rest, key));
            }
        }
    }
}

/// Putting a member keeps the keys distinct, keeps every other key, and adds
/// one member exactly where the key is new.
pub proof fn lemma_put(members: Seq<(Seq<char>, JsonValue)>, key: Seq<char>, value: JsonValue)
    requires
        distinct_keys(members),
    ensures
        distinct_keys(put(members, key, value)),
        has_key(put(members, key, value), key),
        forall|other: Seq<char>|
            other != key ==> (has_key(put(members, key, value), other) <==> has_key(members, other)),
        put(members, key, value).len() == members.len() + if has_key(members, key) {
            0int
        } else {
            1int
        },
{
    lemma_position(members, key);
    let at = position(members, key);
    let after = put(members, key, value);
    if at < members.len() {
        assert(after[at].0 == key);
        assert forall|other: Seq<char>| other != key implies (has_key(after, other) <==> has_key(
            members,
            other,
        )) by {
            if has_key(after, other) {
                let i = choose|i: int| 0 <= i < after.len() && (#[trigger] after[i]).0 == other;
                assert(members[i].0 == other);
            }
            if has_key(members, other) {
                let i = choose|i: int| 0 <= i < members.len() && (#[trigger] members[i]).0 == other;
                assert(after[i].0 == other);
            }
        }
        assert forall|i: int, j: int|
            0 <= i < after.len() && 0 <= j < after.len() && i != j implies (#[trigger] after[i]).0
            != (#[trigger] after[j]).0 by {
            assert(after[i].0 == members[i].0);
            assert(after[j].0 == members[j].0);
        }
    } else {
        assert(after[members.len() as int].0 == key);
        assert forall|other: Seq<char>| other != key implies (has_key(after, other) <==> has_key(
            members,
            other,
        )) by {
            if has_key(after, other) {
                let i = choose|i: int| 0 <= i < after.len() && (#[trigger] after[i]).0 == other;
                assert(members[i].0 == other);
            }
            if has_key(members, other) {
                let i = choose|i: int| 0 <= i < members.len() && (#[trigger] members[i]).0 == other;
                assert(after[i].0 == other);
            }
        }
        assert forall|i: int, j: int|
            0 <= i < after.len() && 0 <= j < after.len() && i != j implies (#[trigger] after[i]).0
            != (#[trigger] after[j]).0 by {
            if i < members.len() {
                assert(after[i] == members[i]);
                assert(has_key(members, members[i].0));
            }
            if j < members.len() {
                assert(after[j] == members[j]);
                assert(has_key(members, members[j].0));
            }
        }
    }
}

/// The merged result has no key twice, and its keys are addresses that
/// answered.
pub proof fn lemma_merged_keys(results: Seq<(Seq<char>, EdgeOutcomeView)>)
    ensures
        distinct_keys(merged(results)),
        forall|key: Seq<char>|
            has_key(merged(results), key) <==> exists|i: int|
                0 <= i < results.len() && (#[trigger] results[i]).0 == key && results[i].1 is Reply,
    decreases results.len(),
{
    if results.len() == 0 {
        assert forall|key: Seq<char>| !has_key(merged(results), key) by {}
    } else {
        let earlier = results.drop_last();
        lemma_merged_keys(earlier);
        let before = merged(earlier);
        let last = results.last();
        match last.1 {
            EdgeOutcomeView::Reply(doc) => {
                lemma_put(before, last.0, doc);
            },
            _ => {},
        }
        assert forall|key: Seq<char>|
            has_key(merged(results), key) <==> exists|i: int|
                0 <= i < results.len() && (#[trigger] results[i]).0 == key
                    && results[i].1 is Reply by {
            let answered_earlier = exists|i: int|
                0 <= i < earlier.len() && (#[trigger] earlier[i]).0 == key && earlier[i].1 is Reply;
            let answered = exists|i: int|
                0 <= i < results.len() && (#[trigger] results[i]).0 == key && results[i].1 is Reply;
            assert(has_key(before, key) <==> answered_earlier);
            assert(results[results.len() - 1] == last);
            if answered_earlier {
                let i = choose|i: int|
                    0 <= i < earlier.len() && (#[trigger] earlier[i]).0 == key
                        && earlier[i].1 is Reply;
                assert(results[i] == earlier[i]);
                assert(answered);
            }
            if last.1 is Reply && last.0 == key {
                assert(answered);
            }
            if answered {
                let i = choose|i: int|
                    0 <= i < results.len() && (#[trigger] results[i]).0 == key
                        && results[i].1 is Reply;
                if i < earlier.len() {
                    assert(earlier[i] == results[i]);
                    assert(answered_earlier);
                } else {
                    assert(last.1 is Reply && last.0 == key);
                }
            }
            if last.1 is Reply {
                if last.0 == key {
                    assert(has_key(merged(results), key));
                } else {
                    assert(has_key(merged(results), key) <==> has_key(before, key));
                }
            } else {
                assert(merged(results) == before);
            }
        }
    }
}

/// Of edges that are all at different addresses, the merged result has one
/// member for each that answered and none for the others: as many as there
/// are edges, less those that failed.
pub proof fn lemma_merged_count(results: Seq<(Seq<char>, EdgeOutcomeView)>)
    requires
        distinct_addresses(results),
    ensures
        merged(results).len() == answers(results),
        merged(results).len() == results.len() - failures(results),
        answers(results) <= results.len(),
    decreases results.len(),
{
    if results.len() == 0 {
    } else {
        let earlier = results.drop_last();
        assert(distinct_addresses(earlier)) by {
            assert forall|i: int, j: int|
                0 <= i < earlier.len() && 0 <= j < earlier.len() && i != j implies (
                #[trigger] earlier[i]).0 != (#[trigger] earlier[j]).0 by {
                assert(earlier[i] == results[i]);
                assert(earlier[j] == results[j]);
            }
        }
        lemma_merged_count(earlier);
        lemma_merged_keys(earlier);
        let before = merged(earlier);
        let last = results.last();
        match last.1 {
            EdgeOutcomeView::Reply(doc) => {
                lemma_put(before, last.0, doc);
                if has_key(before, last.0) {
                    let i = choose|i: int|
                        0 <= i < earlier.len() && (#[trigger] earlier[i]).0 == last.0
                            && earlier[i].1 is Reply;
                    assert(results[i] == earlier[i]);
                    assert(results[results.len() - 1] == last);
                    assert(false);
                }
            },
            _ => {},
        }
    }
}

/// Each edge that answered, at an address that no other edge has, is in the
/// merged result with its answer, whatever the order of the edges.
pub proof fn lemma_merged_holds_each_answer(results: Seq<(Seq<char>, EdgeOutcomeView)>, k: int)
    requires
        distinct_addresses(results),
        0 <= k < results.len(),
        results[k].1 is Reply,
    ensures
        position(merged(results), results[k].0) < merged(results).len(),
        merged(results)[position(merged(results), results[k].0)] == (
            results[k].0,
            results[k].1->Reply_0,
        ),
    decreases results.len(),
{
    let earlier = results.drop_last();
    let before = merged(earlier);
    let last = results.last();
    let key = results[k].0;
    assert(distinct_addresses(earlier)) by {
        assert forall|i: int, j: int|
            0 <= i < earlier.len() && 0 <= j < earlier.len() && i != j implies (
            #[trigger] earlier[i]).0 != (#[trigger] earlier[j]).0 by {
            assert(earlier[i] == results[i]);
            assert(earlier[j] == results[j]);
        }
    }
    lemma_merged_keys(earlier);
    lemma_position(before, key);
    if k == results.len() - 1 {
        let doc = last.1->Reply_0;
        lemma_put(before, key, doc);
        if has_key(before, key) {
            let i = choose|i: int|
                0 <= i < earlier.len() && (#[trigger] earlier[i]).0 == key && earlier[i].1 is Reply;
            assert(results[i] == earlier[i]);
            assert(false);
        }
        let after = put(before, key, doc);
        assert(after == before.push((key, doc)));
        lemma_position(after, key);
        assert(position(after, key) == before.len()) by {
            let at = position(after, key);
            if at < before.len() {
                assert(after[at] == before[at]);
                assert(has_key(before, key));
            }
        }
    } else {
        assert(earlier[k] == results[k]);
        lemma_merged_holds_each_answer(earlier, k);
        let at = position(before, key);
        match last.1 {
            EdgeOutcomeView::Reply(doc) => {
                assert(results[results.len() - 1] == last);
                assert(last.0 != key);
                lemma_position(before, last.0);
                let after = put(before, last.0, doc);
                let other = position(before, last.0);
                assert(other != at);
                assert(after[at] == before[at]);
                lemma_position(after, key);
                let found = position(after, key);
                assert(found == at) by {
                    if found < at {
                        assert(after[found].0 == key);
                        if found == other {
                        } else {
                            assert(after[found] == before[found]);
                        }
                    }
                    if found > at {
                        assert(after[at].0 == key);
                    }
                }
            },
            _ => {},
        }
    }
}

/// Of edges that are all at different addresses, the members of the merged
/// result are exactly the addresses that answered, each with its answer.
pub proof fn lemma_merged_members(
    results: Seq<(Seq<char>, EdgeOutcomeView)>,
    key: Seq<char>,
    value: JsonValue,
)
    requires
        distinct_addresses(results),
    ensures
        merged(results).contains((key, value)) <==> results.contains(
            (key, EdgeOutcomeView::Reply(value)),
        ),
{
    lemma_merged_keys(results);
    let members = merged(results);
    lemma_position(members, key);
    if results.contains((key, EdgeOutcomeView::Reply(value))) {
        let k = choose|k: int|
            0 <= k < results.len() && results[k] == (key, EdgeOutcomeView::Reply(value));
        lemma_merged_holds_each_answer(results, k);
        assert(members[position(members, key)] == (key, value));
        assert(members.contains((key, value)));
    }
    if members.contains((key, value)) {
        let m = choose|m: int| 0 <= m < members.len() && members[m] == (key, value);
        assert(members[m].0 == key);
        assert(has_key(members, key));
        let k = choose|k: int|
            0 <= k < results.len() && (#[trigger] results[k]).0 == key && results[k].1 is Reply;
        lemma_merged_holds_each_answer(results, k);
        let at = position(members, key);
        assert(0 <= at < members.len());
        assert(members[at].0 == key);
        assert(at == m) by {
            if at != m {
                assert(distinct_keys(members));
                assert(members[at].0 != members[m].0);
            }
        }
        assert(results[k].1->Reply_0 == value);
        assert(results[k].1 == EdgeOutcomeView::Reply(value));
        assert(results[k] == (key, EdgeOutcomeView::Reply(value)));
        assert(results.contains((key, EdgeOutcomeView::Reply(value))));
    }
}

/// The merge does not go by the order of the edges: two lists of the same
/// results, each of edges at different addresses, merge to the same
/// members.
pub proof fn lemma_merge_is_commutative(
    a: Seq<(Seq<char>, EdgeOutcomeView)>,
    b: Seq<(Seq<char>, EdgeOutcomeView)>,
)
    requires
        distinct_addresses(a),
        distinct_addresses(b),
        forall|result: (Seq<char>, EdgeOutcomeView)| a.contains(result) <==> b.contains(result),
    ensures
        merged(a).to_set() == merged(b).to_set(),
        merged(a).len() == merged(b).len(),
{
    assert forall|member: (Seq<char>, JsonValue)|
        merged(a).contains(member) <==> merged(b).contains(member) by {
        lemma_merged_members(a, member.0, member.1);
        lemma_merged_members(b, member.0, member.1);
    }
    assert(merged(a).to_set() =~= merged(b).to_set());
    lemma_merged_keys(a);
    lemma_merged_keys(b);
    lemma_distinct_members(merged(a));
    lemma_distinct_members(merged(b));
    merged(a).unique_seq_to_set();
    merged(b).unique_seq_to_set();
}

/// Members with different keys are different members.
pub proof fn lemma_distinct_members(members: Seq<(Seq<char>, JsonValue)>)
    requires
        distinct_keys(members),
    ensures
        members.no_duplicates(),
{
    assert forall|i: int, j: int|
        0 <= i < members.len() && 0 <= j < members.len() && i != j implies members[i]
        != members[j] by {
        assert(members[i].0 != members[j].0);
    }
}

/// No edges merge to nothing: the result has no member.
pub proof fn lemma_no_edges_merge_to_nothing()
    ensures
        merged(Seq::<(Seq<char>, EdgeOutcomeView)>::empty()) == Seq::<
            (Seq<char>, JsonValue),
        >::empty(),
{
}

/// An exchange that is over stays over: nothing that comes later, a late
/// reply least of all, gives it another outcome.
pub proof fn lemma_finished_is_final(event: ClientEvent, parsed: Option<JsonValue>)
    ensures
        outcome_on(ClientState::Finished, event, parsed) is None,
        state_on(ClientState::Finished, event, outcome_on(ClientState::Finished, event, parsed))
            == ClientState::Finished,
        action_on(ClientState::Finished, event, outcome_on(ClientState::Finished, event, parsed))
            == ClientAction::Stop,
{
}

/// The deadline ends every exchange that is not over, and leaves the edge
/// without an answer.
pub proof fn lemma_deadline_ends_the_exchange(state: ClientState, parsed: Option<JsonValue>)
    requires
        !(state is Finished),
    ensures
        outcome_on(state, ClientEvent::TimedOut, parsed) == Some(EdgeOutcomeView::TimedOut),
        state_on(state, ClientEvent::TimedOut, outcome_on(state, ClientEvent::TimedOut, parsed))
            == ClientState::Finished,
{
}

/// An exchange has an outcome exactly when it comes to its end.
pub proof fn lemma_outcome_at_the_end(
    state: ClientState,
    event: ClientEvent,
    parsed: Option<JsonValue>,
)
    requires
        !(state is Finished),
    ensures
        outcome_on(state, event, parsed) is Some <==> state_on(
            state,
            event,
            outcome_on(state, event, parsed),
        ) is Finished,
{
}

/// Merges what the edges answered: an object with one member for each
/// address that answered, whose key is the address and whose value is the
/// answer. An edge that failed has no member. No edges give the empty
/// object.
pub fn discover_node(results: &Vec<(String, EdgeOutcome)>) -> (r: Json)
    ensures
        r@ == JsonValue::Object(merged(result_views(results@))),
{
    let mut members: Vec<(String, Json)> = Vec::new();
    let mut i: usize = 0;
    assert(result_views(results@).take(0) =~= Seq::empty());
    assert(crate::json::members_of(members@) =~= Seq::empty());
    while i < results.len()
        invariant
            i <= results.len(),
            crate::json::members_of(members@) == merged(result_views(results@).take(i as int)),
        decreases results.len() - i,
    {
        let ghost views = result_views(results@);
        assert(views.take(i + 1).drop_last() =~= views.take(i as int));
        assert(views.take(i + 1).last() == (results@[i as int].0@, results@[i as int].1@));
        match &results[i].1 {
            EdgeOutcome::Reply(doc) => {
                let ghost before = crate::json::members_of(members@);
                let key = &results[i].0;
                let mut at: usize = 0;
                proof {
                    lemma_position(before, key@);
                }
                while at < members.len() && !same_text(members[at].0.as_str(), key.as_str())
                    invariant
                        at <= members.len(),
                        before == crate::json::members_of(members@),
                        forall|j: int| 0 <= j < at ==> (#[trigger] before[j]).0 != key@,
                    decreases members.len() - at,
                {
                    assert(before[at as int].0 == members@[at as int].0@);
                    at = at + 1;
                }
                proof {
                    if at < members.len() {
                        assert(before[at as int].0 == members@[at as int].0@);
                        assert(has_key(before, key@));
                    } else {
                        assert(!has_key(before, key@));
                    }
                    assert(position(before, key@) == at) by {
                        let p = position(before, key@);
                        if p < at {
                            assert(before[p].0 == key@);
                        }
                        if p > at {
                            assert(before[at as int].0 == key@);
                        }
                    }
                }
                if at < members.len() {
                    members.set(at, (key.clone(), doc.duplicate()));
                } else {
                    members.push((key.clone(), doc.duplicate()));
                }
                assert(crate::json::members_of(members@) =~= put(before, key@, doc@));
            },
            _ => {},
        }
        i = i + 1;
    }
    assert(result_views(results@).take(i as int) =~= result_views(results@));
    proof {
        crate::json::lemma_object_value(members);
    }
    Json::Object(members)
}

} // verus!

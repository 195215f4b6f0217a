//! Values exchanged with the bus's clients, and publishing a batch of envelopes.
use vstd::prelude::*;
use vstd::string::*;

use crate::convert::{
    admitted, convert_error_text, json_to_proto_event, rejection_text, ConvertError, JsonEvent,
};
use crate::rng::{dec, decimal};
use crate::event::{topic_of, type_of_wire_name};
use crate::routing::{route_chain, routed, routes_all, EventRouter, EventSink};

verus! {

/// The body of a reply to a publish request.
#[derive(Debug)]
pub struct ApiResponse {
    pub status: String,
    pub message: Option<String>,
    pub error: Option<String>,
}

impl ApiResponse {
    /// A success reply.
    pub fn ok() -> (r: Self)
        ensures
            r.status@ == "ok"@,
            r.message is None,
            r.error is None,
    {
        ApiResponse { status: String::from_str("ok"), message: None, error: None }
    }

    /// A failure reply carrying `msg`.
    pub fn error(msg: String) -> (r: Self)
        ensures
            r.status@ == "error"@,
            r.message is None,
            r.error matches Some(e) && e@ == msg@,
    {
        ApiResponse { status: String::from_str("error"), message: None, error: Some(msg) }
    }
}

/// The body of a health reply.
#[derive(Debug)]
pub struct HealthResponse {
    pub status: String,
    pub version: String,
    pub uptime_seconds: u64,
    pub metadata: Vec<(String, String)>,
}

impl HealthResponse {
    /// A healthy reply naming the service and its protocol version.
    pub fn healthy(version: String, uptime_seconds: u64) -> (r: Self)
        ensures
            r.status@ == "healthy"@,
            r.version@ == version@,
            r.uptime_seconds == uptime_seconds,
            r.metadata@.len() == 2,
            r.metadata@[0].0@ == "service"@ && r.metadata@[0].1@ == "event-bus-rust"@,
            r.metadata@[1].0@ == "protocol_version"@ && r.metadata@[1].1@ == "1.0"@,
    {
        let mut metadata: Vec<(String, String)> = Vec::new();
        metadata.push((String::from_str("service"), String::from_str("event-bus-rust")));
        metadata.push((String::from_str("protocol_version"), String::from_str("1.0")));
        HealthResponse { status: String::from_str("healthy"), version, uptime_seconds, metadata }
    }
}

/// The reply to a publish over the RPC surface.
#[derive(Debug, Clone)]
pub struct PublishResponse {
    pub success: bool,
    pub message: String,
}

/// A request to stream the events of a topic pattern.
#[derive(Debug, Clone)]
pub struct SubscribeRequest {
    pub topic_pattern: String,
    pub subscriber_id: String,
}

/// The outcome of publishing a batch.
#[derive(Debug)]
pub struct BatchReport {
    /// Envelopes admitted and routed.
    pub processed: usize,
    pub total: usize,
    /// The rejected envelopes, by position in the batch, in order.
    pub errors: Vec<(usize, ConvertError)>,
}

/// The topic an admitted envelope's event is published on.
pub open spec fn envelope_topic(j: JsonEvent) -> Seq<char> {
    topic_of(type_of_wire_name(j.event_type@).unwrap())
}

/// The topics of the admitted envelopes of `events`, in order.
pub open spec fn admitted_topics(events: Seq<JsonEvent>) -> Seq<Seq<char>>
    decreases events.len(),
{
    if events.len() == 0 {
        Seq::empty()
    } else if admitted(events.last()) {
        admitted_topics(events.drop_last()).push(envelope_topic(events.last()))
    } else {
        admitted_topics(events.drop_last())
    }
}

/// Converts each envelope of `events` and routes the admitted ones; a
/// rejected envelope does not stop the others.
pub fn publish_batch<S: EventSink>(router: &mut EventRouter<S>, events: Vec<JsonEvent>) -> (r: BatchReport)
    ensures
        r.total == events@.len(),
        r.processed + r.errors@.len() == r.total,
        forall|a: int, b: int|
            0 <= a < b < r.errors@.len() ==> r.errors@[a].0 < r.errors@[b].0,
        forall|k: int|
            0 <= k < r.errors@.len() ==> r.errors@[k].0 < events@.len() && !admitted(
                #[trigger] events@[r.errors@[k].0 as int],
            ),
        forall|i: int|
            0 <= i < events@.len() && !admitted(#[trigger] events@[i]) ==> exists|k: int|
                0 <= k < r.errors@.len() && r.errors@[k].0 == i,
        routes_all(old(router).subs(), admitted_topics(events@), final(router).subs()),
{
    let ghost all = events@;
    let total = events.len();
    let mut rest = events;
    let mut errors: Vec<(usize, ConvertError)> = Vec::new();
    let mut processed: usize = 0;
    let mut i: usize = 0;
    assert(all.skip(0) =~= all);
    assert(all.take(0) =~= Seq::<JsonEvent>::empty());
    let ghost mut states = seq![router.subs()];
    while i < total
        invariant
            total == all.len(),
            i <= total,
            rest@ == all.skip(i as int),
            processed + errors@.len() == i,
            forall|a: int, b: int| 0 <= a < b < errors@.len() ==> errors@[a].0 < errors@[b].0,
            forall|k: int| 0 <= k < errors@.len() ==> errors@[k].0 < i,
            forall|k: int|
                0 <= k < errors@.len() ==> !admitted(#[trigger] all[errors@[k].0 as int]),
            forall|j: int|
                0 <= j < i && !admitted(#[trigger] all[j]) ==> exists|k: int|
                    0 <= k < errors@.len() && errors@[k].0 == j,
            route_chain(states, admitted_topics(all.take(i as int))),
            states[0] == old(router).subs(),
            states.last() == router.subs(),
        decreases total - i,
    {
        let json = rest.remove(0);
        assert(json == all[i as int]);
        assert(rest@ =~= all.skip(i + 1));
        let ghost t = all.take(i + 1);
        assert(t.drop_last() =~= all.take(i as int));
        assert(t.last() == json);
        let ghost mid = router.subs();
        match json_to_proto_event(json) {
            Ok(event) => {
                router.route_event(&event);
                processed = processed + 1;
                proof {
                    assert(admitted(all[i as int]));
                    let topics = admitted_topics(t);
                    assert(topics == admitted_topics(all.take(i as int)).push(envelope_topic(all[i as int])));
                    assert(envelope_topic(all[i as int]) == topic_of(event.event_type));
                    assert(topics.drop_last() =~= admitted_topics(all.take(i as int)));
                    let prev = states;
                    states = states.push(router.subs());
                    assert forall|k: int| 0 <= k < topics.len() implies routed(
                        #[trigger] states[k],
                        topics[k],
                        states[k + 1],
                    ) by {
                        if k < topics.len() - 1 {
                            assert(states[k] == prev[k] && states[k + 1] == prev[k + 1]);
                            assert(topics[k] == topics.drop_last()[k]);
                        } else {
                            assert(states[k] == mid);
                        }
                    }
                }
            },
            Err(e) => {
                assert(admitted_topics(t) == admitted_topics(all.take(i as int)));
                let ghost before = errors@;
                errors.push((i, e));
                assert forall|j: int| 0 <= j < i + 1 && !admitted(#[trigger] all[j]) implies exists|k: int|
                    0 <= k < errors@.len() && errors@[k].0 == j by {
                    if j == i as int {
                        assert(errors@[before.len() as int].0 == j);
                    } else {
                        let k = choose|k: int| 0 <= k < before.len() && before[k].0 == j;
                        assert(errors@[k] == before[k]);
                    }
                }
            },
        }
        i = i + 1;
    }
    assert forall|j: int| 0 <= j < all.len() && !admitted(#[trigger] all[j]) implies exists|k: int|
        0 <= k < errors@.len() && errors@[k].0 == j by {}
    assert(all.take(total as int) =~= all);
    assert(route_chain(states, admitted_topics(all)));
    BatchReport { processed, total, errors }
}

/// Converts one envelope and routes it: "ok", or "error" with the reason.
pub fn publish_event<S: EventSink>(router: &mut EventRouter<S>, json: JsonEvent) -> (r: ApiResponse)
    ensures
        admitted(json) ==> r.status@ == "ok"@ && r.error is None && r.message is None,
        admitted(json) ==> routed(old(router).subs(), envelope_topic(json), final(router).subs()),
        !admitted(json) ==> r.status@ == "error"@ && r.message is None && (r.error matches Some(m) && m@
            == "Invalid event format: "@ + rejection_text(json)),
        !admitted(json) ==> final(router).subs() == old(router).subs(),
{
    let ghost j = json;
    match json_to_proto_event(json) {
        Ok(event) => {
            router.route_event(&event);
            ApiResponse::ok()
        },
        Err(e) => {
            let mut m = String::from_str("Invalid event format: ");
            m.append(e.message().as_str());
            assert(convert_error_text(e) == rejection_text(j));
            ApiResponse::error(m)
        },
    }
}

/// The line reporting one rejected envelope of a batch.
pub open spec fn error_line(i: usize, e: ConvertError) -> Seq<char> {
    "Event "@ + dec(i as nat) + ": Invalid format - "@ + convert_error_text(e)
}

/// The lines of the rejected envelopes, joined by ", ".
pub open spec fn error_lines(errors: Seq<(usize, ConvertError)>) -> Seq<char>
    decreases errors.len(),
{
    if errors.len() == 0 {
        Seq::empty()
    } else if errors.len() == 1 {
        error_line(errors[0].0, errors[0].1)
    } else {
        error_lines(errors.drop_last()) + ", "@ + error_line(errors.last().0, errors.last().1)
    }
}

impl BatchReport {
    /// The reply to the batch: "ok" when every envelope was routed, else
    /// "error" with the count processed and a line per rejected envelope.
    pub fn response(&self) -> (r: ApiResponse)
        ensures
            self.errors@.len() == 0 ==> r.status@ == "ok"@ && r.error is None && r.message is None,
            self.errors@.len() > 0 ==> r.status@ == "error"@ && r.message is None && (r.error matches Some(m) && m@
                == "Processed "@ + dec(self.processed as nat) + "/"@ + dec(self.total as nat)
                + " events. Errors: "@ + error_lines(self.errors@)),
    {
        if self.errors.len() == 0 {
            return ApiResponse::ok();
        }
        let mut lines = String::new();
        let mut k: usize = 0;
        while k < self.errors.len()
            invariant
                k <= self.errors@.len(),
                lines@ == error_lines(self.errors@.take(k as int)),
            decreases self.errors@.len() - k,
        {
            let ghost t = self.errors@.take(k + 1);
            assert(t.drop_last() =~= self.errors@.take(k as int));
            assert(t.last() == self.errors@[k as int]);
            let ghost before = lines@;
            if k > 0 {
                lines.append(", ");
            }
            lines.append("Event ");
            lines.append(decimal(self.errors[k].0 as u64).as_str());
            lines.append(": Invalid format - ");
            lines.append(self.errors[k].1.message().as_str());
            proof {
                if k == 0 {
                    assert(t.len() == 1);
                    assert(t[0] == self.errors@[0]);
                    assert(lines@ =~= error_line(t[0].0, t[0].1));
                } else {
                    assert(lines@ =~= before + ", "@ + error_line(t.last().0, t.last().1));
                }
            }
            k = k + 1;
        }
        assert(self.errors@.take(k as int) =~= self.errors@);
        let mut m = String::from_str("Processed ");
        m.append(decimal(self.processed as u64).as_str());
        m.append("/");
        m.append(decimal(self.total as u64).as_str());
        m.append(" events. Errors: ");
        m.append(lines.as_str());
        ApiResponse::error(m)
    }
}

} // verus!

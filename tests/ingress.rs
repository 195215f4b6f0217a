use jimbot::api::{publish_batch, ApiResponse, HealthResponse};
use jimbot::convert::{convert_event, event_envelope, json_to_proto_event, ConvertError, JsonEvent, JsonField};
use jimbot::event::{Event, EventType, GamePhase, Payload};
use jimbot::routing::{EventRouter, EventSink};

struct Counter;

impl EventSink for Counter {
    fn deliver(&self, _event: &Event) -> bool {
        true
    }
}

fn envelope(t: &str, source: &str, payload: Vec<(String, JsonField)>) -> JsonEvent {
    JsonEvent {
        event_type: t.to_string(),
        source: source.to_string(),
        timestamp: None,
        version: None,
        payload,
        metadata: None,
    }
}

fn field(k: &str, v: JsonField) -> (String, JsonField) {
    (k.to_string(), v)
}

#[test]
fn unknown_type_is_rejected_with_its_name() {
    let r = json_to_proto_event(envelope("INVALID", "t", vec![]));
    match r {
        Err(ConvertError::UnknownType(name)) => assert_eq!(name, "INVALID"),
        other => panic!("unexpected {:?}", other),
    }
}

#[test]
fn empty_type_and_source_are_rejected() {
    assert!(matches!(json_to_proto_event(envelope("", "t", vec![])), Err(ConvertError::EmptyType)));
    assert!(matches!(
        json_to_proto_event(envelope("HEARTBEAT", "", vec![])),
        Err(ConvertError::EmptySource)
    ));
    // The type is checked before the source.
    assert!(matches!(json_to_proto_event(envelope("", "", vec![])), Err(ConvertError::EmptyType)));
}

#[test]
fn envelope_defaults_apply() {
    let e = convert_event(envelope("HEARTBEAT", "mod", vec![]), 1234, "abc".to_string()).unwrap();
    assert_eq!(e.event_type, EventType::Heartbeat);
    assert_eq!(e.timestamp, 1234);
    assert_eq!(e.version, 1);
    assert_eq!(e.event_id, "abc");
    assert_eq!(e.source, "mod");
    assert!(e.metadata.is_empty());
    match e.payload {
        Some(Payload::Heartbeat(h)) => {
            assert_eq!(h.version, "");
            assert_eq!(h.uptime, 0);
            assert!(!h.headless);
            assert_eq!(h.game_state, "");
        }
        other => panic!("unexpected {:?}", other),
    }
}

#[test]
fn fresh_events_get_a_uuid() {
    let e = json_to_proto_event(envelope("CONNECTION_TEST", "t", vec![])).unwrap();
    assert_eq!(e.event_id.len(), 36);
    let f = json_to_proto_event(envelope("CONNECTION_TEST", "t", vec![])).unwrap();
    assert_ne!(e.event_id, f.event_id);
    assert!(e.timestamp > 0);
}

#[test]
fn game_state_payload_is_read_field_by_field() {
    let payload = vec![
        field("in_game", JsonField::Bool(true)),
        field("game_id", JsonField::Text("g1".to_string())),
        field("ante", JsonField::Int(3)),
        field("money", JsonField::Int(42)),
        field("chips", JsonField::Other),
        field("game_state", JsonField::Text("SHOP".to_string())),
        field("ui_state", JsonField::Text("menu".to_string())),
        field("mult", JsonField::Int(4_294_967_301)),
    ];
    let e = convert_event(envelope("GAME_STATE", "s", payload), 0, "id".to_string()).unwrap();
    match e.payload {
        Some(Payload::GameState(g)) => {
            assert!(g.in_game);
            assert_eq!(g.game_id, "g1");
            assert_eq!(g.ante, 3);
            assert_eq!(g.money, 42);
            assert_eq!(g.chips, 0);
            assert_eq!(g.round, 0);
            assert_eq!(g.game_state, GamePhase::Shop);
            assert_eq!(g.ui_state, "menu");
            // Truncated to 32 bits, as an `as i32` cast does.
            assert_eq!(g.mult, 5);
        }
        other => panic!("unexpected {:?}", other),
    }
}

#[test]
fn unknown_phase_is_unspecified_not_an_error() {
    let payload = vec![field("game_state", JsonField::Text("LOBBY".to_string()))];
    let e = convert_event(envelope("GAME_STATE", "s", payload), 0, "id".to_string()).unwrap();
    match e.payload {
        Some(Payload::GameState(g)) => assert_eq!(g.game_state, GamePhase::Unspecified),
        other => panic!("unexpected {:?}", other),
    }
}

#[test]
fn money_payload_and_types_without_parser() {
    let payload = vec![
        field("old_value", JsonField::Int(5)),
        field("new_value", JsonField::Int(9)),
        field("difference", JsonField::Int(4)),
    ];
    let e = convert_event(envelope("MONEY_CHANGED", "s", payload), 0, "id".to_string()).unwrap();
    match e.payload {
        Some(Payload::MoneyChanged(m)) => {
            assert_eq!((m.old_value, m.new_value, m.difference), (5, 9, 4));
        }
        other => panic!("unexpected {:?}", other),
    }
    let s = convert_event(envelope("SCORE_CHANGED", "s", vec![]), 0, "id".to_string()).unwrap();
    assert_eq!(s.event_type, EventType::ScoreChanged);
    assert!(s.payload.is_none());
}

#[test]
fn envelope_round_trips() {
    let mut j = envelope("ROUND_CHANGED", "balatro", vec![]);
    j.timestamp = Some(1_700_000_000_000);
    j.version = Some(7);
    let e = convert_event(j, 5, "id".to_string()).unwrap();
    let back = event_envelope(&e);
    assert_eq!(back.event_type, "ROUND_CHANGED");
    assert_eq!(back.source, "balatro");
    assert_eq!(back.timestamp, Some(1_700_000_000_000));
    assert_eq!(back.version, Some(7));
}

#[test]
fn metadata_is_carried() {
    let mut j = envelope("HEARTBEAT", "s", vec![]);
    j.metadata = Some(vec![("traceparent".to_string(), "00-abc".to_string())]);
    let e = convert_event(j, 0, "id".to_string()).unwrap();
    assert_eq!(e.metadata, vec![("traceparent".to_string(), "00-abc".to_string())]);
}

#[test]
fn batch_routes_good_entries_and_reports_bad_ones() {
    let mut router = EventRouter::new();
    router.subscribe_handler("*.*.*".to_string(), Counter);
    let events = vec![
        envelope("HEARTBEAT", "s", vec![]),
        envelope("INVALID", "s", vec![]),
        envelope("GAME_STATE", "s", vec![]),
        envelope("GAME_STATE", "", vec![]),
    ];
    let report = publish_batch(&mut router, events);
    assert_eq!(report.total, 4);
    assert_eq!(report.processed, 2);
    let idx: Vec<usize> = report.errors.iter().map(|(i, _)| *i).collect();
    assert_eq!(idx, vec![1, 3]);
    assert!(matches!(report.errors[1].1, ConvertError::EmptySource));
}

#[test]
fn api_responses() {
    let ok = ApiResponse::ok();
    assert_eq!(ok.status, "ok");
    assert!(ok.error.is_none() && ok.message.is_none());
    let err = ApiResponse::error("Unknown event type: INVALID".to_string());
    assert_eq!(err.status, "error");
    assert_eq!(err.error.as_deref(), Some("Unknown event type: INVALID"));
    let h = HealthResponse::healthy("0.1.0".to_string(), 12);
    assert_eq!(h.status, "healthy");
    assert_eq!(h.uptime_seconds, 12);
    assert_eq!(h.metadata[0], ("service".to_string(), "event-bus-rust".to_string()));
}

#[test]
fn unknown_type_reply_mentions_the_type() {
    let json = envelope("INVALID", "t", vec![]);
    let err = json_to_proto_event(json).unwrap_err();
    let reply = ApiResponse::error(err.message());
    assert_eq!(reply.status, "error");
    assert_eq!(reply.error.as_deref(), Some("Unknown event type: INVALID"));
    assert_eq!(ConvertError::EmptyType.message(), "Event type cannot be empty");
    assert_eq!(ConvertError::EmptySource.message(), "Event source cannot be empty");
}

#[test]
fn single_event_replies() {
    use_router(|router| {
        let ok = jimbot::api::publish_event(router, envelope("HEARTBEAT", "s", vec![]));
        assert_eq!(ok.status, "ok");
        let bad = jimbot::api::publish_event(router, envelope("INVALID", "t", vec![]));
        assert_eq!(bad.status, "error");
        assert_eq!(bad.error.as_deref(), Some("Invalid event format: Unknown event type: INVALID"));
    });
}

#[test]
fn batch_reply_lists_each_rejection() {
    use_router(|router| {
        let events = vec![
            envelope("HEARTBEAT", "s", vec![]),
            envelope("INVALID", "s", vec![]),
            envelope("GAME_STATE", "s", vec![]),
            envelope("GAME_STATE", "", vec![]),
        ];
        let reply = publish_batch(router, events).response();
        assert_eq!(reply.status, "error");
        assert_eq!(
            reply.error.as_deref(),
            Some(
                "Processed 2/4 events. Errors: Event 1: Invalid format - Unknown event type: INVALID, \
                 Event 3: Invalid format - Event source cannot be empty"
            )
        );
        let fine = publish_batch(router, vec![envelope("HEARTBEAT", "s", vec![])]).response();
        assert_eq!(fine.status, "ok");
    });
}

fn use_router(f: impl FnOnce(&mut EventRouter<Counter>)) {
    let mut router = EventRouter::new();
    router.subscribe_handler("*.*".to_string(), Counter);
    f(&mut router);
}

#[test]
fn rejected_envelopes_route_nothing() {
    struct Seen(std::rc::Rc<std::cell::Cell<u32>>);
    impl EventSink for Seen {
        fn deliver(&self, _event: &Event) -> bool {
            self.0.set(self.0.get() + 1);
            true
        }
    }
    let count = std::rc::Rc::new(std::cell::Cell::new(0));
    let mut router = EventRouter::new();
    router.subscribe_handler("*.*".to_string(), Seen(count.clone()));
    router.subscribe_handler("*.*.*".to_string(), Seen(count.clone()));
    jimbot::api::publish_event(&mut router, envelope("INVALID", "t", vec![]));
    assert_eq!(count.get(), 0);
    jimbot::api::publish_event(&mut router, envelope("HEARTBEAT", "t", vec![]));
    assert_eq!(count.get(), 1);
    let events = vec![envelope("GAME_STATE", "s", vec![]), envelope("", "s", vec![]), envelope("HEARTBEAT", "s", vec![])];
    publish_batch(&mut router, events);
    assert_eq!(count.get(), 3);
}

#[test]
fn replies_carry_no_message() {
    use_router(|router| {
        let ok = jimbot::api::publish_event(router, envelope("HEARTBEAT", "s", vec![]));
        assert!(ok.message.is_none());
        let bad = jimbot::api::publish_event(router, envelope("INVALID", "t", vec![]));
        assert!(bad.message.is_none());
        let batch = publish_batch(router, vec![envelope("INVALID", "s", vec![])]).response();
        assert!(batch.message.is_none());
    });
}

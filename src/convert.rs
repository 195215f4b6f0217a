//! Ingress: turning a JSON envelope into a typed event.
use vstd::prelude::*;
use vstd::string::*;

use crate::event::{
    wire_name, type_of_wire_name, ConnectionTestEvent, Event, EventType, GamePhase, GameStateEvent,
    HeartbeatEvent, MoneyChangedEvent, Payload,
};
use crate::clock::unix_millis;
use crate::text::same_text;

verus! {

/// A top-level field of a JSON payload object, as far as the payload parsers read it.
#[derive(Debug)]
pub enum JsonField {
    Bool(bool),
    /// A number that fits in an `i64`.
    Int(i64),
    Text(String),
    /// Null, a fractional or oversized number, an array or an object.
    Other,
}

/// A JSON event envelope as it arrives on the bus.
#[derive(Debug)]
pub struct JsonEvent {
    pub event_type: String,
    pub source: String,
    pub timestamp: Option<i64>,
    pub version: Option<i32>,
    /// The payload object's fields, in order; empty when the payload is not an object.
    pub payload: Vec<(String, JsonField)>,
    pub metadata: Option<Vec<(String, String)>>,
}

/// Why an envelope was rejected.
#[derive(Debug)]
pub enum ConvertError {
    EmptyType,
    EmptySource,
    /// The type string names no known event type.
    UnknownType(String),
}

/// The description of a rejection.
pub open spec fn convert_error_text(e: ConvertError) -> Seq<char> {
    match e {
        ConvertError::EmptyType => "Event type cannot be empty"@,
        ConvertError::EmptySource => "Event source cannot be empty"@,
        ConvertError::UnknownType(t) => "Unknown event type: "@ + t@,
    }
}

/// Why the envelope `j` is rejected, when it is.
pub open spec fn rejection_text(j: JsonEvent) -> Seq<char> {
    if j.event_type@.len() == 0 {
        "Event type cannot be empty"@
    } else if j.source@.len() == 0 {
        "Event source cannot be empty"@
    } else {
        "Unknown event type: "@ + j.event_type@
    }
}

impl ConvertError {
    /// A description of the rejection.
    pub fn message(&self) -> (r: String)
        ensures
            r@ == convert_error_text(*self),
    {
        match self {
            ConvertError::EmptyType => String::from_str("Event type cannot be empty"),
            ConvertError::EmptySource => String::from_str("Event source cannot be empty"),
            ConvertError::UnknownType(t) => {
                let mut m = String::from_str("Unknown event type: ");
                m.append(t.as_str());
                m
            },
        }
    }
}

/// The first field of `fields` called `key`.
pub open spec fn field_of(fields: Seq<(String, JsonField)>, key: Seq<char>) -> Option<JsonField>
    decreases fields.len(),
{
    if fields.len() == 0 {
        None
    } else if fields[0].0@ == key {
        Some(fields[0].1)
    } else {
        field_of(fields.drop_first(), key)
    }
}

pub open spec fn int_or_zero(fields: Seq<(String, JsonField)>, key: Seq<char>) -> i64 {
    match field_of(fields, key) {
        Some(JsonField::Int(v)) => v,
        _ => 0,
    }
}

pub open spec fn bool_or_false(fields: Seq<(String, JsonField)>, key: Seq<char>) -> bool {
    match field_of(fields, key) {
        Some(JsonField::Bool(b)) => b,
        _ => false,
    }
}

pub open spec fn text_or_empty(fields: Seq<(String, JsonField)>, key: Seq<char>) -> Seq<char> {
    match field_of(fields, key) {
        Some(JsonField::Text(s)) => s@,
        _ => Seq::empty(),
    }
}

/// The game phase a name denotes; any other name is the unspecified phase.
pub open spec fn phase_from_name(s: Seq<char>) -> GamePhase {
    if s == "MENU"@ {
        GamePhase::Menu
    } else if s == "BLIND_SELECT"@ {
        GamePhase::BlindSelect
    } else if s == "SHOP"@ {
        GamePhase::Shop
    } else if s == "PLAYING"@ {
        GamePhase::Playing
    } else if s == "GAME_OVER"@ {
        GamePhase::GameOver
    } else {
        GamePhase::Unspecified
    }
}

pub open spec fn phase_of(fields: Seq<(String, JsonField)>) -> GamePhase {
    match field_of(fields, "game_state"@) {
        Some(JsonField::Text(s)) => phase_from_name(s@),
        _ => GamePhase::Unspecified,
    }
}

/// `g` is the game-state payload read from `f`.
pub open spec fn game_state_from(f: Seq<(String, JsonField)>, g: GameStateEvent) -> bool {
    &&& g.in_game == bool_or_false(f, "in_game"@)
    &&& g.game_id@ == text_or_empty(f, "game_id"@)
    &&& g.ante == int_or_zero(f, "ante"@) as i32
    &&& g.round == int_or_zero(f, "round"@) as i32
    &&& g.hand_number == int_or_zero(f, "hand_number"@) as i32
    &&& g.chips == int_or_zero(f, "chips"@) as i32
    &&& g.mult == int_or_zero(f, "mult"@) as i32
    &&& g.money == int_or_zero(f, "money"@) as i32
    &&& g.hand_size == int_or_zero(f, "hand_size"@) as i32
    &&& g.hands_remaining == int_or_zero(f, "hands_remaining"@) as i32
    &&& g.discards_remaining == int_or_zero(f, "discards_remaining"@) as i32
    &&& g.game_state == phase_of(f)
    &&& g.ui_state@ == text_or_empty(f, "ui_state"@)
}

pub open spec fn heartbeat_from(f: Seq<(String, JsonField)>, h: HeartbeatEvent) -> bool {
    &&& h.version@ == text_or_empty(f, "version"@)
    &&& h.uptime == int_or_zero(f, "uptime"@)
    &&& h.headless == bool_or_false(f, "headless"@)
    &&& h.game_state@ == text_or_empty(f, "game_state"@)
}

pub open spec fn money_from(f: Seq<(String, JsonField)>, m: MoneyChangedEvent) -> bool {
    &&& m.old_value == int_or_zero(f, "old_value"@) as i32
    &&& m.new_value == int_or_zero(f, "new_value"@) as i32
    &&& m.difference == int_or_zero(f, "difference"@) as i32
}

/// `p` is the payload that an event of type `t` reads from `f`.
pub open spec fn payload_from(t: EventType, f: Seq<(String, JsonField)>, p: Option<Payload>) -> bool {
    match t {
        EventType::GameState => p matches Some(Payload::GameState(g)) && game_state_from(f, g),
        EventType::Heartbeat => p matches Some(Payload::Heartbeat(h)) && heartbeat_from(f, h),
        EventType::MoneyChanged => p matches Some(Payload::MoneyChanged(m)) && money_from(f, m),
        EventType::ConnectionTest => p matches Some(Payload::ConnectionTest(c)) && c.message@
            == text_or_empty(f, "message"@),
        _ => p is None,
    }
}

/// The envelope `j` is admitted.
pub open spec fn admitted(j: JsonEvent) -> bool {
    &&& j.event_type@.len() > 0
    &&& j.source@.len() > 0
    &&& type_of_wire_name(j.event_type@) is Some
}

/// `e` is the event made from the admitted envelope `j` at time `now_ms` under the id `id`.
pub open spec fn converts_to(j: JsonEvent, now_ms: i64, id: Seq<char>, e: Event) -> bool {
    &&& e.event_id@ == id
    &&& e.event_type == type_of_wire_name(j.event_type@).unwrap()
    &&& e.source@ == j.source@
    &&& e.timestamp == match j.timestamp {
        Some(t) => t,
        None => now_ms,
    }
    &&& e.version == match j.version {
        Some(v) => v,
        None => 1i32,
    }
    &&& e.metadata@ == match j.metadata {
        Some(m) => m@,
        None => Seq::empty(),
    }
    &&& payload_from(e.event_type, j.payload@, e.payload)
}

fn find_field(fields: &Vec<(String, JsonField)>, key: &str) -> (r: Option<usize>)
    ensures
        match r {
            Some(i) => i < fields@.len() && field_of(fields@, key@) == Some(fields@[i as int].1),
            None => field_of(fields@, key@) is None,
        },
{
    let mut i: usize = 0;
    assert(fields@.skip(0) =~= fields@);
    while i < fields.len()
        invariant
            i <= fields@.len(),
            field_of(fields@, key@) == field_of(fields@.skip(i as int), key@),
        decreases fields@.len() - i,
    {
        let ghost rest = fields@.skip(i as int);
        assert(rest[0] == fields@[i as int]);
        assert(rest.drop_first() =~= fields@.skip(i + 1));
        if same_text(fields[i].0.as_str(), key) {
            return Some(i);
        }
        i = i + 1;
    }
    assert(fields@.skip(i as int).len() == 0);
    None
}

fn int_field(fields: &Vec<(String, JsonField)>, key: &str) -> (r: i64)
    ensures
        r == int_or_zero(fields@, key@),
{
    match find_field(fields, key) {
        Some(i) => match &fields[i].1 {
            JsonField::Int(v) => *v,
            _ => 0,
        },
        None => 0,
    }
}

fn int32_field(fields: &Vec<(String, JsonField)>, key: &str) -> (r: i32)
    ensures
        r == int_or_zero(fields@, key@) as i32,
{
    #[verifier::truncate]
    (int_field(fields, key) as i32)
}

fn bool_field(fields: &Vec<(String, JsonField)>, key: &str) -> (r: bool)
    ensures
        r == bool_or_false(fields@, key@),
{
    match find_field(fields, key) {
        Some(i) => match &fields[i].1 {
            JsonField::Bool(b) => *b,
            _ => false,
        },
        None => false,
    }
}

fn text_field(fields: &Vec<(String, JsonField)>, key: &str) -> (r: String)
    ensures
        r@ == text_or_empty(fields@, key@),
{
    match find_field(fields, key) {
        Some(i) => match &fields[i].1 {
            JsonField::Text(s) => s.clone(),
            _ => String::new(),
        },
        None => String::new(),
    }
}

fn phase_field(fields: &Vec<(String, JsonField)>) -> (r: GamePhase)
    ensures
        r == phase_of(fields@),
{
    match find_field(fields, "game_state") {
        Some(i) => match &fields[i].1 {
            JsonField::Text(s) => {
                let s = s.as_str();
                if same_text(s, "MENU") {
                    GamePhase::Menu
                } else if same_text(s, "BLIND_SELECT") {
                    GamePhase::BlindSelect
                } else if same_text(s, "SHOP") {
                    GamePhase::Shop
                } else if same_text(s, "PLAYING") {
                    GamePhase::Playing
                } else if same_text(s, "GAME_OVER") {
                    GamePhase::GameOver
                } else {
                    GamePhase::Unspecified
                }
            },
            _ => GamePhase::Unspecified,
        },
        None => GamePhase::Unspecified,
    }
}

fn parse_game_state(f: &Vec<(String, JsonField)>) -> (g: GameStateEvent)
    ensures
        game_state_from(f@, g),
{
    GameStateEvent {
        in_game: bool_field(f, "in_game"),
        game_id: text_field(f, "game_id"),
        ante: int32_field(f, "ante"),
        round: int32_field(f, "round"),
        hand_number: int32_field(f, "hand_number"),
        chips: int32_field(f, "chips"),
        mult: int32_field(f, "mult"),
        money: int32_field(f, "money"),
        hand_size: int32_field(f, "hand_size"),
        hands_remaining: int32_field(f, "hands_remaining"),
        discards_remaining: int32_field(f, "discards_remaining"),
        game_state: phase_field(f),
        ui_state: text_field(f, "ui_state"),
    }
}

fn parse_heartbeat(f: &Vec<(String, JsonField)>) -> (h: HeartbeatEvent)
    ensures
        heartbeat_from(f@, h),
{
    HeartbeatEvent {
        version: text_field(f, "version"),
        uptime: int_field(f, "uptime"),
        headless: bool_field(f, "headless"),
        game_state: text_field(f, "game_state"),
    }
}

fn parse_money_changed(f: &Vec<(String, JsonField)>) -> (m: MoneyChangedEvent)
    ensures
        money_from(f@, m),
{
    MoneyChangedEvent {
        old_value: int32_field(f, "old_value"),
        new_value: int32_field(f, "new_value"),
        difference: int32_field(f, "difference"),
    }
}

fn parse_connection_test(f: &Vec<(String, JsonField)>) -> (c: ConnectionTestEvent)
    ensures
        c.message@ == text_or_empty(f@, "message"@),
{
    ConnectionTestEvent { message: text_field(f, "message") }
}

/// Validates an envelope and builds the typed event, stamped `now_ms` when the
/// envelope has no timestamp and identified by `event_id`.
pub fn convert_event(json: JsonEvent, now_ms: i64, event_id: String) -> (r: Result<Event, ConvertError>)
    ensures
        json.event_type@.len() == 0 ==> r matches Err(ConvertError::EmptyType),
        json.event_type@.len() > 0 && json.source@.len() == 0 ==> r matches Err(
            ConvertError::EmptySource,
        ),
        json.event_type@.len() > 0 && json.source@.len() > 0 && type_of_wire_name(
            json.event_type@,
        ) is None ==> (r matches Err(ConvertError::UnknownType(n)) && n@ == json.event_type@),
        admitted(json) ==> (r matches Ok(e) && converts_to(json, now_ms, event_id@, e)),
{
    if json.event_type.as_str().is_empty() {
        return Err(ConvertError::EmptyType);
    }
    if json.source.as_str().is_empty() {
        return Err(ConvertError::EmptySource);
    }
    let event_type = match EventType::from_name(json.event_type.as_str()) {
        Some(t) => t,
        None => return Err(ConvertError::UnknownType(json.event_type)),
    };
    let payload = match event_type {
        EventType::GameState => Some(Payload::GameState(parse_game_state(&json.payload))),
        EventType::Heartbeat => Some(Payload::Heartbeat(parse_heartbeat(&json.payload))),
        EventType::MoneyChanged => Some(Payload::MoneyChanged(parse_money_changed(&json.payload))),
        EventType::ConnectionTest => Some(
            Payload::ConnectionTest(parse_connection_test(&json.payload)),
        ),
        _ => None,
    };
    let timestamp = match json.timestamp {
        Some(t) => t,
        None => now_ms,
    };
    let version = match json.version {
        Some(v) => v,
        None => 1,
    };
    let metadata = match json.metadata {
        Some(m) => m,
        None => Vec::new(),
    };
    Ok(Event { event_id, timestamp, event_type, source: json.source, version, payload, metadata })
}

/// Relies on uuid::Uuid::new_v4 and its `Display` form, the hyphenated
/// encoding of 36 characters.
#[verifier::external_body]
fn fresh_event_id() -> (r: String)
    ensures
        r@.len() == 36,
{
    uuid::Uuid::new_v4().to_string()
}

/// Validates an envelope and builds the typed event, stamped with the current
/// time when the envelope has none, under a fresh random id.
pub fn json_to_proto_event(json: JsonEvent) -> (r: Result<Event, ConvertError>)
    ensures
        json.event_type@.len() == 0 ==> r matches Err(ConvertError::EmptyType),
        json.event_type@.len() > 0 && json.source@.len() == 0 ==> r matches Err(
            ConvertError::EmptySource,
        ),
        json.event_type@.len() > 0 && json.source@.len() > 0 && type_of_wire_name(
            json.event_type@,
        ) is None ==> (r matches Err(ConvertError::UnknownType(n)) && n@ == json.event_type@),
        admitted(json) ==> (r matches Ok(e) && e.event_id@.len() == 36 && exists|now_ms: i64|
            converts_to(json, now_ms, e.event_id@, e)),
{
    let now_ms = unix_millis();
    let id = fresh_event_id();
    let r = convert_event(json, now_ms, id);
    r
}

/// The envelope fields of an event: its type name, source, timestamp and version.
pub fn event_envelope(event: &Event) -> (j: JsonEvent)
    ensures
        j.event_type@ == wire_name(event.event_type),
        j.source@ == event.source@,
        j.timestamp == Some(event.timestamp),
        j.version == Some(event.version),
        j.payload@.len() == 0,
        j.metadata is None,
{
    JsonEvent {
        event_type: event.event_type.name(),
        source: event.source.clone(),
        timestamp: Some(event.timestamp),
        version: Some(event.version),
        payload: Vec::new(),
        metadata: None,
    }
}

/// An admitted envelope that carries a timestamp and a version comes back
/// from its event with the same type, source, timestamp and version.
pub proof fn lemma_envelope_round_trip(j: JsonEvent, now_ms: i64, id: Seq<char>, e: Event, back: JsonEvent)
    requires
        admitted(j),
        j.timestamp is Some,
        j.version is Some,
        converts_to(j, now_ms, id, e),
        back.event_type@ == wire_name(e.event_type),
        back.source@ == e.source@,
        back.timestamp == Some(e.timestamp),
        back.version == Some(e.version),
    ensures
        back.event_type@ == j.event_type@,
        back.source@ == j.source@,
        back.timestamp == j.timestamp,
        back.version == j.version,
{
    let t = type_of_wire_name(j.event_type@).unwrap();
    reveal_strlit("GAME_STATE");
    reveal_strlit("HEARTBEAT");
    reveal_strlit("MONEY_CHANGED");
    reveal_strlit("SCORE_CHANGED");
    reveal_strlit("HAND_PLAYED");
    reveal_strlit("CARDS_DISCARDED");
    reveal_strlit("JOKERS_CHANGED");
    reveal_strlit("ROUND_CHANGED");
    reveal_strlit("PHASE_CHANGED");
    reveal_strlit("ROUND_COMPLETE");
    reveal_strlit("CONNECTION_TEST");
}

} // verus!

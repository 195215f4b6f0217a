//! Typed events and the fixed map from event type to topic.
use vstd::prelude::*;
use vstd::string::*;

use crate::text::same_text;

verus! {

/// The closed set of event kinds the bus carries.
#[derive(Clone, Copy, Debug, PartialEq, Eq, Structural)]
pub enum EventType {
    Unspecified,
    GameState,
    Heartbeat,
    MoneyChanged,
    ScoreChanged,
    HandPlayed,
    CardsDiscarded,
    JokersChanged,
    RoundChanged,
    PhaseChanged,
    RoundComplete,
    ConnectionTest,
}

/// Phase of a game, as reported in a game-state payload.
#[derive(Clone, Copy, Debug, PartialEq, Eq, Structural)]
pub enum GamePhase {
    Unspecified,
    Menu,
    BlindSelect,
    Shop,
    Playing,
    GameOver,
}

/// A snapshot of the game.
#[derive(Clone, Debug)]
pub struct GameStateEvent {
    pub in_game: bool,
    pub game_id: String,
    pub ante: i32,
    pub round: i32,
    pub hand_number: i32,
    pub chips: i32,
    pub mult: i32,
    pub money: i32,
    pub hand_size: i32,
    pub hands_remaining: i32,
    pub discards_remaining: i32,
    pub game_state: GamePhase,
    pub ui_state: String,
}

/// A liveness report of the game client.
#[derive(Clone, Debug)]
pub struct HeartbeatEvent {
    pub version: String,
    pub uptime: i64,
    pub headless: bool,
    pub game_state: String,
}

/// A change of the player's money.
#[derive(Clone, Debug)]
pub struct MoneyChangedEvent {
    pub old_value: i32,
    pub new_value: i32,
    pub difference: i32,
}

/// A test message.
#[derive(Clone, Debug)]
pub struct ConnectionTestEvent {
    pub message: String,
}

/// Type-specific content of an event.
#[derive(Clone, Debug)]
pub enum Payload {
    GameState(GameStateEvent),
    Heartbeat(HeartbeatEvent),
    MoneyChanged(MoneyChangedEvent),
    ConnectionTest(ConnectionTestEvent),
}

/// An admitted event.
#[derive(Clone, Debug)]
pub struct Event {
    pub event_id: String,
    /// Milliseconds since the epoch.
    pub timestamp: i64,
    pub event_type: EventType,
    pub source: String,
    pub version: i32,
    pub payload: Option<Payload>,
    /// Key-value pairs, such as trace context.
    pub metadata: Vec<(String, String)>,
}

/// The topic an event of type `t` is published on.
pub open spec fn topic_of(t: EventType) -> Seq<char> {
    match t {
        EventType::GameState => "game.state.update"@,
        EventType::Heartbeat => "system.heartbeat"@,
        EventType::MoneyChanged => "game.money.changed"@,
        EventType::ScoreChanged => "game.score.changed"@,
        EventType::HandPlayed => "game.hand.played"@,
        EventType::CardsDiscarded => "game.cards.discarded"@,
        EventType::JokersChanged => "game.jokers.changed"@,
        EventType::RoundChanged => "game.round.changed"@,
        EventType::PhaseChanged => "game.phase.changed"@,
        EventType::RoundComplete => "game.round.complete"@,
        EventType::ConnectionTest => "system.connection.test"@,
        EventType::Unspecified => "unknown"@,
    }
}

/// The wire name of an event type (empty for the unspecified type).
pub open spec fn wire_name(t: EventType) -> Seq<char> {
    match t {
        EventType::GameState => "GAME_STATE"@,
        EventType::Heartbeat => "HEARTBEAT"@,
        EventType::MoneyChanged => "MONEY_CHANGED"@,
        EventType::ScoreChanged => "SCORE_CHANGED"@,
        EventType::HandPlayed => "HAND_PLAYED"@,
        EventType::CardsDiscarded => "CARDS_DISCARDED"@,
        EventType::JokersChanged => "JOKERS_CHANGED"@,
        EventType::RoundChanged => "ROUND_CHANGED"@,
        EventType::PhaseChanged => "PHASE_CHANGED"@,
        EventType::RoundComplete => "ROUND_COMPLETE"@,
        EventType::ConnectionTest => "CONNECTION_TEST"@,
        EventType::Unspecified => Seq::empty(),
    }
}

/// The event type a wire name denotes, if it denotes one.
pub open spec fn type_of_wire_name(s: Seq<char>) -> Option<EventType> {
    if s == "GAME_STATE"@ {
        Some(EventType::GameState)
    } else if s == "HEARTBEAT"@ {
        Some(EventType::Heartbeat)
    } else if s == "MONEY_CHANGED"@ {
        Some(EventType::MoneyChanged)
    } else if s == "SCORE_CHANGED"@ {
        Some(EventType::ScoreChanged)
    } else if s == "HAND_PLAYED"@ {
        Some(EventType::HandPlayed)
    } else if s == "CARDS_DISCARDED"@ {
        Some(EventType::CardsDiscarded)
    } else if s == "JOKERS_CHANGED"@ {
        Some(EventType::JokersChanged)
    } else if s == "ROUND_CHANGED"@ {
        Some(EventType::RoundChanged)
    } else if s == "PHASE_CHANGED"@ {
        Some(EventType::PhaseChanged)
    } else if s == "ROUND_COMPLETE"@ {
        Some(EventType::RoundComplete)
    } else if s == "CONNECTION_TEST"@ {
        Some(EventType::ConnectionTest)
    } else {
        None
    }
}

/// The topic of an event: a fixed, total function of its type.
pub fn event_to_topic(event: &Event) -> (topic: String)
    ensures
        topic@ == topic_of(event.event_type),
{
    match event.event_type {
        EventType::GameState => String::from_str("game.state.update"),
        EventType::Heartbeat => String::from_str("system.heartbeat"),
        EventType::MoneyChanged => String::from_str("game.money.changed"),
        EventType::ScoreChanged => String::from_str("game.score.changed"),
        EventType::HandPlayed => String::from_str("game.hand.played"),
        EventType::CardsDiscarded => String::from_str("game.cards.discarded"),
        EventType::JokersChanged => String::from_str("game.jokers.changed"),
        EventType::RoundChanged => String::from_str("game.round.changed"),
        EventType::PhaseChanged => String::from_str("game.phase.changed"),
        EventType::RoundComplete => String::from_str("game.round.complete"),
        EventType::ConnectionTest => String::from_str("system.connection.test"),
        EventType::Unspecified => String::from_str("unknown"),
    }
}

impl EventType {
    /// The wire name of this type.
    pub fn name(&self) -> (r: String)
        ensures
            r@ == wire_name(*self),
    {
        match self {
            EventType::GameState => String::from_str("GAME_STATE"),
            EventType::Heartbeat => String::from_str("HEARTBEAT"),
            EventType::MoneyChanged => String::from_str("MONEY_CHANGED"),
            EventType::ScoreChanged => String::from_str("SCORE_CHANGED"),
            EventType::HandPlayed => String::from_str("HAND_PLAYED"),
            EventType::CardsDiscarded => String::from_str("CARDS_DISCARDED"),
            EventType::JokersChanged => String::from_str("JOKERS_CHANGED"),
            EventType::RoundChanged => String::from_str("ROUND_CHANGED"),
            EventType::PhaseChanged => String::from_str("PHASE_CHANGED"),
            EventType::RoundComplete => String::from_str("ROUND_COMPLETE"),
            EventType::ConnectionTest => String::from_str("CONNECTION_TEST"),
            EventType::Unspecified => String::new(),
        }
    }

    /// The event type that a wire name denotes.
    pub fn from_name(s: &str) -> (r: Option<EventType>)
        ensures
            r == type_of_wire_name(s@),
    {
        if same_text(s, "GAME_STATE") {
            Some(EventType::GameState)
        } else if same_text(s, "HEARTBEAT") {
            Some(EventType::Heartbeat)
        } else if same_text(s, "MONEY_CHANGED") {
            Some(EventType::MoneyChanged)
        } else if same_text(s, "SCORE_CHANGED") {
            Some(EventType::ScoreChanged)
        } else if same_text(s, "HAND_PLAYED") {
            Some(EventType::HandPlayed)
        } else if same_text(s, "CARDS_DISCARDED") {
            Some(EventType::CardsDiscarded)
        } else if same_text(s, "JOKERS_CHANGED") {
            Some(EventType::JokersChanged)
        } else if same_text(s, "ROUND_CHANGED") {
            Some(EventType::RoundChanged)
        } else if same_text(s, "PHASE_CHANGED") {
            Some(EventType::PhaseChanged)
        } else if same_text(s, "ROUND_COMPLETE") {
            Some(EventType::RoundComplete)
        } else if same_text(s, "CONNECTION_TEST") {
            Some(EventType::ConnectionTest)
        } else {
            None
        }
    }
}

/// Every named type reads back from its name.
pub proof fn lemma_type_name_round_trip(t: EventType)
    requires
        t != EventType::Unspecified,
    ensures
        type_of_wire_name(wire_name(t)) == Some(t),
{
    reveal_strlit("GAME_STATE");
    assert("GAME_STATE"@.len() == 10 && "GAME_STATE"@[0] == 'G' && "GAME_STATE"@[1] == 'A');
    reveal_strlit("HEARTBEAT");
    assert("HEARTBEAT"@.len() == 9 && "HEARTBEAT"@[0] == 'H' && "HEARTBEAT"@[1] == 'E');
    reveal_strlit("MONEY_CHANGED");
    assert("MONEY_CHANGED"@.len() == 13 && "MONEY_CHANGED"@[0] == 'M' && "MONEY_CHANGED"@[1] == 'O');
    reveal_strlit("SCORE_CHANGED");
    assert("SCORE_CHANGED"@.len() == 13 && "SCORE_CHANGED"@[0] == 'S' && "SCORE_CHANGED"@[1] == 'C');
    reveal_strlit("HAND_PLAYED");
    assert("HAND_PLAYED"@.len() == 11 && "HAND_PLAYED"@[0] == 'H' && "HAND_PLAYED"@[1] == 'A');
    reveal_strlit("CARDS_DISCARDED");
    assert("CARDS_DISCARDED"@.len() == 15 && "CARDS_DISCARDED"@[0] == 'C' && "CARDS_DISCARDED"@[1] == 'A');
    reveal_strlit("JOKERS_CHANGED");
    assert("JOKERS_CHANGED"@.len() == 14 && "JOKERS_CHANGED"@[0] == 'J' && "JOKERS_CHANGED"@[1] == 'O');
    reveal_strlit("ROUND_CHANGED");
    assert("ROUND_CHANGED"@.len() == 13 && "ROUND_CHANGED"@[0] == 'R' && "ROUND_CHANGED"@[1] == 'O');
    reveal_strlit("PHASE_CHANGED");
    assert("PHASE_CHANGED"@.len() == 13 && "PHASE_CHANGED"@[0] == 'P' && "PHASE_CHANGED"@[1] == 'H');
    reveal_strlit("ROUND_COMPLETE");
    assert("ROUND_COMPLETE"@.len() == 14 && "ROUND_COMPLETE"@[0] == 'R' && "ROUND_COMPLETE"@[1] == 'O');
    reveal_strlit("CONNECTION_TEST");
    assert("CONNECTION_TEST"@.len() == 15 && "CONNECTION_TEST"@[0] == 'C' && "CONNECTION_TEST"@[1] == 'O');
}

} // verus!

//! Reading the wall clock.
use vstd::prelude::*;
use vstd::string::*;

verus! {

/// Relies on chrono::Utc::now and DateTime::timestamp_millis: the current
/// time in milliseconds since the Unix epoch.
#[verifier::external_body]
pub(crate) fn unix_millis() -> i64 {
    chrono::Utc::now().timestamp_millis()
}

/// The current time in milliseconds since the Unix epoch (0 before it).
pub fn now_ms() -> u64 {
    let t = unix_millis();
    if t < 0 {
        0
    } else {
        t as u64
    }
}

/// std::time::Instant, held opaque.
#[verifier::external_type_specification]
#[verifier::external_body]
pub struct ExInstant(std::time::Instant);

/// Relies on std::time::Instant::now: a reading of the monotonic clock.
#[verifier::external_body]
pub(crate) fn instant_now() -> std::time::Instant {
    std::time::Instant::now()
}

/// Relies on std::time::Instant::elapsed: whole milliseconds since `start`.
#[verifier::external_body]
pub(crate) fn millis_since(start: &std::time::Instant) -> u64 {
    start.elapsed().as_millis() as u64
}

/// Times the processing of one event.
pub struct ProcessingTimer {
    start: std::time::Instant,
    event_type: String,
}

impl ProcessingTimer {
    pub closed spec fn event_type(&self) -> Seq<char> {
        self.event_type@
    }

    /// Starts timing an event of type `event_type`.
    pub fn new(event_type: String) -> (r: Self)
        ensures
            r.event_type() == event_type@,
    {
        ProcessingTimer { start: instant_now(), event_type }
    }

    /// Stops the timer: the event type and the milliseconds elapsed.
    pub fn finish(self) -> (r: (String, u64))
        ensures
            r.0@ == self.event_type(),
    {
        let ms = millis_since(&self.start);
        (self.event_type, ms)
    }
}

/// Times one allocation.
pub struct AllocationTimer {
    resource_type: String,
    start_time: std::time::Instant,
}

impl AllocationTimer {
    pub closed spec fn resource_type(&self) -> Seq<char> {
        self.resource_type@
    }

    /// Starts timing an allocation of `resource_type`.
    pub fn new(resource_type: &str) -> (r: Self)
        ensures
            r.resource_type() == resource_type@,
    {
        AllocationTimer { resource_type: String::from_str(resource_type), start_time: instant_now() }
    }

    /// Stops the timer: the resource type and the milliseconds elapsed, to be
    /// recorded.
    pub fn record(self) -> (r: (String, u64))
        ensures
            r.0@ == self.resource_type(),
    {
        let ms = millis_since(&self.start_time);
        (self.resource_type, ms)
    }
}

} // verus!

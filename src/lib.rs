//! Core logic of the card-game research infrastructure: the event router and
//! its JSON ingress, the resource broker with its rate limiters, and the
//! deterministic RNG.

pub mod text;
pub mod clock;

pub mod event;
pub mod convert;
pub mod routing;
pub mod api;
pub mod bus_config;

pub mod rate_limiter;
pub mod allocator;
pub mod coordinator;
pub mod coordinator_config;

pub mod rng;
pub mod analysis;

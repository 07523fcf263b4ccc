//! Core of a real-time audio fan-out relay: a registry of subscribers with
//! bounded send queues and fault-isolated broadcast, a fixed-capacity ring
//! buffer bridging the audio callback and the network side, a raw
//! little-endian sample codec, and a bounded-retry exponential-backoff
//! reconnect state machine for the streaming client.

pub mod backoff;
pub mod client;
pub mod codec;
pub mod registry;
pub mod ring;
pub mod server;

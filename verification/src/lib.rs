//! A minimal message broker core: producers submit event-tagged payloads,
//! consumers announce interest in one event-type category, and the broker
//! forwards each inbound payload to one eligible consumer, chosen uniformly
//! at random. Delivery is at-most-once and best-effort: a payload that
//! matches no consumer is dropped.
//!
//! The crate holds the connection registry, the frame classification, the
//! packet model and its wire encoding, and the routing decision. Socket
//! handling stays with the embedding program, which feeds each decoded read
//! to the engine and carries out the action the engine returns.

pub mod engine;
pub mod ident;
pub mod json;
pub mod packet;
pub mod registry;
pub mod trace;
pub mod wire;

pub use engine::handle_frame;
pub use engine::Outcome;
pub use packet::Packet;
pub use registry::Registry;
pub use registry::Role;

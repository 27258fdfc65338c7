//! Streaming core of a browser-accessible terminal: history trimming,
//! transcript framing, byte fan-out and the per-viewer session rules.

pub mod broadcast;
pub mod cast;
pub mod caster;
pub mod models;
pub mod session;
pub mod trim;
pub mod wire;

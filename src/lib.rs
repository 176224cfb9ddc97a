//! Coordination of real-time quiz games: the message protocol, the per-game
//! coordinator state machine, the token directory and the per-connection gateway.
//!
//! Nothing here performs I/O or keeps time. Callers feed each component the
//! messages, timer expiries and clock readings it needs, one at a time, and carry
//! out the deliveries and timers it asks for.

pub mod directory;
pub mod game;
pub mod protocol;
pub mod session;

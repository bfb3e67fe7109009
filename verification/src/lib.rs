//! A hub for the RRC chat protocol, without its transport.
//!
//! [`Router`] is driven with events on identified links and hands back [`Action`]s for the
//! transport to carry out. It reads and writes no files: where something is to be saved or read
//! again, a step asks for it, and [`Router::resume`] continues with what came of it.

pub mod cbor;
pub mod clock;
pub mod collections;
pub mod config;
pub mod constants;
pub mod laws;
pub mod outgoing;
pub mod protocol;
pub mod registry;
pub mod router;
pub mod state;
pub mod text;

pub use config::HubConfig;
pub use outgoing::Action;
pub use registry::RoomRegistry;
pub use router::Router;
pub use state::{HubState, IdentityHash, LinkId, Room, Session};

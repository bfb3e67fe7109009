//! What holds of the hub as a whole.
//!
//! The functions here are proofs. Each states a property of the functions that describe what the
//! hub does, for all hubs and all inputs, or for all those that its first clause names.

pub mod authority;
pub mod coming;
pub mod commands;
pub mod effects;
pub mod envelopes;
pub mod limits;
pub mod links;
pub mod order;
pub mod passing;
pub mod rooms;
pub mod ruling;
pub mod saving;
pub mod settings;
pub mod sound;
pub mod sources;
pub mod speech;
pub mod steps;
pub mod targets;
pub mod transfers;
pub mod turns;
pub mod upkeep;
pub mod wording;

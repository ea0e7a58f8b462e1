//! The decision core of a Discord bridge for language-model constructs.

pub mod clock;
pub mod contradictionary;
pub mod gate;
pub mod json;
pub mod mcp;
pub mod mute_store;
pub mod nameplates;
pub mod no_rly;
pub mod oneshot;
pub mod permissions;
pub mod pluralkit;
pub mod pre_send;
pub mod principal_policy;
pub mod pronoundb;
pub mod table;
pub mod text;

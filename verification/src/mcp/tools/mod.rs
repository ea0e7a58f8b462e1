//! The tools that a construct can call.

pub mod access;
pub mod bot_state;
pub mod diagnostics;
pub mod embed;
pub mod introspection;
pub mod management;
pub mod messaging;
pub mod no_rly;
pub mod render;
pub mod search;

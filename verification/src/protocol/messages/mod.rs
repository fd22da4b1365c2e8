//! The messages of the conversation between a client and the core.

pub mod config;
pub mod control;
pub mod events;

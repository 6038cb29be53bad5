//! Decisions behind individual slash commands.

pub mod award;
pub mod export;
pub mod invite;
pub mod link;
pub mod ping;
pub mod stats;
pub mod trophies;

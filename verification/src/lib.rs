//! Relay for short notification messages posted into chat rooms.
//!
//! The crate holds the logic of the relay: request normalization, room
//! resolution, the per-room configuration store encoded in room tags, the
//! authentication validator, and the delivery pipeline with its bounded join-wait.
//! Network transport is left to the surrounding program, which feeds these
//! functions with plain values and carries out the actions they decide on.

pub mod auth;
pub mod commands;
pub mod config;
pub mod errors;
pub mod headers;
pub mod normalize;
pub mod pipeline;
pub mod resolve;
pub mod server;
pub mod store;
pub mod text;

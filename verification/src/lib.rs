//! Core library for Spite, a local-first mail client for Microsoft 365:
//! message threading and reply construction, HTML sanitizing, the local
//! mail store model, delta-sync and optimistic-write orchestration.
use vstd::prelude::*;

pub mod assoc;
pub mod auth;
pub mod compose;
pub mod compose_context;
pub mod config;
pub mod dates;
pub mod graph;
pub mod memory_store;
pub mod ops;
pub mod pending;
pub mod rules;
pub mod sanitize;
pub mod settings;
pub mod store;
pub mod sync;
pub mod text;

verus! {

/// The application's display name.
pub const APP_NAME: &'static str = "Spite";

} // verus!

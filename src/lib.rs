//! Availability polls: events with candidate time slots, participants'
//! votes on them, per-slot tallies, and the admins who own the events.

pub mod model;
pub mod platform;
pub mod store;
pub mod ledger;
pub mod auth;
pub mod repository;
pub mod voting;
pub mod assembly;
pub mod config;
pub mod laws;

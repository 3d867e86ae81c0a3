//! Configuration values and their defaults.
pub mod activity;
pub mod challenge;
pub mod event;
pub mod user;

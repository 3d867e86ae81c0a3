//! Challenge build and container orchestration core of a CTF hosting platform.
pub mod conductor;
pub mod configs;
pub mod coordinator;
pub mod dynfmt;
pub mod fsext;
pub mod ports;
pub mod registry;
pub mod scoring;
mod text;
pub mod webcolor;

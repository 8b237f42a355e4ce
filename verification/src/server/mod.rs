//! The coordination and relay server.
pub mod api;
pub mod config;
pub mod rate_limit;
pub mod relay;
pub mod rooms;
pub mod telemetry;

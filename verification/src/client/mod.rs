//! The client: hosting and joining.
pub mod cli;
pub mod coord;
pub mod crypto;
pub mod diag;
pub mod host;
pub mod join;
pub mod lan;
pub mod relay;
pub mod stun;
pub mod system;
pub mod telemetry;
pub mod tunnel;

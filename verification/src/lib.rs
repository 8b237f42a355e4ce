//! Sharing a Minecraft world over a peer-to-peer link.
pub mod client;
pub mod encoding;
pub mod entropy;
pub mod gui;
pub mod server;
pub mod text;

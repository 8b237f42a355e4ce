//! The window: what it holds, what it shows, and what it starts.
pub mod app;
pub mod log;

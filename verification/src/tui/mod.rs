//! The terminal interface: its state, its keys and what it shows.

pub mod app;
pub mod event;
pub mod render;

//! Hermes: an inspecting HTTP proxy with scripts, replay and a terminal view.

pub mod ca;
pub mod head;
pub mod http;
pub mod laws;
pub mod proxy;
pub mod relay;
pub mod replay;
pub mod script;
pub mod store;
pub mod text;
pub mod transaction;
pub mod tui;

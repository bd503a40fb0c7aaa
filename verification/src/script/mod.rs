//! The scripts that decide what happens to a request.

pub mod action;
pub mod engine;
pub mod laws;
pub mod value;

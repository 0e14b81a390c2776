//! What the browser-facing routes decide.

pub mod frontend;

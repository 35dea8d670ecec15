//! What the entry points decide and assemble.

pub mod laws;
pub mod page;
pub mod word_controller;

//! The entry store, the enrichment client's data and the text-generation
//! reply.

pub mod ai;
pub mod calls;
pub mod db;
pub mod filters;
pub mod race;
pub mod reconcile;
pub mod tables;
pub mod word;

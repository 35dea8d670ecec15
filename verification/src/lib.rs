//! The verified core of a dictionary-entry service: given a word, the
//! service returns the entry that it holds, or has one generated and keeps
//! it.
//!
//! - [`extra`] reduces a raw term to its lookup key.
//! - [`services::tables`] is the relational model of the entry store:
//!   languages, words and sentences, with their keys and references.
//! - [`services::db`] keeps such a store in memory and offers the store's
//!   operations on it; [`services::calls`] names these operations as values.
//! - [`services::reconcile`] is the protocol by which a writer resolves a
//!   uniquely keyed row while others write; [`services::race`] shows that
//!   any number of such writers agree on one row.
//! - [`services::word`] and [`services::ai`] hold the generated entry, the
//!   prompt that asks for it, and the text of the backend's reply.
//! - [`controllers::word_controller`] holds the entry points. Each request
//!   is a state machine that names the call it needs next and takes the
//!   answer, so that whoever drives it may wait for a database or a
//!   generation backend in between; [`controllers::page`] assembles a page
//!   of entries, and [`controllers::laws`] states what each request does to
//!   a store from its first call to its result.

pub mod controllers;
pub mod extra;
pub mod services;

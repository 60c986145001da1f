//! Core logic of a verb-conjugation matching trainer: a store of three-form
//! verb entries, and a matching game over a flat grid of labels derived from
//! that store.

pub mod game;
pub mod store;

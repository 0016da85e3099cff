//! Verified core of a semantic file finder: score ordering, text matching,
//! configuration, search post-processing, indexing progress and the worker
//! protocol decisions.
pub mod score;
pub mod text;
pub mod config;
pub mod search;
pub mod clock;
pub mod state;
pub mod indexing;
pub mod protocol;
pub mod clipboard;

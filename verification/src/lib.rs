//! Mirrors the commit history of configured source repositories into one
//! target repository as empty, provenance-tagged "vanity" commits.
//!
//! The crate holds the mirroring engine itself: scanning target history for
//! provenance markers, merging and deduplicating source commit records into a
//! deterministic order, resolving the pending set, rendering commit messages,
//! and guarding the target repository's identity. Repository access (opening,
//! walking and writing commits) is performed by the surrounding application,
//! which hands plain values to these functions and carries their decisions
//! out.

pub mod chars;
pub mod cli;
pub mod config;
pub mod date;
pub mod lines;
pub mod marker;
pub mod merge;
pub mod message;
pub mod numeral;
pub mod source;
pub mod sync;
pub mod text;
pub mod url;

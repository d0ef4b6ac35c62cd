//! Mirrors a source directory tree into a destination tree, one verified
//! decision at a time.
//!
//! The crate holds the rules of the mirror: how paths are keyed, which
//! entries of a walk take part, what is asked of the file system for each
//! entry and in which order, and when a copy counts as good. It performs no
//! I/O itself: the caller carries out each [`engine::Action`] and hands the
//! outcome back as an [`engine::Event`].

pub mod path;
pub mod fingerprint;
pub mod error;
pub mod object;
pub mod engine;
pub mod model;
pub mod laws;

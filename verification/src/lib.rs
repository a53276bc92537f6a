//! Core of a household dashboard service: a mutable, persisted runtime
//! configuration (smart-home endpoint, photo source, idle timeout) and a
//! resolver that turns the configured photo source into a list of photo
//! references.
//!
//! The configuration is persisted as a small JSON document; the codec for
//! that document is implemented and verified here. All filesystem and HTTP
//! plumbing lives outside this crate and hands plain values in and out.

pub mod config;
pub mod json;
pub mod photos;
pub mod store;
pub mod text;

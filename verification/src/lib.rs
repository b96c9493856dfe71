//! Chunked blob storage for an anonymous file host.
//!
//! A blob is split into bounded fragments, described by a header record and
//! kept in a document store that limits the size of a single document. The
//! crate holds the rules of that protocol. It never touches the store: it
//! names what to look up, decides on what the lookup found, and hands out the
//! changes that the caller performs.
//!
//! - `fragments`: splitting a blob and joining fragments.
//! - `sniff`: the type of a blob, by its content.
//! - `ident`, `allocator`: the grammar of identifiers and their allocation.
//! - `upload`, `fetch`, `remove`: the three operations.
//! - `metadata`: the header fields that a fetch exposes.
//! - `store`: the changes of the store and a model of its collections.
//! - `laws`: what holds of the operations on that model.

pub mod allocator;
pub mod fetch;
pub mod fragments;
pub mod ident;
pub mod laws;
pub mod metadata;
pub mod remove;
pub mod sniff;
pub mod store;
pub mod types;
pub mod upload;

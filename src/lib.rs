//! Verified core of a Secret Service daemon backed by a GPG password store.
//!
//! - `slug`, `text`, `table`: slugs, text helpers, string-keyed tables.
//! - `index`, `catalog`, `store`: the attribute index of each collection, the
//!   catalog of labels and aliases, and the store that composes them.
//! - `graph`, `service`: the bus object graph with its alias mirrors, kept in
//!   step with the store.
//! - `transfer`, `crypto`, `bigendian`, `ids`: session transports and the
//!   primitives they use.
//! - `pass`, `gpg`, `meta`: the password store's paths, modes and `gpg`
//!   command lines, and what is read back from `gpg` and the filesystem.
//! - `compact`, `record`: the integer and record encodings of the index.
//! - `error`: errors and their bus names.
pub mod bigendian;
pub mod catalog;
pub mod compact;
pub mod crypto;
pub mod error;
pub mod gpg;
pub mod graph;
pub mod ids;
pub mod index;
pub mod meta;
pub mod pass;
pub mod record;
pub mod service;
pub mod slug;
pub mod store;
pub mod table;
pub mod text;
pub mod transfer;

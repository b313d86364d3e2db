//! A directory-scoped TODO tracker: each directory gets its own list of short
//! text items, each with a sequential ID and an active/done status.
//!
//! The library holds the record formats, the directory map and the store's
//! operations as verified functions on in-memory values; reading and writing
//! the files is left to the caller.

pub mod decimal;
pub mod text;
pub mod record;
pub mod codec;
pub mod hasher;
pub mod dir_map;
pub mod store;
pub mod paths;
pub mod listing;

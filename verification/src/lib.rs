//! A verified playlist bulk-mutation engine.
//!
//! The library reads a playlist as a sequence of entries, computes a new
//! ordering (random shuffle or stable feature sort) or a duplicate report,
//! and plans the chunked replace-then-append protocol that writes the new
//! ordering back to the remote service.

pub mod chunks;
pub mod duplicates;
pub mod errors;
pub mod features;
pub mod model;
pub mod order;
pub mod parse;
pub mod perm;
pub mod reader;

use vstd::prelude::*;

verus! {

/// The largest number of identifiers one remote write or feature call accepts.
pub const CHUNK_MAX: usize = 100;

} // verus!

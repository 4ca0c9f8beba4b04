//! The engine's failure modes.  All are fatal to the current command; none
//! is retried by the engine itself.

use vstd::prelude::*;

verus! {

/// Why a command failed.
#[derive(Clone, Copy, Debug, PartialEq, Eq, Structural)]
pub enum EngineError {
    /// A page read failed, or an item within a page was malformed.
    Fetch,
    /// A feature-chunk call failed; no partial feature map is kept.
    FeatureFetch,
    /// The feature map lacks an entry for a track of the source playlist.
    MissingFeature,
    /// A non-track entry was met under the feature sort.
    UnsupportedItemType,
    /// A replace or append call failed; the calls before `chunk_index`
    /// succeeded, so the remote playlist holds exactly those chunks.
    Write { chunk_index: usize },
}

} // verus!

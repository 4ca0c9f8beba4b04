//! The paginated reader's collection step.
//!
//! Pages are fetched outside the engine; each slot of a page either carries
//! an entry or is malformed (a slot with no underlying track or episode).
//! The whole playlist must be read before any write-back, and a malformed
//! slot is an error, never silently skipped.

use vstd::prelude::*;
use crate::errors::EngineError;
use crate::model::PlaylistEntry;

verus! {

/// A slot of the read playlist that carries no entry.
pub open spec fn has_empty_slot(items: Seq<Option<PlaylistEntry>>) -> bool {
    exists|i: int| 0 <= i < items.len() && (#[trigger] items[i]) is None
}

/// Turns the read slots into the playlist's entries.  Succeeds exactly when
/// every slot carries an entry, keeping their order; one empty slot fails
/// the whole read.
pub fn collect_entries(items: Vec<Option<PlaylistEntry>>) -> (r: Result<
    Vec<PlaylistEntry>,
    EngineError,
>)
    ensures
        (r matches Ok(es)) <==> !has_empty_slot(items@),
        (r matches Err(e) && e == EngineError::Fetch) <==> has_empty_slot(items@),
        r matches Ok(es) ==> {
            &&& es@.len() == items@.len()
            &&& forall|i: int| 0 <= i < items@.len() ==> (#[trigger] items@[i]) == Some(es@[i])
        },
{
    let ghost items0 = items@;
    let mut rest = items;
    let mut es: Vec<PlaylistEntry> = Vec::new();
    let mut taken: usize = 0;
    let total = rest.len();
    #[verifier::loop_isolation(false)]
    while rest.len() > 0
        invariant
            taken + rest@.len() == total,
            total == items0.len(),
            forall|i: int| 0 <= i < rest@.len() ==> rest@[i] == items0[taken + i],
            es@.len() == taken,
            forall|i: int| 0 <= i < taken ==> (#[trigger] items0[i]) == Some(es@[i]),
        decreases rest@.len(),
    {
        match rest.remove(0) {
            Some(e) => {
                es.push(e);
            },
            None => {
                proof {
                    assert((taken as int) < items0.len());
                    assert(items0[taken as int] is None);
                    assert(has_empty_slot(items0));
                }
                return Err(EngineError::Fetch);
            },
        }
        taken = taken + 1;
    }
    proof {
        assert(!has_empty_slot(items0)) by {
            if has_empty_slot(items0) {
                let i = choose|i: int| 0 <= i < items0.len() && (#[trigger] items0[i]) is None;
                assert(items0[i] == Some(es@[i]));
            }
        };
    }
    Ok(es)
}

} // verus!

//! The duplicate detector: one walk over the entries, reporting every entry
//! whose identifier appeared earlier in the list.

use vstd::prelude::*;
use crate::model::{PlayableKind, PlaylistEntry};

verus! {

/// One reported repeat: the entry's display name and kind.
pub struct DuplicateRecord {
    pub name: String,
    pub kind: PlayableKind,
}

impl View for DuplicateRecord {
    type V = (Seq<char>, PlayableKind);

    open spec fn view(&self) -> (Seq<char>, PlayableKind) {
        (self.name@, self.kind)
    }
}

/// The identifier at `i` already appears at an earlier position.
pub open spec fn seen_before(s: Seq<PlaylistEntry>, i: int) -> bool {
    exists|j: int| 0 <= j < i && (#[trigger] s[j]).spec_id() == s[i].spec_id()
}

/// The duplicate report of the entries: for each entry whose identifier
/// already appeared, its name and kind, in source order.  First occurrences
/// are never reported.
pub open spec fn dup_report(s: Seq<PlaylistEntry>) -> Seq<(Seq<char>, PlayableKind)>
    decreases s.len(),
{
    if s.len() == 0 {
        Seq::empty()
    } else {
        let pre = dup_report(s.drop_last());
        if seen_before(s, s.len() - 1) {
            pre.push((s.last().spec_name(), s.last().spec_kind()))
        } else {
            pre
        }
    }
}

/// Whether some entry among the first `i` has the given identifier.
fn id_in_prefix(entries: &Vec<PlaylistEntry>, i: usize, id: &String) -> (r: bool)
    requires
        i <= entries@.len(),
    ensures
        r == exists|j: int| 0 <= j < i && (#[trigger] entries@[j]).spec_id() == id@,
{
    let mut j: usize = 0;
    while j < i
        invariant
            i <= entries@.len(),
            j <= i,
            forall|m: int| 0 <= m < j ==> (#[trigger] entries@[m]).spec_id() != id@,
        decreases i - j,
    {
        if id.eq(entries[j].id()) {
            return true;
        }
        j = j + 1;
    }
    false
}

/// Walks the entries once and reports every repeat occurrence: an entry
/// whose identifier stands earlier in the list as well.  The report keeps
/// the source order of the repeats.
pub fn find_duplicates(entries: &Vec<PlaylistEntry>) -> (report: Vec<DuplicateRecord>)
    ensures
        report@.map_values(|r: DuplicateRecord| r@) == dup_report(entries@),
{
    let mut report: Vec<DuplicateRecord> = Vec::new();
    let mut i: usize = 0;
    while i < entries.len()
        invariant
            i <= entries@.len(),
            report@.map_values(|r: DuplicateRecord| r@) == dup_report(entries@.take(i as int)),
        decreases entries@.len() - i,
    {
        let e = &entries[i];
        proof {
            assert(entries@.take(i + 1).drop_last() =~= entries@.take(i as int));
            assert(entries@.take(i + 1).last() == entries@[i as int]);
            assert(seen_before(entries@.take(i + 1), i as int) == exists|j: int|
                0 <= j < i && (#[trigger] entries@[j]).spec_id() == entries@[i as int].spec_id())
                by {
                if seen_before(entries@.take(i + 1), i as int) {
                    let j = choose|j: int|
                        0 <= j < i && (#[trigger] entries@.take(i + 1)[j]).spec_id() == entries@.take(
                            i + 1,
                        )[i as int].spec_id();
                    assert(entries@[j].spec_id() == entries@[i as int].spec_id());
                }
                if exists|j: int|
                    0 <= j < i && (#[trigger] entries@[j]).spec_id() == entries@[i as int].spec_id() {
                    let j = choose|j: int|
                        0 <= j < i && (#[trigger] entries@[j]).spec_id()
                            == entries@[i as int].spec_id();
                    assert(entries@.take(i + 1)[j].spec_id() == entries@.take(
                        i + 1,
                    )[i as int].spec_id());
                }
            };
        }
        if id_in_prefix(entries, i, e.id()) {
            let rec = DuplicateRecord { name: e.name().clone(), kind: e.kind() };
            let ghost prev = report@.map_values(|r: DuplicateRecord| r@);
            report.push(rec);
            proof {
                assert(report@.map_values(|r: DuplicateRecord| r@) =~= prev.push(
                    (entries@[i as int].spec_name(), entries@[i as int].spec_kind()),
                ));
            }
        }
        i = i + 1;
    }
    proof {
        assert(entries@.take(entries@.len() as int) =~= entries@);
    }
    report
}

} // verus!

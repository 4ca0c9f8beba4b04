//! The data model: playlist entries and their identifiers.

use vstd::prelude::*;

verus! {

/// Which kind of playable item an entry is.
#[derive(Clone, Copy, Debug, PartialEq, Eq, Structural)]
pub enum PlayableKind {
    Track,
    Episode,
}

/// One playable item of a playlist, an immutable snapshot taken at read time.
/// Identity is the playable identifier.
#[derive(Debug)]
pub enum PlaylistEntry {
    Track {
        id: String,
        name: String,
        artist: String,
        album: String,
        duration_secs: u64,
    },
    Episode {
        id: String,
        name: String,
        publisher: String,
        show: String,
        duration_secs: u64,
    },
}

impl PlaylistEntry {
    /// The playable identifier, as a sequence of characters.
    pub open spec fn spec_id(&self) -> Seq<char> {
        match self {
            PlaylistEntry::Track { id, .. } => id@,
            PlaylistEntry::Episode { id, .. } => id@,
        }
    }

    /// The display name, as a sequence of characters.
    pub open spec fn spec_name(&self) -> Seq<char> {
        match self {
            PlaylistEntry::Track { name, .. } => name@,
            PlaylistEntry::Episode { name, .. } => name@,
        }
    }

    /// The kind of the entry.
    pub open spec fn spec_kind(&self) -> PlayableKind {
        match self {
            PlaylistEntry::Track { .. } => PlayableKind::Track,
            PlaylistEntry::Episode { .. } => PlayableKind::Episode,
        }
    }

    pub open spec fn spec_is_track(&self) -> bool {
        self.spec_kind() == PlayableKind::Track
    }

    /// A reference to the playable identifier.
    pub fn id(&self) -> (r: &String)
        ensures
            r@ == self.spec_id(),
    {
        match self {
            PlaylistEntry::Track { id, .. } => id,
            PlaylistEntry::Episode { id, .. } => id,
        }
    }

    /// A reference to the display name.
    pub fn name(&self) -> (r: &String)
        ensures
            r@ == self.spec_name(),
    {
        match self {
            PlaylistEntry::Track { name, .. } => name,
            PlaylistEntry::Episode { name, .. } => name,
        }
    }

    pub fn kind(&self) -> (r: PlayableKind)
        ensures
            r == self.spec_kind(),
    {
        match self {
            PlaylistEntry::Track { .. } => PlayableKind::Track,
            PlaylistEntry::Episode { .. } => PlayableKind::Episode,
        }
    }

    pub fn is_track(&self) -> (r: bool)
        ensures
            r == self.spec_is_track(),
    {
        match self {
            PlaylistEntry::Track { .. } => true,
            PlaylistEntry::Episode { .. } => false,
        }
    }
}

/// The identifiers of a sequence of strings, as character sequences.
pub open spec fn ids_view(v: Seq<String>) -> Seq<Seq<char>> {
    v.map_values(|s: String| s@)
}

/// The identifiers of a sequence of entries, in source order.
pub open spec fn entry_ids(s: Seq<PlaylistEntry>) -> Seq<Seq<char>> {
    s.map_values(|e: PlaylistEntry| e.spec_id())
}

/// The identifiers of the track entries only, in source order.  Episodes
/// carry no feature, so only these are handed to the feature fetcher.
pub open spec fn track_ids_of(s: Seq<PlaylistEntry>) -> Seq<Seq<char>>
    decreases s.len(),
{
    if s.len() == 0 {
        Seq::empty()
    } else {
        let pre = track_ids_of(s.drop_last());
        if s.last().spec_is_track() {
            pre.push(s.last().spec_id())
        } else {
            pre
        }
    }
}

/// The identifiers of the track entries, in source order.
pub fn track_ids(entries: &Vec<PlaylistEntry>) -> (r: Vec<String>)
    ensures
        ids_view(r@) == track_ids_of(entries@),
{
    let mut r: Vec<String> = Vec::new();
    let mut i: usize = 0;
    while i < entries.len()
        invariant
            i <= entries.len(),
            ids_view(r@) == track_ids_of(entries@.take(i as int)),
        decreases entries.len() - i,
    {
        proof {
            assert(entries@.take(i + 1).drop_last() =~= entries@.take(i as int));
            assert(entries@.take(i + 1).last() == entries@[i as int]);
        }
        if entries[i].is_track() {
            let ghost prev = ids_view(r@);
            r.push(entries[i].id().clone());
            proof {
                assert(ids_view(r@) =~= prev.push(entries@[i as int].spec_id()));
            }
        }
        i = i + 1;
    }
    proof {
        assert(entries@.take(entries@.len() as int) =~= entries@);
    }
    r
}

/// The playable identifiers of the entries, in source order.
pub fn playable_ids(entries: &Vec<PlaylistEntry>) -> (r: Vec<String>)
    ensures
        ids_view(r@) == entry_ids(entries@),
{
    let mut r: Vec<String> = Vec::new();
    let mut i: usize = 0;
    while i < entries.len()
        invariant
            i <= entries.len(),
            r@.len() == i,
            forall|j: int| 0 <= j < i ==> r@[j]@ == entries@[j].spec_id(),
        decreases entries.len() - i,
    {
        r.push(entries[i].id().clone());
        i = i + 1;
    }
    assert(ids_view(r@) =~= entry_ids(entries@));
    r
}

} // verus!

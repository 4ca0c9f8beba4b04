//! The ordering strategies: random shuffle and stable feature sort.
//!
//! Both take the entries read from the source playlist and produce an
//! ordered selection: a permutation of exactly the identifiers read, no
//! entry added or dropped.

use vstd::prelude::*;
use crate::errors::EngineError;
use crate::features::FeatureMap;
use crate::model::{PlaylistEntry, entry_ids, ids_view};
use crate::parse::Direction;
use crate::perm::{lemma_dup_count, lemma_insert_to_multiset, lemma_map_values_to_multiset};
use rand::seq::SliceRandom;

verus! {

/// Whether `a` may stand before `b` under the chosen direction.
pub open spec fn feature_le(a: u32, b: u32, dir: Direction) -> bool {
    match dir {
        Direction::Ascending => a <= b,
        Direction::Descending => b <= a,
    }
}

/// The order the stable feature sort establishes: by feature key in the
/// chosen direction, with ties decided by source position.
pub open spec fn lex_le(k1: u32, p1: int, k2: u32, p2: int, dir: Direction) -> bool {
    if k1 == k2 {
        p1 <= p2
    } else {
        feature_le(k1, k2, dir)
    }
}

/// A sequence of (feature key, source position) pairs sorted under `lex_le`.
pub open spec fn sorted_pairs(s: Seq<(u32, usize)>, dir: Direction) -> bool {
    forall|k: int, l: int|
        0 <= k < l < s.len() ==> lex_le(
            (#[trigger] s[k]).0,
            s[k].1 as int,
            (#[trigger] s[l]).0,
            s[l].1 as int,
            dir,
        )
}

fn lex_le_exec(a: (u32, usize), b: (u32, usize), dir: Direction) -> (r: bool)
    ensures
        r == lex_le(a.0, a.1 as int, b.0, b.1 as int, dir),
{
    if a.0 == b.0 {
        a.1 <= b.1
    } else {
        match dir {
            Direction::Ascending => a.0 < b.0,
            Direction::Descending => b.0 < a.0,
        }
    }
}

/// Sorts the pairs under `lex_le` by insertion, keeping the multiset of
/// pairs exactly.
fn sort_pairs(input: &Vec<(u32, usize)>, dir: Direction) -> (out: Vec<(u32, usize)>)
    ensures
        sorted_pairs(out@, dir),
        out@.to_multiset() == input@.to_multiset(),
        out@.len() == input@.len(),
{
    broadcast use vstd::seq_lib::group_to_multiset_ensures;

    let mut out: Vec<(u32, usize)> = Vec::new();
    let mut i: usize = 0;
    while i < input.len()
        invariant
            i <= input.len(),
            out@.len() == i,
            sorted_pairs(out@, dir),
            out@.to_multiset() == input@.take(i as int).to_multiset(),
        decreases input.len() - i,
    {
        let x = input[i];
        let mut pos: usize = 0;
        while pos < out.len() && lex_le_exec(out[pos], x, dir)
            invariant
                pos <= out@.len(),
                sorted_pairs(out@, dir),
                forall|k: int|
                    0 <= k < pos ==> lex_le(
                        (#[trigger] out@[k]).0,
                        out@[k].1 as int,
                        x.0,
                        x.1 as int,
                        dir,
                    ),
            decreases out@.len() - pos,
        {
            pos = pos + 1;
        }
        let ghost out0 = out@;
        out.insert(pos, x);
        proof {
            lemma_insert_to_multiset(out0, pos as int, x);
            assert(input@.take(i + 1) =~= input@.take(i as int).push(x));
            assert(input@.take(i as int).push(x).to_multiset() == input@.take(
                i as int,
            ).to_multiset().insert(x)) by {
                broadcast use vstd::seq_lib::group_to_multiset_ensures;

            };
            assert(out@.to_multiset() == input@.take(i + 1).to_multiset());
            assert forall|k: int, l: int| 0 <= k < l < out@.len() implies lex_le(
                (#[trigger] out@[k]).0,
                out@[k].1 as int,
                (#[trigger] out@[l]).0,
                out@[l].1 as int,
                dir,
            ) by {
                if pos < out0.len() {
                    assert(!lex_le(out0[pos as int].0, out0[pos as int].1 as int, x.0, x.1 as int, dir));
                }
                if l < pos {
                    assert(out@[k] == out0[k] && out@[l] == out0[l]);
                } else if k < pos && l == pos {
                    assert(out@[k] == out0[k] && out@[l] == x);
                } else if k < pos && l > pos {
                    assert(out@[k] == out0[k] && out@[l] == out0[l - 1]);
                } else if k == pos {
                    assert(out@[k] == x && out@[l] == out0[l - 1]);
                    assert(l - 1 >= pos);
                } else {
                    assert(out@[k] == out0[k - 1] && out@[l] == out0[l - 1]);
                }
            };
        }
        i = i + 1;
    }
    proof {
        assert(input@.take(input@.len() as int) =~= input@);
    }
    out
}

/// Relies on rand's `SliceRandom::shuffle`: it reorders the slice in place
/// by swaps, so the result holds exactly the elements it held before, in
/// some order drawn from the thread's generator.
#[verifier::external_body]
fn shuffle_ids(v: &mut Vec<String>)
    ensures
        ids_view(final(v)@).to_multiset() == ids_view(old(v)@).to_multiset(),
        final(v)@.len() == old(v)@.len(),
{
    v.shuffle(&mut rand::thread_rng());
}

/// The random strategy: a shuffle of the playable identifiers.  The result
/// is a permutation of the input — the same identifiers, each as often as
/// before, no addition or omission.  The order is drawn from a fresh source
/// of randomness and is not reproducible by design.
pub fn order_random(ids: Vec<String>) -> (r: Vec<String>)
    ensures
        ids_view(r@).to_multiset() == ids_view(ids@).to_multiset(),
        r@.len() == ids@.len(),
{
    let mut v = ids;
    shuffle_ids(&mut v);
    v
}

/// A playlist with a non-track entry, which the feature sort refuses.
pub open spec fn has_episode(s: Seq<PlaylistEntry>) -> bool {
    exists|i: int| 0 <= i < s.len() && !(#[trigger] s[i]).spec_is_track()
}

/// A track of the playlist whose feature the map does not know.
pub open spec fn missing_feature(s: Seq<PlaylistEntry>, fm: Map<Seq<char>, u32>) -> bool {
    exists|i: int|
        0 <= i < s.len() && (#[trigger] s[i]).spec_is_track() && !fm.contains_key(s[i].spec_id())
}

/// `out` is the stable feature sort of the entries' identifiers: `perm`
/// lists distinct source positions, `out` reads the identifiers off in that
/// order, and the positions stand in feature order, ties kept in source
/// order.
pub open spec fn is_stable_feature_perm(
    s: Seq<PlaylistEntry>,
    fm: Map<Seq<char>, u32>,
    dir: Direction,
    out: Seq<Seq<char>>,
    perm: Seq<int>,
) -> bool {
    &&& perm.len() == s.len()
    &&& out.len() == s.len()
    &&& forall|k: int| 0 <= k < perm.len() ==> 0 <= #[trigger] perm[k] < s.len()
    &&& forall|k: int, l: int| 0 <= k < l < perm.len() ==> perm[k] != perm[l]
    &&& forall|k: int| 0 <= k < perm.len() ==> #[trigger] out[k] == s[perm[k]].spec_id()
    &&& forall|k: int, l: int|
        0 <= k < l < perm.len() ==> lex_le(
            fm[s[#[trigger] perm[k]].spec_id()],
            perm[k],
            fm[s[#[trigger] perm[l]].spec_id()],
            perm[l],
            dir,
        )
}

/// There is a stable feature permutation behind `out`.  Since the positions
/// are distinct and totally ordered by `lex_le`, exactly one `out` satisfies
/// this: the stable sort of the identifiers by feature.
pub open spec fn stable_feature_order(
    s: Seq<PlaylistEntry>,
    fm: Map<Seq<char>, u32>,
    dir: Direction,
    out: Seq<Seq<char>>,
) -> bool {
    exists|perm: Seq<int>| is_stable_feature_perm(s, fm, dir, out, perm)
}

/// Entries with equal feature keys keep their source order: wherever a
/// stable feature permutation puts two positions of equal key, the earlier
/// output position reads from the earlier source position.
pub proof fn lemma_equal_keys_keep_source_order(
    s: Seq<PlaylistEntry>,
    fm: Map<Seq<char>, u32>,
    dir: Direction,
    out: Seq<Seq<char>>,
    perm: Seq<int>,
    k: int,
    l: int,
)
    requires
        is_stable_feature_perm(s, fm, dir, out, perm),
        0 <= k < l < perm.len(),
        fm[s[perm[k]].spec_id()] == fm[s[perm[l]].spec_id()],
    ensures
        perm[k] < perm[l],
{
}

/// The feature-sort strategy.  It refuses a playlist with a non-track entry,
/// then refuses a feature map that misses any track of the playlist, and
/// otherwise returns the identifiers sorted stably by feature key in the
/// chosen direction: a permutation of the source identifiers in which equal
/// keys keep their source order.
pub fn order_by_feature(
    entries: &Vec<PlaylistEntry>,
    features: &FeatureMap,
    dir: Direction,
) -> (r: Result<Vec<String>, EngineError>)
    ensures
        (r matches Err(e) && e == EngineError::UnsupportedItemType) <==> has_episode(entries@),
        (r matches Err(e) && e == EngineError::MissingFeature) <==> (!has_episode(entries@)
            && missing_feature(entries@, features@)),
        (r matches Ok(out)) <==> (!has_episode(entries@) && !missing_feature(
            entries@,
            features@,
        )),
        r matches Ok(out) ==> {
            &&& out@.len() == entries@.len()
            &&& stable_feature_order(entries@, features@, dir, ids_view(out@))
            &&& ids_view(out@).to_multiset() == entry_ids(entries@).to_multiset()
            &&& forall|k: int, l: int|
                0 <= k < l < out@.len() ==> feature_le(
                    features@[(#[trigger] out@[k])@],
                    features@[(#[trigger] out@[l])@],
                    dir,
                )
        },
{
    broadcast use vstd::seq_lib::group_to_multiset_ensures;

    let n = entries.len();
    let mut i: usize = 0;
    while i < n
        invariant
            n == entries@.len(),
            i <= n,
            forall|j: int| 0 <= j < i ==> (#[trigger] entries@[j]).spec_is_track(),
        decreases n - i,
    {
        if !entries[i].is_track() {
            return Err(EngineError::UnsupportedItemType);
        }
        i = i + 1;
    }
    let mut pairs: Vec<(u32, usize)> = Vec::new();
    let mut i: usize = 0;
    while i < n
        invariant
            n == entries@.len(),
            i <= n,
            forall|j: int| 0 <= j < n ==> (#[trigger] entries@[j]).spec_is_track(),
            pairs@.len() == i,
            forall|j: int| 0 <= j < i ==> features@.contains_key((#[trigger] entries@[j]).spec_id()),
            forall|j: int|
                0 <= j < i ==> #[trigger] pairs@[j] == (features@[entries@[j].spec_id()], j as usize),
        decreases n - i,
    {
        let id = entries[i].id();
        match features.get(id) {
            Some(key) => {
                pairs.push((key, i));
                proof {
                    assert(features@.contains_key(entries@[i as int].spec_id()));
                    assert(pairs@[i as int] == (features@[entries@[i as int].spec_id()], i));
                }
            },
            None => {
                return Err(EngineError::MissingFeature);
            },
        }
        i = i + 1;
    }
    let sorted = sort_pairs(&pairs, dir);
    proof {
        pairs@.lemma_multiset_has_no_duplicates();
        assert forall|k: int| 0 <= k < sorted@.len() implies {
            &&& 0 <= (#[trigger] sorted@[k]).1 < n
            &&& features@.contains_key(entries@[sorted@[k].1 as int].spec_id())
            &&& sorted@[k].0 == features@[entries@[sorted@[k].1 as int].spec_id()]
        } by {
            assert(sorted@.contains(sorted@[k]));
            assert(pairs@.to_multiset().count(sorted@[k]) > 0);
            assert(pairs@.contains(sorted@[k]));
            let j = choose|j: int| 0 <= j < pairs@.len() && pairs@[j] == sorted@[k];
            assert(pairs@[j] == (features@[entries@[j].spec_id()], j as usize));
        };
        assert forall|k: int, l: int| 0 <= k < l < sorted@.len() implies (#[trigger] sorted@[k]).1
            != (#[trigger] sorted@[l]).1 by {
            if sorted@[k].1 == sorted@[l].1 {
                let p = sorted@[k].1 as int;
                assert(sorted@[k] == (features@[entries@[p].spec_id()], sorted@[k].1));
                assert(sorted@[l] == (features@[entries@[p].spec_id()], sorted@[l].1));
                assert(sorted@[k] == sorted@[l]);
                lemma_dup_count(sorted@, k, l);
                assert(pairs@.to_multiset().count(sorted@[k]) >= 2);
                assert(pairs@.contains(sorted@[k]));
            }
        };
    }
    let mut out: Vec<String> = Vec::new();
    let mut k: usize = 0;
    while k < sorted.len()
        invariant
            n == entries@.len(),
            sorted@.len() == n,
            k <= n,
            out@.len() == k,
            forall|m: int| 0 <= m < n ==> 0 <= (#[trigger] sorted@[m]).1 < n,
            forall|m: int| 0 <= m < k ==> (#[trigger] out@[m])@ == entries@[sorted@[m].1 as int].spec_id(),
        decreases n - k,
    {
        let idx = sorted[k].1;
        out.push(entries[idx].id().clone());
        k = k + 1;
    }
    proof {
        let ghost perm = Seq::new(n as nat, |k: int| sorted@[k].1 as int);
        assert(is_stable_feature_perm(entries@, features@, dir, ids_view(out@), perm));
        let ghost f = |p: (u32, usize)| entries@[p.1 as int].spec_id();
        lemma_map_values_to_multiset(sorted@, pairs@, f);
        assert(sorted@.map_values(f) =~= ids_view(out@));
        assert(pairs@.map_values(f) =~= entry_ids(entries@));
        assert forall|k: int, l: int| 0 <= k < l < out@.len() implies feature_le(
            features@[(#[trigger] out@[k])@],
            features@[(#[trigger] out@[l])@],
            dir,
        ) by {
            assert(lex_le(
                sorted@[k].0,
                sorted@[k].1 as int,
                sorted@[l].0,
                sorted@[l].1 as int,
                dir,
            ));
        };
    }
    Ok(out)
}

} // verus!

//! The feature map: track identifier to energy key.
//!
//! The remote service scores each track with an `energy` value; the engine
//! keeps, for every track identifier it fetched, an integer key whose order
//! is the order of those scores.  A later insertion of the same identifier
//! replaces the earlier one.

use vstd::prelude::*;

verus! {

/// What a sequence of (identifier, key) pairs means as a map: a later pair
/// wins over an earlier one with the same identifier.
pub open spec fn map_of_pairs(pairs: Seq<(String, u32)>) -> Map<Seq<char>, u32>
    decreases pairs.len(),
{
    if pairs.len() == 0 {
        Map::empty()
    } else {
        map_of_pairs(pairs.drop_last()).insert(pairs.last().0@, pairs.last().1)
    }
}

/// A mapping from track identifier to an integer energy key, populated from
/// the feature endpoint's answers.
pub struct FeatureMap {
    pairs: Vec<(String, u32)>,
}

impl View for FeatureMap {
    type V = Map<Seq<char>, u32>;

    closed spec fn view(&self) -> Map<Seq<char>, u32> {
        map_of_pairs(self.pairs@)
    }
}

/// When no pair at or after `i` holds the key `k`, the pairs up to `i`
/// already decide what the whole sequence says of `k`.
proof fn lemma_map_of_pairs_prefix(pairs: Seq<(String, u32)>, i: int, k: Seq<char>)
    requires
        0 <= i <= pairs.len(),
        forall|j: int| i <= j < pairs.len() ==> (#[trigger] pairs[j]).0@ != k,
    ensures
        map_of_pairs(pairs).contains_key(k) == map_of_pairs(pairs.take(i)).contains_key(k),
        map_of_pairs(pairs.take(i)).contains_key(k) ==> map_of_pairs(pairs)[k] == map_of_pairs(
            pairs.take(i),
        )[k],
    decreases pairs.len() - i,
{
    if i == pairs.len() {
        assert(pairs.take(i) =~= pairs);
    } else {
        lemma_map_of_pairs_prefix(pairs.take(pairs.len() - 1), i, k);
        assert(pairs.take(pairs.len() - 1).take(i) =~= pairs.take(i));
        assert(pairs.take(pairs.len() - 1) =~= pairs.drop_last());
        assert(pairs.last().0@ != k);
    }
}

impl FeatureMap {
    /// An empty feature map.
    pub fn new() -> (r: FeatureMap)
        ensures
            r@ == Map::<Seq<char>, u32>::empty(),
    {
        FeatureMap { pairs: Vec::new() }
    }

    /// Records the energy key of a track identifier, replacing an earlier
    /// record of the same identifier.
    pub fn insert(&mut self, id: String, key: u32)
        ensures
            final(self)@ == old(self)@.insert(id@, key),
    {
        let ghost p0 = self.pairs@;
        self.pairs.push((id, key));
        proof {
            assert(self.pairs@.drop_last() =~= p0);
        }
    }

    /// The energy key recorded for the identifier, if any.
    pub fn get(&self, id: &String) -> (r: Option<u32>)
        ensures
            match r {
                Some(k) => self@.contains_key(id@) && self@[id@] == k,
                None => !self@.contains_key(id@),
            },
    {
        let mut j = self.pairs.len();
        while j > 0
            invariant
                j <= self.pairs.len(),
                forall|m: int| j <= m < self.pairs@.len() ==> (#[trigger] self.pairs@[m]).0@ != id@,
            decreases j,
        {
            j = j - 1;
            if id.eq(&self.pairs[j].0) {
                proof {
                    lemma_map_of_pairs_prefix(self.pairs@, j + 1, id@);
                    assert(self.pairs@.take(j + 1).drop_last() =~= self.pairs@.take(j as int));
                    assert(self.pairs@.take(j + 1).last() == self.pairs@[j as int]);
                }
                return Some(self.pairs[j].1);
            }
        }
        proof {
            lemma_map_of_pairs_prefix(self.pairs@, 0, id@);
            assert(self.pairs@.take(0) =~= Seq::<(String, u32)>::empty());
        }
        None
    }

    /// Builds a feature map from the pairs of one or more feature-endpoint
    /// answers, later pairs replacing earlier ones.
    pub fn from_pairs(pairs: Vec<(String, u32)>) -> (r: FeatureMap)
        ensures
            r@ == map_of_pairs(pairs@),
    {
        let m = FeatureMap { pairs };
        m
    }

}

} // verus!

//! A small string-keyed table in which a later insertion of a key wins.

use vstd::prelude::*;

verus! {

/// The value that the last pair with key `k` holds, if any.
pub open spec fn lookup_pairs(pairs: Seq<(Seq<char>, Seq<char>)>, k: Seq<char>) -> Option<Seq<char>>
    decreases pairs.len(),
{
    if pairs.len() == 0 {
        None
    } else if pairs.last().0 == k {
        Some(pairs.last().1)
    } else {
        lookup_pairs(pairs.drop_last(), k)
    }
}

/// An ordered table from strings to strings, kept as the sequence of its
/// insertions: a later insertion of a key shadows the earlier ones.
pub struct PathMap {
    pub entries: Vec<(String, String)>,
}

impl PathMap {
    /// The insertions, as plain values.
    pub open spec fn pairs(&self) -> Seq<(Seq<char>, Seq<char>)> {
        self.entries@.map_values(|e: (String, String)| (e.0@, e.1@))
    }

    /// What a lookup of `k` finds.
    pub open spec fn spec_get(&self, k: Seq<char>) -> Option<Seq<char>> {
        lookup_pairs(self.pairs(), k)
    }

    /// Whether nothing was ever inserted.
    pub open spec fn spec_is_empty(&self) -> bool {
        self.entries@.len() == 0
    }

    pub fn new() -> (r: PathMap)
        ensures
            r.pairs() == Seq::<(Seq<char>, Seq<char>)>::empty(),
            forall|k: Seq<char>| r.spec_get(k) is None,
    {
        PathMap { entries: Vec::new() }
    }

    pub fn is_empty(&self) -> (r: bool)
        ensures
            r == self.spec_is_empty(),
    {
        self.entries.len() == 0
    }

    /// Maps `k` to `v`, replacing what `k` mapped to before.
    pub fn insert(&mut self, k: String, v: String)
        ensures
            final(self).pairs() == old(self).pairs().push((k@, v@)),
            final(self).spec_get(k@) == Some(v@),
            forall|q: Seq<char>| q != k@ ==> final(self).spec_get(q) == old(self).spec_get(q),
    {
        let ghost before = self.pairs();
        self.entries.push((k, v));
        proof {
            assert(self.pairs() =~= before.push((k@, v@)));
            assert(self.pairs().drop_last() =~= before);
        }
    }

    /// The value that `k` maps to.
    pub fn get(&self, k: &String) -> (r: Option<String>)
        ensures
            r matches Some(v) ==> self.spec_get(k@) == Some(v@),
            r is None ==> self.spec_get(k@) is None,
    {
        let mut i: usize = self.entries.len();
        proof {
            assert(self.pairs().take(i as int) =~= self.pairs());
        }
        while i > 0
            invariant
                i <= self.entries@.len(),
                self.spec_get(k@) == lookup_pairs(self.pairs().take(i as int), k@),
            decreases i,
        {
            let e = &self.entries[i - 1];
            proof {
                assert(self.pairs().take(i as int).drop_last() =~= self.pairs().take(i - 1));
            }
            if e.0 == *k {
                return Some(e.1.clone());
            }
            i = i - 1;
        }
        None
    }
}

} // verus!

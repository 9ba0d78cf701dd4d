//! The name-to-index mapping of an atlas.
//!
//! A [`NameMap`] is an association list with pairwise-distinct keys, read
//! as a `Map<Seq<char>, usize>`.  Inserting an existing name overwrites the
//! earlier entry: the last write wins, as the atlas format demands of
//! duplicate sub-texture names.

use vstd::prelude::*;

verus! {

/// The mapping an association list denotes; a later pair overrides an
/// earlier one with the same name.
pub open spec fn map_of(pairs: Seq<(String, usize)>) -> Map<Seq<char>, usize>
    decreases pairs.len(),
{
    if pairs.len() == 0 {
        Map::empty()
    } else {
        map_of(pairs.drop_last()).insert(pairs.last().0@, pairs.last().1)
    }
}

/// No name occurs twice.
pub open spec fn distinct_keys(pairs: Seq<(String, usize)>) -> bool {
    forall|p: int, q: int|
        0 <= p < q < pairs.len() ==> (#[trigger] pairs[p]).0@ != (#[trigger] pairs[q]).0@
}

/// A name is in the mapping exactly when some pair holds it.
pub proof fn lemma_map_of_contains(pairs: Seq<(String, usize)>, k: Seq<char>)
    ensures
        map_of(pairs).contains_key(k) <==> exists|p: int|
            0 <= p < pairs.len() && (#[trigger] pairs[p]).0@ == k,
    decreases pairs.len(),
{
    if pairs.len() > 0 {
        lemma_map_of_contains(pairs.drop_last(), k);
        if pairs.last().0@ == k {
            assert(pairs[pairs.len() - 1].0@ == k);
        } else {
            if map_of(pairs).contains_key(k) {
                let p = choose|p: int|
                    0 <= p < pairs.drop_last().len() && (#[trigger] pairs.drop_last()[p]).0@ == k;
                assert(pairs[p].0@ == k);
            }
            if exists|p: int| 0 <= p < pairs.len() && (#[trigger] pairs[p]).0@ == k {
                let p = choose|p: int| 0 <= p < pairs.len() && (#[trigger] pairs[p]).0@ == k;
                assert(p < pairs.len() - 1);
                assert(pairs.drop_last()[p].0@ == k);
            }
        }
    }
}

/// With distinct names, the mapping has exactly one entry per pair.
pub proof fn lemma_map_of_len(pairs: Seq<(String, usize)>)
    requires
        distinct_keys(pairs),
    ensures
        map_of(pairs).dom().finite(),
        map_of(pairs).dom().len() == pairs.len(),
    decreases pairs.len(),
{
    if pairs.len() == 0 {
        assert(map_of(pairs).dom() =~= Set::<Seq<char>>::empty());
    } else {
        let dl = pairs.drop_last();
        assert forall|p: int, q: int| 0 <= p < q < dl.len() implies (#[trigger] dl[p]).0@ != (
        #[trigger] dl[q]).0@ by {
            assert(dl[p] == pairs[p]);
            assert(dl[q] == pairs[q]);
        }
        lemma_map_of_len(dl);
        lemma_map_of_contains(dl, pairs.last().0@);
        assert forall|p: int| 0 <= p < dl.len() implies (#[trigger] dl[p]).0@ != pairs.last().0@ by {
            assert(dl[p] == pairs[p]);
            assert(pairs[p].0@ != pairs[pairs.len() - 1].0@);
        }
        assert(!map_of(dl).contains_key(pairs.last().0@));
        assert(map_of(pairs).dom() =~= map_of(dl).dom().insert(pairs.last().0@));
    }
}

/// Overwriting the pair that holds a name is an insert on the mapping.
proof fn lemma_map_of_update(pairs: Seq<(String, usize)>, j: int, pair: (String, usize))
    requires
        0 <= j < pairs.len(),
        distinct_keys(pairs),
        pair.0@ == pairs[j].0@,
    ensures
        map_of(pairs.update(j, pair)) =~= map_of(pairs).insert(pair.0@, pair.1),
    decreases pairs.len(),
{
    let u = pairs.update(j, pair);
    let k = pair.0@;
    if j == pairs.len() - 1 {
        assert(u.drop_last() =~= pairs.drop_last());
        assert(u.last() == pair);
        assert(map_of(u) =~= map_of(pairs).insert(k, pair.1));
    } else {
        let dl = pairs.drop_last();
        assert forall|p: int, q: int| 0 <= p < q < dl.len() implies (#[trigger] dl[p]).0@ != (
        #[trigger] dl[q]).0@ by {
            assert(dl[p] == pairs[p]);
            assert(dl[q] == pairs[q]);
        }
        assert(u.drop_last() =~= dl.update(j, pair));
        lemma_map_of_update(dl, j, pair);
        assert(u.last() == pairs.last());
        // the overwritten name differs from the last pair's name, so the
        // two inserts commute
        assert(pairs[j].0@ != pairs.last().0@);
        assert(map_of(u) =~= map_of(pairs).insert(k, pair.1));
    }
}

/// A mapping from sprite names to layout indices; the last insert of a name
/// wins.
#[derive(Debug)]
pub struct NameMap {
    pairs: Vec<(String, usize)>,
}

impl View for NameMap {
    type V = Map<Seq<char>, usize>;

    closed spec fn view(&self) -> Map<Seq<char>, usize> {
        map_of(self.pairs@)
    }
}

impl NameMap {
    #[verifier::type_invariant]
    spec fn inv(self) -> bool {
        distinct_keys(self.pairs@)
    }

    /// The empty mapping.
    pub fn new() -> (m: NameMap)
        ensures
            m@ == Map::<Seq<char>, usize>::empty(),
    {
        NameMap { pairs: Vec::new() }
    }

    /// Record an index under a name; an earlier entry for the same name is
    /// overwritten.
    pub fn insert(&mut self, name: String, index: usize)
        ensures
            final(self)@ == old(self)@.insert(name@, index),
    {
        proof {
            use_type_invariant(&*self);
        }
        let ghost k = name@;
        let mut pairs: Vec<(String, usize)> = Vec::new();
        core::mem::swap(&mut pairs, &mut self.pairs);
        let n = pairs.len();
        let mut i: usize = 0;
        while i < n
            invariant
                n == pairs@.len(),
                i <= n,
                forall|m: int| 0 <= m < i ==> (#[trigger] pairs@[m]).0@ != k,
                name@ == k,
                distinct_keys(pairs@),
                pairs@ == old(self).pairs@,
            decreases n - i,
        {
            let hit = crate::events::str_eq(pairs[i].0.as_str(), name.as_str());
            if hit {
                proof {
                    lemma_map_of_update(pairs@, i as int, (name, index));
                }
                pairs.set(i, (name, index));
                proof {
                    assert forall|p: int, q: int|
                        0 <= p < q < pairs@.len() implies (#[trigger] pairs@[p]).0@ != (
                    #[trigger] pairs@[q]).0@ by {
                        assert(pairs@[p].0@ == old(self).pairs@[p].0@);
                        assert(pairs@[q].0@ == old(self).pairs@[q].0@);
                    }
                }
                self.pairs = pairs;
                return ;
            }
            i = i + 1;
        }
        proof {
            lemma_map_of_contains(pairs@, k);
            assert(!map_of(pairs@).contains_key(k));
        }
        pairs.push((name, index));
        proof {
            assert(pairs@.drop_last() =~= old(self).pairs@);
            assert forall|p: int, q: int|
                0 <= p < q < pairs@.len() implies (#[trigger] pairs@[p]).0@ != (
            #[trigger] pairs@[q]).0@ by {
                assert(pairs@[p] == old(self).pairs@[p]);
                if q == pairs@.len() - 1 {
                    assert(pairs@[q].0@ == k);
                    assert(old(self).pairs@[p].0@ != k);
                } else {
                    assert(pairs@[q] == old(self).pairs@[q]);
                }
            }
        }
        self.pairs = pairs;
    }

    /// Look a name up.
    pub fn get(&self, name: &str) -> (r: Option<usize>)
        ensures
            match r {
                Some(v) => self@.contains_key(name@) && self@[name@] == v,
                None => !self@.contains_key(name@),
            },
    {
        let mut i: usize = self.pairs.len();
        proof {
            assert(self.pairs@.take(i as int) =~= self.pairs@);
        }
        while i > 0
            invariant
                i <= self.pairs@.len(),
                map_of(self.pairs@).contains_key(name@) == map_of(
                    self.pairs@.take(i as int),
                ).contains_key(name@),
                map_of(self.pairs@).contains_key(name@) ==> map_of(self.pairs@)[name@] == map_of(
                    self.pairs@.take(i as int),
                )[name@],
            decreases i,
        {
            let pair = &self.pairs[i - 1];
            proof {
                assert(self.pairs@.take(i as int).last() == self.pairs@[i - 1]);
                assert(self.pairs@.take(i as int).drop_last() =~= self.pairs@.take(i - 1));
            }
            if crate::events::str_eq(pair.0.as_str(), name) {
                return Some(pair.1);
            }
            i = i - 1;
        }
        proof {
            assert(self.pairs@.take(0) =~= Seq::<(String, usize)>::empty());
        }
        None
    }

    /// How many names are mapped.
    pub fn len(&self) -> (n: usize)
        ensures
            n == self@.dom().len(),
    {
        proof {
            use_type_invariant(&*self);
            lemma_map_of_len(self.pairs@);
        }
        self.pairs.len()
    }
}

} // verus!

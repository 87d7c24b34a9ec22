//! A map from text keys, kept as a list of pairs in the order in which the keys
//! first came.

use vstd::prelude::*;

use crate::text::str_eq;

verus! {

/// A map from text to `V` in which no key occurs twice.
#[derive(Debug)]
pub struct StrMap<V> {
    pairs: Vec<(String, V)>,
}

/// Whether no two pairs share a key.
pub open spec fn distinct_keys<V>(p: Seq<(String, V)>) -> bool {
    forall|i: int, j: int| 0 <= i < j < p.len() ==> (#[trigger] p[i]).0@ != (#[trigger] p[j]).0@
}

/// The map that a list of pairs stands for, later pairs winning.
pub open spec fn map_of<V>(p: Seq<(String, V)>) -> Map<Seq<char>, V>
    decreases p.len(),
{
    if p.len() == 0 {
        Map::empty()
    } else {
        map_of(p.drop_last()).insert(p.last().0@, p.last().1)
    }
}

/// The text values of a map.
pub open spec fn text_values(m: Map<Seq<char>, String>) -> Map<Seq<char>, Seq<char>> {
    m.map_values(|s: String| s@)
}

/// Whether some pair has the key `k`.
pub open spec fn has_key<V>(p: Seq<(String, V)>, k: Seq<char>) -> bool {
    exists|i: int| 0 <= i < p.len() && (#[trigger] p[i]).0@ == k
}

pub proof fn lemma_map_of<V>(p: Seq<(String, V)>)
    ensures
        forall|k: Seq<char>| #[trigger] map_of(p).dom().contains(k) == has_key(p, k),
        distinct_keys(p) ==> forall|i: int|
            0 <= i < p.len() ==> map_of(p)[(#[trigger] p[i]).0@] == p[i].1,
    decreases p.len(),
{
    if p.len() > 0 {
        let q = p.drop_last();
        lemma_map_of(q);
        assert forall|k: Seq<char>| #[trigger]
            map_of(p).dom().contains(k) == has_key(p, k) by {
            assert(map_of(q).dom().contains(k) == has_key(q, k));
            if has_key(q, k) {
                let i = choose|i: int| 0 <= i < q.len() && (#[trigger] q[i]).0@ == k;
                assert(p[i].0@ == k);
            }
            if k == p.last().0@ {
                assert(p[p.len() - 1].0@ == k);
            }
            if has_key(p, k) {
                let i = choose|i: int| 0 <= i < p.len() && (#[trigger] p[i]).0@ == k;
                if i < q.len() {
                    assert(q[i].0@ == k);
                }
            }
        }
        if distinct_keys(p) {
            assert(distinct_keys(q)) by {
                assert forall|i: int, j: int| 0 <= i < j < q.len() implies (#[trigger] q[i]).0@ != (
                #[trigger] q[j]).0@ by {
                    assert(p[i].0@ != p[j].0@);
                }
            }
            assert forall|i: int| 0 <= i < p.len() implies map_of(p)[(#[trigger] p[i]).0@]
                == p[i].1 by {
                if i < q.len() {
                    assert(q[i].0@ == p[i].0@);
                    assert(p[i].0@ != p[p.len() - 1].0@);
                }
            }
        }
    }
}

impl<V> View for StrMap<V> {
    type V = Map<Seq<char>, V>;

    closed spec fn view(&self) -> Map<Seq<char>, V> {
        map_of(self.pairs@)
    }
}

impl<V> StrMap<V> {
    #[verifier::type_invariant]
    spec fn no_key_twice(&self) -> bool {
        distinct_keys(self.pairs@)
    }

    /// The pairs in the order in which the keys first came.
    pub closed spec fn list(&self) -> Seq<(String, V)> {
        self.pairs@
    }

    pub fn new() -> (r: Self)
        ensures
            r@ == Map::<Seq<char>, V>::empty(),
            r.list() == Seq::<(String, V)>::empty(),
    {
        StrMap { pairs: Vec::new() }
    }

    /// The map of a list of pairs in which no key occurs twice.
    pub fn of_pairs(pairs: Vec<(String, V)>) -> (r: Self)
        requires
            distinct_keys(pairs@),
        ensures
            r@ == map_of(pairs@),
            r.list() == pairs@,
    {
        StrMap { pairs }
    }

    /// How many keys there are. The pairs of the list are those of the map, each
    /// key once.
    pub fn len(&self) -> (r: usize)
        ensures
            r == self.list().len(),
            self@ == map_of(self.list()),
            distinct_keys(self.list()),
    {
        proof {
            use_type_invariant(self);
        }
        self.pairs.len()
    }

    fn position(&self, key: &str) -> (r: Option<usize>)
        ensures
            match r {
                Some(i) => i < self.list().len() && self.list()[i as int].0@ == key@,
                None => forall|i: int|
                    0 <= i < self.list().len() ==> (#[trigger] self.list()[i]).0@ != key@,
            },
    {
        let mut i: usize = 0;
        while i < self.pairs.len()
            invariant
                i <= self.pairs.len(),
                forall|j: int| 0 <= j < i ==> (#[trigger] self.list()[j]).0@ != key@,
            decreases self.pairs.len() - i,
        {
            if str_eq(self.pairs[i].0.as_str(), key) {
                return Some(i);
            }
            i += 1;
        }
        None
    }

    pub fn get(&self, key: &str) -> (r: Option<&V>)
        ensures
            r is Some <==> self@.dom().contains(key@),
            r matches Some(v) ==> *v == self@[key@],
    {
        proof {
            use_type_invariant(self);
            lemma_map_of(self.pairs@);
        }
        assert(self@.dom().contains(key@) == has_key(self.pairs@, key@));
        assert(self.list() == self.pairs@);
        match self.position(key) {
            Some(i) => {
                assert(self.pairs@[i as int].0@ == key@);
                Some(&self.pairs[i].1)
            },
            None => None,
        }
    }

    pub fn contains_key(&self, key: &str) -> (r: bool)
        ensures
            r == self@.dom().contains(key@),
    {
        self.get(key).is_some()
    }

    /// The key at position `i` of the list.
    pub fn key_at(&self, i: usize) -> (r: &String)
        requires
            i < self.list().len(),
        ensures
            *r == self.list()[i as int].0,
    {
        &self.pairs[i].0
    }

    /// The value at position `i` of the list.
    pub fn value_at(&self, i: usize) -> (r: &V)
        requires
            i < self.list().len(),
        ensures
            *r == self.list()[i as int].1,
    {
        &self.pairs[i].1
    }

    /// Sets the value of `key`, which keeps its place where it was there already
    /// and goes to the end where it was not.
    pub fn insert(&mut self, key: String, value: V)
        ensures
            final(self)@ == old(self)@.insert(key@, value),
            !old(self)@.dom().contains(key@) ==> final(self).list() == old(self).list().push(
                (key, value),
            ),
    {
        proof {
            use_type_invariant(&*self);
            lemma_map_of(self.pairs@);
        }
        let ghost before = self.pairs@;
        assert(self@.dom().contains(key@) == has_key(before, key@));
        assert(self.list() == before);
        let at = self.position(key.as_str());
        assert(at is None ==> forall|i: int|
            0 <= i < before.len() ==> (#[trigger] before[i]).0@ != key@);
        let mut pairs: Vec<(String, V)> = Vec::new();
        core::mem::swap(&mut pairs, &mut self.pairs);
        match at {
            Some(i) => {
                let ghost k = key@;
                assert(before[i as int].0@ == k);
                pairs.set(i, (key, value));
                proof {
                    let after = pairs@;
                    assert(distinct_keys(after)) by {
                        assert forall|a: int, b: int| 0 <= a < b < after.len() implies (
                        #[trigger] after[a]).0@ != (#[trigger] after[b]).0@ by {
                            assert(before[a].0@ != before[b].0@);
                        }
                    }
                    lemma_map_of(after);
                    assert forall|q: Seq<char>|
                        map_of(after).dom().contains(q) == map_of(before).insert(
                            k,
                            value,
                        ).dom().contains(q) by {
                        assert(map_of(after).dom().contains(q) == has_key(after, q));
                        assert(map_of(before).dom().contains(q) == has_key(before, q));
                        if map_of(after).dom().contains(q) {
                            let a = choose|a: int|
                                0 <= a < after.len() && (#[trigger] after[a]).0@ == q;
                            assert(before[a].0@ == q);
                        }
                        if map_of(before).dom().contains(q) {
                            let a = choose|a: int|
                                0 <= a < before.len() && (#[trigger] before[a]).0@ == q;
                            assert(after[a].0@ == q);
                        }
                        assert(after[i as int].0@ == k);
                    }
                    assert forall|q: Seq<char>|
                        map_of(after).dom().contains(q) implies #[trigger] map_of(after)[q]
                        == map_of(before).insert(k, value)[q] by {
                        assert(has_key(after, q));
                        let a = choose|a: int|
                            0 <= a < after.len() && (#[trigger] after[a]).0@ == q;
                        assert(map_of(after)[after[a].0@] == after[a].1);
                        if a != i {
                            assert(before[a] == after[a]);
                            assert(map_of(before)[before[a].0@] == before[a].1);
                            if a < i {
                                assert(before[a].0@ != before[i as int].0@);
                            } else {
                                assert(before[i as int].0@ != before[a].0@);
                            }
                        }
                    }
                    assert(map_of(after) =~= map_of(before).insert(k, value));
                }
            },
            None => {
                pairs.push((key, value));
                proof {
                    let after = pairs@;
                    assert(after.drop_last() =~= before);
                    assert(distinct_keys(after)) by {
                        assert forall|a: int, b: int| 0 <= a < b < after.len() implies (
                        #[trigger] after[a]).0@ != (#[trigger] after[b]).0@ by {
                            assert(after[a] == before[a]);
                            if b < before.len() {
                                assert(after[b] == before[b]);
                            } else {
                                assert(before[a].0@ != key@);
                            }
                        }
                    }
                }
            },
        }
        self.pairs = pairs;
    }
}

impl StrMap<String> {
    /// A copy of the map.
    pub fn copy(&self) -> (r: Self)
        ensures
            r@ == self@,
            r.list() == self.list(),
    {
        proof {
            use_type_invariant(self);
        }
        let mut pairs: Vec<(String, String)> = Vec::new();
        let mut i: usize = 0;
        while i < self.pairs.len()
            invariant
                i <= self.pairs.len(),
                pairs@ == self.pairs@.take(i as int),
            decreases self.pairs.len() - i,
        {
            pairs.push((self.pairs[i].0.clone(), self.pairs[i].1.clone()));
            i += 1;
            assert(pairs@ =~= self.pairs@.take(i as int));
        }
        assert(pairs@ =~= self.pairs@);
        StrMap { pairs }
    }
}

} // verus!

//! A map from text keys, kept in the order of the keys.

use vstd::prelude::*;

use crate::sorting;
use crate::sorting::stands_before;
use crate::text::str_eq;

verus! {

/// The position, from `i` on, of the first key that does not stand before the given
/// one: where the key is, or where it goes.
pub open spec fn at_from<V>(s: Seq<(Seq<char>, V)>, key: Seq<char>, i: int) -> int
    decreases s.len() - i,
{
    if i < 0 || i >= s.len() || !sorting::before(s[i].0, key) {
        i
    } else {
        at_from(s, key, i + 1)
    }
}

/// Where a key is, or where it goes.
pub open spec fn at<V>(s: Seq<(Seq<char>, V)>, key: Seq<char>) -> int {
    at_from(s, key, 0)
}

/// Whether a key is there.
pub open spec fn has_key<V>(s: Seq<(Seq<char>, V)>, key: Seq<char>) -> bool {
    at(s, key) < s.len() && s[at(s, key)].0 == key
}

/// The value of a key.
pub open spec fn get<V>(s: Seq<(Seq<char>, V)>, key: Seq<char>) -> Option<V> {
    if has_key(s, key) {
        Some(s[at(s, key)].1)
    } else {
        None
    }
}

/// With a value for a key.
pub open spec fn put<V>(s: Seq<(Seq<char>, V)>, key: Seq<char>, v: V) -> Seq<(Seq<char>, V)> {
    if has_key(s, key) {
        s.update(at(s, key), (key, v))
    } else {
        s.insert(at(s, key), (key, v))
    }
}

/// Without a key.
pub open spec fn del<V>(s: Seq<(Seq<char>, V)>, key: Seq<char>) -> Seq<(Seq<char>, V)> {
    if has_key(s, key) {
        s.remove(at(s, key))
    } else {
        s
    }
}

/// Whether each key stands before the next.
pub open spec fn ordered<V>(s: Seq<(Seq<char>, V)>) -> bool {
    forall|i: int, j: int|
        0 <= i < j < s.len() ==> sorting::before((#[trigger] s[i]).0, (#[trigger] s[j]).0)
}

pub proof fn lemma_at<V>(s: Seq<(Seq<char>, V)>, key: Seq<char>, i: int)
    requires
        0 <= i <= s.len(),
    ensures
        i <= at_from(s, key, i) <= s.len(),
        forall|j: int| i <= j < at_from(s, key, i) ==> sorting::before((#[trigger] s[j]).0, key),
        at_from(s, key, i) < s.len() ==> !sorting::before(s[at_from(s, key, i)].0, key),
    decreases s.len() - i,
{
    if i < s.len() && sorting::before(s[i].0, key) {
        lemma_at(s, key, i + 1);
    }
}

/// In a list whose keys are in order, a key is found wherever it stands.
pub proof fn keys_are_found<V>(s: Seq<(Seq<char>, V)>, k: int)
    requires
        ordered(s),
        0 <= k < s.len(),
    ensures
        at(s, s[k].0) == k,
        get(s, s[k].0) == Some(s[k].1),
{
    let key = s[k].0;
    lemma_at(s, key, 0);
    let p = at(s, key);
    sorting::nothing_precedes_itself(key);
    if p < k {
        assert(sorting::before(s[p].0, s[k].0));
    } else if p > k {
        assert(sorting::before(s[k].0, key));
    }
}

/// Setting and removing keep the keys in order; a value that was set is found, a key
/// that was removed is not, and other keys are as they were.
pub proof fn writes_are_read_back<V>(
    s: Seq<(Seq<char>, V)>,
    key: Seq<char>,
    v: V,
    other: Seq<char>,
)
    requires
        ordered(s),
        other != key,
    ensures
        ordered(put(s, key, v)),
        get(put(s, key, v), key) == Some(v),
        get(put(s, key, v), other) == get(s, other),
        ordered(del(s, key)),
        get(del(s, key), key) is None,
        get(del(s, key), other) == get(s, other),
{
    lemma_at(s, key, 0);
    lemma_at(s, other, 0);
    let p = at(s, key);
    let a = put(s, key, v);
    let d = del(s, key);
    sorting::nothing_precedes_itself(key);
    assert(ordered(a)) by {
        assert forall|i: int, j: int| 0 <= i < j < a.len() implies sorting::before(
            (#[trigger] a[i]).0,
            (#[trigger] a[j]).0,
        ) by {
            if has_key(s, key) {
                assert(sorting::before(s[i].0, s[j].0));
            } else if j < p {
                assert(sorting::before(s[i].0, s[j].0));
            } else if i > p {
                assert(sorting::before(s[i - 1].0, s[j - 1].0));
            } else if j == p {
                assert(sorting::before(s[i].0, key));
            } else {
                let w = s[j - 1].0;
                if p < j - 1 {
                    assert(sorting::before(s[p].0, s[j - 1].0));
                }
                sorting::order_is_total(key, s[p].0);
                sorting::order_is_transitive(key, s[p].0, w);
                if i < p {
                    assert(sorting::before(s[i].0, s[j - 1].0));
                }
            }
        }
    }
    assert(a[p] == (key, v));
    keys_are_found(a, p);
    assert(ordered(d)) by {
        assert forall|i: int, j: int| 0 <= i < j < d.len() implies sorting::before(
            (#[trigger] d[i]).0,
            (#[trigger] d[j]).0,
        ) by {
            if has_key(s, key) {
                let x = if i < p {
                    i
                } else {
                    i + 1
                };
                let y = if j < p {
                    j
                } else {
                    j + 1
                };
                assert(sorting::before(s[x].0, s[y].0));
            } else {
                assert(sorting::before(s[i].0, s[j].0));
            }
        }
    }
    lemma_at(d, key, 0);
    if has_key(d, key) {
        let q = at(d, key);
        if has_key(s, key) {
            if q < p {
                assert(s[q].0 == key);
                assert(sorting::before(s[q].0, s[p].0));
            } else {
                assert(s[q + 1].0 == key);
                assert(sorting::before(s[p].0, s[q + 1].0));
            }
        }
    }
    // Other keys.
    if has_key(s, other) {
        let o = at(s, other);
        let ao = if has_key(s, key) || o < p {
            o
        } else {
            o + 1
        };
        assert(a[ao] == s[o]);
        keys_are_found(a, ao);
        if has_key(s, key) {
            let dd = if o < p {
                o
            } else {
                o - 1
            };
            assert(d[dd] == s[o]);
            keys_are_found(d, dd);
        }
    } else {
        lemma_at(a, other, 0);
        if has_key(a, other) {
            let q = at(a, other);
            assert(q != p);
            let o = if has_key(s, key) || q < p {
                q
            } else {
                q - 1
            };
            assert(s[o] == a[q]);
            keys_are_found(s, o);
        }
        lemma_at(d, other, 0);
        if has_key(d, other) {
            let q = at(d, other);
            let o = if has_key(s, key) && q >= p {
                q + 1
            } else {
                q
            };
            assert(s[o] == d[q]);
            keys_are_found(s, o);
        }
    }
}

/// A list of keys with the models of their values.
pub open spec fn shown<V: View>(s: Seq<(Seq<char>, V)>) -> Seq<(Seq<char>, V::V)> {
    s.map_values(|p: (Seq<char>, V)| (p.0, p.1@))
}

proof fn lemma_shown_at<V: View>(s: Seq<(Seq<char>, V)>, key: Seq<char>, i: int)
    requires
        0 <= i <= s.len(),
    ensures
        at_from(shown(s), key, i) == at_from(s, key, i),
    decreases s.len() - i,
{
    if i < s.len() {
        assert(shown(s)[i].0 == s[i].0);
        if sorting::before(s[i].0, key) {
            lemma_shown_at(s, key, i + 1);
        }
    }
}

/// Looking up, setting and removing say the same of the values and of their models.
pub proof fn lemma_shown<V: View>(s: Seq<(Seq<char>, V)>, key: Seq<char>, v: V)
    ensures
        has_key(shown(s), key) == has_key(s, key),
        at(shown(s), key) == at(s, key),
        get(s, key) matches Some(x) ==> get(shown(s), key) == Some(x@),
        get(s, key) is None ==> get(shown(s), key) is None,
        shown(put(s, key, v)) == put(shown(s), key, v@),
        shown(del(s, key)) == del(shown(s), key),
{
    lemma_shown_at(s, key, 0);
    lemma_at(s, key, 0);
    if at(s, key) < s.len() {
        assert(shown(s)[at(s, key)] == (s[at(s, key)].0, s[at(s, key)].1@));
    }
    assert(shown(put(s, key, v)) =~= put(shown(s), key, v@));
    assert(shown(del(s, key)) =~= del(shown(s), key));
}

proof fn lemma_at_after_del<V>(s: Seq<(Seq<char>, V)>, key: Seq<char>, i: int)
    requires
        has_key(s, key),
        ordered(s),
        0 <= i <= at(s, key),
    ensures
        at_from(s.remove(at(s, key)), key, i) == at(s, key),
    decreases at(s, key) - i,
{
    lemma_at(s, key, 0);
    let p = at(s, key);
    let d = s.remove(p);
    if i < p {
        assert(d[i] == s[i]);
        lemma_at_after_del(s, key, i + 1);
    } else if p < d.len() {
        assert(d[p] == s[p + 1]);
        assert(sorting::before(s[p].0, s[p + 1].0));
        sorting::order_is_total(key, d[p].0);
        sorting::nothing_precedes_itself(key);
    }
}

/// Removing a key and setting it puts it where it was.
pub proof fn lemma_put_after_del<V>(s: Seq<(Seq<char>, V)>, key: Seq<char>)
    requires
        ordered(s),
    ensures
        forall|v: V|
            #[trigger] put(del(s, key), key, v) == put(s, key, v),
{
    lemma_at(s, key, 0);
    if has_key(s, key) {
        let p = at(s, key);
        let d = del(s, key);
        lemma_at_after_del(s, key, 0);
        lemma_at(d, key, 0);
        assert(!has_key(d, key)) by {
            if p < d.len() {
                assert(d[p] == s[p + 1]);
                assert(sorting::before(s[p].0, s[p + 1].0));
                sorting::nothing_precedes_itself(key);
            }
        }
        assert forall|v: V| #[trigger] put(d, key, v) == put(s, key, v) by {
            assert(d.insert(p, (key, v)) =~= s.update(p, (key, v)));
        }
    }
}

/// The models are in order where the values are.
pub proof fn lemma_shown_ordered<V: View>(s: Seq<(Seq<char>, V)>)
    requires
        ordered(s),
    ensures
        ordered(shown(s)),
{
    let t = shown(s);
    assert forall|i: int, j: int| 0 <= i < j < t.len() implies sorting::before(
        (#[trigger] t[i]).0,
        (#[trigger] t[j]).0,
    ) by {
        assert(sorting::before(s[i].0, s[j].0));
    }
}

/// A map from text to `V`, in the order of the keys.
#[derive(Debug)]
pub struct TextMap<V> {
    pairs: Vec<(String, V)>,
}

/// Pairs with their keys as texts.
pub open spec fn keyed<V>(p: Seq<(String, V)>) -> Seq<(Seq<char>, V)> {
    p.map_values(|q: (String, V)| (q.0@, q.1))
}

impl<V> TextMap<V> {
    #[verifier::type_invariant]
    spec fn in_order(&self) -> bool {
        ordered(keyed(self.pairs@))
    }

    /// The pairs in the order of their keys.
    pub closed spec fn list(&self) -> Seq<(Seq<char>, V)> {
        keyed(self.pairs@)
    }

    pub fn new() -> (r: Self)
        ensures
            r.list() == Seq::<(Seq<char>, V)>::empty(),
    {
        let r = TextMap { pairs: Vec::new() };
        assert(r.list() =~= Seq::empty());
        r
    }

    /// How many keys there are.
    pub fn len(&self) -> (r: usize)
        ensures
            r == self.list().len(),
            ordered(self.list()),
    {
        proof {
            use_type_invariant(self);
        }
        self.pairs.len()
    }

    /// The key at a position.
    pub fn key_at(&self, i: usize) -> (r: &String)
        requires
            i < self.list().len(),
        ensures
            r@ == self.list()[i as int].0,
    {
        &self.pairs[i].0
    }

    /// The value at a position.
    pub fn value_at(&self, i: usize) -> (r: &V)
        requires
            i < self.list().len(),
        ensures
            *r == self.list()[i as int].1,
    {
        &self.pairs[i].1
    }

    /// Puts a value in the place of another, which it hands out.
    pub fn replace_at(&mut self, i: usize, value: V) -> (r: V)
        requires
            i < old(self).list().len(),
        ensures
            r == old(self).list()[i as int].1,
            final(self).list() == old(self).list().update(
                i as int,
                (old(self).list()[i as int].0, value),
            ),
    {
        let ghost before = self.list();
        proof {
            use_type_invariant(&*self);
        }
        let mut pairs: Vec<(String, V)> = Vec::new();
        assert(keyed(pairs@) =~= Seq::<(Seq<char>, V)>::empty());
        core::mem::swap(&mut pairs, &mut self.pairs);
        assert(before[i as int] == (pairs@[i as int].0@, pairs@[i as int].1));
        let gone = pairs.remove(i);
        let ghost key = gone.0@;
        pairs.insert(i, (gone.0, value));
        proof {
            let after = keyed(pairs@);
            assert(after =~= before.update(i as int, (key, value)));
            assert forall|a: int, b: int| 0 <= a < b < after.len() implies sorting::before(
                (#[trigger] after[a]).0,
                (#[trigger] after[b]).0,
            ) by {
                assert(sorting::before(before[a].0, before[b].0));
            }
        }
        self.pairs = pairs;
        gone.1
    }

    /// Removes the value at a position, with its key.
    pub fn remove_at(&mut self, i: usize)
        requires
            i < old(self).list().len(),
        ensures
            final(self).list() == old(self).list().remove(i as int),
    {
        let ghost before = self.list();
        proof {
            use_type_invariant(&*self);
        }
        let mut pairs: Vec<(String, V)> = Vec::new();
        assert(keyed(pairs@) =~= Seq::<(Seq<char>, V)>::empty());
        core::mem::swap(&mut pairs, &mut self.pairs);
        let _ = pairs.remove(i);
        proof {
            let after = keyed(pairs@);
            assert(after =~= before.remove(i as int));
            assert forall|a: int, b: int| 0 <= a < b < after.len() implies sorting::before(
                (#[trigger] after[a]).0,
                (#[trigger] after[b]).0,
            ) by {
                let x = if a < i {
                    a
                } else {
                    a + 1
                };
                let y = if b < i {
                    b
                } else {
                    b + 1
                };
                assert(sorting::before(before[x].0, before[y].0));
            }
        }
        self.pairs = pairs;
    }

    fn place(&self, key: &str) -> (r: usize)
        ensures
            r == at(self.list(), key@),
            r <= self.list().len(),
    {
        let ghost all = self.list();
        let mut i: usize = 0;
        while i < self.pairs.len() && stands_before(self.pairs[i].0.as_str(), key)
            invariant
                i <= self.pairs.len(),
                all == keyed(self.pairs@),
                at(all, key@) == at_from(all, key@, i as int),
            decreases self.pairs.len() - i,
        {
            assert(all[i as int].0 == self.pairs@[i as int].0@);
            i += 1;
        }
        proof {
            if i < self.pairs.len() {
                assert(all[i as int].0 == self.pairs@[i as int].0@);
            }
        }
        i
    }

    /// The value of a key.
    pub fn get(&self, key: &str) -> (r: Option<&V>)
        ensures
            match r {
                Some(v) => get(self.list(), key@) == Some(*v),
                None => get(self.list(), key@) is None,
            },
    {
        let i: usize = self.place(key);
        proof {
            if i < self.pairs.len() {
                assert(self.list()[i as int] == (self.pairs@[i as int].0@, self.pairs@[i as int].1));
            }
        }
        if i < self.pairs.len() && str_eq(self.pairs[i].0.as_str(), key) {
            Some(&self.pairs[i].1)
        } else {
            None
        }
    }

    pub fn contains_key(&self, key: &str) -> (r: bool)
        ensures
            r == has_key(self.list(), key@),
    {
        self.get(key).is_some()
    }

    /// Removes a key and hands out its value.
    pub fn remove(&mut self, key: &str) -> (r: Option<V>)
        ensures
            r == get(old(self).list(), key@),
            final(self).list() == del(old(self).list(), key@),
    {
        let i: usize = self.place(key);
        let ghost before = self.list();
        proof {
            use_type_invariant(&*self);
            if i < self.pairs.len() {
                assert(before[i as int] == (self.pairs@[i as int].0@, self.pairs@[i as int].1));
            }
        }
        if i < self.pairs.len() && str_eq(self.pairs[i].0.as_str(), key) {
            let mut pairs: Vec<(String, V)> = Vec::new();
            assert(keyed(pairs@) =~= Seq::<(Seq<char>, V)>::empty());
            core::mem::swap(&mut pairs, &mut self.pairs);
            let gone = pairs.remove(i);
            proof {
                let after = keyed(pairs@);
                assert(after =~= before.remove(i as int));
                assert forall|a: int, b: int| 0 <= a < b < after.len() implies sorting::before(
                    (#[trigger] after[a]).0,
                    (#[trigger] after[b]).0,
                ) by {
                    let x = if a < i {
                        a
                    } else {
                        a + 1
                    };
                    let y = if b < i {
                        b
                    } else {
                        b + 1
                    };
                    assert(sorting::before(before[x].0, before[y].0));
                }
            }
            self.pairs = pairs;
            Some(gone.1)
        } else {
            None
        }
    }

    /// Sets the value of a key.
    pub fn insert(&mut self, key: String, value: V)
        ensures
            final(self).list() == put(old(self).list(), key@, value),
    {
        let i: usize = self.place(key.as_str());
        let ghost before = self.list();
        let ghost k = key@;
        proof {
            use_type_invariant(&*self);
            if i < self.pairs.len() {
                assert(before[i as int] == (self.pairs@[i as int].0@, self.pairs@[i as int].1));
            }
        }
        let there = i < self.pairs.len() && str_eq(self.pairs[i].0.as_str(), key.as_str());
        let mut pairs: Vec<(String, V)> = Vec::new();
        assert(keyed(pairs@) =~= Seq::<(Seq<char>, V)>::empty());
        core::mem::swap(&mut pairs, &mut self.pairs);
        if there {
            pairs.set(i, (key, value));
            assert(keyed(pairs@) =~= before.update(i as int, (k, value)));
        } else {
            pairs.insert(i, (key, value));
            assert(keyed(pairs@) =~= before.insert(i as int, (k, value)));
        }
        proof {
            let other = k.push('x');
            assert(other.len() != k.len());
            writes_are_read_back(before, k, value, other);
        }
        self.pairs = pairs;
    }
}

} // verus!

//! Texts in the order of their characters.

use vstd::prelude::*;

use crate::text;
use crate::text::chars_of;

verus! {

/// Whether `a` stands before `b`, as far as the characters from position `i` on
/// decide: the first character that differs decides, and a text stands before
/// its continuations.
pub open spec fn before_from(a: Seq<char>, b: Seq<char>, i: int) -> bool
    decreases a.len() - i,
{
    if i < 0 || i >= b.len() {
        false
    } else if i >= a.len() {
        true
    } else if a[i] != b[i] {
        a[i] < b[i]
    } else {
        before_from(a, b, i + 1)
    }
}

/// Whether `a` stands strictly before `b`.
pub open spec fn before(a: Seq<char>, b: Seq<char>) -> bool {
    before_from(a, b, 0)
}

/// Where `x` goes in `s`, looking from position `i` on: in front of the first
/// text that it stands before.
pub open spec fn place_from(s: Seq<Seq<char>>, x: Seq<char>, i: int) -> int
    decreases s.len() - i,
{
    if i < 0 || i >= s.len() {
        s.len() as int
    } else if before(x, s[i]) {
        i
    } else {
        place_from(s, x, i + 1)
    }
}

/// The texts in order.
pub open spec fn sorted(s: Seq<Seq<char>>) -> Seq<Seq<char>>
    decreases s.len(),
{
    if s.len() == 0 {
        s
    } else {
        let rest = sorted(s.drop_last());
        rest.insert(place_from(rest, s.last(), 0), s.last())
    }
}

/// Whether no text stands before one in front of it.
pub open spec fn ordered(s: Seq<Seq<char>>) -> bool {
    forall|i: int, j: int| 0 <= i < j < s.len() ==> !before(#[trigger] s[j], #[trigger] s[i])
}

proof fn lemma_asymmetric(a: Seq<char>, b: Seq<char>, i: int)
    requires
        before_from(a, b, i),
    ensures
        !before_from(b, a, i),
    decreases a.len() - i,
{
    if 0 <= i < a.len() && i < b.len() && a[i] == b[i] {
        lemma_asymmetric(a, b, i + 1);
    }
}

proof fn lemma_transitive(a: Seq<char>, b: Seq<char>, c: Seq<char>, i: int)
    requires
        before_from(a, b, i),
        !before_from(c, b, i),
    ensures
        before_from(a, c, i),
    decreases a.len() - i,
{
    if 0 <= i < a.len() && i < b.len() && i < c.len() && a[i] == b[i] && b[i] == c[i] {
        lemma_transitive(a, b, c, i + 1);
    }
}

proof fn lemma_equal(a: Seq<char>, b: Seq<char>, i: int)
    requires
        0 <= i <= a.len(),
        i <= b.len(),
        forall|j: int| 0 <= j < i ==> a[j] == b[j],
        !before_from(a, b, i),
        !before_from(b, a, i),
    ensures
        a == b,
    decreases a.len() - i,
{
    if i < a.len() && i < b.len() {
        lemma_equal(a, b, i + 1);
    } else {
        assert(a =~= b);
    }
}

/// No text stands before itself.
pub proof fn nothing_precedes_itself(a: Seq<char>)
    ensures
        !before(a, a),
{
    if before(a, a) {
        lemma_asymmetric(a, a, 0);
    }
}

/// Of two different texts exactly one stands before the other.
pub proof fn order_is_total(a: Seq<char>, b: Seq<char>)
    ensures
        a != b ==> (before(a, b) != before(b, a)),
{
    if before(a, b) {
        lemma_asymmetric(a, b, 0);
    } else if !before(b, a) {
        lemma_equal(a, b, 0);
    }
}

/// The order of texts is transitive.
pub proof fn order_is_transitive(a: Seq<char>, b: Seq<char>, c: Seq<char>)
    ensures
        before(a, b) && before(b, c) ==> before(a, c),
        before(a, b) && b == c ==> before(a, c),
{
    if before(a, b) && before(b, c) {
        lemma_asymmetric(b, c, 0);
        lemma_transitive(a, b, c, 0);
    }
}

proof fn lemma_place(s: Seq<Seq<char>>, x: Seq<char>, i: int)
    requires
        0 <= i <= s.len(),
    ensures
        i <= place_from(s, x, i) <= s.len(),
        forall|j: int| i <= j < place_from(s, x, i) ==> !before(x, #[trigger] s[j]),
        place_from(s, x, i) < s.len() ==> before(x, s[place_from(s, x, i)]),
    decreases s.len() - i,
{
    if i < s.len() && !before(x, s[i]) {
        lemma_place(s, x, i + 1);
    }
}

/// Sorting puts the texts in order and neither loses nor adds any.
pub proof fn sorting_orders(s: Seq<Seq<char>>)
    ensures
        ordered(sorted(s)),
        sorted(s).to_multiset() == s.to_multiset(),
        sorted(s).len() == s.len(),
    decreases s.len(),
{
    if s.len() > 0 {
        let rest = sorted(s.drop_last());
        let x = s.last();
        sorting_orders(s.drop_last());
        let k = place_from(rest, x, 0);
        lemma_place(rest, x, 0);
        let all = rest.insert(k, x);
        assert forall|i: int, j: int| 0 <= i < j < all.len() implies !before(
            #[trigger] all[j],
            #[trigger] all[i],
        ) by {
            if j < k {
                assert(all[i] == rest[i] && all[j] == rest[j]);
            } else if j == k {
                assert(all[i] == rest[i]);
            } else if i > k {
                assert(all[i] == rest[i - 1] && all[j] == rest[j - 1]);
            } else if i == k {
                // rest[k] stands behind x, and rest[j - 1] not before rest[k].
                if before(rest[j - 1], x) {
                    if j - 1 == k {
                        lemma_asymmetric(x, rest[k], 0);
                    } else {
                        assert(!before(rest[j - 1], rest[k]));
                        lemma_transitive(x, rest[k], rest[j - 1], 0);
                        lemma_asymmetric(x, rest[j - 1], 0);
                    }
                }
            } else {
                assert(all[i] == rest[i] && all[j] == rest[j - 1]);
                assert(!before(rest[j - 1], rest[i]));
            }
        }
        rest.to_multiset_ensures();
        assert(s =~= s.drop_last().push(x));
        s.drop_last().to_multiset_ensures();
        assert(all.to_multiset() =~= rest.to_multiset().insert(x)) by {
            let front = rest.take(k);
            let back = rest.skip(k);
            front.to_multiset_ensures();
            vstd::seq_lib::lemma_multiset_commutative(front, back);
            vstd::seq_lib::lemma_multiset_commutative(front.push(x), back);
            assert(rest =~= front + back);
            assert(all =~= front.push(x) + back);
        }
        assert(s.to_multiset() =~= s.drop_last().to_multiset().insert(x));
    }
}

/// Texts come out the same whatever the order they were in.
pub proof fn sorting_forgets_the_order(a: Seq<Seq<char>>, b: Seq<Seq<char>>)
    requires
        a.to_multiset() == b.to_multiset(),
    ensures
        sorted(a) == sorted(b),
{
    let leq = |x: Seq<char>, y: Seq<char>| !before(y, x);
    sorting_orders(a);
    sorting_orders(b);
    assert forall|x: Seq<char>| #[trigger] leq(x, x) by {
        nothing_precedes_itself(x);
    }
    assert forall|x: Seq<char>, y: Seq<char>| #[trigger] leq(x, y) && #[trigger] leq(
        y,
        x,
    ) implies x == y by {
        order_is_total(x, y);
    }
    assert forall|x: Seq<char>, y: Seq<char>, z: Seq<char>| #[trigger] leq(x, y) && #[trigger] leq(
        y,
        z,
    ) implies leq(x, z) by {
        if before(z, x) {
            lemma_transitive(z, x, y, 0);
        }
    }
    assert forall|x: Seq<char>, y: Seq<char>| #[trigger] leq(x, y) || #[trigger] leq(y, x) by {
        if before(y, x) {
            lemma_asymmetric(y, x, 0);
        }
    }
    vstd::seq_lib::lemma_sorted_unique(sorted(a), sorted(b), leq);
}

/// Tells whether a text stands strictly before another.
pub fn stands_before(a: &str, b: &str) -> (r: bool)
    ensures
        r == before(a@, b@),
{
    let x = chars_of(a);
    let y = chars_of(b);
    let mut i: usize = 0;
    while i < x.len() && i < y.len() && x[i] == y[i]
        invariant
            i <= x.len(),
            i <= y.len(),
            before_from(x@, y@, 0) == before_from(x@, y@, i as int),
        decreases x.len() - i,
    {
        i += 1;
    }
    if i >= y.len() {
        false
    } else if i >= x.len() {
        true
    } else {
        x[i] < y[i]
    }
}

/// The texts in order.
pub fn sort_strings(v: &Vec<String>) -> (r: Vec<String>)
    ensures
        text::texts(r@) == sorted(text::texts(v@)),
{
    let ghost all = text::texts(v@);
    let mut out: Vec<String> = Vec::new();
    let mut i: usize = 0;
    assert(all.take(0) =~= Seq::empty());
    while i < v.len()
        invariant
            i <= v.len(),
            all == text::texts(v@),
            text::texts(out@) == sorted(all.take(i as int)),
        decreases v.len() - i,
    {
        let ghost rest = text::texts(out@);
        let mut k: usize = 0;
        while k < out.len() && !stands_before(v[i].as_str(), out[k].as_str())
            invariant
                k <= out.len(),
                i < v.len(),
                rest == text::texts(out@),
                place_from(rest, v@[i as int]@, 0) == place_from(rest, v@[i as int]@, k as int),
            decreases out.len() - k,
        {
            k += 1;
        }
        let ghost before_push = out@;
        out.insert(k, v[i].clone());
        proof {
            let next = all.take(i + 1);
            assert(next.drop_last() =~= all.take(i as int));
            assert(next.last() == v@[i as int]@);
            assert(text::texts(out@) =~= rest.insert(k as int, v@[i as int]@));
        }
        i += 1;
    }
    assert(all.take(v@.len() as int) =~= all);
    out
}

/// A text list without a text that equals the one in front of it.
pub open spec fn deduped(s: Seq<Seq<char>>) -> Seq<Seq<char>>
    decreases s.len(),
{
    if s.len() == 0 {
        s
    } else {
        let rest = deduped(s.drop_last());
        if rest.len() > 0 && rest.last() == s.last() {
            rest
        } else {
            rest.push(s.last())
        }
    }
}

/// Drops each text that equals the one in front of it.
pub fn dedup_strings(v: &Vec<String>) -> (r: Vec<String>)
    ensures
        text::texts(r@) == deduped(text::texts(v@)),
{
    let ghost all = text::texts(v@);
    let mut out: Vec<String> = Vec::new();
    let mut i: usize = 0;
    assert(all.take(0) =~= Seq::empty());
    while i < v.len()
        invariant
            i <= v.len(),
            all == text::texts(v@),
            text::texts(out@) == deduped(all.take(i as int)),
        decreases v.len() - i,
    {
        let ghost rest = text::texts(out@);
        proof {
            let next = all.take(i + 1);
            assert(next.drop_last() =~= all.take(i as int));
            assert(next.last() == v@[i as int]@);
        }
        let again = out.len() > 0 && text::str_eq(out[out.len() - 1].as_str(), v[i].as_str());
        assert(again == (rest.len() > 0 && rest.last() == v@[i as int]@));
        if !again {
            out.push(v[i].clone());
            assert(text::texts(out@) =~= rest.push(v@[i as int]@));
        }
        i += 1;
    }
    assert(all.take(v@.len() as int) =~= all);
    out
}

} // verus!

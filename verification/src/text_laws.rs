//! Laws of texts: what is cut off, what is kept, and what is put together again.
use vstd::prelude::*;

use crate::json;
use crate::json::JsonView;
use crate::text;

verus! {

/// Whether a text consists of blanks.
pub open spec fn is_blank(s: Seq<char>) -> bool {
    forall|i: int| 0 <= i < s.len() ==> text::is_space(#[trigger] s[i])
}

proof fn lemma_start(s: Seq<char>) -> (a: Seq<char>)
    ensures
        is_blank(a),
        s == a + text::trim_start(s),
        text::trim_start(s).len() > 0 ==> !text::is_space(text::trim_start(s)[0]),
    decreases s.len(),
{
    if s.len() > 0 && text::is_space(s[0]) {
        let b = lemma_start(s.skip(1));
        let a = seq![s[0]] + b;
        assert(text::trim_start(s) == text::trim_start(s.skip(1)));
        assert(seq![s[0]] + s.skip(1) =~= s);
        assert(a + text::trim_start(s) =~= seq![s[0]] + (b + text::trim_start(s.skip(1))));
        assert forall|i: int| 0 <= i < a.len() implies text::is_space(#[trigger] a[i]) by {
            if i > 0 {
                assert(a[i] == b[i - 1]);
            }
        }
        a
    } else {
        assert(s =~= Seq::<char>::empty() + s);
        Seq::empty()
    }
}

proof fn lemma_end(s: Seq<char>) -> (b: Seq<char>)
    ensures
        is_blank(b),
        s == text::trim_end(s) + b,
        text::trim_end(s).len() > 0 ==> !text::is_space(text::trim_end(s).last()),
        text::trim_end(s).len() > 0 ==> text::trim_end(s)[0] == s[0],
    decreases s.len(),
{
    if s.len() > 0 && text::is_space(s.last()) {
        let c = lemma_end(s.drop_last());
        let b = c.push(s.last());
        assert(text::trim_end(s) == text::trim_end(s.drop_last()));
        assert(s.drop_last().push(s.last()) =~= s);
        assert(text::trim_end(s) + b =~= (text::trim_end(s.drop_last()) + c).push(s.last()));
        b
    } else {
        assert(s =~= s + Seq::<char>::empty());
        Seq::empty()
    }
}

/// Trimming takes off blanks and nothing else: what is left stands between two
/// runs of blanks, and neither begins nor ends with one.
pub proof fn only_blanks_are_cut_off(s: Seq<char>)
    ensures
        exists|a: Seq<char>, b: Seq<char>|
            is_blank(a) && is_blank(b) && s == #[trigger] (a + text::trim(s) + b),
        text::trim(s).len() > 0 ==> !text::is_space(text::trim(s)[0]) && !text::is_space(
            text::trim(s).last(),
        ),
{
    let a = lemma_start(s);
    let t = text::trim_start(s);
    let b = lemma_end(t);
    assert(s =~= a + text::trim(s) + b);
}

/// One of the capital letters of ASCII.
pub open spec fn is_capital(c: char) -> bool {
    65 <= c as u32 && c as u32 <= 90
}

/// Letters are made small and nothing else changes; a text in small letters
/// stays.
pub proof fn only_capitals_change(s: Seq<char>, i: int)
    requires
        0 <= i < s.len(),
    ensures
        text::lower(s).len() == s.len(),
        is_capital(s[i]) ==> text::lower(s)[i] as u32 == s[i] as u32 + 32,
        !is_capital(s[i]) ==> text::lower(s)[i] == s[i],
        text::lower(text::lower(s)) == text::lower(s),
{
    let c = s[i];
    assert(text::lower(s)[i] == text::lower_char(c));
    assert(!is_capital(c) ==> text::lower_char(c) == c);
    if is_capital(c) {
        let n = (c as u32 + 32) as u32;
        assert(97 <= n <= 122);
        assert((n as char) as u32 == n);
    }
    assert forall|k: int| 0 <= k < s.len() implies text::lower(text::lower(s))[k] == text::lower(
        s,
    )[k] by {}
    assert(text::lower(text::lower(s)) =~= text::lower(s));
}

proof fn lemma_join_front(first: Seq<char>, rest: Seq<Seq<char>>, sep: Seq<char>)
    requires
        rest.len() > 0,
    ensures
        text::join(seq![first] + rest, sep) == first + sep + text::join(rest, sep),
    decreases rest.len(),
{
    let all = seq![first] + rest;
    assert(all.last() == rest.last());
    if rest.len() == 1 {
        assert(all.drop_last() =~= seq![first]);
        assert(text::join(seq![first], sep) == first);
        assert(text::join(rest, sep) == rest[0]);
    } else {
        let front = rest.drop_last();
        lemma_join_front(first, front, sep);
        assert(all.drop_last() =~= seq![first] + front);
        assert(text::join(all, sep) =~= first + sep + text::join(rest, sep));
    }
}

proof fn lemma_pieces_join(s: Seq<char>, c: char, from: int)
    requires
        0 <= from <= s.len(),
    ensures
        text::split_from(s, seq![c], from).len() > 0,
        text::join(text::split_from(s, seq![c], from), seq![c]) == s.skip(from),
    decreases s.len() - from,
{
    text::lemma_first_of(s, seq![c], from);
    let i = text::first_of(s, seq![c], from);
    if i < s.len() {
        lemma_pieces_join(s, c, i + 1);
        let rest = text::split_from(s, seq![c], i + 1);
        lemma_join_front(s.subrange(from, i), rest, seq![c]);
        assert(seq![c].contains(s[i]));
        assert(s.subrange(from, i) + seq![c] + s.skip(i + 1) =~= s.skip(from));
    }
}

/// The pieces of a text, with the character that divides them between them
/// again, are the text.
pub proof fn pieces_make_up_the_text(s: Seq<char>, c: char)
    ensures
        text::join(text::split(s, seq![c]), seq![c]) == s,
{
    lemma_pieces_join(s, c, 0);
    assert(s.skip(0) =~= s);
}

proof fn lemma_words_solid(s: Seq<char>, from: int, k: int)
    requires
        0 <= from <= s.len(),
        0 <= k < text::words_from(s, from).len(),
    ensures
        text::words_from(s, from)[k].len() > 0,
        forall|j: int|
            0 <= j < text::words_from(s, from)[k].len() ==> !text::is_space(
                #[trigger] text::words_from(s, from)[k][j],
            ),
    decreases s.len() - from,
{
    let a = text::next_space(s, from, false);
    let b = text::next_space(s, a, true);
    if 0 <= from <= a < b <= s.len() {
        if k == 0 {
            lemma_upto_space(s, a);
            assert(text::words_from(s, from)[0] == s.subrange(a, b));
            assert forall|j: int| 0 <= j < s.subrange(a, b).len() implies !text::is_space(
                #[trigger] s.subrange(a, b)[j],
            ) by {
                assert(!text::is_space(s[a + j]));
            }
        } else {
            lemma_words_solid(s, b, k - 1);
            assert(text::words_from(s, from)[k] == text::words_from(s, b)[k - 1]);
        }
    }
}

proof fn lemma_upto_space(s: Seq<char>, from: int)
    requires
        0 <= from <= s.len(),
    ensures
        forall|j: int| from <= j < text::next_space(s, from, true) ==> !text::is_space(#[trigger] s[j]),
    decreases s.len() - from,
{
    if from < s.len() && !text::is_space(s[from]) {
        lemma_upto_space(s, from + 1);
    }
}

/// A word is not empty and holds no blank.
pub proof fn words_hold_no_blanks(s: Seq<char>, k: int, j: int)
    requires
        0 <= k < text::words(s).len(),
        0 <= j < text::words(s)[k].len(),
    ensures
        text::words(s)[k].len() > 0,
        !text::is_space(text::words(s)[k][j]),
{
    lemma_words_solid(s, 0, k);
    assert(text::words(s)[k] == text::words_from(s, 0)[k]);
}

/// A text that is too long is cut behind as many characters as it may have, and
/// any other stays.
pub proof fn long_texts_are_cut(s: Seq<char>, n: nat)
    ensures
        text::first_chars(s, n).len() <= n,
        s.len() <= n ==> text::first_chars(s, n) == s,
        s.len() > n ==> text::first_chars(s, n).len() == n,
        text::has_prefix(s, text::first_chars(s, n)),
{
    assert(s.take(s.len() as int) =~= s);
}

/// A member of an object is the first one of its name.
pub proof fn first_members_are_found(
    members: Seq<(Seq<char>, JsonView)>,
    key: Seq<char>,
    i: int,
)
    requires
        0 <= i < members.len(),
        members[i].0 == key,
        forall|j: int| 0 <= j < i ==> (#[trigger] members[j]).0 != key,
    ensures
        JsonView::Object(members).get(key) == Some(members[i].1),
{
    lemma_member(members, key, i, 0);
}

proof fn lemma_member(members: Seq<(Seq<char>, JsonView)>, key: Seq<char>, i: int, from: int)
    requires
        0 <= from <= i < members.len(),
        members[i].0 == key,
        forall|j: int| from <= j < i ==> (#[trigger] members[j]).0 != key,
    ensures
        json::member_from(members, key, from) == Some(members[i].1),
    decreases i - from,
{
    if from < i {
        assert(members[from].0 != key);
        lemma_member(members, key, i, from + 1);
    }
}

} // verus!

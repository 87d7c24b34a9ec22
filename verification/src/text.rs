//! Text as sequences of characters: searching, splitting, trimming, replacing.
//!
//! Positions count characters. Every executable function here works on the
//! character slice of a text and is specified by a function of the same shape
//! on `Seq<char>`.

use vstd::prelude::*;
use vstd::slice::slice_subrange;

verus! {

/// `String::push` appends the character to the end of the text and leaves what
/// was there unchanged.
pub assume_specification[ String::push ](s: &mut String, c: char)
    ensures
        final(s)@ == old(s)@.push(c),
;

// ---------------------------------------------------------------------------
// Conversions
// ---------------------------------------------------------------------------

/// The characters of `s`.
pub fn chars_of(s: &str) -> (r: Vec<char>)
    ensures
        r@ == s@,
{
    let mut out: Vec<char> = Vec::new();
    for c in it: s.chars()
        invariant
            out@ == it.seq().take(it.index() as int),
            it.seq() == s@,
    {
        out.push(c);
        assert(out@ == it.seq().take(it.index() as int + 1));
    }
    assert(out@ == s@);
    out
}

/// The text made of the characters `v`.
pub fn string_of(v: &[char]) -> (r: String)
    ensures
        r@ == v@,
{
    let mut out = String::new();
    let mut i: usize = 0;
    while i < v.len()
        invariant
            i <= v.len(),
            out@ == v@.take(i as int),
        decreases v.len() - i,
    {
        out.push(v[i]);
        i += 1;
        assert(out@ == v@.take(i as int));
    }
    assert(out@ == v@);
    out
}

/// Appends the characters of `s`.
pub fn push_str(v: &mut Vec<char>, s: &str)
    ensures
        final(v)@ == old(v)@ + s@,
{
    let cs = chars_of(s);
    push_chars(v, cs.as_slice());
}

/// Appends the characters `s`.
pub fn push_chars(v: &mut Vec<char>, s: &[char])
    ensures
        final(v)@ == old(v)@ + s@,
{
    let mut i: usize = 0;
    while i < s.len()
        invariant
            i <= s.len(),
            v@ == old(v)@ + s@.take(i as int),
        decreases s.len() - i,
    {
        v.push(s[i]);
        i += 1;
        assert(v@ == old(v)@ + s@.take(i as int));
    }
    assert(s@.take(s@.len() as int) == s@);
}

/// A copy of the characters `s`.
pub fn copy_chars(s: &[char]) -> (r: Vec<char>)
    ensures
        r@ == s@,
{
    let mut out: Vec<char> = Vec::new();
    push_chars(&mut out, s);
    assert(out@ == s@);
    out
}

/// `a` followed by `b`.
pub fn cat2(a: &str, b: &str) -> (r: String)
    ensures
        r@ == a@ + b@,
{
    let mut out = chars_of(a);
    push_str(&mut out, b);
    string_of(out.as_slice())
}

/// `a`, `b` and `c` one after the other.
pub fn cat3(a: &str, b: &str, c: &str) -> (r: String)
    ensures
        r@ == a@ + b@ + c@,
{
    let mut out = chars_of(a);
    push_str(&mut out, b);
    push_str(&mut out, c);
    string_of(out.as_slice())
}

// ---------------------------------------------------------------------------
// Comparison
// ---------------------------------------------------------------------------

/// Whether the two texts hold the same characters.
pub fn same(a: &[char], b: &[char]) -> (r: bool)
    ensures
        r == (a@ == b@),
{
    if a.len() != b.len() {
        return false;
    }
    let mut i: usize = 0;
    while i < a.len()
        invariant
            i <= a.len(),
            a.len() == b.len(),
            forall|j: int| 0 <= j < i ==> a@[j] == b@[j],
        decreases a.len() - i,
    {
        if a[i] != b[i] {
            assert(a@[i as int] != b@[i as int]);
            return false;
        }
        i += 1;
    }
    assert(a@ =~= b@);
    true
}

/// Whether the characters `a` are those of `b`.
pub fn is(a: &[char], b: &str) -> (r: bool)
    ensures
        r == (a@ == b@),
{
    let bs = chars_of(b);
    same(a, bs.as_slice())
}

/// Whether two strings are equal.
pub fn str_eq(a: &str, b: &str) -> (r: bool)
    ensures
        r == (a@ == b@),
{
    let x = chars_of(a);
    is(x.as_slice(), b)
}

/// Whether `needle` stands in `s` at position `i`.
pub open spec fn has_at(s: Seq<char>, i: int, needle: Seq<char>) -> bool {
    0 <= i && i + needle.len() <= s.len() && s.subrange(i, i + needle.len()) == needle
}

/// Whether `s` begins with `p`.
pub open spec fn has_prefix(s: Seq<char>, p: Seq<char>) -> bool {
    p.len() <= s.len() && s.take(p.len() as int) == p
}

/// Whether `s` ends with `p`.
pub open spec fn has_suffix(s: Seq<char>, p: Seq<char>) -> bool {
    p.len() <= s.len() && s.skip(s.len() - p.len()) == p
}

pub fn chars_at(s: &[char], i: usize, needle: &[char]) -> (r: bool)
    ensures
        r == has_at(s@, i as int, needle@),
{
    if i > s.len() || needle.len() > s.len() - i {
        return false;
    }
    same(slice_subrange(s, i, i + needle.len()), needle)
}

pub fn starts_with(s: &[char], p: &str) -> (r: bool)
    ensures
        r == has_prefix(s@, p@),
{
    let ps = chars_of(p);
    if ps.len() > s.len() {
        return false;
    }
    assert(s@.subrange(0, ps@.len() as int) == s@.take(ps@.len() as int));
    same(slice_subrange(s, 0, ps.len()), ps.as_slice())
}

pub fn ends_with(s: &[char], p: &str) -> (r: bool)
    ensures
        r == has_suffix(s@, p@),
{
    let ps = chars_of(p);
    if ps.len() > s.len() {
        return false;
    }
    assert(s@.subrange(s@.len() - ps@.len(), s@.len() as int) == s@.skip(s@.len() - ps@.len()));
    same(slice_subrange(s, s.len() - ps.len(), s.len()), ps.as_slice())
}

/// What follows the prefix `p` of `s`, where `s` has that prefix.
pub fn strip_prefix<'a>(s: &'a [char], p: &str) -> (r: Option<&'a [char]>)
    ensures
        r is Some <==> has_prefix(s@, p@),
        r matches Some(rest) ==> rest@ == s@.skip(p@.len() as int),
{
    if starts_with(s, p) {
        let n: usize = chars_of(p).len();
        let rest = slice_subrange(s, n, s.len());
        assert(rest@ == s@.skip(p@.len() as int));
        Some(rest)
    } else {
        None
    }
}

/// What comes before the suffix `p` of `s`, where `s` has that suffix.
pub fn strip_suffix<'a>(s: &'a [char], p: &str) -> (r: Option<&'a [char]>)
    ensures
        r is Some <==> has_suffix(s@, p@),
        r matches Some(rest) ==> rest@ == s@.take(s@.len() - p@.len()),
{
    if ends_with(s, p) {
        let n: usize = chars_of(p).len();
        let rest = slice_subrange(s, 0, s.len() - n);
        assert(rest@ == s@.take(s@.len() - p@.len()));
        Some(rest)
    } else {
        None
    }
}

// ---------------------------------------------------------------------------
// Searching
// ---------------------------------------------------------------------------

/// The first position at or after `from` that holds a character of `set`;
/// `s.len()` where there is none.
pub open spec fn first_of(s: Seq<char>, set: Seq<char>, from: int) -> int
    decreases s.len() - from,
{
    if from >= s.len() || from < 0 {
        s.len() as int
    } else if set.contains(s[from]) {
        from
    } else {
        first_of(s, set, from + 1)
    }
}

/// The last position before `end` that holds a character of `set`; -1 where
/// there is none.
pub open spec fn last_of(s: Seq<char>, set: Seq<char>, end: int) -> int
    decreases end,
{
    if end <= 0 || end > s.len() {
        -1
    } else if set.contains(s[end - 1]) {
        end - 1
    } else {
        last_of(s, set, end - 1)
    }
}

/// The first position at or after `from` at which `needle` stands; -1 where
/// there is none.
pub open spec fn find(s: Seq<char>, needle: Seq<char>, from: int) -> int
    decreases s.len() + 1 - from,
{
    if from < 0 || from + needle.len() > s.len() {
        -1
    } else if has_at(s, from, needle) {
        from
    } else {
        find(s, needle, from + 1)
    }
}

/// Whether `needle` stands anywhere in `s`.
pub open spec fn holds(s: Seq<char>, needle: Seq<char>) -> bool {
    exists|i: int| has_at(s, i, needle)
}

pub proof fn lemma_first_of(s: Seq<char>, set: Seq<char>, from: int)
    requires
        0 <= from <= s.len(),
    ensures
        from <= first_of(s, set, from) <= s.len(),
        first_of(s, set, from) < s.len() ==> set.contains(s[first_of(s, set, from)]),
        forall|j: int| from <= j < first_of(s, set, from) ==> !set.contains(s[j]),
    decreases s.len() - from,
{
    if from < s.len() && !set.contains(s[from]) {
        lemma_first_of(s, set, from + 1);
    }
}

pub proof fn lemma_last_of(s: Seq<char>, set: Seq<char>, end: int)
    requires
        0 <= end <= s.len(),
    ensures
        -1 <= last_of(s, set, end) < end || end == 0,
        last_of(s, set, end) >= -1,
        last_of(s, set, end) < s.len(),
        last_of(s, set, end) >= 0 ==> set.contains(s[last_of(s, set, end)]),
        forall|j: int| last_of(s, set, end) < j < end ==> !set.contains(s[j]),
    decreases end,
{
    if end > 0 && !set.contains(s[end - 1]) {
        lemma_last_of(s, set, end - 1);
    }
}

pub proof fn lemma_find(s: Seq<char>, needle: Seq<char>, from: int)
    requires
        0 <= from,
    ensures
        find(s, needle, from) == -1 || (from <= find(s, needle, from) && has_at(
            s,
            find(s, needle, from),
            needle,
        )),
        find(s, needle, from) == -1 ==> forall|j: int| from <= j ==> !has_at(s, j, needle),
        find(s, needle, from) >= 0 ==> forall|j: int|
            from <= j < find(s, needle, from) ==> !has_at(s, j, needle),
    decreases s.len() + 1 - from,
{
    if from + needle.len() <= s.len() && !has_at(s, from, needle) {
        lemma_find(s, needle, from + 1);
    }
}

pub fn in_set(c: char, set: &[char]) -> (r: bool)
    ensures
        r == set@.contains(c),
{
    let mut i: usize = 0;
    while i < set.len()
        invariant
            i <= set.len(),
            forall|j: int| 0 <= j < i ==> set@[j] != c,
        decreases set.len() - i,
    {
        if set[i] == c {
            assert(set@[i as int] == c);
            return true;
        }
        i += 1;
    }
    false
}

pub fn first_of_from(s: &[char], set: &str, from: usize) -> (r: usize)
    requires
        from <= s.len(),
    ensures
        r == first_of(s@, set@, from as int),
        from <= r <= s.len(),
{
    let cs = chars_of(set);
    let mut i: usize = from;
    while i < s.len()
        invariant
            from <= i <= s.len(),
            cs@ == set@,
            first_of(s@, set@, from as int) == first_of(s@, set@, i as int),
        decreases s.len() - i,
    {
        if in_set(s[i], cs.as_slice()) {
            return i;
        }
        i += 1;
    }
    i
}

/// One past the last position that holds a character of `set`, or 0.
pub fn after_last_of(s: &[char], set: &str) -> (r: usize)
    ensures
        r == last_of(s@, set@, s@.len() as int) + 1,
        r <= s.len(),
{
    let cs = chars_of(set);
    let mut i: usize = s.len();
    while i > 0
        invariant
            i <= s.len(),
            cs@ == set@,
            last_of(s@, set@, s@.len() as int) == last_of(s@, set@, i as int),
        decreases i,
    {
        if in_set(s[i - 1], cs.as_slice()) {
            return i;
        }
        i -= 1;
    }
    i
}

pub fn find_from(s: &[char], needle: &[char], from: usize) -> (r: Option<usize>)
    ensures
        match r {
            Some(i) => i == find(s@, needle@, from as int) && i + needle.len() <= s.len(),
            None => find(s@, needle@, from as int) == -1,
        },
{
    let mut i: usize = from;
    while i <= s.len() && needle.len() <= s.len() - i
        invariant
            from <= i,
            find(s@, needle@, from as int) == find(s@, needle@, i as int),
        decreases s.len() - i,
    {
        if chars_at(s, i, needle) {
            return Some(i);
        }
        if i == s.len() {
            assert(s@.subrange(i as int, i as int) =~= needle@);
            return None;
        }
        i += 1;
    }
    None
}

pub fn find_str(s: &[char], needle: &str) -> (r: Option<usize>)
    ensures
        match r {
            Some(i) => i == find(s@, needle@, 0) && i + needle@.len() <= s.len(),
            None => find(s@, needle@, 0) == -1,
        },
{
    let n = chars_of(needle);
    find_from(s, n.as_slice(), 0)
}

pub fn contains(s: &[char], needle: &str) -> (r: bool)
    ensures
        r == holds(s@, needle@),
{
    proof {
        lemma_find(s@, needle@, 0);
    }
    match find_str(s, needle) {
        Some(i) => {
            assert(has_at(s@, i as int, needle@));
            true
        },
        None => false,
    }
}

// ---------------------------------------------------------------------------
// Cutting
// ---------------------------------------------------------------------------

/// What stands before the first character of `set`; the whole text where there
/// is none.
pub open spec fn before_first(s: Seq<char>, set: Seq<char>) -> Seq<char> {
    s.take(first_of(s, set, 0))
}

/// What stands after the last character of `set`; the whole text where there is
/// none.
pub open spec fn after_last(s: Seq<char>, set: Seq<char>) -> Seq<char> {
    s.skip(last_of(s, set, s.len() as int) + 1)
}

pub fn cut_before_first<'a>(s: &'a [char], set: &str) -> (r: &'a [char])
    ensures
        r@ == before_first(s@, set@),
{
    let i: usize = first_of_from(s, set, 0);
    let r = slice_subrange(s, 0, i);
    assert(r@ == s@.take(i as int));
    r
}

pub fn cut_after_last<'a>(s: &'a [char], set: &str) -> (r: &'a [char])
    ensures
        r@ == after_last(s@, set@),
{
    let i: usize = after_last_of(s, set);
    let r = slice_subrange(s, i, s.len());
    assert(r@ == s@.skip(i as int));
    r
}

/// The text before and after the first character of `set`, where there is one.
pub open spec fn split_once(s: Seq<char>, set: Seq<char>) -> Option<(Seq<char>, Seq<char>)> {
    let i = first_of(s, set, 0);
    if i < s.len() {
        Some((s.take(i), s.skip(i + 1)))
    } else {
        None
    }
}

pub fn split_at_first<'a>(s: &'a [char], set: &str) -> (r: Option<(&'a [char], &'a [char])>)
    ensures
        match r {
            Some(p) => split_once(s@, set@) == Some((p.0@, p.1@)),
            None => split_once(s@, set@) is None,
        },
{
    let i: usize = first_of_from(s, set, 0);
    if i < s.len() {
        let a = slice_subrange(s, 0, i);
        let b = slice_subrange(s, i + 1, s.len());
        assert(a@ == s@.take(i as int));
        assert(b@ == s@.skip(i + 1));
        Some((a, b))
    } else {
        None
    }
}

/// The pieces of `s` from position `from` on, cut at every character of `set`.
pub open spec fn split_from(s: Seq<char>, set: Seq<char>, from: int) -> Seq<Seq<char>>
    decreases s.len() - from,
{
    if from < 0 || from > s.len() {
        Seq::empty()
    } else {
        let i = first_of(s, set, from);
        if from <= i < s.len() {
            seq![s.subrange(from, i)] + split_from(s, set, i + 1)
        } else {
            seq![s.skip(from)]
        }
    }
}

/// The pieces of `s` cut at every character of `set`: one more than there are
/// such characters.
pub open spec fn split(s: Seq<char>, set: Seq<char>) -> Seq<Seq<char>> {
    split_from(s, set, 0)
}

/// The views of a list of character vectors.
pub open spec fn views(v: Seq<Vec<char>>) -> Seq<Seq<char>> {
    v.map_values(|x: Vec<char>| x@)
}

/// The texts of a list of strings.
pub open spec fn texts(v: Seq<String>) -> Seq<Seq<char>> {
    v.map_values(|x: String| x@)
}

pub fn split_all(s: &[char], set: &str) -> (r: Vec<Vec<char>>)
    ensures
        views(r@) == split(s@, set@),
        r.len() >= 1,
{
    let mut out: Vec<Vec<char>> = Vec::new();
    let mut from: usize = 0;
    let mut i: usize = first_of_from(s, set, 0);
    assert(views(out@) + split_from(s@, set@, 0) =~= split(s@, set@));
    while i < s.len()
        invariant
            from <= i <= s.len(),
            i == first_of(s@, set@, from as int),
            views(out@) + split_from(s@, set@, from as int) == split(s@, set@),
        decreases s.len() - i,
    {
        let piece = copy_chars(slice_subrange(s, from, i));
        let ghost before = out@;
        out.push(piece);
        assert(views(out@) =~= views(before).push(s@.subrange(from as int, i as int)));
        assert(views(out@) + split_from(s@, set@, i + 1) =~= views(before) + split_from(
            s@,
            set@,
            from as int,
        ));
        from = i + 1;
        i = first_of_from(s, set, from);
    }
    let piece = copy_chars(slice_subrange(s, from, s.len()));
    let ghost before = out@;
    out.push(piece);
    assert(s@.subrange(from as int, s@.len() as int) == s@.skip(from as int));
    assert(views(out@) =~= views(before) + split_from(s@, set@, from as int));
    out
}

/// Whether a text has no character of `set`.
pub open spec fn free_of(s: Seq<char>, set: Seq<char>) -> bool {
    forall|i: int| 0 <= i < s.len() ==> !set.contains(#[trigger] s[i])
}

/// The first character of `set` behind a text without any stands where that ends.
pub proof fn lemma_first_behind(a: Seq<char>, b: Seq<char>, set: Seq<char>)
    requires
        free_of(a, set),
        b.len() > 0 ==> set.contains(b[0]),
    ensures
        first_of(a + b, set, 0) == a.len(),
{
    let s = a + b;
    lemma_first_of(s, set, 0);
    let i = first_of(s, set, 0);
    if i < a.len() {
        assert(s[i] == a[i]);
    } else if a.len() < s.len() && i > a.len() {
        assert(s[a.len() as int] == b[0]);
    }
}

proof fn lemma_split_push_from(s: Seq<char>, c: char, p: Seq<char>, set: Seq<char>, from: int)
    requires
        0 <= from <= s.len(),
        set.contains(c),
        free_of(p, set),
    ensures
        split_from(s.push(c) + p, set, from) == split_from(s, set, from).push(p),
    decreases s.len() - from,
{
    let t = s.push(c) + p;
    lemma_first_of(s, set, from);
    lemma_first_of(t, set, from);
    let i = first_of(s, set, from);
    let j = first_of(t, set, from);
    assert(t[s.len() as int] == c);
    assert forall|k: int| 0 <= k < s.len() implies t[k] == s[k] by {}
    if i < s.len() {
        assert(t[i] == s[i]);
        if j < i {
            assert(s[j] == t[j]);
        }
        assert(i == j);
        lemma_split_push_from(s, c, p, set, i + 1);
        assert(t.subrange(from, i) =~= s.subrange(from, i));
        assert(split_from(t, set, from) =~= seq![s.subrange(from, i)] + split_from(s, set, i + 1).push(
            p,
        ));
    } else {
        if j < s.len() {
            assert(s[j] == t[j]);
        }
        assert(j == s.len());
        let k = s.len() + 1;
        lemma_first_of(t, set, k as int);
        let l = first_of(t, set, k as int);
        if l < t.len() {
            assert(t[l] == p[l - k]);
        }
        assert(t.skip(k as int) =~= p);
        assert(t.subrange(from, s.len() as int) =~= s.skip(from));
        assert(split_from(t, set, k as int) =~= seq![p]);
        assert(split_from(t, set, from) =~= seq![s.skip(from)] + seq![p]);
        assert(split_from(s, set, from) =~= seq![s.skip(from)]);
    }
}

/// A separator and a piece behind a text make one more piece of it.
pub proof fn lemma_split_push(s: Seq<char>, c: char, p: Seq<char>, set: Seq<char>)
    requires
        set.contains(c),
        free_of(p, set),
    ensures
        split(s.push(c) + p, set) == split(s, set).push(p),
{
    lemma_split_push_from(s, c, p, set, 0);
}

/// A text without separators is one piece.
pub proof fn lemma_split_one(p: Seq<char>, set: Seq<char>)
    requires
        free_of(p, set),
    ensures
        split(p, set) == seq![p],
{
    lemma_first_of(p, set, 0);
    assert(p.skip(0) =~= p);
}

proof fn lemma_pieces_from(s: Seq<char>, set: Seq<char>, from: int, k: int, j: int)
    requires
        0 <= from <= s.len(),
        0 <= k < split_from(s, set, from).len(),
        0 <= j < split_from(s, set, from)[k].len(),
    ensures
        !set.contains(split_from(s, set, from)[k][j]),
        s.contains(split_from(s, set, from)[k][j]),
    decreases s.len() - from,
{
    lemma_first_of(s, set, from);
    let i = first_of(s, set, from);
    if i < s.len() {
        if k == 0 {
            assert(split_from(s, set, from)[0] == s.subrange(from, i));
            assert(split_from(s, set, from)[0][j] == s[from + j]);
        } else {
            assert(split_from(s, set, from)[k] == split_from(s, set, i + 1)[k - 1]);
            lemma_pieces_from(s, set, i + 1, k - 1, j);
        }
    } else {
        assert(split_from(s, set, from)[0][j] == s[from + j]);
    }
}

/// The pieces of a text have no separators, and only characters of the text.
pub proof fn lemma_pieces(s: Seq<char>, set: Seq<char>)
    ensures
        forall|k: int| 0 <= k < split(s, set).len() ==> free_of(#[trigger] split(s, set)[k], set),
        forall|k: int, j: int|
            0 <= k < split(s, set).len() && 0 <= j < split(s, set)[k].len() ==> s.contains(
                #[trigger] split(s, set)[k][j],
            ),
{
    assert forall|k: int, j: int|
        0 <= k < split(s, set).len() && 0 <= j < split(s, set)[k].len() implies s.contains(
        #[trigger] split(s, set)[k][j],
    ) && !set.contains(split(s, set)[k][j]) by {
        lemma_pieces_from(s, set, 0, k, j);
    }
}

/// The pieces that are not empty.
pub open spec fn filled(s: Seq<Seq<char>>) -> Seq<Seq<char>>
    decreases s.len(),
{
    if s.len() == 0 {
        s
    } else if s.last().len() == 0 {
        filled(s.drop_last())
    } else {
        filled(s.drop_last()).push(s.last())
    }
}

/// Cuts a text at every character of `set` and leaves empty pieces out.
pub fn split_filled(s: &[char], set: &str) -> (r: Vec<Vec<char>>)
    ensures
        views(r@) == filled(split(s@, set@)),
{
    let pieces = split_all(s, set);
    let ghost all = views(pieces@);
    let mut out: Vec<Vec<char>> = Vec::new();
    let mut i: usize = 0;
    assert(all.take(0) =~= Seq::empty());
    assert(views(out@) =~= Seq::empty());
    while i < pieces.len()
        invariant
            i <= pieces.len(),
            all == views(pieces@),
            views(out@) == filled(all.take(i as int)),
        decreases pieces.len() - i,
    {
        let ghost before = views(out@);
        proof {
            let next = all.take(i + 1);
            assert(next.drop_last() =~= all.take(i as int));
            assert(next.last() == pieces@[i as int]@);
        }
        if pieces[i].len() > 0 {
            let piece = copy_chars(pieces[i].as_slice());
            let ghost shown = piece@;
            out.push(piece);
            assert(views(out@) =~= before.push(shown));
        }
        i += 1;
    }
    assert(all.take(all.len() as int) =~= all);
    out
}

/// What stands between the first `sep` and the next one, or the end; nothing where
/// there is no `sep`.
pub open spec fn second_piece(s: Seq<char>, sep: Seq<char>) -> Option<Seq<char>> {
    let i = find(s, sep, 0);
    if i < 0 {
        None
    } else {
        let rest = s.skip(i + sep.len());
        let j = find(rest, sep, 0);
        Some(
            if j < 0 {
                rest
            } else {
                rest.take(j)
            },
        )
    }
}

pub fn second_piece_of<'a>(s: &'a [char], sep: &str) -> (r: Option<&'a [char]>)
    ensures
        match r {
            Some(p) => second_piece(s@, sep@) == Some(p@),
            None => second_piece(s@, sep@) is None,
        },
{
    let n: usize = chars_of(sep).len();
    match find_str(s, sep) {
        None => None,
        Some(i) => {
            let rest = slice_subrange(s, i + n, s.len());
            assert(rest@ =~= s@.skip(i + n));
            match find_str(rest, sep) {
                None => Some(rest),
                Some(j) => {
                    let p = slice_subrange(rest, 0, j);
                    assert(p@ =~= rest@.take(j as int));
                    Some(p)
                },
            }
        },
    }
}

// ---------------------------------------------------------------------------
// Character classes
// ---------------------------------------------------------------------------

/// Unicode white space: the characters that `char::is_whitespace` accepts.
pub open spec fn is_space(c: char) -> bool {
    let n = c as u32;
    ||| 9 <= n <= 13
    ||| n == 0x20
    ||| n == 0x85
    ||| n == 0xA0
    ||| n == 0x1680
    ||| 0x2000 <= n <= 0x200A
    ||| n == 0x2028
    ||| n == 0x2029
    ||| n == 0x202F
    ||| n == 0x205F
    ||| n == 0x3000
}

/// Unicode control characters (general category Cc).
pub open spec fn is_control(c: char) -> bool {
    let n = c as u32;
    n <= 0x1F || 0x7F <= n <= 0x9F
}

pub open spec fn is_digit(c: char) -> bool {
    0x30 <= c as u32 <= 0x39
}

pub open spec fn is_ascii_alnum(c: char) -> bool {
    let n = c as u32;
    is_digit(c) || 0x41 <= n <= 0x5A || 0x61 <= n <= 0x7A
}

/// The lower-case form of an ASCII letter; any other character unchanged.
pub open spec fn lower_char(c: char) -> char {
    if 0x41 <= c as u32 <= 0x5A {
        ((c as u32 + 32) as u32) as char
    } else {
        c
    }
}

/// The text with its ASCII letters in lower case.
pub open spec fn lower(s: Seq<char>) -> Seq<char> {
    s.map_values(|c: char| lower_char(c))
}

pub fn space(c: char) -> (r: bool)
    ensures
        r == is_space(c),
{
    let n: u32 = c as u32;
    (9 <= n && n <= 13) || n == 0x20 || n == 0x85 || n == 0xA0 || n == 0x1680 || (0x2000 <= n && n
        <= 0x200A) || n == 0x2028 || n == 0x2029 || n == 0x202F || n == 0x205F || n == 0x3000
}

pub fn control(c: char) -> (r: bool)
    ensures
        r == is_control(c),
{
    let n: u32 = c as u32;
    n <= 0x1F || (0x7F <= n && n <= 0x9F)
}

pub fn digit(c: char) -> (r: bool)
    ensures
        r == is_digit(c),
{
    let n: u32 = c as u32;
    0x30 <= n && n <= 0x39
}

pub fn ascii_alnum(c: char) -> (r: bool)
    ensures
        r == is_ascii_alnum(c),
{
    let n: u32 = c as u32;
    digit(c) || (0x41 <= n && n <= 0x5A) || (0x61 <= n && n <= 0x7A)
}

pub fn to_lower_char(c: char) -> (r: char)
    ensures
        r == lower_char(c),
{
    let n: u32 = c as u32;
    if 0x41 <= n && n <= 0x5A {
        ((n + 32) as u8) as char
    } else {
        c
    }
}

pub fn to_lower(s: &[char]) -> (r: Vec<char>)
    ensures
        r@ == lower(s@),
{
    let mut out: Vec<char> = Vec::new();
    let mut i: usize = 0;
    while i < s.len()
        invariant
            i <= s.len(),
            out@ == lower(s@.take(i as int)),
        decreases s.len() - i,
    {
        out.push(to_lower_char(s[i]));
        i += 1;
        assert(out@ =~= lower(s@.take(i as int)));
    }
    assert(s@.take(s@.len() as int) == s@);
    out
}

/// Whether the two texts agree up to the case of ASCII letters.
pub fn same_ignoring_case(a: &[char], b: &str) -> (r: bool)
    ensures
        r == (lower(a@) == lower(b@)),
{
    let x = to_lower(a);
    let bs = chars_of(b);
    let y = to_lower(bs.as_slice());
    same(x.as_slice(), y.as_slice())
}

// ---------------------------------------------------------------------------
// Trimming
// ---------------------------------------------------------------------------

/// The text without its leading white space.
pub open spec fn trim_start(s: Seq<char>) -> Seq<char>
    decreases s.len(),
{
    if s.len() > 0 && is_space(s[0]) {
        trim_start(s.skip(1))
    } else {
        s
    }
}

/// The text without its trailing white space.
pub open spec fn trim_end(s: Seq<char>) -> Seq<char>
    decreases s.len(),
{
    if s.len() > 0 && is_space(s.last()) {
        trim_end(s.drop_last())
    } else {
        s
    }
}

/// The text without white space at either end.
pub open spec fn trim(s: Seq<char>) -> Seq<char> {
    trim_end(trim_start(s))
}

/// The text without leading characters of `set`.
pub open spec fn trim_start_set(s: Seq<char>, set: Seq<char>) -> Seq<char>
    decreases s.len(),
{
    if s.len() > 0 && set.contains(s[0]) {
        trim_start_set(s.skip(1), set)
    } else {
        s
    }
}

/// The text without trailing characters of `set`.
pub open spec fn trim_end_set(s: Seq<char>, set: Seq<char>) -> Seq<char>
    decreases s.len(),
{
    if s.len() > 0 && set.contains(s.last()) {
        trim_end_set(s.drop_last(), set)
    } else {
        s
    }
}

/// The text without characters of `set` at either end.
pub open spec fn trim_set(s: Seq<char>, set: Seq<char>) -> Seq<char> {
    trim_end_set(trim_start_set(s, set), set)
}

pub fn trimmed<'a>(s: &'a [char]) -> (r: &'a [char])
    ensures
        r@ == trim(s@),
{
    let mut a: usize = 0;
    assert(s@.skip(0) == s@);
    while a < s.len() && space(s[a])
        invariant
            a <= s.len(),
            trim_start(s@) == trim_start(s@.skip(a as int)),
        decreases s.len() - a,
    {
        assert(s@.skip(a as int).skip(1) =~= s@.skip(a + 1));
        a += 1;
    }
    assert(trim_start(s@) == s@.skip(a as int));
    let mut b: usize = s.len();
    assert(s@.subrange(a as int, b as int) =~= s@.skip(a as int));
    while b > a && space(s[b - 1])
        invariant
            a <= b <= s.len(),
            trim_end(s@.skip(a as int)) == trim_end(s@.subrange(a as int, b as int)),
        decreases b - a,
    {
        assert(s@.subrange(a as int, b as int).drop_last() =~= s@.subrange(a as int, b - 1));
        b -= 1;
    }
    slice_subrange(s, a, b)
}

pub fn trimmed_start_set<'a>(s: &'a [char], set: &str) -> (r: &'a [char])
    ensures
        r@ == trim_start_set(s@, set@),
{
    let cs = chars_of(set);
    let mut a: usize = 0;
    assert(s@.skip(0) == s@);
    while a < s.len() && in_set(s[a], cs.as_slice())
        invariant
            a <= s.len(),
            cs@ == set@,
            trim_start_set(s@, set@) == trim_start_set(s@.skip(a as int), set@),
        decreases s.len() - a,
    {
        assert(s@.skip(a as int).skip(1) =~= s@.skip(a + 1));
        a += 1;
    }
    let r = slice_subrange(s, a, s.len());
    assert(r@ == s@.skip(a as int));
    r
}

pub fn trimmed_set<'a>(s: &'a [char], set: &str) -> (r: &'a [char])
    ensures
        r@ == trim_set(s@, set@),
{
    let cs = chars_of(set);
    let t = trimmed_start_set(s, set);
    let mut b: usize = t.len();
    assert(t@.take(b as int) =~= t@);
    while b > 0 && in_set(t[b - 1], cs.as_slice())
        invariant
            b <= t.len(),
            cs@ == set@,
            trim_end_set(t@, set@) == trim_end_set(t@.take(b as int), set@),
        decreases b,
    {
        assert(t@.take(b as int).drop_last() =~= t@.take(b - 1));
        b -= 1;
    }
    let r = slice_subrange(t, 0, b);
    assert(r@ == t@.take(b as int));
    r
}

// ---------------------------------------------------------------------------
// Words and joining
// ---------------------------------------------------------------------------

/// The first position at or after `from` whose character is white space (`want`)
/// or is not (`!want`); `s.len()` where there is none.
pub open spec fn next_space(s: Seq<char>, from: int, want: bool) -> int
    decreases s.len() - from,
{
    if from < 0 || from >= s.len() {
        s.len() as int
    } else if is_space(s[from]) == want {
        from
    } else {
        next_space(s, from + 1, want)
    }
}

pub proof fn lemma_next_space(s: Seq<char>, from: int, want: bool)
    requires
        0 <= from <= s.len(),
    ensures
        from <= next_space(s, from, want) <= s.len(),
        next_space(s, from, want) < s.len() ==> is_space(s[next_space(s, from, want)]) == want,
    decreases s.len() - from,
{
    if from < s.len() && is_space(s[from]) != want {
        lemma_next_space(s, from + 1, want);
    }
}

/// The maximal runs of characters that are not white space, from `from` on.
pub open spec fn words_from(s: Seq<char>, from: int) -> Seq<Seq<char>>
    decreases s.len() - from,
{
    let a = next_space(s, from, false);
    let b = next_space(s, a, true);
    if 0 <= from <= a < b <= s.len() {
        seq![s.subrange(a, b)] + words_from(s, b)
    } else {
        Seq::empty()
    }
}

/// The maximal runs of characters that are not white space.
pub open spec fn words(s: Seq<char>) -> Seq<Seq<char>> {
    words_from(s, 0)
}

/// The texts one after the other with `sep` between neighbours.
pub open spec fn join(parts: Seq<Seq<char>>, sep: Seq<char>) -> Seq<char>
    decreases parts.len(),
{
    if parts.len() == 0 {
        Seq::empty()
    } else if parts.len() == 1 {
        parts[0]
    } else {
        join(parts.drop_last(), sep) + sep + parts.last()
    }
}

fn next_space_from(s: &[char], from: usize, want: bool) -> (r: usize)
    requires
        from <= s.len(),
    ensures
        r == next_space(s@, from as int, want),
        from <= r <= s.len(),
{
    let mut i: usize = from;
    while i < s.len()
        invariant
            from <= i <= s.len(),
            next_space(s@, from as int, want) == next_space(s@, i as int, want),
        decreases s.len() - i,
    {
        if space(s[i]) == want {
            return i;
        }
        i += 1;
    }
    i
}

pub fn split_words(s: &[char]) -> (r: Vec<Vec<char>>)
    ensures
        views(r@) == words(s@),
{
    let mut out: Vec<Vec<char>> = Vec::new();
    let mut from: usize = 0;
    assert(views(out@) + words_from(s@, 0) =~= words(s@));
    loop
        invariant
            from <= s.len(),
            views(out@) + words_from(s@, from as int) == words(s@),
        decreases s.len() - from,
    {
        let a: usize = next_space_from(s, from, false);
        let b: usize = next_space_from(s, a, true);
        if a >= b {
            assert(views(out@) + words_from(s@, from as int) =~= views(out@));
            return out;
        }
        let ghost before = out@;
        out.push(copy_chars(slice_subrange(s, a, b)));
        assert(views(out@) =~= views(before).push(s@.subrange(a as int, b as int)));
        assert(views(out@) + words_from(s@, b as int) =~= views(before) + words_from(
            s@,
            from as int,
        ));
        from = b;
    }
}

pub fn join_chars(parts: &Vec<Vec<char>>, sep: &str) -> (r: Vec<char>)
    ensures
        r@ == join(views(parts@), sep@),
{
    let mut out: Vec<char> = Vec::new();
    let mut i: usize = 0;
    assert(views(parts@).take(0) =~= Seq::empty());
    while i < parts.len()
        invariant
            i <= parts.len(),
            out@ == join(views(parts@).take(i as int), sep@),
        decreases parts.len() - i,
    {
        if i > 0 {
            push_str(&mut out, sep);
        }
        push_chars(&mut out, parts[i].as_slice());
        proof {
            let next = views(parts@).take(i + 1);
            assert(next.drop_last() =~= views(parts@).take(i as int));
            assert(next.last() == parts@[i as int]@);
            if i == 0 {
                assert(out@ =~= join(next, sep@));
            }
        }
        i += 1;
    }
    assert(views(parts@).take(parts@.len() as int) =~= views(parts@));
    out
}

pub fn join_strings(parts: &Vec<String>, sep: &str) -> (r: String)
    ensures
        r@ == join(texts(parts@), sep@),
{
    let mut out: Vec<char> = Vec::new();
    let mut i: usize = 0;
    assert(texts(parts@).take(0) =~= Seq::empty());
    while i < parts.len()
        invariant
            i <= parts.len(),
            out@ == join(texts(parts@).take(i as int), sep@),
        decreases parts.len() - i,
    {
        if i > 0 {
            push_str(&mut out, sep);
        }
        push_str(&mut out, parts[i].as_str());
        proof {
            let next = texts(parts@).take(i + 1);
            assert(next.drop_last() =~= texts(parts@).take(i as int));
            assert(next.last() == parts@[i as int]@);
            if i == 0 {
                assert(out@ =~= join(next, sep@));
            }
        }
        i += 1;
    }
    assert(texts(parts@).take(parts@.len() as int) =~= texts(parts@));
    string_of(out.as_slice())
}

// ---------------------------------------------------------------------------
// Replacing
// ---------------------------------------------------------------------------

/// `s` from position `from` on with every occurrence of `what`, taken from left
/// to right without overlap, replaced by `by`.
pub open spec fn replace_from(
    s: Seq<char>,
    what: Seq<char>,
    by: Seq<char>,
    from: int,
) -> Seq<char>
    decreases s.len() - from,
{
    if from < 0 || from > s.len() || what.len() == 0 {
        Seq::empty()
    } else {
        let i = find(s, what, from);
        if i >= from && i + what.len() <= s.len() {
            s.subrange(from, i) + by + replace_from(s, what, by, i + what.len())
        } else {
            s.skip(from)
        }
    }
}

/// `s` with every occurrence of the non-empty text `what` replaced by `by`.
pub open spec fn replace(s: Seq<char>, what: Seq<char>, by: Seq<char>) -> Seq<char> {
    replace_from(s, what, by, 0)
}

pub fn replaced(s: &[char], what: &str, by: &str) -> (r: Vec<char>)
    requires
        what@.len() > 0,
    ensures
        r@ == replace(s@, what@, by@),
{
    let w = chars_of(what);
    let mut out: Vec<char> = Vec::new();
    let mut from: usize = 0;
    assert(out@ + replace_from(s@, what@, by@, 0) =~= replace(s@, what@, by@));
    loop
        invariant
            from <= s.len(),
            w@ == what@,
            what@.len() > 0,
            out@ + replace_from(s@, what@, by@, from as int) == replace(s@, what@, by@),
        decreases s.len() - from,
    {
        proof {
            lemma_find(s@, what@, from as int);
        }
        match find_from(s, w.as_slice(), from) {
            Some(i) => {
                let ghost before = out@;
                push_chars(&mut out, slice_subrange(s, from, i));
                push_str(&mut out, by);
                assert(out@ + replace_from(s@, what@, by@, i + what@.len()) =~= before
                    + replace_from(s@, what@, by@, from as int));
                from = i + w.len();
            },
            None => {
                push_chars(&mut out, slice_subrange(s, from, s.len()));
                assert(s@.subrange(from as int, s@.len() as int) == s@.skip(from as int));
                return out;
            },
        }
    }
}

/// The text of an optional string.
pub open spec fn opt(o: Option<String>) -> Option<Seq<char>> {
    match o {
        Some(s) => Some(s@),
        None => None,
    }
}

/// The text of an optional borrowed string.
pub open spec fn opt_str(o: Option<&str>) -> Option<Seq<char>> {
    match o {
        Some(s) => Some(s@),
        None => None,
    }
}

/// The text of an optional string.
pub fn borrowed<'a>(o: &'a Option<String>) -> (r: Option<&'a str>)
    ensures
        opt_str(r) == opt(*o),
{
    match o {
        Some(s) => Some(s.as_str()),
        None => None,
    }
}

/// A copy of an optional string.
pub fn copy_opt(o: &Option<String>) -> (r: Option<String>)
    ensures
        r == *o,
{
    match o {
        Some(s) => Some(s.clone()),
        None => None,
    }
}

/// What `str::to_lowercase` makes of a text.
pub uninterp spec fn unicode_lower(s: Seq<char>) -> Seq<char>;

/// `str::to_lowercase`: the Unicode lower-case form of a text, a function of the
/// text alone. On ASCII text it changes the letters `A` to `Z` only.
#[verifier::external_body]
pub(crate) fn to_unicode_lower(s: &str) -> (r: String)
    ensures
        r@ == unicode_lower(s@),
        (forall|i: int| 0 <= i < s@.len() ==> (#[trigger] s@[i]) as u32 <= 0x7F) ==> r@ == lower(s@),
{
    s.to_lowercase()
}

// ---------------------------------------------------------------------------
// Lines
// ---------------------------------------------------------------------------

/// A line without the carriage return that ends it.
pub open spec fn without_cr(s: Seq<char>) -> Seq<char> {
    if s.len() > 0 && s.last() == '\r' {
        s.drop_last()
    } else {
        s
    }
}

/// The lines of the pieces between line feeds: all but the last piece end at a
/// line feed and lose a carriage return before it; the last piece is a line only
/// where it is not empty.
pub open spec fn lines_of_pieces(pieces: Seq<Seq<char>>) -> Seq<Seq<char>> {
    let ended = pieces.drop_last().map_values(|p: Seq<char>| without_cr(p));
    if pieces.last().len() > 0 {
        ended.push(pieces.last())
    } else {
        ended
    }
}

/// The lines of a text.
pub open spec fn lines(s: Seq<char>) -> Seq<Seq<char>> {
    lines_of_pieces(split(s, "\n"@))
}

pub fn split_lines(s: &[char]) -> (r: Vec<String>)
    ensures
        texts(r@) == lines(s@),
{
    let pieces = split_all(s, "\n");
    let ghost ps = views(pieces@);
    let n: usize = pieces.len() - 1;
    let mut out: Vec<String> = Vec::new();
    let mut i: usize = 0;
    let ghost ended = ps.drop_last().map_values(|p: Seq<char>| without_cr(p));
    assert(texts(out@) =~= ended.take(0));
    while i < n
        invariant
            i <= n,
            n == pieces.len() - 1,
            ps == views(pieces@),
            ended == ps.drop_last().map_values(|p: Seq<char>| without_cr(p)),
            texts(out@) == ended.take(i as int),
        decreases n - i,
    {
        let p = pieces[i].as_slice();
        assert(ps.drop_last()[i as int] == p@);
        let line = if p.len() > 0 && p[p.len() - 1] == '\r' {
            let q = slice_subrange(p, 0, p.len() - 1);
            assert(q@ =~= p@.drop_last());
            string_of(q)
        } else {
            string_of(p)
        };
        let ghost before = out@;
        let ghost shown = line@;
        out.push(line);
        assert(texts(out@) =~= texts(before).push(shown));
        assert(ended[i as int] == shown);
        assert(ended.take(i + 1) =~= ended.take(i as int).push(shown));
        i += 1;
    }
    assert(ended.take(n as int) =~= ended);
    assert(ps.last() == pieces@[n as int]@);
    if pieces[n].len() > 0 {
        let line = string_of(pieces[n].as_slice());
        let ghost before = out@;
        let ghost shown = line@;
        out.push(line);
        assert(texts(out@) =~= texts(before).push(shown));
    }
    out
}

/// The strings as borrowed strings.
pub fn as_strs<'a>(v: &'a Vec<String>) -> (r: Vec<&'a str>)
    ensures
        r@.map_values(|s: &str| s@) == texts(v@),
{
    let mut out: Vec<&'a str> = Vec::new();
    let mut i: usize = 0;
    assert(out@.map_values(|s: &str| s@) =~= texts(v@).take(0));
    while i < v.len()
        invariant
            i <= v.len(),
            out@.map_values(|s: &str| s@) == texts(v@).take(i as int),
        decreases v.len() - i,
    {
        let ghost before = out@;
        let s = v[i].as_str();
        out.push(s);
        assert(out@.map_values(|s: &str| s@) =~= before.map_values(|s: &str| s@).push(s@));
        assert(texts(v@).take(i + 1) =~= texts(v@).take(i as int).push(v@[i as int]@));
        i += 1;
    }
    assert(texts(v@).take(i as int) =~= texts(v@));
    out
}

/// The first `n` characters, or all where there are fewer.
pub open spec fn first_chars(s: Seq<char>, n: nat) -> Seq<char> {
    if s.len() > n {
        s.take(n as int)
    } else {
        s
    }
}

pub fn take_chars<'a>(s: &'a [char], n: usize) -> (r: &'a [char])
    ensures
        r@ == first_chars(s@, n as nat),
{
    if s.len() > n {
        let r = slice_subrange(s, 0, n);
        assert(r@ =~= s@.take(n as int));
        r
    } else {
        s
    }
}

// ---------------------------------------------------------------------------
// Lists of words
// ---------------------------------------------------------------------------

/// The texts of a list of borrowed strings.
pub open spec fn str_texts(v: Seq<&str>) -> Seq<Seq<char>> {
    v.map_values(|s: &str| s@)
}

/// Whether the text is one of the list.
pub fn one_of(s: &[char], list: &Vec<&str>) -> (r: bool)
    ensures
        r == str_texts(list@).contains(s@),
{
    let mut i: usize = 0;
    let ghost all = str_texts(list@);
    while i < list.len()
        invariant
            i <= list.len(),
            all == str_texts(list@),
            forall|j: int| 0 <= j < i ==> #[trigger] all[j] != s@,
        decreases list.len() - i,
    {
        assert(all[i as int] == list@[i as int]@);
        if is(s, list[i]) {
            return true;
        }
        i += 1;
    }
    false
}

/// Adds a text to a list.
pub fn push_text(list: &mut Vec<String>, s: &str)
    ensures
        texts(final(list)@) == texts(old(list)@).push(s@),
{
    let ghost before = texts(list@);
    list.push(s.to_string());
    assert(texts(list@) =~= before.push(s@));
}

/// Strings of their own for texts.
pub fn owned(list: &Vec<&str>) -> (r: Vec<String>)
    ensures
        texts(r@) == str_texts(list@),
{
    let ghost all = str_texts(list@);
    let mut out: Vec<String> = Vec::new();
    let mut i: usize = 0;
    assert(texts(out@) =~= all.take(0));
    while i < list.len()
        invariant
            i <= list.len(),
            all == str_texts(list@),
            texts(out@) == all.take(i as int),
        decreases list.len() - i,
    {
        push_text(&mut out, list[i]);
        i += 1;
        assert(texts(out@) =~= all.take(i as int));
    }
    assert(all.take(all.len() as int) =~= all);
    out
}

/// A copy of a list of strings.
pub fn copy_strings(v: &Vec<String>) -> (r: Vec<String>)
    ensures
        r@ == v@,
{
    let mut out: Vec<String> = Vec::new();
    let mut i: usize = 0;
    while i < v.len()
        invariant
            i <= v.len(),
            out@ == v@.take(i as int),
        decreases v.len() - i,
    {
        out.push(v[i].clone());
        i += 1;
        assert(out@ =~= v@.take(i as int));
    }
    assert(out@ =~= v@);
    out
}

/// Tells whether a text is in a list.
pub fn listed(list: &Vec<String>, p: &str) -> (r: bool)
    ensures
        r == texts(list@).contains(p@),
{
    let ghost all = texts(list@);
    let mut i: usize = 0;
    while i < list.len()
        invariant
            i <= list.len(),
            all == texts(list@),
            forall|j: int| 0 <= j < i ==> #[trigger] all[j] != p@,
        decreases list.len() - i,
    {
        assert(all[i as int] == list@[i as int]@);
        if str_eq(list[i].as_str(), p) {
            return true;
        }
        i += 1;
    }
    false
}

} // verus!

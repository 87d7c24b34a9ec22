//! Attribute lists of playlist tags: `NAME=value` separated by commas, where a
//! comma between double quotes does not separate.

use vstd::prelude::*;
use vstd::slice::slice_subrange;

use crate::strmap;
use crate::strmap::StrMap;
use crate::text;
use crate::text::{chars_of, split_at_first, string_of, trimmed, trimmed_set};

verus! {

/// The first comma at or after `from` that is not between double quotes, where
/// `quoted` says whether position `from` is; `s.len()` where there is none.
pub open spec fn next_comma(s: Seq<char>, from: int, quoted: bool) -> int
    decreases s.len() - from,
{
    if from < 0 || from >= s.len() {
        s.len() as int
    } else if s[from] == '"' {
        next_comma(s, from + 1, !quoted)
    } else if s[from] == ',' && !quoted {
        from
    } else {
        next_comma(s, from + 1, quoted)
    }
}

/// The pieces of `s` from `from` on, cut at the commas outside quotes.
pub open spec fn parts_from(s: Seq<char>, from: int) -> Seq<Seq<char>>
    decreases s.len() - from,
{
    if from < 0 || from > s.len() {
        Seq::empty()
    } else {
        let i = next_comma(s, from, false);
        if from <= i < s.len() {
            seq![s.subrange(from, i)] + parts_from(s, i + 1)
        } else {
            seq![s.skip(from)]
        }
    }
}

/// A piece `key=value` as a pair: both trimmed, and the value stripped of quotes
/// and blanks at its ends. None where there is no equals sign.
pub open spec fn pair_of(part: Seq<char>) -> Option<(Seq<char>, Seq<char>)> {
    match text::split_once(part, "="@) {
        Some((k, v)) => Some((text::trim(k), text::trim_set(text::trim(v), "\"' "@))),
        None => None,
    }
}

/// The attributes of the pieces, a later one replacing an earlier one of the
/// same name.
pub open spec fn attributes_of(parts: Seq<Seq<char>>) -> Map<Seq<char>, Seq<char>>
    decreases parts.len(),
{
    if parts.len() == 0 {
        Map::empty()
    } else {
        match pair_of(parts.last()) {
            Some((k, v)) => attributes_of(parts.drop_last()).insert(k, v),
            None => attributes_of(parts.drop_last()),
        }
    }
}

/// The attributes that a tag's text lists.
pub open spec fn attributes(s: Seq<char>) -> Map<Seq<char>, Seq<char>> {
    attributes_of(parts_from(s, 0))
}

/// The value of attribute `k`, where there is one.
pub open spec fn attribute(m: Map<Seq<char>, Seq<char>>, k: Seq<char>) -> Option<Seq<char>> {
    if m.dom().contains(k) {
        Some(m[k])
    } else {
        None
    }
}

fn next_comma_from(s: &[char], from: usize) -> (r: usize)
    requires
        from <= s.len(),
    ensures
        r == next_comma(s@, from as int, false),
        from <= r <= s.len(),
{
    let mut i: usize = from;
    let mut quoted: bool = false;
    while i < s.len()
        invariant
            from <= i <= s.len(),
            next_comma(s@, from as int, false) == next_comma(s@, i as int, quoted),
        decreases s.len() - i,
    {
        if s[i] == '"' {
            quoted = !quoted;
        } else if s[i] == ',' && !quoted {
            return i;
        }
        i += 1;
    }
    i
}

/// Adds the pair that `part` writes, if it writes one.
fn insert_part(map: &mut StrMap<String>, part: &[char])
    ensures
        strmap::text_values(final(map)@) == (match pair_of(part@) {
            Some((k, v)) => strmap::text_values(old(map)@).insert(k, v),
            None => strmap::text_values(old(map)@),
        }),
{
    match split_at_first(part, "=") {
        Some((k, v)) => {
            let key = string_of(trimmed(k));
            let value = string_of(trimmed_set(trimmed(v), "\"' "));
            let ghost before = map@;
            let ghost kv = (key@, value);
            map.insert(key, value);
            assert(strmap::text_values(map@) =~= strmap::text_values(before).insert(
                kv.0,
                kv.1@,
            ));
        },
        None => {},
    }
}

/// The attributes that `input` lists.
pub fn parse_attributes(input: &str) -> (r: StrMap<String>)
    ensures
        strmap::text_values(r@) == attributes(input@),
{
    let cs = chars_of(input);
    let s = cs.as_slice();
    let mut map: StrMap<String> = StrMap::new();
    let mut from: usize = 0;
    let mut i: usize = next_comma_from(s, 0);
    let ghost mut done: Seq<Seq<char>> = Seq::empty();
    assert(strmap::text_values(map@) =~= attributes_of(done));
    assert(done + parts_from(s@, 0) =~= parts_from(s@, 0));
    while i < s.len()
        invariant
            from <= i <= s.len(),
            i == next_comma(s@, from as int, false),
            strmap::text_values(map@) == attributes_of(done),
            done + parts_from(s@, from as int) == parts_from(s@, 0),
        decreases s.len() - i,
    {
        let part = slice_subrange(s, from, i);
        insert_part(&mut map, part);
        proof {
            let next = done.push(part@);
            assert(next.drop_last() =~= done);
            assert(next + parts_from(s@, i + 1) =~= done + parts_from(s@, from as int));
            done = next;
        }
        from = i + 1;
        i = next_comma_from(s, from);
    }
    let part = slice_subrange(s, from, s.len());
    insert_part(&mut map, part);
    proof {
        assert(part@ == s@.skip(from as int));
        let next = done.push(part@);
        assert(next.drop_last() =~= done);
        assert(next =~= parts_from(s@, 0));
    }
    map
}

} // verus!

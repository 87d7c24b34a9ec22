//! What the small texts inside manifests and playlists stand for: templates
//! of segment addresses, attribute lists and durations.
use vstd::prelude::*;

use crate::attributes;
use crate::decimal;
use crate::number;
use crate::template;
use crate::text;
use crate::xs_duration;

verus! {

// ---------------------------------------------------------------------------
// Templates
// ---------------------------------------------------------------------------

/// Neither a dollar sign nor a NUL character occurs in `s`.
pub open spec fn is_plain(s: Seq<char>) -> bool {
    !s.contains('$') && !s.contains('\0')
}

proof fn lemma_walk_plain(
    s: Seq<char>,
    i: int,
    k: int,
    number: int,
    time: int,
    bandwidth: Seq<char>,
    id: Seq<char>,
)
    requires
        0 <= i <= k <= s.len(),
        forall|j: int| i <= j < k ==> s[j] != '$',
    ensures
        template::expanded_from(s, i, number, time, bandwidth, id) == s.subrange(i, k)
            + template::expanded_from(s, k, number, time, bandwidth, id),
    decreases k - i,
{
    if i < k {
        lemma_walk_plain(s, i + 1, k, number, time, bandwidth, id);
        assert(seq![s[i]] + s.subrange(i + 1, k) =~= s.subrange(i, k));
        assert(seq![s[i]] + (s.subrange(i + 1, k) + template::expanded_from(
            s,
            k,
            number,
            time,
            bandwidth,
            id,
        )) =~= s.subrange(i, k) + template::expanded_from(s, k, number, time, bandwidth, id));
    } else {
        assert(s.subrange(i, k) =~= Seq::empty());
        assert(Seq::<char>::empty() + template::expanded_from(s, k, number, time, bandwidth, id)
            =~= template::expanded_from(s, k, number, time, bandwidth, id));
    }
}

proof fn lemma_not_replaced(s: Seq<char>, what: Seq<char>, by: Seq<char>)
    requires
        what.len() > 0,
        forall|i: int| !text::has_at(s, i, what),
    ensures
        text::replace(s, what, by) == s,
{
    text::lemma_find(s, what, 0);
    let i = text::find(s, what, 0);
    if i >= 0 {
        assert(text::has_at(s, i, what));
    }
    assert(s.skip(0) =~= s);
}

proof fn lemma_one_token(
    a: Seq<char>,
    token: Seq<char>,
    b: Seq<char>,
    number: int,
    time: int,
    bandwidth: Seq<char>,
    id: Seq<char>,
    value: Seq<char>,
)
    requires
        is_plain(a),
        is_plain(b),
        is_plain(token),
        token.len() > 0,
        !value.contains('\0'),
        template::token_value(token, number, time, bandwidth, id) == Some(value),
    ensures
        template::expanded(a + "$"@ + token + "$"@ + b, number, time, bandwidth, id) == a + value
            + b,
{
    reveal_strlit("$");
    reveal_strlit("$$");
    reveal_strlit("\0");
    let s = a + "$"@ + token + "$"@ + b;
    let n = a.len() as int;
    let e = n + 1 + token.len();
    assert(s[n] == '$' && s[e] == '$');
    assert forall|j: int| 0 <= j < s.len() && j != n && j != e implies s[j] != '$' && s[j] != '\0' by {
        if j < n {
            assert(s[j] == a[j]);
            assert(a.contains(a[j]));
        } else if j < e {
            assert(s[j] == token[j - n - 1]);
            assert(token.contains(token[j - n - 1]));
        } else {
            assert(s[j] == b[j - e - 1]);
            assert(b.contains(b[j - e - 1]));
        }
    }
    assert forall|i: int| !text::has_at(s, i, "$$"@) by {
        if text::has_at(s, i, "$$"@) {
            assert(s.subrange(i, i + 2)[0] == s[i]);
            assert(s.subrange(i, i + 2)[1] == s[i + 1]);
        }
    }
    lemma_not_replaced(s, "$$"@, "\0"@);
    lemma_walk_plain(s, 0, n, number, time, bandwidth, id);
    text::lemma_first_of(s, "$"@, n + 1);
    let f = text::first_of(s, "$"@, n + 1);
    assert("$"@[0] == '$');
    assert(f == e) by {
        if f < s.len() {
            assert("$"@.contains(s[f]));
            assert(s[f] == '$');
        }
        assert("$"@.contains(s[e]));
    }
    assert(s.subrange(n + 1, e) =~= token);
    lemma_walk_plain(s, e + 1, s.len() as int, number, time, bandwidth, id);
    assert(s.subrange(e + 1, s.len() as int) =~= b);
    assert(s.subrange(0, n) =~= a);
    let r = a + value + b;
    assert(template::expanded_from(s, 0, number, time, bandwidth, id) =~= r);
    assert forall|i: int| !text::has_at(r, i, "\0"@) by {
        if text::has_at(r, i, "\0"@) {
            assert(r.subrange(i, i + 1)[0] == r[i]);
            if i < a.len() {
                assert(r[i] == a[i]);
                assert(a.contains(a[i]));
            } else if i < a.len() + value.len() {
                assert(r[i] == value[i - a.len()]);
                assert(value.contains(value[i - a.len()]));
            } else {
                assert(r[i] == b[i - a.len() - value.len()]);
                assert(b.contains(b[i - a.len() - value.len()]));
            }
        }
    }
    lemma_not_replaced(r, "\0"@, "$"@);
}

proof fn lemma_digits_plain(s: Seq<char>)
    requires
        number::all_digits(s),
    ensures
        is_plain(s),
{
    if s.contains('$') {
        let i = choose|i: int| 0 <= i < s.len() && s[i] == '$';
        assert(text::is_digit(s[i]));
    }
    if s.contains('\0') {
        let i = choose|i: int| 0 <= i < s.len() && s[i] == '\0';
        assert(text::is_digit(s[i]));
    }
}

/// Where an address template says `$Number$`, the address of a segment says
/// the segment's number in decimal, and where it says `$Time$`, the time at
/// which the segment begins: neither is taken for the other.
pub proof fn numbers_and_times_are_filled_in(
    a: Seq<char>,
    b: Seq<char>,
    number: nat,
    time: nat,
    bandwidth: Seq<char>,
    id: Seq<char>,
)
    requires
        is_plain(a),
        is_plain(b),
    ensures
        template::expanded(a + "$Number$"@ + b, number as int, time as int, bandwidth, id) == a
            + number::dec(number) + b,
        template::expanded(a + "$Time$"@ + b, number as int, time as int, bandwidth, id) == a
            + number::dec(time) + b,
{
    reveal_strlit("$");
    reveal_strlit("Number");
    reveal_strlit("Time");
    reveal_strlit("$Number$");
    reveal_strlit("$Time$");
    reveal_strlit("Number%0");
    reveal_strlit("Time%0");
    number::lemma_dec_digits(number);
    number::lemma_dec_digits(time);
    lemma_digits_plain(number::dec(number));
    lemma_digits_plain(number::dec(time));
    assert(is_plain("Number"@));
    assert(is_plain("Time"@));
    assert("Time"@.len() != "Number"@.len());
    lemma_one_token(a, "Number"@, b, number as int, time as int, bandwidth, id, number::dec(number));
    lemma_one_token(a, "Time"@, b, number as int, time as int, bandwidth, id, number::dec(time));
    assert(a + "$Number$"@ + b =~= a + "$"@ + "Number"@ + "$"@ + b);
    assert(a + "$Time$"@ + b =~= a + "$"@ + "Time"@ + "$"@ + b);
}

/// Where an address template says `$RepresentationID$` or `$Bandwidth$`, the
/// address says the representation's own identifier or bandwidth.
pub proof fn representations_are_filled_in(
    a: Seq<char>,
    b: Seq<char>,
    number: int,
    time: int,
    bandwidth: Seq<char>,
    id: Seq<char>,
)
    requires
        is_plain(a),
        is_plain(b),
        !id.contains('\0'),
        !bandwidth.contains('\0'),
    ensures
        template::expanded(a + "$RepresentationID$"@ + b, number, time, bandwidth, id) == a + id
            + b,
        template::expanded(a + "$Bandwidth$"@ + b, number, time, bandwidth, id) == a + bandwidth
            + b,
{
    reveal_strlit("$");
    reveal_strlit("Number");
    reveal_strlit("Time");
    reveal_strlit("Number%0");
    reveal_strlit("Time%0");
    reveal_strlit("RepresentationID");
    reveal_strlit("Bandwidth");
    reveal_strlit("$RepresentationID$");
    reveal_strlit("$Bandwidth$");
    let r = "RepresentationID"@;
    let w = "Bandwidth"@;
    assert(is_plain(r));
    assert(is_plain(w));
    assert(r.take(8)[0] != "Number%0"@[0]);
    assert(w.take(8)[0] != "Number%0"@[0]);
    assert(r.take(6)[0] != "Time%0"@[0]);
    assert(w.take(6)[0] != "Time%0"@[0]);
    assert(r.len() != w.len());
    lemma_one_token(a, r, b, number, time, bandwidth, id, id);
    lemma_one_token(a, w, b, number, time, bandwidth, id, bandwidth);
    assert(a + "$RepresentationID$"@ + b =~= a + "$"@ + r + "$"@ + b);
    assert(a + "$Bandwidth$"@ + b =~= a + "$"@ + w + "$"@ + b);
}

/// As many zeros as it takes to make a text of `len` characters `width` wide.
pub open spec fn zeros_before(len: nat, width: nat) -> Seq<char> {
    Seq::new(
        if width > len {
            (width - len) as nat
        } else {
            0
        },
        |i: int| '0',
    )
}

/// With a width, as in `$Number%05d$`, the number is filled in with zeros
/// before it up to that width, and is never cut off.
pub proof fn numbers_are_filled_up_with_zeros(
    a: Seq<char>,
    b: Seq<char>,
    width: nat,
    number: nat,
    time: nat,
    bandwidth: Seq<char>,
    id: Seq<char>,
)
    requires
        is_plain(a),
        is_plain(b),
        width <= usize::MAX,
    ensures
        template::expanded(
            a + "$Number%0"@ + number::dec(width) + "d$"@ + b,
            number as int,
            time as int,
            bandwidth,
            id,
        ) == a + zeros_before(number::dec(number).len(), width) + number::dec(number) + b,
        template::expanded(
            a + "$Time%0"@ + number::dec(width) + "d$"@ + b,
            number as int,
            time as int,
            bandwidth,
            id,
        ) == a + zeros_before(number::dec(time).len(), width) + number::dec(time) + b,
{
    lemma_padded(a, "Number%0"@, b, width, number, number as int, time as int, bandwidth, id);
    lemma_padded(a, "Time%0"@, b, width, time, number as int, time as int, bandwidth, id);
    reveal_strlit("$Number%0");
    reveal_strlit("$Time%0");
    reveal_strlit("Number%0");
    reveal_strlit("Time%0");
    reveal_strlit("d$");
    reveal_strlit("d");
    reveal_strlit("$");
    let w = number::dec(width);
    assert(a + "$Number%0"@ + w + "d$"@ + b =~= a + "$"@ + ("Number%0"@ + w + "d"@) + "$"@ + b);
    assert(a + "$Time%0"@ + w + "d$"@ + b =~= a + "$"@ + ("Time%0"@ + w + "d"@) + "$"@ + b);
}

proof fn lemma_padded(
    a: Seq<char>,
    head: Seq<char>,
    b: Seq<char>,
    width: nat,
    value: nat,
    number: int,
    time: int,
    bandwidth: Seq<char>,
    id: Seq<char>,
)
    requires
        is_plain(a),
        is_plain(b),
        width <= usize::MAX,
        (head == "Number%0"@ && value == number) || (head == "Time%0"@ && value == time),
    ensures
        template::expanded(
            a + "$"@ + (head + number::dec(width) + "d"@) + "$"@ + b,
            number,
            time,
            bandwidth,
            id,
        ) == a + zeros_before(number::dec(value).len(), width) + number::dec(value) + b,
{
    reveal_strlit("Number");
    reveal_strlit("Time");
    reveal_strlit("Number%0");
    reveal_strlit("Time%0");
    reveal_strlit("d");
    let w = number::dec(width);
    let token = head + w + "d"@;
    let zeros = zeros_before(number::dec(value).len(), width);
    let filled = zeros + number::dec(value);
    number::lemma_dec_digits(width);
    number::lemma_dec_digits(value);
    number::written_number_reads_back(width, usize::MAX as nat);
    lemma_digits_plain(w);
    assert forall|j: int| 0 <= j < token.len() implies token[j] != '$' && token[j] != '\0' by {
        if j < head.len() {
            assert(token[j] == head[j]);
        } else if j < head.len() + w.len() {
            assert(token[j] == w[j - head.len()]);
            assert(w.contains(w[j - head.len()]));
        } else {
            assert(token[j] == 'd');
        }
    }
    assert(is_plain(token));
    assert(token.take(head.len() as int) =~= head);
    let fmt = token.skip(head.len() as int);
    assert(fmt =~= w + "d"@);
    assert(fmt.last() == 'd');
    assert(fmt.drop_last() =~= w);
    assert(number::zero_padded(number::dec(value), width) =~= filled);
    assert(template::formatted(value as int, fmt) == filled);
    if head == "Time%0"@ {
        assert(token.take(8)[0] == 'T');
        assert("Number%0"@[0] == 'N');
    }
    assert(template::token_value(token, number, time, bandwidth, id) == Some(filled));
    assert(number::all_digits(filled)) by {
        assert forall|j: int| 0 <= j < filled.len() implies text::is_digit(#[trigger] filled[j]) by {
            if j >= zeros.len() {
                assert(filled[j] == number::dec(value)[j - zeros.len()]);
            }
        }
    }
    lemma_digits_plain(filled);
    lemma_one_token(a, token, b, number, time, bandwidth, id, filled);
    assert(a + filled + b =~= a + zeros + number::dec(value) + b);
}

// ---------------------------------------------------------------------------
// Attribute lists
// ---------------------------------------------------------------------------

/// A name that can stand before the equals sign of an attribute.
pub open spec fn is_name(k: Seq<char>) -> bool {
    forall|i: int|
        0 <= i < k.len() ==> #[trigger] k[i] != '=' && k[i] != ',' && k[i] != '"' && !text::is_space(
            k[i],
        )
}

/// A value that can stand between quotes: it holds none itself, and neither
/// begins nor ends with a blank or an apostrophe.
pub open spec fn is_value(v: Seq<char>) -> bool {
    &&& !v.contains('"')
    &&& v.len() > 0 ==> v[0] != '\'' && v[0] != ' ' && v.last() != '\'' && v.last() != ' '
}

/// An attribute as a line holds it.
pub open spec fn attribute_text(pair: (Seq<char>, Seq<char>)) -> Seq<char> {
    pair.0 + "=\""@ + pair.1 + "\""@
}

/// Attributes as a line holds them, with commas between them.
pub open spec fn list_text(pairs: Seq<(Seq<char>, Seq<char>)>) -> Seq<char>
    decreases pairs.len(),
{
    if pairs.len() == 0 {
        Seq::empty()
    } else if pairs.len() == 1 {
        attribute_text(pairs[0])
    } else {
        attribute_text(pairs[0]) + ","@ + list_text(pairs.skip(1))
    }
}

proof fn lemma_comma_moves(q: Seq<char>, s: Seq<char>, from: int, quoted: bool)
    requires
        0 <= from <= s.len(),
    ensures
        attributes::next_comma(q + s, q.len() + from, quoted) == q.len() + attributes::next_comma(
            s,
            from,
            quoted,
        ),
    decreases s.len() - from,
{
    if from < s.len() {
        assert((q + s)[q.len() + from] == s[from]);
        lemma_comma_moves(q, s, from + 1, quoted);
        lemma_comma_moves(q, s, from + 1, !quoted);
    }
}

proof fn lemma_comma_range(s: Seq<char>, from: int, quoted: bool)
    requires
        0 <= from <= s.len(),
    ensures
        from <= attributes::next_comma(s, from, quoted) <= s.len(),
    decreases s.len() - from,
{
    if from < s.len() {
        lemma_comma_range(s, from + 1, quoted);
        lemma_comma_range(s, from + 1, !quoted);
    }
}

proof fn lemma_parts_move(q: Seq<char>, s: Seq<char>, from: int)
    requires
        0 <= from <= s.len(),
    ensures
        attributes::parts_from(q + s, q.len() + from) == attributes::parts_from(s, from),
    decreases s.len() - from,
{
    lemma_comma_moves(q, s, from, false);
    lemma_comma_range(s, from, false);
    let i = attributes::next_comma(s, from, false);
    if i < s.len() {
        lemma_parts_move(q, s, i + 1);
        assert((q + s).subrange(q.len() + from, q.len() + i) =~= s.subrange(from, i));
    } else {
        assert((q + s).skip(q.len() + from) =~= s.skip(from));
    }
}

/// Past characters that are neither quotes nor, outside quotes, commas.
proof fn lemma_comma_skips(s: Seq<char>, from: int, to: int, quoted: bool)
    requires
        0 <= from <= to <= s.len(),
        forall|j: int| from <= j < to ==> s[j] != '"' && (quoted || s[j] != ','),
    ensures
        attributes::next_comma(s, from, quoted) == attributes::next_comma(s, to, quoted),
    decreases to - from,
{
    if from < to {
        lemma_comma_skips(s, from + 1, to, quoted);
    }
}

proof fn lemma_first_part(pair: (Seq<char>, Seq<char>), rest: Seq<char>)
    requires
        is_name(pair.0),
        is_value(pair.1),
        rest.len() > 0 ==> rest[0] == ',',
    ensures
        attributes::next_comma(attribute_text(pair) + rest, 0, false) == attribute_text(pair).len(),
{
    reveal_strlit("=\"");
    reveal_strlit("\"");
    let p = attribute_text(pair);
    let s = p + rest;
    let k = pair.0.len() as int;
    let n = pair.1.len() as int;
    assert forall|j: int| 0 <= j < k + 1 implies s[j] != '"' && s[j] != ',' by {
        if j < k {
            assert(s[j] == pair.0[j]);
        } else {
            assert(s[j] == '=');
        }
    }
    lemma_comma_skips(s, 0, k + 1, false);
    assert(s[k + 1] == '"');
    assert forall|j: int| k + 2 <= j < k + 2 + n implies s[j] != '"' by {
        assert(s[j] == pair.1[j - k - 2]);
        assert(pair.1.contains(pair.1[j - k - 2]));
    }
    lemma_comma_skips(s, k + 2, k + 2 + n, true);
    assert(s[k + 2 + n] == '"');
    assert(p.len() == k + n + 3);
    assert(attributes::next_comma(s, k + 1, false) == attributes::next_comma(s, k + 2, true));
    assert(attributes::next_comma(s, k + 2 + n, true) == attributes::next_comma(
        s,
        k + 3 + n,
        false,
    ));
    if rest.len() > 0 {
        assert(s[p.len() as int] == rest[0]);
    }
    assert(attributes::next_comma(s, p.len() as int, false) == p.len());
}

proof fn lemma_list_parts(pairs: Seq<(Seq<char>, Seq<char>)>)
    requires
        pairs.len() > 0,
        forall|i: int| 0 <= i < pairs.len() ==> is_name((#[trigger] pairs[i]).0) && is_value(pairs[i].1),
    ensures
        attributes::parts_from(list_text(pairs), 0) == pairs.map_values(
            |p: (Seq<char>, Seq<char>)| attribute_text(p),
        ),
    decreases pairs.len(),
{
    let p = attribute_text(pairs[0]);
    let want = pairs.map_values(|p: (Seq<char>, Seq<char>)| attribute_text(p));
    if pairs.len() == 1 {
        lemma_first_part(pairs[0], Seq::empty());
        assert(p + Seq::<char>::empty() =~= p);
        assert(p.skip(0) =~= p);
        assert(want =~= seq![p]);
    } else {
        reveal_strlit(",");
        let tail = pairs.skip(1);
        let rest = list_text(tail);
        assert forall|i: int| 0 <= i < tail.len() implies is_name((#[trigger] tail[i]).0) && is_value(
            tail[i].1,
        ) by {
            assert(tail[i] == pairs[i + 1]);
        }
        lemma_list_parts(tail);
        lemma_first_part(pairs[0], ","@ + rest);
        assert(p + (","@ + rest) =~= list_text(pairs));
        assert(p + ","@ + rest =~= list_text(pairs));
        lemma_parts_move(p + ","@, rest, 0);
        let s = list_text(pairs);
        assert(s.subrange(0, p.len() as int) =~= p);
        assert(attributes::parts_from(s, 0) =~= seq![p] + attributes::parts_from(rest, 0));
        assert(want =~= seq![p] + tail.map_values(|p: (Seq<char>, Seq<char>)| attribute_text(p)));
    }
}

proof fn lemma_trim_solid(s: Seq<char>)
    requires
        s.len() > 0 ==> !text::is_space(s[0]) && !text::is_space(s.last()),
    ensures
        text::trim(s) == s,
{
}

proof fn lemma_pair_read(pair: (Seq<char>, Seq<char>))
    requires
        is_name(pair.0),
        is_value(pair.1),
    ensures
        attributes::pair_of(attribute_text(pair)) == Some(pair),
{
    reveal_strlit("=\"");
    reveal_strlit("\"");
    reveal_strlit("=");
    reveal_strlit("\"' ");
    let p = attribute_text(pair);
    let k = pair.0;
    let v = pair.1;
    let quoted = "\""@ + v + "\""@;
    assert("="@[0] == '=');
    assert(text::free_of(k, "="@));
    assert(p =~= k + ("="@ + quoted));
    assert("="@.contains(("="@ + quoted)[0]));
    text::lemma_first_behind(k, "="@ + quoted, "="@);
    assert(p.take(k.len() as int) =~= k);
    assert(p.skip((k.len() + 1) as int) =~= quoted);
    if k.len() > 0 {
        assert(!text::is_space(k[0]));
        assert(!text::is_space(k[k.len() - 1]));
    }
    lemma_trim_solid(k);
    assert(quoted[0] == '"' && quoted.last() == '"');
    lemma_trim_solid(quoted);
    let set = "\"' "@;
    assert(set[0] == '"' && set[1] == '\'' && set[2] == ' ' && set.len() == 3);
    assert(set.contains('"'));
    assert(quoted.skip(1) =~= v + "\""@);
    if v.len() > 0 {
        assert(v.contains(v[0]));
        assert(v.contains(v.last()));
        assert((v + "\""@)[0] == v[0]);
        assert(!set.contains(v[0]));
        assert(!set.contains(v.last()));
        assert(text::trim_start_set(v + "\""@, set) == v + "\""@);
        assert(text::trim_start_set(quoted, set) == v + "\""@);
        assert((v + "\""@).last() == '"');
        assert((v + "\""@).drop_last() =~= v);
        assert(text::trim_end_set(v, set) == v);
        assert(text::trim_end_set(v + "\""@, set) == v);
    } else {
        let one = v + "\""@;
        assert(one[0] == '"');
        assert(one.skip(1) =~= v);
        assert(text::trim_start_set(v, set) == v);
        assert(text::trim_start_set(one, set) == v);
        assert(text::trim_start_set(quoted, set) == v);
        assert(text::trim_end_set(v, set) == v);
    }
}

proof fn lemma_pairs_collected(pairs: Seq<(Seq<char>, Seq<char>)>, j: int)
    requires
        0 <= j < pairs.len(),
        forall|i: int| 0 <= i < pairs.len() ==> is_name((#[trigger] pairs[i]).0) && is_value(pairs[i].1),
        forall|i: int| j < i < pairs.len() ==> (#[trigger] pairs[i]).0 != pairs[j].0,
    ensures
        ({
            let m = attributes::attributes_of(
                pairs.map_values(|p: (Seq<char>, Seq<char>)| attribute_text(p)),
            );
            m.dom().contains(pairs[j].0) && m[pairs[j].0] == pairs[j].1
        }),
    decreases pairs.len(),
{
    let texts = pairs.map_values(|p: (Seq<char>, Seq<char>)| attribute_text(p));
    lemma_pair_read(pairs.last());
    assert(texts.last() == attribute_text(pairs.last()));
    let front = pairs.drop_last();
    assert(texts.drop_last() =~= front.map_values(|p: (Seq<char>, Seq<char>)| attribute_text(p)));
    if j < pairs.len() - 1 {
        lemma_pairs_collected(front, j);
        assert(pairs[pairs.len() - 1].0 != pairs[j].0);
    }
}

/// Of a list of quoted attributes, each is read as the value that stands
/// between its quotes, commas and equals signs in it included. Where a name
/// occurs more than once, the last one counts.
pub proof fn attributes_are_read(pairs: Seq<(Seq<char>, Seq<char>)>, j: int)
    requires
        0 <= j < pairs.len(),
        forall|i: int| 0 <= i < pairs.len() ==> is_name((#[trigger] pairs[i]).0) && is_value(pairs[i].1),
        forall|i: int| j < i < pairs.len() ==> (#[trigger] pairs[i]).0 != pairs[j].0,
    ensures
        attributes::attribute(attributes::attributes(list_text(pairs)), pairs[j].0) == Some(
            pairs[j].1,
        ),
{
    lemma_list_parts(pairs);
    lemma_pairs_collected(pairs, j);
}

proof fn lemma_pairs_missing(pairs: Seq<(Seq<char>, Seq<char>)>, k: Seq<char>)
    requires
        forall|i: int| 0 <= i < pairs.len() ==> is_name((#[trigger] pairs[i]).0) && is_value(pairs[i].1),
        forall|i: int| 0 <= i < pairs.len() ==> (#[trigger] pairs[i]).0 != k,
    ensures
        !attributes::attributes_of(
            pairs.map_values(|p: (Seq<char>, Seq<char>)| attribute_text(p)),
        ).dom().contains(k),
    decreases pairs.len(),
{
    if pairs.len() > 0 {
        let texts = pairs.map_values(|p: (Seq<char>, Seq<char>)| attribute_text(p));
        lemma_pair_read(pairs.last());
        assert(texts.last() == attribute_text(pairs.last()));
        let front = pairs.drop_last();
        assert(texts.drop_last() =~= front.map_values(
            |p: (Seq<char>, Seq<char>)| attribute_text(p),
        ));
        lemma_pairs_missing(front, k);
        assert(pairs[pairs.len() - 1].0 != k);
    }
}

/// An attribute that the list does not name has no value.
pub proof fn other_attributes_are_missing(pairs: Seq<(Seq<char>, Seq<char>)>, k: Seq<char>)
    requires
        pairs.len() > 0,
        forall|i: int| 0 <= i < pairs.len() ==> is_name((#[trigger] pairs[i]).0) && is_value(pairs[i].1),
        forall|i: int| 0 <= i < pairs.len() ==> (#[trigger] pairs[i]).0 != k,
    ensures
        attributes::attribute(attributes::attributes(list_text(pairs)), k) is None,
{
    lemma_list_parts(pairs);
    lemma_pairs_missing(pairs, k);
}

// ---------------------------------------------------------------------------
// Durations
// ---------------------------------------------------------------------------

proof fn lemma_digits_reach(s: Seq<char>, from: int, to: int)
    requires
        0 <= from <= to <= s.len(),
        forall|j: int| from <= j < to ==> text::is_digit(s[j]),
        to < s.len() ==> !text::is_digit(s[to]),
    ensures
        decimal::digits_end(s, from) == to,
    decreases to - from,
{
    if from < to {
        lemma_digits_reach(s, from + 1, to);
    }
}

proof fn lemma_seconds_reach(s: Seq<char>, from: int, to: int)
    requires
        0 <= from <= to <= s.len(),
        forall|j: int| from <= j < to ==> text::is_digit(s[j]) || s[j] == '.',
        to < s.len() ==> !text::is_digit(s[to]) && s[to] != '.',
    ensures
        xs_duration::seconds_end(s, from) == to,
    decreases to - from,
{
    if from < to {
        lemma_seconds_reach(s, from + 1, to);
    }
}

/// A field is read where its number and its letter stand.
proof fn lemma_field(a: Seq<char>, n: nat, c: char, l: char, rest: Seq<char>)
    requires
        xs_duration::is_letter(c, l),
        !text::is_digit(c),
    ensures
        xs_duration::field(a + number::dec(n) + seq![c] + rest, a.len() as int, l) == (
            number::dec(n),
            (a.len() + number::dec(n).len() + 1) as int,
        ),
{
    number::lemma_dec_digits(n);
    let d = number::dec(n);
    let s = a + d + seq![c] + rest;
    let i = a.len() as int;
    let e = i + d.len();
    assert forall|j: int| i <= j < e implies text::is_digit(s[j]) by {
        assert(s[j] == d[j - i]);
    }
    assert(s[e] == c);
    lemma_digits_reach(s, i, e);
    assert(s.subrange(i, e) =~= d);
}

/// A number in decimal, with or without a fraction.
pub proof fn lemma_number_texts(n: nat, f: Seq<char>)
    requires
        number::all_digits(f),
        f.len() > 0,
    ensures
        decimal::parsed_decimal(number::dec(n)) == Some(
            decimal::DecimalView::Number { negative: false, digits: number::dec(n), scale: 0 },
        ),
        decimal::parsed_decimal(number::dec(n) + "."@ + f) == Some(
            decimal::DecimalView::Number {
                negative: false,
                digits: number::dec(n) + f,
                scale: f.len() as int,
            },
        ),
{
    reveal_strlit(".");
    reveal_strlit("inf");
    reveal_strlit("infinity");
    reveal_strlit("nan");
    number::lemma_dec_digits(n);
    let d = number::dec(n);
    assert(text::is_digit(d[0]));
    assert(text::lower(d)[0] == d[0]);
    assert("inf"@[0] == 'i' && "infinity"@[0] == 'i' && "nan"@[0] == 'n');
    lemma_digits_reach(d, 0, d.len() as int);
    assert(d.take(d.len() as int) + Seq::<char>::empty() =~= d);
    let s = d + "."@ + f;
    assert(s[0] == d[0]);
    assert(text::lower(s)[0] == d[0]);
    let a = d.len() as int;
    assert forall|j: int| 0 <= j < a implies text::is_digit(s[j]) by {
        assert(s[j] == d[j]);
    }
    assert(s[a] == '.');
    lemma_digits_reach(s, 0, a);
    assert forall|j: int| a + 1 <= j < s.len() implies text::is_digit(s[j]) by {
        assert(s[j] == f[j - a - 1]);
    }
    lemma_digits_reach(s, a + 1, s.len() as int);
    assert(s.take(a) =~= d);
    assert(s.subrange(a + 1, s.len() as int) =~= f);
}

/// A duration in days, hours, minutes and seconds, as a manifest writes it.
#[verifier::opaque]
pub open spec fn duration_text(days: nat, hours: nat, minutes: nat, seconds: Seq<char>) -> Seq<
    char,
> {
    seq!['P'] + number::dec(days) + seq!['D'] + seq!['T'] + number::dec(hours) + seq!['H']
        + number::dec(minutes) + seq!['M'] + seconds + seq!['S']
}

proof fn lemma_duration_fields(days: nat, hours: nat, minutes: nat, seconds: Seq<char>)
    requires
        seconds.len() > 0,
        forall|j: int| 0 <= j < seconds.len() ==> text::is_digit(seconds[j]) || seconds[j] == '.',
    ensures
        xs_duration::xs_fields(duration_text(days, hours, minutes, seconds)) == Some(
            xs_duration::XsFields {
                negative: false,
                years: Seq::empty(),
                months: Seq::empty(),
                days: number::dec(days),
                hours: number::dec(hours),
                minutes: number::dec(minutes),
                seconds,
            },
        ),
{
    reveal(duration_text);
    let s = duration_text(days, hours, minutes, seconds);
    let d = number::dec(days);
    let h = number::dec(hours);
    let m = number::dec(minutes);
    number::lemma_dec_digits(days);
    assert(s[0] == 'P');
    let e = 1 + d.len() as int;
    assert forall|j: int| 1 <= j < e implies text::is_digit(s[j]) by {
        assert(s[j] == d[j - 1]);
    }
    assert(s[e] == 'D');
    lemma_digits_reach(s, 1, e);
    let a1 = seq!['P'];
    let r1 = seq!['T'] + h + seq!['H'] + m + seq!['M'] + seconds + seq!['S'];
    assert(s =~= a1 + d + seq!['D'] + r1);
    lemma_field(a1, days, 'D', 'd', r1);
    let a2 = seq!['P'] + d + seq!['D'] + seq!['T'];
    let r2 = m + seq!['M'] + seconds + seq!['S'];
    assert(s =~= a2 + h + seq!['H'] + r2);
    lemma_field(a2, hours, 'H', 'h', r2);
    assert(s[e + 1] == 'T');
    let a3 = a2 + h + seq!['H'];
    let r3 = seconds + seq!['S'];
    assert(s =~= a3 + m + seq!['M'] + r3);
    lemma_field(a3, minutes, 'M', 'm', r3);
    let i5 = a3.len() + m.len() + 1;
    let i6 = i5 + seconds.len();
    assert forall|j: int| i5 <= j < i6 implies text::is_digit(s[j]) || s[j] == '.' by {
        assert(s[j] == seconds[j - i5]);
    }
    assert(s[i6 as int] == 'S');
    assert(s.len() == i6 + 1);
    lemma_seconds_reach(s, i5 as int, i6 as int);
    assert(s.subrange(i5 as int, i6 as int) =~= seconds);
}

proof fn lemma_read_duration(s: Seq<char>, f: xs_duration::XsFields, ms: int)
    requires
        xs_duration::xs_fields(s) == Some(f),
        !f.negative,
        xs_duration::seconds_millis(f.seconds) == Some(ms),
        xs_duration::whole_millis(f) + ms <= i64::MAX,
    ensures
        xs_duration::xs_duration(s) == Some(xs_duration::whole_millis(f) + ms),
{
}

proof fn lemma_whole_seconds(n: nat)
    requires
        1000 * n <= i64::MAX,
    ensures
        xs_duration::seconds_millis(number::dec(n)) == Some(1000 * n as int),
{
    number::lemma_dec_digits(n);
    lemma_number_texts(n, seq!['0']);
    assert(decimal::pow10(0) == 1);
    assert(decimal::magnitude(number::dec(n), 0, 1000) == n * 1000) by {
        assert((n * 1000) * decimal::pow10(0) == n * 1000) by (nonlinear_arith)
            requires
                decimal::pow10(0) == 1,
        ;
    }
}

/// A duration of days, hours, minutes and seconds is as many milliseconds as
/// they last together: 86400, 3600, 60 and 1 times a thousand of each.
pub proof fn durations_add_up(days: nat, hours: nat, minutes: nat, seconds: nat)
    requires
        86_400_000 * days + 3_600_000 * hours + 60_000 * minutes + 1000 * seconds <= i64::MAX,
    ensures
        xs_duration::xs_duration(duration_text(days, hours, minutes, number::dec(seconds))) == Some(
            86_400_000 * days + 3_600_000 * hours + 60_000 * minutes + 1000 * seconds as int,
        ),
{
    number::lemma_dec_digits(days);
    number::lemma_dec_digits(hours);
    number::lemma_dec_digits(minutes);
    number::lemma_dec_digits(seconds);
    let s = duration_text(days, hours, minutes, number::dec(seconds));
    lemma_duration_fields(days, hours, minutes, number::dec(seconds));
    lemma_whole_seconds(seconds);
    assert(number::dec_value(Seq::<char>::empty()) == 0);
    lemma_read_duration(s, xs_duration::xs_fields(s)->0, 1000 * seconds as int);
}

/// A fraction of a second is kept to the millisecond, rounded down: with `f`
/// behind the point, the duration is between its number of milliseconds and
/// one more.
pub proof fn fractions_are_rounded_down(seconds: nat, f: Seq<char>)
    requires
        number::all_digits(f),
        f.len() > 0,
        1000 * (seconds + 1) <= i64::MAX,
    ensures
        ({
            let r = xs_duration::xs_duration(
                duration_text(0, 0, 0, number::dec(seconds) + "."@ + f),
            );
            let p = decimal::pow10(f.len());
            &&& r is Some
            &&& r->0 * p <= 1000 * (seconds * p + number::dec_value(f))
            &&& 1000 * (seconds * p + number::dec_value(f)) < (r->0 + 1) * p
        }),
{
    reveal_strlit(".");
    number::lemma_dec_digits(0);
    number::lemma_dec_digits(seconds);
    let d = number::dec(seconds);
    let t = d + "."@ + f;
    assert forall|j: int| 0 <= j < t.len() implies text::is_digit(t[j]) || t[j] == '.' by {
        if j < d.len() {
            assert(t[j] == d[j]);
        } else if j > d.len() {
            assert(t[j] == f[j - d.len() - 1]);
        }
    }
    lemma_duration_fields(0, 0, 0, t);
    lemma_number_texts(seconds, f);
    decimal::lemma_dec_value_concat(d, f);
    let p = decimal::pow10(f.len());
    decimal::lemma_pow10_positive(f.len());
    let v = number::dec_value(f);
    lemma_below_pow10(f);
    assert(number::dec_value(Seq::<char>::empty()) == 0);
    let q = lemma_divided(seconds, v, p);
    let s = duration_text(0, 0, 0, t);
    assert(decimal::magnitude(d + f, f.len() as int, 1000) == q);
    assert(xs_duration::seconds_millis(t) == Some(q as int));
    lemma_read_duration(s, xs_duration::xs_fields(s)->0, q as int);
}

proof fn lemma_divided(seconds: nat, v: nat, p: nat) -> (q: nat)
    requires
        v < p,
        1000 * (seconds + 1) <= i64::MAX,
    ensures
        q == ((seconds * p + v) * 1000) / p,
        q * p <= 1000 * (seconds * p + v) < (q + 1) * p,
        q <= i64::MAX,
{
    let x = (seconds * p + v) * 1000;
    let q = x / p;
    assert(q * p <= x < (q + 1) * p) by (nonlinear_arith)
        requires
            q == x / p,
            p >= 1,
    ;
    assert(x < 1000 * (seconds + 1) * p) by (nonlinear_arith)
        requires
            x == (seconds * p + v) * 1000,
            v < p,
    ;
    assert(q < 1000 * (seconds + 1)) by (nonlinear_arith)
        requires
            q * p <= x,
            x < 1000 * (seconds + 1) * p,
            p >= 1,
    ;
    q
}

pub proof fn lemma_below_pow10(f: Seq<char>)
    requires
        number::all_digits(f),
    ensures
        number::dec_value(f) < decimal::pow10(f.len()),
    decreases f.len(),
{
    if f.len() > 0 {
        let c = f.drop_last();
        assert forall|i: int| 0 <= i < c.len() implies text::is_digit(#[trigger] c[i]) by {
            assert(text::is_digit(f[i]));
        }
        lemma_below_pow10(c);
        assert(text::is_digit(f[f.len() - 1]));
    }
}

} // verus!

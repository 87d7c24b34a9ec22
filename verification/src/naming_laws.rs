//! How downloads are named, and what their requests carry.
use vstd::prelude::*;

use crate::headers;
use crate::naming;
use crate::number;
use crate::paths;
use crate::quality;
use crate::text;
use crate::urls;

verus! {

// ---------------------------------------------------------------------------
// Names
// ---------------------------------------------------------------------------

/// Where the kind of a file was detected, its name ends with that extension,
/// whatever the address says.
pub proof fn detected_extensions_win(
    title: Option<Seq<char>>,
    url: Seq<char>,
    ext: Seq<char>,
)
    requires
        ext.len() > 0,
    ensures
        text::has_suffix(naming::suggested(title, url, Some(ext)), "."@ + ext),
{
    reveal_strlit(".");
    let r = naming::suggested(title, url, Some(ext));
    let base = r.take(r.len() - 1 - ext.len());
    assert(r =~= base + "."@ + ext);
    assert(r.skip(r.len() - (1 + ext.len())) =~= "."@ + ext);
}

/// Where a page has a usable title, the address adds nothing to the name but
/// its extension: with a detected extension, two addresses give one name, and
/// the name begins with the title.
pub proof fn titles_name_the_file(
    title: Seq<char>,
    url: Seq<char>,
    other: Seq<char>,
    ext: Seq<char>,
)
    requires
        naming::sanitized(title).len() > 0,
        ext.len() > 0,
    ensures
        naming::suggested(Some(title), url, Some(ext)) == naming::suggested(
            Some(title),
            other,
            Some(ext),
        ),
        naming::suggested(Some(title), url, Some(ext)) == naming::sanitized(title) + "."@ + ext,
        text::has_prefix(naming::suggested(Some(title), url, None), naming::sanitized(title)),
{
    let t = naming::sanitized(title);
    let r = naming::suggested(Some(title), url, None);
    assert(r.take(t.len() as int) =~= t);
}

proof fn lemma_one_piece(a: Seq<char>, sep: Seq<char>, b: Seq<char>, set: Seq<char>)
    requires
        sep.len() == 1,
        set.contains(sep[0]),
        text::free_of(b, set),
    ensures
        text::after_last(a + sep + b, set) == b,
        text::last_of(a + sep + b, set, (a + sep + b).len() as int) == a.len(),
{
    let s = a + sep + b;
    text::lemma_last_of(s, set, s.len() as int);
    let p = text::last_of(s, set, s.len() as int);
    assert(s[a.len() as int] == sep[0]);
    if p > a.len() {
        assert(s[p] == b[p - a.len() - 1]);
        assert(!set.contains(b[p - a.len() - 1]));
    }
    assert(p == a.len());
    assert(s.skip(p + 1) =~= b);
}

/// Without a title a file is named after the last part of its address,
/// whatever stands behind it in the query: the stem stays as it is, and the
/// extension is written in small letters.
pub proof fn addresses_name_the_file(
    dir: Seq<char>,
    stem: Seq<char>,
    ext: Seq<char>,
    query: Seq<char>,
)
    requires
        text::free_of(dir, "?#"@),
        text::free_of(stem, "/?#."@),
        text::free_of(ext, "/?#."@),
        stem.len() > 0,
        ext.len() > 0,
    ensures
        naming::suggested(None, dir + "/"@ + stem + "."@ + ext + "?"@ + query, None) == stem + "."@
            + text::lower(ext),
{
    reveal_strlit("/");
    reveal_strlit(".");
    reveal_strlit("?");
    reveal_strlit("..");
    reveal_strlit("?#");
    reveal_strlit("/?#.");
    let set = "/?#."@;
    assert(set[0] == '/' && set[1] == '?' && set[2] == '#' && set[3] == '.');
    assert("?#"@[0] == '?' && "?#"@[1] == '#' && "?#"@.len() == 2);
    assert("/"@[0] == '/' && "/"@.len() == 1 && "."@[0] == '.' && "."@.len() == 1);
    let name = stem + "."@ + ext;
    let front = dir + "/"@ + name;
    let url = dir + "/"@ + stem + "."@ + ext + "?"@ + query;
    assert(url =~= front + ("?"@ + query));
    assert forall|i: int| 0 <= i < name.len() implies #[trigger] name[i] != '/' && name[i] != '?'
        && name[i] != '#' by {
        if i < stem.len() {
            assert(name[i] == stem[i]);
            assert(!set.contains(stem[i]));
        } else if i > stem.len() {
            assert(name[i] == ext[i - stem.len() - 1]);
            assert(!set.contains(ext[i - stem.len() - 1]));
        }
    }
    assert(text::free_of(front, "?#"@)) by {
        assert forall|i: int| 0 <= i < front.len() implies !"?#"@.contains(#[trigger] front[i]) by {
            if i < dir.len() {
                assert(front[i] == dir[i]);
            } else if i > dir.len() {
                assert(front[i] == name[i - dir.len() - 1]);
            }
        }
    }
    assert(("?"@ + query)[0] == '?');
    text::lemma_first_behind(front, "?"@ + query, "?#"@);
    assert(text::before_first(url, "?#"@) =~= front);
    assert(text::free_of(name, "/"@)) by {
        assert forall|i: int| 0 <= i < name.len() implies !"/"@.contains(#[trigger] name[i]) by {}
    }
    lemma_one_piece(dir, "/"@, name, "/"@);
    assert(naming::url_filename(url) == name);
    // The name is a path of one part.
    let last = name.last();
    assert(last == ext.last());
    assert(ext.last() == ext[ext.len() - 1]);
    assert(!set.contains(ext[ext.len() - 1]));
    assert(last != '/' && last != '.');
    assert(paths::trimmed_path(name) == name);
    text::lemma_last_of(name, "/"@, name.len() as int);
    let q = text::last_of(name, "/"@, name.len() as int);
    if q >= 0 {
        assert("/"@.contains(name[q]));
    }
    assert(name.skip(0) =~= name);
    assert(paths::last_component(name) == name);
    assert(name.len() >= 3);
    assert(paths::file_name(name) == Some(name));
    assert(text::free_of(ext, "."@)) by {
        assert forall|i: int| 0 <= i < ext.len() implies !"."@.contains(#[trigger] ext[i]) by {
            assert(!set.contains(ext[i]));
        }
    }
    lemma_one_piece(stem, "."@, ext, "."@);
    assert(name.take(stem.len() as int) =~= stem);
    assert(name.skip((stem.len() + 1) as int) =~= ext);
    assert(text::lower(ext).len() > 0);
}

/// What follows a semicolon in a content type does not matter.
pub proof fn type_parameters_do_not_matter(kind: Seq<char>, parameter: Seq<char>, sample: Seq<u8>)
    requires
        text::free_of(kind, ";"@),
    ensures
        naming::response_extension(Some(kind + ";"@ + parameter), sample)
            == naming::response_extension(Some(kind), sample),
{
    reveal_strlit(";");
    assert(";"@[0] == ';');
    assert(kind + ";"@ + parameter =~= kind + (";"@ + parameter));
    text::lemma_first_behind(kind, ";"@ + parameter, ";"@);
    text::lemma_first_behind(kind, Seq::empty(), ";"@);
    assert(kind + Seq::<char>::empty() =~= kind);
    assert((kind + ";"@ + parameter).take(kind.len() as int) =~= kind);
    assert(kind.take(kind.len() as int) =~= kind);
}

/// Where the content type says what a file is, what the file begins with does
/// not matter; without a content type nothing else counts.
pub proof fn types_come_before_content(kind: Seq<char>, sample: Seq<u8>)
    ensures
        naming::response_extension(Some(kind), Seq::empty()) is Some
            ==> naming::response_extension(Some(kind), sample) == naming::response_extension(
            Some(kind),
            Seq::empty(),
        ),
        naming::response_extension(Some(kind), Seq::empty()) is None
            ==> naming::response_extension(Some(kind), sample) == naming::response_extension(
            None,
            sample,
        ),
{
    reveal_strlit("#EXTM3U");
    reveal_strlit("<MPD");
    reveal_strlit("ftyp");
    reveal_strlit("%PDF-");
    reveal_strlit("PNG");
    reveal_strlit("GIF87a");
    reveal_strlit("GIF89a");
    reveal_strlit("RIFF");
    reveal_strlit("OggS");
    reveal_strlit("fLaC");
    reveal_strlit("ID3");
    reveal_strlit("PK\u{3}\u{4}");
    assert(naming::sniffed(Seq::empty()) is None);
}

// ---------------------------------------------------------------------------
// Character references
// ---------------------------------------------------------------------------

proof fn lemma_first_moves(q: Seq<char>, s: Seq<char>, set: Seq<char>, from: int)
    requires
        0 <= from <= s.len(),
    ensures
        text::first_of(q + s, set, q.len() + from) == q.len() + text::first_of(s, set, from),
    decreases s.len() - from,
{
    if from < s.len() {
        assert((q + s)[q.len() + from] == s[from]);
        lemma_first_moves(q, s, set, from + 1);
    }
}

proof fn lemma_decoding_moves(q: Seq<char>, s: Seq<char>, from: int)
    requires
        0 <= from <= s.len(),
    ensures
        naming::decoded_from(q + s, q.len() + from) == naming::decoded_from(s, from),
    decreases s.len() - from,
{
    if from < s.len() {
        lemma_first_moves(q, s, ";"@, from);
        text::lemma_first_of(s, ";"@, from);
        let semi = text::first_of(s, ";"@, from);
        assert((q + s)[q.len() + from] == s[from]);
        if from < semi {
            assert((q + s).subrange(q.len() + from + 1, q.len() + semi) =~= s.subrange(
                from + 1,
                semi,
            ));
        }
        match naming::entity_at(s, from) {
            Some((c, next)) => {
                lemma_decoding_moves(q, s, next);
            },
            None => {},
        }
        lemma_decoding_moves(q, s, from + 1);
    }
}

/// A character that is no ampersand stands for itself.
pub proof fn plain_characters_stay(c: char, rest: Seq<char>)
    requires
        c != '&',
    ensures
        naming::decoded(seq![c] + rest) == seq![c] + naming::decoded(rest),
{
    let s = seq![c] + rest;
    assert(s[0] == c);
    lemma_decoding_moves(seq![c], rest, 0);
}

proof fn lemma_reference(name: Seq<char>, c: char, rest: Seq<char>)
    requires
        1 <= name.len() <= 9,
        text::free_of(name, ";"@),
        naming::entity(name) == Some(c),
    ensures
        naming::decoded(seq!['&'] + name + seq![';'] + rest) == seq![c] + naming::decoded(rest),
{
    reveal_strlit(";");
    assert(";"@[0] == ';');
    let head = seq!['&'] + name;
    let q = head + seq![';'];
    let s = seq!['&'] + name + seq![';'] + rest;
    assert(s =~= q + rest);
    assert(s =~= head + (seq![';'] + rest));
    assert(text::free_of(head, ";"@)) by {
        assert forall|i: int| 0 <= i < head.len() implies !";"@.contains(#[trigger] head[i]) by {
            if i > 0 {
                assert(head[i] == name[i - 1]);
            }
        }
    }
    assert((seq![';'] + rest)[0] == ';');
    text::lemma_first_behind(head, seq![';'] + rest, ";"@);
    assert(s.subrange(1, head.len() as int) =~= name);
    assert(s[0] == '&');
    lemma_decoding_moves(q, rest, 0);
    assert(q.len() == name.len() + 2);
}

/// `&amp;`, `&lt;`, `&gt;`, `&quot;`, `&apos;` and `&nbsp;` are read as the
/// characters they name, and what follows them is read on its own.
pub proof fn named_characters_are_read(rest: Seq<char>)
    ensures
        naming::decoded("&amp;"@ + rest) == seq!['&'] + naming::decoded(rest),
        naming::decoded("&lt;"@ + rest) == seq!['<'] + naming::decoded(rest),
        naming::decoded("&gt;"@ + rest) == seq!['>'] + naming::decoded(rest),
        naming::decoded("&quot;"@ + rest) == seq!['"'] + naming::decoded(rest),
        naming::decoded("&apos;"@ + rest) == seq!['\''] + naming::decoded(rest),
        naming::decoded("&nbsp;"@ + rest) == seq![' '] + naming::decoded(rest),
{
    reveal_strlit(";");
    reveal_strlit("amp");
    reveal_strlit("lt");
    reveal_strlit("gt");
    reveal_strlit("quot");
    reveal_strlit("apos");
    reveal_strlit("nbsp");
    reveal_strlit("&amp;");
    reveal_strlit("&lt;");
    reveal_strlit("&gt;");
    reveal_strlit("&quot;");
    reveal_strlit("&apos;");
    reveal_strlit("&nbsp;");
    assert("amp"@[0] == 'a' && "amp"@[1] == 'm' && "lt"@[0] == 'l' && "gt"@[0] == 'g');
    assert("quot"@[0] == 'q' && "apos"@[0] == 'a' && "apos"@[1] == 'p' && "nbsp"@[0] == 'n');
    lemma_reference("amp"@, '&', rest);
    lemma_reference("lt"@, '<', rest);
    lemma_reference("gt"@, '>', rest);
    lemma_reference("quot"@, '"', rest);
    lemma_reference("apos"@, '\'', rest);
    lemma_reference("nbsp"@, ' ', rest);
    assert("&amp;"@ =~= seq!['&'] + "amp"@ + seq![';']);
    assert("&lt;"@ =~= seq!['&'] + "lt"@ + seq![';']);
    assert("&gt;"@ =~= seq!['&'] + "gt"@ + seq![';']);
    assert("&quot;"@ =~= seq!['&'] + "quot"@ + seq![';']);
    assert("&apos;"@ =~= seq!['&'] + "apos"@ + seq![';']);
    assert("&nbsp;"@ =~= seq!['&'] + "nbsp"@ + seq![';']);
}

proof fn lemma_dec_short(n: nat)
    requires
        n < 10_000_000,
    ensures
        number::dec(n).len() <= 7,
{
    reveal_with_fuel(number::written, 8);
}

/// `&#` and a number is read as the character with that number.
pub proof fn numbered_characters_are_read(c: char, rest: Seq<char>)
    ensures
        naming::decoded("&#"@ + number::dec(c as nat) + ";"@ + rest) == seq![c] + naming::decoded(
            rest,
        ),
{
    reveal_strlit(";");
    reveal_strlit("&#");
    reveal_strlit("#");
    reveal_strlit("#x");
    reveal_strlit("#X");
    reveal_strlit("amp");
    reveal_strlit("lt");
    reveal_strlit("gt");
    reveal_strlit("quot");
    reveal_strlit("apos");
    reveal_strlit("nbsp");
    let n = c as nat;
    let d = number::dec(n);
    let name = "#"@ + d;
    number::lemma_dec_digits(n);
    number::written_number_reads_back(n, u32::MAX as nat);
    lemma_dec_short(n);
    assert(name[0] == '#');
    assert("amp"@[0] != '#' && "lt"@[0] != '#' && "gt"@[0] != '#' && "quot"@[0] != '#' && "apos"@[0]
        != '#' && "nbsp"@[0] != '#');
    assert(name.take(2)[1] == d[0]);
    assert(text::is_digit(d[0]));
    assert("#x"@[1] == 'x' && "#X"@[1] == 'X');
    assert(name.take(1) =~= "#"@);
    assert(name.skip(1) =~= d);
    assert(naming::entity(name) == Some(c));
    assert(text::free_of(name, ";"@)) by {
        assert forall|i: int| 0 <= i < name.len() implies !";"@.contains(#[trigger] name[i]) by {
            if i > 0 {
                assert(name[i] == d[i - 1]);
                assert(text::is_digit(d[i - 1]));
            }
        }
    }
    lemma_reference(name, c, rest);
    assert("&#"@ + d + ";"@ + rest =~= seq!['&'] + name + seq![';'] + rest);
}

// ---------------------------------------------------------------------------
// Headers
// ---------------------------------------------------------------------------

/// The value of a header is the first of the first header of that name,
/// however its name is written.
pub proof fn first_values_are_found(
    h: Seq<(Seq<char>, Seq<Seq<char>>)>,
    name: Seq<char>,
    i: int,
    from: int,
)
    requires
        0 <= from <= i < h.len(),
        text::lower(h[i].0) == text::lower(name),
        h[i].1.len() > 0,
        forall|j: int| from <= j < i ==> text::lower((#[trigger] h[j]).0) != text::lower(name),
    ensures
        headers::first_value(h, name, from) == Some(h[i].1[0]),
    decreases i - from,
{
    if from < i {
        assert(text::lower(h[from].0) != text::lower(name));
        first_values_are_found(h, name, i, from + 1);
    }
}

/// Without an agent of its own, a download sends every captured header, in
/// order and under its name, with its values joined by commas.
pub proof fn captured_headers_are_sent(h: Seq<(Seq<char>, Seq<Seq<char>>)>, i: int)
    requires
        0 <= i < h.len(),
    ensures
        headers::flattened(h, None).len() == h.len(),
        headers::flattened(h, None)[i].0 == h[i].0,
        h[i].1.len() == 1 ==> headers::flattened(h, None)[i].1 == h[i].1[0],
        h[i].1.len() == 2 ==> headers::flattened(h, None)[i].1 == h[i].1[0] + ", "@ + h[i].1[1],
{
    lemma_joined_all(h);
    let v = h[i].1;
    if v.len() == 2 {
        assert(v.drop_last() =~= seq![v[0]]);
        assert(text::join(v.drop_last(), ", "@) == v[0]);
        assert(v.last() == v[1]);
        assert(text::join(v, ", "@) == v[0] + ", "@ + v[1]);
    }
    assert(headers::joined(h, false)[i] == (h[i].0, text::join(h[i].1, ", "@)));
}

proof fn lemma_joined_all(h: Seq<(Seq<char>, Seq<Seq<char>>)>)
    ensures
        headers::joined(h, false).len() == h.len(),
        forall|i: int| 0 <= i < h.len() ==> #[trigger] headers::joined(h, false)[i] == (
            h[i].0,
            text::join(h[i].1, ", "@),
        ),
    decreases h.len(),
{
    if h.len() > 0 {
        lemma_joined_all(h.drop_last());
        assert forall|i: int| 0 <= i < h.len() implies #[trigger] headers::joined(h, false)[i] == (
            h[i].0,
            text::join(h[i].1, ", "@),
        ) by {
            if i < h.len() - 1 {
                assert(h.drop_last()[i] == h[i]);
                assert(headers::joined(h.drop_last(), false)[i] == (
                    h[i].0,
                    text::join(h[i].1, ", "@),
                ));
            }
        }
    }
}

/// Where a download brings an agent of its own, it is the last header, and
/// the captured ones but the agent go before it in order.
pub proof fn own_agents_are_sent(h: Seq<(Seq<char>, Seq<Seq<char>>)>, agent: Seq<char>)
    requires
        forall|i: int|
            0 <= i < h.len() ==> text::lower((#[trigger] h[i]).0) != text::lower("user-agent"@),
    ensures
        headers::flattened(h, Some(agent)) == headers::flattened(h, None).push(
            ("User-Agent"@, agent),
        ),
{
    lemma_joined_same(h);
}

proof fn lemma_joined_same(h: Seq<(Seq<char>, Seq<Seq<char>>)>)
    requires
        forall|i: int|
            0 <= i < h.len() ==> text::lower((#[trigger] h[i]).0) != text::lower("user-agent"@),
    ensures
        headers::joined(h, true) == headers::joined(h, false),
    decreases h.len(),
{
    if h.len() > 0 {
        let f = h.drop_last();
        assert forall|i: int| 0 <= i < f.len() implies text::lower((#[trigger] f[i]).0)
            != text::lower("user-agent"@) by {
            assert(f[i] == h[i]);
        }
        lemma_joined_same(f);
        assert(h[h.len() - 1] == h.last());
    }
}

proof fn lemma_scheme(scheme: Seq<char>, rest: Seq<char>)
    requires
        !scheme.contains(':'),
    ensures
        text::find(scheme + "://"@ + rest, "://"@, 0) == scheme.len(),
{
    reveal_strlit("://");
    let s = scheme + "://"@ + rest;
    let n = scheme.len() as int;
    text::lemma_find(s, "://"@, 0);
    assert(s.subrange(n, n + 3) =~= "://"@);
    assert(text::has_at(s, n, "://"@));
    let i = text::find(s, "://"@, 0);
    if 0 <= i < n {
        assert(s.subrange(i, i + 3)[0] == s[i]);
        assert(s[i] == scheme[i]);
        assert(scheme.contains(scheme[i]));
    }
}

/// The front page of an address is its scheme and its host, with a slash
/// behind: the path does not matter.
pub proof fn front_pages_are_the_hosts(scheme: Seq<char>, host: Seq<char>, path: Seq<char>)
    requires
        !scheme.contains(':'),
        !host.contains('/'),
    ensures
        headers::front_page(scheme + "://"@ + host + "/"@ + path) == scheme + "://"@ + host + "/"@,
        headers::front_page(scheme + "://"@ + host) == scheme + "://"@ + host + "/"@,
{
    reveal_strlit("://");
    reveal_strlit("/");
    assert("/"@[0] == '/');
    let tail = host + ("/"@ + path);
    assert(scheme + "://"@ + host + "/"@ + path =~= scheme + "://"@ + tail);
    lemma_scheme(scheme, tail);
    lemma_scheme(scheme, host);
    assert(text::free_of(host, "/"@)) by {
        assert forall|i: int| 0 <= i < host.len() implies !"/"@.contains(#[trigger] host[i]) by {
            assert(host.contains(host[i]));
        }
    }
    text::lemma_first_behind(host, "/"@ + path, "/"@);
    text::lemma_first_behind(host, Seq::empty(), "/"@);
    assert(host + Seq::<char>::empty() =~= host);
    let n = scheme.len() as int;
    let full = scheme + "://"@ + tail;
    let bare = scheme + "://"@ + host;
    assert(full.skip(n + 3) =~= tail);
    assert(bare.skip(n + 3) =~= host);
    assert(full.take(n) =~= scheme);
    assert(bare.take(n) =~= scheme);
    assert(tail.take(host.len() as int) =~= host);
    assert(host.take(host.len() as int) =~= host);
}

/// A download that brings no referer names the front page of its page; one
/// that does keeps its own, and one of no page adds none.
pub proof fn missing_referers_are_added(
    h: Seq<(Seq<char>, Seq<char>)>,
    scheme: Seq<char>,
    host: Seq<char>,
    path: Seq<char>,
    i: int,
)
    requires
        !scheme.contains(':'),
        !host.contains('/'),
    ensures
        headers::with_referer(h, None) == h,
        0 <= i < h.len() && text::lower(h[i].0) == text::lower("Referer"@)
            ==> headers::with_referer(h, Some(scheme + "://"@ + host + "/"@ + path)) == h,
        (forall|j: int|
            0 <= j < h.len() ==> text::lower((#[trigger] h[j]).0) != text::lower("Referer"@))
            ==> headers::with_referer(h, Some(scheme + "://"@ + host + "/"@ + path)) == h.push(
            ("Referer"@, scheme + "://"@ + host + "/"@),
        ),
{
    front_pages_are_the_hosts(scheme, host, path);
    if 0 <= i < h.len() && text::lower(h[i].0) == text::lower("Referer"@) {
        assert(headers::named(h[i].0, "Referer"@));
    }
}

/// Whether a header is one that the program that sends the request writes by
/// itself.
pub open spec fn is_own(name: Seq<char>) -> bool {
    let n = text::lower(name);
    n == "host"@ || n == "accept-encoding"@ || n == "connection"@ || n == "content-length"@
}

/// The headers that are handed over in one text are a line each, ended by a
/// carriage return and a line feed, without those that the program writes by
/// itself; a cookie goes last.
pub proof fn header_texts_hold_a_line_each(
    h: Seq<(Seq<char>, Seq<char>)>,
    name: Seq<char>,
    value: Seq<char>,
    cookie: Seq<char>,
)
    ensures
        headers::header_text(Seq::empty(), None) == Seq::<char>::empty(),
        is_own(name) ==> headers::header_text(h.push((name, value)), None) == headers::header_text(
            h,
            None,
        ),
        !is_own(name) ==> headers::header_text(h.push((name, value)), None) == headers::header_text(
            h,
            None,
        ) + name + ": "@ + value + "\r\n"@,
        headers::header_text(h, Some(cookie)) == headers::header_text(h, None) + "Cookie: "@ + cookie
            + "\r\n"@,
{
    let all = h.push((name, value));
    assert(all.drop_last() =~= h);
    assert(all.last() == (name, value));
    let own = headers::own_headers();
    assert(own[0] == "host"@ && own[1] == "accept-encoding"@ && own[2] == "connection"@ && own[3]
        == "content-length"@ && own.len() == 4);
    assert(own.contains(text::lower(name)) == is_own(name)) by {
        if is_own(name) {
            let n = text::lower(name);
            if n == "host"@ {
                assert(own.contains(own[0]));
            } else if n == "accept-encoding"@ {
                assert(own.contains(own[1]));
            } else if n == "connection"@ {
                assert(own.contains(own[2]));
            } else {
                assert(own.contains(own[3]));
            }
        }
    }
}

// ---------------------------------------------------------------------------
// Hosts and sizes
// ---------------------------------------------------------------------------

/// The host of an address stands between the name of the one who asks and the
/// port, in small letters.
pub proof fn hosts_are_found(
    scheme: Seq<char>,
    user: Seq<char>,
    host: Seq<char>,
    port: Seq<char>,
    path: Seq<char>,
)
    requires
        !scheme.contains(':'),
        text::free_of(user, "/?#@"@),
        text::free_of(host, "/?#@:"@),
        text::free_of(port, "/?#@:"@),
    ensures
        urls::host_in(scheme + "://"@ + user + "@"@ + host + ":"@ + port + "/"@ + path) == Some(
            text::lower(host),
        ),
        urls::host_in(scheme + "://"@ + host + "/"@ + path) == Some(text::lower(host)),
{
    let a = user + "@"@ + host + ":"@ + port;
    lemma_authority_free(user, host, port);
    lemma_host_of(scheme, a, path, host);
    assert(scheme + "://"@ + a + "/"@ + path =~= scheme + "://"@ + user + "@"@ + host + ":"@ + port
        + "/"@ + path);
    lemma_host_of(scheme, host, path, host);
}

proof fn lemma_authority_free(user: Seq<char>, host: Seq<char>, port: Seq<char>)
    requires
        text::free_of(user, "/?#@"@),
        text::free_of(host, "/?#@:"@),
        text::free_of(port, "/?#@:"@),
    ensures
        text::free_of(user + "@"@ + host + ":"@ + port, "/?#"@),
        text::before_first(text::after_last(user + "@"@ + host + ":"@ + port, "@"@), ":"@) == host,
        text::free_of(host, "/?#"@),
        text::before_first(text::after_last(host, "@"@), ":"@) == host,
{
    reveal_strlit("@");
    reveal_strlit(":");
    reveal_strlit("/?#");
    reveal_strlit("/?#@");
    reveal_strlit("/?#@:");
    let four = "/?#@"@;
    let five = "/?#@:"@;
    let three = "/?#"@;
    assert(three[0] == '/' && three[1] == '?' && three[2] == '#' && three.len() == 3);
    assert(four[0] == '/' && four[1] == '?' && four[2] == '#' && four[3] == '@');
    assert(five[0] == '/' && five[1] == '?' && five[2] == '#' && five[3] == '@' && five[4] == ':');
    assert("@"@[0] == '@' && "@"@.len() == 1 && ":"@[0] == ':' && ":"@.len() == 1);
    assert forall|c: char| three.contains(c) implies four.contains(c) && five.contains(c) by {
        let k = choose|k: int| 0 <= k < three.len() && three[k] == c;
        assert(four[k] == c && five[k] == c);
    }
    let a = user + "@"@ + host + ":"@ + port;
    assert forall|i: int| 0 <= i < a.len() implies !three.contains(#[trigger] a[i]) by {
        if i < user.len() {
            assert(a[i] == user[i]);
        } else if user.len() < i < user.len() + 1 + host.len() {
            assert(a[i] == host[i - user.len() - 1]);
        } else if i > user.len() + 1 + host.len() {
            assert(a[i] == port[i - user.len() - host.len() - 2]);
        }
    }
    let b = host + ":"@ + port;
    assert(a =~= user + "@"@ + b);
    assert forall|i: int| 0 <= i < b.len() implies !"@"@.contains(#[trigger] b[i]) by {
        if i < host.len() {
            assert(b[i] == host[i]);
            assert(!five.contains(host[i]));
        } else if i > host.len() {
            assert(b[i] == port[i - host.len() - 1]);
            assert(!five.contains(port[i - host.len() - 1]));
        }
    }
    lemma_one_piece(user, "@"@, b, "@"@);
    assert forall|i: int| 0 <= i < host.len() implies !":"@.contains(#[trigger] host[i])
        && !"@"@.contains(host[i]) by {
        assert(!five.contains(host[i]));
    }
    assert(b =~= host + (":"@ + port));
    text::lemma_first_behind(host, ":"@ + port, ":"@);
    assert(b.take(host.len() as int) =~= host);
    text::lemma_last_of(host, "@"@, host.len() as int);
    let p = text::last_of(host, "@"@, host.len() as int);
    if p >= 0 {
        assert("@"@.contains(host[p]));
    }
    assert(host.skip(0) =~= host);
    text::lemma_first_behind(host, Seq::empty(), ":"@);
    assert(host + Seq::<char>::empty() =~= host);
    assert(host.take(host.len() as int) =~= host);
}

proof fn lemma_host_of(
    scheme: Seq<char>,
    authority: Seq<char>,
    path: Seq<char>,
    host: Seq<char>,
)
    requires
        !scheme.contains(':'),
        text::free_of(authority, "/?#"@),
        text::before_first(text::after_last(authority, "@"@), ":"@) == host,
    ensures
        urls::host_in(scheme + "://"@ + authority + "/"@ + path) == Some(text::lower(host)),
{
    reveal_strlit("://");
    reveal_strlit("/");
    reveal_strlit("/?#");
    assert("/?#"@[0] == '/');
    let tail = authority + ("/"@ + path);
    let url = scheme + "://"@ + authority + "/"@ + path;
    assert(url =~= scheme + "://"@ + tail);
    lemma_scheme(scheme, tail);
    let n = scheme.len() as int;
    assert(url.subrange(n, n + 3) =~= "://"@);
    assert(text::has_at(url, n, "://"@));
    assert(url.skip(n + 3) =~= tail);
    assert(("/"@ + path)[0] == '/');
    text::lemma_first_behind(authority, "/"@ + path, "/?#"@);
    assert(tail.take(authority.len() as int) =~= authority);
}

/// A host is in its own domain and in those above it, and in no other whose
/// name merely ends with the same letters.
pub proof fn domains_end_at_a_dot(front: Seq<char>, domain: Seq<char>)
    requires
        domain.len() > 0,
        text::lower(domain) == domain,
        domain[0] != '.',
        !text::is_space(domain[0]),
        !text::is_space(domain.last()),
    ensures
        urls::in_domain(domain, domain),
        urls::in_domain(front + "."@ + domain, domain),
        front.len() > 0 && front.last() != '.' ==> !urls::in_domain(front + domain, domain),
{
    reveal_strlit(".");
    assert("."@[0] == '.' && "."@.len() == 1);
    assert(text::trim(domain) == domain);
    assert(!"."@.contains(domain[0]));
    assert(text::trim_start_set(domain, "."@) == domain);
    let under = front + "."@ + domain;
    assert(under.skip(front.len() as int) =~= "."@ + domain);
    assert(under.len() - (1 + domain.len()) == front.len());
    let beside = front + domain;
    if front.len() > 0 && front.last() != '.' {
        let k = front.len() - 1;
        let tail = beside.skip(beside.len() - (1 + domain.len()));
        assert(tail[0] == front[k as int]);
        assert(("."@ + domain)[0] == '.');
        assert(beside.len() != domain.len());
    }
}

/// A size that is offered as a label is read back as the same size.
pub proof fn sizes_are_read_back(w: u32, h: u32)
    ensures
        quality::resolution_of(quality::size_text(w as nat, h as nat)) == Some((w, h)),
{
    reveal_strlit("x");
    assert("x"@[0] == 'x' && "x"@.len() == 1);
    let a = number::dec(w as nat);
    let b = number::dec(h as nat);
    number::lemma_dec_digits(w as nat);
    number::lemma_dec_digits(h as nat);
    number::written_number_reads_back(w as nat, u32::MAX as nat);
    number::written_number_reads_back(h as nat, u32::MAX as nat);
    let s = quality::size_text(w as nat, h as nat);
    assert(s =~= a + ("x"@ + b));
    assert(text::free_of(a, "x"@)) by {
        assert forall|i: int| 0 <= i < a.len() implies !"x"@.contains(#[trigger] a[i]) by {
            assert(text::is_digit(a[i]));
        }
    }
    text::lemma_first_behind(a, "x"@ + b, "x"@);
    assert(s.take(a.len() as int) =~= a);
    assert(s.skip((a.len() + 1) as int) =~= b);
}

/// A variant is offered under the size and the bandwidth that it states, and
/// asked for by that bandwidth.
pub proof fn variants_are_offered_as_stated(
    attrs: Map<Seq<char>, Seq<char>>,
    w: u32,
    h: u32,
    bandwidth: u64,
)
    requires
        attrs.dom().contains("RESOLUTION"@),
        attrs["RESOLUTION"@] == quality::size_text(w as nat, h as nat),
        attrs.dom().contains("BANDWIDTH"@),
        attrs["BANDWIDTH"@] == number::dec(bandwidth as nat),
    ensures
        quality::hls_option(attrs).resolution == Some((w, h)),
        quality::hls_option(attrs).bandwidth == bandwidth,
        quality::hls_option(attrs).label == quality::size_text(w as nat, h as nat),
        quality::hls_option(attrs).variant_key == number::dec(bandwidth as nat),
{
    sizes_are_read_back(w, h);
    number::written_number_reads_back(bandwidth as nat, u64::MAX as nat);
}

/// A pair of tracks is offered under the size of its video, and the bandwidth
/// of both together.
pub proof fn tracks_are_offered_together(
    video: crate::dash::RepresentationView,
    audio: crate::dash::RepresentationView,
)
    requires
        video.width > 0,
        video.height > 0,
        0 < video.bandwidth < 0x1_0000_0000,
        0 < audio.bandwidth < 0x1_0000_0000,
    ensures
        ({
            let o = quality::dash_option((Some(video), Some(audio)));
            let b = (video.bandwidth + audio.bandwidth) as nat;
            &&& o.resolution == Some((video.width as u32, video.height as u32))
            &&& o.label == quality::size_text(video.width as nat, video.height as nat)
            &&& o.bandwidth == b
            &&& o.variant_key == quality::size_text(video.width as nat, video.height as nat) + "-"@
                + number::dec(b)
        }),
        quality::dash_option((None, Some(audio))).resolution is None,
        quality::dash_option((None, Some(audio))).variant_key == number::dec(audio.bandwidth as nat),
{
}

/// A request that names no program of its own goes out under the usual one, and
/// one that does keeps it.
pub proof fn missing_agents_are_added(h: Seq<(Seq<char>, Seq<char>)>, i: int)
    ensures
        0 <= i < h.len() && text::lower(h[i].0) == text::lower("User-Agent"@)
            ==> headers::with_agent(h) == h,
        (forall|j: int|
            0 <= j < h.len() ==> text::lower((#[trigger] h[j]).0) != text::lower("User-Agent"@))
            ==> headers::with_agent(h) == h.push(("User-Agent"@, headers::FALLBACK_UA@)),
{
    if 0 <= i < h.len() && text::lower(h[i].0) == text::lower("User-Agent"@) {
        assert(headers::named(h[i].0, "User-Agent"@));
    }
}

// ---------------------------------------------------------------------------
// Clean names
// ---------------------------------------------------------------------------

/// A word that a file name can hold as it is.
pub open spec fn is_clean(w: Seq<char>) -> bool {
    &&& w.len() > 0
    &&& w[0] != '.' && w.last() != '.'
    &&& forall|i: int|
        0 <= i < w.len() ==> #[trigger] w[i] != '&' && !naming::is_illegal(w[i]) && !text::is_space(
            w[i],
        )
}

proof fn lemma_space_at(s: Seq<char>, from: int, to: int, want: bool)
    requires
        0 <= from <= to <= s.len(),
        forall|j: int| from <= j < to ==> text::is_space(#[trigger] s[j]) != want,
        to < s.len() ==> text::is_space(s[to]) == want,
    ensures
        text::next_space(s, from, want) == to,
    decreases to - from,
{
    if from < to {
        assert(text::is_space(s[from]) != want);
        lemma_space_at(s, from + 1, to, want);
    }
}

proof fn lemma_nothing_decoded(s: Seq<char>)
    requires
        !s.contains('&'),
    ensures
        naming::decoded(s) == s,
    decreases s.len(),
{
    if s.len() > 0 {
        let rest = s.skip(1);
        assert(s.contains(s[0]));
        assert(!rest.contains('&')) by {
            if rest.contains('&') {
                let i = choose|i: int| 0 <= i < rest.len() && rest[i] == '&';
                assert(s[i + 1] == '&');
            }
        }
        lemma_nothing_decoded(rest);
        plain_characters_stay(s[0], rest);
        assert(seq![s[0]] + rest =~= s);
    } else {
        assert(naming::decoded(s) =~= s);
    }
}

/// A title that is clean already names the file as it is.
pub proof fn clean_titles_stay(w: Seq<char>)
    requires
        is_clean(w),
        w.len() <= 150,
    ensures
        naming::sanitized(w) == w,
{
    reveal_strlit(".");
    assert("."@.len() == 1 && "."@[0] == '.');
    assert(!w.contains('&')) by {
        if w.contains('&') {
            let i = choose|i: int| 0 <= i < w.len() && w[i] == '&';
            assert(w[i] != '&');
        }
    }
    lemma_nothing_decoded(w);
    assert forall|i: int| 0 <= i < w.len() implies naming::legal(w)[i] == w[i] by {
        assert(!naming::is_illegal(w[i]));
    }
    assert(naming::legal(w) =~= w);
    let n = w.len() as int;
    lemma_space_at(w, 0, 0, false);
    lemma_space_at(w, 0, n, true);
    lemma_space_at(w, n, n, false);
    lemma_space_at(w, n, n, true);
    assert(text::words_from(w, n) =~= Seq::<Seq<char>>::empty());
    assert(w.subrange(0, n) =~= w);
    assert(text::words(w) =~= seq![w]);
    assert(text::join(seq![w], " "@) == w);
    assert(!text::is_space(w[0]) && !text::is_space(w[n - 1]));
    assert(!"."@.contains(w[0]) && !"."@.contains(w.last()));
    assert(text::trim_set(w, "."@) == w);
    assert(text::trim(w) == w);
}

/// A character that no file name can hold becomes a blank between what stands
/// around it.
pub proof fn illegal_characters_become_blanks(a: Seq<char>, c: char, b: Seq<char>)
    requires
        is_clean(a),
        is_clean(b),
        naming::is_illegal(c),
        a.len() + b.len() < 150,
    ensures
        naming::sanitized(a + seq![c] + b) == a + " "@ + b,
{
    reveal_strlit(".");
    reveal_strlit(" ");
    assert("."@.len() == 1 && "."@[0] == '.' && " "@.len() == 1 && " "@[0] == ' ');
    let s = a + seq![c] + b;
    let t = a + " "@ + b;
    let k = a.len() as int;
    let n = t.len() as int;
    assert(!s.contains('&')) by {
        if s.contains('&') {
            let i = choose|i: int| 0 <= i < s.len() && s[i] == '&';
            if i < k {
                assert(s[i] == a[i]);
            } else if i > k {
                assert(s[i] == b[i - k - 1]);
            }
        }
    }
    lemma_nothing_decoded(s);
    assert forall|i: int| 0 <= i < s.len() implies naming::legal(s)[i] == t[i] by {
        if i < k {
            assert(s[i] == a[i]);
            assert(t[i] == a[i]);
        } else if i > k {
            assert(s[i] == b[i - k - 1]);
            assert(t[i] == b[i - k - 1]);
        }
    }
    assert(naming::legal(s) =~= t);
    assert forall|i: int| 0 <= i < n && i != k implies !text::is_space(#[trigger] t[i]) by {
        if i < k {
            assert(t[i] == a[i]);
        } else {
            assert(t[i] == b[i - k - 1]);
        }
    }
    assert(t[k] == ' ');
    lemma_space_at(t, 0, 0, false);
    lemma_space_at(t, 0, k, true);
    lemma_space_at(t, k, k + 1, false);
    lemma_space_at(t, k + 1, n, true);
    lemma_space_at(t, n, n, false);
    lemma_space_at(t, n, n, true);
    assert(t.subrange(0, k) =~= a);
    assert(t.subrange(k + 1, n) =~= b);
    assert(text::words_from(t, n) =~= Seq::<Seq<char>>::empty());
    assert(text::words_from(t, k) =~= seq![b]);
    assert(text::words(t) =~= seq![a, b]);
    let both = seq![a, b];
    assert(both.drop_last() =~= seq![a]);
    assert(text::join(seq![a], " "@) == a);
    assert(text::join(both, " "@) == t);
    assert(t[0] == a[0] && t.last() == b.last());
    assert(b.last() == b[b.len() - 1]);
    assert(!"."@.contains(t[0]) && !"."@.contains(t.last()));
    assert(text::trim_set(t, "."@) == t);
    assert(text::trim(t) == t);
}

// ---------------------------------------------------------------------------
// Hexadecimal numbers
// ---------------------------------------------------------------------------

/// A number that is written in hexadecimal digits is read back as the same
/// number.
pub proof fn hexadecimal_reads_back(n: nat)
    ensures
        number::all_hex(number::written(n, 16)),
        number::hex_value(number::written(n, 16)) == n,
        number::written(n, 16).len() > 0,
    decreases n,
{
    let w = number::written(n, 16);
    if n < 16 {
        let c = number::digit_char(n as int);
        assert(w =~= seq![c]);
        assert(number::hex_digit(c) == Some(n as int));
        assert(w.drop_last() =~= Seq::<char>::empty());
        assert(number::hex_value(Seq::<char>::empty()) == 0);
        assert forall|i: int| 0 <= i < w.len() implies number::hex_digit(#[trigger] w[i]) is Some by {}
    } else {
        hexadecimal_reads_back(n / 16);
        let front = number::written(n / 16, 16);
        let c = number::digit_char((n % 16) as int);
        assert(w =~= front.push(c));
        assert(number::hex_digit(c) == Some((n % 16) as int));
        assert(w.drop_last() =~= front);
        assert(w.last() == c);
        assert forall|i: int| 0 <= i < w.len() implies number::hex_digit(#[trigger] w[i]) is Some by {
            if i < front.len() {
                assert(w[i] == front[i]);
            }
        }
        assert((n / 16) * 16 + n % 16 == n);
    }
}

} // verus!

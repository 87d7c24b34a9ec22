//! What the addresses of pages and of media say by themselves.

use vstd::prelude::*;
use vstd::slice::slice_subrange;

use crate::cookies;
use crate::cookies::longer_than;
use crate::ig_library::{CaughtView, IgCaught};
use crate::number;
use crate::text;
use crate::text::{
    ascii_alnum, cat2, cat3, chars_of, contains, copy_chars, cut_after_last, cut_before_first,
    digit, ends_with, find_str, is, join_chars, one_of, same_ignoring_case, second_piece_of,
    split_all, split_at_first, split_filled, starts_with, str_eq, string_of, strip_suffix, to_lower,
    trimmed,
};
use crate::yt_library;
use crate::yt_library::{VideoView, YtCaught, write_bare_host};

verus! {

// ---------------------------------------------------------------------------
// Types of media
// ---------------------------------------------------------------------------

/// What stands before the parameters of a content type, in lower case.
pub open spec fn essence(ct: Seq<char>) -> Seq<char> {
    text::lower(text::trim(text::before_first(ct, ";"@)))
}

/// The kind of media of a content type.
pub open spec fn kind_of_type(ct: Option<Seq<char>>) -> Option<Seq<char>> {
    match ct {
        None => None,
        Some(raw) => {
            let e = essence(raw);
            if text::has_prefix(e, "image/"@) {
                Some("image"@)
            } else if text::holds(e, "mpegurl"@) {
                Some("hls"@)
            } else if text::holds(e, "dash+xml"@) || text::holds(e, "ms-sstr+xml"@) {
                Some("dash"@)
            } else if text::has_prefix(e, "video/"@) {
                Some("video"@)
            } else if text::has_prefix(e, "audio/"@) {
                Some("audio"@)
            } else if text::holds(e, "pdf"@) {
                Some("doc"@)
            } else {
                None
            }
        },
    }
}

/// Writes what stands before the parameters of a content type, in lower case.
pub fn write_essence(ct: &str) -> (r: Vec<char>)
    ensures
        r@ == essence(ct@),
{
    let cs = chars_of(ct);
    to_lower(trimmed(cut_before_first(cs.as_slice(), ";")))
}

/// The kind of media of a content type: `image`, `hls`, `dash`, `video`, `audio` or
/// `doc`.
pub fn kind_from_content_type(ct: Option<&str>) -> (r: Option<&'static str>)
    ensures
        text::opt_str(r) == kind_of_type(text::opt_str(ct)),
{
    match ct {
        None => None,
        Some(raw) => {
            let e = write_essence(raw);
            let e = e.as_slice();
            if starts_with(e, "image/") {
                Some("image")
            } else if contains(e, "mpegurl") {
                Some("hls")
            } else if contains(e, "dash+xml") || contains(e, "ms-sstr+xml") {
                Some("dash")
            } else if starts_with(e, "video/") {
                Some("video")
            } else if starts_with(e, "audio/") {
                Some("audio")
            } else if contains(e, "pdf") {
                Some("doc")
            } else {
                None
            }
        },
    }
}

/// What stands after the last dot of an address, without its query and fragment.
pub open spec fn url_extension(url: Seq<char>) -> Seq<char> {
    text::after_last(text::before_first(url, "?#"@), "."@)
}

/// Whether the path of an address ends in an extension, whatever the case.
pub open spec fn has_extension(url: Seq<char>, ext: Seq<char>) -> bool {
    text::lower(url_extension(url)) == text::lower(ext)
}

/// Tells whether the path of an address ends in an extension, whatever the case.
pub fn url_ends_with(url: &str, ext: &str) -> (r: bool)
    ensures
        r == has_extension(url@, ext@),
{
    let cs = chars_of(url);
    same_ignoring_case(cut_after_last(cut_before_first(cs.as_slice(), "?#"), "."), ext)
}

/// The extensions of images.
pub open spec fn image_exts() -> Seq<Seq<char>> {
    seq!["jpg"@, "jpeg"@, "png"@, "gif"@, "webp"@, "bmp"@, "svg"@, "avif"@]
}

/// Whether an address ends as that of an image does.
pub fn url_looks_like_image(url: &str) -> (r: bool)
    ensures
        r == image_exts().contains(text::lower(url_extension(url@))),
{
    let cs = chars_of(url);
    let ext = to_lower(cut_after_last(cut_before_first(cs.as_slice(), "?#"), "."));
    let list: Vec<&str> = vec!["jpg", "jpeg", "png", "gif", "webp", "bmp", "svg", "avif"];
    assert(text::str_texts(list@) =~= image_exts());
    one_of(ext.as_slice(), &list)
}

/// Whether the content type or, failing that, the address is that of an image.
pub open spec fn is_image(ct: Option<Seq<char>>, url: Seq<char>) -> bool {
    ||| ct matches Some(c) && text::has_prefix(text::lower(text::trim(c)), "image/"@)
    ||| image_exts().contains(text::lower(url_extension(url)))
}

/// Tells whether the content type or, failing that, the address is that of an image.
pub fn looks_like_image(content_type: Option<&str>, url: &str) -> (r: bool)
    ensures
        r == is_image(text::opt_str(content_type), url@),
{
    let by_type = match content_type {
        Some(c) => {
            let cs = chars_of(c);
            let low = to_lower(trimmed(cs.as_slice()));
            starts_with(low.as_slice(), "image/")
        },
        None => false,
    };
    by_type || url_looks_like_image(url)
}

/// Whether a PDF is served: by its type, or by its address where the type says
/// nothing.
pub open spec fn serves_pdf(ct: Seq<char>, url: Seq<char>) -> bool {
    ||| ct == "application/pdf"@
    ||| (ct == "application/octet-stream"@ || ct == ""@) && has_extension(url, "pdf"@)
}

/// Tells whether a PDF is served.
pub fn is_pdf(content_type: &str, url: &str) -> (r: bool)
    ensures
        r == serves_pdf(content_type@, url@),
{
    str_eq(content_type, "application/pdf") || ((str_eq(content_type, "application/octet-stream")
        || str_eq(content_type, "")) && url_ends_with(url, "pdf"))
}

// ---------------------------------------------------------------------------
// Hosts of pages
// ---------------------------------------------------------------------------

/// The host of an address in lower case, without its port.
pub open spec fn page_host(url: Seq<char>) -> Option<Seq<char>> {
    let i = text::find(url, "://"@, 0);
    if i < 0 {
        None
    } else {
        let authority = text::before_first(url.skip(i + "://"@.len()), "/?#"@);
        Some(text::lower(text::before_first(authority, ":"@)))
    }
}

/// Whether a host is one of a list, or below one of them.
pub open spec fn below_any(host: Seq<char>, hosts: Seq<Seq<char>>) -> bool {
    exists|i: int|
        0 <= i < hosts.len() && (host == #[trigger] hosts[i] || text::has_suffix(
            host,
            "."@ + hosts[i],
        ))
}

/// Whether a page is on one of the hosts.
pub open spec fn on_hosts(url: Seq<char>, hosts: Seq<Seq<char>>) -> bool {
    page_host(url) matches Some(h) && below_any(h, hosts)
}

/// Tells whether a page is on one of the hosts.
pub fn is_page_host(url: &str, page_hosts: &Vec<String>) -> (r: bool)
    ensures
        r == on_hosts(url@, text::texts(page_hosts@)),
{
    let cs = chars_of(url);
    let n: usize = chars_of("://").len();
    let host = match find_str(cs.as_slice(), "://") {
        None => {
            return false;
        },
        Some(i) => {
            let rest = slice_subrange(cs.as_slice(), i + n, cs.len());
            assert(rest@ =~= cs@.skip(i + n));
            to_lower(cut_before_first(cut_before_first(rest, "/?#"), ":"))
        },
    };
    let ghost all = text::texts(page_hosts@);
    let mut i: usize = 0;
    while i < page_hosts.len()
        invariant
            i <= page_hosts.len(),
            all == text::texts(page_hosts@),
            page_host(url@) == Some(host@),
            forall|j: int|
                0 <= j < i ==> !(host@ == #[trigger] all[j] || text::has_suffix(
                    host@,
                    "."@ + all[j],
                )),
        decreases page_hosts.len() - i,
    {
        let h = page_hosts[i].as_str();
        assert(all[i as int] == h@);
        if is(host.as_slice(), h) || ends_with(host.as_slice(), cat2(".", h).as_str()) {
            assert(below_any(host@, all));
            return true;
        }
        i += 1;
    }
    false
}

// ---------------------------------------------------------------------------
// One address for one page
// ---------------------------------------------------------------------------

/// Names of parameters that say nothing of what a page shows.
pub open spec fn idle_names() -> Seq<Seq<char>> {
    seq![
        "img_index"@,
        "igsh"@,
        "igshid"@,
        "hl"@,
        "si"@,
        "feature"@,
        "fbclid"@,
        "ref_src"@,
        "ref_url"@,
        "source"@,
        "_r"@,
    ]
}

/// Whether a parameter says what a page shows.
pub open spec fn tells(p: Seq<char>) -> bool {
    let k = text::lower(text::before_first(p, "="@));
    &&& p.len() > 0
    &&& !text::has_prefix(k, "utm_"@)
    &&& !text::has_prefix(k, "__"@)
    &&& !idle_names().contains(k)
}

/// The parameters that say what a page shows.
pub open spec fn telling(s: Seq<Seq<char>>) -> Seq<Seq<char>>
    decreases s.len(),
{
    if s.len() == 0 {
        s
    } else if tells(s.last()) {
        telling(s.drop_last()).push(s.last())
    } else {
        telling(s.drop_last())
    }
}

/// Without one slash at the end.
pub open spec fn without_slash(s: Seq<char>) -> Seq<char> {
    if text::has_suffix(s, "/"@) {
        s.take(s.len() - "/"@.len())
    } else {
        s
    }
}

/// The address of a page with some of its parameters.
pub open spec fn with_params(base: Seq<char>, kept: Seq<Seq<char>>) -> Seq<char> {
    if kept.len() == 0 {
        base
    } else {
        base + "?"@ + text::join(kept, "&"@)
    }
}

/// The address that stands for a page: without its fragment, without parameters that
/// say nothing of what it shows, and without a slash at the end of its path.
pub open spec fn canonical(raw: Seq<char>) -> Seq<char> {
    let s = text::before_first(raw, "#"@);
    match text::split_once(s, "?"@) {
        Some((base, query)) => with_params(
            without_slash(base),
            telling(text::split(query, "&"@)),
        ),
        None => without_slash(s),
    }
}

fn is_telling(p: &[char]) -> (r: bool)
    ensures
        r == tells(p@),
{
    if p.len() == 0 {
        return false;
    }
    let k = to_lower(cut_before_first(p, "="));
    let list: Vec<&str> = vec![
        "img_index", "igsh", "igshid", "hl", "si", "feature", "fbclid", "ref_src", "ref_url",
        "source", "_r",
    ];
    assert(text::str_texts(list@) =~= idle_names());
    !starts_with(k.as_slice(), "utm_") && !starts_with(k.as_slice(), "__") && !one_of(
        k.as_slice(),
        &list,
    )
}

fn cut_slash<'a>(s: &'a [char]) -> (r: &'a [char])
    ensures
        r@ == without_slash(s@),
{
    match strip_suffix(s, "/") {
        Some(x) => x,
        None => s,
    }
}

fn telling_params(query: &[char]) -> (r: Vec<Vec<char>>)
    ensures
        text::views(r@) == telling(text::split(query@, "&"@)),
{
    let pieces = split_all(query, "&");
    let ghost all = text::views(pieces@);
    let mut out: Vec<Vec<char>> = Vec::new();
    let mut i: usize = 0;
    assert(all.take(0) =~= Seq::empty());
    assert(text::views(out@) =~= Seq::empty());
    while i < pieces.len()
        invariant
            i <= pieces.len(),
            all == text::views(pieces@),
            text::views(out@) == telling(all.take(i as int)),
        decreases pieces.len() - i,
    {
        let ghost before = text::views(out@);
        proof {
            let next = all.take(i + 1);
            assert(next.drop_last() =~= all.take(i as int));
            assert(next.last() == pieces@[i as int]@);
        }
        if is_telling(pieces[i].as_slice()) {
            let piece = copy_chars(pieces[i].as_slice());
            let ghost shown = piece@;
            out.push(piece);
            assert(text::views(out@) =~= before.push(shown));
        }
        i += 1;
    }
    assert(all.take(all.len() as int) =~= all);
    out
}

/// Writes the address that stands for a page.
pub fn canonical_page_url(raw: &str) -> (r: String)
    ensures
        r@ == canonical(raw@),
{
    let cs = chars_of(raw);
    let s = cut_before_first(cs.as_slice(), "#");
    match split_at_first(s, "?") {
        Some((base, query)) => {
            let base = cut_slash(base);
            let kept = telling_params(query);
            if kept.len() == 0 {
                string_of(base)
            } else {
                let b = string_of(base);
                let q = string_of(join_chars(&kept, "&").as_slice());
                cat3(b.as_str(), "?", q.as_str())
            }
        },
        None => string_of(cut_slash(s)),
    }
}

proof fn lemma_marks()
    ensures
        "#"@ == seq!['#'],
        "?"@ == seq!['?'],
        "&"@ == seq!['&'],
        "/"@ == seq!['/'],
        "="@ == seq!['='],
{
    reveal_strlit("#");
    reveal_strlit("?");
    reveal_strlit("&");
    reveal_strlit("/");
    reveal_strlit("=");
    assert("#"@ =~= seq!['#']);
    assert("?"@ =~= seq!['?']);
    assert("&"@ =~= seq!['&']);
    assert("/"@ =~= seq!['/']);
    assert("="@ =~= seq!['=']);
}

/// A fragment does not change which page an address stands for.
pub proof fn fragments_do_not_matter(raw: Seq<char>, fragment: Seq<char>)
    requires
        text::free_of(raw, "#"@),
    ensures
        canonical(raw + "#"@ + fragment) == canonical(raw),
{
    lemma_marks();
    let t = "#"@ + fragment;
    assert(t[0] == '#');
    assert("#"@.contains('#')) by {
        assert("#"@[0] == '#');
    }
    text::lemma_first_behind(raw, t, "#"@);
    text::lemma_first_behind(raw, Seq::empty(), "#"@);
    assert(raw + "#"@ + fragment =~= raw + t);
    assert(raw + Seq::<char>::empty() =~= raw);
    assert((raw + t).take(raw.len() as int) =~= raw);
    assert(raw.take(raw.len() as int) =~= raw);
}

proof fn lemma_canonical_query(base: Seq<char>, query: Seq<char>)
    requires
        text::free_of(base, "#?"@),
        text::free_of(query, "#"@),
    ensures
        canonical(base + "?"@ + query) == with_params(
            without_slash(base),
            telling(text::split(query, "&"@)),
        ),
{
    lemma_marks();
    reveal_strlit("#?");
    assert("#?"@[0] == '#' && "#?"@[1] == '?');
    let raw = base + "?"@ + query;
    assert forall|i: int| 0 <= i < raw.len() implies !"#"@.contains(#[trigger] raw[i]) by {
        if i < base.len() {
            assert(raw[i] == base[i]);
            assert(!"#?"@.contains(base[i]));
        } else if i > base.len() {
            assert(raw[i] == query[i - base.len() - 1]);
        }
    }
    text::lemma_first_behind(raw, Seq::empty(), "#"@);
    assert(raw + Seq::<char>::empty() =~= raw);
    assert(raw.take(raw.len() as int) =~= raw);
    let t = "?"@ + query;
    assert(raw =~= base + t);
    assert forall|i: int| 0 <= i < base.len() implies !"?"@.contains(#[trigger] base[i]) by {
        assert(!"#?"@.contains(base[i]));
    }
    assert("?"@.contains('?')) by {
        assert("?"@[0] == '?');
    }
    assert(t[0] == '?');
    text::lemma_first_behind(base, t, "?"@);
    assert(raw.take(base.len() as int) =~= base);
    assert(raw.skip(base.len() as int + 1) =~= query);
}

/// A parameter that says nothing of what a page shows does not change which page an
/// address stands for.
pub proof fn idle_parameters_do_not_matter(base: Seq<char>, query: Seq<char>, p: Seq<char>)
    requires
        text::free_of(base, "#?"@),
        text::free_of(query, "#"@),
        text::free_of(p, "#&"@),
        !tells(p),
    ensures
        canonical(base + "?"@ + query + "&"@ + p) == canonical(base + "?"@ + query),
{
    lemma_marks();
    reveal_strlit("#&");
    assert("#&"@[0] == '#' && "#&"@[1] == '&');
    let longer = query + "&"@ + p;
    assert(base + "?"@ + query + "&"@ + p =~= base + "?"@ + longer);
    assert forall|i: int| 0 <= i < longer.len() implies !"#"@.contains(#[trigger] longer[i]) by {
        if i < query.len() {
            assert(longer[i] == query[i]);
        } else if i > query.len() {
            assert(longer[i] == p[i - query.len() - 1]);
            assert(!"#&"@.contains(p[i - query.len() - 1]));
        }
    }
    lemma_canonical_query(base, query);
    lemma_canonical_query(base, longer);
    assert forall|i: int| 0 <= i < p.len() implies !"&"@.contains(#[trigger] p[i]) by {
        assert(!"#&"@.contains(p[i]));
    }
    assert("&"@.contains('&')) by {
        assert("&"@[0] == '&');
    }
    text::lemma_split_push(query, '&', p, "&"@);
    assert(query.push('&') + p =~= longer);
    let pieces = text::split(query, "&"@);
    assert(pieces.push(p).drop_last() =~= pieces);
}

proof fn lemma_telling(s: Seq<Seq<char>>)
    ensures
        telling(telling(s)) == telling(s),
        forall|i: int| 0 <= i < telling(s).len() ==> s.contains(#[trigger] telling(s)[i]),
    decreases s.len(),
{
    if s.len() > 0 {
        let d = s.drop_last();
        lemma_telling(d);
        let k = telling(d);
        assert forall|i: int| 0 <= i < telling(s).len() implies s.contains(#[trigger] telling(s)[i]) by {
            if i < k.len() {
                assert(telling(s)[i] == k[i]);
                assert(d.contains(k[i]));
                let j = choose|j: int| 0 <= j < d.len() && d[j] == k[i];
                assert(s[j] == k[i]);
            } else {
                assert(s[s.len() - 1] == s.last());
            }
        }
        if tells(s.last()) {
            assert(k.push(s.last()).drop_last() =~= k);
        }
    }
}

proof fn lemma_split_join(parts: Seq<Seq<char>>)
    requires
        parts.len() > 0,
        forall|i: int| 0 <= i < parts.len() ==> text::free_of(#[trigger] parts[i], "&"@),
        forall|i: int| 0 <= i < parts.len() ==> text::free_of(#[trigger] parts[i], "#"@),
    ensures
        text::split(text::join(parts, "&"@), "&"@) == parts,
        text::free_of(text::join(parts, "&"@), "#"@),
    decreases parts.len(),
{
    lemma_marks();
    assert("&"@.contains('&')) by {
        assert("&"@[0] == '&');
    }
    if parts.len() == 1 {
        text::lemma_split_one(parts[0], "&"@);
        assert(parts =~= seq![parts[0]]);
    } else {
        let d = parts.drop_last();
        assert forall|i: int| 0 <= i < d.len() implies text::free_of(#[trigger] d[i], "&"@)
            && text::free_of(d[i], "#"@) by {
            assert(d[i] == parts[i]);
        }
        lemma_split_join(d);
        let front = text::join(d, "&"@);
        let last = parts.last();
        assert(last == parts[parts.len() - 1]);
        text::lemma_split_push(front, '&', last, "&"@);
        let all = front + "&"@ + last;
        assert(front.push('&') + last =~= all);
        assert(d.push(last) =~= parts);
        assert forall|i: int| 0 <= i < all.len() implies !"#"@.contains(#[trigger] all[i]) by {
            if i < front.len() {
                assert(all[i] == front[i]);
            } else if i > front.len() {
                assert(all[i] == last[i - front.len() - 1]);
            }
        }
    }
}

/// The address that stands for a page stands for itself, where the path does not end in
/// two slashes.
pub proof fn canonical_addresses_stay(raw: Seq<char>)
    requires
        !text::has_suffix(text::before_first(text::before_first(raw, "#"@), "?"@), "//"@),
    ensures
        canonical(canonical(raw)) == canonical(raw),
{
    lemma_marks();
    reveal_strlit("#?");
    reveal_strlit("//");
    assert("#?"@[0] == '#' && "#?"@[1] == '?');
    let s = text::before_first(raw, "#"@);
    text::lemma_first_of(raw, "#"@, 0);
    text::lemma_first_of(s, "?"@, 0);
    let i = text::first_of(s, "?"@, 0);
    let path = text::before_first(s, "?"@);
    let base = without_slash(path);
    assert("#"@.contains('#')) by {
        assert("#"@[0] == '#');
    }
    assert("?"@.contains('?')) by {
        assert("?"@[0] == '?');
    }
    assert forall|k: int| 0 <= k < base.len() implies !"#?"@.contains(#[trigger] base[k]) by {
        assert(base[k] == raw[k]);
        assert(s[k] == raw[k]);
        assert(!"#"@.contains(raw[k]));
        assert(!"?"@.contains(s[k]));
    }
    // The base has no slash at its end any more.
    assert(without_slash(base) == base) by {
        if text::has_suffix(base, "/"@) {
            assert(base.last() == '/') by {
                assert(base.subrange(base.len() - 1, base.len() as int)[0] == base.last());
            }
            if text::has_suffix(path, "/"@) {
                assert(path.last() == '/') by {
                    assert(path.subrange(path.len() - 1, path.len() as int)[0] == path.last());
                }
                assert(path.subrange(path.len() - 2, path.len() as int) =~= "//"@);
            }
        }
    }
    if i < s.len() {
        let query = s.skip(i + 1);
        let kept = telling(text::split(query, "&"@));
        lemma_telling(text::split(query, "&"@));
        text::lemma_pieces(query, "&"@);
        assert forall|k: int| 0 <= k < query.len() implies !"#"@.contains(#[trigger] query[k]) by {
            assert(query[k] == raw[i + 1 + k]);
        }
        if kept.len() > 0 {
            assert forall|k: int| 0 <= k < kept.len() implies text::free_of(
                #[trigger] kept[k],
                "&"@,
            ) && text::free_of(kept[k], "#"@) by {
                let pieces = text::split(query, "&"@);
                assert(pieces.contains(kept[k]));
                let j = choose|j: int| 0 <= j < pieces.len() && pieces[j] == kept[k];
                assert(text::free_of(pieces[j], "&"@));
                assert forall|m: int| 0 <= m < kept[k].len() implies !"#"@.contains(
                    #[trigger] kept[k][m],
                ) by {
                    assert(query.contains(pieces[j][m]));
                }
            }
            lemma_split_join(kept);
            lemma_canonical_query(base, text::join(kept, "&"@));
        } else {
            lemma_canonical_plain(base);
        }
    } else {
        assert(path =~= s);
        lemma_canonical_plain(base);
    }
}

proof fn lemma_canonical_plain(base: Seq<char>)
    requires
        text::free_of(base, "#?"@),
    ensures
        canonical(base) == without_slash(base),
{
    lemma_marks();
    reveal_strlit("#?");
    assert("#?"@[0] == '#' && "#?"@[1] == '?');
    assert forall|k: int| 0 <= k < base.len() implies !"#"@.contains(#[trigger] base[k])
        && !"?"@.contains(base[k]) by {
        assert(!"#?"@.contains(base[k]));
    }
    text::lemma_first_behind(base, Seq::empty(), "#"@);
    text::lemma_first_behind(base, Seq::empty(), "?"@);
    assert(base + Seq::<char>::empty() =~= base);
    assert(base.take(base.len() as int) =~= base);
}

// ---------------------------------------------------------------------------
// Pages of Instagram
// ---------------------------------------------------------------------------

/// The segments of an Instagram address behind the host.
pub open spec fn ig_segments(url: Seq<char>) -> Option<Seq<Seq<char>>> {
    match text::second_piece(url, "instagram.com/"@) {
        Some(rest) => Some(text::filled(text::split(rest, "/?#"@))),
        None => None,
    }
}

fn read_ig_segments(url: &str) -> (r: Option<Vec<Vec<char>>>)
    ensures
        match r {
            Some(v) => ig_segments(url@) == Some(text::views(v@)),
            None => ig_segments(url@) is None,
        },
{
    let cs = chars_of(url);
    match second_piece_of(cs.as_slice(), "instagram.com/") {
        Some(rest) => Some(split_filled(rest, "/?#")),
        None => None,
    }
}

/// What an Instagram address points at: a kind, a key and an account.
pub open spec fn ig_parts(segs: Seq<Seq<char>>) -> Option<
    (Seq<char>, Seq<char>, Option<Seq<char>>),
> {
    let n = segs.len();
    if n >= 2 && segs[0] == "p"@ {
        Some(("post"@, segs[1], None))
    } else if n >= 2 && (segs[0] == "reel"@ || segs[0] == "reels"@) {
        Some(("reel"@, segs[1], None))
    } else if n >= 2 && segs[0] == "tv"@ {
        Some(("igtv"@, segs[1], None))
    } else if n >= 3 && segs[0] == "stories"@ && segs[1] == "highlights"@ {
        Some(("highlight"@, segs[2], None))
    } else if n >= 2 && segs[0] == "stories"@ {
        Some(("story"@, Seq::empty(), Some(segs[1])))
    } else if n == 1 {
        Some(("profile"@, Seq::empty(), Some(segs[0])))
    } else {
        None
    }
}

/// What was seen at an Instagram address.
pub open spec fn ig_catch(url: Seq<char>, now: i64) -> Option<(Option<Seq<char>>, CaughtView)> {
    match ig_segments(url) {
        None => None,
        Some(segs) => match ig_parts(segs) {
            None => None,
            Some((kind, key, account)) => Some((account, CaughtView { kind, key, url, seen: now })),
        },
    }
}

/// The model of an account and what was seen of it.
pub open spec fn catch_view(r: Option<(Option<String>, IgCaught)>) -> Option<
    (Option<Seq<char>>, CaughtView),
> {
    match r {
        Some(p) => Some((text::opt(p.0), p.1@)),
        None => None,
    }
}

fn parts_of(segs: &Vec<Vec<char>>) -> (r: Option<(&'static str, String, Option<String>)>)
    ensures
        match r {
            Some(p) => ig_parts(text::views(segs@)) == Some((p.0@, p.1@, text::opt(p.2))),
            None => ig_parts(text::views(segs@)) is None,
        },
{
    let ghost all = text::views(segs@);
    let n: usize = segs.len();
    if n == 0 {
        return None;
    }
    let first = segs[0].as_slice();
    assert(first@ == all[0]);
    let none = String::new();
    assert(none@ =~= Seq::empty());
    if n >= 2 {
        let second = segs[1].as_slice();
        assert(second@ == all[1]);
        if is(first, "p") {
            return Some(("post", string_of(second), None));
        }
        if is(first, "reel") || is(first, "reels") {
            return Some(("reel", string_of(second), None));
        }
        if is(first, "tv") {
            return Some(("igtv", string_of(second), None));
        }
        if is(first, "stories") {
            if n >= 3 && is(second, "highlights") {
                assert(segs@[2]@ == all[2]);
                return Some(("highlight", string_of(segs[2].as_slice()), None));
            }
            return Some(("story", none, Some(string_of(second))));
        }
        None
    } else {
        Some(("profile", none, Some(string_of(first))))
    }
}

/// What was seen, at a time, at an Instagram address, and the account where the address
/// names it.
pub fn ig_caught_of(url: &str, now: i64) -> (r: Option<(Option<String>, IgCaught)>)
    ensures
        catch_view(r) == ig_catch(url@, now),
{
    match read_ig_segments(url) {
        None => None,
        Some(segs) => match parts_of(&segs) {
            None => None,
            Some((kind, key, account)) => Some(
                (account, IgCaught { kind: kind.to_string(), key, url: url.to_string(), seen: now }),
            ),
        },
    }
}

/// The label of an Instagram address.
pub open spec fn ig_label(segs: Seq<Seq<char>>) -> Option<Seq<char>> {
    let n = segs.len();
    if n >= 2 && segs[0] == "p"@ {
        Some("Post · "@ + segs[1])
    } else if n >= 2 && (segs[0] == "reel"@ || segs[0] == "reels"@) {
        Some("Reel · "@ + segs[1])
    } else if n >= 2 && segs[0] == "tv"@ {
        Some("IGTV · "@ + segs[1])
    } else if n >= 2 && segs[0] == "stories"@ && segs[1] == "highlights"@ {
        Some("Highlight"@)
    } else if n >= 2 && segs[0] == "stories"@ {
        Some("@"@ + segs[1] + " · story"@)
    } else if n == 1 {
        Some("@"@ + segs[0])
    } else {
        None
    }
}

/// The separators before the name of a site in the title of a page.
pub open spec fn title_separators() -> Seq<Seq<char>> {
    seq![" - YouTube"@, " | "@, " • "@, " - "@]
}

/// A title without the name of the site: cut at the first of the separators, from the
/// `i`-th on, that leaves at least four bytes.
pub open spec fn short_title(t: Seq<char>, seps: Seq<Seq<char>>, i: int) -> Seq<char>
    decreases seps.len() - i,
{
    if i < 0 || i >= seps.len() {
        t
    } else {
        let p = text::find(t, seps[i], 0);
        if p >= 0 && cookies::byte_len(t.take(p)) >= 4 {
            t.take(p)
        } else {
            short_title(t, seps, i + 1)
        }
    }
}

/// The label of a page.
pub open spec fn label(url: Seq<char>, title: Option<Seq<char>>, provider: Seq<char>) -> Seq<
    char,
> {
    let by_path = if provider == "Lüdd-Insta"@ {
        match ig_segments(url) {
            Some(segs) => ig_label(segs),
            None => None,
        }
    } else {
        None
    };
    match by_path {
        Some(l) => l,
        None => match title {
            Some(t) if text::trim(t).len() > 0 => short_title(
                text::trim(t),
                title_separators(),
                0,
            ),
            _ => url,
        },
    }
}

fn label_segments(segs: &Vec<Vec<char>>) -> (r: Option<String>)
    ensures
        text::opt(r) == ig_label(text::views(segs@)),
{
    let ghost all = text::views(segs@);
    let n: usize = segs.len();
    if n == 0 {
        return None;
    }
    assert(segs@[0]@ == all[0]);
    let first = string_of(segs[0].as_slice());
    if n == 1 {
        return Some(cat2("@", first.as_str()));
    }
    assert(segs@[1]@ == all[1]);
    let second = string_of(segs[1].as_slice());
    let f = first.as_str();
    let s = second.as_str();
    if str_eq(f, "p") {
        Some(cat2("Post · ", s))
    } else if str_eq(f, "reel") || str_eq(f, "reels") {
        Some(cat2("Reel · ", s))
    } else if str_eq(f, "tv") {
        Some(cat2("IGTV · ", s))
    } else if str_eq(f, "stories") {
        if str_eq(s, "highlights") {
            Some("Highlight".to_string())
        } else {
            Some(cat3("@", s, " · story"))
        }
    } else {
        None
    }
}

fn shorten_title(t: &[char]) -> (r: String)
    ensures
        r@ == short_title(t@, title_separators(), 0),
{
    let seps: Vec<&str> = vec![" - YouTube", " | ", " • ", " - "];
    let ghost all = title_separators();
    assert(text::str_texts(seps@) =~= all);
    let mut i: usize = 0;
    while i < seps.len()
        invariant
            i <= seps.len(),
            all == text::str_texts(seps@),
            short_title(t@, all, 0) == short_title(t@, all, i as int),
            all == title_separators(),
        decreases seps.len() - i,
    {
        assert(all[i as int] == seps@[i as int]@);
        match find_str(t, seps[i]) {
            Some(p) => {
                let head = slice_subrange(t, 0, p);
                assert(head@ =~= t@.take(p as int));
                if longer_than(head, 3) {
                    return string_of(head);
                }
            },
            None => {},
        }
        i += 1;
    }
    string_of(t)
}

/// Writes a label for a page: from the address for Instagram, else the title without
/// the name of the site, else the address.
pub fn page_label(url: &str, page_title: Option<&str>, provider: &str) -> (r: String)
    ensures
        r@ == label(url@, text::opt_str(page_title), provider@),
{
    if str_eq(provider, "Lüdd-Insta") {
        match read_ig_segments(url) {
            Some(segs) => match label_segments(&segs) {
                Some(l) => {
                    return l;
                },
                None => {},
            },
            None => {},
        }
    }
    match page_title {
        Some(title) => {
            let cs = chars_of(title);
            let t = trimmed(cs.as_slice());
            if t.len() > 0 {
                return shorten_title(t);
            }
        },
        None => {},
    }
    url.to_string()
}

// ---------------------------------------------------------------------------
// Pages of videos
// ---------------------------------------------------------------------------

/// The letters and digits of a text, in order.
pub open spec fn alnums(s: Seq<char>) -> Seq<char>
    decreases s.len(),
{
    if s.len() == 0 {
        s
    } else if text::is_ascii_alnum(s.last()) {
        alnums(s.drop_last()).push(s.last())
    } else {
        alnums(s.drop_last())
    }
}

/// At most the first 24 letters and digits of a text.
pub open spec fn slug_of(s: Seq<char>) -> Seq<char> {
    text::first_chars(alnums(s), 24)
}

/// Writes at most the first 24 letters and digits of a text.
pub fn slug(s: &str) -> (r: String)
    ensures
        r@ == slug_of(s@),
{
    let cs = chars_of(s);
    let mut out: Vec<char> = Vec::new();
    let mut i: usize = 0;
    assert(cs@.take(0) =~= Seq::empty());
    while i < cs.len()
        invariant
            i <= cs.len(),
            out@ == text::first_chars(alnums(cs@.take(i as int)), 24),
            out@.len() <= 24,
            out@.len() < 24 ==> out@ == alnums(cs@.take(i as int)),
        decreases cs.len() - i,
    {
        let ghost so_far = alnums(cs@.take(i as int));
        proof {
            let next = cs@.take(i + 1);
            assert(next.drop_last() =~= cs@.take(i as int));
            assert(next.last() == cs@[i as int]);
        }
        if ascii_alnum(cs[i]) {
            if out.len() < 24 {
                out.push(cs[i]);
            } else {
                assert(so_far.push(cs@[i as int]).take(24) =~= so_far.take(24));
            }
        }
        i += 1;
    }
    assert(cs@.take(cs@.len() as int) =~= cs@);
    string_of(out.as_slice())
}

/// First segments of addresses of YouTube that a video follows.
pub open spec fn video_roots() -> Seq<Seq<char>> {
    seq!["shorts"@, "live"@, "embed"@, "clip"@]
}

/// The identifier of a video where it takes at least six bytes, with its picture.
pub open spec fn youtube_video(v: Option<Seq<char>>) -> Option<(Seq<char>, Option<Seq<char>>)> {
    match v {
        Some(id) if cookies::byte_len(id) >= 6 => Some(
            (id, Some("https://i.ytimg.com/vi/"@ + id + "/hqdefault.jpg"@)),
        ),
        _ => None,
    }
}

/// The identifier in an address of YouTube.
pub open spec fn youtube_id(url: Seq<char>, segs: Seq<Seq<char>>) -> Option<Seq<char>> {
    if text::holds(url, "watch?"@) || text::holds(url, "&v="@) || text::holds(url, "?v="@) {
        match text::second_piece(url, "v="@) {
            Some(p) => Some(text::before_first(p, "&"@)),
            None => None,
        }
    } else if segs.len() >= 2 && video_roots().contains(segs[0]) {
        Some(segs[1])
    } else {
        None
    }
}

/// The identifier and the picture of the video at an address; nothing where the address
/// is not that of one video.
pub open spec fn video_in(site: Seq<char>, url: Seq<char>, segs: Seq<Seq<char>>) -> Option<
    (Seq<char>, Option<Seq<char>>),
> {
    let n = segs.len();
    if site == "youtu.be"@ {
        youtube_video(
            if n >= 1 {
                Some(segs[0])
            } else {
                None
            },
        )
    } else if site == "youtube.com"@ {
        youtube_video(youtube_id(url, segs))
    } else if site == "twitch.tv"@ {
        if n >= 2 && segs[0] == "videos"@ && number::all_digits(segs[1]) {
            Some(("v"@ + segs[1], None))
        } else if n >= 3 && segs[1] == "clip"@ {
            Some((segs[2], None))
        } else {
            None
        }
    } else if site == "twitter.com"@ || site == "x.com"@ {
        if n >= 3 && segs[1] == "status"@ && number::all_digits(segs[2]) {
            Some((segs[2], None))
        } else {
            None
        }
    } else if site == "vimeo.com"@ {
        if n >= 1 && number::all_digits(segs[0]) {
            Some((segs[0], None))
        } else {
            None
        }
    } else if site == "tiktok.com"@ {
        if n >= 3 && segs[1] == "video"@ {
            Some((segs[2], None))
        } else {
            None
        }
    } else if site == "reddit.com"@ {
        if n >= 4 && segs[0] == "r"@ && segs[2] == "comments"@ {
            Some((segs[3], None))
        } else {
            None
        }
    } else if n >= 2 {
        Some((slug_of(url), None))
    } else {
        None
    }
}

/// The address that stands for a video.
pub open spec fn video_address(
    site: Seq<char>,
    url: Seq<char>,
    segs: Seq<Seq<char>>,
    id: Seq<char>,
) -> Seq<char> {
    if site == "youtube.com"@ || site == "youtu.be"@ {
        if segs.len() >= 1 && video_roots().contains(segs[0]) {
            "https://www.youtube.com/"@ + segs[0] + "/"@ + id
        } else {
            "https://www.youtube.com/watch?v="@ + id
        }
    } else {
        without_slash(text::before_first(url, "?#"@))
    }
}

/// The site and the segments of an address.
pub open spec fn site_parts(url: Seq<char>) -> Option<(Seq<char>, Seq<Seq<char>>)> {
    match text::second_piece(url, "://"@) {
        None => None,
        Some(after) => {
            let path = match text::split_once(after, "/"@) {
                Some((_, p)) => p,
                None => Seq::empty(),
            };
            Some(
                (
                    yt_library::bare_host(text::before_first(after, "/?#"@)),
                    text::filled(text::split(path, "/?#"@)),
                ),
            )
        },
    }
}

/// A video that was seen at a time and not looked up.
pub open spec fn fresh_video(
    id: Seq<char>,
    url: Seq<char>,
    title: Option<Seq<char>>,
    thumbnail: Option<Seq<char>>,
    now: i64,
) -> VideoView {
    VideoView {
        id,
        url,
        title: match title {
            Some(t) => t,
            None => Seq::empty(),
        },
        thumbnail,
        duration: None,
        uploader: None,
        upload_date: None,
        view_count: None,
        resolved: false,
        seen: now,
    }
}

/// The site of a page and the video that was seen there.
pub open spec fn yt_catch(url: Seq<char>, title: Option<Seq<char>>, now: i64) -> Option<
    (Seq<char>, VideoView),
> {
    match site_parts(url) {
        None => None,
        Some((site, segs)) => match video_in(site, url, segs) {
            None => None,
            Some((id, thumbnail)) => Some(
                (
                    site,
                    fresh_video(id, video_address(site, url, segs, id), title, thumbnail, now),
                ),
            ),
        },
    }
}

/// The model of a site and a video.
pub open spec fn video_catch_view(r: Option<(String, YtCaught)>) -> Option<(Seq<char>, VideoView)> {
    match r {
        Some(p) => Some((p.0@, p.1@)),
        None => None,
    }
}

/// The model of an identifier and a picture.
pub open spec fn found_view(r: Option<(String, Option<String>)>) -> Option<
    (Seq<char>, Option<Seq<char>>),
> {
    match r {
        Some(p) => Some((p.0@, text::opt(p.1))),
        None => None,
    }
}

fn digits_only(s: &[char]) -> (r: bool)
    ensures
        r == number::all_digits(s@),
{
    let mut i: usize = 0;
    while i < s.len()
        invariant
            i <= s.len(),
            forall|j: int| 0 <= j < i ==> text::is_digit(#[trigger] s@[j]),
        decreases s.len() - i,
    {
        if !digit(s[i]) {
            return false;
        }
        i += 1;
    }
    true
}

fn is_video_root(s: &[char]) -> (r: bool)
    ensures
        r == video_roots().contains(s@),
{
    let list: Vec<&str> = vec!["shorts", "live", "embed", "clip"];
    assert(text::str_texts(list@) =~= video_roots());
    one_of(s, &list)
}

fn with_picture(id: &[char]) -> (r: Option<(String, Option<String>)>)
    ensures
        found_view(r) == youtube_video(Some(id@)),
{
    if longer_than(id, 5) {
        let v = string_of(id);
        let picture = cat3("https://i.ytimg.com/vi/", v.as_str(), "/hqdefault.jpg");
        Some((v, Some(picture)))
    } else {
        None
    }
}

fn find_youtube(url: &[char], segs: &Vec<Vec<char>>) -> (r: Option<(String, Option<String>)>)
    ensures
        found_view(r) == youtube_video(youtube_id(url@, text::views(segs@))),
{
    if contains(url, "watch?") || contains(url, "&v=") || contains(url, "?v=") {
        match second_piece_of(url, "v=") {
            Some(p) => with_picture(cut_before_first(p, "&")),
            None => None,
        }
    } else if segs.len() >= 2 {
        assert(segs@[0]@ == text::views(segs@)[0]);
        assert(segs@[1]@ == text::views(segs@)[1]);
        if is_video_root(segs[0].as_slice()) {
            with_picture(segs[1].as_slice())
        } else {
            None
        }
    } else {
        None
    }
}

fn find_video(site: &str, url: &str, segs: &Vec<Vec<char>>) -> (r: Option<(String, Option<String>)>)
    ensures
        found_view(r) == video_in(site@, url@, text::views(segs@)),
{
    let ghost all = text::views(segs@);
    assert forall|i: int| 0 <= i < segs@.len() implies segs@[i]@ == #[trigger] all[i] by {}
    let n: usize = segs.len();
    if str_eq(site, "youtu.be") {
        if n >= 1 {
            assert(segs@[0]@ == all[0]);
            with_picture(segs[0].as_slice())
        } else {
            None
        }
    } else if str_eq(site, "youtube.com") {
        find_youtube(chars_of(url).as_slice(), segs)
    } else if str_eq(site, "twitch.tv") {
        if n >= 2 && is(segs[0].as_slice(), "videos") && digits_only(segs[1].as_slice()) {
            assert(segs@[0]@ == all[0] && segs@[1]@ == all[1]);
            let id = string_of(segs[1].as_slice());
            return Some((cat2("v", id.as_str()), None));
        }
        if n >= 2 {
            assert(segs@[0]@ == all[0] && segs@[1]@ == all[1]);
        }
        if n >= 3 && is(segs[1].as_slice(), "clip") {
            assert(segs@[2]@ == all[2]);
            Some((string_of(segs[2].as_slice()), None))
        } else {
            None
        }
    } else if str_eq(site, "twitter.com") || str_eq(site, "x.com") {
        if n >= 3 {
            assert(segs@[1]@ == all[1] && segs@[2]@ == all[2]);
        }
        if n >= 3 && is(segs[1].as_slice(), "status") && digits_only(segs[2].as_slice()) {
            Some((string_of(segs[2].as_slice()), None))
        } else {
            None
        }
    } else if str_eq(site, "vimeo.com") {
        if n >= 1 {
            assert(segs@[0]@ == all[0]);
        }
        if n >= 1 && digits_only(segs[0].as_slice()) {
            Some((string_of(segs[0].as_slice()), None))
        } else {
            None
        }
    } else if str_eq(site, "tiktok.com") {
        if n >= 3 {
            assert(segs@[1]@ == all[1] && segs@[2]@ == all[2]);
        }
        if n >= 3 && is(segs[1].as_slice(), "video") {
            Some((string_of(segs[2].as_slice()), None))
        } else {
            None
        }
    } else if str_eq(site, "reddit.com") {
        if n >= 4 {
            assert(segs@[0]@ == all[0] && segs@[2]@ == all[2] && segs@[3]@ == all[3]);
        }
        if n >= 4 && is(segs[0].as_slice(), "r") && is(segs[2].as_slice(), "comments") {
            Some((string_of(segs[3].as_slice()), None))
        } else {
            None
        }
    } else if n >= 2 {
        Some((slug(url), None))
    } else {
        None
    }
}

fn write_video_address(site: &str, url: &str, segs: &Vec<Vec<char>>, id: &str) -> (r: String)
    ensures
        r@ == video_address(site@, url@, text::views(segs@), id@),
{
    if str_eq(site, "youtube.com") || str_eq(site, "youtu.be") {
        if segs.len() >= 1 {
            assert(segs@[0]@ == text::views(segs@)[0]);
            if is_video_root(segs[0].as_slice()) {
                let root = string_of(segs[0].as_slice());
                let front = cat3("https://www.youtube.com/", root.as_str(), "/");
                return cat2(front.as_str(), id);
            }
        }
        cat2("https://www.youtube.com/watch?v=", id)
    } else {
        let cs = chars_of(url);
        string_of(cut_slash(cut_before_first(cs.as_slice(), "?#")))
    }
}

/// The site of a page and the video that was seen there at a time; nothing where the
/// page is not that of one video.
pub fn yt_caught_of(url: &str, title: Option<String>, now: i64) -> (r: Option<(String, YtCaught)>)
    ensures
        video_catch_view(r) == yt_catch(url@, text::opt(title), now),
{
    let cs = chars_of(url);
    let after = match second_piece_of(cs.as_slice(), "://") {
        None => {
            return None;
        },
        Some(a) => a,
    };
    let site = write_bare_host(cut_before_first(after, "/?#"));
    let segs = match split_at_first(after, "/") {
        Some((_, p)) => split_filled(p, "/?#"),
        None => {
            let none: Vec<char> = Vec::new();
            assert(none@ =~= Seq::empty());
            split_filled(none.as_slice(), "/?#")
        },
    };
    match find_video(site.as_str(), url, &segs) {
        None => None,
        Some((id, thumbnail)) => {
            let address = write_video_address(site.as_str(), url, &segs, id.as_str());
            let title = match title {
                Some(t) => t,
                None => {
                    let none = String::new();
                    assert(none@ =~= Seq::empty());
                    none
                },
            };
            Some(
                (
                    site,
                    YtCaught {
                        id,
                        url: address,
                        title,
                        thumbnail,
                        duration: None,
                        uploader: None,
                        upload_date: None,
                        view_count: None,
                        resolved: false,
                        seen: now,
                    },
                ),
            )
        },
    }
}

} // verus!

//! Laws of pages: which video an address stands for, how a page is labelled,
//! and how its picture is made.
use vstd::prelude::*;

use crate::cookies;
use crate::headers;
use crate::number;
use crate::pages;
use crate::preview;
use crate::preview::StepView;
use crate::text;

verus! {

// ---------------------------------------------------------------------------
// Videos
// ---------------------------------------------------------------------------

proof fn lemma_found_at(s: Seq<char>, needle: Seq<char>, k: int)
    requires
        text::has_at(s, k, needle),
        forall|i: int| 0 <= i < k ==> !text::has_at(s, i, needle),
    ensures
        text::find(s, needle, 0) == k,
{
    text::lemma_find(s, needle, 0);
    let i = text::find(s, needle, 0);
    if i < 0 {
        assert(!text::has_at(s, k, needle));
    }
}

proof fn lemma_not_found(s: Seq<char>, needle: Seq<char>, c: char, at: int)
    requires
        0 <= at < needle.len(),
        needle[at] == c,
        !s.contains(c),
    ensures
        text::find(s, needle, 0) == -1,
{
    text::lemma_find(s, needle, 0);
    let i = text::find(s, needle, 0);
    if i >= 0 {
        assert(s.subrange(i, i + needle.len())[at] == s[i + at]);
        assert(s.contains(s[i + at]));
    }
}

/// An identifier of a video: long enough, and without the characters that
/// divide an address.
pub open spec fn is_video_id(id: Seq<char>) -> bool {
    &&& cookies::byte_len(id) >= 6
    &&& id.len() > 0
    &&& forall|i: int|
        0 <= i < id.len() ==> #[trigger] id[i] != '/' && id[i] != '?' && id[i] != '#' && id[i] != '&'
            && id[i] != '=' && id[i] != ':'
}

proof fn lemma_second_piece(scheme: Seq<char>, rest: Seq<char>)
    requires
        !scheme.contains(':'),
        !rest.contains(':'),
    ensures
        text::second_piece(scheme + "://"@ + rest, "://"@) == Some(rest),
{
    reveal_strlit("://");
    let s = scheme + "://"@ + rest;
    let n = scheme.len() as int;
    assert(s.subrange(n, n + 3) =~= "://"@);
    assert forall|i: int| 0 <= i < n implies !text::has_at(s, i, "://"@) by {
        if text::has_at(s, i, "://"@) {
            assert(s.subrange(i, i + 3)[0] == s[i]);
            assert(s[i] == scheme[i]);
            assert(scheme.contains(scheme[i]));
        }
    }
    lemma_found_at(s, "://"@, n);
    assert(s.skip(n + 3) =~= rest);
    lemma_not_found(rest, "://"@, ':', 0);
}

/// The host and the segments of an address with a path of one or two segments.
proof fn lemma_parts(host: Seq<char>, path: Seq<char>)
    requires
        !host.contains(':'),
        !path.contains(':'),
        text::free_of(host, "/?#"@),
    ensures
        pages::site_parts("https://"@ + host + "/"@ + path) == Some(
            (crate::yt_library::bare_host(host), text::filled(text::split(path, "/?#"@))),
        ),
{
    reveal_strlit("https://");
    reveal_strlit("https");
    reveal_strlit("://");
    reveal_strlit("/");
    reveal_strlit("/?#");
    assert("/?#"@[0] == '/' && "/?#"@.len() == 3 && "/"@[0] == '/' && "/"@.len() == 1);
    let rest = host + "/"@ + path;
    let url = "https://"@ + host + "/"@ + path;
    assert(url =~= "https"@ + "://"@ + rest);
    assert forall|i: int| 0 <= i < rest.len() implies rest[i] != ':' by {
        if i < host.len() {
            assert(rest[i] == host[i]);
            assert(host.contains(host[i]));
        } else if i > host.len() {
            assert(rest[i] == path[i - host.len() - 1]);
            assert(path.contains(path[i - host.len() - 1]));
        }
    }
    assert(!rest.contains(':'));
    assert(!"https"@.contains(':'));
    lemma_second_piece("https"@, rest);
    assert(rest =~= host + ("/"@ + path));
    assert(("/"@ + path)[0] == '/');
    assert(text::free_of(host, "/"@)) by {
        assert forall|i: int| 0 <= i < host.len() implies !"/"@.contains(#[trigger] host[i]) by {
            assert(!"/?#"@.contains(host[i]));
        }
    }
    text::lemma_first_behind(host, "/"@ + path, "/"@);
    text::lemma_first_behind(host, "/"@ + path, "/?#"@);
    assert(rest.take(host.len() as int) =~= host);
    assert(rest.skip((host.len() + 1) as int) =~= path);
}

proof fn lemma_no_colon(id: Seq<char>)
    requires
        is_video_id(id),
    ensures
        !id.contains(':'),
        !id.contains('='),
        text::free_of(id, "/?#"@),
        text::free_of(id, "&"@),
{
    reveal_strlit("/?#");
    reveal_strlit("&");
    assert forall|i: int| 0 <= i < id.len() implies !"/?#"@.contains(#[trigger] id[i])
        && !"&"@.contains(id[i]) by {}
}

/// The page of a video on YouTube and its short address stand for one video:
/// the same identifier, the same address, and its own picture.
pub proof fn short_addresses_are_the_same_video(
    id: Seq<char>,
    title: Option<Seq<char>>,
    now: i64,
)
    requires
        is_video_id(id),
        id != "shorts"@,
    ensures
        pages::yt_catch("https://youtu.be/"@ + id, title, now) matches Some((site, v)) && site
            == "youtu.be"@ && v.id == id && v.url == "https://www.youtube.com/watch?v="@ + id
            && v.thumbnail == Some("https://i.ytimg.com/vi/"@ + id + "/hqdefault.jpg"@) && v.seen
            == now && !v.resolved && (title is Some ==> v.title == title->0),
        pages::yt_catch("https://www.youtube.com/watch?v="@ + id, title, now) matches Some((site, v))
            && site == "youtube.com"@ && v.id == id && v.url == "https://www.youtube.com/watch?v="@
            + id && v.thumbnail == Some("https://i.ytimg.com/vi/"@ + id + "/hqdefault.jpg"@)
            && v.seen == now && !v.resolved && (title is Some ==> v.title == title->0),
{
    lemma_short(id, title, now);
    lemma_watch(id, title, now);
}

proof fn lemma_no_root(s: Seq<char>)
    requires
        s.len() > 6 || s == "watch"@,
    ensures
        !pages::video_roots().contains(s),
{
    reveal_strlit("watch");
    reveal_strlit("shorts");
    reveal_strlit("live");
    reveal_strlit("embed");
    reveal_strlit("clip");
    let r = pages::video_roots();
    assert(r[0] == "shorts"@ && r[1] == "live"@ && r[2] == "embed"@ && r[3] == "clip"@ && r.len()
        == 4);
    assert("watch"@[0] == 'w' && "embed"@[0] == 'e');
    if r.contains(s) {
        let k = choose|k: int| 0 <= k < r.len() && r[k] == s;
        assert(r[k].len() <= 6);
    }
}

proof fn lemma_short(id: Seq<char>, title: Option<Seq<char>>, now: i64)
    requires
        is_video_id(id),
        id != "shorts"@,
    ensures
        pages::yt_catch("https://youtu.be/"@ + id, title, now) matches Some((site, v)) && site
            == "youtu.be"@ && v.id == id && v.url == "https://www.youtube.com/watch?v="@ + id
            && v.thumbnail == Some("https://i.ytimg.com/vi/"@ + id + "/hqdefault.jpg"@) && v.seen
            == now && !v.resolved && (title is Some ==> v.title == title->0),
{
    reveal_strlit("https://youtu.be/");
    reveal_strlit("https://");
    reveal_strlit("youtu.be");
    reveal_strlit("youtube.com");
    reveal_strlit("/");
    reveal_strlit("/?#");
    reveal_strlit("www.");
    reveal_strlit("shorts");
    reveal_strlit("live");
    reveal_strlit("embed");
    reveal_strlit("clip");
    lemma_no_colon(id);
    let host = "youtu.be"@;
    assert(!host.contains(':'));
    assert(text::free_of(host, "/?#"@));
    lemma_parts(host, id);
    assert("https://youtu.be/"@ + id =~= "https://"@ + host + "/"@ + id);
    assert(text::lower(host) =~= host);
    assert(host.take(4)[0] == 'y');
    assert("www."@[0] == 'w');
    assert(crate::yt_library::bare_host(host) == host);
    text::lemma_split_one(id, "/?#"@);
    assert(seq![id].drop_last() =~= Seq::<Seq<char>>::empty());
    reveal_with_fuel(text::filled, 3);
    assert(text::filled(Seq::<Seq<char>>::empty()) =~= Seq::<Seq<char>>::empty());
    assert(text::filled(seq![id]) =~= seq![id]);
    assert("youtu.be"@.len() != "youtube.com"@.len());
    lemma_id_no_root(id);
}

proof fn lemma_id_no_root(id: Seq<char>)
    requires
        cookies::byte_len(id) >= 6,
    ensures
        id != "shorts"@ ==> !pages::video_roots().contains(id),
{
    reveal_strlit("shorts");
    reveal_strlit("live");
    reveal_strlit("embed");
    reveal_strlit("clip");
    let r = pages::video_roots();
    assert(r[0] == "shorts"@ && r[1] == "live"@ && r[2] == "embed"@ && r[3] == "clip"@ && r.len()
        == 4);
    reveal_with_fuel(cookies::byte_len, 7);
    assert(cookies::byte_len("live"@) == 4);
    assert(cookies::byte_len("embed"@) == 5);
    assert(cookies::byte_len("clip"@) == 4);
}

proof fn lemma_watch(id: Seq<char>, title: Option<Seq<char>>, now: i64)
    requires
        is_video_id(id),
    ensures
        pages::yt_catch("https://www.youtube.com/watch?v="@ + id, title, now) matches Some((site, v))
            && site == "youtube.com"@ && v.id == id && v.url == "https://www.youtube.com/watch?v="@
            + id && v.thumbnail == Some("https://i.ytimg.com/vi/"@ + id + "/hqdefault.jpg"@)
            && v.seen == now && !v.resolved && (title is Some ==> v.title == title->0),
{
    let url = "https://www.youtube.com/watch?v="@ + id;
    lemma_watch_parts(id);
    lemma_watch_id(id);
    reveal_strlit("youtu.be");
    reveal_strlit("youtube.com");
    assert("youtu.be"@.len() != "youtube.com"@.len());
    lemma_no_root("watch"@);
    let segs = seq!["watch"@, "v="@ + id];
    assert(segs[0] == "watch"@);
    assert(pages::youtube_id(url, segs) == Some(id));
    assert(pages::video_in("youtube.com"@, url, segs) == pages::youtube_video(Some(id)));
}

proof fn lemma_watch_parts(id: Seq<char>)
    requires
        is_video_id(id),
    ensures
        pages::site_parts("https://www.youtube.com/watch?v="@ + id) == Some(
            ("youtube.com"@, seq!["watch"@, "v="@ + id]),
        ),
{
    reveal_strlit("https://www.youtube.com/watch?v=");
    reveal_strlit("https://");
    reveal_strlit("www.youtube.com");
    reveal_strlit("youtube.com");
    reveal_strlit("watch?v=");
    reveal_strlit("watch");
    reveal_strlit("v=");
    reveal_strlit("/");
    reveal_strlit("/?#");
    reveal_strlit("www.");
    lemma_no_colon(id);
    let host = "www.youtube.com"@;
    let path = "watch?v="@ + id;
    let set = "/?#"@;
    assert(set[0] == '/' && set[1] == '?' && set[2] == '#' && set.len() == 3);
    assert(!host.contains(':'));
    assert(text::free_of(host, set));
    assert forall|i: int| 0 <= i < path.len() implies path[i] != ':' by {
        if i >= 8 {
            assert(path[i] == id[i - 8]);
            assert(id.contains(id[i - 8]));
        }
    }
    assert(!path.contains(':'));
    lemma_parts(host, path);
    assert("https://www.youtube.com/watch?v="@ + id =~= "https://"@ + host + "/"@ + path);
    assert(host.take(4) =~= "www."@);
    assert(host.skip(4) =~= "youtube.com"@);
    assert(text::lower("youtube.com"@) =~= "youtube.com"@);
    assert(crate::yt_library::bare_host(host) == "youtube.com"@);
    let second = "v="@ + id;
    assert(text::free_of("watch"@, set));
    assert forall|i: int| 0 <= i < second.len() implies !set.contains(#[trigger] second[i]) by {
        if i >= 2 {
            assert(second[i] == id[i - 2]);
        }
    }
    text::lemma_split_one("watch"@, set);
    assert(set.contains('?'));
    text::lemma_split_push("watch"@, '?', second, set);
    assert("watch"@.push('?') + second =~= path);
    let pieces = seq!["watch"@].push(second);
    assert(pieces.drop_last() =~= seq!["watch"@]);
    assert(seq!["watch"@].drop_last() =~= Seq::<Seq<char>>::empty());
    reveal_with_fuel(text::filled, 3);
    assert(text::filled(Seq::<Seq<char>>::empty()) =~= Seq::<Seq<char>>::empty());
    assert(text::filled(seq!["watch"@]) =~= seq!["watch"@]);
    assert(text::filled(pieces) =~= seq!["watch"@, second]);
}

proof fn lemma_watch_id(id: Seq<char>)
    requires
        is_video_id(id),
    ensures
        pages::youtube_id("https://www.youtube.com/watch?v="@ + id, seq!["watch"@, "v="@ + id])
            == Some(id),
{
    reveal_strlit("https://www.youtube.com/watch?v=");
    reveal_strlit("watch?");
    reveal_strlit("v=");
    reveal_strlit("&");
    lemma_no_colon(id);
    let head = "https://www.youtube.com/watch?v="@;
    let url = head + id;
    assert(head.len() == 32);
    assert(url.subrange(24, 30) =~= "watch?"@);
    assert(text::has_at(url, 24, "watch?"@));
    assert(url.subrange(30, 32) =~= "v="@);
    assert forall|i: int| 0 <= i < 30 implies !text::has_at(url, i, "v="@) by {
        if text::has_at(url, i, "v="@) {
            assert(url.subrange(i, i + 2)[1] == url[i + 1]);
            assert(url[i + 1] == head[i + 1]);
        }
    }
    lemma_found_at(url, "v="@, 30);
    assert(url.skip(32) =~= id);
    lemma_not_found(id, "v="@, '=', 1);
    assert(text::second_piece(url, "v="@) == Some(id));
    text::lemma_first_behind(id, Seq::empty(), "&"@);
    assert(id + Seq::<char>::empty() =~= id);
    assert(id.take(id.len() as int) =~= id);
}

/// Where the address of a page names its video by a segment, that segment is
/// the identifier; where the site numbers its videos, only a number is one.
pub proof fn segments_name_videos(
    url: Seq<char>,
    user: Seq<char>,
    id: Seq<char>,
    title: Seq<char>,
)
    ensures
        pages::video_in("tiktok.com"@, url, seq![user, "video"@, id]) == Some(
            (id, None::<Seq<char>>),
        ),
        pages::video_in("reddit.com"@, url, seq!["r"@, user, "comments"@, id, title]) == Some(
            (id, None::<Seq<char>>),
        ),
        number::all_digits(id) ==> pages::video_in("x.com"@, url, seq![user, "status"@, id])
            == Some((id, None::<Seq<char>>)),
        number::all_digits(id) ==> pages::video_in("twitter.com"@, url, seq![user, "status"@, id])
            == Some((id, None::<Seq<char>>)),
        !number::all_digits(id) ==> pages::video_in("x.com"@, url, seq![user, "status"@, id])
            is None,
        number::all_digits(id) ==> pages::video_in("vimeo.com"@, url, seq![id]) == Some(
            (id, None::<Seq<char>>),
        ),
        !number::all_digits(id) ==> pages::video_in("vimeo.com"@, url, seq![id]) is None,
        number::all_digits(id) ==> pages::video_in("twitch.tv"@, url, seq!["videos"@, id]) == Some(
            ("v"@ + id, None::<Seq<char>>),
        ),
        user != "videos"@ ==> pages::video_in("twitch.tv"@, url, seq![user, "clip"@, id]) == Some(
            (id, None::<Seq<char>>),
        ),
{
    reveal_strlit("youtu.be");
    reveal_strlit("youtube.com");
    reveal_strlit("twitch.tv");
    reveal_strlit("twitter.com");
    reveal_strlit("x.com");
    reveal_strlit("vimeo.com");
    reveal_strlit("tiktok.com");
    reveal_strlit("reddit.com");
    assert("youtu.be"@.len() == 8 && "youtube.com"@.len() == 11 && "twitch.tv"@.len() == 9
        && "twitter.com"@.len() == 11 && "x.com"@.len() == 5 && "vimeo.com"@.len() == 9
        && "tiktok.com"@.len() == 10 && "reddit.com"@.len() == 10);
    assert("youtube.com"@[0] == 'y' && "twitter.com"@[0] == 't' && "twitch.tv"@[0] == 't'
        && "vimeo.com"@[0] == 'v' && "tiktok.com"@[0] == 't' && "reddit.com"@[0] == 'r');
}

// ---------------------------------------------------------------------------
// Labels
// ---------------------------------------------------------------------------

proof fn lemma_short_is_prefix(t: Seq<char>, seps: Seq<Seq<char>>, i: int)
    requires
        0 <= i,
    ensures
        text::has_prefix(t, pages::short_title(t, seps, i)),
        pages::short_title(t, seps, i).len() > 0 || t.len() == 0
            || pages::short_title(t, seps, i) == t,
    decreases seps.len() - i,
{
    if i >= seps.len() {
        assert(t.take(t.len() as int) =~= t);
    } else {
        text::lemma_find(t, seps[i], 0);
        let p = text::find(t, seps[i], 0);
        if p >= 0 && cookies::byte_len(t.take(p)) >= 4 {
            assert(t.take(p).take(p) =~= t.take(p));
            assert(p > 0) by {
                if p == 0 {
                    assert(t.take(0) =~= Seq::<char>::empty());
                    assert(cookies::byte_len(Seq::<char>::empty()) == 0);
                }
            }
        } else {
            lemma_short_is_prefix(t, seps, i + 1);
        }
    }
}

/// A page that is no page of Instagram is labelled with the beginning of its
/// title, or with its address where it has none.
pub proof fn labels_are_titles(url: Seq<char>, title: Seq<char>, provider: Seq<char>)
    requires
        provider != "Lüdd-Insta"@,
    ensures
        text::trim(title).len() > 0 ==> text::has_prefix(
            text::trim(title),
            pages::label(url, Some(title), provider),
        ),
        text::trim(title).len() > 0 ==> pages::label(url, Some(title), provider).len() > 0,
        text::trim(title).len() == 0 ==> pages::label(url, Some(title), provider) == url,
        pages::label(url, None, provider) == url,
{
    lemma_short_is_prefix(text::trim(title), pages::title_separators(), 0);
}

/// The name of the site is cut off behind a title.
pub proof fn sites_are_cut_off(url: Seq<char>, name: Seq<char>, provider: Seq<char>)
    requires
        provider != "Lüdd-Insta"@,
        cookies::byte_len(name) >= 4,
        !name.contains('-'),
        name.len() > 0,
        !text::is_space(name[0]),
    ensures
        pages::label(url, Some(name + " - YouTube"@), provider) == name,
{
    reveal_strlit(" - YouTube");
    let sep = " - YouTube"@;
    let t = name + sep;
    assert(t[0] == name[0]);
    assert(t.last() == 'e');
    assert(text::trim(t) == t);
    let n = name.len() as int;
    assert(t.subrange(n, n + sep.len()) =~= sep);
    assert(text::has_at(t, n, sep));
    assert forall|i: int| 0 <= i < n implies !text::has_at(t, i, sep) by {
        if text::has_at(t, i, sep) {
            assert(t.subrange(i, i + sep.len())[1] == t[i + 1]);
            if i + 1 < n {
                assert(t[i + 1] == name[i + 1]);
                assert(name.contains(name[i + 1]));
            }
        }
    }
    lemma_found_at(t, sep, n);
    assert(t.take(n) =~= name);
    assert(pages::title_separators()[0] == sep);
}

// ---------------------------------------------------------------------------
// Pictures
// ---------------------------------------------------------------------------

/// What a digit of a text in base 64 stands for.
pub open spec fn digit_value(c: char) -> int {
    if 'A' <= c && c <= 'Z' {
        c as int - 'A' as int
    } else if 'a' <= c && c <= 'z' {
        c as int - 'a' as int + 26
    } else if '0' <= c && c <= '9' {
        c as int - '0' as int + 52
    } else if c == '+' {
        62
    } else {
        63
    }
}

/// The bytes that a text in base 64 stands for: three for four digits, and one
/// or two for those that are filled up with equals signs.
pub open spec fn bytes_of(t: Seq<char>) -> Seq<u8>
    decreases t.len(),
{
    if t.len() < 4 {
        Seq::empty()
    } else {
        let n = digit_value(t[0]) * 262144 + digit_value(t[1]) * 4096 + (if t[2] == '=' {
            0
        } else {
            digit_value(t[2]) * 64
        }) + (if t[3] == '=' {
            0
        } else {
            digit_value(t[3])
        });
        let x = (n / 65536) as u8;
        let y = (n / 256 % 256) as u8;
        let z = (n % 256) as u8;
        (if t[2] == '=' {
            seq![x]
        } else if t[3] == '=' {
            seq![x, y]
        } else {
            seq![x, y, z]
        }) + bytes_of(t.skip(4))
    }
}

proof fn lemma_digit(k: int)
    requires
        0 <= k < 64,
    ensures
        digit_value(preview::base64_digits()[k]) == k,
        preview::base64_digits()[k] != '=',
{
    reveal_strlit("ABCDEFGHIJKLMNOPQRSTUVWXYZabcdefghijklmnopqrstuvwxyz0123456789+/");
    let d = preview::base64_digits();
    assert(d.len() == 64);
    if k < 26 {
        assert(d[k] as int == 'A' as int + k) by {
            assert(d[0] == 'A' && d[1] == 'B' && d[2] == 'C' && d[3] == 'D' && d[4] == 'E' && d[5]
                == 'F' && d[6] == 'G' && d[7] == 'H' && d[8] == 'I' && d[9] == 'J' && d[10] == 'K'
                && d[11] == 'L' && d[12] == 'M' && d[13] == 'N' && d[14] == 'O' && d[15] == 'P'
                && d[16] == 'Q' && d[17] == 'R' && d[18] == 'S' && d[19] == 'T' && d[20] == 'U'
                && d[21] == 'V' && d[22] == 'W' && d[23] == 'X' && d[24] == 'Y' && d[25] == 'Z');
        }
    } else if k < 52 {
        assert(d[k] as int == 'a' as int + k - 26) by {
            assert(d[26] == 'a' && d[27] == 'b' && d[28] == 'c' && d[29] == 'd' && d[30] == 'e'
                && d[31] == 'f' && d[32] == 'g' && d[33] == 'h' && d[34] == 'i' && d[35] == 'j'
                && d[36] == 'k' && d[37] == 'l' && d[38] == 'm' && d[39] == 'n' && d[40] == 'o'
                && d[41] == 'p' && d[42] == 'q' && d[43] == 'r' && d[44] == 's' && d[45] == 't'
                && d[46] == 'u' && d[47] == 'v' && d[48] == 'w' && d[49] == 'x' && d[50] == 'y'
                && d[51] == 'z');
        }
    } else if k < 62 {
        assert(d[k] as int == '0' as int + k - 52) by {
            assert(d[52] == '0' && d[53] == '1' && d[54] == '2' && d[55] == '3' && d[56] == '4'
                && d[57] == '5' && d[58] == '6' && d[59] == '7' && d[60] == '8' && d[61] == '9');
        }
    } else {
        assert(d[62] == '+' && d[63] == '/');
    }
}

proof fn lemma_three(x: int, y: int, z: int)
    requires
        0 <= x < 256,
        0 <= y < 256,
        0 <= z < 256,
    ensures
        x / 4 * 262144 + (x % 4 * 16 + y / 16) * 4096 + (y % 16 * 4 + z / 64) * 64 + z % 64 == x
            * 65536 + y * 256 + z,
        (x * 65536 + y * 256 + z) / 65536 == x,
        (x * 65536 + y * 256 + z) / 256 % 256 == y,
        (x * 65536 + y * 256 + z) % 256 == z,
        0 <= x / 4 < 64,
        0 <= x % 4 * 16 + y / 16 < 64,
        0 <= y % 16 * 4 + z / 64 < 64,
        0 <= z % 64 < 64,
{
}

/// Four digits and what follows them.
proof fn lemma_group(t: Seq<char>, a: int, b: int, c: int, d: int)
    requires
        0 <= a < 64,
        0 <= b < 64,
        0 <= c < 64,
        0 <= d < 64,
        t.len() >= 4,
        t[0] == preview::base64_digits()[a],
        t[1] == preview::base64_digits()[b],
        t[2] == preview::base64_digits()[c] || (t[2] == '=' && c == 0),
        t[3] == preview::base64_digits()[d] || (t[3] == '=' && d == 0),
    ensures
        ({
            let n = a * 262144 + b * 4096 + c * 64 + d;
            let x = (n / 65536) as u8;
            let y = (n / 256 % 256) as u8;
            let z = (n % 256) as u8;
            bytes_of(t) == (if t[2] == '=' {
                seq![x]
            } else if t[3] == '=' {
                seq![x, y]
            } else {
                seq![x, y, z]
            }) + bytes_of(t.skip(4))
        }),
{
    lemma_digit(a);
    lemma_digit(b);
    lemma_digit(c);
    lemma_digit(d);
}

/// Nothing of a picture is lost where it is shown: the text in base 64 stands
/// for exactly its bytes.
pub proof fn pictures_are_written_whole(b: Seq<u8>)
    ensures
        bytes_of(preview::base64_text(b)) == b,
    decreases b.len(),
{
    let t = preview::base64_text(b);
    if b.len() == 1 {
        let x = b[0] as int;
        lemma_three(x, 0, 0);
        lemma_group(t, x / 4, x % 4 * 16, 0, 0);
        assert(t.skip(4) =~= Seq::<char>::empty());
        assert(bytes_of(t.skip(4)) =~= Seq::<u8>::empty());
        assert(bytes_of(t) =~= b);
    } else if b.len() == 2 {
        let x = b[0] as int;
        let y = b[1] as int;
        lemma_three(x, y, 0);
        lemma_digit(y % 16 * 4);
        lemma_group(t, x / 4, x % 4 * 16 + y / 16, y % 16 * 4, 0);
        assert(t.skip(4) =~= Seq::<char>::empty());
        assert(bytes_of(t.skip(4)) =~= Seq::<u8>::empty());
        assert(bytes_of(t) =~= b);
    } else if b.len() > 2 {
        let x = b[0] as int;
        let y = b[1] as int;
        let z = b[2] as int;
        lemma_three(x, y, z);
        lemma_digit(y % 16 * 4 + z / 64);
        lemma_digit(z % 64);
        lemma_group(t, x / 4, x % 4 * 16 + y / 16, y % 16 * 4 + z / 64, z % 64);
        pictures_are_written_whole(b.skip(3));
        assert(t.skip(4) =~= preview::base64_text(b.skip(3)));
        assert(seq![b[0], b[1], b[2]] + b.skip(3) =~= b);
        assert(bytes_of(t) =~= b);
    }
}

/// A picture is taken from the address that was given, at the moment that was
/// asked for; the headers are handed over where there are any, and nowhere
/// else.
pub proof fn pictures_are_taken_from_the_address(
    url: Seq<char>,
    seek: Seq<char>,
    head: Seq<char>,
    has_agent: bool,
)
    ensures
        ({
            let args = preview::url_frame_args(url, seek, head, has_agent);
            &&& exists|i: int|
                0 <= i && i + 3 < args.len() && #[trigger] args[i] == "-ss"@ && args[i + 1] == seek
                    && args[i + 2] == "-i"@ && args[i + 3] == url
            &&& head.len() > 0 ==> exists|i: int|
                0 <= i && i + 1 < args.len() && #[trigger] args[i] == "-headers"@ && args[i + 1]
                    == head
            &&& !has_agent ==> exists|i: int|
                0 <= i && i + 1 < args.len() && #[trigger] args[i] == "-user_agent"@ && args[i + 1]
                    == headers::FALLBACK_UA@
        }),
{
    let args = preview::url_frame_args(url, seek, head, has_agent);
    let tail = preview::frame_tail();
    let k = args.len() - tail.len() - 4;
    assert(args[k] == "-ss"@);
    assert(args[k + 1] == seek && args[k + 2] == "-i"@ && args[k + 3] == url);
    if head.len() > 0 {
        assert(args[k - 2] == "-headers"@);
        assert(args[k - 1] == head);
    }
    if !has_agent {
        let m = if head.len() > 0 {
            k - 4
        } else {
            k - 2
        };
        assert(args[m] == "-user_agent"@);
        assert(args[m + 1] == headers::FALLBACK_UA@);
    }
}

/// An image is read as an image, whatever its address says; an address that
/// cannot be reached leaves a trouble behind, and one that was reached leaves
/// none.
pub proof fn answers_decide_the_first_step(url: Seq<char>, status: u16, kind: Seq<char>)
    ensures
        200 <= status < 300 && text::has_prefix(pages::essence(kind), "image/"@)
            ==> preview::begun(url, Some((status, kind))).step is ReadImage,
        200 <= status < 300 ==> preview::begun(url, Some((status, kind))).trouble is None,
        !(200 <= status < 300) ==> (preview::begun(url, Some((status, kind))).trouble matches Some(
            t,
        ) && text::has_suffix(t, number::dec(status as nat))),
        !(200 <= status < 300) ==> !(preview::begun(url, Some((status, kind))).step is ReadImage)
            && !(preview::begun(url, Some((status, kind))).step is ReadPdf),
        preview::begun(url, None).trouble is Some,
        preview::begun(url, None).url == url,
{
    let t = preview::status_trouble(status);
    let d = number::dec(status as nat);
    assert(t.skip(t.len() - d.len()) =~= d);
}

/// A body that is not empty is shown whole, up to the limit for its kind, with
/// its own type; an empty one is an error.
pub proof fn bodies_are_shown(r: preview::RunView, body: Seq<u8>)
    requires
        r.step is ReadImage,
        body.len() <= preview::MAX_IMAGE_BYTES,
    ensures
        body.len() > 0 ==> (preview::after_body(r, Some(body)).step matches StepView::Done(Ok((a, k)))
            && a == "data:"@ + r.content_type + ";base64,"@ + preview::base64_text(body) && k
            is Image),
        body.len() == 0 ==> (preview::after_body(r, Some(body)).step matches StepView::Done(Err(_))),
        preview::after_body(r, None).step matches StepView::Done(Err(_)),
{
}

/// The ways to a picture are tried one after the other: the beginning of a
/// file, the whole file, the segments of a stream, and at last the address
/// itself; what went wrong on the way is told at the end.
pub proof fn ways_are_tried_in_order(r: preview::RunView)
    ensures
        r.step is ReadBeginning ==> preview::after_body(r, None).step is RequestWhole,
        r.step is DecodeBeginning ==> preview::after_frame(r, None).step is RequestWhole,
        r.step is RequestWhole ==> preview::after_request(r, Some(200)).step is ReadWhole,
        r.step is RequestWhole && preview::is_stream(r.content_type, r.url)
            ==> preview::after_request(r, None).step is FetchSegments,
        r.step is RequestWhole && !preview::is_stream(r.content_type, r.url)
            ==> preview::after_request(r, None).step is OpenAddress,
        r.step is RequestWhole ==> preview::after_request(r, Some(404)).trouble is Some,
        r.step is FetchSegments ==> preview::after_segments(r, true).step is DecodeSegments,
        r.step is FetchSegments ==> preview::after_segments(r, true).trouble == r.trouble,
        r.step is FetchSegments ==> preview::after_segments(r, false).step is OpenAddress,
        r.step is FetchSegments ==> preview::after_segments(r, false).trouble is Some,
        r.step is DecodeSegments ==> preview::after_frame(r, None).step is OpenAddress,
        r.step is OpenAddress && r.trouble is Some ==> preview::after_frame(r, None).step
            == StepView::Done(Err(r.trouble->0)),
        r.step is OpenAddress ==> (preview::after_frame(r, None).step matches StepView::Done(Err(_))),
{
}

/// The host of a page is found without its port and in small letters, and a
/// page is on a host and on everything below it.
pub proof fn pages_are_on_their_hosts(
    scheme: Seq<char>,
    host: Seq<char>,
    port: Seq<char>,
    path: Seq<char>,
    sub: Seq<char>,
)
    requires
        !scheme.contains(':'),
        text::free_of(host, "/?#:"@),
        text::free_of(port, "/?#:"@),
    ensures
        pages::page_host(scheme + "://"@ + host + ":"@ + port + "/"@ + path) == Some(
            text::lower(host),
        ),
        pages::below_any(host, seq![host]),
        pages::below_any(sub + "."@ + host, seq![host]),
{
    reveal_strlit("://");
    reveal_strlit(":");
    reveal_strlit("/");
    reveal_strlit("/?#");
    reveal_strlit("/?#:");
    reveal_strlit(".");
    let four = "/?#:"@;
    let three = "/?#"@;
    assert(three[0] == '/' && three[1] == '?' && three[2] == '#' && three.len() == 3);
    assert(four[0] == '/' && four[1] == '?' && four[2] == '#' && four[3] == ':');
    assert(":"@[0] == ':' && ":"@.len() == 1 && "/"@[0] == '/');
    assert forall|c: char| three.contains(c) implies four.contains(c) by {
        let k = choose|k: int| 0 <= k < three.len() && three[k] == c;
        assert(four[k] == c);
    }
    let authority = host + ":"@ + port;
    let tail = authority + ("/"@ + path);
    let url = scheme + "://"@ + host + ":"@ + port + "/"@ + path;
    assert(url =~= scheme + "://"@ + tail);
    let n = scheme.len() as int;
    assert(url.subrange(n, n + 3) =~= "://"@);
    assert forall|i: int| 0 <= i < n implies !text::has_at(url, i, "://"@) by {
        if text::has_at(url, i, "://"@) {
            assert(url.subrange(i, i + 3)[0] == url[i]);
            assert(url[i] == scheme[i]);
            assert(scheme.contains(scheme[i]));
        }
    }
    lemma_found_at(url, "://"@, n);
    assert(url.skip(n + 3) =~= tail);
    assert forall|i: int| 0 <= i < authority.len() implies !three.contains(#[trigger] authority[i]) by {
        if i < host.len() {
            assert(authority[i] == host[i]);
        } else if i > host.len() {
            assert(authority[i] == port[i - host.len() - 1]);
        }
    }
    assert(("/"@ + path)[0] == '/');
    text::lemma_first_behind(authority, "/"@ + path, three);
    assert(tail.take(authority.len() as int) =~= authority);
    assert(text::free_of(host, ":"@)) by {
        assert forall|i: int| 0 <= i < host.len() implies !":"@.contains(#[trigger] host[i]) by {
            assert(!four.contains(host[i]));
        }
    }
    assert(authority =~= host + (":"@ + port));
    assert((":"@ + port)[0] == ':');
    text::lemma_first_behind(host, ":"@ + port, ":"@);
    assert(authority.take(host.len() as int) =~= host);
    let one = seq![host];
    assert(one[0] == host);
    let below = sub + "."@ + host;
    assert(below.skip(below.len() - ("."@ + host).len()) =~= "."@ + host);
}

} // verus!

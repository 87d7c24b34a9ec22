//! Cookie headers, and the cookie files that are made of them.

use vstd::prelude::*;

use crate::text;
use crate::text::{
    cat2, chars_of, contains, one_of, push_chars, push_str, split_all, split_at_first, string_of,
    strip_prefix, to_lower, trimmed,
};
use crate::urls;
use crate::urls::host_of;

verus! {

// ---------------------------------------------------------------------------
// Single cookies
// ---------------------------------------------------------------------------

/// What follows a prefix in the first of the pieces, from position `i` on, that
/// starts with it, white space around the pieces aside.
pub open spec fn after_prefix_from(pieces: Seq<Seq<char>>, prefix: Seq<char>, i: int) -> Option<
    Seq<char>,
>
    decreases pieces.len() - i,
{
    if i < 0 || i >= pieces.len() {
        None
    } else if text::has_prefix(text::trim(pieces[i]), prefix) {
        Some(text::trim(pieces[i]).skip(prefix.len() as int))
    } else {
        after_prefix_from(pieces, prefix, i + 1)
    }
}

/// What follows a prefix in the first piece of a cookie header that starts with it.
pub open spec fn after_prefix(cookie: Seq<char>, prefix: Seq<char>) -> Option<Seq<char>> {
    after_prefix_from(text::split(cookie, ";"@), prefix, 0)
}

/// Finds what follows a prefix in the first piece of a cookie header that starts
/// with it.
pub fn cookie_after(cookie: &str, prefix: &str) -> (r: Option<String>)
    ensures
        text::opt(r) == after_prefix(cookie@, prefix@),
{
    let pieces = split_all(chars_of(cookie).as_slice(), ";");
    let ghost all = text::views(pieces@);
    let mut i: usize = 0;
    while i < pieces.len()
        invariant
            i <= pieces.len(),
            all == text::views(pieces@),
            all == text::split(cookie@, ";"@),
            after_prefix_from(all, prefix@, 0) == after_prefix_from(all, prefix@, i as int),
        decreases pieces.len() - i,
    {
        assert(all[i as int] == pieces@[i as int]@);
        match strip_prefix(trimmed(pieces[i].as_slice()), prefix) {
            Some(rest) => {
                return Some(string_of(rest));
            },
            None => {},
        }
        i += 1;
    }
    None
}

/// A piece of a cookie header as name and value, without the white space around
/// them.
pub open spec fn pair_of(piece: Seq<char>) -> Option<(Seq<char>, Seq<char>)> {
    match text::split_once(text::trim(piece), "="@) {
        Some((k, v)) => Some((text::trim(k), text::trim(v))),
        None => None,
    }
}

fn split_pair<'a>(piece: &'a [char]) -> (r: Option<(&'a [char], &'a [char])>)
    ensures
        match r {
            Some((k, v)) => pair_of(piece@) == Some((k@, v@)),
            None => pair_of(piece@) is None,
        },
{
    match split_at_first(trimmed(piece), "=") {
        Some((k, v)) => Some((trimmed(k), trimmed(v))),
        None => None,
    }
}

// ---------------------------------------------------------------------------
// Cookie files
// ---------------------------------------------------------------------------

/// How many bytes a character takes in UTF-8.
pub open spec fn char_width(c: char) -> nat {
    if (c as u32) < 0x80 {
        1
    } else if (c as u32) < 0x800 {
        2
    } else if (c as u32) < 0x10000 {
        3
    } else {
        4
    }
}

/// How many bytes a text takes in UTF-8.
pub open spec fn byte_len(s: Seq<char>) -> nat
    decreases s.len(),
{
    if s.len() == 0 {
        0
    } else {
        byte_len(s.drop_last()) + char_width(s.last())
    }
}

/// Whether a text takes more than `limit` bytes in UTF-8.
pub fn longer_than(s: &[char], limit: u32) -> (r: bool)
    ensures
        r == (byte_len(s@) > limit),
{
    let mut i: usize = 0;
    let mut n: u64 = 0;
    assert(s@.take(0) =~= Seq::empty());
    while i < s.len()
        invariant
            i <= s.len(),
            n == byte_len(s@.take(i as int)),
            n <= limit,
        decreases s.len() - i,
    {
        let c = s[i] as u32;
        let w: u64 = if c < 0x80 {
            1
        } else if c < 0x800 {
            2
        } else if c < 0x10000 {
            3
        } else {
            4
        };
        proof {
            let next = s@.take(i + 1);
            assert(next.drop_last() =~= s@.take(i as int));
            assert(next.last() == s@[i as int]);
        }
        n = n + w;
        i += 1;
        if n > limit as u64 {
            proof {
                lemma_byte_len_grows(s@, i as int);
            }
            return true;
        }
    }
    assert(s@.take(s@.len() as int) =~= s@);
    false
}

/// Whether a text takes exactly `n` bytes in UTF-8.
pub fn takes_bytes(s: &[char], n: u32) -> (r: bool)
    requires
        n > 0,
    ensures
        r == (byte_len(s@) == n),
{
    longer_than(s, n - 1) && !longer_than(s, n)
}

proof fn lemma_byte_len_grows(s: Seq<char>, k: int)
    requires
        0 <= k <= s.len(),
    ensures
        byte_len(s.take(k)) <= byte_len(s),
    decreases s.len(),
{
    if k < s.len() {
        lemma_byte_len_grows(s.drop_last(), k);
        assert(s.drop_last().take(k) =~= s.take(k));
    } else {
        assert(s.take(k) =~= s);
    }
}

/// The first line of a cookie file.
pub open spec fn file_head() -> Seq<char> {
    "# Netscape HTTP Cookie File\n"@
}

/// The line of a cookie in a cookie file.
pub open spec fn file_line(domain: Seq<char>, k: Seq<char>, v: Seq<char>) -> Seq<char> {
    domain + "\tTRUE\t/\tTRUE\t2000000000\t"@ + k + "\t"@ + v + "\n"@
}

fn push_line(body: &mut Vec<char>, domain: &str, k: &[char], v: &[char])
    ensures
        final(body)@ == old(body)@ + file_line(domain@, k@, v@),
{
    let ghost before = body@;
    push_str(body, domain);
    push_str(body, "\tTRUE\t/\tTRUE\t2000000000\t");
    push_chars(body, k);
    push_str(body, "\t");
    push_chars(body, v);
    push_str(body, "\n");
    assert(body@ =~= before + file_line(domain@, k@, v@));
}

/// Cookies, in lower case, that tell YouTube and Google who asks.
pub open spec fn google_cookies() -> Seq<Seq<char>> {
    seq![
        "sid"@, "hsid"@, "ssid"@, "apisid"@, "sapisid"@, "__secure-1psid"@, "__secure-3psid"@,
        "__secure-1papisid"@, "__secure-3papisid"@, "login_info"@, "visitor_info1_live"@,
        "visitor_privacy_metadata"@, "pref"@, "ysc"@, "consent"@, "socs"@, "gps"@
    ]
}

/// Whether a cookie is worth sending to a host. YouTube and Google get those that
/// tell who asks, whatever the case of their names; other hosts get all.
pub open spec fn is_useful(name: Seq<char>, host: Seq<char>) -> bool {
    (text::holds(host, "youtube"@) || text::holds(host, "google"@)) ==> google_cookies().contains(
        text::lower(name),
    )
}

/// Tells whether a cookie is worth sending to a host.
pub fn is_useful_cookie(name: &[char], host: &str) -> (r: bool)
    ensures
        r == is_useful(name@, host@),
{
    let h = chars_of(host);
    if contains(h.as_slice(), "youtube") || contains(h.as_slice(), "google") {
        let list: Vec<&str> = vec![
            "sid", "hsid", "ssid", "apisid", "sapisid", "__secure-1psid", "__secure-3psid",
            "__secure-1papisid", "__secure-3papisid", "login_info", "visitor_info1_live",
            "visitor_privacy_metadata", "pref", "ysc", "consent", "socs", "gps"
        ];
        assert(text::str_texts(list@) =~= google_cookies());
        let low = to_lower(name);
        one_of(low.as_slice(), &list)
    } else {
        true
    }
}

/// A piece of a cookie header that goes into the cookie file for a host: it has a
/// name, its value is not longer than 800 bytes, and it is worth sending.
pub open spec fn kept_pair(piece: Seq<char>, host: Seq<char>) -> Option<(Seq<char>, Seq<char>)> {
    match pair_of(piece) {
        Some((k, v)) => if k.len() > 0 && byte_len(v) <= 800 && is_useful(k, host) {
            Some((k, v))
        } else {
            None
        },
        None => None,
    }
}

/// How many cookies a cookie file holds, and its text, once the pieces from
/// position `i` on are added: no more once there are 20 or the file has more than
/// 4096 bytes.
pub open spec fn jar_from(
    pieces: Seq<Seq<char>>,
    host: Seq<char>,
    domain: Seq<char>,
    i: int,
    kept: nat,
    body: Seq<char>,
) -> (nat, Seq<char>)
    decreases pieces.len() - i,
{
    if i < 0 || i >= pieces.len() {
        (kept, body)
    } else {
        match kept_pair(pieces[i], host) {
            Some((k, v)) => {
                let more = body + file_line(domain, k, v);
                if kept + 1 >= 20 || byte_len(more) > 4096 {
                    (kept + 1, more)
                } else {
                    jar_from(pieces, host, domain, i + 1, kept + 1, more)
                }
            },
            None => jar_from(pieces, host, domain, i + 1, kept, body),
        }
    }
}

/// The domain that the cookies of a host are filed under.
pub open spec fn cookie_domain(host: Seq<char>) -> Seq<char> {
    "."@ + (if text::has_prefix(host, "www."@) {
        host.skip(4)
    } else {
        host
    })
}

/// The cookie file for a URL; none where no cookie goes into it.
pub open spec fn jar(cookie: Seq<char>, url: Seq<char>) -> Option<Seq<char>> {
    let c = text::trim(cookie);
    match urls::host_in(url) {
        Some(host) => {
            let (kept, body) = jar_from(
                text::split(c, ";"@),
                host,
                cookie_domain(host),
                0,
                0,
                file_head(),
            );
            if c.len() == 0 || kept == 0 {
                None
            } else {
                Some(body)
            }
        },
        None => None,
    }
}

/// Makes the cookie file for a URL.
pub fn cookie_jar(cookie: &str, url: &str) -> (r: Option<String>)
    ensures
        text::opt(r) == jar(cookie@, url@),
{
    let cs = chars_of(cookie);
    let c = trimmed(cs.as_slice());
    if c.len() == 0 {
        return None;
    }
    let host = match host_of(url) {
        Some(h) => h,
        None => {
            return None;
        },
    };
    let hs = chars_of(host.as_str());
    proof {
        reveal_strlit("www.");
    }
    let domain = match strip_prefix(hs.as_slice(), "www.") {
        Some(rest) => cat2(".", string_of(rest).as_str()),
        None => cat2(".", host.as_str()),
    };
    assert(domain@ == cookie_domain(host@));
    let pieces = split_all(c, ";");
    let ghost all = text::views(pieces@);
    let ghost whole = jar_from(all, host@, domain@, 0, 0, file_head());
    let mut body = chars_of("# Netscape HTTP Cookie File\n");
    let mut kept: u32 = 0;
    let mut i: usize = 0;
    while i < pieces.len()
        invariant
            i <= pieces.len(),
            kept < 20,
            all == text::views(pieces@),
            whole == jar_from(all, host@, domain@, i as int, kept as nat, body@),
            c@ == text::trim(cookie@),
            c@.len() > 0,
            urls::host_in(url@) == Some(host@),
            domain@ == cookie_domain(host@),
            all == text::split(c@, ";"@),
            whole == jar_from(all, host@, domain@, 0, 0, file_head()),
        decreases pieces.len() - i,
    {
        assert(all[i as int] == pieces@[i as int]@);
        match split_pair(pieces[i].as_slice()) {
            Some((k, v)) => {
                if k.len() > 0 && !longer_than(v, 800) && is_useful_cookie(k, host.as_str()) {
                    push_line(&mut body, domain.as_str(), k, v);
                    kept = kept + 1;
                    if kept >= 20 || longer_than(body.as_slice(), 4096) {
                        return Some(string_of(body.as_slice()));
                    }
                }
            },
            None => {},
        }
        i += 1;
    }
    if kept == 0 {
        None
    } else {
        Some(string_of(body.as_slice()))
    }
}

/// Whether a text is another one with the line of a cookie behind it that is worth
/// sending to a host, the other one being no longer than 4096 bytes.
pub open spec fn ends_with_cookie(
    front: Seq<char>,
    k: Seq<char>,
    v: Seq<char>,
    host: Seq<char>,
    domain: Seq<char>,
    body: Seq<char>,
) -> bool {
    &&& body == front + file_line(domain, k, v)
    &&& byte_len(front) <= 4096
    &&& k.len() > 0
    &&& byte_len(v) <= 800
    &&& is_useful(k, host)
}

/// A cookie file stays small: it holds at most 20 cookies, and it is no longer than
/// 4096 bytes but for its last cookie, whose value has at most 800.
pub proof fn cookie_files_are_small(
    pieces: Seq<Seq<char>>,
    host: Seq<char>,
    domain: Seq<char>,
    i: int,
    kept: nat,
    body: Seq<char>,
)
    requires
        kept < 20,
        byte_len(body) <= 4096,
    ensures
        ({
            let (n, file) = jar_from(pieces, host, domain, i, kept, body);
            &&& kept <= n <= 20
            &&& n == kept ==> file == body
            &&& n > kept ==> exists|front: Seq<char>, k: Seq<char>, v: Seq<char>|
                ends_with_cookie(front, k, v, host, domain, file)
        }),
    decreases pieces.len() - i,
{
    if 0 <= i < pieces.len() {
        match kept_pair(pieces[i], host) {
            Some((k, v)) => {
                let more = body + file_line(domain, k, v);
                assert(ends_with_cookie(body, k, v, host, domain, more));
                if !(kept + 1 >= 20 || byte_len(more) > 4096) {
                    cookie_files_are_small(pieces, host, domain, i + 1, kept + 1, more);
                }
                let file = jar_from(pieces, host, domain, i, kept, body).1;
                if file == more {
                    assert(ends_with_cookie(body, k, v, host, domain, file));
                }
            },
            None => {
                cookie_files_are_small(pieces, host, domain, i + 1, kept, body);
            },
        }
    }
}

/// Cookies that tell Instagram who asks.
pub open spec fn instagram_cookies() -> Seq<Seq<char>> {
    seq!["sessionid"@, "csrftoken"@, "ds_user_id"@, "mid"@, "ig_did"@]
}

/// A piece of a cookie header that goes into the cookie file for Instagram.
pub open spec fn ig_pair(piece: Seq<char>) -> Option<(Seq<char>, Seq<char>)> {
    match pair_of(piece) {
        Some((k, v)) => if v.len() > 0 && instagram_cookies().contains(k) {
            Some((k, v))
        } else {
            None
        },
        None => None,
    }
}

/// The lines of the cookie file for Instagram, for the pieces from position `i` on.
pub open spec fn ig_lines_from(pieces: Seq<Seq<char>>, i: int) -> Seq<char>
    decreases pieces.len() - i,
{
    if i < 0 || i >= pieces.len() {
        Seq::empty()
    } else {
        match ig_pair(pieces[i]) {
            Some((k, v)) => file_line(".instagram.com"@, k, v) + ig_lines_from(pieces, i + 1),
            None => ig_lines_from(pieces, i + 1),
        }
    }
}

/// The cookie file for Instagram; none where no cookie goes into it.
pub open spec fn ig_jar(cookie: Seq<char>) -> Option<Seq<char>> {
    let lines = ig_lines_from(text::split(text::trim(cookie), ";"@), 0);
    if lines.len() == 0 {
        None
    } else {
        Some(file_head() + lines)
    }
}

/// Makes the cookie file for Instagram.
pub fn ig_cookie_jar(cookie: &str) -> (r: Option<String>)
    ensures
        text::opt(r) == ig_jar(cookie@),
{
    let cs = chars_of(cookie);
    let pieces = split_all(trimmed(cs.as_slice()), ";");
    let ghost all = text::views(pieces@);
    let keep: Vec<&str> = vec!["sessionid", "csrftoken", "ds_user_id", "mid", "ig_did"];
    assert(text::str_texts(keep@) =~= instagram_cookies());
    let mut lines: Vec<char> = Vec::new();
    let mut i: usize = 0;
    while i < pieces.len()
        invariant
            i <= pieces.len(),
            all == text::views(pieces@),
            text::str_texts(keep@) == instagram_cookies(),
            lines@ + ig_lines_from(all, i as int) == ig_lines_from(all, 0),
        decreases pieces.len() - i,
    {
        assert(all[i as int] == pieces@[i as int]@);
        match split_pair(pieces[i].as_slice()) {
            Some((k, v)) => {
                if v.len() > 0 && one_of(k, &keep) {
                    let ghost before = lines@;
                    let ghost line = file_line(".instagram.com"@, k@, v@);
                    push_line(&mut lines, ".instagram.com", k, v);
                    assert(before + (line + ig_lines_from(all, i + 1)) =~= lines@ + ig_lines_from(
                        all,
                        i + 1,
                    ));
                }
            },
            None => {},
        }
        i += 1;
    }
    assert(lines@ =~= ig_lines_from(all, 0));
    if lines.len() == 0 {
        None
    } else {
        Some(cat2("# Netscape HTTP Cookie File\n", string_of(lines.as_slice()).as_str()))
    }
}

} // verus!

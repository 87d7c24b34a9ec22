//! The headers that a browser captured, and the headers that requests for the same
//! media go out with.

use vstd::prelude::*;

use crate::net;
use crate::net::RequestContext;
use crate::strmap;
use crate::strmap::StrMap;
use crate::text;
use crate::text::{
    cat2, cat3, chars_of, copy_opt, cut_before_first, find_str, join_strings, one_of, push_str,
    same_ignoring_case, string_of, to_lower,
};

verus! {

/// Sent where a browser captured no `User-Agent`.
pub const FALLBACK_UA: &'static str =
    "Mozilla/5.0 (Windows NT 10.0; Win64; x64) AppleWebKit/537.36 (KHTML, like Gecko) Chrome/137.0.0.0 Safari/537.36";

/// Captured headers: names with all their values.
pub open spec fn captured(p: Seq<(String, Vec<String>)>) -> Seq<(Seq<char>, Seq<Seq<char>>)> {
    p.map_values(|q: (String, Vec<String>)| (q.0@, text::texts(q.1@)))
}

/// Whether a name is the given one, whatever the case.
pub open spec fn named(name: Seq<char>, want: Seq<char>) -> bool {
    text::lower(name) == text::lower(want)
}

/// The first value of the first header, from the `i`-th on, with a name.
pub open spec fn first_value(
    h: Seq<(Seq<char>, Seq<Seq<char>>)>,
    name: Seq<char>,
    i: int,
) -> Option<Seq<char>>
    decreases h.len() - i,
{
    if i < 0 || i >= h.len() {
        None
    } else if named(h[i].0, name) {
        if h[i].1.len() > 0 {
            Some(h[i].1[0])
        } else {
            None
        }
    } else {
        first_value(h, name, i + 1)
    }
}

/// The first value of a header, whatever the case of its name.
pub fn first_header<'a>(headers: &'a StrMap<Vec<String>>, name: &str) -> (r: Option<&'a str>)
    ensures
        text::opt_str(r) == first_value(captured(headers.list()), name@, 0),
{
    let ghost all = captured(headers.list());
    let n: usize = headers.len();
    let mut i: usize = 0;
    while i < n
        invariant
            i <= n,
            n == headers.list().len(),
            all == captured(headers.list()),
            first_value(all, name@, 0) == first_value(all, name@, i as int),
        decreases n - i,
    {
        assert(all[i as int] == (
            headers.list()[i as int].0@,
            text::texts(headers.list()[i as int].1@),
        ));
        if same_ignoring_case(chars_of(headers.key_at(i).as_str()).as_slice(), name) {
            let values = headers.value_at(i);
            if values.len() > 0 {
                assert(text::texts(values@)[0] == values@[0]@);
                return Some(values[0].as_str());
            } else {
                return None;
            }
        }
        i += 1;
    }
    None
}

/// Each header with its values in one, without those of the given name where there is
/// one.
pub open spec fn joined(h: Seq<(Seq<char>, Seq<Seq<char>>)>, drop_agent: bool) -> Seq<
    (Seq<char>, Seq<char>),
>
    decreases h.len(),
{
    if h.len() == 0 {
        Seq::empty()
    } else {
        let rest = joined(h.drop_last(), drop_agent);
        if drop_agent && named(h.last().0, "user-agent"@) {
            rest
        } else {
            rest.push((h.last().0, text::join(h.last().1, ", "@)))
        }
    }
}

/// Captured headers as they are sent, the `User-Agent` of the browser in place of a
/// captured one.
pub open spec fn flattened(h: Seq<(Seq<char>, Seq<Seq<char>>)>, agent: Option<Seq<char>>) -> Seq<
    (Seq<char>, Seq<char>),
> {
    match agent {
        Some(a) => joined(h, true).push(("User-Agent"@, a)),
        None => joined(h, false),
    }
}

/// Whether no two headers share a name.
pub open spec fn names_differ<V>(h: Seq<(Seq<char>, V)>) -> bool {
    forall|i: int, j: int| 0 <= i < j < h.len() ==> (#[trigger] h[i]).0 != (#[trigger] h[j]).0
}

proof fn lemma_joined(h: Seq<(Seq<char>, Seq<Seq<char>>)>, drop_agent: bool)
    requires
        names_differ(h),
    ensures
        names_differ(joined(h, drop_agent)),
        forall|i: int|
            0 <= i < joined(h, drop_agent).len() ==> exists|j: int|
                0 <= j < h.len() && (#[trigger] h[j]).0 == (#[trigger] joined(h, drop_agent)[i]).0,
        drop_agent ==> forall|i: int|
            0 <= i < joined(h, drop_agent).len() ==> !named(
                (#[trigger] joined(h, drop_agent)[i]).0,
                "user-agent"@,
            ),
    decreases h.len(),
{
    if h.len() > 0 {
        let d = h.drop_last();
        assert forall|i: int, j: int| 0 <= i < j < d.len() implies (#[trigger] d[i]).0 != (
        #[trigger] d[j]).0 by {
            assert(h[i].0 != h[j].0);
        }
        lemma_joined(d, drop_agent);
        let rest = joined(d, drop_agent);
        let all = joined(h, drop_agent);
        assert forall|i: int| 0 <= i < all.len() implies exists|j: int|
            0 <= j < h.len() && (#[trigger] h[j]).0 == (#[trigger] all[i]).0 by {
            if i < rest.len() {
                assert(all[i] == rest[i]);
                let j = choose|j: int| 0 <= j < d.len() && (#[trigger] d[j]).0 == rest[i].0;
                assert(h[j].0 == all[i].0);
            } else {
                assert(h[h.len() - 1].0 == all[i].0);
            }
        }
        assert forall|i: int, j: int| 0 <= i < j < all.len() implies (#[trigger] all[i]).0 != (
        #[trigger] all[j]).0 by {
            assert(all[i] == rest[i]);
            if j < rest.len() {
                assert(all[j] == rest[j]);
            } else {
                let k = choose|k: int| 0 <= k < d.len() && (#[trigger] d[k]).0 == rest[i].0;
                assert(h[k].0 != h[h.len() - 1].0);
            }
        }
        if drop_agent {
            assert forall|i: int| 0 <= i < all.len() implies !named(
                (#[trigger] all[i]).0,
                "user-agent"@,
            ) by {
                if i < rest.len() {
                    assert(all[i] == rest[i]);
                }
            }
        }
    }
}

/// No header goes out twice, and a `User-Agent` of the browser goes out alone.
pub proof fn headers_go_out_once(
    h: Seq<(Seq<char>, Seq<Seq<char>>)>,
    agent: Option<Seq<char>>,
    i: int,
)
    requires
        names_differ(h),
    ensures
        names_differ(flattened(h, agent)),
        agent matches Some(a) ==> (0 <= i < flattened(h, agent).len() && named(
            flattened(h, agent)[i].0,
            "User-Agent"@,
        ) ==> i == flattened(h, agent).len() - 1 && flattened(h, agent)[i].1 == a),
{
    lemma_joined(h, agent is Some);
    reveal_strlit("User-Agent");
    reveal_strlit("user-agent");
    assert(text::lower("User-Agent"@) =~= text::lower("user-agent"@));
    if agent is Some {
        let rest = joined(h, true);
        let all = flattened(h, agent);
        assert forall|a: int, b: int| 0 <= a < b < all.len() implies (#[trigger] all[a]).0 != (
        #[trigger] all[b]).0 by {
            assert(all[a] == rest[a]);
            assert(!named(rest[a].0, "user-agent"@));
            if b < rest.len() {
                assert(all[b] == rest[b]);
            }
        }
        if 0 <= i < rest.len() {
            assert(all[i] == rest[i]);
            assert(!named(rest[i].0, "user-agent"@));
        }
    }
}

/// Captured headers as they are sent, the `User-Agent` of the browser in place of a
/// captured one.
pub fn flatten_headers(headers: &StrMap<Vec<String>>, user_agent: &Option<String>) -> (r: StrMap<
    String,
>)
    ensures
        net::pairs_view(r.list()) == flattened(captured(headers.list()), text::opt(*user_agent)),
        r@ == strmap::map_of(r.list()),
{
    let ghost all = captured(headers.list());
    let n: usize = headers.len();
    proof {
        assert forall|a: int, b: int| 0 <= a < b < all.len() implies (#[trigger] all[a]).0 != (
        #[trigger] all[b]).0 by {
            assert(headers.list()[a].0@ != headers.list()[b].0@);
        }
    }
    let drop_agent = user_agent.is_some();
    let mut pairs: Vec<(String, String)> = Vec::new();
    let mut i: usize = 0;
    assert(all.take(0) =~= Seq::empty());
    assert(net::pairs_view(pairs@) =~= Seq::empty());
    while i < n
        invariant
            i <= n,
            n == headers.list().len(),
            all == captured(headers.list()),
            net::pairs_view(pairs@) == joined(all.take(i as int), drop_agent),
        decreases n - i,
    {
        let ghost before = net::pairs_view(pairs@);
        proof {
            let next = all.take(i + 1);
            assert(next.drop_last() =~= all.take(i as int));
            assert(next.last() == all[i as int]);
            assert(all[i as int] == (
                headers.list()[i as int].0@,
                text::texts(headers.list()[i as int].1@),
            ));
        }
        let key = headers.key_at(i);
        if !(drop_agent && same_ignoring_case(chars_of(key.as_str()).as_slice(), "user-agent")) {
            let pair = (key.clone(), join_strings(headers.value_at(i), ", "));
            let ghost shown = net::pair_view(pair);
            pairs.push(pair);
            assert(net::pairs_view(pairs@) =~= before.push(shown));
        }
        i += 1;
    }
    assert(all.take(n as int) =~= all);
    match user_agent {
        Some(a) => {
            let ghost before = net::pairs_view(pairs@);
            let pair = ("User-Agent".to_string(), a.clone());
            let ghost shown = net::pair_view(pair);
            pairs.push(pair);
            assert(net::pairs_view(pairs@) =~= before.push(shown));
        },
        None => {},
    }
    proof {
        headers_go_out_once(all, text::opt(*user_agent), 0);
        let out = net::pairs_view(pairs@);
        assert forall|a: int, b: int| 0 <= a < b < pairs@.len() implies (#[trigger] pairs@[a]).0@
            != (#[trigger] pairs@[b]).0@ by {
            assert(out[a].0 == pairs@[a].0@);
            assert(out[b].0 == pairs@[b].0@);
        }
    }
    StrMap::of_pairs(pairs)
}

/// Whether a header is there, whatever the case of its name.
pub open spec fn has_header(h: Seq<(Seq<char>, Seq<char>)>, name: Seq<char>) -> bool {
    exists|i: int| 0 <= i < h.len() && named((#[trigger] h[i]).0, name)
}

fn header_there(h: &StrMap<String>, name: &str) -> (r: bool)
    ensures
        r == has_header(net::pairs_view(h.list()), name@),
{
    let ghost all = net::pairs_view(h.list());
    let n: usize = h.len();
    let mut i: usize = 0;
    while i < n
        invariant
            i <= n,
            n == h.list().len(),
            all == net::pairs_view(h.list()),
            forall|j: int| 0 <= j < i ==> !named((#[trigger] all[j]).0, name@),
        decreases n - i,
    {
        assert(all[i as int].0 == h.list()[i as int].0@);
        if same_ignoring_case(chars_of(h.key_at(i).as_str()).as_slice(), name) {
            return true;
        }
        i += 1;
    }
    false
}

fn add_header(h: &mut StrMap<String>, name: &str, value: String)
    requires
        !has_header(net::pairs_view(old(h).list()), name@),
    ensures
        net::pairs_view(final(h).list()) == net::pairs_view(old(h).list()).push((name@, value@)),
{
    let n: usize = h.len();
    let ghost before = h.list();
    proof {
        strmap::lemma_map_of(before);
        assert(!strmap::has_key(before, name@)) by {
            if strmap::has_key(before, name@) {
                let i = choose|i: int| 0 <= i < before.len() && (#[trigger] before[i]).0@ == name@;
                assert(net::pairs_view(before)[i].0 == name@);
            }
        }
        assert(h@.dom().contains(name@) == strmap::has_key(before, name@));
    }
    let ghost shown = value@;
    h.insert(name.to_string(), value);
    assert(net::pairs_view(h.list()) =~= net::pairs_view(before).push((name@, shown)));
}

/// The front page of the site of a page; the page itself where it has no scheme.
pub open spec fn front_page(page: Seq<char>) -> Seq<char> {
    let i = text::find(page, "://"@, 0);
    if i < 0 {
        page
    } else {
        page.take(i) + "://"@ + text::before_first(page.skip(i + "://"@.len()), "/"@) + "/"@
    }
}

fn write_front_page(page: &str) -> (r: String)
    ensures
        r@ == front_page(page@),
{
    let cs = chars_of(page);
    let n: usize = chars_of("://").len();
    match find_str(cs.as_slice(), "://") {
        None => page.to_string(),
        Some(i) => {
            let scheme = vstd::slice::slice_subrange(cs.as_slice(), 0, i);
            let rest = vstd::slice::slice_subrange(cs.as_slice(), i + n, cs.len());
            assert(scheme@ =~= cs@.take(i as int));
            assert(rest@ =~= cs@.skip(i + n));
            let front = cat2(string_of(scheme).as_str(), "://");
            let host = string_of(cut_before_first(rest, "/"));
            cat3(front.as_str(), host.as_str(), "/")
        },
    }
}

/// Headers with a `Referer` from the page where they have none.
pub open spec fn with_referer(h: Seq<(Seq<char>, Seq<char>)>, page: Option<Seq<char>>) -> Seq<
    (Seq<char>, Seq<char>),
> {
    match page {
        Some(p) if !has_header(h, "Referer"@) => h.push(("Referer"@, front_page(p))),
        _ => h,
    }
}

/// Headers with a `User-Agent`.
pub open spec fn with_agent(h: Seq<(Seq<char>, Seq<char>)>) -> Seq<(Seq<char>, Seq<char>)> {
    if has_header(h, "User-Agent"@) {
        h
    } else {
        h.push(("User-Agent"@, FALLBACK_UA@))
    }
}

/// The context in which a preview of captured media is requested: a browser often
/// withholds the `Referer` and the `User-Agent`, without which hosts refuse.
pub fn preview_context(
    headers: &StrMap<Vec<String>>,
    user_agent: &Option<String>,
    page: Option<&str>,
    cookie: &Option<String>,
) -> (r: RequestContext)
    ensures
        net::pairs_view(r.headers.list()) == with_agent(
            with_referer(
                flattened(captured(headers.list()), text::opt(*user_agent)),
                text::opt_str(page),
            ),
        ),
        r.cookie == *cookie,
{
    let mut flat = flatten_headers(headers, user_agent);
    match page {
        Some(p) => {
            if !header_there(&flat, "Referer") {
                add_header(&mut flat, "Referer", write_front_page(p));
            }
        },
        None => {},
    }
    if !header_there(&flat, "User-Agent") {
        add_header(&mut flat, "User-Agent", FALLBACK_UA.to_string());
    }
    RequestContext { headers: flat, cookie: copy_opt(cookie) }
}

/// Headers that a program which opens the media by itself sets by itself.
pub open spec fn own_headers() -> Seq<Seq<char>> {
    seq!["host"@, "accept-encoding"@, "connection"@, "content-length"@]
}

/// Header lines, one after the other, without those that the program sets by itself.
pub open spec fn header_lines(h: Seq<(Seq<char>, Seq<char>)>) -> Seq<char>
    decreases h.len(),
{
    if h.len() == 0 {
        Seq::empty()
    } else {
        let rest = header_lines(h.drop_last());
        if own_headers().contains(text::lower(h.last().0)) {
            rest
        } else {
            rest + h.last().0 + ": "@ + h.last().1 + "\r\n"@
        }
    }
}

/// Header lines and a line for the cookies.
pub open spec fn header_text(h: Seq<(Seq<char>, Seq<char>)>, cookie: Option<Seq<char>>) -> Seq<
    char,
> {
    match cookie {
        Some(c) => header_lines(h) + "Cookie: "@ + c + "\r\n"@,
        None => header_lines(h),
    }
}

fn sets_itself(name: &str) -> (r: bool)
    ensures
        r == own_headers().contains(text::lower(name@)),
{
    let list: Vec<&str> = vec!["host", "accept-encoding", "connection", "content-length"];
    assert(text::str_texts(list@) =~= own_headers());
    let low = to_lower(chars_of(name).as_slice());
    one_of(low.as_slice(), &list)
}

/// Writes the headers of a context for a program that opens the media by itself.
pub fn write_headers(ctx: &RequestContext) -> (r: String)
    ensures
        r@ == header_text(net::pairs_view(ctx.headers.list()), text::opt(ctx.cookie)),
{
    let ghost all = net::pairs_view(ctx.headers.list());
    let n: usize = ctx.headers.len();
    let mut out: Vec<char> = Vec::new();
    let mut i: usize = 0;
    assert(all.take(0) =~= Seq::empty());
    while i < n
        invariant
            i <= n,
            n == ctx.headers.list().len(),
            all == net::pairs_view(ctx.headers.list()),
            out@ == header_lines(all.take(i as int)),
        decreases n - i,
    {
        proof {
            let next = all.take(i + 1);
            assert(next.drop_last() =~= all.take(i as int));
            assert(next.last() == net::pair_view(ctx.headers.list()[i as int]));
        }
        let name = ctx.headers.key_at(i).as_str();
        if !sets_itself(name) {
            push_str(&mut out, name);
            push_str(&mut out, ": ");
            push_str(&mut out, ctx.headers.value_at(i).as_str());
            push_str(&mut out, "\r\n");
        }
        i += 1;
    }
    assert(all.take(n as int) =~= all);
    match &ctx.cookie {
        Some(c) => {
            push_str(&mut out, "Cookie: ");
            push_str(&mut out, c.as_str());
            push_str(&mut out, "\r\n");
        },
        None => {},
    }
    string_of(out.as_slice())
}

/// Tells whether a context has a `User-Agent`.
pub fn has_agent(ctx: &RequestContext) -> (r: bool)
    ensures
        r == has_header(net::pairs_view(ctx.headers.list()), "User-Agent"@),
{
    header_there(&ctx.headers, "User-Agent")
}

} // verus!

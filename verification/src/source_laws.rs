//! Laws of where downloads come from: what a page offers, who fetches it, and
//! with which cookies.
use vstd::prelude::*;

use crate::backend::{Confidence, HostRoute};
use crate::cookies;
use crate::detections;
use crate::detections::DetectionsView;
use crate::dns;
use crate::instagram::TargetView;
use crate::instagram_laws;
use crate::instaloader;
use crate::instaloader::Engine;
use crate::json::JsonView;
use crate::number;
use crate::pages;
use crate::registry;
use crate::registry::{Backend, Choice};
use crate::social;
use crate::sorting;
use crate::text;
use crate::urls;

verus! {

// ---------------------------------------------------------------------------
// Posts
// ---------------------------------------------------------------------------

/// The width that an image states, and zero where it states none.
pub open spec fn image_width(j: JsonView) -> int {
    match instagram_laws::stated_width(j) {
        Some(w) => w,
        None => 0,
    }
}

/// The image that is taken is one of the list, of at least the width of every
/// other.
pub proof fn taken_images_are_of_the_list(s: Seq<JsonView>, key: Seq<char>, i: int)
    requires
        0 <= i < s.len(),
        s[i].text_at(key) is Some,
    ensures
        social::image_in(Some(JsonView::List(s)), key) matches Some(src) && exists|k: int|
            0 <= k < s.len() && (#[trigger] s[k]).text_at(key) == Some(src) && image_width(s[k])
                >= image_width(s[i]),
{
    lemma_widest(s, key);
    social::the_widest_image_is_taken(s, key, i);
    lemma_width(s[i]);
    let w = social::widest(s, key)->0;
    let k = choose|k: int|
        0 <= k < s.len() && (#[trigger] s[k]).text_at(key) == Some(w.0)
            && crate::instagram::width_of(s[k], 0) == w.1;
    lemma_width(s[k]);
}

proof fn lemma_width(j: JsonView)
    ensures
        crate::instagram::width_of(j, 0) == image_width(j),
{
}

proof fn lemma_widest(s: Seq<JsonView>, key: Seq<char>)
    ensures
        social::widest(s, key) matches Some(w) ==> exists|k: int|
            0 <= k < s.len() && (#[trigger] s[k]).text_at(key) == Some(w.0)
                && crate::instagram::width_of(s[k], 0) == w.1,
    decreases s.len(),
{
    if s.len() > 0 {
        lemma_widest(s.drop_last(), key);
        if social::widest(s, key) is Some {
            let w = social::widest(s, key)->0;
            let front = social::widest(s.drop_last(), key);
            if front == Some(w) {
                let k = choose|k: int|
                    0 <= k < s.len() - 1 && (#[trigger] s.drop_last()[k]).text_at(key) == Some(w.0)
                        && crate::instagram::width_of(s.drop_last()[k], 0) == w.1;
                assert(s[k] == s.drop_last()[k]);
            } else {
                assert(s[s.len() - 1] == s.last());
            }
        }
    }
}

/// A video is taken as a video, and never where the post says that it is none.
pub proof fn videos_come_first(node: JsonView, url: Seq<char>, other: Seq<char>)
    requires
        node.text_at("video_url"@) == Some(url),
        node.text_at("display_url"@) == Some(other),
        node.get("display_resources"@) is None,
        node.get("image_versions2"@) is None,
    ensures
        node.get("is_video"@) == Some(JsonView::Bool(true)) ==> social::node_url(node) == Some(url),
        node.get("is_video"@) == Some(JsonView::Bool(false)) && node.get("media_type"@) is None
            ==> social::node_url(node) == Some(other),
{
    if node.get("is_video"@) is Some {
        let v = node.get("is_video"@)->0;
        assert(v == JsonView::Bool(true) ==> v.as_truth() == Some(true));
        assert(v == JsonView::Bool(false) ==> v.as_truth() == Some(false));
    }
    let n = Some(node);
    assert(node is Object);
    assert(social::step(n, "display_resources"@) is None);
    assert(social::step(n, "image_versions2"@) is None);
    assert(social::step(None, "candidates"@) is None);
}

proof fn lemma_children(edges: Seq<JsonView>)
    requires
        forall|i: int|
            0 <= i < edges.len() ==> ((#[trigger] edges[i]).get("node"@) matches Some(n)
                && social::node_url(n) is Some),
    ensures
        social::child_urls(edges).len() == edges.len(),
        forall|i: int|
            0 <= i < edges.len() ==> #[trigger] social::child_urls(edges)[i] == social::node_url(
                edges[i].get("node"@)->0,
            )->0,
    decreases edges.len(),
{
    if edges.len() > 0 {
        let front = edges.drop_last();
        assert forall|i: int| 0 <= i < front.len() implies ((#[trigger] front[i]).get("node"@) matches
            Some(n) && social::node_url(n) is Some) by {
            assert(front[i] == edges[i]);
        }
        lemma_children(front);
        assert(edges[edges.len() - 1] == edges.last());
        assert forall|i: int| 0 <= i < edges.len() implies #[trigger] social::child_urls(edges)[i]
            == social::node_url(edges[i].get("node"@)->0)->0 by {
            if i < front.len() {
                assert(front[i] == edges[i]);
                assert(social::child_urls(front)[i] == social::node_url(
                    front[i].get("node"@)->0,
                )->0);
            }
        }
    }
}

/// Of a post with several items every item is taken, and in order.
pub proof fn carousels_are_taken_whole(media: JsonView, edges: Seq<JsonView>, i: int)
    requires
        social::children_of(media) == Some(edges),
        0 <= i < edges.len(),
        forall|k: int|
            0 <= k < edges.len() ==> ((#[trigger] edges[k]).get("node"@) matches Some(n)
                && social::node_url(n) is Some),
    ensures
        social::post_urls(media) matches Ok(urls) && urls.len() == edges.len() && urls[i]
            == social::node_url(edges[i].get("node"@)->0)->0,
{
    lemma_children(edges);
}

/// A post that was refused, or of which nothing came back, is an error.
pub proof fn refusals_are_errors(body: Seq<char>, j: JsonView)
    ensures
        social::answer_urls(body, None) is Err,
        j.get("errors"@) is Some ==> social::answer_urls(body, Some(j)) is Err,
        j.get("data"@) is None ==> social::answer_urls(body, Some(j)) is Err,
{
    if j.get("data"@) is None && j is List {
        assert(social::step(Some(j), "data"@) is None) by {
            reveal_strlit("data");
            reveal_strlit("0");
            assert("data"@.len() != "0"@.len());
        }
    }
}

/// The video that is taken is one of those that were found.
pub proof fn taken_videos_were_found(s: Seq<(bool, Seq<char>)>)
    ensures
        s.len() > 0 ==> (social::best_playable(s) matches Some(b) && s.contains(b)),
        s.len() == 0 ==> social::best_playable(s) is None,
    decreases s.len(),
{
    if s.len() > 0 {
        let front = s.drop_last();
        taken_videos_were_found(front);
        let b = social::best_playable(s)->0;
        if b == s.last() {
            assert(s[s.len() - 1] == b);
        } else {
            let k = choose|k: int| 0 <= k < front.len() && front[k] == b;
            assert(s[k] == b);
        }
    }
}

// ---------------------------------------------------------------------------
// Backends
// ---------------------------------------------------------------------------

proof fn lemma_named(s: Seq<Backend>, b: Backend, i: int, from: int)
    requires
        0 <= from <= i < s.len(),
        s[i] == b,
    ensures
        registry::named_from(s, b.name(), from) == Some(b),
    decreases i - from,
{
    registry::ids_tell_backends_apart(s[from], b);
    if s[from].name() != b.name() {
        lemma_named(s, b, i, from + 1);
    }
}

proof fn lemma_route(routes: Seq<HostRoute>, host: Seq<char>, i: int, from: int)
    requires
        0 <= from <= i < routes.len(),
        urls::in_domain(host, routes[i].host_suffix@),
        forall|j: int|
            from <= j < i ==> !urls::in_domain(host, (#[trigger] routes[j]).host_suffix@),
    ensures
        registry::route_from(routes, host, from) == Some(routes[i].backend_id@),
    decreases i - from,
{
    if from < i {
        assert(!urls::in_domain(host, routes[from].host_suffix@));
        lemma_route(routes, host, i, from + 1);
    }
}

/// The first route whose domain holds the host decides who fetches an address.
pub proof fn first_routes_decide(
    s: Seq<Backend>,
    routes: Seq<HostRoute>,
    url: Seq<char>,
    host: Seq<char>,
    i: int,
    b: Backend,
)
    requires
        s.contains(b),
        urls::host_in(url) == Some(host),
        0 <= i < routes.len(),
        urls::in_domain(host, routes[i].host_suffix@),
        routes[i].backend_id@ == b.name(),
        forall|j: int| 0 <= j < i ==> !urls::in_domain(host, (#[trigger] routes[j]).host_suffix@),
    ensures
        registry::quick(s, routes, url) == b,
        registry::choice_by_url(s, routes, url) == Choice::Decided(b),
{
    lemma_route(routes, host, i, 0);
    let k = choose|k: int| 0 <= k < s.len() && s[k] == b;
    lemma_named(s, b, k, 0);
}

proof fn lemma_certain(s: Seq<Backend>, url: Seq<char>, i: int, from: int)
    requires
        0 <= from <= i < s.len(),
        registry::claim(s[i], url, None) == Confidence::Certain,
    ensures
        registry::certain_from(s, url, from) matches Some(b) && registry::claim(b, url, None)
            == Confidence::Certain,
    decreases i - from,
{
    if registry::claim(s[from], url, None) != Confidence::Certain {
        lemma_certain(s, url, i, from + 1);
    }
}

/// Without a route, an address that a backend is certain of goes to one that is
/// certain, without a look at the content.
pub proof fn certain_claims_decide(
    s: Seq<Backend>,
    routes: Seq<HostRoute>,
    url: Seq<char>,
    i: int,
)
    requires
        registry::routed(s, routes, url) is None,
        0 <= i < s.len(),
        registry::claim(s[i], url, None) == Confidence::Certain,
    ensures
        registry::choice_by_url(s, routes, url) matches Choice::Decided(b) && registry::claim(
            b,
            url,
            None,
        ) == Confidence::Certain,
{
    lemma_certain(s, url, i, 0);
}

// ---------------------------------------------------------------------------
// Names of hosts
// ---------------------------------------------------------------------------

/// Each service is asked for both kinds of addresses of the host, first one and
/// then the other.
pub proof fn both_kinds_are_asked_for(host: Seq<char>, k: int)
    requires
        0 <= k < 2,
    ensures
        dns::question_at(host, 2 * k) == Some(dns::endpoints()[k] + "?name="@ + host + "&type=A"@),
        dns::question_at(host, 2 * k + 1) == Some(
            dns::endpoints()[k] + "?name="@ + host + "&type=AAAA"@,
        ),
        dns::question_at(host, 4) is None,
{
    reveal_strlit("&type=");
    reveal_strlit("A");
    reveal_strlit("AAAA");
    reveal_strlit("&type=A");
    reveal_strlit("&type=AAAA");
    assert((2 * k) / 2 == k && (2 * k) % 2 == 0 && (2 * k + 1) / 2 == k && (2 * k + 1) % 2 == 1);
    assert(dns::records()[0] == "A"@ && dns::records()[1] == "AAAA"@);
    let e = dns::endpoints()[k] + "?name="@ + host;
    assert(e + "&type="@ + "A"@ =~= e + "&type=A"@);
    assert(e + "&type="@ + "AAAA"@ =~= e + "&type=AAAA"@);
}

/// Every address of an answer is taken, in order, with the blanks around it
/// taken off.
pub proof fn answers_are_taken_whole(s: Seq<JsonView>, i: int)
    requires
        0 <= i < s.len(),
        forall|k: int| 0 <= k < s.len() ==> (#[trigger] s[k]).text_at("data"@) is Some,
    ensures
        dns::data_of(s).len() == s.len(),
        dns::data_of(s)[i] == text::trim(s[i].text_at("data"@)->0),
    decreases s.len(),
{
    let front = s.drop_last();
    assert forall|k: int| 0 <= k < front.len() implies (#[trigger] front[k]).text_at("data"@)
        is Some by {
        assert(front[k] == s[k]);
    }
    assert(s[s.len() - 1] == s.last());
    if front.len() > 0 {
        let j = if i < front.len() {
            i
        } else {
            0
        };
        answers_are_taken_whole(front, j);
    } else {
        assert(dns::data_of(front).len() == 0);
    }
    assert(s[s.len() - 1].text_at("data"@) is Some);
    if i < front.len() {
        assert(front[i] == s[i]);
    }
}

// ---------------------------------------------------------------------------
// Offers
// ---------------------------------------------------------------------------

proof fn lemma_not_there(d: DetectionsView, url: Seq<char>, from: int)
    requires
        0 <= from <= d.list.len(),
        forall|i: int| 0 <= i < d.list.len() ==> (#[trigger] d.list[i]).url != url,
    ensures
        detections::url_at(d.list, url, from) == d.list.len(),
    decreases d.list.len() - from,
{
    if from < d.list.len() {
        assert(d.list[from].url != url);
        lemma_not_there(d, url, from + 1);
    }
}

/// A page that is new is offered as it is: under its address and its title,
/// with its cookie, behind everything that was offered before.
pub proof fn new_pages_are_offered(
    d: DetectionsView,
    url: Seq<char>,
    title: Option<Seq<char>>,
    cookie: Option<Seq<char>>,
    provider: Seq<char>,
)
    requires
        forall|i: int| 0 <= i < d.list.len() ==> (#[trigger] d.list[i]).url != url,
    ensures
        ({
            let (after, item) = detections::with_page(d, url, title, cookie, provider);
            &&& after.list.len() == d.list.len() + 1
            &&& after.list.drop_last() == d.list
            &&& after.list.last().url == url
            &&& after.list.last().page_url == Some(url)
            &&& after.list.last().page_title == title
            &&& after.list.last().cookie == cookie
            &&& after.list.last().provider == provider
            &&& after.list.last().is_page && !after.list.last().is_image
            &&& item matches Some(i) && i.id == after.list.last().id && i.url == url && i.provider
                == provider && i.kind == Some("video"@)
        }),
{
    lemma_not_there(d, url, 0);
    let (after, item) = detections::with_page(d, url, title, cookie, provider);
    assert(after.list.drop_last() =~= d.list);
}

// ---------------------------------------------------------------------------
// The loader of Instagram
// ---------------------------------------------------------------------------

/// The engine that is configured is tried first, and the other one only where
/// it is configured to stand in; highlights go to the library's own engine.
pub proof fn configured_engines_are_tried(target: TargetView, id: Seq<char>)
    requires
        !(target is Highlight),
    ensures
        instaloader::plan_of(Some("instaloader"@), None, target) == seq![Engine::Instaloader],
        instaloader::plan_of(Some("instaloader"@), Some("custom"@), target) == seq![
            Engine::Instaloader,
            Engine::Custom,
        ],
        instaloader::plan_of(Some("custom"@), Some("instaloader"@), target) == seq![
            Engine::Custom,
            Engine::Instaloader,
        ],
        instaloader::plan_of(None, None, target) == seq![Engine::Custom],
        instaloader::plan_of(Some("instaloader"@), Some("custom"@), TargetView::Highlight(id))
            == seq![Engine::Custom],
{
    reveal_strlit("instaloader");
    reveal_strlit("custom");
    assert("instaloader"@.len() != "custom"@.len());
}

proof fn lemma_fresh(before: Seq<Seq<char>>, now: Seq<Seq<char>>, i: int)
    requires
        0 <= i < now.len(),
        instaloader::is_media_file(now[i]),
        !before.contains(now[i]),
    ensures
        instaloader::fresh_media(before, now).contains(now[i]),
    decreases now.len(),
{
    let all = instaloader::fresh_media(before, now);
    let front = instaloader::fresh_media(before, now.drop_last());
    if i == now.len() - 1 {
        assert(all[front.len() as int] == now[i]);
    } else {
        lemma_fresh(before, now.drop_last(), i);
        let k = choose|k: int| 0 <= k < front.len() && front[k] == now[i];
        assert(all[k] == now[i]);
    }
}

/// What a run made is every media file that was not there before.
pub proof fn made_files_are_new(before: Seq<Seq<char>>, now: Seq<Seq<char>>, i: int, k: int)
    requires
        0 <= i < now.len(),
        0 <= k < instaloader::fresh_media(before, now).len(),
    ensures
        instaloader::is_media_file(now[i]) && !before.contains(now[i]) ==> instaloader::fresh_media(
            before,
            now,
        ).contains(now[i]),
        !before.contains(instaloader::fresh_media(before, now)[k]),
        now.contains(instaloader::fresh_media(before, now)[k]),
        instaloader::is_media_file(instaloader::fresh_media(before, now)[k]),
{
    if instaloader::is_media_file(now[i]) && !before.contains(now[i]) {
        lemma_fresh(before, now, i);
    }
    lemma_fresh_only(before, now, k);
}

proof fn lemma_fresh_only(before: Seq<Seq<char>>, now: Seq<Seq<char>>, k: int)
    requires
        0 <= k < instaloader::fresh_media(before, now).len(),
    ensures
        !before.contains(instaloader::fresh_media(before, now)[k]),
        now.contains(instaloader::fresh_media(before, now)[k]),
        instaloader::is_media_file(instaloader::fresh_media(before, now)[k]),
    decreases now.len(),
{
    let all = instaloader::fresh_media(before, now);
    let front = instaloader::fresh_media(before, now.drop_last());
    if k < front.len() {
        lemma_fresh_only(before, now.drop_last(), k);
        let j = choose|j: int| 0 <= j < now.len() - 1 && now.drop_last()[j] == front[k];
        assert(now[j] == front[k]);
        assert(all[k] == front[k]);
    } else {
        assert(now[now.len() - 1] == now.last());
    }
}

/// The last lines of a report are kept, the newest at the end, and the oldest
/// go first.
pub proof fn last_lines_are_kept(lines: Seq<Seq<char>>, line: Seq<char>)
    requires
        lines.len() <= 12,
    ensures
        instaloader::kept_lines(lines, line).len() <= 12,
        instaloader::kept_lines(lines, line).last() == line,
        lines.len() < 12 ==> instaloader::kept_lines(lines, line).drop_last() == lines,
        lines.len() == 12 ==> instaloader::kept_lines(lines, line).drop_last() == lines.skip(1),
{
    let r = instaloader::kept_lines(lines, line);
    if lines.len() < 12 {
        assert(r.drop_last() =~= lines);
    } else {
        assert(r.drop_last() =~= lines.skip(1));
    }
}

/// The error of a run is its last line that is no counter.
pub proof fn last_messages_are_errors(lines: Seq<Seq<char>>, k: int, n: int)
    requires
        0 <= k < n <= lines.len(),
        !text::has_prefix(lines[k], "["@),
        forall|j: int| k < j < n ==> text::has_prefix(#[trigger] lines[j], "["@),
    ensures
        instaloader::last_message(lines, n) == lines[k],
    decreases n - k,
{
    if n - 1 > k {
        assert(text::has_prefix(lines[n - 1], "["@));
        last_messages_are_errors(lines, k, n - 1);
    }
}

/// A line that begins with two numbers in brackets says how many items are
/// there and how many there will be, at least as many as are there.
pub proof fn counters_are_read(done: u64, total: u64, rest: Seq<char>)
    requires
        rest.len() > 0 ==> !text::is_space(rest.last()),
    ensures
        instaloader::counter_in(
            "["@ + number::dec(done as nat) + "/"@ + number::dec(total as nat) + "]"@ + rest,
        ) == Some((done as nat, total as nat)),
{
    reveal_strlit("[");
    reveal_strlit("/");
    reveal_strlit("]");
    assert("]"@[0] == ']' && "]"@.len() == 1 && "/"@[0] == '/' && "/"@.len() == 1 && "["@.len() == 1);
    let d = number::dec(done as nat);
    let t = number::dec(total as nat);
    number::lemma_dec_digits(done as nat);
    number::lemma_dec_digits(total as nat);
    let s = "["@ + d + "/"@ + t + "]"@ + rest;
    assert(s[0] == '[');
    assert(!text::is_space(s.last())) by {
        if rest.len() > 0 {
            assert(s.last() == rest.last());
        } else {
            assert(s.last() == ']');
        }
    }
    assert(text::trim(s) == s);
    assert(s.take(1) =~= "["@);
    let inner = d + "/"@ + t;
    assert(s.skip(1) =~= inner + ("]"@ + rest));
    assert(text::free_of(inner, "]"@)) by {
        assert forall|i: int| 0 <= i < inner.len() implies !"]"@.contains(#[trigger] inner[i]) by {
            if i < d.len() {
                assert(inner[i] == d[i]);
                assert(text::is_digit(d[i]));
            } else if i > d.len() {
                assert(inner[i] == t[i - d.len() - 1]);
                assert(text::is_digit(t[i - d.len() - 1]));
            }
        }
    }
    assert(("]"@ + rest)[0] == ']');
    text::lemma_first_behind(inner, "]"@ + rest, "]"@);
    assert((inner + ("]"@ + rest)).take(inner.len() as int) =~= inner);
    assert(text::free_of(d, "/"@)) by {
        assert forall|i: int| 0 <= i < d.len() implies !"/"@.contains(#[trigger] d[i]) by {
            assert(text::is_digit(d[i]));
        }
    }
    assert(inner =~= d + ("/"@ + t));
    assert(("/"@ + t)[0] == '/');
    text::lemma_first_behind(d, "/"@ + t, "/"@);
    assert(inner.take(d.len() as int) =~= d);
    assert(inner.skip(d.len() as int + 1) =~= t);
    assert(text::is_digit(d[0]) && text::is_digit(d[d.len() - 1]));
    assert(text::is_digit(t[0]) && text::is_digit(t[t.len() - 1]));
    assert(text::trim(d) == d);
    assert(text::trim(t) == t);
    number::written_number_reads_back(done as nat, u64::MAX as nat);
    number::written_number_reads_back(total as nat, u64::MAX as nat);
}

/// A version is usable from 4.11 on, and what was learned of it holds for a
/// minute.
pub proof fn old_versions_are_refused(major: u32, minor: u32, at: u64, now: u64, usable: bool)
    requires
        at <= now,
    ensures
        major > 4 ==> instaloader::is_usable((major, minor)),
        major < 4 ==> !instaloader::is_usable((major, minor)),
        instaloader::is_usable((4, minor)) == (minor >= 11),
        now < at + 60 ==> instaloader::known_usable(Some((at, usable)), now) == Some(usable),
        now >= at + 60 ==> instaloader::known_usable(Some((at, usable)), now) is None,
        instaloader::known_usable(None, now) is None,
{
}

// ---------------------------------------------------------------------------
// Cookie files
// ---------------------------------------------------------------------------

/// Whether a text has a part.
pub open spec fn has_part(s: Seq<char>, part: Seq<char>) -> bool {
    exists|a: Seq<char>, b: Seq<char>| s == #[trigger] (a + part + b)
}

proof fn lemma_ig_lines(pieces: Seq<Seq<char>>, i: int, from: int, k: Seq<char>, v: Seq<char>)
    requires
        0 <= from <= i < pieces.len(),
        cookies::ig_pair(pieces[i]) == Some((k, v)),
    ensures
        has_part(
            cookies::ig_lines_from(pieces, from),
            cookies::file_line(".instagram.com"@, k, v),
        ),
    decreases i - from,
{
    let line = cookies::file_line(".instagram.com"@, k, v);
    let all = cookies::ig_lines_from(pieces, from);
    if from == i {
        let rest = cookies::ig_lines_from(pieces, from + 1);
        let none = Seq::<char>::empty();
        assert(all =~= (none + line) + rest);
    } else {
        lemma_ig_lines(pieces, i, from + 1, k, v);
        let rest = cookies::ig_lines_from(pieces, from + 1);
        let (a, b) = choose|a: Seq<char>, b: Seq<char>| rest == #[trigger] (a + line + b);
        match cookies::ig_pair(pieces[from]) {
            Some((x, y)) => {
                let first = cookies::file_line(".instagram.com"@, x, y);
                let front = first + a;
                assert(all =~= (front + line) + b);
            },
            None => {},
        }
    }
}

/// A cookie of a session is written into the file with its name and its value.
pub proof fn session_cookies_are_written(cookie: Seq<char>, i: int, k: Seq<char>, v: Seq<char>)
    requires
        0 <= i < text::split(text::trim(cookie), ";"@).len(),
        cookies::pair_of(text::split(text::trim(cookie), ";"@)[i]) == Some((k, v)),
        v.len() > 0,
        k == "sessionid"@ || k == "csrftoken"@ || k == "ds_user_id"@ || k == "mid"@ || k
            == "ig_did"@,
    ensures
        cookies::ig_jar(cookie) matches Some(file) && has_part(
            file,
            ".instagram.com\tTRUE\t/\tTRUE\t2000000000\t"@ + k + "\t"@ + v + "\n"@,
        ),
{
    let pieces = text::split(text::trim(cookie), ";"@);
    let list = cookies::instagram_cookies();
    assert(list[0] == "sessionid"@ && list[1] == "csrftoken"@ && list[2] == "ds_user_id"@ && list[3]
        == "mid"@ && list[4] == "ig_did"@ && list.len() == 5);
    assert(list.contains(k)) by {
        assert(list.contains(list[0]) && list.contains(list[1]) && list.contains(list[2])
            && list.contains(list[3]) && list.contains(list[4]));
    }
    lemma_ig_lines(pieces, i, 0, k, v);
    reveal_strlit(".instagram.com");
    reveal_strlit("\tTRUE\t/\tTRUE\t2000000000\t");
    reveal_strlit(".instagram.com\tTRUE\t/\tTRUE\t2000000000\t");
    reveal_strlit("\t");
    let line = cookies::file_line(".instagram.com"@, k, v);
    let want = ".instagram.com\tTRUE\t/\tTRUE\t2000000000\t"@ + k + "\t"@ + v + "\n"@;
    assert(line =~= want);
    let lines = cookies::ig_lines_from(pieces, 0);
    let (a, b) = choose|a: Seq<char>, b: Seq<char>| lines == #[trigger] (a + line + b);
    assert(line.len() > 0);
    assert(lines.len() > 0);
    let head = cookies::file_head();
    let file = head + lines;
    let front = head + a;
    assert(file =~= (front + line) + b);
}

/// A file of cookies begins with its header, and behind it with the first
/// cookie that is kept.
pub proof fn kept_cookies_are_written(
    pieces: Seq<Seq<char>>,
    host: Seq<char>,
    domain: Seq<char>,
    body: Seq<char>,
    k: Seq<char>,
    v: Seq<char>,
)
    requires
        pieces.len() > 0,
        cookies::pair_of(pieces[0]) == Some((k, v)),
        k.len() > 0,
        cookies::byte_len(v) <= 800,
        cookies::is_useful(k, host),
    ensures
        text::has_prefix(
            cookies::jar_from(pieces, host, domain, 0, 0, body).1,
            body + (domain + "\tTRUE\t/\tTRUE\t2000000000\t"@ + k + "\t"@ + v + "\n"@),
        ),
        cookies::jar_from(pieces, host, domain, 0, 0, body).0 >= 1,
{
    let more = body + cookies::file_line(domain, k, v);
    lemma_jar_prefix(pieces, host, domain, 1, 1, more);
    assert(more.take(more.len() as int) =~= more);
}

proof fn lemma_jar_prefix(
    pieces: Seq<Seq<char>>,
    host: Seq<char>,
    domain: Seq<char>,
    i: int,
    kept: nat,
    body: Seq<char>,
)
    requires
        0 <= i,
    ensures
        text::has_prefix(cookies::jar_from(pieces, host, domain, i, kept, body).1, body),
        cookies::jar_from(pieces, host, domain, i, kept, body).0 >= kept,
    decreases pieces.len() - i,
{
    assert(body.take(body.len() as int) =~= body);
    if i < pieces.len() {
        match cookies::kept_pair(pieces[i], host) {
            Some((k, v)) => {
                let more = body + cookies::file_line(domain, k, v);
                assert(more.take(body.len() as int) =~= body);
                lemma_jar_prefix(pieces, host, domain, i + 1, kept + 1, more);
                let r = cookies::jar_from(pieces, host, domain, i + 1, kept + 1, more).1;
                assert(r.take(more.len() as int).take(body.len() as int) =~= r.take(
                    body.len() as int,
                ));
            },
            None => {
                lemma_jar_prefix(pieces, host, domain, i + 1, kept, body);
            },
        }
    }
}

// ---------------------------------------------------------------------------
// Codes, labels and pages
// ---------------------------------------------------------------------------

/// The code of a post is what stands behind `/p/` in its address, up to the
/// next slash.
pub proof fn codes_are_found(front: Seq<char>, code: Seq<char>, rest: Seq<char>)
    requires
        !text::holds(front, "/p/"@),
        !text::has_suffix(front, "/p"@),
        code.len() > 0,
        text::free_of(code, "/?#"@),
    ensures
        social::code_from(front + "/p/"@ + code + "/"@ + rest, social::code_markers(), 0) == Some(
            code,
        ),
{
    reveal_strlit("/p/");
    reveal_strlit("/p");
    reveal_strlit("/");
    reveal_strlit("/?#");
    assert("/?#"@[0] == '/');
    let s = front + "/p/"@ + code + "/"@ + rest;
    let n = front.len() as int;
    assert(s.subrange(n, n + 3) =~= "/p/"@);
    assert(text::has_at(s, n, "/p/"@));
    text::lemma_find(s, "/p/"@, 0);
    let p = text::find(s, "/p/"@, 0);
    assert(p == n) by {
        if p < 0 {
            assert(!text::has_at(s, n, "/p/"@));
        } else if p < n {
            assert(s.subrange(p, p + 3)[0] == s[p]);
            assert(s.subrange(p, p + 3)[1] == s[p + 1]);
            assert(s.subrange(p, p + 3)[2] == s[p + 2]);
            if p + 3 <= n {
                assert(front.subrange(p, p + 3) =~= s.subrange(p, p + 3));
                assert(text::has_at(front, p, "/p/"@));
            } else if p + 2 == n {
                assert(front.skip(n - 2) =~= "/p"@);
            } else {
                assert(s[n] == '/');
            }
        }
    }
    let tail = code + ("/"@ + rest);
    assert(s.skip(n + 3) =~= tail);
    assert(("/"@ + rest)[0] == '/');
    text::lemma_first_behind(code, "/"@ + rest, "/?#"@);
    assert(tail.take(code.len() as int) =~= code);
    assert(social::code_markers()[0] == "/p/"@);
}

/// Every backend has its label in the list, and no label is there twice.
pub proof fn labels_are_listed_once(s: Seq<Backend>, i: int)
    requires
        0 <= i < s.len(),
    ensures
        registry::labels(s).contains(crate::backend::label_of(s[i].name())),
        registry::labels(s).no_duplicates(),
    decreases s.len(),
{
    let front = s.drop_last();
    let rest = registry::labels(front);
    let all = registry::labels(s);
    let label = crate::backend::label_of(s.last().name());
    if front.len() > 0 {
        let k = if i < front.len() {
            i
        } else {
            0
        };
        labels_are_listed_once(front, k);
    } else {
        assert(rest.len() == 0);
    }
    if i < front.len() {
        let k = choose|k: int|
            0 <= k < rest.len() && rest[k] == crate::backend::label_of(s[i].name());
        assert(all[k] == rest[k]);
    } else if !rest.contains(label) {
        assert(all[rest.len() as int] == label);
    }
}

/// The pages of every backend are among those that are watched.
pub proof fn pages_are_watched(s: Seq<Backend>, i: int, host: Seq<char>)
    requires
        0 <= i < s.len(),
        s[i].pages().contains(host),
    ensures
        registry::all_pages(s).contains(host),
    decreases s.len(),
{
    let front = registry::all_pages(s.drop_last());
    let all = registry::all_pages(s);
    if i == s.len() - 1 {
        let own = s[i].pages();
        let k = choose|k: int| 0 <= k < own.len() && own[k] == host;
        assert(all[front.len() + k] == host);
    } else {
        pages_are_watched(s.drop_last(), i, host);
        let k = choose|k: int| 0 <= k < front.len() && front[k] == host;
        assert(all[k] == host);
    }
}

/// A visit to a page of Instagram is filed as what the address says: posts and
/// reels under their code, stories and accounts under their name, with the
/// address and the time of the visit.
pub proof fn visits_are_filed(code: Seq<char>)
    ensures
        pages::ig_parts(seq!["p"@, code]) == Some(("post"@, code, None::<Seq<char>>)),
        pages::ig_parts(seq!["reel"@, code]) == Some(("reel"@, code, None::<Seq<char>>)),
        pages::ig_parts(seq!["reels"@, code]) == Some(("reel"@, code, None::<Seq<char>>)),
        pages::ig_parts(seq!["tv"@, code]) == Some(("igtv"@, code, None::<Seq<char>>)),
        code != "highlights"@ ==> pages::ig_parts(seq!["stories"@, code]) == Some(
            ("story"@, Seq::<char>::empty(), Some(code)),
        ),
        pages::ig_parts(seq!["stories"@, "highlights"@, code]) == Some(
            ("highlight"@, code, None::<Seq<char>>),
        ),
        pages::ig_parts(seq![code]) == Some(("profile"@, Seq::<char>::empty(), Some(code))),
        pages::ig_parts(Seq::empty()) is None,
{
    reveal_strlit("p");
    reveal_strlit("reel");
    reveal_strlit("reels");
    reveal_strlit("tv");
    reveal_strlit("stories");
    assert("p"@.len() == 1 && "tv"@.len() == 2 && "reel"@.len() == 4 && "reels"@.len() == 5
        && "stories"@.len() == 7);
}

/// A caught page keeps its address and the time at which it was caught.
pub proof fn visits_keep_their_address(url: Seq<char>, now: i64)
    ensures
        pages::ig_catch(url, now) matches Some((_, c)) ==> c.url == url && c.seen == now,
{
}

// ---------------------------------------------------------------------------
// Kinds and items
// ---------------------------------------------------------------------------

proof fn lemma_essence(kind: Seq<char>)
    requires
        kind.len() > 0,
        text::free_of(kind, ";"@),
        text::lower(kind) == kind,
        !text::is_space(kind[0]) && !text::is_space(kind.last()),
    ensures
        pages::essence(kind) == kind,
{
    text::lemma_first_behind(kind, Seq::empty(), ";"@);
    assert(kind + Seq::<char>::empty() =~= kind);
    assert(kind.take(kind.len() as int) =~= kind);
    assert(text::trim(kind) == kind);
}

/// A content type says what a file is: images, videos and audio by their main
/// type, and playlists and manifests by what they are called, whatever main
/// type they stand under.
pub proof fn content_types_say_the_kind(kind: Seq<char>)
    requires
        kind.len() > 0,
        text::free_of(kind, ";"@),
        text::lower(kind) == kind,
        !text::is_space(kind[0]) && !text::is_space(kind.last()),
    ensures
        text::has_prefix(kind, "image/"@) ==> pages::kind_of_type(Some(kind)) == Some("image"@),
        !text::has_prefix(kind, "image/"@) && text::holds(kind, "mpegurl"@)
            ==> pages::kind_of_type(Some(kind)) == Some("hls"@),
        !text::has_prefix(kind, "image/"@) && !text::holds(kind, "mpegurl"@) && text::holds(
            kind,
            "dash+xml"@,
        ) ==> pages::kind_of_type(Some(kind)) == Some("dash"@),
        text::has_prefix(kind, "video/"@) && !text::holds(kind, "mpegurl"@) && !text::holds(
            kind,
            "dash+xml"@,
        ) && !text::holds(kind, "ms-sstr+xml"@) ==> pages::kind_of_type(Some(kind)) == Some(
            "video"@,
        ),
        text::has_prefix(kind, "audio/"@) && !text::holds(kind, "mpegurl"@) && !text::holds(
            kind,
            "dash+xml"@,
        ) && !text::holds(kind, "ms-sstr+xml"@) ==> pages::kind_of_type(Some(kind)) == Some(
            "audio"@,
        ),
        pages::kind_of_type(None) is None,
{
    lemma_essence(kind);
    reveal_strlit("image/");
    reveal_strlit("video/");
    reveal_strlit("audio/");
    assert("image/"@[0] == 'i' && "video/"@[0] == 'v' && "audio/"@[0] == 'a');
    if text::has_prefix(kind, "video/"@) {
        assert(kind.take(6)[0] == 'v');
    }
    if text::has_prefix(kind, "audio/"@) {
        assert(kind.take(6)[0] == 'a');
    }
}

/// An item that is no page is shown under the address of its tab, or else under
/// its title, or else under its own address; a page is shown under its label.
pub proof fn items_are_shown(
    id: Seq<char>,
    url: Seq<char>,
    tab: Option<Seq<char>>,
    title: Option<Seq<char>>,
    page: Option<Seq<char>>,
    is_image: bool,
    provider: Seq<char>,
    kind: Option<Seq<char>>,
)
    ensures
        ({
            let i = detections::item_of(id, url, tab, title, page, is_image, false, provider, kind);
            &&& i.id == id && i.url == url && i.page_url == page && i.is_image == is_image
                && i.provider == provider
            &&& tab is Some ==> i.text == tab->0
            &&& tab is None && title is Some ==> i.text == title->0
            &&& tab is None && title is None ==> i.text == url
            &&& (kind matches Some(k) && k.len() > 0) ==> i.kind == kind
            &&& kind is None ==> i.kind is None
        }),
        ({
            let i = detections::item_of(id, url, tab, title, page, is_image, true, provider, kind);
            &&& i.text == pages::label(url, title, provider)
            &&& title is Some ==> i.info == title->0
            &&& kind is None ==> i.kind == Some("video"@)
        }),
{
}

proof fn lemma_no_marker(s: Seq<char>, i: int)
    requires
        0 <= i < s.len(),
        s[i] != 'p',
    ensures
        social::playable_at(s, i) is None,
{
    reveal_strlit("playable_url\":\"");
    reveal_strlit("playable_url_quality_hd\":\"");
    let plain = "playable_url\":\""@;
    let better = "playable_url_quality_hd\":\""@;
    if text::has_at(s, i, plain) {
        assert(s.subrange(i, i + plain.len())[0] == s[i]);
    }
    if text::has_at(s, i, better) {
        assert(s.subrange(i, i + better.len())[0] == s[i]);
    }
}

proof fn lemma_walk_to(s: Seq<char>, i: int, n: int)
    requires
        0 <= i <= n <= s.len(),
        forall|k: int| i <= k < n ==> s[k] != 'p',
    ensures
        social::playables_from(s, i) == social::playables_from(s, n),
    decreases n - i,
{
    if i < n {
        lemma_no_marker(s, i);
        lemma_walk_to(s, i + 1, n);
    }
}

/// The address of a video is what stands between the quotes behind its name in
/// the page; the better one is marked as such.
pub proof fn addresses_stand_between_quotes(front: Seq<char>, url: Seq<char>, rest: Seq<char>)
    requires
        !front.contains('p'),
        url.len() > 0,
        !url.contains('"'),
    ensures
        social::playables_from(front + "playable_url\":\""@ + url + "\""@ + rest, 0).len() > 0,
        social::playables_from(front + "playable_url\":\""@ + url + "\""@ + rest, 0)[0] == (
            false,
            url,
        ),
        social::playables_from(front + "playable_url_quality_hd\":\""@ + url + "\""@ + rest, 0).len()
            > 0,
        social::playables_from(front + "playable_url_quality_hd\":\""@ + url + "\""@ + rest, 0)[0]
            == (true, url),
{
    reveal_strlit("playable_url\":\"");
    reveal_strlit("playable_url_quality_hd\":\"");
    assert("playable_url\":\""@.len() != "playable_url_quality_hd\":\""@.len());
    lemma_one_address(front, "playable_url\":\""@, url, rest);
    lemma_one_address(front, "playable_url_quality_hd\":\""@, url, rest);
}

proof fn lemma_one_address(front: Seq<char>, marker: Seq<char>, url: Seq<char>, rest: Seq<char>)
    requires
        !front.contains('p'),
        url.len() > 0,
        !url.contains('"'),
        marker == "playable_url\":\""@ || marker == "playable_url_quality_hd\":\""@,
    ensures
        social::playables_from(front + marker + url + "\""@ + rest, 0).len() > 0,
        social::playables_from(front + marker + url + "\""@ + rest, 0)[0] == (
            marker == "playable_url_quality_hd\":\""@,
            url,
        ),
{
    reveal_strlit("playable_url\":\"");
    reveal_strlit("playable_url_quality_hd\":\"");
    reveal_strlit("\"");
    let plain = "playable_url\":\""@;
    let better = "playable_url_quality_hd\":\""@;
    assert(plain.len() != better.len());
    assert(plain[12] == '"' && better[12] == '_');
    let s = front + marker + url + "\""@ + rest;
    let n = front.len() as int;
    assert forall|k: int| 0 <= k < n implies s[k] != 'p' by {
        assert(s[k] == front[k]);
        assert(front.contains(front[k]));
    }
    lemma_walk_to(s, 0, n);
    assert(s.subrange(n, n + marker.len()) =~= marker);
    assert(text::has_at(s, n, marker));
    if marker == better {
        assert(s[n + 12] == '_');
        if text::has_at(s, n, plain) {
            assert(s.subrange(n, n + plain.len())[12] == s[n + 12]);
        }
    }
    let begin = n + marker.len();
    text::lemma_first_of(s, "\""@, begin);
    let end = text::first_of(s, "\""@, begin);
    assert("\""@[0] == '"' && "\""@.len() == 1);
    assert(s[begin + url.len()] == '"');
    assert("\""@.contains(s[begin + url.len()]));
    assert(end == begin + url.len()) by {
        if end < begin + url.len() {
            assert(s[end] == url[end - begin]);
            assert(url.contains(url[end - begin]));
            assert("\""@.contains(s[end]));
        }
    }
    assert(s.subrange(begin, end) =~= url);
}

// ---------------------------------------------------------------------------
// Domains, slugs and reports
// ---------------------------------------------------------------------------

/// The cookies of a site hold below its domain, with and without the usual
/// prefix.
pub proof fn cookies_hold_below_the_domain(host: Seq<char>)
    requires
        !text::has_prefix(host, "www."@),
    ensures
        cookies::cookie_domain(host) == "."@ + host,
        cookies::cookie_domain("www."@ + host) == "."@ + host,
{
    reveal_strlit("www.");
    let w = "www."@ + host;
    assert(w.take(4) =~= "www."@);
    assert(w.skip(4) =~= host);
}

proof fn lemma_alnums(s: Seq<char>)
    ensures
        pages::alnums(s).len() <= s.len(),
        forall|i: int|
            0 <= i < pages::alnums(s).len() ==> text::is_ascii_alnum(#[trigger] pages::alnums(s)[i]),
        (forall|i: int| 0 <= i < s.len() ==> text::is_ascii_alnum(#[trigger] s[i])) ==> pages::alnums(
            s,
        ) == s,
    decreases s.len(),
{
    if s.len() > 0 {
        lemma_alnums(s.drop_last());
        if forall|i: int| 0 <= i < s.len() ==> text::is_ascii_alnum(#[trigger] s[i]) {
            assert forall|i: int| 0 <= i < s.drop_last().len() implies text::is_ascii_alnum(
                #[trigger] s.drop_last()[i],
            ) by {
                assert(s.drop_last()[i] == s[i]);
            }
            assert(text::is_ascii_alnum(s[s.len() - 1]));
            assert(s.drop_last().push(s.last()) =~= s);
        }
    }
}

/// A slug is made of letters and digits only and is short; a text that is so
/// already is its own slug.
pub proof fn slugs_are_short_and_plain(s: Seq<char>, i: int)
    ensures
        pages::slug_of(s).len() <= 24,
        0 <= i < pages::slug_of(s).len() ==> text::is_ascii_alnum(pages::slug_of(s)[i]),
        s.len() <= 24 && (forall|k: int| 0 <= k < s.len() ==> text::is_ascii_alnum(#[trigger] s[k]))
            ==> pages::slug_of(s) == s,
{
    lemma_alnums(s);
    if 0 <= i < pages::slug_of(s).len() {
        assert(pages::slug_of(s)[i] == pages::alnums(s)[i]);
    }
}

/// A file that a page reports is offered with its address and what was captured
/// of its request: the headers, the cookie and the program.
pub proof fn reported_files_keep_their_request(
    id: Seq<char>,
    m: detections::MediaReport,
    provider: Seq<char>,
)
    ensures
        ({
            let r = detections::reported_media(id, m, provider);
            &&& r.id == id && r.url == m.url@ && r.provider == provider && !r.is_page
            &&& r.cookie == text::opt(m.cookie)
            &&& r.user_agent == text::opt(m.user_agent)
            &&& r.request_headers == crate::headers::captured(m.request_headers.list())
            &&& r.page_title == text::opt(m.file)
            &&& r.page_url == text::opt(m.tab_url)
            &&& m.tab_url is Some ==> r.tab_url == text::opt(m.tab_url)
            &&& m.tab_url is None ==> r.tab_url == text::opt(m.file)
        }),
{
}

proof fn lemma_deduped_last(s: Seq<Seq<char>>)
    requires
        s.len() > 0,
    ensures
        sorting::deduped(s).len() > 0,
        sorting::deduped(s).last() == s.last(),
{
}

/// Of equal texts in a row one is kept: no two neighbours are equal, and no text
/// is lost.
pub proof fn repeated_texts_are_kept_once(s: Seq<Seq<char>>, i: int, k: int)
    ensures
        0 <= i < s.len() ==> sorting::deduped(s).contains(s[i]),
        0 <= k && k + 1 < sorting::deduped(s).len() ==> sorting::deduped(s)[k] != sorting::deduped(
            s,
        )[k + 1],
    decreases s.len(),
{
    if s.len() > 0 {
        let front = s.drop_last();
        let rest = sorting::deduped(front);
        let all = sorting::deduped(s);
        repeated_texts_are_kept_once(front, i, k);
        lemma_deduped_last(s);
        if 0 <= i < front.len() {
            let j = choose|j: int| 0 <= j < rest.len() && rest[j] == front[i];
            assert(all[j] == s[i]);
        } else if i == s.len() - 1 {
            assert(all[all.len() - 1] == s[i]);
        }
        if 0 <= k && k + 1 < all.len() && all.len() > rest.len() && k + 1 == rest.len() {
            assert(all[k] == rest.last());
        }
    }
}

} // verus!

//! What an Instagram URL points at, and the media that an answer of Instagram
//! holds.
//!
//! The answers differ from query to query and over time, so nothing is taken from
//! a fixed place: the whole answer is walked, and whatever looks like a media node
//! is picked up.

use vstd::prelude::*;
use vstd::slice::slice_subrange;

use crate::json;
use crate::json::{Json, JsonView, write_json};
use crate::naming;
use crate::naming::sanitize_filename_component;
use crate::number;
use crate::number::{dec_i64, dec_string};
use crate::text;
use crate::text::{
    cat2, cat3, chars_of, ends_with, is, join_strings, one_of, split_filled, starts_with, str_eq,
    string_of, strip_prefix, to_lower,
};
use crate::urls;
use crate::urls::{UrlPartsView, parse_url};

verus! {

// ---------------------------------------------------------------------------
// URLs
// ---------------------------------------------------------------------------

/// What an Instagram URL points at.
#[derive(Debug)]
pub enum Target {
    /// One post, reel or carousel; the flag tells a reel.
    Shortcode(String, bool),
    /// The running stories of an account.
    Stories(String),
    /// One saved highlight.
    Highlight(String),
    /// All posts of an account.
    Profile(String),
}

/// The model of [`Target`].
pub enum TargetView {
    Shortcode(Seq<char>, bool),
    Stories(Seq<char>),
    Highlight(Seq<char>),
    Profile(Seq<char>),
}

impl View for Target {
    type V = TargetView;

    open spec fn view(&self) -> TargetView {
        match self {
            Target::Shortcode(s, reel) => TargetView::Shortcode(s@, *reel),
            Target::Stories(s) => TargetView::Stories(s@),
            Target::Highlight(s) => TargetView::Highlight(s@),
            Target::Profile(s) => TargetView::Profile(s@),
        }
    }
}

/// First segments of a path that are no account.
pub open spec fn reserved_roots() -> Seq<Seq<char>> {
    seq![
        "explore"@, "accounts"@, "direct"@, "stories"@, "p"@, "reel"@, "reels"@, "tv"@, "about"@,
        "developer"@, "legal"@, "press"@, "api"@, "graphql"@, "ajax"@, "web"@, "session"@
    ]
}

/// A text without the prefix, taken off as often as it stands there.
pub open spec fn without_prefixes(s: Seq<char>, p: Seq<char>) -> Seq<char>
    decreases s.len(),
{
    if p.len() > 0 && text::has_prefix(s, p) {
        without_prefixes(s.skip(p.len() as int), p)
    } else {
        s
    }
}

/// Whether a host belongs to Instagram.
pub open spec fn is_instagram_host(host: Seq<char>) -> bool {
    let h = text::lower(without_prefixes(host, "www."@));
    h == "instagram.com"@ || text::has_suffix(h, ".instagram.com"@)
}

/// The segments of a path, empty ones left out; none where the path does not
/// start with `/`.
pub open spec fn segments(path: Seq<char>) -> Seq<Seq<char>> {
    if text::has_prefix(path, "/"@) {
        text::filled(text::split(path.skip(1), "/"@))
    } else {
        Seq::empty()
    }
}

/// What the segments of a path point at.
pub open spec fn target_of_segments(segs: Seq<Seq<char>>) -> Option<TargetView> {
    if segs.len() == 0 {
        None
    } else {
        let head = text::lower(segs[0]);
        if segs.len() == 1 {
            if reserved_roots().contains(head) {
                None
            } else {
                Some(TargetView::Profile(head))
            }
        } else if head == "p"@ || head == "tv"@ {
            Some(TargetView::Shortcode(segs[1], false))
        } else if head == "reel"@ || head == "reels"@ {
            Some(TargetView::Shortcode(segs[1], true))
        } else if head == "stories"@ {
            if segs[1] == "highlights"@ && segs.len() >= 3 {
                Some(TargetView::Highlight(segs[2]))
            } else {
                Some(TargetView::Stories(segs[1]))
            }
        } else {
            None
        }
    }
}

/// What a host and a path point at.
pub open spec fn target_at(host: Option<Seq<char>>, path: Seq<char>) -> Option<TargetView> {
    match host {
        Some(h) => if is_instagram_host(h) {
            target_of_segments(segments(path))
        } else {
            None
        },
        None => None,
    }
}

/// What a URL points at; nothing where it is no URL.
pub open spec fn target_of(parsed: Result<UrlPartsView, Seq<char>>) -> Option<TargetView> {
    match parsed {
        Ok(u) => target_at(u.host, u.path),
        Err(_) => None,
    }
}

/// An optional target as its model.
pub open spec fn opt_target(t: Option<Target>) -> Option<TargetView> {
    match t {
        Some(x) => Some(x@),
        None => None,
    }
}

fn strip_all<'a>(s: &'a [char], p: &str) -> (r: &'a [char])
    requires
        p@.len() > 0,
    ensures
        r@ == without_prefixes(s@, p@),
{
    let mut rest = s;
    loop
        invariant
            p@.len() > 0,
            without_prefixes(s@, p@) == without_prefixes(rest@, p@),
        ensures
            rest@ == without_prefixes(s@, p@),
        decreases rest@.len(),
    {
        match strip_prefix(rest, p) {
            Some(x) => {
                rest = x;
            },
            None => {
                break;
            },
        }
    }
    rest
}

fn reserved(head: &[char]) -> (r: bool)
    ensures
        r == reserved_roots().contains(head@),
{
    let list: Vec<&str> = vec![
        "explore", "accounts", "direct", "stories", "p", "reel", "reels", "tv", "about",
        "developer", "legal", "press", "api", "graphql", "ajax", "web", "session"
    ];
    assert(text::str_texts(list@) =~= reserved_roots());
    one_of(head, &list)
}

/// Splits a path into its segments.
pub fn path_segments(path: &str) -> (r: Vec<Vec<char>>)
    ensures
        text::views(r@) == segments(path@),
{
    let cs = chars_of(path);
    proof {
        reveal_strlit("/");
    }
    if !starts_with(cs.as_slice(), "/") {
        let out: Vec<Vec<char>> = Vec::new();
        assert(text::views(out@) =~= Seq::empty());
        return out;
    }
    let rest = slice_subrange(cs.as_slice(), 1, cs.len());
    assert(rest@ =~= cs@.skip(1));
    split_filled(rest, "/")
}

/// Tells what a host and a path point at.
pub fn target_from(host: Option<&str>, path: &str) -> (r: Option<Target>)
    ensures
        opt_target(r) == target_at(text::opt_str(host), path@),
{
    match host {
        Some(h) => {
            let cs = chars_of(h);
            proof {
                reveal_strlit("www.");
            }
            let low = to_lower(strip_all(cs.as_slice(), "www."));
            let exact = is(low.as_slice(), "instagram.com");
            if !exact && !ends_with(low.as_slice(), ".instagram.com") {
                return None;
            }
        },
        None => {
            return None;
        },
    }
    let segs = path_segments(path);
    let ghost all = text::views(segs@);
    assert(all.len() == segs@.len());
    assert(forall|i: int| 0 <= i < segs@.len() ==> all[i] == (#[trigger] segs@[i])@);
    if segs.len() == 0 {
        return None;
    }
    let head = to_lower(segs[0].as_slice());
    if segs.len() == 1 {
        if reserved(head.as_slice()) {
            return None;
        }
        return Some(Target::Profile(string_of(head.as_slice())));
    }
    let second = string_of(segs[1].as_slice());
    if is(head.as_slice(), "p") || is(head.as_slice(), "tv") {
        Some(Target::Shortcode(second, false))
    } else if is(head.as_slice(), "reel") || is(head.as_slice(), "reels") {
        Some(Target::Shortcode(second, true))
    } else if is(head.as_slice(), "stories") {
        if is(segs[1].as_slice(), "highlights") && segs.len() >= 3 {
            Some(Target::Highlight(string_of(segs[2].as_slice())))
        } else {
            Some(Target::Stories(second))
        }
    } else {
        None
    }
}

/// Tells what a URL points at.
pub fn classify(url: &str) -> (r: Option<Target>)
    ensures
        opt_target(r) == target_of(urls::parsed_url(url@)),
{
    match parse_url(url) {
        Ok(u) => match &u.host {
            Some(h) => target_from(Some(h.as_str()), u.path.as_str()),
            None => None,
        },
        Err(_) => None,
    }
}

// ---------------------------------------------------------------------------
// Resources
// ---------------------------------------------------------------------------

/// The text of the first of the given members that has one.
pub open spec fn first_text_from(j: JsonView, keys: Seq<Seq<char>>, i: int) -> Option<Seq<char>>
    decreases keys.len() - i,
{
    if i < 0 || i >= keys.len() {
        None
    } else {
        match j.text_at(keys[i]) {
            Some(s) => Some(s),
            None => first_text_from(j, keys, i + 1),
        }
    }
}

/// The first of two members that is there.
pub open spec fn either(j: JsonView, a: Seq<char>, b: Seq<char>) -> Option<JsonView> {
    match j.get(a) {
        Some(v) => Some(v),
        None => j.get(b),
    }
}

/// The width of a resource, or a default.
pub open spec fn width_of(j: JsonView, default: int) -> int {
    match either(j, "config_width"@, "width"@) {
        Some(v) => match v.as_int() {
            Some(n) => n,
            None => default,
        },
        None => default,
    }
}

/// The best resource of a list so far: its address and its width.
pub struct Best {
    pub src: Seq<char>,
    pub width: int,
}

/// The widest resource, the last one of several, or the narrowest, the first one
/// of several: what is best once the resources from position `i` on are seen.
pub open spec fn best_from(
    s: Seq<JsonView>,
    keys: Seq<Seq<char>>,
    widest: bool,
    i: int,
    best: Option<Best>,
) -> Option<Best>
    decreases s.len() - i,
{
    if i < 0 || i >= s.len() {
        best
    } else {
        let next = match first_text_from(s[i], keys, 0) {
            Some(src) => {
                let width = width_of(
                    s[i],
                    if widest {
                        0
                    } else {
                        i64::MAX as int
                    },
                );
                let better = match best {
                    Some(b) => if widest {
                        width >= b.width
                    } else {
                        width < b.width
                    },
                    None => true,
                };
                if better {
                    Some(Best { src, width })
                } else {
                    best
                }
            },
            None => best,
        };
        best_from(s, keys, widest, i + 1, next)
    }
}

/// The address of the widest or the narrowest resource of a list, where there is a
/// list and a resource with an address in it.
pub open spec fn resource(list: Option<JsonView>, keys: Seq<Seq<char>>, widest: bool) -> Option<
    Seq<char>,
> {
    match list {
        Some(j) => match j.as_list() {
            Some(s) => match best_from(s, keys, widest, 0, None) {
                Some(b) => Some(b.src),
                None => None,
            },
            None => None,
        },
        None => None,
    }
}

fn get_either<'a>(j: &'a Json, a: &str, b: &str) -> (r: Option<&'a Json>)
    ensures
        json::opt_view(r) == either(j@, a@, b@),
{
    match j.get(a) {
        Some(v) => Some(v),
        None => j.get(b),
    }
}

fn first_text<'a>(j: &'a Json, keys: &Vec<&str>) -> (r: Option<&'a String>)
    ensures
        json::opt_text(r) == first_text_from(j@, text::str_texts(keys@), 0),
{
    let ghost all = text::str_texts(keys@);
    let mut i: usize = 0;
    while i < keys.len()
        invariant
            i <= keys.len(),
            all == text::str_texts(keys@),
            first_text_from(j@, all, 0) == first_text_from(j@, all, i as int),
        decreases keys.len() - i,
    {
        assert(all[i as int] == keys@[i as int]@);
        let found = j.str_at(keys[i]);
        if found.is_some() {
            return found;
        }
        i += 1;
    }
    None
}

/// Reads the width of a resource, or a default.
pub fn width(j: &Json, default: i64) -> (r: i64)
    ensures
        r == width_of(j@, default as int),
{
    match get_either(j, "config_width", "width") {
        Some(v) => match v.as_i64() {
            Some(n) => n,
            None => default,
        },
        None => default,
    }
}

/// A best resource as its model.
pub open spec fn best_view(b: Option<(String, i64)>) -> Option<Best> {
    match b {
        Some(p) => Some(Best { src: p.0@, width: p.1 as int }),
        None => None,
    }
}

fn pick_resource(list: Option<&Json>, keys: &Vec<&str>, widest: bool) -> (r: Option<String>)
    ensures
        text::opt(r) == resource(json::opt_view(list), text::str_texts(keys@), widest),
{
    let v = match list {
        Some(j) => match j.as_array() {
            Some(v) => v,
            None => {
                return None;
            },
        },
        None => {
            return None;
        },
    };
    let ghost all = json::list_view(v@);
    let ghost names = text::str_texts(keys@);
    proof {
        json::lemma_list_view(v@);
    }
    let mut best: Option<(String, i64)> = None;
    let mut i: usize = 0;
    while i < v.len()
        invariant
            i <= v.len(),
            names == text::str_texts(keys@),
            all.len() == v@.len(),
            forall|k: int| 0 <= k < v@.len() ==> #[trigger] all[k] == v@[k]@,
            best_from(all, names, widest, 0, None) == best_from(
                all,
                names,
                widest,
                i as int,
                best_view(best),
            ),
        decreases v.len() - i,
    {
        assert(all[i as int] == v@[i as int]@);
        match first_text(&v[i], keys) {
            Some(src) => {
                let w = width(
                    &v[i],
                    if widest {
                        0
                    } else {
                        i64::MAX
                    },
                );
                let better = match &best {
                    Some(b) => if widest {
                        w >= b.1
                    } else {
                        w < b.1
                    },
                    None => true,
                };
                if better {
                    best = Some((src.clone(), w));
                }
            },
            None => {},
        }
        i += 1;
    }
    match best {
        Some(b) => Some(b.0),
        None => None,
    }
}

/// The address of the widest resource of a list, the last one of several.
pub fn best_resource(list: Option<&Json>, keys: &Vec<&str>) -> (r: Option<String>)
    ensures
        text::opt(r) == resource(json::opt_view(list), text::str_texts(keys@), true),
{
    pick_resource(list, keys, true)
}

/// The address of the narrowest resource of a list, the first one of several.
pub fn smallest_resource(list: Option<&Json>, keys: &Vec<&str>) -> (r: Option<String>)
    ensures
        text::opt(r) == resource(json::opt_view(list), text::str_texts(keys@), false),
{
    pick_resource(list, keys, false)
}

/// Where the address of a resource stands.
pub open spec fn src_keys() -> Seq<Seq<char>> {
    seq!["src"@, "url"@]
}

/// The member of a member.
pub open spec fn inner(j: JsonView, a: Seq<char>, b: Seq<char>) -> Option<JsonView> {
    match j.get(a) {
        Some(v) => v.get(b),
        None => None,
    }
}

fn get_inner<'a>(j: &'a Json, a: &str, b: &str) -> (r: Option<&'a Json>)
    ensures
        json::opt_view(r) == inner(j@, a@, b@),
{
    match j.get(a) {
        Some(v) => v.get(b),
        None => None,
    }
}

// ---------------------------------------------------------------------------
// Thumbnails
// ---------------------------------------------------------------------------

/// The small image that an object itself holds.
pub open spec fn own_image(j: JsonView) -> Option<Seq<char>> {
    let cover = match either(j, "cropped_image_version"@, "cover_image_version"@) {
        Some(v) => v.text_at("url"@),
        None => None,
    };
    let candidates = resource(inner(j, "image_versions2"@, "candidates"@), seq!["url"@], false);
    let resources = resource(j.get("display_resources"@), src_keys(), false);
    if cover is Some {
        cover
    } else if candidates is Some {
        candidates
    } else if resources is Some {
        resources
    } else if j.text_at("thumbnail_src"@) is Some {
        j.text_at("thumbnail_src"@)
    } else {
        j.text_at("display_url"@)
    }
}

/// The first small image in a value, looking at each object before what it holds.
pub open spec fn small_image(j: JsonView) -> Option<Seq<char>>
    decreases j, 0int,
{
    match j {
        JsonView::Object(s) => if own_image(j) is Some {
            own_image(j)
        } else {
            small_image_in_members(s, 0)
        },
        JsonView::List(s) => small_image_in_list(s, 0),
        _ => None,
    }
}

pub open spec fn small_image_in_list(s: Seq<JsonView>, i: int) -> Option<Seq<char>>
    decreases s, s.len() - i,
{
    if i < 0 || i >= s.len() {
        None
    } else if small_image(s[i]) is Some {
        small_image(s[i])
    } else {
        small_image_in_list(s, i + 1)
    }
}

pub open spec fn small_image_in_members(s: Seq<(Seq<char>, JsonView)>, i: int) -> Option<Seq<char>>
    decreases s, s.len() - i,
{
    if i < 0 || i >= s.len() {
        None
    } else if small_image(s[i].1) is Some {
        small_image(s[i].1)
    } else {
        small_image_in_members(s, i + 1)
    }
}

fn own_image_of(j: &Json) -> (r: Option<String>)
    ensures
        text::opt(r) == own_image(j@),
{
    match get_either(j, "cropped_image_version", "cover_image_version") {
        Some(v) => match v.str_at("url") {
            Some(u) => {
                return Some(u.clone());
            },
            None => {},
        },
        None => {},
    }
    let url: Vec<&str> = vec!["url"];
    let src: Vec<&str> = vec!["src", "url"];
    assert(text::str_texts(url@) =~= seq!["url"@]);
    assert(text::str_texts(src@) =~= src_keys());
    let candidates = smallest_resource(get_inner(j, "image_versions2", "candidates"), &url);
    if candidates.is_some() {
        return candidates;
    }
    let resources = smallest_resource(j.get("display_resources"), &src);
    if resources.is_some() {
        return resources;
    }
    match j.str_at("thumbnail_src") {
        Some(u) => Some(u.clone()),
        None => match j.str_at("display_url") {
            Some(u) => Some(u.clone()),
            None => None,
        },
    }
}

/// Finds the first small image in an answer.
pub fn smallest_image_url(resp: &Json) -> (r: Option<String>)
    ensures
        text::opt(r) == small_image(resp@),
    decreases resp,
{
    match resp {
        Json::Object(v) => {
            let own = own_image_of(resp);
            if own.is_some() {
                return own;
            }
            let ghost all = json::members_view(v@);
            proof {
                json::lemma_members_view(v@);
            }
            let mut i: usize = 0;
            while i < v.len()
                invariant
                    i <= v.len(),
                    all.len() == v@.len(),
                    forall|k: int| 0 <= k < v@.len() ==> #[trigger] all[k] == (v@[k].0@, v@[k].1@),
                    small_image(resp@) == small_image_in_members(all, i as int),
                    decreases_to!(resp => v),
                decreases v.len() - i,
            {
                assert(all[i as int] == (v@[i as int].0@, v@[i as int].1@));
                let found = smallest_image_url(&v[i].1);
                if found.is_some() {
                    return found;
                }
                i += 1;
            }
            None
        },
        Json::List(v) => {
            let ghost all = json::list_view(v@);
            proof {
                json::lemma_list_view(v@);
            }
            let mut i: usize = 0;
            while i < v.len()
                invariant
                    i <= v.len(),
                    all.len() == v@.len(),
                    forall|k: int| 0 <= k < v@.len() ==> #[trigger] all[k] == v@[k]@,
                    small_image(resp@) == small_image_in_list(all, i as int),
                    decreases_to!(resp => v),
                decreases v.len() - i,
            {
                assert(all[i as int] == v@[i as int]@);
                let found = smallest_image_url(&v[i]);
                if found.is_some() {
                    return found;
                }
                i += 1;
            }
            None
        },
        _ => None,
    }
}

// ---------------------------------------------------------------------------
// Media
// ---------------------------------------------------------------------------

/// One picture or video to fetch.
#[derive(Debug)]
pub struct MediaItem {
    pub id: String,
    pub url: String,
    pub is_video: bool,
    pub timestamp: Option<i64>,
    pub shortcode: Option<String>,
}

/// The model of [`MediaItem`].
#[verifier::ext_equal]
pub struct MediaView {
    pub id: Seq<char>,
    pub url: Seq<char>,
    pub is_video: bool,
    pub timestamp: Option<int>,
    pub shortcode: Option<Seq<char>>,
}

/// An optional number as an integer.
pub open spec fn opt_int(o: Option<i64>) -> Option<int> {
    match o {
        Some(n) => Some(n as int),
        None => None,
    }
}

impl View for MediaItem {
    type V = MediaView;

    open spec fn view(&self) -> MediaView {
        MediaView {
            id: self.id@,
            url: self.url@,
            is_video: self.is_video,
            timestamp: opt_int(self.timestamp),
            shortcode: text::opt(self.shortcode),
        }
    }
}

/// The models of a list of items.
pub open spec fn media_views(v: Seq<MediaItem>) -> Seq<MediaView> {
    v.map_values(|m: MediaItem| m@)
}

/// Whether a node only holds the nodes of a carousel.
pub open spec fn is_carousel(j: JsonView) -> bool {
    ||| (match j.get("carousel_media"@) {
        Some(v) => match v.as_list() {
            Some(s) => s.len() > 0,
            None => false,
        },
        None => false,
    })
    ||| j.get("edge_sidecar_to_children"@) is Some
}

/// Whether a node is a video.
pub open spec fn is_video_node(j: JsonView) -> bool {
    ||| (match j.get("is_video"@) {
        Some(v) => v.as_truth() == Some(true),
        None => false,
    })
    ||| j.get("video_url"@) is Some
    ||| j.get("video_resources"@) is Some
    ||| (match j.get("media_type"@) {
        Some(v) => v.as_int() == Some(2int),
        None => false,
    })
}

/// The address of the media of a node.
pub open spec fn node_url(j: JsonView) -> Option<Seq<char>> {
    if is_video_node(j) {
        let resources = resource(j.get("video_resources"@), src_keys(), true);
        if resources is Some {
            resources
        } else if j.text_at("video_url"@) is Some {
            j.text_at("video_url"@)
        } else {
            resource(j.get("video_versions"@), seq!["url"@], true)
        }
    } else {
        let resources = resource(j.get("display_resources"@), src_keys(), true);
        if resources is Some {
            resources
        } else if j.text_at("display_url"@) is Some {
            j.text_at("display_url"@)
        } else {
            resource(inner(j, "image_versions2"@, "candidates"@), seq!["url"@], true)
        }
    }
}

/// The media of a node: its address, and whether it is a video. A node that only
/// holds a carousel has none of its own.
pub open spec fn node_media(j: JsonView) -> Option<(Seq<char>, bool)> {
    if is_carousel(j) {
        None
    } else {
        match node_url(j) {
            Some(u) => Some((u, is_video_node(j))),
            None => None,
        }
    }
}

/// A found medium as its model.
pub open spec fn found_view(o: Option<(String, bool)>) -> Option<(Seq<char>, bool)> {
    match o {
        Some(p) => Some((p.0@, p.1)),
        None => None,
    }
}

fn text_member(j: &Json, key: &str) -> (r: Option<String>)
    ensures
        text::opt(r) == j@.text_at(key@),
{
    match j.str_at(key) {
        Some(s) => Some(s.clone()),
        None => None,
    }
}

/// Finds the media of a node.
pub fn media_url(node: &Json) -> (r: Option<(String, bool)>)
    ensures
        found_view(r) == node_media(node@),
{
    let carousel = match node.get("carousel_media") {
        Some(v) => match v.as_array() {
            Some(a) => {
                proof {
                    json::lemma_list_view(a@);
                }
                a.len() > 0
            },
            None => false,
        },
        None => false,
    };
    if carousel || node.get("edge_sidecar_to_children").is_some() {
        return None;
    }
    let flagged = match node.get("is_video") {
        Some(v) => match v.as_bool() {
            Some(b) => b,
            None => false,
        },
        None => false,
    };
    let typed = match node.get("media_type") {
        Some(v) => match v.as_i64() {
            Some(n) => n == 2,
            None => false,
        },
        None => false,
    };
    let is_video = flagged || node.get("video_url").is_some() || node.get(
        "video_resources",
    ).is_some() || typed;
    assert(is_video == is_video_node(node@));
    let url_only: Vec<&str> = vec!["url"];
    let src: Vec<&str> = vec!["src", "url"];
    assert(text::str_texts(url_only@) =~= seq!["url"@]);
    assert(text::str_texts(src@) =~= src_keys());
    let first = if is_video {
        best_resource(node.get("video_resources"), &src)
    } else {
        best_resource(node.get("display_resources"), &src)
    };
    let second = if first.is_some() {
        first
    } else if is_video {
        text_member(node, "video_url")
    } else {
        text_member(node, "display_url")
    };
    let url = if second.is_some() {
        second
    } else if is_video {
        best_resource(node.get("video_versions"), &url_only)
    } else {
        best_resource(get_inner(node, "image_versions2", "candidates"), &url_only)
    };
    match url {
        Some(u) => Some((u, is_video)),
        None => None,
    }
}

/// The identifier of a node: a text or a number as it is, another value as it is
/// written, nothing where there is none.
pub open spec fn id_in(j: JsonView) -> Seq<char> {
    match either(j, "id"@, "pk"@) {
        Some(JsonView::Text(s)) => s,
        Some(JsonView::Number(s)) => s,
        Some(v) => json::written(v),
        None => Seq::empty(),
    }
}

/// Reads the identifier of a node.
pub fn node_id(node: &Json) -> (r: String)
    requires
        json::depth(node@) <= json::MAX_DEPTH,
    ensures
        r@ == id_in(node@),
{
    proof {
        json::lemma_member_depth(node@, "id"@);
        json::lemma_member_depth(node@, "pk"@);
    }
    match get_either(node, "id", "pk") {
        Some(v) => match v {
            Json::Text(s) => s.clone(),
            Json::Number(s) => s.clone(),
            _ => write_json(v),
        },
        None => {
            let r = String::new();
            assert(r@ =~= Seq::empty());
            r
        },
    }
}

/// Members that mark a node with media.
pub open spec fn media_keys() -> Seq<Seq<char>> {
    seq![
        "is_video"@, "video_resources"@, "display_resources"@, "display_url"@, "video_url"@,
        "image_versions2"@, "video_versions"@, "carousel_media"@
    ]
}

/// Whether a value has one of the given members, from position `i` on.
pub open spec fn has_any_from(j: JsonView, keys: Seq<Seq<char>>, i: int) -> bool
    decreases keys.len() - i,
{
    if i < 0 || i >= keys.len() {
        false
    } else {
        j.get(keys[i]) is Some || has_any_from(j, keys, i + 1)
    }
}

/// When a node was taken.
pub open spec fn taken_at(j: JsonView) -> Option<int> {
    let value = match either(j, "taken_at_timestamp"@, "taken_at"@) {
        Some(v) => Some(v),
        None => j.get("device_timestamp"@),
    };
    match value {
        Some(v) => v.as_int(),
        None => None,
    }
}

/// The short code of a node.
pub open spec fn code_in(j: JsonView) -> Option<Seq<char>> {
    match either(j, "shortcode"@, "code"@) {
        Some(v) => v.as_text(),
        None => None,
    }
}

/// The item of a node, where it has media.
pub open spec fn item_in(j: JsonView) -> Option<MediaView> {
    if has_any_from(j, media_keys(), 0) {
        match node_media(j) {
            Some((url, is_video)) => Some(
                MediaView {
                    id: id_in(j),
                    url,
                    is_video,
                    timestamp: taken_at(j),
                    shortcode: code_in(j),
                },
            ),
            None => None,
        }
    } else {
        None
    }
}

/// What an item is told apart by: its identifier, or its address where it has none.
pub open spec fn item_key(m: MediaView) -> Seq<char> {
    if m.id.len() == 0 {
        m.url
    } else {
        m.id
    }
}

/// The items that were found, and the keys that were seen.
#[verifier::ext_equal]
pub struct Found {
    pub items: Seq<MediaView>,
    pub seen: Seq<Seq<char>>,
}

impl Found {
    /// With one more item, unless its key was seen before.
    pub open spec fn with(self, m: MediaView) -> Found {
        if self.seen.contains(item_key(m)) {
            self
        } else {
            Found { items: self.items.push(m), seen: self.seen.push(item_key(m)) }
        }
    }

    /// With the item of a node, where it has one.
    pub open spec fn with_node(self, j: JsonView) -> Found {
        match item_in(j) {
            Some(m) => self.with(m),
            None => self,
        }
    }

    /// Whether the seen keys are those of the items, each once.
    pub open spec fn told_apart(self) -> bool {
        &&& self.seen == self.items.map_values(|m: MediaView| item_key(m))
        &&& self.seen.no_duplicates()
    }
}

/// What is found once a value is walked, each object before what it holds.
pub open spec fn walked(j: JsonView, f: Found) -> Found
    decreases j,
{
    match j {
        JsonView::Object(s) => walked_members(s, f.with_node(j)),
        JsonView::List(s) => walked_list(s, f),
        _ => f,
    }
}

pub open spec fn walked_list(s: Seq<JsonView>, f: Found) -> Found
    decreases s,
{
    if s.len() == 0 {
        f
    } else {
        walked(s.last(), walked_list(s.drop_last(), f))
    }
}

pub open spec fn walked_members(s: Seq<(Seq<char>, JsonView)>, f: Found) -> Found
    decreases s,
{
    if s.len() == 0 {
        f
    } else {
        walked(s.last().1, walked_members(s.drop_last(), f))
    }
}

fn has_media_key(j: &Json) -> (r: bool)
    ensures
        r == has_any_from(j@, media_keys(), 0),
{
    let keys: Vec<&str> = vec![
        "is_video", "video_resources", "display_resources", "display_url", "video_url",
        "image_versions2", "video_versions", "carousel_media"
    ];
    assert(text::str_texts(keys@) =~= media_keys());
    let ghost all = media_keys();
    let mut i: usize = 0;
    while i < keys.len()
        invariant
            i <= keys.len(),
            all == media_keys(),
            all == text::str_texts(keys@),
            has_any_from(j@, all, 0) == has_any_from(j@, all, i as int),
        decreases keys.len() - i,
    {
        assert(all[i as int] == keys@[i as int]@);
        if j.get(keys[i]).is_some() {
            return true;
        }
        i += 1;
    }
    false
}

fn item_of(node: &Json) -> (r: Option<MediaItem>)
    requires
        json::depth(node@) <= json::MAX_DEPTH,
    ensures
        match r {
            Some(m) => item_in(node@) == Some(m@),
            None => item_in(node@) is None,
        },
{
    if !has_media_key(node) {
        return None;
    }
    match media_url(node) {
        Some((url, is_video)) => {
            let first = get_either(node, "taken_at_timestamp", "taken_at");
            let value = if first.is_some() {
                first
            } else {
                node.get("device_timestamp")
            };
            let timestamp = match value {
                Some(v) => v.as_i64(),
                None => None,
            };
            let shortcode = match get_either(node, "shortcode", "code") {
                Some(v) => match v.as_str() {
                    Some(s) => Some(s.clone()),
                    None => None,
                },
                None => None,
            };
            let m = MediaItem { id: node_id(node), url, is_video, timestamp, shortcode };
            assert(opt_int(m.timestamp) == taken_at(node@));
            assert(text::opt(m.shortcode) == code_in(node@));
            assert(item_in(node@) == Some(m@));
            Some(m)
        },
        None => None,
    }
}

fn seen_before(seen: &Vec<String>, key: &str) -> (r: bool)
    ensures
        r == text::texts(seen@).contains(key@),
{
    let ghost all = text::texts(seen@);
    let mut i: usize = 0;
    while i < seen.len()
        invariant
            i <= seen.len(),
            all == text::texts(seen@),
            forall|j: int| 0 <= j < i ==> #[trigger] all[j] != key@,
        decreases seen.len() - i,
    {
        assert(all[i as int] == seen@[i as int]@);
        if str_eq(seen[i].as_str(), key) {
            return true;
        }
        i += 1;
    }
    false
}

/// The found items and seen keys as their model.
pub open spec fn found(items: Seq<MediaItem>, seen: Seq<String>) -> Found {
    Found { items: media_views(items), seen: text::texts(seen) }
}

/// Walks an answer and collects its media, each item once.
pub fn walk(v: &Json, out: &mut Vec<MediaItem>, seen: &mut Vec<String>)
    requires
        json::depth(v@) <= json::MAX_DEPTH,
    ensures
        found(final(out)@, final(seen)@) == walked(v@, found(old(out)@, old(seen)@)),
    decreases v,
{
    let ghost start = found(out@, seen@);
    match v {
        Json::Object(members) => {
            match item_of(v) {
                Some(m) => {
                    let key = if str_eq(m.id.as_str(), "") {
                        m.url.clone()
                    } else {
                        m.id.clone()
                    };
                    proof {
                        reveal_strlit("");
                        assert(m.id@.len() == 0 <==> m.id@ =~= ""@);
                    }
                    assert(key@ == item_key(m@));
                    if !seen_before(seen, key.as_str()) {
                        let ghost items = media_views(out@);
                        let ghost keys = text::texts(seen@);
                        let ghost shown = m@;
                        let ghost shown_key = key@;
                        out.push(m);
                        seen.push(key);
                        assert(media_views(out@) =~= items.push(shown));
                        assert(text::texts(seen@) =~= keys.push(shown_key));
                    }
                },
                None => {},
            }
            let ghost own = start.with_node(v@);
            assert(found(out@, seen@) =~= own);
            let ghost all = json::members_view(members@);
            proof {
                json::lemma_members_view(members@);
                json::lemma_members_depth(all);
            }
            let mut i: usize = 0;
            assert(all.take(0) =~= Seq::empty());
            while i < members.len()
                invariant
                    i <= members.len(),
                    all.len() == members@.len(),
                    forall|k: int|
                        0 <= k < members@.len() ==> #[trigger] all[k] == (
                            members@[k].0@,
                            members@[k].1@,
                        ),
                    forall|k: int|
                        0 <= k < all.len() ==> json::depth((#[trigger] all[k]).1)
                            <= json::MAX_DEPTH,
                    found(out@, seen@) == walked_members(all.take(i as int), own),
                    decreases_to!(v => members),
                decreases members.len() - i,
            {
                proof {
                    let next = all.take(i + 1);
                    assert(next.drop_last() =~= all.take(i as int));
                    assert(next.last() == (members@[i as int].0@, members@[i as int].1@));
                }
                walk(&members[i].1, out, seen);
                i += 1;
            }
            assert(all.take(members@.len() as int) =~= all);
        },
        Json::List(items) => {
            let ghost all = json::list_view(items@);
            proof {
                json::lemma_list_view(items@);
                json::lemma_list_depth(all);
            }
            let mut i: usize = 0;
            assert(all.take(0) =~= Seq::empty());
            while i < items.len()
                invariant
                    i <= items.len(),
                    all.len() == items@.len(),
                    forall|k: int| 0 <= k < items@.len() ==> #[trigger] all[k] == items@[k]@,
                    forall|k: int|
                        0 <= k < all.len() ==> json::depth(#[trigger] all[k]) <= json::MAX_DEPTH,
                    found(out@, seen@) == walked_list(all.take(i as int), start),
                    decreases_to!(v => items),
                decreases items.len() - i,
            {
                proof {
                    let next = all.take(i + 1);
                    assert(next.drop_last() =~= all.take(i as int));
                    assert(next.last() == items@[i as int]@);
                }
                walk(&items[i], out, seen);
                i += 1;
            }
            assert(all.take(items@.len() as int) =~= all);
        },
        _ => {},
    }
}

proof fn lemma_with(f: Found, m: MediaView)
    requires
        f.told_apart(),
    ensures
        f.with(m).told_apart(),
{
    if !f.seen.contains(item_key(m)) {
        let g = f.with(m);
        assert(g.seen =~= g.items.map_values(|m: MediaView| item_key(m)));
        assert(g.seen.no_duplicates()) by {
            assert forall|i: int, j: int|
                0 <= i < g.seen.len() && 0 <= j < g.seen.len() && i != j implies g.seen[i]
                != g.seen[j] by {
                if i < f.seen.len() && j < f.seen.len() {
                    assert(f.seen[i] != f.seen[j]);
                } else if i < f.seen.len() {
                    assert(f.seen.contains(f.seen[i]));
                } else if j < f.seen.len() {
                    assert(f.seen.contains(f.seen[j]));
                }
            }
        }
    }
}

/// Walking answers, one after the other, never collects an item twice.
pub proof fn items_are_collected_once(j: JsonView, f: Found)
    requires
        f.told_apart(),
    ensures
        walked(j, f).told_apart(),
    decreases j,
{
    match j {
        JsonView::Object(s) => {
            match item_in(j) {
                Some(m) => {
                    lemma_with(f, m);
                },
                None => {},
            }
            lemma_walked_members(s, f.with_node(j));
        },
        JsonView::List(s) => {
            lemma_walked_list(s, f);
        },
        _ => {},
    }
}

proof fn lemma_walked_list(s: Seq<JsonView>, f: Found)
    requires
        f.told_apart(),
    ensures
        walked_list(s, f).told_apart(),
    decreases s,
{
    if s.len() > 0 {
        lemma_walked_list(s.drop_last(), f);
        items_are_collected_once(s.last(), walked_list(s.drop_last(), f));
    }
}

proof fn lemma_walked_members(s: Seq<(Seq<char>, JsonView)>, f: Found)
    requires
        f.told_apart(),
    ensures
        walked_members(s, f).told_apart(),
    decreases s,
{
    if s.len() > 0 {
        lemma_walked_members(s.drop_last(), f);
        items_are_collected_once(s.last().1, walked_members(s.drop_last(), f));
    }
}

// ---------------------------------------------------------------------------
// Owners and pages
// ---------------------------------------------------------------------------

/// The account that an object itself names.
pub open spec fn own_owner(j: JsonView) -> Option<Seq<char>> {
    let a = match j.get("owner"@) {
        Some(v) => v.text_at("username"@),
        None => None,
    };
    if a is Some {
        a
    } else {
        match j.get("user"@) {
            Some(v) => v.text_at("username"@),
            None => None,
        }
    }
}

/// The first account that is named in a value.
pub open spec fn owner_in(j: JsonView) -> Option<Seq<char>>
    decreases j, 0int,
{
    match j {
        JsonView::Object(s) => if own_owner(j) is Some {
            own_owner(j)
        } else {
            owner_in_members(s, 0)
        },
        JsonView::List(s) => owner_in_list(s, 0),
        _ => None,
    }
}

pub open spec fn owner_in_list(s: Seq<JsonView>, i: int) -> Option<Seq<char>>
    decreases s, s.len() - i,
{
    if i < 0 || i >= s.len() {
        None
    } else if owner_in(s[i]) is Some {
        owner_in(s[i])
    } else {
        owner_in_list(s, i + 1)
    }
}

pub open spec fn owner_in_members(s: Seq<(Seq<char>, JsonView)>, i: int) -> Option<Seq<char>>
    decreases s, s.len() - i,
{
    if i < 0 || i >= s.len() {
        None
    } else if owner_in(s[i].1) is Some {
        owner_in(s[i].1)
    } else {
        owner_in_members(s, i + 1)
    }
}

fn own_owner_of(j: &Json) -> (r: Option<String>)
    ensures
        text::opt(r) == own_owner(j@),
{
    match j.get("owner") {
        Some(v) => {
            let name = text_member(v, "username");
            if name.is_some() {
                return name;
            }
        },
        None => {},
    }
    match j.get("user") {
        Some(v) => text_member(v, "username"),
        None => None,
    }
}

/// Finds the account that an answer names.
pub fn find_owner(v: &Json) -> (r: Option<String>)
    ensures
        text::opt(r) == owner_in(v@),
    decreases v,
{
    match v {
        Json::Object(members) => {
            let own = own_owner_of(v);
            if own.is_some() {
                return own;
            }
            let ghost all = json::members_view(members@);
            proof {
                json::lemma_members_view(members@);
            }
            let mut i: usize = 0;
            while i < members.len()
                invariant
                    i <= members.len(),
                    all.len() == members@.len(),
                    forall|k: int|
                        0 <= k < members@.len() ==> #[trigger] all[k] == (
                            members@[k].0@,
                            members@[k].1@,
                        ),
                    owner_in(v@) == owner_in_members(all, i as int),
                    decreases_to!(v => members),
                decreases members.len() - i,
            {
                assert(all[i as int] == (members@[i as int].0@, members@[i as int].1@));
                let found = find_owner(&members[i].1);
                if found.is_some() {
                    return found;
                }
                i += 1;
            }
            None
        },
        Json::List(items) => {
            let ghost all = json::list_view(items@);
            proof {
                json::lemma_list_view(items@);
            }
            let mut i: usize = 0;
            while i < items.len()
                invariant
                    i <= items.len(),
                    all.len() == items@.len(),
                    forall|k: int| 0 <= k < items@.len() ==> #[trigger] all[k] == items@[k]@,
                    owner_in(v@) == owner_in_list(all, i as int),
                    decreases_to!(v => items),
                decreases items.len() - i,
            {
                assert(all[i as int] == items@[i as int]@);
                let found = find_owner(&items[i]);
                if found.is_some() {
                    return found;
                }
                i += 1;
            }
            None
        },
        _ => None,
    }
}

/// The first object in a value that tells whether there is another page.
pub open spec fn page_in(j: JsonView) -> Option<JsonView>
    decreases j, 0int,
{
    match j {
        JsonView::Object(s) => if j.get("has_next_page"@) is Some {
            Some(j)
        } else {
            page_in_members(s, 0)
        },
        JsonView::List(s) => page_in_list(s, 0),
        _ => None,
    }
}

pub open spec fn page_in_list(s: Seq<JsonView>, i: int) -> Option<JsonView>
    decreases s, s.len() - i,
{
    if i < 0 || i >= s.len() {
        None
    } else if page_in(s[i]) is Some {
        page_in(s[i])
    } else {
        page_in_list(s, i + 1)
    }
}

pub open spec fn page_in_members(s: Seq<(Seq<char>, JsonView)>, i: int) -> Option<JsonView>
    decreases s, s.len() - i,
{
    if i < 0 || i >= s.len() {
        None
    } else if page_in(s[i].1) is Some {
        page_in(s[i].1)
    } else {
        page_in_members(s, i + 1)
    }
}

/// Finds the object that tells whether there is another page.
pub fn find_page_info(v: &Json) -> (r: Option<&Json>)
    ensures
        json::opt_view(r) == page_in(v@),
    decreases v,
{
    match v {
        Json::Object(members) => {
            if v.get("has_next_page").is_some() {
                return Some(v);
            }
            let ghost all = json::members_view(members@);
            proof {
                json::lemma_members_view(members@);
            }
            let mut i: usize = 0;
            while i < members.len()
                invariant
                    i <= members.len(),
                    all.len() == members@.len(),
                    forall|k: int|
                        0 <= k < members@.len() ==> #[trigger] all[k] == (
                            members@[k].0@,
                            members@[k].1@,
                        ),
                    page_in(v@) == page_in_members(all, i as int),
                    decreases_to!(v => members),
                decreases members.len() - i,
            {
                assert(all[i as int] == (members@[i as int].0@, members@[i as int].1@));
                let found = find_page_info(&members[i].1);
                if found.is_some() {
                    return found;
                }
                i += 1;
            }
            None
        },
        Json::List(items) => {
            let ghost all = json::list_view(items@);
            proof {
                json::lemma_list_view(items@);
            }
            let mut i: usize = 0;
            while i < items.len()
                invariant
                    i <= items.len(),
                    all.len() == items@.len(),
                    forall|k: int| 0 <= k < items@.len() ==> #[trigger] all[k] == items@[k]@,
                    page_in(v@) == page_in_list(all, i as int),
                    decreases_to!(v => items),
                decreases items.len() - i,
            {
                assert(all[i as int] == items@[i as int]@);
                let found = find_page_info(&items[i]);
                if found.is_some() {
                    return found;
                }
                i += 1;
            }
            None
        },
        _ => None,
    }
}

// ---------------------------------------------------------------------------
// File names
// ---------------------------------------------------------------------------

/// The extensions that the path of an address can end in.
pub open spec fn known_exts() -> Seq<Seq<char>> {
    seq!["mp4"@, "jpg"@, "jpeg"@, "png"@, "webp"@, "heic"@]
}

/// The first known extension, from position `i` on, that a path ends in.
pub open spec fn known_ext_from(path: Seq<char>, i: int) -> Option<Seq<char>>
    decreases known_exts().len() - i,
{
    if i < 0 || i >= known_exts().len() {
        None
    } else if text::has_suffix(path, "."@ + known_exts()[i]) {
        Some(known_exts()[i])
    } else {
        known_ext_from(path, i + 1)
    }
}

/// The extension for a path in lower case.
pub open spec fn ext_of_path(path: Seq<char>, is_video: bool) -> Seq<char> {
    match known_ext_from(path, 0) {
        Some(e) => if e == "jpeg"@ {
            "jpg"@
        } else {
            e
        },
        None => if is_video {
            "mp4"@
        } else {
            "jpg"@
        },
    }
}

/// The path of an address in lower case; empty where it is no URL.
pub open spec fn lower_path(parsed: Result<UrlPartsView, Seq<char>>) -> Seq<char> {
    match parsed {
        Ok(u) => text::lower(u.path),
        Err(_) => Seq::empty(),
    }
}

/// Tells the extension for a path in lower case.
pub fn ext_from_path(path: &[char], is_video: bool) -> (r: String)
    ensures
        r@ == ext_of_path(path@, is_video),
{
    let exts: Vec<&str> = vec!["mp4", "jpg", "jpeg", "png", "webp", "heic"];
    let ghost all = known_exts();
    assert(text::str_texts(exts@) =~= all);
    let mut i: usize = 0;
    while i < exts.len()
        invariant
            i <= exts.len(),
            all == known_exts(),
            all == text::str_texts(exts@),
            known_ext_from(path@, 0) == known_ext_from(path@, i as int),
        decreases exts.len() - i,
    {
        assert(all[i as int] == exts@[i as int]@);
        if ends_with(path, cat2(".", exts[i]).as_str()) {
            return if str_eq(exts[i], "jpeg") {
                "jpg".to_string()
            } else {
                exts[i].to_string()
            };
        }
        i += 1;
    }
    if is_video {
        "mp4".to_string()
    } else {
        "jpg".to_string()
    }
}

/// Tells the extension for an address.
pub fn ext_from_url(url: &str, is_video: bool) -> (r: String)
    ensures
        r@ == ext_of_path(lower_path(urls::parsed_url(url@)), is_video),
{
    let path = match parse_url(url) {
        Ok(u) => to_lower(chars_of(u.path.as_str()).as_slice()),
        Err(_) => {
            let v: Vec<char> = Vec::new();
            assert(v@ =~= Seq::empty());
            v
        },
    };
    ext_from_path(path.as_slice(), is_video)
}

/// The parts of the name of an item: when it was taken, and its identifier or else
/// its short code.
pub open spec fn name_parts(m: MediaView) -> Seq<Seq<char>> {
    let taken = match m.timestamp {
        Some(n) => seq![number::dec_int(n)],
        None => Seq::empty(),
    };
    if m.id.len() > 0 {
        taken.push(m.id)
    } else {
        match m.shortcode {
            Some(s) => taken.push(s),
            None => taken,
        }
    }
}

/// The name of an item without its extension, before it is made safe.
pub open spec fn name_stem(m: MediaView, idx: nat) -> Seq<char> {
    if name_parts(m).len() == 0 {
        "ig_media_"@ + number::dec(idx + 1)
    } else {
        text::join(name_parts(m), "_"@)
    }
}

/// The name of the file for an item.
pub open spec fn item_name(m: MediaView, idx: nat, ext: Seq<char>) -> Seq<char> {
    naming::sanitized(name_stem(m, idx)) + "."@ + ext
}

/// Names the file for an item, with a given extension.
pub fn item_filename_with(it: &MediaItem, idx: usize, ext: &str) -> (r: String)
    requires
        idx < usize::MAX,
    ensures
        r@ == item_name(it@, idx as nat, ext@),
{
    let mut parts: Vec<String> = Vec::new();
    assert(text::texts(parts@) =~= Seq::empty());
    match it.timestamp {
        Some(ts) => {
            let written = string_of(dec_i64(ts).as_slice());
            let ghost shown = written@;
            parts.push(written);
            assert(text::texts(parts@) =~= seq![shown]);
        },
        None => {},
    }
    let ghost taken = text::texts(parts@);
    proof {
        reveal_strlit("");
        assert(it.id@.len() == 0 <==> it.id@ =~= ""@);
    }
    if !str_eq(it.id.as_str(), "") {
        parts.push(it.id.clone());
        assert(text::texts(parts@) =~= taken.push(it.id@));
    } else {
        match &it.shortcode {
            Some(sc) => {
                parts.push(sc.clone());
                assert(text::texts(parts@) =~= taken.push(sc@));
            },
            None => {},
        }
    }
    assert(text::texts(parts@) == name_parts(it@));
    let stem = if parts.len() == 0 {
        cat2("ig_media_", dec_string((idx + 1) as u64).as_str())
    } else {
        join_strings(&parts, "_")
    };
    cat3(sanitize_filename_component(stem.as_str()).as_str(), ".", ext)
}

/// Names the file for an item.
pub fn item_filename(it: &MediaItem, idx: usize) -> (r: String)
    requires
        idx < usize::MAX,
    ensures
        r@ == item_name(
            it@,
            idx as nat,
            ext_of_path(lower_path(urls::parsed_url(it.url@)), it.is_video),
        ),
{
    item_filename_with(it, idx, ext_from_url(it.url.as_str(), it.is_video).as_str())
}

} // verus!

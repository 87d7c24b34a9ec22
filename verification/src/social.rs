//! Pages of social sites: the media that a page, or the answer of the site's own
//! interface, holds.

use vstd::prelude::*;
use vstd::slice::slice_subrange;

use crate::ig_run;
use crate::ig_run::query_address;
use crate::instagram;
use crate::instagram::width;
use crate::json;
use crate::json::{Json, JsonView, parse_json, write_json};
use crate::net::{RequestContext, RequestOptions};
use crate::strmap;
use crate::strmap::StrMap;
use crate::text;
use crate::text::{
    cat2, cat3, chars_at, chars_of, contains, cut_before_first, find_str, first_of_from, replaced,
    str_eq, string_of, take_chars, to_lower,
};

verus! {

/// The document that is asked for a single post.
pub const DOC_ID_SHORTCODE_MEDIA: &'static str = "24368985919464652";

/// What the site's own pages identify themselves with.
pub const IG_APP_ID: &'static str = "936619743392459";

/// Media that can be downloaded as they are.
#[derive(Debug)]
pub struct SocialMedia {
    pub url: String,
    /// A name, where the site offers one.
    pub suggested_name: Option<String>,
    /// Headers that a request for the media must have.
    pub required_headers: StrMap<String>,
}

/// The addresses of media.
pub open spec fn media_urls(v: Seq<SocialMedia>) -> Seq<Seq<char>> {
    v.map_values(|m: SocialMedia| m.url@)
}

impl SocialMedia {
    /// Whether nothing but the address is known.
    pub open spec fn is_bare(self, url: Seq<char>) -> bool {
        &&& self.url@ == url
        &&& self.suggested_name is None
        &&& self.required_headers@ == Map::<Seq<char>, String>::empty()
    }
}

/// Whether all are nothing but the addresses.
pub open spec fn all_bare(v: Seq<SocialMedia>) -> bool {
    forall|i: int| 0 <= i < v.len() ==> (#[trigger] v[i]).is_bare(v[i].url@)
}

fn bare(url: String) -> (r: SocialMedia)
    ensures
        r.is_bare(url@),
{
    SocialMedia { url, suggested_name: None, required_headers: StrMap::new() }
}

/// The sites whose pages can be resolved.
#[derive(Clone, Copy, Debug, PartialEq, Eq, Structural)]
pub enum SocialSite {
    Instagram,
}

/// Tells which site a page is of.
pub fn detect_site(url: &str) -> (r: Option<SocialSite>)
    ensures
        r == (if text::holds(text::lower(url@), "instagram.com/"@) {
            Some(SocialSite::Instagram)
        } else {
            None
        }),
{
    let low = to_lower(chars_of(url).as_slice());
    if contains(low.as_slice(), "instagram.com/") {
        Some(SocialSite::Instagram)
    } else {
        None
    }
}

// ---------------------------------------------------------------------------
// Instagram
// ---------------------------------------------------------------------------

/// What stands in front of the code of a post.
pub open spec fn code_markers() -> Seq<Seq<char>> {
    seq!["/p/"@, "/reel/"@, "/tv/"@]
}

/// The code of a post behind the first marker, from the `i`-th on, that is followed by
/// one.
pub open spec fn code_from(url: Seq<char>, markers: Seq<Seq<char>>, i: int) -> Option<Seq<char>>
    decreases markers.len() - i,
{
    if i < 0 || i >= markers.len() {
        None
    } else {
        let p = text::find(url, markers[i], 0);
        let code = text::before_first(url.skip(p + markers[i].len()), "/?#"@);
        if p >= 0 && code.len() > 0 {
            Some(code)
        } else {
            code_from(url, markers, i + 1)
        }
    }
}

/// Finds the code of a post in its address.
pub fn extract_shortcode(url: &str) -> (r: Option<String>)
    ensures
        text::opt(r) == code_from(url@, code_markers(), 0),
{
    let cs = chars_of(url);
    let markers: Vec<&str> = vec!["/p/", "/reel/", "/tv/"];
    let ghost all = code_markers();
    assert(text::str_texts(markers@) =~= all);
    let mut i: usize = 0;
    while i < markers.len()
        invariant
            i <= markers.len(),
            cs@ == url@,
            all == text::str_texts(markers@),
            all == code_markers(),
            code_from(url@, all, 0) == code_from(url@, all, i as int),
        decreases markers.len() - i,
    {
        assert(all[i as int] == markers@[i as int]@);
        let n: usize = chars_of(markers[i]).len();
        match find_str(cs.as_slice(), markers[i]) {
            Some(p) => {
                let rest = slice_subrange(cs.as_slice(), p + n, cs.len());
                assert(rest@ =~= cs@.skip(p + n));
                let code = cut_before_first(rest, "/?#");
                if code.len() > 0 {
                    return Some(string_of(code));
                }
            },
            None => {},
        }
        i += 1;
    }
    None
}

/// What a request for a post asks for.
pub open spec fn code_variables(code: Seq<char>) -> JsonView {
    JsonView::Object(
        seq![
            ("fetch_tagged_user_count"@, JsonView::Null),
            ("hoisted_comment_id"@, JsonView::Null),
            ("hoisted_reply_id"@, JsonView::Null),
            ("shortcode"@, JsonView::Text(code)),
        ],
    )
}

/// The address that is asked for a post.
pub open spec fn post_query(code: Seq<char>) -> Seq<char> {
    ig_run::query_url(DOC_ID_SHORTCODE_MEDIA@, code_variables(code))
}

/// Writes the address that is asked for a post.
pub fn query_url(code: &str) -> (r: String)
    ensures
        r@ == post_query(code@),
{
    let members: Vec<(String, Json)> = vec![
        ("fetch_tagged_user_count".to_string(), Json::Null),
        ("hoisted_comment_id".to_string(), Json::Null),
        ("hoisted_reply_id".to_string(), Json::Null),
        ("shortcode".to_string(), Json::Text(code.to_string())),
    ];
    proof {
        json::lemma_members_view(members@);
    }
    let variables = Json::Object(members);
    assert(variables@ == code_variables(code@)) by {
        assert(json::members_view(members@) =~= seq![
            ("fetch_tagged_user_count"@, JsonView::Null),
            ("hoisted_comment_id"@, JsonView::Null),
            ("hoisted_reply_id"@, JsonView::Null),
            ("shortcode"@, JsonView::Text(code@)),
        ]);
    }
    proof {
        json::lemma_members_within(code_variables(code@)->Object_0, 0);
    }
    query_address(DOC_ID_SHORTCODE_MEDIA, &variables)
}

/// The request for a post: what the browser sent, what the site's own pages send, and a
/// `referer` where there is none.
pub fn query_options(ctx: &RequestContext) -> (r: RequestOptions)
    ensures
        r.cookies == ctx.cookie,
        r.byte_range is None,
        ({
            let h = strmap::text_values(ctx.headers@).insert("x-ig-app-id"@, IG_APP_ID@);
            strmap::text_values(r.headers@) == if h.dom().contains("referer"@) {
                h
            } else {
                h.insert("referer"@, "https://www.instagram.com/"@)
            }
        }),
{
    let mut opts = ctx.to_options(None);
    opts.headers.insert("x-ig-app-id".to_string(), IG_APP_ID.to_string());
    assert(strmap::text_values(opts.headers@) =~= strmap::text_values(ctx.headers@).insert(
        "x-ig-app-id"@,
        IG_APP_ID@,
    ));
    let ghost h = strmap::text_values(opts.headers@);
    if !opts.headers.contains_key("referer") {
        opts.headers.insert("referer".to_string(), "https://www.instagram.com/".to_string());
        assert(strmap::text_values(opts.headers@) =~= h.insert(
            "referer"@,
            "https://www.instagram.com/"@,
        ));
    }
    opts
}

/// One step down: a member of an object, or the first of a list where `0` is asked for.
pub open spec fn step(j: Option<JsonView>, key: Seq<char>) -> Option<JsonView> {
    match j {
        Some(JsonView::List(s)) => if key == "0"@ && s.len() > 0 {
            Some(s[0])
        } else {
            None
        },
        Some(v) => v.get(key),
        None => None,
    }
}

/// The text of a value that may be there.
pub open spec fn text_of(j: Option<JsonView>) -> Option<Seq<char>> {
    match j {
        Some(v) => v.as_text(),
        None => None,
    }
}

fn step_down<'a>(j: Option<&'a Json>, key: &str) -> (r: Option<&'a Json>)
    ensures
        json::opt_view(r) == step(json::opt_view(j), key@),
{
    match j {
        None => None,
        Some(v) => match v {
            Json::List(list) => {
                proof {
                    json::lemma_list_view(list@);
                }
                if str_eq(key, "0") && list.len() > 0 {
                    Some(&list[0])
                } else {
                    None
                }
            },
            _ => v.get(key),
        },
    }
}

fn text_at<'a>(j: Option<&'a Json>) -> (r: Option<&'a String>)
    ensures
        json::opt_text(r) == text_of(json::opt_view(j)),
{
    match j {
        Some(v) => v.as_str(),
        None => None,
    }
}

/// Whether a node is a video.
pub open spec fn is_video(node: JsonView) -> bool {
    ||| (match node.get("is_video"@) {
        Some(v) => v.as_truth() == Some(true),
        None => false,
    })
    ||| (match node.get("media_type"@) {
        Some(v) => v.as_int() == Some(2int),
        None => false,
    })
}

/// The first that is there.
pub open spec fn first_there<T>(a: Option<T>, b: Option<T>) -> Option<T> {
    match a {
        Some(x) => Some(x),
        None => b,
    }
}

/// The widest image of a list with an address under the given key, and its width, which
/// counts as 0 where it is not told; the first of several.
pub open spec fn widest(s: Seq<JsonView>, key: Seq<char>) -> Option<(Seq<char>, int)>
    decreases s.len(),
{
    if s.len() == 0 {
        None
    } else {
        let best = widest(s.drop_last(), key);
        let width = instagram::width_of(s.last(), 0);
        match (s.last().text_at(key), best) {
            (None, _) => best,
            (Some(_), Some((_, w))) if w >= width => best,
            (Some(src), _) => Some((src, width)),
        }
    }
}

/// The address of the widest image of a value that is a list.
pub open spec fn image_in(j: Option<JsonView>, key: Seq<char>) -> Option<Seq<char>> {
    match j {
        Some(JsonView::List(s)) => match widest(s, key) {
            Some((src, _)) => Some(src),
            None => None,
        },
        _ => None,
    }
}

fn find_image(j: Option<&Json>, key: &str) -> (r: Option<String>)
    ensures
        text::opt(r) == image_in(json::opt_view(j), key@),
{
    let list: &Vec<Json> = match j {
        Some(Json::List(list)) => list,
        _ => {
            return None;
        },
    };
    let ghost all = json::list_view(list@);
    proof {
        json::lemma_list_view(list@);
    }
    let mut best: Option<(&String, i64)> = None;
    let mut i: usize = 0;
    assert(all.take(0) =~= Seq::empty());
    while i < list.len()
        invariant
            i <= list.len(),
            all.len() == list@.len(),
            forall|k: int| 0 <= k < list@.len() ==> #[trigger] all[k] == list@[k]@,
            widest(all.take(i as int), key@) == (match best {
                Some((src, w)) => Some((src@, w as int)),
                None => None,
            }),
        decreases list.len() - i,
    {
        assert(all.take(i + 1).drop_last() =~= all.take(i as int));
        assert(all.take(i + 1).last() == list@[i as int]@);
        let w: i64 = width(&list[i], 0);
        match list[i].str_at(key) {
            Some(src) => {
                let better = match best {
                    Some((_, most)) => most < w,
                    None => true,
                };
                if better {
                    best = Some((src, w));
                }
            },
            None => {},
        }
        i += 1;
    }
    assert(all.take(list@.len() as int) =~= all);
    match best {
        Some((src, _)) => Some(src.clone()),
        None => None,
    }
}

/// The address of the media of a node: of the video where it is one and has one, else of
/// the widest image.
pub open spec fn node_url(node: JsonView) -> Option<Seq<char>> {
    let n = Some(node);
    let video = if is_video(node) {
        first_there(
            text_of(node.get("video_url"@)),
            text_of(step(step(step(n, "video_versions"@), "0"@), "url"@)),
        )
    } else {
        None
    };
    first_there(
        video,
        first_there(
            image_in(step(n, "display_resources"@), "src"@),
            first_there(
                image_in(step(step(n, "image_versions2"@), "candidates"@), "url"@),
                text_of(node.get("display_url"@)),
            ),
        ),
    )
}

fn node_is_video(node: &Json) -> (r: bool)
    ensures
        r == is_video(node@),
{
    let flagged = match node.get("is_video") {
        Some(v) => match v.as_bool() {
            Some(b) => b,
            None => false,
        },
        None => false,
    };
    flagged || match node.get("media_type") {
        Some(v) => match v.as_i64() {
            Some(n) => n == 2,
            None => false,
        },
        None => false,
    }
}

fn find_node_url(node: &Json) -> (r: Option<String>)
    ensures
        text::opt(r) == node_url(node@),
{
    if node_is_video(node) {
        match text_at(node.get("video_url")) {
            Some(u) => {
                return Some(u.clone());
            },
            None => {},
        }
        let versions = step_down(Some(node), "video_versions");
        match text_at(step_down(step_down(versions, "0"), "url")) {
            Some(u) => {
                return Some(u.clone());
            },
            None => {},
        }
    }
    let resources = step_down(Some(node), "display_resources");
    match find_image(resources, "src") {
        Some(u) => {
            return Some(u);
        },
        None => {},
    }
    let candidates = step_down(step_down(Some(node), "image_versions2"), "candidates");
    match find_image(candidates, "url") {
        Some(u) => {
            return Some(u);
        },
        None => {},
    }
    match text_at(node.get("display_url")) {
        Some(u) => Some(u.clone()),
        None => None,
    }
}

/// The media of a node.
pub fn single_item_media(node: &Json) -> (r: Option<SocialMedia>)
    ensures
        match r {
            Some(m) => node_url(node@) == Some(m.url@) && m.is_bare(m.url@),
            None => node_url(node@) is None,
        },
{
    match find_node_url(node) {
        Some(u) => Some(bare(u)),
        None => None,
    }
}

/// The addresses of the media of the parts of a post, as far as they have any.
pub open spec fn child_urls(edges: Seq<JsonView>) -> Seq<Seq<char>>
    decreases edges.len(),
{
    if edges.len() == 0 {
        Seq::empty()
    } else {
        let rest = child_urls(edges.drop_last());
        match edges.last().get("node"@) {
            Some(node) => match node_url(node) {
                Some(u) => rest.push(u),
                None => rest,
            },
            None => rest,
        }
    }
}

/// The parts of a post that has several.
pub open spec fn children_of(media: JsonView) -> Option<Seq<JsonView>> {
    match step(step(Some(media), "edge_sidecar_to_children"@), "edges"@) {
        Some(v) => v.as_list(),
        None => None,
    }
}

/// The addresses of the media of a post, or why there are none.
pub open spec fn post_urls(media: JsonView) -> Result<Seq<Seq<char>>, Seq<char>> {
    match children_of(media) {
        Some(edges) => if child_urls(edges).len() == 0 {
            Err("carousel post had no downloadable video/image items"@)
        } else {
            Ok(child_urls(edges))
        },
        None => match node_url(media) {
            Some(u) => Ok(seq![u]),
            None => Err("post had neither a video nor an image URL"@),
        },
    }
}

/// The model of the media of a post.
pub open spec fn media_result(r: Result<Vec<SocialMedia>, String>) -> Result<
    Seq<Seq<char>>,
    Seq<char>,
> {
    match r {
        Ok(v) => Ok(media_urls(v@)),
        Err(e) => Err(e@),
    }
}

/// Collects the media of a post.
pub fn extract_media_urls(media: &Json) -> (r: Result<Vec<SocialMedia>, String>)
    ensures
        media_result(r) == post_urls(media@),
        r matches Ok(v) ==> all_bare(v@),
{
    let edges = step_down(step_down(Some(media), "edge_sidecar_to_children"), "edges");
    let list = match edges {
        Some(e) => e.as_array(),
        None => None,
    };
    match list {
        Some(children) => {
            let ghost all = json::list_view(children@);
            proof {
                json::lemma_list_view(children@);
            }
            let mut out: Vec<SocialMedia> = Vec::new();
            let mut i: usize = 0;
            assert(all.take(0) =~= Seq::empty());
            assert(media_urls(out@) =~= Seq::empty());
            while i < children.len()
                invariant
                    i <= children.len(),
                    all == json::list_view(children@),
                    all.len() == children@.len(),
                    forall|k: int| 0 <= k < children@.len() ==> #[trigger] all[k] == children@[k]@,
                    media_urls(out@) == child_urls(all.take(i as int)),
                    all_bare(out@),
                decreases children.len() - i,
            {
                let ghost before = media_urls(out@);
                proof {
                    let next = all.take(i + 1);
                    assert(next.drop_last() =~= all.take(i as int));
                    assert(next.last() == children@[i as int]@);
                }
                match children[i].get("node") {
                    Some(node) => match single_item_media(node) {
                        Some(m) => {
                            let ghost shown = m.url@;
                            out.push(m);
                            assert(media_urls(out@) =~= before.push(shown));
                        },
                        None => {},
                    },
                    None => {},
                }
                i += 1;
            }
            assert(all.take(all.len() as int) =~= all);
            if out.len() == 0 {
                Err("carousel post had no downloadable video/image items".to_string())
            } else {
                Ok(out)
            }
        },
        None => match single_item_media(media) {
            Some(m) => {
                let ghost shown = m.url@;
                let out: Vec<SocialMedia> = vec![m];
                assert(media_urls(out@) =~= seq![shown]);
                Ok(out)
            },
            None => Err("post had neither a video nor an image URL".to_string()),
        },
    }
}

/// Why an answer that is not JSON gives no media; with how it begins.
pub open spec fn not_json(body: Seq<char>) -> Seq<char> {
    "Instagram GraphQL response wasn't JSON (likely a login/challenge page - session cookie missing, stale, or this post needs a follower relationship): "@
        + text::first_chars(body, 200)
}

/// Why an answer with errors, as they are written, gives no media.
pub open spec fn rejected(errors: Seq<char>) -> Seq<char> {
    "Instagram GraphQL query was rejected (doc_id="@ + DOC_ID_SHORTCODE_MEDIA@
        + " has likely expired and needs refreshing from a live Instagram session): "@ + errors
}

/// Tells why an answer with errors, as they are written, gives no media.
pub fn rejection(errors: &str) -> (r: String)
    ensures
        r@ == rejected(errors@),
{
    let front = cat3(
        "Instagram GraphQL query was rejected (doc_id=",
        DOC_ID_SHORTCODE_MEDIA,
        " has likely expired and needs refreshing from a live Instagram session): ",
    );
    cat2(front.as_str(), errors)
}

/// The addresses of the media in an answer, given what it parses to.
pub open spec fn answer_urls(body: Seq<char>, parsed: Option<JsonView>) -> Result<
    Seq<Seq<char>>,
    Seq<char>,
> {
    match parsed {
        None => Err(not_json(body)),
        Some(j) => match j.get("errors"@) {
            Some(e) => Err(rejected(json::written(e))),
            None => match step(step(Some(j), "data"@), "xdt_shortcode_media"@) {
                Some(m) => post_urls(m),
                None => Err(
                    "Instagram response had no xdt_shortcode_media - private post, deleted, or the response schema changed"@,
                ),
            },
        },
    }
}

/// Collects the media in an answer, given what it parses to.
pub fn media_in_answer(body: &str, parsed: Option<&Json>) -> (r: Result<Vec<SocialMedia>, String>)
    requires
        parsed matches Some(j) ==> json::depth(j@) <= json::MAX_DEPTH,
    ensures
        media_result(r) == answer_urls(body@, json::opt_view(parsed)),
        r matches Ok(v) ==> all_bare(v@),
{
    match parsed {
        None => {
            let cs = chars_of(body);
            let begin = string_of(take_chars(cs.as_slice(), 200));
            Err(
                cat2(
                    "Instagram GraphQL response wasn't JSON (likely a login/challenge page - session cookie missing, stale, or this post needs a follower relationship): ",
                    begin.as_str(),
                ),
            )
        },
        Some(j) => {
            match j.get("errors") {
                Some(e) => {
                    proof {
                        json::lemma_member_depth(j@, "errors"@);
                    }
                    return Err(rejection(write_json(e).as_str()));
                },
                None => {},
            }
            match step_down(step_down(Some(j), "data"), "xdt_shortcode_media") {
                Some(m) => extract_media_urls(m),
                None => Err(
                    "Instagram response had no xdt_shortcode_media - private post, deleted, or the response schema changed".to_string(),
                ),
            }
        },
    }
}

/// Collects the media in the text of an answer.
pub fn extract(body: &str) -> (r: Result<Vec<SocialMedia>, String>)
    ensures
        media_result(r) == answer_urls(body@, json::readable(body@)),
        r matches Ok(v) ==> all_bare(v@),
{
    match parse_json(body) {
        Ok(j) => media_in_answer(body, Some(&j)),
        Err(_) => media_in_answer(body, None),
    }
}

// ---------------------------------------------------------------------------
// Facebook
// ---------------------------------------------------------------------------

/// An address in the text of a page: whether it is that of the better video, the address
/// as it stands, and where the text goes on.
pub open spec fn playable_at(s: Seq<char>, i: int) -> Option<(bool, Seq<char>, int)> {
    let plain = "playable_url\":\""@;
    let better = "playable_url_quality_hd\":\""@;
    let begin = if text::has_at(s, i, plain) {
        i + plain.len()
    } else {
        i + better.len()
    };
    let end = text::first_of(s, "\""@, begin);
    if (text::has_at(s, i, plain) || text::has_at(s, i, better)) && end > begin {
        Some((!text::has_at(s, i, plain), s.subrange(begin, end), end))
    } else {
        None
    }
}

/// The addresses in the text of a page from position `i` on.
pub open spec fn playables_from(s: Seq<char>, i: int) -> Seq<(bool, Seq<char>)>
    decreases s.len() - i,
{
    if i < 0 || i >= s.len() {
        Seq::empty()
    } else {
        match playable_at(s, i) {
            Some((hd, url, end)) => if i < end <= s.len() {
                seq![(hd, url)] + playables_from(s, end)
            } else {
                Seq::empty()
            },
            None => playables_from(s, i + 1),
        }
    }
}

/// The best of addresses: the last one, but one of a better video stays.
pub open spec fn best_playable(s: Seq<(bool, Seq<char>)>) -> Option<(bool, Seq<char>)>
    decreases s.len(),
{
    if s.len() == 0 {
        None
    } else {
        match best_playable(s.drop_last()) {
            Some(b) if b.0 && !s.last().0 => Some(b),
            _ => Some(s.last()),
        }
    }
}

/// An address as it stands in the text of a page, without its escapes.
pub open spec fn unescaped(s: Seq<char>) -> Seq<char> {
    text::replace(
        text::replace(text::replace(s, "\\u0025"@, "%"@), "\\"@, ""@),
        "&amp;"@,
        "&"@,
    )
}

/// Undoes the escapes of an address that stands in the text of a page.
pub fn unescape_json_url(raw: &str) -> (r: String)
    ensures
        r@ == unescaped(raw@),
{
    proof {
        reveal_strlit("\\u0025");
        reveal_strlit("\\");
        reveal_strlit("&amp;");
    }
    let cs = chars_of(raw);
    let a = replaced(cs.as_slice(), "\\u0025", "%");
    let b = replaced(a.as_slice(), "\\", "");
    let c = replaced(b.as_slice(), "&amp;", "&");
    string_of(c.as_slice())
}

/// An address in the text of a page, as it stands there.
#[derive(Debug)]
pub struct Playable {
    /// Whether it is that of the better video.
    pub hd: bool,
    pub url: String,
}

/// The models of a list of addresses.
pub open spec fn playable_views(v: Seq<Playable>) -> Seq<(bool, Seq<char>)> {
    v.map_values(|p: Playable| (p.hd, p.url@))
}

/// Finds the addresses of videos in the text of a page.
pub fn playable_urls(html: &str) -> (r: Vec<Playable>)
    ensures
        playable_views(r@) == playables_from(html@, 0),
{
    let cs = chars_of(html);
    let s = cs.as_slice();
    let plain = chars_of("playable_url\":\"");
    let better = chars_of("playable_url_quality_hd\":\"");
    let mut out: Vec<Playable> = Vec::new();
    let mut i: usize = 0;
    proof {
        reveal_strlit("playable_url\":\"");
        reveal_strlit("playable_url_quality_hd\":\"");
    }
    assert(playable_views(out@) + playables_from(s@, 0) =~= playables_from(s@, 0));
    while i < s.len()
        invariant
            i <= s.len(),
            plain@ == "playable_url\":\""@,
            better@ == "playable_url_quality_hd\":\""@,
            plain@.len() > 0,
            better@.len() > 0,
            playables_from(s@, 0) == playable_views(out@) + playables_from(s@, i as int),
        decreases s.len() - i,
    {
        let is_plain = chars_at(s, i, plain.as_slice());
        let is_better = chars_at(s, i, better.as_slice());
        if is_plain || is_better {
            let begin: usize = if is_plain {
                i + plain.len()
            } else {
                i + better.len()
            };
            let end: usize = first_of_from(s, "\"", begin);
            if end > begin {
                let part = slice_subrange(s, begin, end);
                assert(part@ =~= s@.subrange(begin as int, end as int));
                let ghost before = playable_views(out@);
                let found = Playable { hd: !is_plain, url: string_of(part) };
                let ghost shown = (found.hd, found.url@);
                out.push(found);
                assert(playable_views(out@) =~= before.push(shown));
                assert(before.push(shown) + playables_from(s@, end as int) =~= before + (seq![shown]
                    + playables_from(s@, end as int)));
                i = end;
                continue;
            }
        }
        i += 1;
    }
    assert(playable_views(out@) + playables_from(s@, i as int) =~= playable_views(out@));
    out
}

fn choose_playable(v: &Vec<Playable>) -> (r: Option<usize>)
    ensures
        match r {
            Some(i) => i < v@.len() && best_playable(playable_views(v@)) == Some(
                playable_views(v@)[i as int],
            ),
            None => best_playable(playable_views(v@)) is None,
        },
{
    let ghost all = playable_views(v@);
    let mut best: Option<usize> = None;
    let mut i: usize = 0;
    assert(all.take(0) =~= Seq::empty());
    while i < v.len()
        invariant
            i <= v.len(),
            all == playable_views(v@),
            match best {
                Some(k) => k < i && best_playable(all.take(i as int)) == Some(all[k as int]),
                None => i == 0 && best_playable(all.take(i as int)) is None,
            },
        decreases v.len() - i,
    {
        proof {
            let next = all.take(i + 1);
            assert(next.drop_last() =~= all.take(i as int));
            assert(next.last() == all[i as int]);
            assert(all[i as int] == (v@[i as int].hd, v@[i as int].url@));
        }
        let stays = match best {
            Some(k) => {
                assert(all[k as int] == (v@[k as int].hd, v@[k as int].url@));
                v[k].hd && !v[i].hd
            },
            None => false,
        };
        if !stays {
            best = Some(i);
        }
        i += 1;
    }
    assert(all.take(all.len() as int) =~= all);
    best
}

/// Finds the video in the text of a page.
pub fn extract_facebook(html: &str) -> (r: Result<SocialMedia, String>)
    ensures
        match best_playable(playables_from(html@, 0)) {
            Some((_, raw)) => r matches Ok(m) && m.is_bare(unescaped(raw)),
            None => r matches Err(e) && e@
                == "no playable_url found on the Facebook page - it may be private (need a signed-in session), the post has no video, or Facebook changed its page format"@,
        },
{
    let all = playable_urls(html);
    match choose_playable(&all) {
        Some(i) => {
            assert(playable_views(all@)[i as int] == (all@[i as int].hd, all@[i as int].url@));
            Ok(bare(unescape_json_url(all[i].url.as_str())))
        },
        None => Err(
            "no playable_url found on the Facebook page - it may be private (need a signed-in session), the post has no video, or Facebook changed its page format".to_string(),
        ),
    }
}

// ---------------------------------------------------------------------------
// What the pages keep to
// ---------------------------------------------------------------------------

/// No image of a list is wider than the one that is taken, and one is taken where any
/// has an address.
pub proof fn the_widest_image_is_taken(s: Seq<JsonView>, key: Seq<char>, i: int)
    requires
        0 <= i < s.len(),
        s[i].text_at(key) is Some,
    ensures
        widest(s, key) matches Some((_, w)) && instagram::width_of(s[i], 0) <= w,
    decreases s.len(),
{
    if i < s.len() - 1 {
        assert(s.drop_last()[i] == s[i]);
        the_widest_image_is_taken(s.drop_last(), key, i);
    }
}

/// Where a page has the address of a better video, one of those is taken.
pub proof fn better_videos_are_taken(s: Seq<(bool, Seq<char>)>, i: int)
    requires
        0 <= i < s.len(),
        s[i].0,
    ensures
        best_playable(s) matches Some(b) && b.0,
    decreases s.len(),
{
    if i < s.len() - 1 {
        assert(s.drop_last()[i] == s[i]);
        better_videos_are_taken(s.drop_last(), i);
    }
}

} // verus!

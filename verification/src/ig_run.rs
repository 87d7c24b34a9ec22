//! One download from Instagram, as a sequence of requests and answers.

use vstd::prelude::*;

use crate::backend::{EntryMeta, InstagramConfig, Outcome};
use crate::cookies;
use crate::cookies::cookie_after;
use crate::instagram;
use crate::instagram::{
    Found, MediaItem, Target, TargetView, classify, find_owner, find_page_info, item_filename,
    smallest_image_url, walk,
};
use crate::json;
use crate::json::{Json, JsonView, parse_json, write_json};
use crate::net;
use crate::net::{RequestContext, RequestOptions};
use crate::paths;
use crate::paths::join_path;
use crate::strmap;
use crate::strmap::StrMap;
use crate::text;
use crate::text::{cat2, cat3, chars_of, copy_opt, starts_with, string_of, trimmed};
use crate::urls;
use crate::urls::write_query;

verus! {

/// The browser that requests claim to come from.
pub const USER_AGENT: &'static str = "Mozilla/5.0 (Windows NT 10.0; Win64; x64) AppleWebKit/537.36 (KHTML, like Gecko) Chrome/125.0 Safari/537.36";

/// The longest walk through the posts of an account, in pages.
pub const MAX_PAGES: u32 = 40;

/// The wait before each page but the first, in milliseconds.
pub const PAGE_PACE_MS: u64 = 2_000;

/// The wait behind each downloaded item, in milliseconds.
pub const PER_ITEM_PACE_MS: u64 = 300;

// ---------------------------------------------------------------------------
// Requests
// ---------------------------------------------------------------------------

/// The cookie that goes with the requests: the one that came with the URL unless
/// it is blank, else the configured one.
pub open spec fn session(given: Option<Seq<char>>, configured: Option<Seq<char>>) -> Option<
    Seq<char>,
> {
    match given {
        Some(c) => if text::trim(c).len() > 0 {
            Some(c)
        } else {
            configured
        },
        None => configured,
    }
}

/// Picks the cookie that goes with the requests.
pub fn session_cookie(given: &Option<String>, configured: &Option<String>) -> (r: Option<String>)
    ensures
        text::opt(r) == session(text::opt(*given), text::opt(*configured)),
{
    match given {
        Some(c) => {
            let cs = chars_of(c.as_str());
            if trimmed(cs.as_slice()).len() > 0 {
                return Some(c.clone());
            }
        },
        None => {},
    }
    copy_opt(configured)
}

/// The headers of a request.
pub open spec fn ig_headers(cookie: Option<Seq<char>>, referer: Seq<char>, app_id: Seq<char>) -> Map<
    Seq<char>,
    Seq<char>,
> {
    let base = Map::<Seq<char>, Seq<char>>::empty().insert("User-Agent"@, USER_AGENT@).insert(
        "X-IG-App-ID"@,
        app_id,
    ).insert("Referer"@, referer).insert("X-Requested-With"@, "XMLHttpRequest"@).insert(
        "X-ASBD-ID"@,
        "129477"@,
    ).insert("X-IG-WWW-Claim"@, "0"@);
    match cookie {
        Some(c) => match cookies::after_prefix(c, "csrftoken="@) {
            Some(token) => base.insert("X-CSRFToken"@, token),
            None => base,
        },
        None => base,
    }
}

fn put(headers: &mut StrMap<String>, key: &str, value: &str)
    ensures
        strmap::text_values(final(headers)@) == strmap::text_values(old(headers)@).insert(
            key@,
            value@,
        ),
{
    let ghost before = headers@;
    let v = value.to_string();
    headers.insert(key.to_string(), v);
    assert(strmap::text_values(before.insert(key@, v)) =~= strmap::text_values(before).insert(
        key@,
        v@,
    ));
}

/// The options of a request.
pub fn ig_opts(cookie: &Option<String>, referer: &str, app_id: &str) -> (r: RequestOptions)
    ensures
        strmap::text_values(r.headers@) == ig_headers(text::opt(*cookie), referer@, app_id@),
        r.cookies == *cookie,
        r.byte_range is None,
{
    let mut headers: StrMap<String> = StrMap::new();
    assert(strmap::text_values(headers@) =~= Map::empty());
    put(&mut headers, "User-Agent", USER_AGENT);
    put(&mut headers, "X-IG-App-ID", app_id);
    put(&mut headers, "Referer", referer);
    put(&mut headers, "X-Requested-With", "XMLHttpRequest");
    put(&mut headers, "X-ASBD-ID", "129477");
    put(&mut headers, "X-IG-WWW-Claim", "0");
    match cookie {
        Some(c) => match cookie_after(c.as_str(), "csrftoken=") {
            Some(token) => {
                put(&mut headers, "X-CSRFToken", token.as_str());
            },
            None => {},
        },
        None => {},
    }
    RequestOptions { headers, cookies: copy_opt(cookie), byte_range: None }
}

/// The variables of the query for one post.
pub open spec fn shortcode_variables(code: Seq<char>) -> JsonView {
    JsonView::Object(
        seq![
            ("fetch_tagged_user_count"@, JsonView::Null),
            ("hoisted_comment_id"@, JsonView::Null),
            ("hoisted_reply_id"@, JsonView::Null),
            ("shortcode"@, JsonView::Text(code)),
        ],
    )
}

/// The inner variables of the query for the posts of an account. `more` asks for
/// what goes with them.
pub open spec fn timeline_data(count: Seq<char>, more: bool) -> JsonView {
    JsonView::Object(
        seq![
            ("count"@, JsonView::Number(count)),
            ("include_relationship_info"@, JsonView::Bool(more)),
            ("latest_besties_reel_media"@, JsonView::Bool(more)),
            ("latest_reel_media"@, JsonView::Bool(more)),
        ],
    )
}

/// The variables of the query for the posts of an account, from a cursor on.
pub open spec fn timeline_variables(
    user: Seq<char>,
    count: Seq<char>,
    more: bool,
    after: Option<Seq<char>>,
) -> JsonView {
    let relay = seq![
        ("__relay_internal__pv__PolarisFeedShareMenurelayprovider"@, JsonView::Bool(true)),
        ("__relay_internal__pv__PolarisIsLoggedInrelayprovider"@, JsonView::Bool(true)),
    ];
    let data = ("data"@, timeline_data(count, more));
    let username = ("username"@, JsonView::Text(user));
    JsonView::Object(
        match after {
            Some(cursor) => relay + seq![
                ("after"@, JsonView::Text(cursor)),
                data,
                ("first"@, JsonView::Number("12"@)),
                username,
            ],
            None => relay + seq![data, username],
        },
    )
}

fn number(s: &str) -> (r: Json)
    ensures
        r@ == JsonView::Number(s@),
{
    Json::Number(s.to_string())
}

fn object2(a: &str, x: Json, b: &str, y: Json) -> (r: Vec<(String, Json)>)
    ensures
        json::members_view(r@) == seq![(a@, x@), (b@, y@)],
{
    let v = vec![(a.to_string(), x), (b.to_string(), y)];
    proof {
        json::lemma_members_view(v@);
    }
    assert(json::members_view(v@) =~= seq![(a@, x@), (b@, y@)]);
    v
}

fn shortcode_query(code: &str) -> (r: Json)
    ensures
        r@ == shortcode_variables(code@),
        json::depth(r@) <= json::MAX_DEPTH,
{
    let v = vec![
        ("fetch_tagged_user_count".to_string(), Json::Null),
        ("hoisted_comment_id".to_string(), Json::Null),
        ("hoisted_reply_id".to_string(), Json::Null),
        ("shortcode".to_string(), Json::Text(code.to_string())),
    ];
    proof {
        json::lemma_members_view(v@);
    }
    assert(json::members_view(v@) =~= shortcode_variables(code@)->Object_0);
    proof {
        json::lemma_members_within(json::members_view(v@), 0);
    }
    Json::Object(v)
}

fn timeline_query(user: &str, count: &str, more: bool, after: &Option<String>) -> (r: Json)
    ensures
        r@ == timeline_variables(user@, count@, more, text::opt(*after)),
        json::depth(r@) <= json::MAX_DEPTH,
{
    let inner = vec![
        ("count".to_string(), number(count)),
        ("include_relationship_info".to_string(), Json::Bool(more)),
        ("latest_besties_reel_media".to_string(), Json::Bool(more)),
        ("latest_reel_media".to_string(), Json::Bool(more)),
    ];
    proof {
        json::lemma_members_view(inner@);
    }
    assert(json::members_view(inner@) =~= timeline_data(count@, more)->Object_0);
    let data = Json::Object(inner);
    assert(data@ == timeline_data(count@, more));
    let mut v = object2(
        "__relay_internal__pv__PolarisFeedShareMenurelayprovider",
        Json::Bool(true),
        "__relay_internal__pv__PolarisIsLoggedInrelayprovider",
        Json::Bool(true),
    );
    proof {
        json::lemma_members_view(v@);
    }
    let ghost relay = v@;
    match after {
        Some(cursor) => {
            v.push(("after".to_string(), Json::Text(cursor.clone())));
            v.push(("data".to_string(), data));
            v.push(("first".to_string(), number("12")));
            v.push(("username".to_string(), Json::Text(user.to_string())));
        },
        None => {
            v.push(("data".to_string(), data));
            v.push(("username".to_string(), Json::Text(user.to_string())));
        },
    }
    proof {
        json::lemma_members_view(v@);
        assert(forall|i: int| 0 <= i < relay.len() ==> v@[i] == #[trigger] relay[i]);
        let want = timeline_variables(user@, count@, more, text::opt(*after))->Object_0;
        assert(json::members_view(relay)[0] == want[0]);
        assert(json::members_view(relay)[1] == want[1]);
        assert(v@[0] == relay[0] && v@[1] == relay[1]);
        assert(json::members_view(v@) =~= want);
        json::lemma_members_within(timeline_data(count@, more)->Object_0, 0);
        assert(json::depth(timeline_data(count@, more)) <= 1);
        json::lemma_members_within(want, 1);
    }
    Json::Object(v)
}

/// The address of a persisted query with its variables.
pub open spec fn query_url(doc_id: Seq<char>, variables: JsonView) -> Seq<char> {
    "https://www.instagram.com/graphql/query/?"@ + urls::form_query(
        seq![("doc_id"@, doc_id), ("variables"@, json::written(variables))],
    )
}

/// The fields of a persisted query with its variables as they are written.
pub fn query_fields(doc_id: &str, variables: String) -> (r: Vec<(String, String)>)
    ensures
        net::pairs_view(r@) == seq![("doc_id"@, doc_id@), ("variables"@, variables@)],
{
    let ghost shown = variables@;
    let pairs = vec![
        ("doc_id".to_string(), doc_id.to_string()),
        ("variables".to_string(), variables),
    ];
    assert(net::pairs_view(pairs@) =~= seq![("doc_id"@, doc_id@), ("variables"@, shown)]);
    pairs
}

/// Writes the address of a persisted query with its variables.
pub fn query_address(doc_id: &str, variables: &Json) -> (r: String)
    requires
        json::depth(variables@) <= json::MAX_DEPTH,
    ensures
        r@ == query_url(doc_id@, variables@),
{
    let pairs = query_fields(doc_id, write_json(variables));
    cat2("https://www.instagram.com/graphql/query/?", write_query(&pairs).as_str())
}

/// The persisted query for one post: the configured one, or the usual one.
pub open spec fn shortcode_doc(configured: Option<Seq<char>>) -> Seq<char> {
    match configured {
        Some(d) => d,
        None => "24368985919464652"@,
    }
}

/// The persisted query for the posts of an account: the configured one, or the
/// usual one.
pub open spec fn timeline_doc(configured: Option<Seq<char>>) -> Seq<char> {
    match configured {
        Some(d) => d,
        None => "8759034877476257"@,
    }
}

/// The address of the stories or the highlight with the given identifier.
pub open spec fn reels_url(id: Seq<char>) -> Seq<char> {
    "https://www.instagram.com/api/v1/feed/reels_media/?reel_ids="@ + id
}

/// The address of what is known of an account.
pub open spec fn profile_url(user: Seq<char>) -> Seq<char> {
    "https://www.instagram.com/api/v1/users/web_profile_info/?username="@ + user
}

/// The page of an account.
pub open spec fn account_page(user: Seq<char>) -> Seq<char> {
    "https://www.instagram.com/"@ + user + "/"@
}

// ---------------------------------------------------------------------------
// Answers
// ---------------------------------------------------------------------------

/// The message of an answer that tells of an error.
pub open spec fn error_in(j: JsonView) -> Seq<char> {
    match j.text_at("message"@) {
        Some(m) => m,
        None => {
            let first = match j.get("errors"@) {
                Some(e) => match e.as_list() {
                    Some(s) => if s.len() > 0 {
                        instagram::either(s[0], "description"@, "message"@)
                    } else {
                        None
                    },
                    None => None,
                },
                None => None,
            };
            let told = match first {
                Some(v) => v.as_text(),
                None => None,
            };
            match told {
                Some(m) => m,
                None => "check the doc_id / query_hash and cookie in Settings"@,
            }
        },
    }
}

/// Whether an answer tells of an error.
pub open spec fn is_error(j: JsonView) -> bool {
    j.get("errors"@) is Some || j.text_at("status"@) == Some("fail"@)
}

/// What is wrong with an answer: it is no JSON, it is broken, or it tells of an
/// error. An answer to someone who is not logged in is a page and no JSON.
pub open spec fn answer_error(
    starts_like_json: bool,
    parsed: Result<JsonView, Seq<char>>,
) -> Option<Seq<char>> {
    if !starts_like_json {
        Some(
            "Instagram returned a non-JSON response (a login or challenge page) — the session cookie is missing or stale"@,
        )
    } else {
        match parsed {
            Err(e) => Some("Instagram response was not valid JSON: "@ + e),
            Ok(j) => if is_error(j) {
                Some("Instagram API error: "@ + error_in(j))
            } else {
                None
            },
        }
    }
}

/// Reads the message of an answer that tells of an error.
pub fn error_message(v: &Json) -> (r: String)
    ensures
        r@ == error_in(v@),
{
    match v.str_at("message") {
        Some(m) => {
            return m.clone();
        },
        None => {},
    }
    let first = match v.get("errors") {
        Some(e) => match e.as_array() {
            Some(list) => {
                proof {
                    json::lemma_list_view(list@);
                }
                if list.len() > 0 {
                    assert(json::list_view(list@)[0] == list@[0]@);
                    match list[0].get("description") {
                        Some(d) => Some(d),
                        None => list[0].get("message"),
                    }
                } else {
                    None
                }
            },
            None => None,
        },
        None => None,
    };
    let told = match first {
        Some(d) => d.as_str(),
        None => None,
    };
    match told {
        Some(m) => m.clone(),
        None => "check the doc_id / query_hash and cookie in Settings".to_string(),
    }
}

/// The answer without the white space in front of it.
pub open spec fn answer_text(s: Seq<char>) -> Seq<char> {
    text::trim_start(s)
}

fn without_leading_space<'a>(s: &'a [char]) -> (r: &'a [char])
    ensures
        r@ == text::trim_start(s@),
{
    let mut i: usize = 0;
    assert(s@.skip(0) =~= s@);
    while i < s.len() && text::space(s[i])
        invariant
            i <= s.len(),
            text::trim_start(s@.skip(i as int)) == text::trim_start(s@),
        decreases s.len() - i,
    {
        assert(s@.skip(i as int).skip(1) =~= s@.skip(i + 1));
        i += 1;
    }
    let rest = vstd::slice::slice_subrange(s, i, s.len());
    assert(rest@ =~= s@.skip(i as int));
    rest
}

/// Reads an answer.
pub fn parse_ig_json(answer: &str) -> (r: Result<Json, String>)
    ensures
        match r {
            Ok(j) => json::parsed_json(answer_text(answer@)) == Ok::<JsonView, Seq<char>>(j@)
                && json::depth(j@) <= json::MAX_DEPTH && answer_error(
                text::has_prefix(answer_text(answer@), "{"@),
                json::parsed_json(answer_text(answer@)),
            ) is None,
            Err(e) => answer_error(
                text::has_prefix(answer_text(answer@), "{"@),
                json::parsed_json(answer_text(answer@)),
            ) == Some(e@),
        },
{
    let cs = chars_of(answer);
    let rest = without_leading_space(cs.as_slice());
    if !starts_with(rest, "{") {
        return Err(
            "Instagram returned a non-JSON response (a login or challenge page) — the session cookie is missing or stale".to_string(),
        );
    }
    match parse_json(string_of(rest).as_str()) {
        Ok(j) => {
            let failed = match j.str_at("status") {
                Some(s) => text::str_eq(s.as_str(), "fail"),
                None => false,
            };
            if j.get("errors").is_some() || failed {
                Err(cat2("Instagram API error: ", error_message(&j).as_str()))
            } else {
                Ok(j)
            }
        },
        Err(e) => Err(cat2("Instagram response was not valid JSON: ", e.as_str())),
    }
}

// ---------------------------------------------------------------------------
// The run
// ---------------------------------------------------------------------------

/// The group of a target within its account.
pub open spec fn class_of(t: TargetView) -> Seq<char> {
    match t {
        TargetView::Shortcode(_, reel) => if reel {
            "reel"@
        } else {
            "post"@
        },
        TargetView::Stories(_) => "story"@,
        TargetView::Highlight(_) => "highlight"@,
        TargetView::Profile(_) => "profile"@,
    }
}

/// The account that a target names.
pub open spec fn account_of(t: TargetView) -> Option<Seq<char>> {
    match t {
        TargetView::Stories(u) => Some("@"@ + u),
        TargetView::Profile(u) => Some("@"@ + u),
        _ => None,
    }
}

/// What is known of a target before anything is asked.
pub fn describe_target(target: &Target) -> (r: EntryMeta)
    ensures
        text::opt(r.author) == account_of(target@),
        text::opt(r.media_class) == Some(class_of(target@)),
        r.title is None,
        r.out_dir is None,
{
    let class = match target {
        Target::Shortcode(_, reel) => if *reel {
            "reel"
        } else {
            "post"
        },
        Target::Stories(_) => "story",
        Target::Highlight(_) => "highlight",
        Target::Profile(_) => "profile",
    };
    let author = match target {
        Target::Stories(u) => Some(cat2("@", u.as_str())),
        Target::Profile(u) => Some(cat2("@", u.as_str())),
        _ => None,
    };
    EntryMeta { author, title: None, media_class: Some(class.to_string()), out_dir: None }
}

/// What is known of a URL before anything is asked.
pub fn describe(url: &str) -> (r: EntryMeta)
    ensures
        match instagram::target_of(urls::parsed_url(url@)) {
            Some(t) => {
                &&& text::opt(r.author) == account_of(t)
                &&& text::opt(r.media_class) == Some(class_of(t))
                &&& r.title is None
                &&& r.out_dir is None
            },
            None => r.nothing(),
        },
{
    match classify(url) {
        Some(t) => describe_target(&t),
        None => EntryMeta::default(),
    }
}

/// A request, the wait before it, and what to say of it where it fails.
#[derive(Debug)]
pub struct IgRequest {
    pub url: String,
    pub opts: RequestOptions,
    pub pause_ms: u64,
    pub failure: &'static str,
}

/// The model of [`IgRequest`].
#[verifier::ext_equal]
pub struct IgRequestView {
    pub url: Seq<char>,
    pub headers: Map<Seq<char>, Seq<char>>,
    pub cookie: Option<Seq<char>>,
    pub byte_range: Option<(u64, u64)>,
    pub pause_ms: u64,
    pub failure: Seq<char>,
}

impl View for IgRequest {
    type V = IgRequestView;

    open spec fn view(&self) -> IgRequestView {
        IgRequestView {
            url: self.url@,
            headers: strmap::text_values(self.opts.headers@),
            cookie: text::opt(self.opts.cookies),
            byte_range: self.opts.byte_range,
            pause_ms: self.pause_ms,
            failure: self.failure@,
        }
    }
}

/// What does not change while a download runs.
#[derive(Debug)]
pub struct IgPlan {
    pub target: Target,
    pub cookie: Option<String>,
    pub app_id: String,
    pub doc_shortcode: Option<String>,
    pub doc_timeline: Option<String>,
}

/// The model of [`IgPlan`].
#[verifier::ext_equal]
pub struct IgPlanView {
    pub target: TargetView,
    pub cookie: Option<Seq<char>>,
    pub app_id: Seq<char>,
    pub doc_shortcode: Option<Seq<char>>,
    pub doc_timeline: Option<Seq<char>>,
}

impl View for IgPlan {
    type V = IgPlanView;

    open spec fn view(&self) -> IgPlanView {
        IgPlanView {
            target: self.target@,
            cookie: text::opt(self.cookie),
            app_id: self.app_id@,
            doc_shortcode: text::opt(self.doc_shortcode),
            doc_timeline: text::opt(self.doc_timeline),
        }
    }
}

impl IgPlanView {
    /// A request to an address, made from a page.
    pub open spec fn request(
        self,
        url: Seq<char>,
        referer: Seq<char>,
        pause_ms: u64,
        failure: Seq<char>,
    ) -> IgRequestView {
        IgRequestView {
            url,
            headers: ig_headers(self.cookie, referer, self.app_id),
            cookie: self.cookie,
            byte_range: None,
            pause_ms,
            failure,
        }
    }

    /// The request for a page of the posts of an account.
    pub open spec fn page_request(self, user: Seq<char>, page: nat, after: Option<Seq<char>>) -> IgRequestView {
        self.request(
            query_url(
                timeline_doc(self.doc_timeline),
                timeline_variables(user, "12"@, true, after),
            ),
            account_page(user),
            if page > 0 {
                PAGE_PACE_MS
            } else {
                0
            },
            "Instagram GraphQL request failed"@,
        )
    }

    /// The first request, or why there is none: stories and highlights are shown to
    /// nobody who is not logged in.
    pub open spec fn first_request(self) -> Result<IgRequestView, Seq<char>> {
        match self.target {
            TargetView::Shortcode(code, _) => Ok(
                self.request(
                    query_url(shortcode_doc(self.doc_shortcode), shortcode_variables(code)),
                    "https://www.instagram.com/p/"@ + code + "/"@,
                    0,
                    "Instagram GraphQL request failed"@,
                ),
            ),
            TargetView::Highlight(id) => if self.cookie is None {
                Err(
                    "Instagram: highlights need a logged-in session — open the highlight in your browser or paste a session cookie in Settings"@,
                )
            } else {
                Ok(
                    self.request(
                        reels_url("highlight%3A"@ + id),
                        "https://www.instagram.com/"@,
                        0,
                        "Instagram highlight request failed"@,
                    ),
                )
            },
            TargetView::Stories(user) => if self.cookie is None {
                Err(
                    "Instagram: stories need a logged-in session — open the story in your browser (so the extension captures the cookie) or paste a session cookie in Settings"@,
                )
            } else {
                Ok(self.request(profile_url(user), account_page(user), 0, ""@))
            },
            TargetView::Profile(user) => Ok(self.page_request(user, 0, None)),
        }
    }
}

/// Whether a result of the run is the given one.
pub open spec fn request_result(r: Result<IgRequest, String>) -> Result<IgRequestView, Seq<char>> {
    match r {
        Ok(q) => Ok(q@),
        Err(e) => Err(e@),
    }
}

impl IgPlan {
    fn ask(&self, url: String, referer: &str, pause_ms: u64, failure: &'static str) -> (r: IgRequest)
        ensures
            r@ == self@.request(url@, referer@, pause_ms, failure@),
    {
        IgRequest {
            url,
            opts: ig_opts(&self.cookie, referer, self.app_id.as_str()),
            pause_ms,
            failure,
        }
    }

    fn ask_page(&self, user: &str, page: u32, after: &Option<String>) -> (r: IgRequest)
        ensures
            r@ == self@.page_request(user@, page as nat, text::opt(*after)),
    {
        let variables = timeline_query(user, "12", true, after);
        let url = match &self.doc_timeline {
            Some(d) => query_address(d.as_str(), &variables),
            None => query_address("8759034877476257", &variables),
        };
        let referer = cat3("https://www.instagram.com/", user, "/");
        let pause_ms: u64 = if page > 0 {
            PAGE_PACE_MS
        } else {
            0
        };
        self.ask(url, referer.as_str(), pause_ms, "Instagram GraphQL request failed")
    }

    fn first(&self) -> (r: Result<IgRequest, String>)
        ensures
            request_result(r) == self@.first_request(),
    {
        match &self.target {
            Target::Shortcode(code, _) => {
                let variables = shortcode_query(code.as_str());
                let url = match &self.doc_shortcode {
                    Some(d) => query_address(d.as_str(), &variables),
                    None => query_address("24368985919464652", &variables),
                };
                let referer = cat3("https://www.instagram.com/p/", code.as_str(), "/");
                Ok(self.ask(url, referer.as_str(), 0, "Instagram GraphQL request failed"))
            },
            Target::Highlight(id) => {
                if self.cookie.is_none() {
                    return Err(
                        "Instagram: highlights need a logged-in session — open the highlight in your browser or paste a session cookie in Settings".to_string(),
                    );
                }
                let id = cat2("highlight%3A", id.as_str());
                let url = cat2(
                    "https://www.instagram.com/api/v1/feed/reels_media/?reel_ids=",
                    id.as_str(),
                );
                Ok(
                    self.ask(
                        url,
                        "https://www.instagram.com/",
                        0,
                        "Instagram highlight request failed",
                    ),
                )
            },
            Target::Stories(user) => {
                if self.cookie.is_none() {
                    return Err(
                        "Instagram: stories need a logged-in session — open the story in your browser (so the extension captures the cookie) or paste a session cookie in Settings".to_string(),
                    );
                }
                let url = cat2(
                    "https://www.instagram.com/api/v1/users/web_profile_info/?username=",
                    user.as_str(),
                );
                let referer = cat3("https://www.instagram.com/", user.as_str(), "/");
                Ok(self.ask(url, referer.as_str(), 0, ""))
            },
            Target::Profile(user) => Ok(self.ask_page(user.as_str(), 0, &None)),
        }
    }
}

/// A download that is under way: what was collected, and how far it is.
#[derive(Debug)]
pub struct IgRun {
    pub plan: IgPlan,
    pub items: Vec<MediaItem>,
    pub seen: Vec<String>,
    /// The account, once an answer named it or the target does.
    pub author: Option<String>,
    /// Whether the account is still to be looked up.
    pub looking_up: bool,
    /// The page that was asked for.
    pub page: u32,
}

/// The model of [`IgRun`].
#[verifier::ext_equal]
pub struct IgRunView {
    pub plan: IgPlanView,
    pub found: Found,
    pub author: Option<Seq<char>>,
    pub looking_up: bool,
    pub page: nat,
}

impl View for IgRun {
    type V = IgRunView;

    open spec fn view(&self) -> IgRunView {
        IgRunView {
            plan: self.plan@,
            found: instagram::found(self.items@, self.seen@),
            author: text::opt(self.author),
            looking_up: self.looking_up,
            page: self.page as nat,
        }
    }
}

/// What comes next: another request, or the end of the collecting.
pub enum IgNext {
    Ask(IgRequestView),
    Collected,
}

/// The cursor of the next page, where an answer promises one.
pub open spec fn next_cursor(j: JsonView) -> Option<Seq<char>> {
    match instagram::page_in(j) {
        Some(p) => {
            let more = match p.get("has_next_page"@) {
                Some(v) => v.as_truth() == Some(true),
                None => false,
            };
            if more {
                p.text_at("end_cursor"@)
            } else {
                None
            }
        },
        None => None,
    }
}

/// The identifier of the account in an answer about it.
pub open spec fn user_id_in(j: JsonView) -> Option<Seq<char>> {
    match instagram::inner(j, "data"@, "user"@) {
        Some(u) => u.text_at("id"@),
        None => None,
    }
}

/// What to say where an account cannot be looked up.
pub open spec fn lookup_failure(user: Seq<char>) -> Seq<char> {
    "Instagram: could not resolve a user id for @"@ + user + " (stale cookie?)"@
}

impl IgRunView {
    /// The state behind an answer, with what comes next, or what is wrong.
    pub open spec fn after(self, j: JsonView) -> (IgRunView, Result<IgNext, Seq<char>>) {
        let walked = IgRunView { found: instagram::walked(j, self.found), ..self };
        let named = match instagram::owner_in(j) {
            Some(owner) => IgRunView { author: Some("@"@ + owner), ..walked },
            None => walked,
        };
        match self.plan.target {
            TargetView::Shortcode(_, _) => (named, Ok(IgNext::Collected)),
            TargetView::Highlight(_) => (named, Ok(IgNext::Collected)),
            TargetView::Stories(user) => if self.looking_up {
                let asked = IgRunView { looking_up: false, ..self };
                match user_id_in(j) {
                    Some(id) => (
                        asked,
                        Ok(
                            IgNext::Ask(
                                self.plan.request(
                                    reels_url(id),
                                    "https://www.instagram.com/stories/"@ + user + "/"@,
                                    0,
                                    "Instagram stories request failed"@,
                                ),
                            ),
                        ),
                    ),
                    None => (asked, Err(lookup_failure(user))),
                }
            } else {
                (walked, Ok(IgNext::Collected))
            },
            TargetView::Profile(user) => {
                let next = IgRunView { page: self.page + 1, ..walked };
                match next_cursor(j) {
                    Some(cursor) => if walked.found.items.len() == self.found.items.len()
                        || self.page + 1 >= MAX_PAGES {
                        (walked, Ok(IgNext::Collected))
                    } else {
                        (
                            next,
                            Ok(
                                IgNext::Ask(
                                    self.plan.page_request(user, self.page + 1, Some(cursor)),
                                ),
                            ),
                        )
                    },
                    None => (walked, Ok(IgNext::Collected)),
                }
            },
        }
    }
}

/// The result of a step as its model.
pub open spec fn next_result(r: Result<Option<IgRequest>, String>) -> Result<IgNext, Seq<char>> {
    match r {
        Ok(Some(q)) => Ok(IgNext::Ask(q@)),
        Ok(None) => Ok(IgNext::Collected),
        Err(e) => Err(e@),
    }
}

fn cursor_of(j: &Json) -> (r: Option<String>)
    ensures
        text::opt(r) == next_cursor(j@),
{
    match find_page_info(j) {
        Some(p) => {
            let more = match p.get("has_next_page") {
                Some(v) => match v.as_bool() {
                    Some(b) => b,
                    None => false,
                },
                None => false,
            };
            if more {
                match p.str_at("end_cursor") {
                    Some(c) => Some(c.clone()),
                    None => None,
                }
            } else {
                None
            }
        },
        None => None,
    }
}

fn user_id_of(j: &Json) -> (r: Option<String>)
    ensures
        text::opt(r) == user_id_in(j@),
{
    let user = match j.get("data") {
        Some(d) => d.get("user"),
        None => None,
    };
    match user {
        Some(u) => match u.str_at("id") {
            Some(id) => Some(id.clone()),
            None => None,
        },
        None => None,
    }
}

impl IgRun {
    /// Starts a download for a target: the state and the first request, or why
    /// there is none.
    pub fn start_for(target: Target, given_cookie: &Option<String>, cfg: &InstagramConfig) -> (r:
        Result<(IgRun, IgRequest), String>)
        ensures
            ({
                let plan = IgPlanView {
                    target: target@,
                    cookie: session(text::opt(*given_cookie), text::opt(cfg.session_cookie)),
                    app_id: cfg.app_id@,
                    doc_shortcode: text::opt(cfg.doc_id_shortcode),
                    doc_timeline: text::opt(cfg.doc_id_timeline),
                };
                match r {
                    Ok((run, q)) => plan.first_request() == Ok::<IgRequestView, Seq<char>>(q@)
                        && run@ == (IgRunView {
                        plan,
                        found: Found { items: Seq::empty(), seen: Seq::empty() },
                        author: account_of(target@),
                        looking_up: target@ is Stories,
                        page: 0,
                    }),
                    Err(e) => plan.first_request() == Err::<IgRequestView, Seq<char>>(e@),
                }
            }),
    {
        let looking_up = match &target {
            Target::Stories(_) => true,
            _ => false,
        };
        let author = describe_target(&target).author;
        let plan = IgPlan::of(target, given_cookie, cfg);
        match plan.first() {
            Ok(q) => {
                let run = IgRun {
                    plan,
                    items: Vec::new(),
                    seen: Vec::new(),
                    author,
                    looking_up,
                    page: 0,
                };
                assert(run@.found =~= Found { items: Seq::empty(), seen: Seq::empty() });
                Ok((run, q))
            },
            Err(e) => Err(e),
        }
    }

    /// Takes the answer to the last request: another request, or `None` once
    /// everything is collected.
    pub fn take(&mut self, j: &Json) -> (r: Result<Option<IgRequest>, String>)
        requires
            json::depth(j@) <= json::MAX_DEPTH,
            old(self).page < MAX_PAGES,
        ensures
            (final(self)@, next_result(r)) == old(self)@.after(j@),
            final(self).page < MAX_PAGES,
    {
        let lookup = match &self.plan.target {
            Target::Stories(user) => if self.looking_up {
                Some(user.clone())
            } else {
                None
            },
            _ => None,
        };
        match lookup {
            Some(user) => {
                self.looking_up = false;
                return match user_id_of(j) {
                    Some(id) => {
                        let url = cat2(
                            "https://www.instagram.com/api/v1/feed/reels_media/?reel_ids=",
                            id.as_str(),
                        );
                        let referer = cat3(
                            "https://www.instagram.com/stories/",
                            user.as_str(),
                            "/",
                        );
                        Ok(
                            Some(
                                self.plan.ask(
                                    url,
                                    referer.as_str(),
                                    0,
                                    "Instagram stories request failed",
                                ),
                            ),
                        )
                    },
                    None => Err(
                        cat3(
                            "Instagram: could not resolve a user id for @",
                            user.as_str(),
                            " (stale cookie?)",
                        ),
                    ),
                };
            },
            None => {},
        }
        let before = self.items.len();
        walk(j, &mut self.items, &mut self.seen);
        match &self.plan.target {
            Target::Profile(user) => {
                match cursor_of(j) {
                    Some(cursor) => {
                        if self.items.len() == before || self.page + 1 >= MAX_PAGES {
                            return Ok(None);
                        }
                        let page: u32 = self.page + 1;
                        let q = self.plan.ask_page(user.as_str(), page, &Some(cursor));
                        self.page = page;
                        Ok(Some(q))
                    },
                    None => Ok(None),
                }
            },
            Target::Stories(_) => Ok(None),
            _ => {
                match find_owner(j) {
                    Some(owner) => {
                        self.author = Some(cat2("@", owner.as_str()));
                    },
                    None => {},
                }
                Ok(None)
            },
        }
    }
}

/// What to say of a URL that points at nothing on Instagram.
pub open spec fn no_target() -> Seq<char> {
    "not an Instagram post / reel / story / profile URL"@
}

/// The item at position `i` as a download: its address, and the file that it goes
/// to.
pub open spec fn download_of(items: Seq<MediaItem>, dest_dir: Seq<char>, i: int) -> (
    Seq<char>,
    Seq<char>,
) {
    let m = items[i]@;
    let ext = instagram::ext_of_path(
        instagram::lower_path(urls::parsed_url(m.url)),
        m.is_video,
    );
    (m.url, paths::join(dest_dir, instagram::item_name(m, i as nat, ext)))
}

/// What to say where nothing was found.
pub open spec fn nothing_found() -> Seq<char> {
    "Instagram: no media found — a private/non-followed account, an expired story, or a rotted doc_id/query_hash (refresh it in Settings)"@
}

/// What to say where no item could be fetched.
pub open spec fn nothing_fetched(last_error: Option<Seq<char>>) -> Seq<char> {
    "Instagram: every media item failed to download (CDN URLs may have expired)"@ + (
    match last_error {
        Some(e) => " — last error: "@ + e,
        None => Seq::empty(),
    })
}

impl IgRun {
    /// Starts a download: the state and the first request, or why there is none.
    pub fn start(url: &str, given_cookie: &Option<String>, cfg: &InstagramConfig) -> (r: Result<
        (IgRun, IgRequest),
        String,
    >)
        ensures
            match instagram::target_of(urls::parsed_url(url@)) {
                Some(target) => ({
                    let plan = IgPlanView {
                        target,
                        cookie: session(text::opt(*given_cookie), text::opt(cfg.session_cookie)),
                        app_id: cfg.app_id@,
                        doc_shortcode: text::opt(cfg.doc_id_shortcode),
                        doc_timeline: text::opt(cfg.doc_id_timeline),
                    };
                    match r {
                        Ok((run, q)) => plan.first_request() == Ok::<IgRequestView, Seq<char>>(q@)
                            && run@ == (IgRunView {
                            plan,
                            found: Found { items: Seq::empty(), seen: Seq::empty() },
                            author: account_of(target),
                            looking_up: target is Stories,
                            page: 0,
                        }),
                        Err(e) => plan.first_request() == Err::<IgRequestView, Seq<char>>(e@),
                    }
                }),
                None => r matches Err(e) && e@ == no_target(),
            },
    {
        match classify(url) {
            Some(target) => Self::start_for(target, given_cookie, cfg),
            None => Err("not an Instagram post / reel / story / profile URL".to_string()),
        }
    }

    /// What to say where the last request failed.
    pub fn request_failure(&self, asked: &'static str, error: &str) -> (r: String)
        ensures
            r@ == (match self@.plan.target {
                TargetView::Stories(user) => if self.looking_up {
                    lookup_failure(user)
                } else {
                    asked@ + ": "@ + error@
                },
                _ => asked@ + ": "@ + error@,
            }),
    {
        match &self.plan.target {
            Target::Stories(user) => {
                if self.looking_up {
                    return cat3(
                        "Instagram: could not resolve a user id for @",
                        user.as_str(),
                        " (stale cookie?)",
                    );
                }
            },
            _ => {},
        }
        cat3(asked, ": ", error)
    }

    /// Takes the text of the answer to the last request: another request, or `None`
    /// once everything is collected. A broken answer ends the download; where an
    /// account is looked up, with the failure to do so.
    pub fn answer(&mut self, answer: &str) -> (r: Result<Option<IgRequest>, String>)
        requires
            old(self).page < MAX_PAGES,
        ensures
            ({
                let parsed = json::parsed_json(answer_text(answer@));
                match answer_error(text::has_prefix(answer_text(answer@), "{"@), parsed) {
                    Some(e) => final(self)@ == old(self)@ && r is Err && r->Err_0@ == (
                    match old(self)@.plan.target {
                        TargetView::Stories(user) => if old(self).looking_up {
                            lookup_failure(user)
                        } else {
                            e
                        },
                        _ => e,
                    }),
                    None => (final(self)@, next_result(r)) == old(self)@.after(parsed->Ok_0),
                }
            }),
            final(self).page < MAX_PAGES,
    {
        match parse_ig_json(answer) {
            Ok(j) => self.take(&j),
            Err(e) => {
                match &self.plan.target {
                    Target::Stories(user) => {
                        if self.looking_up {
                            return Err(
                                cat3(
                                    "Instagram: could not resolve a user id for @",
                                    user.as_str(),
                                    " (stale cookie?)",
                                ),
                            );
                        }
                    },
                    _ => {},
                }
                Err(e)
            },
        }
    }

    /// The collected items as downloads into a directory, or that there are none.
    pub fn downloads(&self, dest_dir: &str) -> (r: Result<Vec<(String, String)>, String>)
        ensures
            match r {
                Ok(list) => self.items@.len() > 0 && net::pairs_view(list@) == Seq::new(
                    self.items@.len(),
                    |i: int| download_of(self.items@, dest_dir@, i),
                ),
                Err(e) => self.items@.len() == 0 && e@ == nothing_found(),
            },
    {
        if self.items.len() == 0 {
            return Err(
                "Instagram: no media found — a private/non-followed account, an expired story, or a rotted doc_id/query_hash (refresh it in Settings)".to_string(),
            );
        }
        let ghost all = Seq::new(
            self.items@.len(),
            |i: int| download_of(self.items@, dest_dir@, i),
        );
        let mut out: Vec<(String, String)> = Vec::new();
        let mut i: usize = 0;
        assert(net::pairs_view(out@) =~= all.take(0));
        while i < self.items.len()
            invariant
                i <= self.items.len(),
                all == Seq::new(
                    self.items@.len(),
                    |i: int| download_of(self.items@, dest_dir@, i),
                ),
                net::pairs_view(out@) == all.take(i as int),
            decreases self.items.len() - i,
        {
            let name = item_filename(&self.items[i], i);
            let one = (self.items[i].url.clone(), join_path(dest_dir, name.as_str()));
            let ghost before = net::pairs_view(out@);
            let ghost shown = net::pair_view(one);
            out.push(one);
            assert(net::pairs_view(out@) =~= before.push(shown));
            assert(shown == all[i as int]);
            i += 1;
            assert(net::pairs_view(out@) =~= all.take(i as int));
        }
        assert(all.take(self.items@.len() as int) =~= all);
        Ok(out)
    }

    /// What the items are fetched with: a browser's name, the page that they stand
    /// on, and the cookie.
    pub fn media_context(&self) -> (r: RequestContext)
        ensures
            strmap::text_values(r.headers@) == Map::<Seq<char>, Seq<char>>::empty().insert(
                "User-Agent"@,
                USER_AGENT@,
            ).insert("Referer"@, "https://www.instagram.com/"@),
            text::opt(r.cookie) == self@.plan.cookie,
    {
        let mut headers: StrMap<String> = StrMap::new();
        assert(strmap::text_values(headers@) =~= Map::empty());
        put(&mut headers, "User-Agent", USER_AGENT);
        put(&mut headers, "Referer", "https://www.instagram.com/");
        RequestContext { headers, cookie: copy_opt(&self.plan.cookie) }
    }

    /// The outcome once the items are fetched, or that none could be.
    pub fn outcome(&self, files: Vec<String>, last_error: Option<String>) -> (r: Result<
        Outcome,
        String,
    >)
        ensures
            match r {
                Ok(o) => {
                    &&& files@.len() > 0
                    &&& o.files == files
                    &&& text::opt(o.meta.author) == self@.author
                    &&& text::opt(o.meta.media_class) == Some(class_of(self@.plan.target))
                    &&& o.meta.title is None
                    &&& o.meta.out_dir is None
                    &&& o.expected_units is None
                },
                Err(e) => files@.len() == 0 && e@ == nothing_fetched(text::opt(last_error)),
            },
    {
        if files.len() == 0 {
            let head = "Instagram: every media item failed to download (CDN URLs may have expired)";
            return Err(
                match last_error {
                    Some(e) => {
                        let tail = cat2(" — last error: ", e.as_str());
                        cat2(head, tail.as_str())
                    },
                    None => {
                        let r = head.to_string();
                        assert(r@ =~= nothing_fetched(None));
                        r
                    },
                },
            );
        }
        let mut meta = describe_target(&self.plan.target);
        meta.author = copy_opt(&self.author);
        Ok(Outcome { files, meta, expected_units: None })
    }
}

/// A walk through the posts of an account ends: every answer either ends it or
/// leads to the next page, and there are no more pages than the limit.
pub proof fn profile_walks_end(run: IgRunView, j: JsonView)
    requires
        run.plan.target is Profile,
        run.page < MAX_PAGES,
    ensures
        run.after(j).1 matches Ok(next) && match next {
            IgNext::Ask(_) => run.after(j).0.page == run.page + 1 && run.page + 1 < MAX_PAGES
                && run.after(j).0.found.items.len() != run.found.items.len(),
            IgNext::Collected => run.after(j).0.page == run.page,
        },
{
}

/// However many answers come, no item is collected twice.
pub proof fn runs_collect_once(run: IgRunView, j: JsonView)
    requires
        run.found.told_apart(),
    ensures
        run.after(j).0.found.told_apart(),
{
    instagram::items_are_collected_once(j, run.found);
}

// ---------------------------------------------------------------------------
// Thumbnails
// ---------------------------------------------------------------------------

/// What a search for a thumbnail waits for.
#[derive(Clone, Copy, Debug, PartialEq, Eq, Structural)]
pub enum ThumbStage {
    /// What is known of the account.
    Account,
    /// An answer with images in it.
    Images,
}

/// The next step of a search for a thumbnail: a request, or its end with the
/// address of an image and whether that is square.
pub enum ThumbNext {
    Ask(ThumbStage, IgRequestView),
    Found(Option<(Seq<char>, bool)>),
}

/// The next step of a search for a thumbnail.
#[derive(Debug)]
pub enum ThumbStep {
    Ask(ThumbStage, IgRequest),
    Found(Option<(String, bool)>),
}

impl View for ThumbStep {
    type V = ThumbNext;

    open spec fn view(&self) -> ThumbNext {
        match self {
            ThumbStep::Ask(stage, q) => ThumbNext::Ask(*stage, q@),
            ThumbStep::Found(o) => ThumbNext::Found(instagram::found_view(*o)),
        }
    }
}

/// Whether the images of a target are square.
pub open spec fn is_square(t: TargetView) -> bool {
    t is Profile || t is Highlight
}

/// The picture of an account in an answer about it.
pub open spec fn picture_in(j: JsonView) -> Option<Seq<char>> {
    match instagram::inner(j, "data"@, "user"@) {
        Some(u) => match instagram::either(u, "profile_pic_url"@, "profile_pic_url_hd"@) {
            Some(v) => v.as_text(),
            None => None,
        },
        None => None,
    }
}

impl IgPlanView {
    /// The first step of the search for a thumbnail.
    pub open spec fn thumb_start(self) -> ThumbNext {
        match self.target {
            TargetView::Shortcode(code, _) => ThumbNext::Ask(
                ThumbStage::Images,
                self.request(
                    query_url(shortcode_doc(self.doc_shortcode), shortcode_variables(code)),
                    "https://www.instagram.com/"@,
                    0,
                    ""@,
                ),
            ),
            TargetView::Profile(user) => ThumbNext::Ask(
                ThumbStage::Account,
                self.request(profile_url(user), account_page(user), 0, ""@),
            ),
            TargetView::Stories(user) => if self.cookie is Some {
                ThumbNext::Ask(
                    ThumbStage::Account,
                    self.request(profile_url(user), account_page(user), 0, ""@),
                )
            } else {
                ThumbNext::Found(None)
            },
            TargetView::Highlight(id) => if self.cookie is Some {
                ThumbNext::Ask(
                    ThumbStage::Images,
                    self.request(
                        reels_url("highlight%3A"@ + id),
                        "https://www.instagram.com/"@,
                        0,
                        ""@,
                    ),
                )
            } else {
                ThumbNext::Found(None)
            },
        }
    }

    /// The step behind an answer; a failed request has none. The picture of an
    /// account is preferred to its newest post.
    pub open spec fn thumb_after(self, stage: ThumbStage, answer: Option<JsonView>) -> ThumbNext {
        match stage {
            ThumbStage::Images => ThumbNext::Found(
                match answer {
                    Some(j) => match instagram::small_image(j) {
                        Some(u) => Some((u, is_square(self.target))),
                        None => None,
                    },
                    None => None,
                },
            ),
            ThumbStage::Account => match self.target {
                TargetView::Profile(user) => {
                    let picture = match answer {
                        Some(j) => picture_in(j),
                        None => None,
                    };
                    match picture {
                        Some(p) => ThumbNext::Found(Some((p, true))),
                        None => ThumbNext::Ask(
                            ThumbStage::Images,
                            self.request(
                                query_url(
                                    timeline_doc(self.doc_timeline),
                                    timeline_variables(user, "3"@, false, None),
                                ),
                                account_page(user),
                                0,
                                ""@,
                            ),
                        ),
                    }
                },
                _ => {
                    let id = match answer {
                        Some(j) => user_id_in(j),
                        None => None,
                    };
                    match id {
                        Some(id) => ThumbNext::Ask(
                            ThumbStage::Images,
                            self.request(reels_url(id), "https://www.instagram.com/"@, 0, ""@),
                        ),
                        None => ThumbNext::Found(None),
                    }
                },
            },
        }
    }
}

impl IgPlan {
    /// The plan for a target.
    pub fn of(target: Target, given_cookie: &Option<String>, cfg: &InstagramConfig) -> (r: IgPlan)
        ensures
            r@ == (IgPlanView {
                target: target@,
                cookie: session(text::opt(*given_cookie), text::opt(cfg.session_cookie)),
                app_id: cfg.app_id@,
                doc_shortcode: text::opt(cfg.doc_id_shortcode),
                doc_timeline: text::opt(cfg.doc_id_timeline),
            }),
    {
        IgPlan {
            target,
            cookie: session_cookie(given_cookie, &cfg.session_cookie),
            app_id: cfg.app_id.clone(),
            doc_shortcode: copy_opt(&cfg.doc_id_shortcode),
            doc_timeline: copy_opt(&cfg.doc_id_timeline),
        }
    }

    fn ask_account(&self, user: &str) -> (r: IgRequest)
        ensures
            r@ == self@.request(profile_url(user@), account_page(user@), 0, ""@),
    {
        let url = cat2("https://www.instagram.com/api/v1/users/web_profile_info/?username=", user);
        let referer = cat3("https://www.instagram.com/", user, "/");
        self.ask(url, referer.as_str(), 0, "")
    }

    fn ask_reels(&self, id: &str) -> (r: IgRequest)
        ensures
            r@ == self@.request(reels_url(id@), "https://www.instagram.com/"@, 0, ""@),
    {
        let url = cat2("https://www.instagram.com/api/v1/feed/reels_media/?reel_ids=", id);
        self.ask(url, "https://www.instagram.com/", 0, "")
    }

    /// Starts the search for a thumbnail.
    pub fn thumbnail(&self) -> (r: ThumbStep)
        ensures
            r@ == self@.thumb_start(),
    {
        match &self.target {
            Target::Shortcode(code, _) => {
                let variables = shortcode_query(code.as_str());
                let url = match &self.doc_shortcode {
                    Some(d) => query_address(d.as_str(), &variables),
                    None => query_address("24368985919464652", &variables),
                };
                ThumbStep::Ask(
                    ThumbStage::Images,
                    self.ask(url, "https://www.instagram.com/", 0, ""),
                )
            },
            Target::Profile(user) => ThumbStep::Ask(
                ThumbStage::Account,
                self.ask_account(user.as_str()),
            ),
            Target::Stories(user) => {
                if self.cookie.is_some() {
                    ThumbStep::Ask(ThumbStage::Account, self.ask_account(user.as_str()))
                } else {
                    ThumbStep::Found(None)
                }
            },
            Target::Highlight(id) => {
                if self.cookie.is_some() {
                    let id = cat2("highlight%3A", id.as_str());
                    ThumbStep::Ask(ThumbStage::Images, self.ask_reels(id.as_str()))
                } else {
                    ThumbStep::Found(None)
                }
            },
        }
    }

    /// Goes on with the search for a thumbnail; a failed request has no answer.
    pub fn thumbnail_after(&self, stage: ThumbStage, answer: Option<&Json>) -> (r: ThumbStep)
        ensures
            r@ == self@.thumb_after(stage, json::opt_view(answer)),
    {
        if stage == ThumbStage::Images {
            let square = match &self.target {
                Target::Profile(_) => true,
                Target::Highlight(_) => true,
                _ => false,
            };
            return ThumbStep::Found(
                match answer {
                    Some(j) => match smallest_image_url(j) {
                        Some(u) => Some((u, square)),
                        None => None,
                    },
                    None => None,
                },
            );
        }
        match &self.target {
            Target::Profile(user) => {
                let picture = match answer {
                    Some(j) => picture_of(j),
                    None => None,
                };
                match picture {
                    Some(p) => ThumbStep::Found(Some((p, true))),
                    None => {
                        let variables = timeline_query(user.as_str(), "3", false, &None);
                        let url = match &self.doc_timeline {
                            Some(d) => query_address(d.as_str(), &variables),
                            None => query_address("8759034877476257", &variables),
                        };
                        let referer = cat3("https://www.instagram.com/", user.as_str(), "/");
                        ThumbStep::Ask(
                            ThumbStage::Images,
                            self.ask(url, referer.as_str(), 0, ""),
                        )
                    },
                }
            },
            _ => {
                let id = match answer {
                    Some(j) => user_id_of(j),
                    None => None,
                };
                match id {
                    Some(id) => ThumbStep::Ask(ThumbStage::Images, self.ask_reels(id.as_str())),
                    None => ThumbStep::Found(None),
                }
            },
        }
    }
}

fn picture_of(j: &Json) -> (r: Option<String>)
    ensures
        text::opt(r) == picture_in(j@),
{
    let user = match j.get("data") {
        Some(d) => d.get("user"),
        None => None,
    };
    match user {
        Some(u) => {
            let first = u.get("profile_pic_url");
            let value = if first.is_some() {
                first
            } else {
                u.get("profile_pic_url_hd")
            };
            match value {
                Some(v) => match v.as_str() {
                    Some(s) => Some(s.clone()),
                    None => None,
                },
                None => None,
            }
        },
        None => None,
    }
}

} // verus!

//! Laws of what is asked of Instagram, and in which order.
use vstd::prelude::*;

use crate::cookies;
use crate::ig_run;
use crate::ig_run::{IgNext, IgPlanView, IgRunView, ThumbNext, ThumbStage};
use crate::instagram;
use crate::instagram::{MediaView, TargetView};
use crate::json;
use crate::json::JsonView;
use crate::number;
use crate::text;

verus! {

// ---------------------------------------------------------------------------
// Targets
// ---------------------------------------------------------------------------

/// A segment of a path: not empty, and without slashes.
pub open spec fn is_segment(s: Seq<char>) -> bool {
    s.len() > 0 && !s.contains('/')
}

proof fn lemma_free(s: Seq<char>)
    requires
        !s.contains('/'),
    ensures
        text::free_of(s, "/"@),
{
    reveal_strlit("/");
    assert forall|i: int| 0 <= i < s.len() implies !"/"@.contains(#[trigger] s[i]) by {
        assert(s.contains(s[i]));
    }
}

proof fn lemma_two_segments(a: Seq<char>, b: Seq<char>)
    requires
        is_segment(a),
        is_segment(b),
    ensures
        instagram::segments("/"@ + a + "/"@ + b + "/"@) == seq![a, b],
        instagram::segments("/"@ + a + "/"@ + b) == seq![a, b],
{
    reveal_strlit("/");
    assert("/"@[0] == '/');
    lemma_free(a);
    lemma_free(b);
    let none = Seq::<char>::empty();
    let two = a.push('/') + b;
    text::lemma_split_one(a, "/"@);
    text::lemma_split_push(a, '/', b, "/"@);
    text::lemma_split_push(two, '/', none, "/"@);
    let path = "/"@ + a + "/"@ + b + "/"@;
    assert(path.take(1) =~= "/"@);
    assert(path.skip(1) =~= two.push('/') + none);
    let bare = "/"@ + a + "/"@ + b;
    assert(bare.take(1) =~= "/"@);
    assert(bare.skip(1) =~= two);
    let pieces = seq![a].push(b);
    assert(text::split(two, "/"@) == pieces);
    assert(text::split(two.push('/') + none, "/"@) == pieces.push(none));
    assert(pieces.drop_last() =~= seq![a]);
    assert(seq![a].drop_last() =~= Seq::<Seq<char>>::empty());
    assert(pieces.push(none).drop_last() =~= pieces);
    reveal_with_fuel(text::filled, 4);
    assert(text::filled(Seq::<Seq<char>>::empty()) =~= Seq::<Seq<char>>::empty());
    assert(text::filled(seq![a]) =~= seq![a]);
    assert(text::filled(pieces) =~= seq![a, b]);
    assert(text::filled(pieces.push(none)) =~= seq![a, b]);
}

/// An address with `p` or `tv` before a code is that post, one with `reel` or
/// `reels` that reel, and one with `stories` the stories of that account, with
/// and without a slash behind.
pub proof fn addresses_name_their_target(host: Seq<char>, code: Seq<char>)
    requires
        instagram::is_instagram_host(host),
        is_segment(code),
        code != "highlights"@,
    ensures
        instagram::target_at(Some(host), "/p/"@ + code + "/"@) == Some(
            TargetView::Shortcode(code, false),
        ),
        instagram::target_at(Some(host), "/tv/"@ + code) == Some(
            TargetView::Shortcode(code, false),
        ),
        instagram::target_at(Some(host), "/reel/"@ + code + "/"@) == Some(
            TargetView::Shortcode(code, true),
        ),
        instagram::target_at(Some(host), "/reels/"@ + code) == Some(
            TargetView::Shortcode(code, true),
        ),
        instagram::target_at(Some(host), "/stories/"@ + code + "/"@) == Some(
            TargetView::Stories(code),
        ),
{
    reveal_strlit("/");
    reveal_strlit("p");
    reveal_strlit("tv");
    reveal_strlit("reel");
    reveal_strlit("reels");
    reveal_strlit("stories");
    reveal_strlit("/p/");
    reveal_strlit("/tv/");
    reveal_strlit("/reel/");
    reveal_strlit("/reels/");
    reveal_strlit("/stories/");
    lemma_two_segments("p"@, code);
    lemma_two_segments("tv"@, code);
    lemma_two_segments("reel"@, code);
    lemma_two_segments("reels"@, code);
    lemma_two_segments("stories"@, code);
    assert("/p/"@ + code + "/"@ =~= "/"@ + "p"@ + "/"@ + code + "/"@);
    assert("/tv/"@ + code =~= "/"@ + "tv"@ + "/"@ + code);
    assert("/reel/"@ + code + "/"@ =~= "/"@ + "reel"@ + "/"@ + code + "/"@);
    assert("/reels/"@ + code =~= "/"@ + "reels"@ + "/"@ + code);
    assert("/stories/"@ + code + "/"@ =~= "/"@ + "stories"@ + "/"@ + code + "/"@);
    assert(text::lower("p"@) =~= "p"@);
    assert(text::lower("tv"@) =~= "tv"@);
    assert(text::lower("reel"@) =~= "reel"@);
    assert(text::lower("reels"@) =~= "reels"@);
    assert(text::lower("stories"@) =~= "stories"@);
    assert("p"@.len() == 1 && "tv"@.len() == 2 && "reel"@.len() == 4 && "reels"@.len() == 5
        && "stories"@.len() == 7);
}

// ---------------------------------------------------------------------------
// Questions
// ---------------------------------------------------------------------------

/// Whether a question is put to the given query with these variables.
pub open spec fn asks_query(url: Seq<char>, doc: Seq<char>, v: JsonView) -> bool {
    url == ig_run::query_url(doc, v)
}

proof fn lemma_timeline_members(user: Seq<char>, count: Seq<char>, more: bool, after: Option<Seq<char>>)
    ensures
        ig_run::timeline_variables(user, count, more, after).text_at("username"@) == Some(user),
        ig_run::timeline_variables(user, count, more, after).text_at("after"@) == after,
{
    reveal_strlit("username");
    reveal_strlit("after");
    reveal_strlit("data");
    reveal_strlit("first");
    reveal_strlit("__relay_internal__pv__PolarisFeedShareMenurelayprovider");
    reveal_strlit("__relay_internal__pv__PolarisIsLoggedInrelayprovider");
    reveal_with_fuel(json::member_from, 7);
    let a = "__relay_internal__pv__PolarisFeedShareMenurelayprovider"@;
    let b = "__relay_internal__pv__PolarisIsLoggedInrelayprovider"@;
    assert(a[0] == '_' && b[0] == '_' && "username"@[0] == 'u' && "after"@[0] == 'a' && "data"@[0]
        == 'd' && "first"@[0] == 'f');
}

/// A post is asked for by its code, under the configured query where there is
/// one, with the session's cookie.
pub proof fn posts_are_asked_for_by_code(plan: IgPlanView, code: Seq<char>, reel: bool)
    requires
        plan.target == TargetView::Shortcode(code, reel),
    ensures
        plan.first_request() matches Ok(q) && q.cookie == plan.cookie && exists|
            doc: Seq<char>,
            v: JsonView,
        | #[trigger]
            asks_query(q.url, doc, v) && v.text_at("shortcode"@) == Some(code) && (
            plan.doc_shortcode is Some ==> doc == plan.doc_shortcode->0),
{
    reveal_strlit("fetch_tagged_user_count");
    reveal_strlit("hoisted_comment_id");
    reveal_strlit("hoisted_reply_id");
    reveal_strlit("shortcode");
    reveal_with_fuel(json::member_from, 5);
    let v = ig_run::shortcode_variables(code);
    assert("fetch_tagged_user_count"@[0] == 'f' && "hoisted_comment_id"@[0] == 'h'
        && "hoisted_reply_id"@[0] == 'h' && "shortcode"@[0] == 's');
    assert(v.text_at("shortcode"@) == Some(code));
    let q = plan.first_request()->Ok_0;
    assert(asks_query(q.url, ig_run::shortcode_doc(plan.doc_shortcode), v));
}

/// An account is asked for by its name, from the beginning.
pub proof fn accounts_are_asked_for_by_name(plan: IgPlanView, user: Seq<char>)
    requires
        plan.target == TargetView::Profile(user),
    ensures
        plan.first_request() matches Ok(q) && q.cookie == plan.cookie && q.pause_ms == 0 && exists|
            doc: Seq<char>,
            v: JsonView,
        | #[trigger]
            asks_query(q.url, doc, v) && v.text_at("username"@) == Some(user) && v.text_at("after"@)
                is None && (plan.doc_timeline is Some ==> doc == plan.doc_timeline->0),
{
    lemma_timeline_members(user, "12"@, true, None);
    let q = plan.first_request()->Ok_0;
    assert(asks_query(
        q.url,
        ig_run::timeline_doc(plan.doc_timeline),
        ig_run::timeline_variables(user, "12"@, true, None),
    ));
}

/// Stories and highlights are asked for with a cookie only; posts and accounts
/// also without one.
pub proof fn stories_need_a_session(plan: IgPlanView)
    ensures
        plan.first_request() is Err <==> plan.cookie is None && (plan.target is Stories
            || plan.target is Highlight),
{
}

/// A highlight is asked for by its number, and stories by the number of the
/// account, which is looked up by name.
pub proof fn reels_are_asked_for_by_number(
    run: IgRunView,
    j: JsonView,
    user: Seq<char>,
    id: Seq<char>,
)
    requires
        run.plan.target == TargetView::Stories(user),
        run.looking_up,
        run.plan.cookie is Some,
    ensures
        run.plan.first_request() matches Ok(q) && text::has_suffix(q.url, "?username="@ + user),
        ig_run::user_id_in(j) == Some(id) ==> (run.after(j).1 matches Ok(IgNext::Ask(q))
            && text::has_suffix(q.url, "?reel_ids="@ + id) && q.cookie == run.plan.cookie),
        ig_run::user_id_in(j) == Some(id) ==> !run.after(j).0.looking_up,
        ig_run::user_id_in(j) is None ==> run.after(j).1 is Err,
{
    reveal_strlit("https://www.instagram.com/api/v1/feed/reels_media/?reel_ids=");
    reveal_strlit("https://www.instagram.com/api/v1/users/web_profile_info/?username=");
    reveal_strlit("?reel_ids=");
    reveal_strlit("?username=");
    let a = ig_run::reels_url(id);
    let b = ig_run::profile_url(user);
    assert(a.skip(a.len() - ("?reel_ids="@ + id).len()) =~= "?reel_ids="@ + id);
    assert(b.skip(b.len() - ("?username="@ + user).len()) =~= "?username="@ + user);
}

/// The next page of an account is asked for from where the last one ended, as
/// long as there is one, the last one brought something, and the walk is not
/// too long; between pages there is a pause.
pub proof fn pages_follow_the_cursor(
    run: IgRunView,
    j: JsonView,
    user: Seq<char>,
    page: JsonView,
    cursor: Seq<char>,
)
    requires
        run.plan.target == TargetView::Profile(user),
        instagram::page_in(j) == Some(page),
        page.get("has_next_page"@) == Some(JsonView::Bool(true)),
        page.text_at("end_cursor"@) == Some(cursor),
        run.page + 1 < 40,
        instagram::walked(j, run.found).items.len() > run.found.items.len(),
    ensures
        run.after(j).0.page == run.page + 1,
        run.after(j).1 matches Ok(IgNext::Ask(q)) && q.pause_ms == 2000 && q.cookie
            == run.plan.cookie && exists|doc: Seq<char>, v: JsonView| #[trigger]
            asks_query(q.url, doc, v) && v.text_at("username"@) == Some(user) && v.text_at("after"@)
                == Some(cursor) && (run.plan.doc_timeline is Some ==> doc
                == run.plan.doc_timeline->0),
{
    lemma_timeline_members(user, "12"@, true, Some(cursor));
    assert(page.get("has_next_page"@)->0.as_truth() == Some(true));
    let q = run.plan.page_request(user, run.page + 1, Some(cursor));
    assert(run.after(j).1 == Ok::<IgNext, Seq<char>>(IgNext::Ask(q)));
    assert(asks_query(
        q.url,
        ig_run::timeline_doc(run.plan.doc_timeline),
        ig_run::timeline_variables(user, "12"@, true, Some(cursor)),
    ));
}

/// A walk stops where the answer promises no further page.
pub proof fn walks_stop_at_the_last_page(
    run: IgRunView,
    j: JsonView,
    user: Seq<char>,
    page: JsonView,
)
    requires
        run.plan.target == TargetView::Profile(user),
        instagram::page_in(j) == Some(page),
        page.get("has_next_page"@) == Some(JsonView::Bool(false)),
    ensures
        run.after(j).1 == Ok::<IgNext, Seq<char>>(IgNext::Collected),
{
    assert(page.get("has_next_page"@)->0.as_truth() == Some(false));
}

/// What an answer holds is added to what was found; only the answer to a
/// look-up of stories holds nothing to add.
pub proof fn answers_are_kept(run: IgRunView, j: JsonView)
    ensures
        !(run.plan.target is Stories && run.looking_up) ==> run.after(j).0.found
            == instagram::walked(j, run.found),
        run.plan.target is Stories && run.looking_up ==> run.after(j).0.found == run.found,
        run.after(j).0.plan == run.plan,
        (run.plan.target is Shortcode || run.plan.target is Highlight) && instagram::owner_in(j)
            is Some ==> run.after(j).0.author == Some("@"@ + instagram::owner_in(j)->0),
{
}

/// A cookie that a download brings goes before the configured one, unless it
/// is blank.
pub proof fn own_cookies_win(given: Seq<char>, configured: Option<Seq<char>>)
    ensures
        text::trim(given).len() > 0 ==> ig_run::session(Some(given), configured) == Some(given),
        text::trim(given).len() == 0 ==> ig_run::session(Some(given), configured) == configured,
        ig_run::session(None, configured) == configured,
{
}

/// A cookie of a given name is the first piece that begins with the name, with
/// the blanks around it taken off.
pub proof fn named_cookies_are_found(cookie: Seq<char>, prefix: Seq<char>, i: int)
    requires
        0 <= i < text::split(cookie, ";"@).len(),
        text::has_prefix(text::trim(text::split(cookie, ";"@)[i]), prefix),
        forall|j: int|
            0 <= j < i ==> !text::has_prefix(
                text::trim(#[trigger] text::split(cookie, ";"@)[j]),
                prefix,
            ),
    ensures
        cookies::after_prefix(cookie, prefix) matches Some(v) && text::trim(
            text::split(cookie, ";"@)[i],
        ) == prefix + v,
{
    let pieces = text::split(cookie, ";"@);
    lemma_after_prefix(pieces, prefix, i, 0);
    let t = text::trim(pieces[i]);
    assert(prefix + t.skip(prefix.len() as int) =~= t) by {
        assert(t.take(prefix.len() as int) + t.skip(prefix.len() as int) =~= t);
    }
}

proof fn lemma_after_prefix(pieces: Seq<Seq<char>>, prefix: Seq<char>, i: int, from: int)
    requires
        0 <= from <= i < pieces.len(),
        text::has_prefix(text::trim(pieces[i]), prefix),
        forall|j: int|
            from <= j < i ==> !text::has_prefix(text::trim(#[trigger] pieces[j]), prefix),
    ensures
        cookies::after_prefix_from(pieces, prefix, from) == Some(
            text::trim(pieces[i]).skip(prefix.len() as int),
        ),
    decreases i - from,
{
    if from < i {
        assert(!text::has_prefix(text::trim(pieces[from]), prefix));
        lemma_after_prefix(pieces, prefix, i, from + 1);
    }
}

/// A question names the page it comes from and the application; where the
/// cookie holds a token against forgery, it carries the token too, and else
/// none.
pub proof fn questions_carry_their_token(
    cookie: Option<Seq<char>>,
    referer: Seq<char>,
    app_id: Seq<char>,
)
    ensures
        ({
            let h = ig_run::ig_headers(cookie, referer, app_id);
            let token = match cookie {
                Some(c) => cookies::after_prefix(c, "csrftoken="@),
                None => None,
            };
            &&& h.dom().contains("Referer"@) && h["Referer"@] == referer
            &&& h.dom().contains("X-IG-App-ID"@) && h["X-IG-App-ID"@] == app_id
            &&& h.dom().contains("X-CSRFToken"@) == (token is Some)
            &&& token is Some ==> h["X-CSRFToken"@] == token->0
        }),
{
    reveal_strlit("User-Agent");
    reveal_strlit("X-IG-App-ID");
    reveal_strlit("Referer");
    reveal_strlit("X-Requested-With");
    reveal_strlit("X-ASBD-ID");
    reveal_strlit("X-IG-WWW-Claim");
    reveal_strlit("X-CSRFToken");
    assert("User-Agent"@.len() == 10 && "X-IG-App-ID"@.len() == 11 && "Referer"@.len() == 7
        && "X-Requested-With"@.len() == 16 && "X-ASBD-ID"@.len() == 9 && "X-IG-WWW-Claim"@.len()
        == 14 && "X-CSRFToken"@.len() == 11);
    assert("X-IG-App-ID"@[2] == 'I' && "X-CSRFToken"@[2] == 'C');
}

// ---------------------------------------------------------------------------
// Thumbnails
// ---------------------------------------------------------------------------

/// The picture of an account is shown as a square; where there is none, the
/// account's latest posts are asked for.
pub proof fn account_pictures_come_first(plan: IgPlanView, user: Seq<char>, j: JsonView)
    requires
        plan.target == TargetView::Profile(user),
    ensures
        plan.thumb_start() matches ThumbNext::Ask(ThumbStage::Account, q) && text::has_suffix(
            q.url,
            "?username="@ + user,
        ),
        ig_run::picture_in(j) is Some ==> plan.thumb_after(ThumbStage::Account, Some(j))
            == ThumbNext::Found(Some((ig_run::picture_in(j)->0, true))),
        ig_run::picture_in(j) is None ==> (plan.thumb_after(ThumbStage::Account, Some(j)) matches
            ThumbNext::Ask(ThumbStage::Images, q) && exists|doc: Seq<char>, v: JsonView| #[trigger]
            asks_query(q.url, doc, v) && v.text_at("username"@) == Some(user)),
{
    reveal_strlit("https://www.instagram.com/api/v1/users/web_profile_info/?username=");
    reveal_strlit("?username=");
    let b = ig_run::profile_url(user);
    assert(b.skip(b.len() - ("?username="@ + user).len()) =~= "?username="@ + user);
    lemma_timeline_members(user, "3"@, false, None);
    if ig_run::picture_in(j) is None {
        let v = ig_run::timeline_variables(user, "3"@, false, None);
        let doc = ig_run::timeline_doc(plan.doc_timeline);
        assert(plan.thumb_after(ThumbStage::Account, Some(j)) matches ThumbNext::Ask(_, q)
            && asks_query(q.url, doc, v));
    }
}

/// An image that an answer holds is the thumbnail; it is a square for accounts
/// and highlights only. Without an answer there is none.
pub proof fn images_become_thumbnails(plan: IgPlanView, j: JsonView)
    ensures
        instagram::small_image(j) is Some ==> plan.thumb_after(ThumbStage::Images, Some(j))
            == ThumbNext::Found(
            Some(
                (
                    instagram::small_image(j)->0,
                    plan.target is Profile || plan.target is Highlight,
                ),
            ),
        ),
        instagram::small_image(j) is None ==> plan.thumb_after(ThumbStage::Images, Some(j))
            == ThumbNext::Found(None),
        plan.thumb_after(ThumbStage::Images, None) == ThumbNext::Found(None),
        plan.cookie is None && (plan.target is Stories || plan.target is Highlight)
            ==> plan.thumb_start() == ThumbNext::Found(None),
{
}

// ---------------------------------------------------------------------------
// Names
// ---------------------------------------------------------------------------

/// An item is named after the time at which it was taken and its identifier,
/// or else its code; items of which neither is known are numbered from one, so
/// that no two of them have one name.
pub proof fn items_are_named_apart(m: MediaView, i: nat, k: nat)
    ensures
        m.timestamp is Some && m.id.len() > 0 ==> instagram::name_stem(m, i) == number::dec_int(
            m.timestamp->0,
        ) + "_"@ + m.id,
        m.timestamp is None && m.id.len() > 0 ==> instagram::name_stem(m, i) == m.id,
        m.timestamp is None && m.id.len() == 0 && m.shortcode is Some ==> instagram::name_stem(m, i)
            == m.shortcode->0,
        m.timestamp is None && m.id.len() == 0 && m.shortcode is None && i != k
            ==> instagram::name_stem(m, i) != instagram::name_stem(m, k),
{
    if m.timestamp is Some && m.id.len() > 0 {
        let parts = seq![number::dec_int(m.timestamp->0)].push(m.id);
        assert(instagram::name_parts(m) =~= parts);
        assert(parts.drop_last() =~= seq![number::dec_int(m.timestamp->0)]);
        assert(text::join(parts.drop_last(), "_"@) == number::dec_int(m.timestamp->0));
        assert(parts.last() == m.id);
    }
    if m.timestamp is None && m.id.len() == 0 && m.shortcode is None && i != k {
        let a = instagram::name_stem(m, i);
        let b = instagram::name_stem(m, k);
        if a == b {
            let n = "ig_media_"@.len() as int;
            assert(a.skip(n) =~= number::dec(i + 1));
            assert(b.skip(n) =~= number::dec(k + 1));
            number::decimal_is_injective(i + 1, k + 1);
        }
    }
}

// ---------------------------------------------------------------------------
// Answers
// ---------------------------------------------------------------------------

/// What a download is of: posts, reels, stories, highlights and accounts are
/// told apart, and stories and accounts name whose they are.
pub proof fn targets_are_described(code: Seq<char>, user: Seq<char>)
    ensures
        ig_run::class_of(TargetView::Shortcode(code, false)) == "post"@,
        ig_run::class_of(TargetView::Shortcode(code, true)) == "reel"@,
        ig_run::class_of(TargetView::Stories(user)) == "story"@,
        ig_run::class_of(TargetView::Highlight(code)) == "highlight"@,
        ig_run::class_of(TargetView::Profile(user)) == "profile"@,
        ig_run::account_of(TargetView::Stories(user)) == Some("@"@ + user),
        ig_run::account_of(TargetView::Profile(user)) == Some("@"@ + user),
        ig_run::account_of(TargetView::Shortcode(code, true)) is None,
        ig_run::account_of(TargetView::Highlight(code)) is None,
{
}

/// An answer is good where it is an object that reports no errors and no
/// failure; everything else is an error that says what went wrong.
pub proof fn bad_answers_are_errors(j: JsonView, e: Seq<char>)
    ensures
        ig_run::answer_error(false, Ok(j)) is Some,
        ig_run::answer_error(true, Err(e)) matches Some(t) && text::has_suffix(t, e),
        j.get("errors"@) is Some ==> ig_run::answer_error(true, Ok(j)) is Some,
        j.text_at("status"@) == Some("fail"@) ==> ig_run::answer_error(true, Ok(j)) is Some,
        j.get("errors"@) is None && j.text_at("status"@) != Some("fail"@) ==> ig_run::answer_error(
            true,
            Ok(j),
        ) is None,
        j.get("errors"@) is Some && j.text_at("message"@) is Some ==> (ig_run::answer_error(
            true,
            Ok(j),
        ) matches Some(t) && text::has_suffix(t, j.text_at("message"@)->0)),
{
    let t = "Instagram response was not valid JSON: "@ + e;
    assert(t.skip(t.len() - e.len()) =~= e);
    if j.text_at("message"@) is Some {
        let m = j.text_at("message"@)->0;
        let u = "Instagram API error: "@ + m;
        assert(u.skip(u.len() - m.len()) =~= m);
    }
}

proof fn lemma_ext(path: Seq<char>, i: int, from: int)
    requires
        0 <= from <= i < instagram::known_exts().len(),
        text::has_suffix(path, "."@ + instagram::known_exts()[i]),
        forall|k: int|
            from <= k < i ==> !text::has_suffix(path, "."@ + #[trigger] instagram::known_exts()[k]),
    ensures
        instagram::known_ext_from(path, from) == Some(instagram::known_exts()[i]),
    decreases i - from,
{
    if from < i {
        assert(!text::has_suffix(path, "."@ + instagram::known_exts()[from]));
        lemma_ext(path, i, from + 1);
    }
}

proof fn lemma_no_ext(path: Seq<char>, from: int)
    requires
        0 <= from,
        forall|k: int|
            0 <= k < instagram::known_exts().len() ==> !text::has_suffix(
                path,
                "."@ + #[trigger] instagram::known_exts()[k],
            ),
    ensures
        instagram::known_ext_from(path, from) is None,
    decreases instagram::known_exts().len() - from,
{
    if from < instagram::known_exts().len() {
        lemma_no_ext(path, from + 1);
    }
}

/// Where the address of an item does not say what it is, a video is an MP4 and
/// a picture a JPEG.
pub proof fn unknown_items_go_by_their_kind(path: Seq<char>)
    requires
        forall|k: int|
            0 <= k < instagram::known_exts().len() ==> !text::has_suffix(
                path,
                "."@ + #[trigger] instagram::known_exts()[k],
            ),
    ensures
        instagram::ext_of_path(path, true) == "mp4"@,
        instagram::ext_of_path(path, false) == "jpg"@,
{
    lemma_no_ext(path, 0);
}

/// Where the address says what an item is, that counts, whatever it was taken
/// for.
pub proof fn addresses_say_what_items_are(path: Seq<char>, i: int)
    requires
        0 <= i < instagram::known_exts().len(),
        text::has_suffix(path, "."@ + instagram::known_exts()[i]),
        forall|k: int|
            0 <= k < i ==> !text::has_suffix(path, "."@ + #[trigger] instagram::known_exts()[k]),
        instagram::known_exts()[i] != "jpeg"@,
    ensures
        instagram::ext_of_path(path, true) == instagram::known_exts()[i],
        instagram::ext_of_path(path, false) == instagram::known_exts()[i],
{
    lemma_ext(path, i, 0);
}

/// Each item is fetched from its own address into the folder of the download,
/// under its own name.
pub proof fn items_are_fetched_from_their_address(
    items: Seq<crate::instagram::MediaItem>,
    dir: Seq<char>,
    i: int,
)
    requires
        0 <= i < items.len(),
    ensures
        ig_run::download_of(items, dir, i).0 == items[i].url@,
        exists|name: Seq<char>| #[trigger]
            crate::paths::join(dir, name) == ig_run::download_of(items, dir, i).1 && text::has_prefix(
                name,
                crate::naming::sanitized(instagram::name_stem(items[i]@, i as nat)),
            ),
{
    let m = items[i]@;
    let ext = instagram::ext_of_path(
        instagram::lower_path(crate::urls::parsed_url(m.url)),
        m.is_video,
    );
    let name = instagram::item_name(m, i as nat, ext);
    let stem = crate::naming::sanitized(instagram::name_stem(m, i as nat));
    assert(name.take(stem.len() as int) =~= stem);
    assert(crate::paths::join(dir, name) == ig_run::download_of(items, dir, i).1);
}

/// A post and a highlight need one answer; stories need a second one after
/// their account was looked up.
pub proof fn posts_need_one_answer(run: IgRunView, j: JsonView)
    ensures
        run.plan.target is Shortcode || run.plan.target is Highlight ==> run.after(j).1 == Ok::<
            IgNext,
            Seq<char>,
        >(IgNext::Collected),
        run.plan.target is Stories && !run.looking_up ==> run.after(j).1 == Ok::<IgNext, Seq<char>>(
            IgNext::Collected,
        ),
{
}

} // verus!

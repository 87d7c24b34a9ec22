//! Laws of what was seen: channels and videos, accounts and posts, and the
//! sessions that open them.
use vstd::prelude::*;

use crate::ig_library;
use crate::ig_library::{AccountView, CaughtView};
use crate::listing;
use crate::sessions;
use crate::text;
use crate::textmap;
use crate::yt_library;
use crate::yt_library::{ChannelView, ResolveView, VideoView};

verus! {

// ---------------------------------------------------------------------------
// Channels
// ---------------------------------------------------------------------------

proof fn lemma_find_video(s: Seq<VideoView>, url: Seq<char>, from: int)
    requires
        0 <= from <= s.len(),
    ensures
        from <= yt_library::video_at(s, url, from) <= s.len(),
        yt_library::video_at(s, url, from) < s.len() ==> s[yt_library::video_at(
            s,
            url,
            from,
        )].url == url,
        forall|j: int|
            from <= j < yt_library::video_at(s, url, from) ==> (#[trigger] s[j]).url != url,
    decreases s.len() - from,
{
    if from < s.len() && s[from].url != url {
        lemma_find_video(s, url, from + 1);
    }
}

proof fn lemma_find_holder(lib: Seq<(Seq<char>, ChannelView)>, url: Seq<char>, from: int)
    requires
        0 <= from <= lib.len(),
    ensures
        from <= yt_library::holder(lib, url, from) <= lib.len(),
        yt_library::holder(lib, url, from) < lib.len() ==> yt_library::has_video(
            lib[yt_library::holder(lib, url, from)].1.caught,
            url,
        ),
        forall|j: int|
            from <= j < yt_library::holder(lib, url, from) ==> !yt_library::has_video(
                (#[trigger] lib[j]).1.caught,
                url,
            ),
    decreases lib.len() - from,
{
    if from < lib.len() && !yt_library::has_video(lib[from].1.caught, url) {
        lemma_find_holder(lib, url, from + 1);
    }
}

/// Whether a library holds a video of that address.
pub open spec fn holds_video(lib: Seq<(Seq<char>, ChannelView)>, url: Seq<char>) -> bool {
    exists|k: int, i: int|
        0 <= k < lib.len() && 0 <= i < lib[k].1.caught.len() && (#[trigger] lib[k].1.caught[i]).url
            == url
}

proof fn lemma_held(lib: Seq<(Seq<char>, ChannelView)>, url: Seq<char>)
    ensures
        holds_video(lib, url) == (yt_library::holder(lib, url, 0) < lib.len()),
{
    let h = yt_library::holder(lib, url, 0);
    lemma_find_holder(lib, url, 0);
    if h < lib.len() {
        let s = lib[h].1.caught;
        lemma_find_video(s, url, 0);
        let i = yt_library::video_at(s, url, 0);
        assert(lib[h].1.caught[i].url == url);
    }
    if holds_video(lib, url) {
        let (k, i) = choose|k: int, i: int|
            0 <= k < lib.len() && 0 <= i < lib[k].1.caught.len() && (
            #[trigger] lib[k].1.caught[i]).url == url;
        lemma_find_video(lib[k].1.caught, url, 0);
        if h >= lib.len() {
            assert(!yt_library::has_video(lib[k].1.caught, url));
        }
    }
}

/// A video that is not held yet is put at the end of its channel, behind
/// everything that the channel holds; the channel was seen now, and one that is
/// new was first seen now.
pub proof fn new_videos_join_their_channel(
    lib: Seq<(Seq<char>, ChannelView)>,
    key: Seq<char>,
    site: Seq<char>,
    v: VideoView,
    now: i64,
)
    requires
        textmap::ordered(lib),
        !holds_video(lib, v.url),
    ensures
        textmap::get(yt_library::recorded(lib, key, site, v, now), key) matches Some(ch)
            && ch.last_seen == now && match textmap::get(lib, key) {
            Some(old) => ch.caught == old.caught.push(v) && ch.first_seen == old.first_seen && ch.name
                == old.name && ch.avatar_url == old.avatar_url,
            None => ch.caught == seq![v] && ch.first_seen == now && ch.site == site,
        },
{
    lemma_held(lib, v.url);
    let ch = yt_library::channel_or_new(lib, key, site, now);
    let put = ChannelView {
        last_seen: now,
        site: if ch.site.len() == 0 {
            site
        } else {
            ch.site
        },
        caught: ch.caught.push(v),
        ..ch
    };
    textmap::writes_are_read_back(lib, key, put, key.push('x'));
    assert(key.push('x').len() != key.len());
    assert(Seq::<VideoView>::empty().push(v) =~= seq![v]);
}

/// A video that is held already is not put anywhere: the channel that holds it
/// was seen now, and every channel holds what it held.
pub proof fn known_videos_stay(
    lib: Seq<(Seq<char>, ChannelView)>,
    key: Seq<char>,
    site: Seq<char>,
    v: VideoView,
    now: i64,
    k: int,
)
    requires
        holds_video(lib, v.url),
        0 <= k < lib.len(),
    ensures
        yt_library::recorded(lib, key, site, v, now).len() == lib.len(),
        yt_library::recorded(lib, key, site, v, now)[k].0 == lib[k].0,
        yt_library::recorded(lib, key, site, v, now)[k].1.caught == lib[k].1.caught,
        exists|h: int|
            0 <= h < lib.len() && (#[trigger] yt_library::recorded(
                lib,
                key,
                site,
                v,
                now,
            )[h]).1.last_seen == now,
{
    lemma_held(lib, v.url);
    lemma_find_holder(lib, v.url, 0);
    let h = yt_library::holder(lib, v.url, 0);
    assert(yt_library::recorded(lib, key, site, v, now)[h].1.last_seen == now);
}

/// A look-up fills in what it found of a video and leaves the rest; the address
/// and the time at which it was seen stay.
pub proof fn look_ups_fill_in(v: VideoView, r: ResolveView)
    ensures
        ({
            let m = yt_library::merged(v, r);
            &&& m.url == v.url && m.seen == v.seen && m.resolved
            &&& r.title.len() > 0 ==> m.title == r.title
            &&& r.title.len() == 0 ==> m.title == v.title
            &&& r.video_id.len() > 0 ==> m.id == r.video_id
            &&& r.video_id.len() == 0 ==> m.id == v.id
            &&& r.thumbnail is Some ==> m.thumbnail == r.thumbnail
            &&& r.thumbnail is None ==> m.thumbnail == v.thumbnail
            &&& r.duration is Some ==> m.duration == r.duration
            &&& r.duration is None ==> m.duration == v.duration
            &&& r.uploader is Some ==> m.uploader == r.uploader
            &&& r.uploader is None ==> m.uploader == v.uploader
            &&& r.upload_date is Some ==> m.upload_date == r.upload_date
            &&& r.upload_date is None ==> m.upload_date == v.upload_date
            &&& r.view_count is Some ==> m.view_count == r.view_count
            &&& r.view_count is None ==> m.view_count == v.view_count
        }),
{
}

proof fn lemma_rest_ordered(lib: Seq<(Seq<char>, ChannelView)>, url: Seq<char>)
    requires
        textmap::ordered(lib),
    ensures
        textmap::ordered(yt_library::tidied(yt_library::pulled(lib, url))),
{
    lemma_find_holder(lib, url, 0);
    let p = yt_library::pulled(lib, url);
    assert forall|i: int, j: int| 0 <= i < j < p.len() implies crate::sorting::before(
        (#[trigger] p[i]).0,
        (#[trigger] p[j]).0,
    ) by {
        assert(p[i].0 == lib[i].0);
        assert(p[j].0 == lib[j].0);
    }
    let u = ig_library::UNRESOLVED@;
    assert(u.push('x').len() != u.len());
    textmap::writes_are_read_back(p, u, yt_library::new_channel(u, u, 0), u.push('x'));
}

/// A video that was looked up is found in the channel that the look-up names,
/// and the channel carries what the look-up found of it: its name, its address
/// and its picture.
pub proof fn resolved_videos_arrive(
    lib: Seq<(Seq<char>, ChannelView)>,
    url: Seq<char>,
    r: ResolveView,
    now: i64,
)
    requires
        textmap::ordered(lib),
        holds_video(lib, url),
        r.channel_key.len() > 0,
    ensures
        textmap::get(yt_library::resolved(lib, url, r, now), r.channel_key) matches Some(ch)
            && ch.last_seen == now && (r.channel_name.len() > 0 ==> ch.name == r.channel_name) && (
        r.channel_url is Some ==> ch.channel_url == r.channel_url) && (r.avatar_url is Some
            ==> ch.avatar_url == r.avatar_url && ch.avatar_at == now) && exists|i: int|
            0 <= i < ch.caught.len() && ((#[trigger] ch.caught[i]).url == url || (
            ch.caught[i].id.len() > 0 && (ch.caught[i].id == r.video_id || r.video_id.len()
                == 0))),
{
    lemma_held(lib, url);
    lemma_find_holder(lib, url, 0);
    lemma_rest_ordered(lib, url);
    let h = yt_library::holder(lib, url, 0);
    let s = lib[h].1.caught;
    lemma_find_video(s, url, 0);
    let v = yt_library::merged(s[yt_library::video_at(s, url, 0)], r);
    let rest = yt_library::tidied(yt_library::pulled(lib, url));
    let key = r.channel_key;
    let site = match yt_library::site_in(r.channel_url) {
        Some(x) => x,
        None => Seq::empty(),
    };
    let before = yt_library::channel_or_new(rest, key, site, now);
    let ch = yt_library::with_resolved(before, v, r, now);
    textmap::writes_are_read_back(rest, key, ch, key.push('x'));
    assert(key.push('x').len() != key.len());
    assert(textmap::get(yt_library::resolved(lib, url, r, now), key) == Some(ch));
    if yt_library::has_like(before.caught, v) {
        let i = choose|i: int|
            0 <= i < before.caught.len() && ((#[trigger] before.caught[i]).url == v.url || (
            v.id.len() > 0 && before.caught[i].id == v.id));
        assert(ch.caught[i] == before.caught[i]);
    } else {
        assert(ch.caught[before.caught.len() as int] == v);
    }
}

// ---------------------------------------------------------------------------
// Accounts
// ---------------------------------------------------------------------------

/// What is seen of an account is filed under the account's name in small
/// letters, behind what was filed before, and what is seen of no account among
/// the unresolved; other accounts stay as they are.
pub proof fn seen_things_join_their_account(
    lib: Seq<(Seq<char>, AccountView)>,
    account: Seq<char>,
    c: CaughtView,
    now: i64,
    other: Seq<char>,
)
    requires
        textmap::ordered(lib),
        other != text::lower(account),
    ensures
        textmap::get(ig_library::recorded(lib, Some(account), c, now), text::lower(account)) matches
            Some(a) && a.last_seen == now && ig_library::has_thing(a.caught, c) && match textmap::get(
            lib,
            text::lower(account),
        ) {
            Some(old) => a.first_seen == old.first_seen && a.username == old.username
                && a.caught.len() >= old.caught.len() && a.caught.take(old.caught.len() as int)
                == old.caught,
            None => a.first_seen == now && a.username == account && a.caught == seq![c],
        },
        textmap::get(ig_library::recorded(lib, Some(account), c, now), other) == textmap::get(
            lib,
            other,
        ),
{
    let key = text::lower(account);
    let old = ig_library::account_or_new(lib, key, account, now);
    let new = AccountView {
        last_seen: now,
        caught: ig_library::with_thing(old.caught, c),
        ..old
    };
    textmap::writes_are_read_back(lib, key, new, other);
    ig_library::things_are_filed_once(old.caught, c);
    assert(new.caught.take(old.caught.len() as int) =~= old.caught);
    assert(Seq::<CaughtView>::empty().push(c) =~= seq![c]);
}

// ---------------------------------------------------------------------------
// Sessions
// ---------------------------------------------------------------------------

proof fn lemma_others_kept(s: Seq<Seq<char>>, session: Seq<char>, i: int)
    requires
        0 <= i < s.len(),
        sessions::session_in(s[i]) != Some(session),
    ensures
        sessions::of_others(s, session).contains(s[i]),
        sessions::of_others(s, session).len() <= s.len(),
    decreases s.len(),
{
    lemma_others_shorter(s, session);
    let front = s.drop_last();
    if i < front.len() {
        lemma_others_kept(front, session, i);
        let f = sessions::of_others(front, session);
        let j = choose|j: int| 0 <= j < f.len() && f[j] == s[i];
        assert(sessions::of_others(s, session)[j] == s[i]);
    } else {
        let f = sessions::of_others(front, session);
        assert(sessions::of_others(s, session)[f.len() as int] == s[i]);
    }
}

proof fn lemma_others_shorter(s: Seq<Seq<char>>, session: Seq<char>)
    ensures
        sessions::of_others(s, session).len() <= s.len(),
    decreases s.len(),
{
    if s.len() > 0 {
        lemma_others_shorter(s.drop_last(), session);
    }
}

/// A new cookie takes the place of the one of the same session only: as long as
/// there is room, the cookies of other sessions stay.
pub proof fn other_sessions_stay(pool: Seq<Seq<char>>, cookie: Seq<char>, i: int)
    requires
        0 <= i < pool.len() < 6,
        sessions::session_in(text::trim(cookie)) is Some,
        sessions::session_in(pool[i]) != sessions::session_in(text::trim(cookie)),
    ensures
        sessions::remembered(pool, cookie).contains(pool[i]),
{
    let c = text::trim(cookie);
    let session = sessions::session_in(c)->0;
    if !sessions::is_first(pool, c) {
        lemma_others_kept(pool, session, i);
        let f = sessions::of_others(pool, session);
        let j = choose|j: int| 0 <= j < f.len() && f[j] == pool[i];
        assert((seq![c] + f)[j + 1] == pool[i]);
    } else {
        assert(pool.contains(pool[i]));
    }
}

proof fn lemma_but_kept(s: Seq<Seq<char>>, cookie: Seq<char>, i: int)
    requires
        0 <= i < s.len(),
        s[i] != cookie,
    ensures
        sessions::all_but(s, cookie).contains(s[i]),
    decreases s.len(),
{
    let front = s.drop_last();
    let f = sessions::all_but(front, cookie);
    if i < front.len() {
        lemma_but_kept(front, cookie, i);
        let j = choose|j: int| 0 <= j < f.len() && f[j] == s[i];
        assert(sessions::all_but(s, cookie)[j] == s[i]);
    } else {
        assert(sessions::all_but(s, cookie)[f.len() as int] == s[i]);
    }
}

/// A cookie that worked goes to the front, and no other is lost.
pub proof fn promoting_loses_nothing(pool: Seq<Seq<char>>, cookie: Seq<char>, i: int)
    requires
        0 <= i < pool.len(),
    ensures
        sessions::promoted(pool, cookie)[0] == cookie,
        sessions::promoted(pool, cookie).contains(pool[i]),
{
    let r = sessions::promoted(pool, cookie);
    if sessions::is_first(pool, cookie) {
        assert(r.contains(pool[i]));
    } else if pool[i] == cookie {
        assert(r[0] == pool[i]);
    } else {
        lemma_but_kept(pool, cookie, i);
        let f = sessions::all_but(pool, cookie);
        let j = choose|j: int| 0 <= j < f.len() && f[j] == pool[i];
        assert(r[j + 1] == pool[i]);
    }
}

proof fn lemma_new_kept(s: Seq<Seq<char>>, c: Seq<char>)
    ensures
        text::trim(c).len() > 0 ==> sessions::with_new(s, c).contains(text::trim(c)),
        forall|x: Seq<char>| s.contains(x) ==> #[trigger] sessions::with_new(s, c).contains(x),
{
    let r = sessions::with_new(s, c);
    let t = text::trim(c);
    if t.len() > 0 && !s.contains(t) {
        assert(r[s.len() as int] == t);
    }
    assert forall|x: Seq<char>| s.contains(x) implies #[trigger] r.contains(x) by {
        let j = choose|j: int| 0 <= j < s.len() && s[j] == x;
        assert(r[j] == x);
    }
}

proof fn lemma_all_new_kept(s: Seq<Seq<char>>, more: Seq<Seq<char>>, i: int)
    requires
        0 <= i < more.len(),
        text::trim(more[i]).len() > 0,
    ensures
        sessions::with_all_new(s, more).contains(text::trim(more[i])),
    decreases more.len(),
{
    let front = sessions::with_all_new(s, more.drop_last());
    lemma_new_kept(front, more.last());
    if i < more.len() - 1 {
        lemma_all_new_kept(s, more.drop_last(), i);
    }
}

/// Every cookie of the pool that is not blank is tried, and so is the one that
/// is configured.
pub proof fn every_cookie_is_tried(
    own: Option<Seq<char>>,
    pool: Seq<Seq<char>>,
    fallback: Seq<char>,
    i: int,
)
    requires
        0 <= i < pool.len(),
        text::trim(pool[i]).len() > 0,
    ensures
        sessions::candidates_of(own, pool, None).contains(text::trim(pool[i])),
        sessions::candidates_of(own, pool, Some(fallback)).contains(text::trim(pool[i])),
        text::trim(fallback).len() > 0 ==> sessions::candidates_of(own, pool, Some(fallback)).contains(
            text::trim(fallback),
        ),
{
    let first = match own {
        Some(c) => sessions::with_new(Seq::empty(), c),
        None => Seq::empty(),
    };
    let all = sessions::with_all_new(first, pool);
    lemma_all_new_kept(first, pool, i);
    lemma_new_kept(all, fallback);
}

// ---------------------------------------------------------------------------
// Looking up
// ---------------------------------------------------------------------------

proof fn lemma_flagged(s: Seq<ig_library::IgCaught>, hit: Seq<bool>, i: int)
    requires
        0 <= i < s.len(),
        hit.len() >= s.len(),
        hit[i],
    ensures
        ig_library::flagged(s, hit).contains(s[i]),
    decreases s.len(),
{
    let all = ig_library::flagged(s, hit);
    let front = ig_library::flagged(s.drop_last(), hit);
    if i == s.len() - 1 {
        assert(all[front.len() as int] == s[i]);
    } else {
        lemma_flagged(s.drop_last(), hit, i);
        let k = choose|k: int| 0 <= k < front.len() && front[k] == s[i];
        assert(all[k] == s[i]);
    }
}

/// What is to be kept is kept: pruning takes out nothing but what was marked.
pub proof fn pruning_keeps_what_is_marked(
    s: Seq<ig_library::IgCaught>,
    hit: Seq<bool>,
    i: int,
    k: int,
)
    requires
        hit.len() == s.len(),
        0 <= i < s.len(),
        0 <= k < ig_library::flagged(s, hit).len(),
    ensures
        hit[i] ==> ig_library::flagged(s, hit).contains(s[i]),
        exists|j: int|
            0 <= j < s.len() && hit[j] && ig_library::flagged(s, hit)[k] == #[trigger] s[j],
{
    if hit[i] {
        lemma_flagged(s, hit, i);
    }
    lemma_only_flagged(s, hit, k);
}

proof fn lemma_only_flagged(s: Seq<ig_library::IgCaught>, hit: Seq<bool>, k: int)
    requires
        hit.len() >= s.len(),
        0 <= k < ig_library::flagged(s, hit).len(),
    ensures
        exists|j: int|
            0 <= j < s.len() && hit[j] && ig_library::flagged(s, hit)[k] == #[trigger] s[j],
    decreases s.len(),
{
    let front = ig_library::flagged(s.drop_last(), hit);
    if k < front.len() {
        lemma_only_flagged(s.drop_last(), hit, k);
        let j = choose|j: int|
            0 <= j < s.len() - 1 && hit[j] && front[k] == #[trigger] s.drop_last()[j];
        assert(s[j] == s.drop_last()[j]);
    } else {
        assert(s[s.len() - 1] == s.last());
    }
}

/// What is left without an account stays under its key, and the key goes with
/// the last of it; the accounts are not touched.
pub proof fn leftovers_are_replaced(
    lib: Seq<(Seq<char>, AccountView)>,
    left: Seq<CaughtView>,
    key: Seq<char>,
)
    requires
        textmap::ordered(lib),
        textmap::get(lib, ig_library::UNRESOLVED@) is Some,
        key != ig_library::UNRESOLVED@,
    ensures
        left.len() > 0 ==> ig_library::unresolved(ig_library::with_unresolved(lib, left)) == left,
        left.len() == 0 ==> textmap::get(
            ig_library::with_unresolved(lib, left),
            ig_library::UNRESOLVED@,
        ) is None,
        textmap::get(ig_library::with_unresolved(lib, left), key) == textmap::get(lib, key),
{
    let u = ig_library::UNRESOLVED@;
    let a = textmap::get(lib, u)->0;
    let new = AccountView { caught: left, ..a };
    textmap::writes_are_read_back(lib, u, new, key);
}

/// A video is looked up under the key of its channel, and what is known of it
/// is handed on under its own name.
pub proof fn descriptions_are_handed_on(m: listing::VideoMeta, url: Seq<char>)
    ensures
        m.channel_id matches Some(id) && id@.len() > 0 ==> listing::resolve_view(
            m,
            url,
        ).channel_key == m.channel_id->0@,
        listing::resolve_view(m, url).title == m.title@,
        listing::resolve_view(m, url).video_id == m.id@,
        listing::resolve_view(m, url).duration == m.duration,
        listing::resolve_view(m, url).view_count == m.view_count,
        m.channel matches Some(c) ==> listing::resolve_view(m, url).channel_name == c@,
        m.channel_url matches Some(c) ==> listing::resolve_view(m, url).channel_url == Some(c@),
        m.thumbnail matches Some(c) ==> listing::resolve_view(m, url).thumbnail == Some(c@),
        m.uploader matches Some(c) ==> listing::resolve_view(m, url).uploader == Some(c@),
        m.upload_date matches Some(c) ==> listing::resolve_view(m, url).upload_date == Some(c@),
{
}

} // verus!

//! The libraries of what was seen, as they are listed, and how videos that were seen
//! are looked up.

use vstd::prelude::*;

use crate::ig_library;
use crate::ig_library::{AccountView, CaughtView, IgAccount, IgLibrary, UNRESOLVED};
use crate::json::{Json, JsonView};
use crate::pages;
use crate::pages::slug;
use crate::sorting;
use crate::sorting::{dedup_strings, sort_strings};
use crate::text;
use crate::text::{chars_of, copy_opt, push_text, str_eq};
use crate::textmap;
use crate::textmap::TextMap;
use crate::yt_library;
use crate::yt_library::{ChannelView, ResolveView, YtCaught, YtChannel, YtLibrary, YtResolve};

verus! {

// ---------------------------------------------------------------------------
// The latest first
// ---------------------------------------------------------------------------

/// The position, from `i` on, of the first that is earlier than a time; the length of
/// the list where there is none.
pub open spec fn place_from(times: Seq<i64>, t: i64, i: int) -> int
    decreases times.len() - i,
{
    if i < 0 || i >= times.len() || times[i] < t {
        i
    } else {
        place_from(times, t, i + 1)
    }
}

/// The times of a list of pairs.
pub open spec fn times_of<T>(s: Seq<(i64, T)>) -> Seq<i64> {
    s.map_values(|p: (i64, T)| p.0)
}

/// The latest first, those of the same time in their order.
pub open spec fn latest_first<T>(s: Seq<(i64, T)>) -> Seq<(i64, T)>
    decreases s.len(),
{
    if s.len() == 0 {
        s
    } else {
        let rest = latest_first(s.drop_last());
        rest.insert(place_from(times_of(rest), s.last().0, 0), s.last())
    }
}

proof fn lemma_place(times: Seq<i64>, t: i64, i: int)
    requires
        0 <= i <= times.len(),
    ensures
        i <= place_from(times, t, i) <= times.len(),
        place_from(times, t, i) < times.len() ==> times[place_from(times, t, i)] < t,
        forall|j: int| i <= j < place_from(times, t, i) ==> #[trigger] times[j] >= t,
    decreases times.len() - i,
{
    if i < times.len() && times[i] >= t {
        lemma_place(times, t, i + 1);
    }
}

/// Listing the latest first loses nothing, and nothing stands before something later.
pub proof fn the_latest_come_first<T>(s: Seq<(i64, T)>)
    ensures
        latest_first(s).len() == s.len(),
        latest_first(s).to_multiset() == s.to_multiset(),
        forall|i: int, j: int|
            0 <= i < j < latest_first(s).len() ==> (#[trigger] latest_first(s)[i]).0 >= (
            #[trigger] latest_first(s)[j]).0,
    decreases s.len(),
{
    broadcast use vstd::seq_lib::group_to_multiset_ensures;

    if s.len() > 0 {
        let d = s.drop_last();
        the_latest_come_first(d);
        let rest = latest_first(d);
        let p = place_from(times_of(rest), s.last().0, 0);
        lemma_place(times_of(rest), s.last().0, 0);
        let all = rest.insert(p, s.last());
        assert(s =~= d.push(s.last()));
        assert(d.push(s.last()).to_multiset() =~= d.to_multiset().insert(s.last()));
        assert(all =~= rest.take(p).push(s.last()) + rest.skip(p));
        assert(rest =~= rest.take(p) + rest.skip(p));
        vstd::seq_lib::lemma_multiset_commutative(rest.take(p).push(s.last()), rest.skip(p));
        vstd::seq_lib::lemma_multiset_commutative(rest.take(p), rest.skip(p));
        assert(rest.take(p).push(s.last()).to_multiset() =~= rest.take(p).to_multiset().insert(
            s.last(),
        ));
        assert(all.to_multiset() =~= s.to_multiset());
        assert forall|i: int, j: int| 0 <= i < j < all.len() implies (#[trigger] all[i]).0 >= (
        #[trigger] all[j]).0 by {
            let a = if i < p {
                i
            } else {
                i - 1
            };
            let b = if j < p {
                j
            } else {
                j - 1
            };
            if i == p {
                assert(times_of(rest)[p] < s.last().0);
                assert(all[j] == rest[j - 1]);
                if j - 1 > p {
                    assert(rest[p].0 >= rest[j - 1].0);
                }
            } else if j == p {
                assert(times_of(rest)[i] >= s.last().0);
                assert(all[i] == rest[i]);
            } else {
                assert(all[i] == rest[a] && all[j] == rest[b]);
                assert(rest[a].0 >= rest[b].0);
            }
        }
    }
}

// ---------------------------------------------------------------------------
// Instagram accounts
// ---------------------------------------------------------------------------

/// An account as it is listed.
#[derive(Debug)]
pub struct ProfileRow {
    pub username: String,
    /// How much was seen of it, visits of the profile aside.
    pub caught_count: usize,
    /// The kinds of what was seen, each once.
    pub kinds: Vec<String>,
    pub last_seen: i64,
    pub avatar: Option<String>,
}

/// The model of [`ProfileRow`].
#[verifier::ext_equal]
pub struct ProfileView {
    pub username: Seq<char>,
    pub caught_count: nat,
    pub kinds: Seq<Seq<char>>,
    pub last_seen: i64,
    pub avatar: Option<Seq<char>>,
}

impl View for ProfileRow {
    type V = ProfileView;

    open spec fn view(&self) -> ProfileView {
        ProfileView {
            username: self.username@,
            caught_count: self.caught_count as nat,
            kinds: text::texts(self.kinds@),
            last_seen: self.last_seen,
            avatar: text::opt(self.avatar),
        }
    }
}

/// The rows with their times.
pub open spec fn profile_views(v: Seq<ProfileRow>) -> Seq<(i64, ProfileView)> {
    v.map_values(|r: ProfileRow| (r.last_seen, r@))
}

/// The kinds of what was seen.
pub open spec fn kinds_of(s: Seq<CaughtView>) -> Seq<Seq<char>> {
    s.map_values(|c: CaughtView| c.kind)
}

/// How much was seen, visits of the profile aside.
pub open spec fn content_count(s: Seq<CaughtView>) -> nat
    decreases s.len(),
{
    if s.len() == 0 {
        0
    } else {
        content_count(s.drop_last()) + if s.last().kind == "profile"@ {
            0nat
        } else {
            1
        }
    }
}

/// An account as it is listed.
pub open spec fn profile_of(a: AccountView) -> ProfileView {
    ProfileView {
        username: a.username,
        caught_count: content_count(a.caught),
        kinds: sorting::deduped(sorting::sorted(kinds_of(a.caught))),
        last_seen: a.last_seen,
        avatar: a.avatar_url,
    }
}

/// The accounts, without what is filed under nobody known, in the order of their keys.
pub open spec fn profiles_in(lib: Seq<(Seq<char>, AccountView)>) -> Seq<(i64, ProfileView)>
    decreases lib.len(),
{
    if lib.len() == 0 {
        Seq::empty()
    } else {
        let rest = profiles_in(lib.drop_last());
        if lib.last().0 == UNRESOLVED@ {
            rest
        } else {
            rest.push((lib.last().1.last_seen, profile_of(lib.last().1)))
        }
    }
}

fn read_profile(a: &IgAccount) -> (r: ProfileRow)
    ensures
        r@ == profile_of(a@),
{
    let ghost all = ig_library::caught_views(a.caught@);
    let mut kinds: Vec<String> = Vec::new();
    let mut count: usize = 0;
    let mut i: usize = 0;
    assert(all.take(0) =~= Seq::empty());
    assert(text::texts(kinds@) =~= kinds_of(all.take(0)));
    while i < a.caught.len()
        invariant
            i <= a.caught.len(),
            all == ig_library::caught_views(a.caught@),
            count == content_count(all.take(i as int)),
            count <= i,
            text::texts(kinds@) == kinds_of(all.take(i as int)),
        decreases a.caught.len() - i,
    {
        let ghost before = text::texts(kinds@);
        proof {
            let next = all.take(i + 1);
            assert(next.drop_last() =~= all.take(i as int));
            assert(next.last() == a.caught@[i as int]@);
            assert(kinds_of(next) =~= kinds_of(all.take(i as int)).push(a.caught@[i as int].kind@));
        }
        if !str_eq(a.caught[i].kind.as_str(), "profile") {
            count += 1;
        }
        push_text(&mut kinds, a.caught[i].kind.as_str());
        i += 1;
    }
    assert(all.take(all.len() as int) =~= all);
    let kinds = dedup_strings(&sort_strings(&kinds));
    ProfileRow {
        username: a.username.clone(),
        caught_count: count,
        kinds,
        last_seen: a.last_seen,
        avatar: copy_opt(&a.avatar_url),
    }
}

fn place_profile(rows: &mut Vec<ProfileRow>, row: ProfileRow)
    ensures
        ({
            let before = profile_views(old(rows)@);
            profile_views(final(rows)@) == before.insert(
                place_from(times_of(before), row.last_seen, 0),
                (row.last_seen, row@),
            )
        }),
{
    let ghost before = profile_views(rows@);
    let ghost times = times_of(before);
    let mut p: usize = 0;
    while p < rows.len() && rows[p].last_seen >= row.last_seen
        invariant
            p <= rows.len(),
            before == profile_views(rows@),
            times == times_of(before),
            place_from(times, row.last_seen, 0) == place_from(times, row.last_seen, p as int),
        decreases rows.len() - p,
    {
        assert(times[p as int] == rows@[p as int].last_seen);
        p += 1;
    }
    proof {
        if p < rows.len() {
            assert(times[p as int] == rows@[p as int].last_seen);
        }
    }
    let ghost shown = (row.last_seen, row@);
    rows.insert(p, row);
    assert(profile_views(rows@) =~= before.insert(p as int, shown));
}

/// How many are filed under nobody known.
pub open spec fn unresolved_count(lib: Seq<(Seq<char>, AccountView)>) -> nat {
    ig_library::unresolved(lib).len()
}

/// Lists the accounts, those seen last first, and how many things belong to nobody
/// known.
pub fn ig_profiles(lib: &IgLibrary) -> (r: (Vec<ProfileRow>, usize))
    ensures
        profile_views(r.0@) == latest_first(profiles_in(lib@)),
        r.1 == unresolved_count(lib@),
{
    let ghost all = lib@;
    let ghost raw = lib.accounts.list();
    let n: usize = lib.accounts.len();
    let mut rows: Vec<ProfileRow> = Vec::new();
    let mut i: usize = 0;
    assert(all.take(0) =~= Seq::empty());
    assert(profile_views(rows@) =~= latest_first(profiles_in(all.take(0))));
    while i < n
        invariant
            i <= n,
            n == raw.len(),
            raw == lib.accounts.list(),
            all == textmap::shown(raw),
            profile_views(rows@) == latest_first(profiles_in(all.take(i as int))),
        decreases n - i,
    {
        proof {
            let next = all.take(i + 1);
            assert(next.drop_last() =~= all.take(i as int));
            assert(next.last() == (raw[i as int].0, raw[i as int].1@));
            let so_far = profiles_in(all.take(i as int));
            let row = (raw[i as int].1@.last_seen, profile_of(raw[i as int].1@));
            assert(so_far.push(row).drop_last() =~= so_far);
            assert(so_far.push(row).last() == row);
        }
        if !str_eq(lib.accounts.key_at(i).as_str(), UNRESOLVED) {
            let row = read_profile(lib.accounts.value_at(i));
            place_profile(&mut rows, row);
        }
        i += 1;
    }
    assert(all.take(n as int) =~= all);
    let unresolved = match lib.accounts.get(UNRESOLVED) {
        Some(a) => {
            proof {
                textmap::lemma_shown(raw, UNRESOLVED@, *a);
            }
            a.caught.len()
        },
        None => {
            proof {
                let any: IgAccount = arbitrary();
                textmap::lemma_shown(raw, UNRESOLVED@, any);
            }
            0
        },
    };
    (rows, unresolved)
}

// ---------------------------------------------------------------------------
// Channels
// ---------------------------------------------------------------------------

/// A channel as it is listed.
#[derive(Debug)]
pub struct ChannelRow {
    pub key: String,
    /// The key where the name is not known.
    pub name: String,
    pub site: String,
    pub avatar: Option<String>,
    pub channel_url: Option<String>,
    pub caught_count: usize,
    pub last_seen: i64,
}

/// The model of [`ChannelRow`].
#[verifier::ext_equal]
pub struct ChannelRowView {
    pub key: Seq<char>,
    pub name: Seq<char>,
    pub site: Seq<char>,
    pub avatar: Option<Seq<char>>,
    pub channel_url: Option<Seq<char>>,
    pub caught_count: nat,
    pub last_seen: i64,
}

impl View for ChannelRow {
    type V = ChannelRowView;

    open spec fn view(&self) -> ChannelRowView {
        ChannelRowView {
            key: self.key@,
            name: self.name@,
            site: self.site@,
            avatar: text::opt(self.avatar),
            channel_url: text::opt(self.channel_url),
            caught_count: self.caught_count as nat,
            last_seen: self.last_seen,
        }
    }
}

/// The rows with their times.
pub open spec fn channel_views(v: Seq<ChannelRow>) -> Seq<(i64, ChannelRowView)> {
    v.map_values(|r: ChannelRow| (r.last_seen, r@))
}

/// A channel as it is listed.
pub open spec fn channel_row(c: ChannelView) -> ChannelRowView {
    ChannelRowView {
        key: c.key,
        name: if c.name.len() == 0 {
            c.key
        } else {
            c.name
        },
        site: c.site,
        avatar: c.avatar_url,
        channel_url: c.channel_url,
        caught_count: c.caught.len(),
        last_seen: c.last_seen,
    }
}

/// The channels, without what is filed under nobody known, in the order of their keys.
pub open spec fn channels_in(lib: Seq<(Seq<char>, ChannelView)>) -> Seq<(i64, ChannelRowView)>
    decreases lib.len(),
{
    if lib.len() == 0 {
        Seq::empty()
    } else {
        let rest = channels_in(lib.drop_last());
        if lib.last().0 == UNRESOLVED@ {
            rest
        } else {
            rest.push((lib.last().1.last_seen, channel_row(lib.last().1)))
        }
    }
}

fn read_channel(c: &YtChannel) -> (r: ChannelRow)
    ensures
        r@ == channel_row(c@),
{
    let name = if chars_of(c.name.as_str()).len() == 0 {
        c.key.clone()
    } else {
        c.name.clone()
    };
    ChannelRow {
        key: c.key.clone(),
        name,
        site: c.site.clone(),
        avatar: copy_opt(&c.avatar_url),
        channel_url: copy_opt(&c.channel_url),
        caught_count: c.caught.len(),
        last_seen: c.last_seen,
    }
}

fn place_channel(rows: &mut Vec<ChannelRow>, row: ChannelRow)
    ensures
        ({
            let before = channel_views(old(rows)@);
            channel_views(final(rows)@) == before.insert(
                place_from(times_of(before), row.last_seen, 0),
                (row.last_seen, row@),
            )
        }),
{
    let ghost before = channel_views(rows@);
    let ghost times = times_of(before);
    let mut p: usize = 0;
    while p < rows.len() && rows[p].last_seen >= row.last_seen
        invariant
            p <= rows.len(),
            before == channel_views(rows@),
            times == times_of(before),
            place_from(times, row.last_seen, 0) == place_from(times, row.last_seen, p as int),
        decreases rows.len() - p,
    {
        assert(times[p as int] == rows@[p as int].last_seen);
        p += 1;
    }
    proof {
        if p < rows.len() {
            assert(times[p as int] == rows@[p as int].last_seen);
        }
    }
    let ghost shown = (row.last_seen, row@);
    rows.insert(p, row);
    assert(channel_views(rows@) =~= before.insert(p as int, shown));
}

/// Lists the channels, those seen last first, and how many videos are still to be looked
/// up.
pub fn yt_channels(lib: &YtLibrary) -> (r: (Vec<ChannelRow>, usize))
    ensures
        channel_views(r.0@) == latest_first(channels_in(lib@)),
        r.1 == yt_library::unresolved_videos(lib@).len(),
{
    let ghost all = lib@;
    let ghost raw = lib.channels.list();
    let n: usize = lib.channels.len();
    let mut rows: Vec<ChannelRow> = Vec::new();
    let mut i: usize = 0;
    assert(all.take(0) =~= Seq::empty());
    assert(channel_views(rows@) =~= latest_first(channels_in(all.take(0))));
    while i < n
        invariant
            i <= n,
            n == raw.len(),
            raw == lib.channels.list(),
            all == textmap::shown(raw),
            channel_views(rows@) == latest_first(channels_in(all.take(i as int))),
        decreases n - i,
    {
        proof {
            let next = all.take(i + 1);
            assert(next.drop_last() =~= all.take(i as int));
            assert(next.last() == (raw[i as int].0, raw[i as int].1@));
            let so_far = channels_in(all.take(i as int));
            let row = (raw[i as int].1@.last_seen, channel_row(raw[i as int].1@));
            assert(so_far.push(row).drop_last() =~= so_far);
            assert(so_far.push(row).last() == row);
        }
        if !str_eq(lib.channels.key_at(i).as_str(), UNRESOLVED) {
            let row = read_channel(lib.channels.value_at(i));
            place_channel(&mut rows, row);
        }
        i += 1;
    }
    assert(all.take(n as int) =~= all);
    let unresolved = match lib.channels.get(UNRESOLVED) {
        Some(c) => {
            proof {
                textmap::lemma_shown(raw, UNRESOLVED@, *c);
            }
            c.caught.len()
        },
        None => {
            proof {
                let any: YtChannel = arbitrary();
                textmap::lemma_shown(raw, UNRESOLVED@, any);
            }
            0
        },
    };
    (rows, unresolved)
}

fn copy_video(v: &YtCaught) -> (r: YtCaught)
    ensures
        r@ == v@,
{
    YtCaught {
        id: v.id.clone(),
        url: v.url.clone(),
        title: v.title.clone(),
        thumbnail: copy_opt(&v.thumbnail),
        duration: v.duration,
        uploader: copy_opt(&v.uploader),
        upload_date: copy_opt(&v.upload_date),
        view_count: v.view_count,
        resolved: v.resolved,
        seen: v.seen,
    }
}

/// A channel with its videos, those seen last first; nothing where there is no such
/// channel.
pub fn yt_channel(lib: &YtLibrary, key: &str) -> (r: Option<(ChannelRow, Vec<YtCaught>)>)
    ensures
        match textmap::get(lib@, key@) {
            Some(c) => r matches Some(p) && p.0@ == channel_row(c) && yt_library::video_views(p.1@)
                == c.caught.reverse(),
            None => r is None,
        },
{
    let ghost raw = lib.channels.list();
    match lib.channels.get(key) {
        None => {
            proof {
                let any: YtChannel = arbitrary();
                textmap::lemma_shown(raw, key@, any);
            }
            None
        },
        Some(c) => {
            proof {
                textmap::lemma_shown(raw, key@, *c);
            }
            let ghost all = yt_library::video_views(c.caught@);
            let ghost want = all.reverse();
            let mut out: Vec<YtCaught> = Vec::new();
            let mut left: usize = c.caught.len();
            assert(yt_library::video_views(out@) =~= want.take(0));
            while left > 0
                invariant
                    left <= c.caught.len(),
                    all == yt_library::video_views(c.caught@),
                    want == all.reverse(),
                    yt_library::video_views(out@) == want.take(c.caught.len() - left),
                decreases left,
            {
                let ghost before = yt_library::video_views(out@);
                left -= 1;
                let v = copy_video(&c.caught[left]);
                let ghost shown = v@;
                assert(all[left as int] == shown);
                out.push(v);
                assert(yt_library::video_views(out@) =~= before.push(shown));
                assert(want.take(c.caught.len() - left) =~= before.push(shown));
            }
            assert(want.take(want.len() as int) =~= want);
            Some((read_channel(c), out))
        },
    }
}

/// How many keys are those of somebody known.
pub open spec fn known_keys<V>(s: Seq<(Seq<char>, V)>) -> nat
    decreases s.len(),
{
    if s.len() == 0 {
        0
    } else {
        known_keys(s.drop_last()) + if s.last().0 == UNRESOLVED@ {
            0nat
        } else {
            1
        }
    }
}

fn count_known<V>(m: &TextMap<V>) -> (r: usize)
    ensures
        r == known_keys(m.list()),
{
    let ghost all = m.list();
    let n: usize = m.len();
    let mut count: usize = 0;
    let mut i: usize = 0;
    assert(all.take(0) =~= Seq::empty());
    while i < n
        invariant
            i <= n,
            n == all.len(),
            all == m.list(),
            count == known_keys(all.take(i as int)),
            count <= i,
        decreases n - i,
    {
        proof {
            let next = all.take(i + 1);
            assert(next.drop_last() =~= all.take(i as int));
            assert(next.last() == all[i as int]);
        }
        if !str_eq(m.key_at(i).as_str(), UNRESOLVED) {
            count += 1;
        }
        i += 1;
    }
    assert(all.take(n as int) =~= all);
    count
}

/// How many accounts and how many channels are known.
pub fn library_counts(ig: &IgLibrary, yt: &YtLibrary) -> (r: (usize, usize))
    ensures
        r.0 == known_keys(ig.accounts.list()),
        r.1 == known_keys(yt.channels.list()),
{
    (count_known(&ig.accounts), count_known(&yt.channels))
}

// ---------------------------------------------------------------------------
// Looking videos up
// ---------------------------------------------------------------------------

/// What looking a video up tells.
#[derive(Debug)]
pub struct VideoMeta {
    pub id: String,
    pub title: String,
    pub channel: Option<String>,
    pub channel_id: Option<String>,
    pub channel_url: Option<String>,
    pub uploader: Option<String>,
    pub thumbnail: Option<String>,
    pub duration: Option<u64>,
    pub upload_date: Option<String>,
    pub view_count: Option<u64>,
}

/// The text of a member of a description; empty where it has none.
pub open spec fn text_or_empty(info: JsonView, key: Seq<char>) -> Seq<char> {
    match info.text_at(key) {
        Some(t) => t,
        None => Seq::empty(),
    }
}

/// The number of a member of a description, where it is a whole one.
pub open spec fn count_at(info: JsonView, key: Seq<char>) -> Option<nat> {
    match info.get(key) {
        Some(v) => v.as_nat(),
        None => None,
    }
}

/// Whether a number is a count.
pub open spec fn is_count(n: Option<u64>, want: Option<nat>) -> bool {
    match n {
        Some(x) => want == Some(x as nat),
        None => want is None,
    }
}

fn member_text(info: &Json, key: &str) -> (r: Option<String>)
    ensures
        text::opt(r) == info@.text_at(key@),
{
    match info.str_at(key) {
        Some(t) => Some(t.clone()),
        None => None,
    }
}

fn member_or_empty(info: &Json, key: &str) -> (r: String)
    ensures
        r@ == text_or_empty(info@, key@),
{
    match info.str_at(key) {
        Some(t) => t.clone(),
        None => {
            let none = String::new();
            assert(none@ =~= Seq::empty());
            none
        },
    }
}

fn member_count(info: &Json, key: &str) -> (r: Option<u64>)
    ensures
        is_count(r, count_at(info@, key@)),
{
    match info.get(key) {
        Some(v) => v.as_u64(),
        None => None,
    }
}

/// Reads what the description of a video tells when it is looked up.
pub fn video_meta(info: &Json) -> (r: VideoMeta)
    ensures
        r.id@ == text_or_empty(info@, "id"@),
        r.title@ == text_or_empty(info@, "title"@),
        text::opt(r.channel) == info@.text_at("channel"@),
        text::opt(r.channel_id) == info@.text_at("channel_id"@),
        text::opt(r.channel_url) == info@.text_at("channel_url"@),
        text::opt(r.uploader) == info@.text_at("uploader"@),
        text::opt(r.thumbnail) == info@.text_at("thumbnail"@),
        is_count(r.duration, count_at(info@, "duration"@)),
        text::opt(r.upload_date) == info@.text_at("upload_date"@),
        is_count(r.view_count, count_at(info@, "view_count"@)),
{
    VideoMeta {
        id: member_or_empty(info, "id"),
        title: member_or_empty(info, "title"),
        channel: member_text(info, "channel"),
        channel_id: member_text(info, "channel_id"),
        channel_url: member_text(info, "channel_url"),
        uploader: member_text(info, "uploader"),
        thumbnail: member_text(info, "thumbnail"),
        duration: member_count(info, "duration"),
        upload_date: member_text(info, "upload_date"),
        view_count: member_count(info, "view_count"),
    }
}

/// How long the look-up rests between two videos, in milliseconds.
pub const RESOLVE_PAUSE_MS: u64 = 1_500;

/// The next video to be looked up.
pub fn next_unresolved(lib: &YtLibrary) -> (r: Option<String>)
    ensures
        ({
            let waiting = yt_library::unresolved_videos(lib@);
            text::opt(r) == if waiting.len() > 0 {
                Some(waiting[0].url)
            } else {
                None
            }
        }),
{
    let ghost raw = lib.channels.list();
    match lib.channels.get(UNRESOLVED) {
        Some(c) => {
            proof {
                textmap::lemma_shown(raw, UNRESOLVED@, *c);
            }
            if c.caught.len() > 0 {
                assert(yt_library::video_views(c.caught@)[0] == c.caught@[0]@);
                Some(c.caught[0].url.clone())
            } else {
                None
            }
        },
        None => {
            proof {
                let any: YtChannel = arbitrary();
                textmap::lemma_shown(raw, UNRESOLVED@, any);
            }
            None
        },
    }
}

/// The key of the channel of a video: its identifier, else a slug of its address, else
/// one of the address of the video.
pub open spec fn channel_key_of(m: VideoMeta, url: Seq<char>) -> Seq<char> {
    match m.channel_id {
        Some(id) if id@.len() > 0 => id@,
        _ => match m.channel_url {
            Some(u) => pages::slug_of(u@),
            None => pages::slug_of(url),
        },
    }
}

/// What is merged into the library once a video was looked up.
pub open spec fn resolve_view(m: VideoMeta, url: Seq<char>) -> ResolveView {
    ResolveView {
        channel_key: channel_key_of(m, url),
        channel_name: match m.channel {
            Some(n) => n@,
            None => Seq::empty(),
        },
        channel_url: text::opt(m.channel_url),
        avatar_url: None,
        video_id: m.id@,
        title: m.title@,
        thumbnail: text::opt(m.thumbnail),
        duration: m.duration,
        uploader: text::opt(m.uploader),
        upload_date: text::opt(m.upload_date),
        view_count: m.view_count,
    }
}

/// Works out the key of the channel of a video.
pub fn channel_key(m: &VideoMeta, url: &str) -> (r: String)
    ensures
        r@ == channel_key_of(*m, url@),
{
    match &m.channel_id {
        Some(id) => {
            if chars_of(id.as_str()).len() > 0 {
                return id.clone();
            }
        },
        None => {},
    }
    match &m.channel_url {
        Some(u) => slug(u.as_str()),
        None => slug(url),
    }
}

/// Works out what is merged into the library once a video was looked up.
pub fn resolve_of(m: &VideoMeta, url: &str) -> (r: YtResolve)
    ensures
        r@ == resolve_view(*m, url@),
{
    let channel_name = match &m.channel {
        Some(n) => n.clone(),
        None => {
            let none = String::new();
            assert(none@ =~= Seq::empty());
            none
        },
    };
    YtResolve {
        channel_key: channel_key(m, url),
        channel_name,
        channel_url: copy_opt(&m.channel_url),
        avatar_url: None,
        video_id: m.id.clone(),
        title: m.title.clone(),
        thumbnail: copy_opt(&m.thumbnail),
        duration: m.duration,
        uploader: copy_opt(&m.uploader),
        upload_date: copy_opt(&m.upload_date),
        view_count: m.view_count,
    }
}

/// Whether the picture of a channel is still to be had.
pub open spec fn lacks_avatar(lib: Seq<(Seq<char>, ChannelView)>, m: VideoMeta) -> bool {
    match m.channel_url {
        Some(u) if u@.len() > 0 => match textmap::get(lib, channel_key_of(m, u@)) {
            Some(c) => c.avatar_url is None,
            None => false,
        },
        _ => false,
    }
}

/// The address and the key of the channel whose picture is fetched once a video was
/// looked up; nothing where there is none, or the picture is known.
pub fn avatar_wanted(lib: &YtLibrary, m: &VideoMeta) -> (r: Option<(String, String)>)
    ensures
        match r {
            Some(p) => lacks_avatar(lib@, *m) && text::opt(m.channel_url) == Some(p.0@) && p.1@
                == channel_key_of(*m, p.0@),
            None => !lacks_avatar(lib@, *m),
        },
{
    match &m.channel_url {
        None => None,
        Some(u) => {
            if chars_of(u.as_str()).len() == 0 {
                return None;
            }
            let key = channel_key(m, u.as_str());
            let ghost raw = lib.channels.list();
            match lib.channels.get(key.as_str()) {
                Some(c) => {
                    proof {
                        textmap::lemma_shown(raw, key@, *c);
                    }
                    if c.avatar_url.is_none() {
                        Some((u.clone(), key))
                    } else {
                        None
                    }
                },
                None => {
                    proof {
                        let any: YtChannel = arbitrary();
                        textmap::lemma_shown(raw, key@, any);
                    }
                    None
                },
            }
        },
    }
}

} // verus!

//! The channels whose videos were seen, and the videos.

use vstd::prelude::*;

use crate::ig_library::UNRESOLVED;
use crate::paths;
use crate::paths::join_path;
use crate::text;
use crate::text::{
    chars_of, copy_opt, cut_before_first, second_piece_of, str_eq, string_of, strip_prefix,
    to_lower,
};
use crate::textmap;
use crate::textmap::TextMap;

verus! {

/// A video that was seen.
#[derive(Debug)]
pub struct YtCaught {
    /// The identifier of the video; a slug of the page while it is not known.
    pub id: String,
    /// The page, from which it is downloaded.
    pub url: String,
    pub title: String,
    pub thumbnail: Option<String>,
    /// In seconds.
    pub duration: Option<u64>,
    pub uploader: Option<String>,
    /// Year, month and day.
    pub upload_date: Option<String>,
    pub view_count: Option<u64>,
    /// Whether the video was looked up.
    pub resolved: bool,
    pub seen: i64,
}

/// The model of [`YtCaught`].
#[verifier::ext_equal]
pub struct VideoView {
    pub id: Seq<char>,
    pub url: Seq<char>,
    pub title: Seq<char>,
    pub thumbnail: Option<Seq<char>>,
    pub duration: Option<u64>,
    pub uploader: Option<Seq<char>>,
    pub upload_date: Option<Seq<char>>,
    pub view_count: Option<u64>,
    pub resolved: bool,
    pub seen: i64,
}

impl View for YtCaught {
    type V = VideoView;

    open spec fn view(&self) -> VideoView {
        VideoView {
            id: self.id@,
            url: self.url@,
            title: self.title@,
            thumbnail: text::opt(self.thumbnail),
            duration: self.duration,
            uploader: text::opt(self.uploader),
            upload_date: text::opt(self.upload_date),
            view_count: self.view_count,
            resolved: self.resolved,
            seen: self.seen,
        }
    }
}

/// The models of a list of videos.
pub open spec fn video_views(v: Seq<YtCaught>) -> Seq<VideoView> {
    v.map_values(|c: YtCaught| c@)
}

/// A channel.
#[derive(Debug)]
pub struct YtChannel {
    pub key: String,
    /// Empty while it is not known.
    pub name: String,
    /// The host of the videos.
    pub site: String,
    pub channel_url: Option<String>,
    pub avatar_url: Option<String>,
    pub avatar_at: i64,
    pub first_seen: i64,
    pub last_seen: i64,
    pub caught: Vec<YtCaught>,
}

/// The model of [`YtChannel`].
#[verifier::ext_equal]
pub struct ChannelView {
    pub key: Seq<char>,
    pub name: Seq<char>,
    pub site: Seq<char>,
    pub channel_url: Option<Seq<char>>,
    pub avatar_url: Option<Seq<char>>,
    pub avatar_at: i64,
    pub first_seen: i64,
    pub last_seen: i64,
    pub caught: Seq<VideoView>,
}

impl View for YtChannel {
    type V = ChannelView;

    open spec fn view(&self) -> ChannelView {
        ChannelView {
            key: self.key@,
            name: self.name@,
            site: self.site@,
            channel_url: text::opt(self.channel_url),
            avatar_url: text::opt(self.avatar_url),
            avatar_at: self.avatar_at,
            first_seen: self.first_seen,
            last_seen: self.last_seen,
            caught: video_views(self.caught@),
        }
    }
}

/// What looking a video up gives.
#[derive(Debug)]
pub struct YtResolve {
    pub channel_key: String,
    pub channel_name: String,
    pub channel_url: Option<String>,
    pub avatar_url: Option<String>,
    pub video_id: String,
    pub title: String,
    pub thumbnail: Option<String>,
    pub duration: Option<u64>,
    pub uploader: Option<String>,
    pub upload_date: Option<String>,
    pub view_count: Option<u64>,
}

/// The model of [`YtResolve`].
#[verifier::ext_equal]
pub struct ResolveView {
    pub channel_key: Seq<char>,
    pub channel_name: Seq<char>,
    pub channel_url: Option<Seq<char>>,
    pub avatar_url: Option<Seq<char>>,
    pub video_id: Seq<char>,
    pub title: Seq<char>,
    pub thumbnail: Option<Seq<char>>,
    pub duration: Option<u64>,
    pub uploader: Option<Seq<char>>,
    pub upload_date: Option<Seq<char>>,
    pub view_count: Option<u64>,
}

impl View for YtResolve {
    type V = ResolveView;

    open spec fn view(&self) -> ResolveView {
        ResolveView {
            channel_key: self.channel_key@,
            channel_name: self.channel_name@,
            channel_url: text::opt(self.channel_url),
            avatar_url: text::opt(self.avatar_url),
            video_id: self.video_id@,
            title: self.title@,
            thumbnail: text::opt(self.thumbnail),
            duration: self.duration,
            uploader: text::opt(self.uploader),
            upload_date: text::opt(self.upload_date),
            view_count: self.view_count,
        }
    }
}

/// The channels, by their keys.
#[derive(Debug)]
pub struct YtLibrary {
    pub channels: TextMap<YtChannel>,
}

impl View for YtLibrary {
    type V = Seq<(Seq<char>, ChannelView)>;

    open spec fn view(&self) -> Seq<(Seq<char>, ChannelView)> {
        textmap::shown(self.channels.list())
    }
}

/// The position, from `i` on, of the first video of a page; the length of the list
/// where there is none.
pub open spec fn video_at(s: Seq<VideoView>, url: Seq<char>, i: int) -> int
    decreases s.len() - i,
{
    if i < 0 || i >= s.len() || s[i].url == url {
        i
    } else {
        video_at(s, url, i + 1)
    }
}

/// Whether a list has a video of a page.
pub open spec fn has_video(s: Seq<VideoView>, url: Seq<char>) -> bool {
    video_at(s, url, 0) < s.len()
}

/// The position, from `i` on, of the first channel with a video of a page; the number
/// of channels where there is none.
pub open spec fn holder(lib: Seq<(Seq<char>, ChannelView)>, url: Seq<char>, i: int) -> int
    decreases lib.len() - i,
{
    if i < 0 || i >= lib.len() || has_video(lib[i].1.caught, url) {
        i
    } else {
        holder(lib, url, i + 1)
    }
}

/// A channel that is new at a time.
pub open spec fn new_channel(key: Seq<char>, site: Seq<char>, now: i64) -> ChannelView {
    ChannelView {
        key,
        name: Seq::empty(),
        site,
        channel_url: None,
        avatar_url: None,
        avatar_at: 0,
        first_seen: now,
        last_seen: now,
        caught: Seq::empty(),
    }
}

/// The channel of a key, or a new one.
pub open spec fn channel_or_new(
    lib: Seq<(Seq<char>, ChannelView)>,
    key: Seq<char>,
    site: Seq<char>,
    now: i64,
) -> ChannelView {
    match textmap::get(lib, key) {
        Some(c) => c,
        None => new_channel(key, site, now),
    }
}

/// The library once a video was seen: a video that is filed already stays where it is.
pub open spec fn recorded(
    lib: Seq<(Seq<char>, ChannelView)>,
    key: Seq<char>,
    site: Seq<char>,
    c: VideoView,
    now: i64,
) -> Seq<(Seq<char>, ChannelView)> {
    let h = holder(lib, c.url, 0);
    if h < lib.len() {
        lib.update(h, (lib[h].0, ChannelView { last_seen: now, ..lib[h].1 }))
    } else {
        let ch = channel_or_new(lib, key, site, now);
        textmap::put(
            lib,
            key,
            ChannelView {
                last_seen: now,
                site: if ch.site.len() == 0 {
                    site
                } else {
                    ch.site
                },
                caught: ch.caught.push(c),
                ..ch
            },
        )
    }
}

/// The library without the first video of a page.
pub open spec fn pulled(lib: Seq<(Seq<char>, ChannelView)>, url: Seq<char>) -> Seq<
    (Seq<char>, ChannelView),
> {
    let h = holder(lib, url, 0);
    if h < lib.len() {
        let ch = lib[h].1;
        lib.update(
            h,
            (lib[h].0, ChannelView { caught: ch.caught.remove(video_at(ch.caught, url, 0)), ..ch }),
        )
    } else {
        lib
    }
}

/// The library without the key for nobody known, where nothing is filed under it.
pub open spec fn tidied(lib: Seq<(Seq<char>, ChannelView)>) -> Seq<(Seq<char>, ChannelView)> {
    match textmap::get(lib, UNRESOLVED@) {
        Some(ch) if ch.caught.len() == 0 => textmap::del(lib, UNRESOLVED@),
        _ => lib,
    }
}

/// The first of two that is there.
pub open spec fn either<T>(a: Option<T>, b: Option<T>) -> Option<T> {
    match a {
        Some(x) => Some(x),
        None => b,
    }
}

/// A video with what looking it up gave.
pub open spec fn merged(v: VideoView, r: ResolveView) -> VideoView {
    VideoView {
        id: if r.video_id.len() == 0 {
            v.id
        } else {
            r.video_id
        },
        title: if r.title.len() == 0 {
            v.title
        } else {
            r.title
        },
        thumbnail: either(r.thumbnail, v.thumbnail),
        duration: either(r.duration, v.duration),
        uploader: either(r.uploader, v.uploader),
        upload_date: either(r.upload_date, v.upload_date),
        view_count: either(r.view_count, v.view_count),
        resolved: true,
        url: v.url,
        seen: v.seen,
    }
}

/// A host in lower case and without `www.`.
pub open spec fn bare_host(host: Seq<char>) -> Seq<char> {
    text::lower(
        if text::has_prefix(host, "www."@) {
            host.skip("www."@.len() as int)
        } else {
            host
        },
    )
}

/// Writes a host in lower case and without `www.`.
pub fn write_bare_host(host: &[char]) -> (r: String)
    ensures
        r@ == bare_host(host@),
{
    let bare = match strip_prefix(host, "www.") {
        Some(b) => b,
        None => host,
    };
    string_of(to_lower(bare).as_slice())
}

/// The host in the address of a channel.
pub open spec fn site_in(url: Option<Seq<char>>) -> Option<Seq<char>> {
    match url {
        None => None,
        Some(u) => match text::second_piece(u, "://"@) {
            None => None,
            Some(part) => Some(bare_host(text::before_first(part, "/?"@))),
        },
    }
}

/// Whether a list has a video of the same page, or of the same identifier where that
/// is known.
pub open spec fn has_like(s: Seq<VideoView>, v: VideoView) -> bool {
    exists|i: int|
        0 <= i < s.len() && ((#[trigger] s[i]).url == v.url || (v.id.len() > 0 && s[i].id == v.id))
}

/// A channel once one of its videos was looked up at a time.
pub open spec fn with_resolved(
    ch: ChannelView,
    v: VideoView,
    r: ResolveView,
    now: i64,
) -> ChannelView {
    ChannelView {
        last_seen: now,
        name: if r.channel_name.len() == 0 {
            ch.name
        } else {
            r.channel_name
        },
        channel_url: either(r.channel_url, ch.channel_url),
        avatar_url: either(r.avatar_url, ch.avatar_url),
        avatar_at: if r.avatar_url is Some {
            now
        } else {
            ch.avatar_at
        },
        caught: if has_like(ch.caught, v) {
            ch.caught
        } else {
            ch.caught.push(v)
        },
        ..ch
    }
}

/// The key of the channel that a look-up gave.
pub open spec fn resolved_key(r: ResolveView) -> Seq<char> {
    if r.channel_key.len() == 0 {
        UNRESOLVED@
    } else {
        r.channel_key
    }
}

/// The library once a page was looked up at a time.
pub open spec fn resolved(
    lib: Seq<(Seq<char>, ChannelView)>,
    url: Seq<char>,
    r: ResolveView,
    now: i64,
) -> Seq<(Seq<char>, ChannelView)> {
    let h = holder(lib, url, 0);
    let rest = tidied(pulled(lib, url));
    if h >= lib.len() {
        rest
    } else {
        let caught = lib[h].1.caught;
        let v = merged(caught[video_at(caught, url, 0)], r);
        let key = resolved_key(r);
        let site = match site_in(r.channel_url) {
            Some(s) => s,
            None => Seq::empty(),
        };
        textmap::put(rest, key, with_resolved(channel_or_new(rest, key, site, now), v, r, now))
    }
}

/// The videos of other pages.
pub open spec fn others(s: Seq<VideoView>, url: Seq<char>) -> Seq<VideoView>
    decreases s.len(),
{
    if s.len() == 0 {
        s
    } else {
        let rest = others(s.drop_last(), url);
        if s.last().url == url {
            rest
        } else {
            rest.push(s.last())
        }
    }
}

/// The library without the videos of a page, and without channels that have none left.
pub open spec fn forgotten(lib: Seq<(Seq<char>, ChannelView)>, url: Seq<char>) -> Seq<
    (Seq<char>, ChannelView),
>
    decreases lib.len(),
{
    if lib.len() == 0 {
        lib
    } else {
        let rest = forgotten(lib.drop_last(), url);
        let ch = lib.last().1;
        let caught = others(ch.caught, url);
        if caught.len() == 0 {
            rest
        } else {
            rest.push((lib.last().0, ChannelView { caught, ..ch }))
        }
    }
}

fn new_entry(key: String, site: String, now: i64) -> (r: YtChannel)
    ensures
        r@ == new_channel(key@, site@, now),
{
    let name = String::new();
    let r = YtChannel {
        key,
        name,
        site,
        channel_url: None,
        avatar_url: None,
        avatar_at: 0,
        first_seen: now,
        last_seen: now,
        caught: Vec::new(),
    };
    assert(r.name@ =~= Seq::empty());
    assert(video_views(r.caught@) =~= Seq::empty());
    r
}

fn is_empty(s: &str) -> (r: bool)
    ensures
        r == (s@.len() == 0),
{
    chars_of(s).len() == 0
}

fn find_video(v: &Vec<YtCaught>, url: &str) -> (r: usize)
    ensures
        r == video_at(video_views(v@), url@, 0),
        r <= v.len(),
{
    let ghost all = video_views(v@);
    let mut i: usize = 0;
    while i < v.len()
        invariant
            i <= v.len(),
            all == video_views(v@),
            video_at(all, url@, 0) == video_at(all, url@, i as int),
        decreases v.len() - i,
    {
        assert(all[i as int] == v@[i as int]@);
        if str_eq(v[i].url.as_str(), url) {
            return i;
        }
        i += 1;
    }
    i
}

fn like_there(v: &Vec<YtCaught>, c: &YtCaught) -> (r: bool)
    ensures
        r == has_like(video_views(v@), c@),
{
    let ghost all = video_views(v@);
    let known = !is_empty(c.id.as_str());
    let mut i: usize = 0;
    while i < v.len()
        invariant
            i <= v.len(),
            all == video_views(v@),
            known == (c@.id.len() > 0),
            forall|j: int|
                0 <= j < i ==> !((#[trigger] all[j]).url == c@.url || (c@.id.len() > 0 && all[j].id
                    == c@.id)),
        decreases v.len() - i,
    {
        assert(all[i as int] == v@[i as int]@);
        if str_eq(v[i].url.as_str(), c.url.as_str()) || (known && str_eq(
            v[i].id.as_str(),
            c.id.as_str(),
        )) {
            return true;
        }
        i += 1;
    }
    false
}

fn drop_page(v: &mut Vec<YtCaught>, url: &str)
    ensures
        video_views(final(v)@) == others(video_views(old(v)@), url@),
{
    let ghost all = video_views(v@);
    let ghost mut n: int = 0;
    let mut i: usize = 0;
    assert(all.take(0) =~= Seq::empty());
    assert(video_views(v@) =~= others(all.take(0), url@) + all.skip(0));
    while i < v.len()
        invariant
            0 <= n <= all.len(),
            i == others(all.take(n), url@).len(),
            video_views(v@) == others(all.take(n), url@) + all.skip(n),
        decreases all.len() - n,
    {
        let ghost before = video_views(v@);
        let ghost kept = others(all.take(n), url@);
        proof {
            assert(before[i as int] == v@[i as int]@);
            assert(n < all.len());
            assert(before[i as int] == all.skip(n)[0]);
            assert(all.take(n + 1).drop_last() =~= all.take(n));
            assert(all.take(n + 1).last() == all[n]);
        }
        if str_eq(v[i].url.as_str(), url) {
            let _ = v.remove(i);
            assert(video_views(v@) =~= before.remove(i as int));
            assert(before.remove(i as int) =~= kept + all.skip(n + 1));
        } else {
            i += 1;
            assert(before =~= kept.push(all[n]) + all.skip(n + 1));
        }
        proof {
            n = n + 1;
        }
    }
    proof {
        assert(video_views(v@).len() == i + (all.len() - n));
        assert(all.take(n) =~= all);
        assert(all.skip(n) =~= Seq::empty());
        assert(others(all, url@) + all.skip(n) =~= others(all, url@));
    }
}

fn or_old(new: &Option<String>, old_value: Option<String>) -> (r: Option<String>)
    ensures
        text::opt(r) == either(text::opt(*new), text::opt(old_value)),
{
    match new {
        Some(s) => Some(s.clone()),
        None => old_value,
    }
}

fn or_number(new: Option<u64>, old_value: Option<u64>) -> (r: Option<u64>)
    ensures
        r == either(new, old_value),
{
    if new.is_some() {
        new
    } else {
        old_value
    }
}

fn merge(c: YtCaught, r: &YtResolve) -> (v: YtCaught)
    ensures
        v@ == merged(c@, r@),
{
    YtCaught {
        id: if is_empty(r.video_id.as_str()) {
            c.id
        } else {
            r.video_id.clone()
        },
        title: if is_empty(r.title.as_str()) {
            c.title
        } else {
            r.title.clone()
        },
        thumbnail: or_old(&r.thumbnail, c.thumbnail),
        duration: or_number(r.duration, c.duration),
        uploader: or_old(&r.uploader, c.uploader),
        upload_date: or_old(&r.upload_date, c.upload_date),
        view_count: or_number(r.view_count, c.view_count),
        resolved: true,
        url: c.url,
        seen: c.seen,
    }
}

/// The host in the address of a channel, in lower case and without `www.`; none where
/// the address has no scheme.
pub fn channel_site_hint(url: &Option<String>) -> (r: Option<String>)
    ensures
        text::opt(r) == site_in(text::opt(*url)),
{
    let u = match url {
        None => {
            return None;
        },
        Some(u) => chars_of(u.as_str()),
    };
    match second_piece_of(u.as_slice(), "://") {
        None => None,
        Some(part) => Some(write_bare_host(cut_before_first(part, "/?"))),
    }
}

/// Whether the channel at a key is there and has another picture than this one.
pub open spec fn wants_avatar(
    lib: Seq<(Seq<char>, ChannelView)>,
    key: Seq<char>,
    url: Seq<char>,
) -> bool {
    textmap::get(lib, key) matches Some(a) && a.avatar_url != Some(url)
}

/// A library once a picture of the channel at a key was found at a time.
pub open spec fn pictured(
    lib: Seq<(Seq<char>, ChannelView)>,
    key: Seq<char>,
    url: Seq<char>,
    now: i64,
) -> Seq<(Seq<char>, ChannelView)> {
    match textmap::get(lib, key) {
        Some(a) if a.avatar_url != Some(url) => textmap::put(
            lib,
            key,
            ChannelView { avatar_url: Some(url), avatar_at: now, ..a },
        ),
        _ => lib,
    }
}

impl YtLibrary {
    pub fn new() -> (r: Self)
        ensures
            r@ == Seq::<(Seq<char>, ChannelView)>::empty(),
    {
        let r = YtLibrary { channels: TextMap::new() };
        assert(r@ =~= Seq::empty());
        r
    }

    fn holder(&self, url: &str) -> (r: usize)
        ensures
            r == holder(self@, url@, 0),
            r <= self.channels.list().len(),
            self@.len() == self.channels.list().len(),
    {
        let ghost all = self@;
        let mut i: usize = 0;
        while i < self.channels.len()
            invariant
                i <= self.channels.list().len(),
                all == textmap::shown(self.channels.list()),
                holder(all, url@, 0) == holder(all, url@, i as int),
            decreases self.channels.list().len() - i,
        {
            assert(all[i as int].1 == self.channels.list()[i as int].1@);
            let ch = self.channels.value_at(i);
            if find_video(&ch.caught, url) < ch.caught.len() {
                return i;
            }
            i += 1;
        }
        i
    }

    fn replace_at(&mut self, i: usize, ch: YtChannel) -> (r: YtChannel)
        requires
            i < old(self)@.len(),
        ensures
            r@ == old(self)@[i as int].1,
            final(self)@ == old(self)@.update(i as int, (old(self)@[i as int].0, ch@)),
    {
        let ghost before = self.channels.list();
        let ghost shown = ch@;
        let r = self.channels.replace_at(i, ch);
        assert(self@ =~= textmap::shown(before).update(i as int, (before[i as int].0, shown)));
        r
    }

    fn take(&mut self, key: &str, site: &str, now: i64) -> (r: YtChannel)
        ensures
            r@ == channel_or_new(old(self)@, key@, site@, now),
            forall|v: ChannelView|
                #[trigger] textmap::put(final(self)@, key@, v) == textmap::put(old(self)@, key@, v),
    {
        let ghost before = self.channels.list();
        let n: usize = self.channels.len();
        match self.channels.remove(key) {
            Some(a) => {
                proof {
                    textmap::lemma_shown(before, key@, a);
                    textmap::lemma_shown_ordered(before);
                    textmap::lemma_put_after_del(old(self)@, key@);
                }
                a
            },
            None => {
                let a = new_entry(key.to_string(), site.to_string(), now);
                proof {
                    textmap::lemma_shown(before, key@, a);
                }
                a
            },
        }
    }

    fn give(&mut self, key: String, ch: YtChannel)
        ensures
            final(self)@ == textmap::put(old(self)@, key@, ch@),
    {
        proof {
            textmap::lemma_shown(self.channels.list(), key@, ch);
        }
        self.channels.insert(key, ch);
    }

    /// Files a video that was seen at a time under a channel. One that is filed already,
    /// under whatever channel, stays there. The library is to be stored.
    pub fn record(&mut self, channel_key: &str, site: &str, c: YtCaught, now: i64)
        ensures
            final(self)@ == recorded(old(self)@, channel_key@, site@, c@, now),
    {
        let h: usize = self.holder(c.url.as_str());
        if h < self.channels.len() {
            let blank = new_entry(String::new(), String::new(), 0);
            let ghost before = self@;
            let mut ch = self.replace_at(h, blank);
            ch.last_seen = now;
            let ghost shown = ch@;
            let _ = self.replace_at(h, ch);
            assert(self@ =~= before.update(h as int, (before[h as int].0, shown)));
            assert(shown == (ChannelView { last_seen: now, ..before[h as int].1 }));
        } else {
            let mut ch = self.take(channel_key, site, now);
            let ghost was = ch@;
            ch.last_seen = now;
            if is_empty(ch.site.as_str()) {
                ch.site = site.to_string();
            }
            let ghost shown = c@;
            ch.caught.push(c);
            assert(video_views(ch.caught@) =~= was.caught.push(shown));
            self.give(channel_key.to_string(), ch);
        }
    }

    fn pull(&mut self, url: &str) -> (r: Option<YtCaught>)
        ensures
            final(self)@ == pulled(old(self)@, url@),
            ({
                let h = holder(old(self)@, url@, 0);
                let caught = old(self)@[h].1.caught;
                match r {
                    Some(c) => h < old(self)@.len() && c@ == caught[video_at(caught, url@, 0)],
                    None => h >= old(self)@.len(),
                }
            }),
    {
        let h: usize = self.holder(url);
        if h >= self.channels.len() {
            return None;
        }
        let blank = new_entry(String::new(), String::new(), 0);
        let ghost before = self@;
        proof {
            lemma_holder(before, url@, 0);
        }
        let mut ch = self.replace_at(h, blank);
        let ghost was = ch@;
        let p: usize = find_video(&ch.caught, url);
        assert(was.caught[p as int] == ch.caught@[p as int]@);
        let item = ch.caught.remove(p);
        assert(video_views(ch.caught@) =~= was.caught.remove(p as int));
        let ghost shown = ch@;
        let _ = self.replace_at(h, ch);
        assert(self@ =~= before.update(h as int, (before[h as int].0, shown)));
        assert(shown == (ChannelView { caught: was.caught.remove(p as int), ..was }));
        Some(item)
    }

    fn tidy(&mut self)
        ensures
            final(self)@ == tidied(old(self)@),
    {
        let ghost before = self.channels.list();
        let drop_it = match self.channels.get(UNRESOLVED) {
            Some(ch) => {
                proof {
                    textmap::lemma_shown(before, UNRESOLVED@, *ch);
                }
                ch.caught.len() == 0
            },
            None => {
                proof {
                    let any: YtChannel = arbitrary();
                    textmap::lemma_shown(before, UNRESOLVED@, any);
                }
                false
            },
        };
        if drop_it {
            let _ = self.channels.remove(UNRESOLVED);
        }
    }

    /// Merges what looking a page up gave at a time into its video, and moves that to
    /// its channel; tells whether the library is to be stored.
    pub fn resolve(&mut self, url: &str, r: &YtResolve, now: i64) -> (changed: bool)
        ensures
            final(self)@ == resolved(old(self)@, url@, r@, now),
            changed == (holder(old(self)@, url@, 0) < old(self)@.len()),
    {
        let pulled_item = self.pull(url);
        self.tidy();
        let item = match pulled_item {
            None => {
                return false;
            },
            Some(c) => merge(c, r),
        };
        let key = if is_empty(r.channel_key.as_str()) {
            UNRESOLVED.to_string()
        } else {
            r.channel_key.clone()
        };
        let site = match channel_site_hint(&r.channel_url) {
            Some(s) => s,
            None => {
                let none = String::new();
                assert(none@ =~= Seq::empty());
                none
            },
        };
        let mut ch = self.take(key.as_str(), site.as_str(), now);
        let ghost was = ch@;
        let ghost v = item@;
        ch.last_seen = now;
        if !is_empty(r.channel_name.as_str()) {
            ch.name = r.channel_name.clone();
        }
        if r.channel_url.is_some() {
            ch.channel_url = copy_opt(&r.channel_url);
        }
        if r.avatar_url.is_some() {
            ch.avatar_url = copy_opt(&r.avatar_url);
            ch.avatar_at = now;
        }
        if !like_there(&ch.caught, &item) {
            ch.caught.push(item);
            assert(video_views(ch.caught@) =~= was.caught.push(v));
        }
        assert(ch@ =~= with_resolved(was, v, r@, now));
        self.give(key, ch);
        true
    }

    /// Drops the videos of a page, and channels that have none left. The library is to
    /// be stored.
    pub fn forget(&mut self, url: &str)
        ensures
            final(self)@ == forgotten(old(self)@, url@),
    {
        let ghost all = self@;
        let ghost mut n: int = 0;
        let mut i: usize = 0;
        assert(all.take(0) =~= Seq::empty());
        assert(self@ =~= forgotten(all.take(0), url@) + all.skip(0));
        while i < self.channels.len()
            invariant
                0 <= n <= all.len(),
                i == forgotten(all.take(n), url@).len(),
                self@ == forgotten(all.take(n), url@) + all.skip(n),
            decreases all.len() - n,
        {
            let ghost before = self@;
            let ghost kept = forgotten(all.take(n), url@);
            proof {
                assert(before.len() == self.channels.list().len());
                assert(n < all.len());
                assert(before[i as int] == all.skip(n)[0]);
                assert(all.take(n + 1).drop_last() =~= all.take(n));
                assert(all.take(n + 1).last() == all[n]);
            }
            let blank = new_entry(String::new(), String::new(), 0);
            let mut ch = self.replace_at(i, blank);
            let ghost was = ch@;
            drop_page(&mut ch.caught, url);
            if ch.caught.len() == 0 {
                let ghost mid = self.channels.list();
                assert(self@.len() == mid.len());
                self.channels.remove_at(i);
                assert(self@ =~= textmap::shown(mid).remove(i as int));
                assert(self@ =~= kept + all.skip(n + 1));
            } else {
                let ghost shown = ch@;
                let _ = self.replace_at(i, ch);
                assert(shown == (ChannelView { caught: others(was.caught, url@), ..was }));
                assert(self@ =~= kept.push((all[n].0, shown)) + all.skip(n + 1));
                i += 1;
            }
            proof {
                n = n + 1;
            }
        }
        proof {
            assert(self@.len() == self.channels.list().len());
            assert(all.take(n) =~= all);
            assert(all.skip(n) =~= Seq::empty());
            assert(forgotten(all, url@) + all.skip(n) =~= forgotten(all, url@));
        }
    }

    /// Sets the picture of a channel at a time, where the channel is there and has
    /// another one; tells whether the library is to be stored. Nothing changes
    /// otherwise.
    pub fn set_channel_avatar(&mut self, key: &str, url: &str, now: i64) -> (r: bool)
        ensures
            r == wants_avatar(old(self)@, key@, url@),
            final(self)@ == pictured(old(self)@, key@, url@, now),
    {
        let ghost before = self.channels.list();
        proof {
            let any: YtChannel = arbitrary();
            textmap::lemma_shown(before, key@, any);
        }
        let wanted = match self.channels.get(key) {
            Some(ch) => match &ch.avatar_url {
                Some(u) => !str_eq(u.as_str(), url),
                None => true,
            },
            None => false,
        };
        if wanted {
            let mut ch = self.take(key, "", now);
            ch.avatar_url = Some(url.to_string());
            ch.avatar_at = now;
            self.give(key.to_string(), ch);
        }
        wanted
    }
}

proof fn lemma_video_at(s: Seq<VideoView>, url: Seq<char>, i: int)
    requires
        0 <= i <= s.len(),
    ensures
        i <= video_at(s, url, i) <= s.len(),
        video_at(s, url, i) < s.len() ==> s[video_at(s, url, i)].url == url,
        forall|j: int| i <= j < video_at(s, url, i) ==> (#[trigger] s[j]).url != url,
    decreases s.len() - i,
{
    if i < s.len() && s[i].url != url {
        lemma_video_at(s, url, i + 1);
    }
}

proof fn lemma_holder(lib: Seq<(Seq<char>, ChannelView)>, url: Seq<char>, i: int)
    requires
        0 <= i <= lib.len(),
    ensures
        i <= holder(lib, url, i) <= lib.len(),
        holder(lib, url, i) < lib.len() ==> has_video(lib[holder(lib, url, i)].1.caught, url),
        forall|j: int|
            i <= j < holder(lib, url, i) ==> !has_video((#[trigger] lib[j]).1.caught, url),
    decreases lib.len() - i,
{
    if i < lib.len() && !has_video(lib[i].1.caught, url) {
        lemma_holder(lib, url, i + 1);
    }
}

/// The videos that are filed under nobody known.
pub open spec fn unresolved_videos(lib: Seq<(Seq<char>, ChannelView)>) -> Seq<VideoView> {
    match textmap::get(lib, UNRESOLVED@) {
        Some(c) => c.caught,
        None => Seq::empty(),
    }
}

/// Where the library is stored.
pub fn default_yt_library_path(data_dir: &str) -> (r: String)
    ensures
        r@ == paths::join(data_dir@, "yt_library.json"@),
{
    join_path(data_dir, "yt_library.json")
}

// ---------------------------------------------------------------------------
// What the library keeps to
// ---------------------------------------------------------------------------

/// How often a list has a video of a page.
pub open spec fn times(s: Seq<VideoView>, url: Seq<char>) -> nat
    decreases s.len(),
{
    if s.len() == 0 {
        0
    } else {
        times(s.drop_last(), url) + if s.last().url == url {
            1nat
        } else {
            0
        }
    }
}

/// How often a video of a page is filed.
pub open spec fn filings(lib: Seq<(Seq<char>, ChannelView)>, url: Seq<char>) -> nat
    decreases lib.len(),
{
    if lib.len() == 0 {
        0
    } else {
        filings(lib.drop_last(), url) + times(lib.last().1.caught, url)
    }
}

proof fn lemma_times_remove(s: Seq<VideoView>, url: Seq<char>, i: int)
    requires
        0 <= i < s.len(),
    ensures
        times(s, url) == times(s.remove(i), url) + if s[i].url == url {
            1nat
        } else {
            0
        },
    decreases s.len(),
{
    if i == s.len() - 1 {
        assert(s.remove(i) =~= s.drop_last());
    } else {
        assert(s.remove(i).drop_last() =~= s.drop_last().remove(i));
        assert(s.remove(i).last() == s.last());
        lemma_times_remove(s.drop_last(), url, i);
    }
}

proof fn lemma_times_found(s: Seq<VideoView>, url: Seq<char>)
    ensures
        times(s, url) > 0 <==> has_video(s, url),
    decreases s.len(),
{
    lemma_video_at(s, url, 0);
    if s.len() > 0 {
        let d = s.drop_last();
        lemma_times_found(d, url);
        lemma_video_at(d, url, 0);
        if has_video(d, url) {
            assert(s[video_at(d, url, 0)] == d[video_at(d, url, 0)]);
        }
        if has_video(s, url) && video_at(s, url, 0) < d.len() {
            assert(d[video_at(s, url, 0)] == s[video_at(s, url, 0)]);
        }
    }
}

proof fn lemma_times_push(s: Seq<VideoView>, v: VideoView, url: Seq<char>)
    ensures
        times(s.push(v), url) == times(s, url) + if v.url == url {
            1nat
        } else {
            0
        },
{
    assert(s.push(v).drop_last() =~= s);
    assert(s.push(v).last() == v);
}

proof fn lemma_filings_remove(lib: Seq<(Seq<char>, ChannelView)>, url: Seq<char>, i: int)
    requires
        0 <= i < lib.len(),
    ensures
        filings(lib, url) == filings(lib.remove(i), url) + times(lib[i].1.caught, url),
    decreases lib.len(),
{
    if i == lib.len() - 1 {
        assert(lib.remove(i) =~= lib.drop_last());
    } else {
        assert(lib.remove(i).drop_last() =~= lib.drop_last().remove(i));
        assert(lib.remove(i).last() == lib.last());
        lemma_filings_remove(lib.drop_last(), url, i);
    }
}

proof fn lemma_filings_update(
    lib: Seq<(Seq<char>, ChannelView)>,
    url: Seq<char>,
    i: int,
    to: (Seq<char>, ChannelView),
)
    requires
        0 <= i < lib.len(),
    ensures
        filings(lib.update(i, to), url) + times(lib[i].1.caught, url) == filings(lib, url) + times(
            to.1.caught,
            url,
        ),
{
    lemma_filings_remove(lib, url, i);
    lemma_filings_remove(lib.update(i, to), url, i);
    assert(lib.update(i, to).remove(i) =~= lib.remove(i));
}

proof fn lemma_filings_put(
    lib: Seq<(Seq<char>, ChannelView)>,
    url: Seq<char>,
    key: Seq<char>,
    to: ChannelView,
)
    ensures
        filings(textmap::put(lib, key, to), url) + (match textmap::get(lib, key) {
            Some(ch) => times(ch.caught, url),
            None => 0,
        }) == filings(lib, url) + times(to.caught, url),
{
    textmap::lemma_at(lib, key, 0);
    let p = textmap::at(lib, key);
    if textmap::has_key(lib, key) {
        lemma_filings_update(lib, url, p, (key, to));
    } else {
        let after = lib.insert(p, (key, to));
        lemma_filings_remove(after, url, p);
        assert(after.remove(p) =~= lib);
    }
}

proof fn lemma_filings_found(lib: Seq<(Seq<char>, ChannelView)>, url: Seq<char>)
    ensures
        filings(lib, url) > 0 <==> holder(lib, url, 0) < lib.len(),
    decreases lib.len(),
{
    lemma_holder(lib, url, 0);
    if lib.len() > 0 {
        let d = lib.drop_last();
        lemma_filings_found(d, url);
        lemma_holder(d, url, 0);
        lemma_times_found(lib.last().1.caught, url);
        if holder(d, url, 0) < d.len() {
            assert(lib[holder(d, url, 0)] == d[holder(d, url, 0)]);
        }
        if holder(lib, url, 0) < d.len() {
            assert(d[holder(lib, url, 0)] == lib[holder(lib, url, 0)]);
        }
    }
}

/// Seeing a video files it where it is not filed yet, and nowhere else: pages that are
/// filed once stay filed once, however often they are seen.
pub proof fn seen_videos_are_filed_once(
    lib: Seq<(Seq<char>, ChannelView)>,
    key: Seq<char>,
    site: Seq<char>,
    c: VideoView,
    now: i64,
    url: Seq<char>,
)
    ensures
        filings(recorded(lib, key, site, c, now), url) == filings(lib, url) + (if url == c.url
            && filings(lib, url) == 0 {
            1nat
        } else {
            0
        }),
{
    lemma_filings_found(lib, c.url);
    let h = holder(lib, c.url, 0);
    lemma_holder(lib, c.url, 0);
    if h < lib.len() {
        lemma_filings_update(lib, url, h, (lib[h].0, ChannelView { last_seen: now, ..lib[h].1 }));
    } else {
        let ch = channel_or_new(lib, key, site, now);
        let to = ChannelView {
            last_seen: now,
            site: if ch.site.len() == 0 {
                site
            } else {
                ch.site
            },
            caught: ch.caught.push(c),
            ..ch
        };
        lemma_filings_put(lib, url, key, to);
        lemma_times_push(ch.caught, c, url);
        assert(times(Seq::<VideoView>::empty(), url) == 0);
    }
}

/// Looking a page up moves its video and copies none: a page that is filed once is
/// filed at most once after it, and pages other than the one looked up as before.
pub proof fn resolved_videos_move(
    lib: Seq<(Seq<char>, ChannelView)>,
    url: Seq<char>,
    r: ResolveView,
    now: i64,
    page: Seq<char>,
)
    ensures
        filings(resolved(lib, url, r, now), page) <= filings(lib, page),
        page != url ==> filings(resolved(lib, url, r, now), page) == filings(lib, page),
{
    let h = holder(lib, url, 0);
    lemma_holder(lib, url, 0);
    let a = pulled(lib, url);
    if h < lib.len() {
        let ch = lib[h].1;
        let p = video_at(ch.caught, url, 0);
        lemma_video_at(ch.caught, url, 0);
        lemma_times_remove(ch.caught, page, p);
        lemma_filings_update(
            lib,
            page,
            h,
            (lib[h].0, ChannelView { caught: ch.caught.remove(p), ..ch }),
        );
    }
    let b = tidied(a);
    textmap::lemma_at(a, UNRESOLVED@, 0);
    if textmap::has_key(a, UNRESOLVED@) {
        lemma_filings_remove(a, page, textmap::at(a, UNRESOLVED@));
    }
    assert(filings(b, page) == filings(a, page));
    if h < lib.len() {
        let caught = lib[h].1.caught;
        let v = merged(caught[video_at(caught, url, 0)], r);
        let key = resolved_key(r);
        let site = match site_in(r.channel_url) {
            Some(s) => s,
            None => Seq::empty(),
        };
        let ch = channel_or_new(b, key, site, now);
        let to = with_resolved(ch, v, r, now);
        lemma_filings_put(b, page, key, to);
        lemma_times_push(ch.caught, v, page);
        assert(times(Seq::<VideoView>::empty(), page) == 0);
        assert(v.url == url);
    }
}

proof fn lemma_others(s: Seq<VideoView>, url: Seq<char>, page: Seq<char>)
    ensures
        times(others(s, url), page) == if page == url {
            0
        } else {
            times(s, page)
        },
        others(s, url).len() <= s.len(),
    decreases s.len(),
{
    if s.len() > 0 {
        lemma_others(s.drop_last(), url, page);
        let rest = others(s.drop_last(), url);
        if s.last().url != url {
            assert(rest.push(s.last()).drop_last() =~= rest);
        }
    }
}

/// A page that was forgotten is filed nowhere; other pages are filed as they were.
pub proof fn forgotten_videos_are_gone(
    lib: Seq<(Seq<char>, ChannelView)>,
    url: Seq<char>,
    page: Seq<char>,
)
    ensures
        filings(forgotten(lib, url), page) == if page == url {
            0
        } else {
            filings(lib, page)
        },
    decreases lib.len(),
{
    if lib.len() > 0 {
        forgotten_videos_are_gone(lib.drop_last(), url, page);
        let rest = forgotten(lib.drop_last(), url);
        let ch = lib.last().1;
        let caught = others(ch.caught, url);
        lemma_others(ch.caught, url, page);
        let last = (lib.last().0, ChannelView { caught, ..ch });
        assert(rest.push(last).drop_last() =~= rest);
    }
}

proof fn lemma_two_holders(lib: Seq<(Seq<char>, ChannelView)>, url: Seq<char>, a: int, b: int)
    requires
        0 <= a < b < lib.len(),
    ensures
        filings(lib, url) >= times(lib[a].1.caught, url) + times(lib[b].1.caught, url),
{
    lemma_filings_remove(lib, url, b);
    lemma_filings_remove(lib.remove(b), url, a);
    assert(lib.remove(b)[a] == lib[a]);
}

/// Looking up the first of the videos that wait takes it from them, wherever its channel
/// is known; so looking up one after the other comes to an end.
pub proof fn look_ups_move_on(lib: Seq<(Seq<char>, ChannelView)>, r: ResolveView, now: i64)
    requires
        textmap::ordered(lib),
        unresolved_videos(lib).len() > 0,
        filings(lib, unresolved_videos(lib)[0].url) <= 1,
        resolved_key(r) != UNRESOLVED@,
    ensures
        unresolved_videos(resolved(lib, unresolved_videos(lib)[0].url, r, now))
            == unresolved_videos(lib).skip(1),
{
    let waiting = unresolved_videos(lib);
    let url = waiting[0].url;
    let u = UNRESOLVED@;
    let p = textmap::at(lib, u);
    textmap::lemma_at(lib, u, 0);
    lemma_video_at(waiting, url, 0);
    assert(video_at(waiting, url, 0) == 0);
    assert(has_video(waiting, url));
    lemma_holder(lib, url, 0);
    let h = holder(lib, url, 0);
    lemma_times_found(waiting, url);
    lemma_filings_found(lib, url);
    lemma_filings_remove(lib, url, p);
    if h != p {
        lemma_times_found(lib[h].1.caught, url);
        if h < p {
            lemma_two_holders(lib, url, h, p);
        } else {
            assert(!has_video(lib[p].1.caught, url));
        }
    }
    let ch = lib[p].1;
    let to = ChannelView { caught: ch.caught.remove(0), ..ch };
    let a = pulled(lib, url);
    assert(a =~= textmap::put(lib, u, to));
    assert(ch.caught.remove(0) =~= waiting.skip(1));
    let other = u.push('x');
    assert(other.len() != u.len());
    textmap::writes_are_read_back(lib, u, to, other);
    textmap::writes_are_read_back(a, u, to, other);
    let b = tidied(a);
    assert(unresolved_videos(b) =~= waiting.skip(1));
    let key = resolved_key(r);
    let v = merged(waiting[0], r);
    let site = match site_in(r.channel_url) {
        Some(s) => s,
        None => Seq::empty(),
    };
    let into = with_resolved(channel_or_new(b, key, site, now), v, r, now);
    textmap::writes_are_read_back(b, key, into, u);
}

/// A picture of the channel that is found again changes nothing, not even its time.
pub proof fn pictures_are_set_once(
    lib: Seq<(Seq<char>, ChannelView)>,
    key: Seq<char>,
    url: Seq<char>,
    now: i64,
    later: i64,
)
    requires
        textmap::ordered(lib),
    ensures
        !wants_avatar(pictured(lib, key, url, now), key, url),
        pictured(pictured(lib, key, url, now), key, url, later) == pictured(lib, key, url, now),
{
    if wants_avatar(lib, key, url) {
        let a = textmap::get(lib, key)->0;
        textmap::writes_are_read_back(
            lib,
            key,
            ChannelView { avatar_url: Some(url), avatar_at: now, ..a },
            key.push('x'),
        );
    }
}

} // verus!

//! Laws of the records that are kept and shown: entries of the queue, and the
//! rows of the libraries.
use vstd::prelude::*;

use crate::backend::Outcome;
use crate::entry;
use crate::entry::{ArtifactView, DownloadEntry, DownloadStatus};
use crate::ig_library::{AccountView, CaughtView, UNRESOLVED};
use crate::json;
use crate::json::JsonView;
use crate::listing;
use crate::naming;
use crate::native_host;
use crate::net::JobEvent;
use crate::paths;
use crate::queueing;
use crate::text;
use crate::yt_library::ChannelView;

verus! {

// ---------------------------------------------------------------------------
// Entries
// ---------------------------------------------------------------------------

/// What a download reports is what its entry shows: each counter in its place,
/// with the status unchanged. Converting hides the counters.
pub proof fn reports_are_shown(
    e: DownloadEntry,
    done: u64,
    total: Option<u64>,
    units: u64,
    of_units: u64,
    speed: u64,
)
    ensures
        ({
            let r = e.after_event(
                JobEvent::Progress {
                    downloaded_bytes: done,
                    total_bytes: total,
                    done_units: units,
                    total_units: of_units,
                    speed_bps: speed,
                },
            );
            &&& r.status == e.status
            &&& r.progress matches Some(p) && p.downloaded_bytes == done && p.total_bytes == total
                && p.done_units == units && p.total_units == of_units && p.speed_bps == speed
        }),
        e.after_event(JobEvent::Converting).status == DownloadStatus::Converting,
        e.after_event(JobEvent::Converting).progress is None,
{
}

/// A finished download names the files that were made, all of them and in
/// order, the first as its destination; without any it keeps its own. What the
/// run learned goes before what was known, and no error is left.
pub proof fn finished_downloads_name_their_files(e: DownloadEntry, outcome: Outcome, r: DownloadEntry)
    requires
        e.finishes_as(outcome, r),
    ensures
        outcome.files@.len() > 0 ==> seq![r.dest] + r.extra_files@ == outcome.files@,
        outcome.files@.len() == 0 ==> r.dest == e.dest && r.extra_files@.len() == 0,
        r.status == DownloadStatus::Finished,
        r.error is None,
        r.id == e.id,
        outcome.meta.title is Some ==> r.title == outcome.meta.title,
        outcome.meta.title is None ==> r.title == e.title,
        outcome.meta.author is Some ==> r.author == outcome.meta.author,
        outcome.meta.author is None ==> r.author == e.author,
        outcome.meta.media_class is Some ==> r.media_class == outcome.meta.media_class,
        outcome.meta.media_class is None ==> r.media_class == e.media_class,
{
    if outcome.files@.len() > 0 {
        assert(seq![outcome.files@[0]] + outcome.files@.skip(1) =~= outcome.files@);
    }
}

proof fn lemma_files_kept(files: Seq<Seq<char>>, i: int)
    requires
        0 <= i < files.len(),
    ensures
        entry::files_artifacts(files).contains(ArtifactView::File(files[i])),
        entry::files_artifacts(files).contains(ArtifactView::Folder(naming::cache_dir(files[i]))),
    decreases files.len(),
{
    let all = entry::files_artifacts(files);
    let front = entry::files_artifacts(files.drop_last());
    let n = front.len() as int;
    if i == files.len() - 1 {
        assert(all[n] == ArtifactView::File(files[i]));
        assert(all[n + 1] == ArtifactView::Folder(naming::cache_dir(files[i])));
    } else {
        lemma_files_kept(files.drop_last(), i);
        let a = choose|a: int| 0 <= a < front.len() && front[a] == ArtifactView::File(files[i]);
        assert(all[a] == front[a]);
        let b = choose|b: int|
            0 <= b < front.len() && front[b] == ArtifactView::Folder(naming::cache_dir(files[i]));
        assert(all[b] == front[b]);
    }
}

/// A download owns its destination and its other files, each with its cache.
pub proof fn downloads_own_their_files(
    out_dir: Option<Seq<char>>,
    dest: Seq<char>,
    extra: Seq<Seq<char>>,
    i: int,
)
    requires
        0 <= i < extra.len(),
    ensures
        entry::artifacts(out_dir, dest, extra).contains(ArtifactView::File(dest)),
        entry::artifacts(out_dir, dest, extra).contains(
            ArtifactView::Folder(naming::cache_dir(dest)),
        ),
        entry::artifacts(out_dir, dest, extra).contains(ArtifactView::File(extra[i])),
        entry::artifacts(out_dir, dest, extra).contains(
            ArtifactView::Folder(naming::cache_dir(extra[i])),
        ),
{
    let all = entry::artifacts(out_dir, dest, extra);
    let more = entry::files_artifacts(extra);
    lemma_files_kept(extra, i);
    let n = all.len() - more.len();
    assert(all[n - 2] == ArtifactView::File(dest));
    assert(all[n - 1] == ArtifactView::Folder(naming::cache_dir(dest)));
    let a = choose|a: int| 0 <= a < more.len() && more[a] == ArtifactView::File(extra[i]);
    assert(all[n + a] == more[a]);
    let b = choose|b: int|
        0 <= b < more.len() && more[b] == ArtifactView::Folder(naming::cache_dir(extra[i]));
    assert(all[n + b] == more[b]);
}

/// A name that was given goes before one that is made up.
pub proof fn given_names_win(
    hint: Seq<char>,
    title: Option<Seq<char>>,
    url: Seq<char>,
    ext: Option<Seq<char>>,
)
    ensures
        hint.len() > 0 ==> queueing::queue_name(Some(hint), title, url, ext) == hint,
        hint.len() == 0 ==> queueing::queue_name(Some(hint), title, url, ext)
            == queueing::queue_name(None, title, url, ext),
{
}

/// What is wished for beside a video is passed on: subtitles in their language,
/// a thumbnail, chapters, and nothing that was not wished for.
pub proof fn wishes_are_passed_on(subs: Seq<char>, thumbnail: bool, chapters: bool)
    requires
        text::trim(subs).len() > 0,
    ensures
        queueing::video_extras(Some(subs), thumbnail, chapters).contains(("subs"@, subs)),
        thumbnail ==> queueing::video_extras(Some(subs), thumbnail, chapters).contains(
            ("thumbnail"@, "1"@),
        ),
        chapters ==> queueing::video_extras(Some(subs), thumbnail, chapters).contains(
            ("chapters"@, "1"@),
        ),
        queueing::video_extras(Some(subs), thumbnail, chapters).len() == 1 + (if thumbnail {
            1nat
        } else {
            0
        }) + (if chapters {
            1nat
        } else {
            0
        }),
        queueing::video_extras(None, false, false).len() == 0,
{
    let all = queueing::video_extras(Some(subs), thumbnail, chapters);
    assert(all[0] == ("subs"@, subs));
    if thumbnail {
        assert(all[1] == ("thumbnail"@, "1"@));
    }
    if chapters {
        assert(all[all.len() - 1] == ("chapters"@, "1"@));
    }
}

/// What a name is joined to is its parent.
pub proof fn joined_names_are_below_their_folder(parent: Seq<char>, name: Seq<char>)
    requires
        paths::plain_name(name),
        parent.len() > 0,
        paths::trimmed_path(parent) == parent,
    ensures
        paths::parent(paths::join(parent, name)) == Some(parent),
{
    reveal_strlit("/");
    reveal_strlit(".");
    assert("/"@[0] == '/' && "/"@.len() == 1);
    let s = parent + "/"@ + name;
    assert(parent.last() != '/') by {
        if parent.last() == '/' {
            lemma_trimmed_shorter(parent.drop_last());
        }
    }
    assert(name.contains(name[0]));
    assert(paths::join(parent, name) == s);
    assert(s.last() == name.last());
    assert(name.contains(name.last()));
    if name.len() == 1 && name.last() == '.' {
        assert(name =~= "."@);
    }
    if name.len() > 1 {
        assert(s[s.len() - 2] == name[name.len() - 2]);
        assert(name.contains(name[name.len() - 2]));
    }
    assert(paths::trimmed_path(s) == s);
    text::lemma_last_of(s, "/"@, s.len() as int);
    let p = text::last_of(s, "/"@, s.len() as int);
    let n = parent.len() as int;
    assert("/"@.contains(s[n]));
    if p > n {
        assert(s[p] == name[p - n - 1]);
        assert(name.contains(name[p - n - 1]));
    }
    assert(s.skip(n + 1) =~= name);
    let before = s.take(s.len() - name.len());
    assert(before =~= parent.push('/'));
    assert(before.drop_last() =~= parent);
}

proof fn lemma_trimmed_shorter(s: Seq<char>)
    ensures
        paths::trimmed_path(s).len() <= s.len(),
    decreases s.len(),
{
    if s.len() > 0 {
        lemma_trimmed_shorter(s.drop_last());
    }
}

/// Files of a download go to its folder, or else beside its destination.
pub proof fn folders_go_before_destinations(dir: Seq<char>, parent: Seq<char>, name: Seq<char>)
    requires
        paths::plain_name(name),
        parent.len() > 0,
        paths::trimmed_path(parent) == parent,
    ensures
        entry::dir_of(Some(dir), paths::join(parent, name)) == dir,
        entry::dir_of(None, paths::join(parent, name)) == parent,
{
    joined_names_are_below_their_folder(parent, name);
}

// ---------------------------------------------------------------------------
// Rows
// ---------------------------------------------------------------------------

/// The items of an account that are more than a visit to its page.
pub open spec fn is_content(c: CaughtView) -> bool {
    c.kind != "profile"@
}

proof fn lemma_content(s: Seq<CaughtView>)
    ensures
        listing::content_count(s) == s.filter(|c: CaughtView| is_content(c)).len(),
    decreases s.len(),
{
    reveal(Seq::filter);
    if s.len() > 0 {
        lemma_content(s.drop_last());
    }
}

/// Whether a row shows an account.
pub open spec fn shows_account(row: (i64, listing::ProfileView), a: AccountView) -> bool {
    &&& row.0 == a.last_seen
    &&& row.1.last_seen == a.last_seen
    &&& row.1.username == a.username
    &&& row.1.avatar == a.avatar_url
    &&& row.1.caught_count == a.caught.filter(|c: CaughtView| is_content(c)).len()
}

proof fn lemma_profile_row(a: AccountView)
    ensures
        shows_account((a.last_seen, listing::profile_of(a)), a),
{
    lemma_content(a.caught);
}

/// Every account has a row, with its name, its picture and the number of its
/// posts; what is not resolved has none.
pub proof fn accounts_are_listed(lib: Seq<(Seq<char>, AccountView)>, k: int)
    requires
        0 <= k < lib.len(),
        lib[k].0 != UNRESOLVED@,
    ensures
        exists|i: int|
            0 <= i < listing::profiles_in(lib).len() && shows_account(
                #[trigger] listing::profiles_in(lib)[i],
                lib[k].1,
            ),
    decreases lib.len(),
{
    let all = listing::profiles_in(lib);
    let front = listing::profiles_in(lib.drop_last());
    if k == lib.len() - 1 {
        lemma_profile_row(lib[k].1);
        assert(shows_account(all[front.len() as int], lib[k].1));
    } else {
        accounts_are_listed(lib.drop_last(), k);
        let i = choose|i: int|
            0 <= i < front.len() && shows_account(#[trigger] front[i], lib[k].1);
        assert(all[i] == front[i]);
    }
}

/// No row stands for what is not resolved: each shows an account.
pub proof fn only_accounts_are_listed(lib: Seq<(Seq<char>, AccountView)>, i: int)
    requires
        0 <= i < listing::profiles_in(lib).len(),
    ensures
        exists|k: int|
            0 <= k < lib.len() && lib[k].0 != UNRESOLVED@ && shows_account(
                listing::profiles_in(lib)[i],
                (#[trigger] lib[k]).1,
            ),
    decreases lib.len(),
{
    let all = listing::profiles_in(lib);
    let front = listing::profiles_in(lib.drop_last());
    if i < front.len() {
        only_accounts_are_listed(lib.drop_last(), i);
        let k = choose|k: int|
            0 <= k < lib.len() - 1 && lib.drop_last()[k].0 != UNRESOLVED@ && shows_account(
                front[i],
                (#[trigger] lib.drop_last()[k]).1,
            );
        assert(lib[k] == lib.drop_last()[k]);
        assert(all[i] == front[i]);
    } else {
        lemma_profile_row(lib.last().1);
        assert(shows_account(all[i], lib[lib.len() - 1].1));
    }
}

/// Whether a row shows a channel: under its name, or else its key.
pub open spec fn shows_channel(row: (i64, listing::ChannelRowView), c: ChannelView) -> bool {
    &&& row.0 == c.last_seen
    &&& row.1.last_seen == c.last_seen
    &&& row.1.key == c.key
    &&& c.name.len() > 0 ==> row.1.name == c.name
    &&& c.name.len() == 0 ==> row.1.name == c.key
    &&& row.1.site == c.site
    &&& row.1.avatar == c.avatar_url
    &&& row.1.channel_url == c.channel_url
    &&& row.1.caught_count == c.caught.len()
}

/// Every channel has a row, and every row shows a channel; what is not resolved
/// has none.
pub proof fn channels_are_listed(lib: Seq<(Seq<char>, ChannelView)>, k: int)
    requires
        0 <= k < lib.len(),
        lib[k].0 != UNRESOLVED@,
    ensures
        exists|i: int|
            0 <= i < listing::channels_in(lib).len() && shows_channel(
                #[trigger] listing::channels_in(lib)[i],
                lib[k].1,
            ),
        listing::channels_in(lib).len() == listing::known_keys(lib),
    decreases lib.len(),
{
    lemma_channel_count(lib);
    let all = listing::channels_in(lib);
    let front = listing::channels_in(lib.drop_last());
    if k == lib.len() - 1 {
        assert(shows_channel(all[front.len() as int], lib[k].1));
    } else {
        channels_are_listed(lib.drop_last(), k);
        let i = choose|i: int|
            0 <= i < front.len() && shows_channel(#[trigger] front[i], lib[k].1);
        assert(all[i] == front[i]);
    }
}

proof fn lemma_channel_count(lib: Seq<(Seq<char>, ChannelView)>)
    ensures
        listing::channels_in(lib).len() == listing::known_keys(lib),
    decreases lib.len(),
{
    if lib.len() > 0 {
        lemma_channel_count(lib.drop_last());
    }
}

/// The number of known accounts or channels is the number of keys but the one
/// of what is not resolved.
pub proof fn known_keys_are_counted<V>(s: Seq<(Seq<char>, V)>)
    ensures
        listing::known_keys(s) == s.filter(|p: (Seq<char>, V)| p.0 != UNRESOLVED@).len(),
    decreases s.len(),
{
    reveal(Seq::filter);
    if s.len() > 0 {
        known_keys_are_counted(s.drop_last());
    }
}

// ---------------------------------------------------------------------------
// The native host
// ---------------------------------------------------------------------------

/// The description of the native host names its program, and allows the
/// extensions that are known and no others.
pub proof fn known_extensions_are_allowed(
    path: Seq<char>,
    chrome: Option<Seq<char>>,
    firefox: Option<Seq<char>>,
)
    ensures
        ({
            let m = JsonView::Object(native_host::manifest_members(path, chrome, firefox));
            &&& m.text_at("path"@) == Some(path)
            &&& m.text_at("type"@) == Some("stdio"@)
            &&& m.get("allowed_origins"@) is Some == (chrome is Some)
            &&& chrome is Some ==> m.get("allowed_origins"@) == Some(
                JsonView::List(
                    seq![JsonView::Text("chrome-extension://"@ + chrome->0 + "/"@)],
                ),
            )
            &&& m.get("allowed_extensions"@) is Some == (firefox is Some)
            &&& firefox is Some ==> m.get("allowed_extensions"@) == Some(
                JsonView::List(seq![JsonView::Text(firefox->0)]),
            )
        }),
{
    reveal_strlit("allowed_extensions");
    reveal_strlit("allowed_origins");
    reveal_strlit("description");
    reveal_strlit("name");
    reveal_strlit("path");
    reveal_strlit("type");
    assert("allowed_extensions"@.len() == 18 && "allowed_origins"@.len() == 15 && "description"@.len()
        == 11 && "name"@[0] == 'n' && "path"@[0] == 'p' && "type"@[0] == 't' && "name"@.len() == 4
        && "path"@.len() == 4 && "type"@.len() == 4);
    reveal_with_fuel(json::member_from, 8);
    let m = native_host::manifest_members(path, chrome, firefox);
    let n = m.len() as int;
    assert(m[n - 1].0 == "type"@ && m[n - 2].0 == "path"@ && m[n - 3].0 == "name"@ && m[n - 4].0
        == "description"@);
    if firefox is Some {
        assert(m[0].0 == "allowed_extensions"@);
        if chrome is Some {
            assert(m[1].0 == "allowed_origins"@);
        }
    } else if chrome is Some {
        assert(m[0].0 == "allowed_origins"@);
    }
}

} // verus!

//! Laws of streams: which variant is downloaded, and how its parts are put together.

use vstd::prelude::*;

use crate::dash;
use crate::dash::RepresentationView;
use crate::hls;
use crate::hls::{PlaylistView, SegmentView};
use crate::jobs;
use crate::jobs::{DownloadKind, PlaylistKind};
use crate::mux;
use crate::net;
use crate::net::{JobEvent, TrackerView};
use crate::number;
use crate::paths;
use crate::progressive;
use crate::progressive::Piece;
use crate::quality;
use crate::streams;
use crate::streams::HlsPlanView;
use crate::text;

verus! {

// ---------------------------------------------------------------------------
// Choosing
// ---------------------------------------------------------------------------

/// The bandwidth that the attributes of a variant state; 0 where they state none.
pub open spec fn bandwidth_of(c: hls::ContainerView) -> nat {
    if c.attributes.dom().contains("BANDWIDTH"@) {
        match number::parsed_nat(c.attributes["BANDWIDTH"@], u64::MAX as nat) {
            Some(n) => n,
            None => 0,
        }
    } else {
        0
    }
}

/// Whether a variant of a list is the one that a wish names.
pub open spec fn is_wished(c: hls::ContainerView, wish: Option<Seq<char>>) -> bool {
    wish matches Some(k) && c.attributes.dom().contains("BANDWIDTH"@) && c.attributes["BANDWIDTH"@]
        == k
}

/// Of a master playlist the variant that was wished for is downloaded, and without such a
/// variant one that no other exceeds in bandwidth; with its own audio.
pub proof fn the_right_variant_is_downloaded(
    playlist: Seq<char>,
    url: Seq<char>,
    wish: Option<Seq<char>>,
    sent: Seq<char>,
    v: Seq<hls::ContainerView>,
)
    requires
        text::holds(playlist, "#EXT-X-STREAM-INF"@),
        hls::master_playlist(text::lines(playlist), url) == Ok::<
            Seq<hls::ContainerView>,
            hls::HlsErrorView,
        >(v),
        wish matches Some(k) ==> k.len() > 0,
        forall|i: int| 0 <= i < v.len() ==> (#[trigger] v[i]).video_playlist is Some,
        v.len() > 0,
    ensures
        streams::hls_plan(playlist, url, wish, sent) matches Ok(HlsPlanView::Variant { video, audio })
            && exists|i: int|
            {
                &&& 0 <= i < v.len()
                &&& (#[trigger] v[i]).video_playlist == Some(video)
                &&& v[i].audio_playlist == audio
                &&& (exists|k: int| 0 <= k < v.len() && is_wished(#[trigger] v[k], wish))
                    ==> is_wished(v[i], wish)
                &&& !(exists|k: int| 0 <= k < v.len() && is_wished(#[trigger] v[k], wish))
                    ==> forall|k: int|
                    0 <= k < v.len() ==> bandwidth_of(#[trigger] v[k]) <= bandwidth_of(v[i])
            },
{
    let keys = streams::variant_keys(v);
    let widths = streams::variant_bandwidths(v);
    assert(jobs::playlist_kind_of(playlist) == PlaylistKind::Master);
    if exists|k: int| 0 <= k < v.len() && is_wished(#[trigger] v[k], wish) {
        let k = choose|k: int| 0 <= k < v.len() && is_wished(#[trigger] v[k], wish);
        assert(keys[k] == wish->0);
        quality::wished_keys_are_found(keys, widths, k);
        let i = quality::chosen(keys, widths, wish)->0;
        assert(keys[i] == wish->0);
        assert(is_wished(v[i], wish));
        assert(v[i].video_playlist is Some);
    } else {
        if let Some(k) = wish {
            if keys.contains(k) {
                let n = choose|n: int| 0 <= n < keys.len() && keys[n] == k;
                assert(is_wished(v[n], wish));
            }
        }
        quality::the_largest_is_the_default(keys, widths, wish, 0);
        let i = quality::chosen(keys, widths, wish)->0;
        assert forall|k: int| 0 <= k < v.len() implies bandwidth_of(#[trigger] v[k])
            <= bandwidth_of(v[i]) by {
            quality::the_largest_is_the_default(keys, widths, wish, k);
            assert(widths[k] == bandwidth_of(v[k]));
            assert(widths[i] == bandwidth_of(v[i]));
        }
        assert(v[i].video_playlist is Some);
    }
}

/// The bandwidth of a pairing is that of its video and its audio together.
pub proof fn pairings_add_up(
    video: Option<RepresentationView>,
    audio: Option<RepresentationView>,
    a: int,
    b: int,
)
    requires
        match video {
            Some(v) => a == v.bandwidth,
            None => a == 0,
        },
        match audio {
            Some(v) => b == v.bandwidth,
            None => b == 0,
        },
        i64::MIN <= a + b <= i64::MAX,
    ensures
        quality::pair_bandwidth((video, audio)) == a + b,
{
}

/// The options of a manifest are its pairings, one for each and in their order, each with
/// the key under which it is found again.
pub proof fn options_are_the_pairings(periods: Seq<Seq<dash::PairView>>, i: int)
    requires
        0 <= i < quality::flat_pairs(periods).len(),
    ensures
        ({
            let pairs = quality::flat_pairs(periods);
            let options = quality::all_options(periods);
            &&& options.len() == pairs.len()
            &&& options[i].variant_key == quality::dash_keys(pairs)[i]
            &&& options[i].bandwidth == (if quality::pair_bandwidth(pairs[i]) > 0 {
                quality::pair_bandwidth(pairs[i]) as int
            } else {
                0
            })
            &&& pairs[i].0 matches Some(v) ==> (v.width > 0 && v.height > 0 ==> options[i].resolution
                == Some((v.width as u32, v.height as u32)))
        }),
    decreases periods.len(),
{
    let front = periods.drop_last();
    let n = quality::flat_pairs(front).len() as int;
    lemma_options_len(front);
    lemma_options_len(periods);
    if i < n {
        options_are_the_pairings(front, i);
    } else {
        assert(quality::flat_pairs(periods)[i] == periods.last()[i - n]);
        assert(quality::all_options(periods)[i] == quality::period_options(periods.last())[i - n]);
    }
}

proof fn lemma_options_len(periods: Seq<Seq<dash::PairView>>)
    ensures
        quality::all_options(periods).len() == quality::flat_pairs(periods).len(),
    decreases periods.len(),
{
    if periods.len() > 0 {
        lemma_options_len(periods.drop_last());
    }
}

/// The pairings of all periods are those of each period, none left out.
pub proof fn no_pairing_is_lost(periods: Seq<Seq<dash::PairView>>, p: int, k: int)
    requires
        0 <= p < periods.len(),
        0 <= k < periods[p].len(),
    ensures
        quality::flat_pairs(periods).contains(periods[p][k]),
    decreases periods.len(),
{
    let all = quality::flat_pairs(periods);
    let rest = quality::flat_pairs(periods.drop_last());
    if p < periods.len() - 1 {
        no_pairing_is_lost(periods.drop_last(), p, k);
        let i = choose|i: int| 0 <= i < rest.len() && rest[i] == periods[p][k];
        assert(all[i] == periods[p][k]);
    } else {
        assert(all[rest.len() + k] == periods[p][k]);
    }
}

// ---------------------------------------------------------------------------
// Keys and openings
// ---------------------------------------------------------------------------

/// The key that is fetched for a playlist is that of its first encrypted segment, and no
/// key is fetched where no segment is encrypted.
pub proof fn the_first_key_is_fetched(p: PlaylistView, i: int)
    requires
        0 <= i < p.media_segments.len(),
        p.media_segments[i].key_url is Some,
        forall|k: int| 0 <= k < i ==> (#[trigger] p.media_segments[k]).key_url is None,
    ensures
        streams::key_address(p) == p.media_segments[i].key_url,
{
    lemma_keyed(p.media_segments, 0, i);
}

proof fn lemma_keyed(s: Seq<SegmentView>, from: int, i: int)
    requires
        0 <= from <= i < s.len(),
        s[i].key_url is Some,
        forall|k: int| 0 <= k < i ==> (#[trigger] s[k]).key_url is None,
    ensures
        streams::keyed_from(s, from) == i,
    decreases i - from,
{
    if from < i {
        assert(s[from].key_url is None);
        lemma_keyed(s, from + 1, i);
    }
}

/// Without an encrypted segment no key is fetched.
pub proof fn plain_playlists_need_no_key(p: PlaylistView)
    requires
        forall|k: int|
            0 <= k < p.media_segments.len() ==> (#[trigger] p.media_segments[k]).key_url is None,
    ensures
        streams::key_address(p) is None,
{
    lemma_unkeyed(p.media_segments, 0);
}

proof fn lemma_unkeyed(s: Seq<SegmentView>, from: int)
    requires
        0 <= from <= s.len(),
        forall|k: int| 0 <= k < s.len() ==> (#[trigger] s[k]).key_url is None,
    ensures
        streams::keyed_from(s, from) == s.len(),
    decreases s.len() - from,
{
    if from < s.len() {
        assert(s[from].key_url is None);
        lemma_unkeyed(s, from + 1);
    }
}

/// A preview takes the variant with the lowest stated bandwidth.
pub proof fn previews_take_the_lowest(v: Seq<hls::ContainerView>, i: int)
    requires
        0 <= i < v.len(),
        forall|k: int|
            0 <= k < v.len() && k != i ==> streams::stated_bandwidth(v[i])
                < streams::stated_bandwidth(#[trigger] v[k]),
    ensures
        v[i].video_playlist is Some ==> streams::lowest_playlist(v) == v[i].video_playlist,
        v[i].video_playlist is None ==> streams::lowest_playlist(v) == v[i].audio_playlist,
{
    lemma_least(v, v.len() as int);
    let k = streams::first_least(v, v.len() as int);
    if k != i {
        assert(streams::stated_bandwidth(v[i]) < streams::stated_bandwidth(v[k]));
    }
}

proof fn lemma_least(v: Seq<hls::ContainerView>, n: int)
    requires
        0 < n <= v.len(),
    ensures
        0 <= streams::first_least(v, n) < n,
        forall|k: int|
            0 <= k < n ==> streams::stated_bandwidth(v[streams::first_least(v, n)])
                <= streams::stated_bandwidth(#[trigger] v[k]),
    decreases n,
{
    if n > 1 {
        lemma_least(v, n - 1);
    }
}

/// A preview takes the initialisation segments in front and the first segment behind them.
pub proof fn openings_reach_the_first_segment(s: Seq<SegmentView>, i: int)
    requires
        0 <= i < s.len(),
        !s[i].is_init_segment,
        forall|k: int| 0 <= k < i ==> (#[trigger] s[k]).is_init_segment,
    ensures
        streams::opening_from(s, 0) == i + 1,
{
    lemma_opening(s, 0, i);
}

proof fn lemma_opening(s: Seq<SegmentView>, from: int, i: int)
    requires
        0 <= from <= i < s.len(),
        !s[i].is_init_segment,
        forall|k: int| 0 <= k < i ==> (#[trigger] s[k]).is_init_segment,
    ensures
        streams::opening_from(s, from) == i + 1,
    decreases i - from,
{
    if from < i {
        assert(s[from].is_init_segment);
        lemma_opening(s, from + 1, i);
    }
}

// ---------------------------------------------------------------------------
// Kinds and destinations
// ---------------------------------------------------------------------------

/// The kind of a download goes by the end of the path of its address, whatever query or
/// fragment follows.
pub proof fn kinds_go_by_the_path(path: Seq<char>, rest: Seq<char>)
    requires
        text::free_of(path, "?#"@),
        rest.len() > 0 ==> rest[0] == '?' || rest[0] == '#',
    ensures
        DownloadKind::of_url(path + rest) == DownloadKind::of_url(path),
        DownloadKind::of_url(path) is Hls <==> text::has_suffix(path, ".m3u8"@),
        DownloadKind::of_url(path) is Dash <==> text::has_suffix(path, ".mpd"@),
{
    reveal_strlit("?#");
    reveal_strlit(".m3u8");
    reveal_strlit(".mpd");
    assert("?#"@[0] == '?' && "?#"@[1] == '#');
    text::lemma_first_behind(path, rest, "?#"@);
    text::lemma_first_behind(path, Seq::empty(), "?#"@);
    assert(path + Seq::<char>::empty() =~= path);
    assert((path + rest).take(path.len() as int) =~= path);
    assert(path.take(path.len() as int) =~= path);
    if text::has_suffix(path, ".m3u8"@) && text::has_suffix(path, ".mpd"@) {
        let a = path.skip(path.len() - 5);
        let b = path.skip(path.len() - 4);
        assert(a[4] == path[path.len() - 1]);
        assert(b[3] == path[path.len() - 1]);
        assert(".m3u8"@[4] == '8' && ".mpd"@[3] == 'd');
    }
}

/// What is known of the content decides over what the address suggests.
pub proof fn content_decides_the_kind(guessed: DownloadKind, ext: Option<Seq<char>>)
    ensures
        ext == Some("m3u8"@) ==> jobs::real_kind(guessed, ext) is Hls,
        ext == Some("mpd"@) ==> jobs::real_kind(guessed, ext) is Dash,
        ext != Some("m3u8"@) && ext != Some("mpd"@) ==> jobs::real_kind(guessed, ext) == guessed,
{
    reveal_strlit("m3u8");
    reveal_strlit("mpd");
    assert("m3u8"@.len() == 4 && "mpd"@.len() == 3);
}

/// A stream is never written to a file that is named like a playlist or a manifest, and a
/// plain file is written where it was asked for.
pub proof fn streams_are_not_written_as_manifests(dest: Seq<char>, kind: DownloadKind)
    requires
        paths::file_name(dest) is Some,
    ensures
        kind is Http ==> jobs::dest_for_kind(dest, kind) == dest,
        !(kind is Http) ==> (paths::extension(jobs::dest_for_kind(dest, kind)) matches Some(e)
            && text::lower(e) != "m3u8"@ && text::lower(e) != "mpd"@ && e.len() > 0),
{
    reveal_strlit("mp4");
    reveal_strlit("m3u8");
    reveal_strlit("mpd");
    reveal_strlit(".");
    reveal_strlit("..");
    assert("mp4"@.len() == 3 && "m3u8"@.len() == 4 && "mpd"@.len() == 3);
    assert("mp4"@[2] == '4' && "mpd"@[2] == 'd');
    assert("."@.len() == 1 && ".."@.len() == 2);
    assert(!"mp4"@.contains('/') && !"mp4"@.contains('.'));
    paths::extension_is_replaced(dest, "mp4"@);
    assert(text::lower("mp4"@).len() == 3);
    assert(text::lower("mp4"@)[2] == text::lower_char('4'));
    if let Some(e) = paths::extension(dest) {
        assert(text::lower(e).len() == e.len());
    }
}

// ---------------------------------------------------------------------------
// Putting together
// ---------------------------------------------------------------------------

/// Whether an argument follows another one.
pub open spec fn follows(args: Seq<Seq<char>>, flag: Seq<char>, value: Seq<char>) -> bool {
    exists|i: int| 0 <= i && i + 1 < args.len() && #[trigger] args[i] == flag && args[i + 1] == value
}

/// Whether a run of ffmpeg copies its streams as they are into a file, without asking.
pub open spec fn copies_into(args: Seq<Seq<char>>, output: Seq<char>) -> bool {
    &&& args.len() > 0 && args[0] == "-y"@
    &&& follows(args, "-c"@, "copy"@)
    &&& args.last() == output
}

/// A single stream is copied from its input to its output, with its first picture and, where
/// it has one, its first sound.
pub proof fn single_streams_are_copied(input: Seq<char>, output: Seq<char>)
    ensures
        follows(mux::single_args(input, output), "-i"@, input),
        follows(mux::single_args(input, output), "-map"@, "0:v:0"@),
        follows(mux::single_args(input, output), "-map"@, "0:a:0?"@),
        copies_into(mux::single_args(input, output), output),
        follows(mux::single_fallback_args(input, output), "-i"@, input),
        copies_into(mux::single_fallback_args(input, output), output),
{
    let a = mux::single_args(input, output);
    assert(a[3] == "-i"@ && a[5] == "-map"@ && a[7] == "-map"@ && a[9] == "-c"@);
    let b = mux::single_fallback_args(input, output);
    assert(b[3] == "-i"@ && b[5] == "-c"@);
}

/// A video and an audio stream are copied into one file: the picture of the first input and
/// the sound of the second.
pub proof fn demuxed_streams_are_joined(video: Seq<char>, audio: Seq<char>, output: Seq<char>)
    ensures
        ({
            let a = mux::demuxed_args(video, audio, output);
            let b = mux::demuxed_fallback_args(video, audio, output);
            &&& a[1] == "-i"@ && a[2] == video && a[3] == "-i"@ && a[4] == audio
            &&& b[1] == "-i"@ && b[2] == video && b[3] == "-i"@ && b[4] == audio
            &&& follows(a, "-map"@, "0:v:0"@) && follows(a, "-map"@, "1:a:0"@)
            &&& follows(b, "-map"@, "0:v:0"@) && follows(b, "-map"@, "1:a:0"@)
            &&& copies_into(a, output)
            &&& copies_into(b, output)
        }),
{
    let a = mux::demuxed_args(video, audio, output);
    let b = mux::demuxed_fallback_args(video, audio, output);
    assert(a[5] == "-map"@ && a[7] == "-map"@ && a[9] == "-c"@);
    assert(b[5] == "-map"@ && b[7] == "-map"@ && b[9] == "-c"@);
}

/// Asking for reports changes nothing else of a run.
pub proof fn reports_are_asked_for_behind(args: Seq<Seq<char>>)
    ensures
        mux::reporting(args, false) == args,
        mux::reporting(args, true).len() > args.len(),
        mux::reporting(args, true).take(args.len() as int) == args,
        follows(mux::reporting(args, true), "-progress"@, "pipe:1"@),
{
    let r = mux::reporting(args, true);
    assert(r.take(args.len() as int) =~= args);
    assert(r[args.len() as int] == "-progress"@);
}

/// The time that ffmpeg reports in microseconds is told in milliseconds, rounded down.
pub proof fn reports_are_read(us: nat)
    requires
        us <= i64::MAX,
    ensures
        mux::reported_ms("out_time_us="@ + number::dec(us)) matches Some(ms) && ms * 1000 <= us
            && us < (ms + 1) * 1000,
{
    let front = "out_time_us="@;
    let line = front + number::dec(us);
    number::lemma_dec_digits(us);
    number::written_integer_reads_back(us as int, i64::MIN as int, i64::MAX as int);
    assert(number::dec_int(us as int) == number::dec(us));
    assert(line.take(front.len() as int) =~= front);
    assert(line.skip(front.len() as int) =~= number::dec(us));
    lemma_digits_trim(number::dec(us));
}

proof fn lemma_digits_trim(d: Seq<char>)
    requires
        d.len() > 0,
        number::all_digits(d),
    ensures
        text::trim(d) == d,
{
    assert(text::is_digit(d[0]) && text::is_digit(d[d.len() - 1]));
    assert(!text::is_space(d[0]) && !text::is_space(d[d.len() - 1]));
}

// ---------------------------------------------------------------------------
// Progress
// ---------------------------------------------------------------------------

/// The speed is what came between the first and the last sample, in bytes per second,
/// rounded down.
pub proof fn speeds_are_bytes_per_second(samples: Seq<(u64, u64)>)
    requires
        samples.len() > 0,
        samples.last().0 > samples[0].0,
        samples.last().1 > samples[0].1,
        (samples.last().1 - samples[0].1) * 1_000_000_000 <= u64::MAX,
    ensures
        ({
            let t = samples.last().0 - samples[0].0;
            let b = (samples.last().1 - samples[0].1) * 1_000_000_000;
            let v = net::speed(samples);
            v * t <= b && b < (v + 1) * t
        }),
{
    let t = samples.last().0 - samples[0].0;
    let b = (samples.last().1 - samples[0].1) * 1_000_000_000;
    let v = b / t;
    assert(v * t <= b && b < (v + 1) * t && v <= b) by (nonlinear_arith)
        requires
            t > 0,
            b >= 0,
            v == b / t,
    ;
}

/// Only samples from the window are kept, and the last one always.
pub proof fn old_samples_are_dropped(samples: Seq<(u64, u64)>, now: u64)
    requires
        samples.len() > 0,
    ensures
        ({
            let r = net::recent(samples, now);
            &&& 0 < r.len() <= samples.len()
            &&& r == samples.skip(samples.len() - r.len())
            &&& r.len() > 1 ==> now - r[0].0 <= net::SPEED_WINDOW
            &&& forall|i: int|
                0 <= i < samples.len() - r.len() ==> now - (#[trigger] samples[i]).0
                    > net::SPEED_WINDOW
        }),
    decreases samples.len(),
{
    let r = net::recent(samples, now);
    if samples.len() > 1 && net::elapsed(now, samples[0].0) > net::SPEED_WINDOW {
        let rest = samples.skip(1);
        old_samples_are_dropped(rest, now);
        assert(rest.skip(rest.len() - r.len()) =~= samples.skip(samples.len() - r.len()));
        assert forall|i: int| 0 <= i < samples.len() - r.len() implies now - (
        #[trigger] samples[i]).0 > net::SPEED_WINDOW by {
            if i > 0 {
                assert(rest[i - 1] == samples[i]);
            }
        }
    } else {
        assert(samples.skip(0) =~= samples);
    }
}

/// Events tell the counters as they are after what came, and the totals.
pub proof fn events_tell_the_counters(t: TrackerView, units: u64, bytes: u64, now: u64)
    requires
        t.has_room(units, bytes),
    ensures
        t.recorded(units, bytes, true, now).1 matches Some(
            JobEvent::Progress { downloaded_bytes, total_bytes, done_units, total_units, .. },
        ) && downloaded_bytes == t.downloaded_bytes + bytes && total_bytes == t.total_bytes
            && done_units == t.done_units + units && total_units == t.total_units,
{
}

/// A range of bytes is asked for from its first byte to its last.
pub proof fn ranges_name_their_last_byte(offset: u64, length: u64)
    requires
        length > 0,
    ensures
        net::range_text(offset, length) == "bytes="@ + number::dec(offset as nat) + "-"@
            + number::dec((offset + length - 1) as nat),
{
}

/// Each wait is twice the one before, until the limit is reached.
pub proof fn waits_double(initial_ms: u64, n: nat)
    requires
        2 * net::delay_after(initial_ms, n) <= 10_000,
    ensures
        net::delay_after(initial_ms, 0) == initial_ms,
        net::delay_after(initial_ms, n + 1) == 2 * net::delay_after(initial_ms, n),
{
}

/// What a browser sets for its own connection is not sent again, and everything else is.
pub proof fn what_is_not_sent_again(name: Seq<char>)
    ensures
        net::is_excluded(name) <==> {
            let n = text::lower(name);
            ||| n == "accept-encoding"@
            ||| n == "host"@
            ||| n == "content-length"@
            ||| n == "connection"@
            ||| n == "cookie"@
            ||| n == "sec-fetch-dest"@
            ||| n == "sec-fetch-mode"@
            ||| n == "sec-fetch-site"@
            ||| n == "sec-fetch-user"@
            ||| n == "sec-gpc"@
            ||| n == "origin"@
        },
{
    let all = net::excluded_headers();
    let n = text::lower(name);
    assert(all[0] == "accept-encoding"@ && all[1] == "host"@ && all[2] == "content-length"@);
    assert(all[3] == "connection"@ && all[4] == "cookie"@ && all[5] == "sec-fetch-dest"@);
    assert(all[6] == "sec-fetch-mode"@ && all[7] == "sec-fetch-site"@);
    assert(all[8] == "sec-fetch-user"@ && all[9] == "sec-gpc"@ && all[10] == "origin"@);
    assert(all.len() == 11);
}

// ---------------------------------------------------------------------------
// Choosing tracks
// ---------------------------------------------------------------------------

/// The bandwidth of a pair of tracks: that of the video and that of the audio
/// together.
pub open spec fn bandwidth_of_pair(p: dash::PairView) -> int {
    (match p.0 {
        Some(v) => v.bandwidth as int,
        None => 0,
    }) + (match p.1 {
        Some(a) => a.bandwidth as int,
        None => 0,
    })
}

/// Whether the bandwidths of a pair are of the usual size.
pub open spec fn is_moderate(p: dash::PairView) -> bool {
    &&& p.0 matches Some(v) ==> 0 <= v.bandwidth < 0x1_0000_0000
    &&& p.1 matches Some(a) ==> 0 <= a.bandwidth < 0x1_0000_0000
}

proof fn lemma_pair_bandwidth(p: dash::PairView)
    requires
        is_moderate(p),
    ensures
        quality::pair_bandwidth(p) == bandwidth_of_pair(p),
{
}

/// Of a manifest a pair of tracks is downloaded that it offers: one with the
/// key that was wished for where there is one, and else one that no other
/// exceeds in bandwidth.
pub proof fn the_right_tracks_are_downloaded(
    manifest: Seq<char>,
    url: Seq<char>,
    wish: Option<Seq<char>>,
    periods: Seq<Seq<dash::PairView>>,
    p: int,
    k: int,
)
    requires
        dash::manifest(manifest, url) == Ok::<Seq<Seq<dash::PairView>>, dash::DashErrorView>(
            periods,
        ),
        0 <= p < periods.len(),
        0 <= k < periods[p].len(),
        forall|i: int|
            0 <= i < quality::flat_pairs(periods).len() ==> is_moderate(
                #[trigger] quality::flat_pairs(periods)[i],
            ) && (quality::flat_pairs(periods)[i].0 is Some || quality::flat_pairs(
                periods,
            )[i].1 is Some),
    ensures
        streams::dash_plan(manifest, url, wish) matches Ok(pair) && quality::flat_pairs(
            periods,
        ).contains(pair) && (wish == Some(quality::dash_key(periods[p][k])) ==> quality::dash_key(
            pair,
        ) == quality::dash_key(periods[p][k])) && (wish is None ==> bandwidth_of_pair(periods[p][k])
            <= bandwidth_of_pair(pair)),
{
    no_pairing_is_lost(periods, p, k);
    let pairs = quality::flat_pairs(periods);
    let keys = quality::dash_keys(pairs);
    let widths = quality::dash_bandwidths(pairs);
    let n = choose|n: int| 0 <= n < pairs.len() && pairs[n] == periods[p][k];
    assert(keys[n] == quality::dash_key(pairs[n]));
    let known = wish matches Some(w) && keys.contains(w);
    if known {
        let m = choose|m: int| 0 <= m < keys.len() && keys[m] == wish->0;
        quality::wished_keys_are_found(keys, widths, m);
    } else {
        quality::the_largest_is_the_default(keys, widths, wish, n);
    }
    let i = quality::chosen(keys, widths, wish)->0;
    assert(0 <= i < pairs.len());
    assert(is_moderate(pairs[i]));
    assert(pairs.contains(pairs[i]));
    if wish == Some(keys[n]) {
        assert(keys.contains(keys[n]));
        assert(keys[i] == wish->0);
        assert(keys[i] == quality::dash_key(pairs[i]));
    }
    if wish is None {
        assert(is_moderate(pairs[n]));
        lemma_pair_bandwidth(pairs[n]);
        lemma_pair_bandwidth(pairs[i]);
        assert(widths[n] == quality::pair_bandwidth(pairs[n]) as int);
        assert(widths[i] == quality::pair_bandwidth(pairs[i]) as int);
    }
}

/// A text that lists no variants is itself the playlist whose segments are
/// taken for a picture.
pub proof fn media_playlists_are_taken_as_they_are(playlist: Seq<char>, url: Seq<char>)
    requires
        !text::holds(playlist, "#EXT-X-STREAM-INF"@),
    ensures
        streams::next_playlist(playlist, url) == Some(None::<Seq<char>>),
{
}

/// What was put together keeps the destination where it is of its kind, and is
/// a Matroska file of the same name else.
pub proof fn joined_files_keep_their_name(produced: Seq<char>, dest: Seq<char>)
    requires
        paths::file_name(dest) is Some,
    ensures
        paths::extension(produced) == paths::extension(dest) ==> jobs::mux_destination(
            produced,
            dest,
        ) == dest,
        paths::extension(produced) != paths::extension(dest) ==> paths::extension(
            jobs::mux_destination(produced, dest),
        ) == Some("mkv"@),
        paths::file_stem(jobs::mux_destination(produced, dest)) == paths::file_stem(dest),
{
    reveal_strlit("mkv");
    reveal_strlit(".");
    reveal_strlit("..");
    let m = "mkv"@;
    assert(m.len() == 3 && m[0] == 'm' && m[1] == 'k' && m[2] == 'v');
    assert(!m.contains('/') && !m.contains('.'));
    assert(m != "."@ && m != ".."@) by {
        assert("."@.len() == 1 && ".."@.len() == 2);
    }
    paths::extension_is_replaced(dest, m);
}

/// A single point of progress tells what is there, and the total where it is
/// known.
pub proof fn points_tell_what_is_there(done: u64, total: u64)
    ensures
        net::progress_point(done, total) matches JobEvent::Progress {
            downloaded_bytes,
            total_bytes,
            ..
        } && downloaded_bytes == done && (total > 0 ==> total_bytes == Some(total)) && (total == 0
            ==> total_bytes is None),
{
}

// ---------------------------------------------------------------------------
// Pieces
// ---------------------------------------------------------------------------

/// A file is divided evenly: into as many pieces as were asked for where it is
/// long enough, all of one length but the last, which takes the rest.
pub proof fn pieces_are_even(total: u64, count: u64, i: int)
    requires
        count > 0,
        total >= count,
        0 <= i < count,
    ensures
        progressive::pieces_of(total as nat, count as nat).len() == count,
        i < count - 1 ==> progressive::pieces_of(total as nat, count as nat)[i].length == total
            / count,
        i == count - 1 ==> progressive::pieces_of(total as nat, count as nat)[i].length == total
            / count + total % count,
{
    let t = total as int;
    let c = count as int;
    let base = t / c;
    assert(base >= 1 && t == base * c + t % c && (c - 1) * base == base * c - base) by (nonlinear_arith)
        requires
            base == t / c,
            t >= c,
            c > 0,
    ;
    assert(base <= t) by (nonlinear_arith)
        requires
            t == base * c + t % c,
            c >= 1,
            base >= 1,
            t % c >= 0,
    ;
    assert(t % c >= 0 && t % c < c) by (nonlinear_arith)
        requires
            c > 0,
    ;
    let p = progressive::pieces_of(total as nat, count as nat);
    assert(p[i].length == if i == c - 1 {
        (t - (c - 1) * base) as u64
    } else {
        base as u64
    });
}

/// Nothing is unfinished exactly where every piece has all its bytes, and what
/// was written is what the pieces have together.
pub proof fn unfinished_pieces_are_counted(p: Seq<Piece>, q: Piece)
    ensures
        progressive::unfinished_count(p) == 0 <==> forall|i: int|
            0 <= i < p.len() ==> (#[trigger] p[i]).downloaded >= p[i].length,
        progressive::unfinished_count(p.push(q)) == progressive::unfinished_count(p) + (
        if q.downloaded >= q.length {
            0nat
        } else {
            1nat
        }),
        progressive::written_bytes(p.push(q)) == progressive::written_bytes(p) + q.downloaded,
        progressive::written_bytes(Seq::empty()) == 0,
    decreases p.len(),
{
    assert(p.push(q).drop_last() =~= p);
    if p.len() > 0 {
        let front = p.drop_last();
        unfinished_pieces_are_counted(front, q);
        assert(p[p.len() - 1] == p.last());
        if progressive::unfinished_count(p) == 0 {
            assert forall|i: int| 0 <= i < p.len() implies (#[trigger] p[i]).downloaded
                >= p[i].length by {
                if i < front.len() {
                    assert(front[i] == p[i]);
                }
            }
        }
        if forall|i: int| 0 <= i < p.len() ==> (#[trigger] p[i]).downloaded >= p[i].length {
            assert forall|i: int| 0 <= i < front.len() implies (#[trigger] front[i]).downloaded
                >= front[i].length by {
                assert(front[i] == p[i]);
            }
        }
    }
}

/// A file is divided only where the server serves ranges and says how long it
/// is.
pub proof fn files_are_divided_where_they_can_be(ranges: bool, length: Option<u64>)
    ensures
        progressive::divisible(ranges, length) ==> ranges && length is Some && length->0 > 0,
        ranges && length is Some && length->0 > 0 ==> progressive::divisible(ranges, length),
{
}

/// The first report goes out at once, one that is forced always does, and
/// others once the interval is over.
pub proof fn reports_go_out_in_time(t: TrackerView, units: u64, bytes: u64, now: u64)
    ensures
        t.recorded(units, bytes, true, now).1 is Some,
        t.last_emit is None ==> t.recorded(units, bytes, false, now).1 is Some,
        t.last_emit matches Some(last) && last <= now && now - last >= t.emit_interval
            ==> t.recorded(units, bytes, false, now).1 is Some,
        t.last_emit matches Some(last) && last <= now && now - last < t.emit_interval
            ==> t.recorded(units, bytes, false, now).1 is None,
{
}

} // verus!

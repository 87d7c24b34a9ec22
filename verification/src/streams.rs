//! How a segmented stream is downloaded: which playlists and tracks are fetched, where
//! their parts go, and what is taken out of a segment.

use vstd::prelude::*;

use crate::crypto;
use crate::crypto::{DecryptError, decrypt_segment};
use crate::dash;
use crate::dash::{DashErrorView, DashParseError, PeriodPairings, Representation};
use crate::disguise;
use crate::disguise::extract_ts_payload;
use crate::hls;
use crate::hls::{
    HlsErrorView, HlsMediaSegment, HlsParseError, HlsPlaylist, HlsPlaylistContainer, PlaylistView,
    SegmentView, parse_master_playlist, parse_media_playlist,
};
use crate::jobs;
use crate::jobs::{PlaylistKind, playlist_kind};
use crate::net;
use crate::net::{RequestOptions, describe_sent_headers};
use crate::number;
use crate::number::{dec_u64, pad_zeros, parse_u64};
use crate::paths;
use crate::paths::{change_extension, join_path};
use crate::quality;
use crate::quality::{choose_dash, choose_hls, flatten_periods};
use crate::text;
use crate::text::{
    as_strs, cat2, chars_of, contains, copy_opt, split_lines, str_eq, string_of, take_chars,
};
use crate::xml;

verus! {

// ---------------------------------------------------------------------------
// What is fetched
// ---------------------------------------------------------------------------

/// What is fetched for an HLS stream.
#[derive(Debug)]
pub enum HlsPlan {
    /// The playlists of a variant.
    Variant { video: String, audio: Option<String> },
    /// The segments of a playlist.
    Segments(HlsPlaylist),
}

/// The model of [`HlsPlan`].
pub enum HlsPlanView {
    Variant { video: Seq<char>, audio: Option<Seq<char>> },
    Segments(PlaylistView),
}

/// Why an HLS stream cannot be fetched.
#[derive(Debug)]
pub enum StreamError {
    Hls(HlsParseError),
    /// A master playlist has no variants.
    NoVariants,
    /// The variant has no video playlist.
    NoVideo,
    /// The text is no playlist; with the headers that were sent and how the text begins.
    NotAPlaylist { headers: String, begin: String },
}

/// The model of [`StreamError`].
pub enum StreamErrorView {
    Hls(HlsErrorView),
    NoVariants,
    NoVideo,
    NotAPlaylist { headers: Seq<char>, begin: Seq<char> },
}

/// The keys of variants.
pub open spec fn variant_keys(v: Seq<hls::ContainerView>) -> Seq<Seq<char>> {
    v.map_values(|c: hls::ContainerView| quality::hls_key(c.attributes))
}

/// The bandwidths of variants.
pub open spec fn variant_bandwidths(v: Seq<hls::ContainerView>) -> Seq<int> {
    v.map_values(|c: hls::ContainerView| quality::hls_bandwidth(c.attributes) as int)
}

/// What is fetched for the playlist with the given text.
pub open spec fn hls_plan(
    playlist: Seq<char>,
    url: Seq<char>,
    wish: Option<Seq<char>>,
    sent: Seq<char>,
) -> Result<HlsPlanView, StreamErrorView> {
    match jobs::playlist_kind_of(playlist) {
        PlaylistKind::Master => match hls::master_playlist(text::lines(playlist), url) {
            Err(e) => Err(StreamErrorView::Hls(e)),
            Ok(v) => match quality::chosen(variant_keys(v), variant_bandwidths(v), wish) {
                None => Err(StreamErrorView::NoVariants),
                Some(i) => match v[i].video_playlist {
                    None => Err(StreamErrorView::NoVideo),
                    Some(video) => Ok(
                        HlsPlanView::Variant { video, audio: v[i].audio_playlist },
                    ),
                },
            },
        },
        PlaylistKind::Media => match hls::media_playlist(text::lines(playlist), url) {
            Err(e) => Err(StreamErrorView::Hls(e)),
            Ok(p) => Ok(HlsPlanView::Segments(p)),
        },
        PlaylistKind::Other => Err(
            StreamErrorView::NotAPlaylist {
                headers: sent,
                begin: text::first_chars(playlist, 200),
            },
        ),
    }
}

/// The model of a plan.
pub open spec fn hls_plan_view(r: Result<HlsPlan, StreamError>) -> Result<
    HlsPlanView,
    StreamErrorView,
> {
    match r {
        Ok(HlsPlan::Variant { video, audio }) => Ok(
            HlsPlanView::Variant { video: video@, audio: text::opt(audio) },
        ),
        Ok(HlsPlan::Segments(p)) => Ok(HlsPlanView::Segments(p@)),
        Err(StreamError::Hls(e)) => Err(StreamErrorView::Hls(e@)),
        Err(StreamError::NoVariants) => Err(StreamErrorView::NoVariants),
        Err(StreamError::NoVideo) => Err(StreamErrorView::NoVideo),
        Err(StreamError::NotAPlaylist { headers, begin }) => Err(
            StreamErrorView::NotAPlaylist { headers: headers@, begin: begin@ },
        ),
    }
}

/// Reads a master playlist from its text.
pub fn read_master(playlist: &str, url: &str) -> (r: Result<
    Vec<HlsPlaylistContainer>,
    HlsParseError,
>)
    ensures
        hls::master_result(r) == hls::master_playlist(text::lines(playlist@), url@),
{
    let lines = split_lines(chars_of(playlist).as_slice());
    let strs = as_strs(&lines);
    assert(hls::line_texts(strs@) =~= text::texts(lines@));
    parse_master_playlist(strs.as_slice(), url)
}

/// Reads a media playlist from its text.
pub fn read_media(playlist: &str, url: &str) -> (r: Result<HlsPlaylist, HlsParseError>)
    ensures
        hls::playlist_result(r) == hls::media_playlist(text::lines(playlist@), url@),
{
    let lines = split_lines(chars_of(playlist).as_slice());
    let strs = as_strs(&lines);
    assert(hls::line_texts(strs@) =~= text::texts(lines@));
    parse_media_playlist(strs.as_slice(), url)
}

/// Settles what is fetched for the playlist whose text came from `url` in answer to the
/// request.
pub fn plan_hls(
    playlist: &str,
    url: &str,
    quality: Option<&str>,
    request: &RequestOptions,
) -> (r: Result<HlsPlan, StreamError>)
    ensures
        hls_plan_view(r) == hls_plan(
            playlist@,
            url@,
            text::opt_str(quality),
            net::sent_headers_text(
                net::pairs_view(request.headers.list()),
                request.cookies is Some,
            ),
        ),
{
    match playlist_kind(playlist) {
        PlaylistKind::Master => match read_master(playlist, url) {
            Err(e) => Err(StreamError::Hls(e)),
            Ok(v) => {
                let ghost views = hls::container_views(v@);
                assert(variant_keys(views) =~= quality::hls_keys(v@));
                assert(variant_bandwidths(views) =~= quality::hls_bandwidths(v@));
                match choose_hls(&v, quality) {
                    None => Err(StreamError::NoVariants),
                    Some(i) => {
                        assert(views[i as int] == v@[i as int]@);
                        match &v[i].video_playlist {
                            None => Err(StreamError::NoVideo),
                            Some(video) => Ok(
                                HlsPlan::Variant {
                                    video: video.clone(),
                                    audio: copy_opt(&v[i].audio_playlist),
                                },
                            ),
                        }
                    },
                }
            },
        },
        PlaylistKind::Media => match read_media(playlist, url) {
            Err(e) => Err(StreamError::Hls(e)),
            Ok(p) => Ok(HlsPlan::Segments(p)),
        },
        PlaylistKind::Other => {
            let cs = chars_of(playlist);
            Err(
                StreamError::NotAPlaylist {
                    headers: describe_sent_headers(request),
                    begin: string_of(take_chars(cs.as_slice(), 200)),
                },
            )
        },
    }
}

/// Why a DASH stream cannot be fetched.
#[derive(Debug)]
pub enum DashPlanError {
    Dash(DashParseError),
    /// The manifest pairs nothing.
    NoPairing,
    /// The pairing has neither video nor audio.
    EmptyPairing,
}

/// The model of [`DashPlanError`].
pub enum DashPlanErrorView {
    Dash(DashErrorView),
    NoPairing,
    EmptyPairing,
}

/// The tracks that are fetched for a manifest.
pub open spec fn dash_plan(manifest: Seq<char>, url: Seq<char>, wish: Option<Seq<char>>) -> Result<
    dash::PairView,
    DashPlanErrorView,
> {
    match dash::manifest(manifest, url) {
        Err(e) => Err(DashPlanErrorView::Dash(e)),
        Ok(periods) => {
            let pairs = quality::flat_pairs(periods);
            match quality::chosen(
                quality::dash_keys(pairs),
                quality::dash_bandwidths(pairs),
                wish,
            ) {
                None => Err(DashPlanErrorView::NoPairing),
                Some(i) => if pairs[i].0 is None && pairs[i].1 is None {
                    Err(DashPlanErrorView::EmptyPairing)
                } else {
                    Ok(pairs[i])
                },
            }
        },
    }
}

/// The model of a plan.
pub open spec fn dash_plan_view(
    r: Result<(Option<Representation>, Option<Representation>), DashPlanError>,
) -> Result<dash::PairView, DashPlanErrorView> {
    match r {
        Ok(p) => Ok(dash::pair_view(p)),
        Err(DashPlanError::Dash(e)) => Err(DashPlanErrorView::Dash(e@)),
        Err(DashPlanError::NoPairing) => Err(DashPlanErrorView::NoPairing),
        Err(DashPlanError::EmptyPairing) => Err(DashPlanErrorView::EmptyPairing),
    }
}

/// Settles which tracks are fetched for the manifest whose text came from `url`.
pub fn plan_dash(manifest: &str, url: &str, quality: Option<&str>) -> (r: Result<
    (Option<Representation>, Option<Representation>),
    DashPlanError,
>)
    requires
        xml::nesting(manifest@) <= xml::MAX_DEPTH,
    ensures
        dash_plan_view(r) == dash_plan(manifest@, url@, text::opt_str(quality)),
{
    match dash::parse(manifest, url) {
        Err(e) => Err(DashPlanError::Dash(e)),
        Ok(periods) => {
            let mut pairs: PeriodPairings = flatten_periods(periods);
            match choose_dash(&pairs, quality) {
                None => Err(DashPlanError::NoPairing),
                Some(i) => {
                    let ghost views = dash::pair_views(pairs@);
                    assert(views[i as int] == dash::pair_view(pairs@[i as int]));
                    let pair = pairs.swap_remove(i);
                    if pair.0.is_none() && pair.1.is_none() {
                        Err(DashPlanError::EmptyPairing)
                    } else {
                        Ok(pair)
                    }
                },
            }
        },
    }
}

// ---------------------------------------------------------------------------
// Where the parts go
// ---------------------------------------------------------------------------

/// Where a track goes.
#[derive(Debug)]
pub struct TrackFiles {
    /// The assembled track.
    pub file: String,
    /// The directory of its segments.
    pub segments: String,
}

/// Whether a track goes to the files of these names in a directory.
pub open spec fn track_in(
    t: TrackFiles,
    dir: Seq<char>,
    file: Seq<char>,
    segments: Seq<char>,
) -> bool {
    t.file@ == paths::join(dir, file) && t.segments@ == paths::join(dir, segments)
}

/// Where the tracks of a stream go: the first, and the audio track where that is apart.
#[derive(Debug)]
pub struct StreamFiles {
    pub track: TrackFiles,
    pub audio: Option<TrackFiles>,
    /// What the tracks are put into.
    pub output: String,
}

fn track(dir: &str, file: &str, segments: &str) -> (r: TrackFiles)
    ensures
        track_in(r, dir@, file@, segments@),
{
    TrackFiles { file: join_path(dir, file), segments: join_path(dir, segments) }
}

/// Where the tracks of an HLS stream go in its cache directory.
pub fn hls_files(cache_dir: &str, with_audio: bool) -> (r: StreamFiles)
    ensures
        r.output@ == paths::join(cache_dir@, "output.mp4"@),
        with_audio ==> {
            &&& track_in(r.track, cache_dir@, "video.ts"@, "video-segments"@)
            &&& r.audio matches Some(a) && track_in(a, cache_dir@, "audio.ts"@, "audio-segments"@)
        },
        !with_audio ==> {
            &&& track_in(r.track, cache_dir@, "assembled.ts"@, "segments"@)
            &&& r.audio is None
        },
{
    let output = join_path(cache_dir, "output.mp4");
    if with_audio {
        StreamFiles {
            track: track(cache_dir, "video.ts", "video-segments"),
            audio: Some(track(cache_dir, "audio.ts", "audio-segments")),
            output,
        }
    } else {
        StreamFiles { track: track(cache_dir, "assembled.ts", "segments"), audio: None, output }
    }
}

/// Where the tracks of a DASH stream go in its cache directory.
pub fn dash_files(cache_dir: &str, video: bool, audio: bool) -> (r: StreamFiles)
    ensures
        r.output@ == paths::join(cache_dir@, "output.mp4"@),
        video && audio ==> {
            &&& track_in(r.track, cache_dir@, "video.m4s"@, "video-segments"@)
            &&& r.audio matches Some(a) && track_in(a, cache_dir@, "audio.m4s"@, "audio-segments"@)
        },
        video && !audio ==> {
            &&& track_in(r.track, cache_dir@, "video.m4s"@, "segments"@)
            &&& r.audio is None
        },
        !video ==> {
            &&& track_in(r.track, cache_dir@, "audio.m4s"@, "segments"@)
            &&& r.audio is None
        },
{
    let output = join_path(cache_dir, "output.mp4");
    if video && audio {
        StreamFiles {
            track: track(cache_dir, "video.m4s", "video-segments"),
            audio: Some(track(cache_dir, "audio.m4s", "audio-segments")),
            output,
        }
    } else if video {
        StreamFiles { track: track(cache_dir, "video.m4s", "segments"), audio: None, output }
    } else {
        StreamFiles { track: track(cache_dir, "audio.m4s", "segments"), audio: None, output }
    }
}

/// The name of the file of a segment.
pub open spec fn segment_name(i: nat) -> Seq<char> {
    number::zero_padded(number::dec(i), 8) + ".seg"@
}

/// Where a segment goes.
pub fn segment_file(segments: &str, i: u64) -> (r: String)
    ensures
        r@ == paths::join(segments@, segment_name(i as nat)),
{
    let digits = string_of(pad_zeros(dec_u64(i).as_slice(), 8).as_slice());
    join_path(segments, cat2(digits.as_str(), ".seg").as_str())
}

/// Where a segment goes while it is written.
pub fn segment_part(segment: &str) -> (r: String)
    ensures
        r@ == paths::with_extension(segment@, "seg.part"@),
{
    change_extension(segment, "seg.part")
}

// ---------------------------------------------------------------------------
// What is taken out of a segment
// ---------------------------------------------------------------------------

/// The position, from `i` on, of the first segment with a key; the number of segments
/// where there is none.
pub open spec fn keyed_from(s: Seq<SegmentView>, i: int) -> int
    decreases s.len() - i,
{
    if i < 0 || i >= s.len() || s[i].key_url is Some {
        i
    } else {
        keyed_from(s, i + 1)
    }
}

/// The address of the key that is fetched for a playlist: that of the first segment
/// with one.
pub open spec fn key_address(p: PlaylistView) -> Option<Seq<char>> {
    let i = keyed_from(p.media_segments, 0);
    if i < p.media_segments.len() {
        p.media_segments[i].key_url
    } else {
        None
    }
}

/// Finds the address of the key that is fetched for a playlist.
pub fn key_url(p: &HlsPlaylist) -> (r: Option<String>)
    ensures
        text::opt(r) == key_address(p@),
{
    let ghost all = p@.media_segments;
    let mut i: usize = 0;
    while i < p.media_segments.len()
        invariant
            i <= p.media_segments.len(),
            all == hls::segment_views(p.media_segments@),
            keyed_from(all, 0) == keyed_from(all, i as int),
            all == p@.media_segments,
        decreases p.media_segments.len() - i,
    {
        assert(all[i as int] == p.media_segments@[i as int]@);
        if p.media_segments[i].key_url.is_some() {
            return copy_opt(&p.media_segments[i].key_url);
        }
        i += 1;
    }
    None
}

/// Why nothing can be taken out of a segment.
#[derive(Debug)]
pub enum SegmentError {
    /// The key of the segment is not the one that was fetched.
    NoKey,
    Decrypt(DecryptError),
}

/// Whether `p` is the stream in a buffer: from where a hidden one begins, or all of it.
pub open spec fn is_payload(buf: Seq<u8>, p: Seq<u8>) -> bool {
    ||| exists|o: int|
        {
            &&& #[trigger] disguise::found_at(buf, o, 8, 188)
            &&& forall|j: int| 0 <= j < o ==> !disguise::found_at(buf, j, 8, 188)
            &&& p == buf.skip(o)
        }
    ||| p == buf && forall|j: int| !disguise::found_at(buf, j, 8, 188)
}

fn plain_payload(raw: &[u8]) -> (r: Vec<u8>)
    ensures
        is_payload(raw@, r@),
{
    let p = extract_ts_payload(raw);
    let mut r: Vec<u8> = Vec::new();
    r.extend_from_slice(p);
    assert(r@ =~= p@);
    r
}

/// Takes the stream out of a segment: decrypted where the segment has a key and an
/// initialisation vector, else from where it begins.
pub fn segment_payload(
    raw: &[u8],
    segment: &HlsMediaSegment,
    key: Option<(&str, &[u8])>,
) -> (r: Result<Vec<u8>, SegmentError>)
    ensures
        segment.key_url is Some && segment.iv is Some ==> match key {
            Some(k) if k.0@ == segment.key_url->0@ => match r {
                Ok(p) => k.1@.len() == 16 && crypto::cbc_plaintext(raw@, k.1@, segment.iv->0@)
                    == Some(p@),
                Err(SegmentError::Decrypt(DecryptError::BadKeyLength(n))) => k.1@.len() != 16 && n
                    == k.1@.len(),
                Err(SegmentError::Decrypt(DecryptError::BadPadding)) => k.1@.len() == 16
                    && crypto::cbc_plaintext(raw@, k.1@, segment.iv->0@) is None,
                Err(SegmentError::NoKey) => false,
            },
            _ => r matches Err(SegmentError::NoKey),
        },
        segment.key_url is None || segment.iv is None ==> (r matches Ok(p) && is_payload(
            raw@,
            p@,
        )),
{
    match (&segment.key_url, &segment.iv) {
        (Some(url), Some(iv)) => match key {
            Some((fetched, bytes)) => if str_eq(fetched, url.as_str()) {
                match decrypt_segment(raw, bytes, iv) {
                    Ok(p) => Ok(p),
                    Err(e) => Err(SegmentError::Decrypt(e)),
                }
            } else {
                Err(SegmentError::NoKey)
            },
            None => Err(SegmentError::NoKey),
        },
        _ => Ok(plain_payload(raw)),
    }
}

// ---------------------------------------------------------------------------
// The beginning of a stream, for a picture of it
// ---------------------------------------------------------------------------

/// The bandwidth that a variant states; the largest number where it states none.
pub open spec fn stated_bandwidth(c: hls::ContainerView) -> u64 {
    if c.attributes.dom().contains("BANDWIDTH"@) {
        match number::parsed_nat(c.attributes["BANDWIDTH"@], u64::MAX as nat) {
            Some(n) => n as u64,
            None => u64::MAX,
        }
    } else {
        u64::MAX
    }
}

/// The position of the first variant with the least bandwidth among the first `n`.
pub open spec fn first_least(v: Seq<hls::ContainerView>, n: int) -> int
    decreases n,
{
    if n <= 1 {
        0
    } else {
        let before = first_least(v, n - 1);
        if stated_bandwidth(v[n - 1]) < stated_bandwidth(v[before]) {
            n - 1
        } else {
            before
        }
    }
}

/// The playlist from which a picture is made: that of the variant with the least
/// bandwidth.
pub open spec fn lowest_playlist(v: Seq<hls::ContainerView>) -> Option<Seq<char>> {
    if v.len() == 0 {
        None
    } else {
        let c = v[first_least(v, v.len() as int)];
        if c.video_playlist is Some {
            c.video_playlist
        } else {
            c.audio_playlist
        }
    }
}

/// The playlist that is fetched next for a picture: none where the text is itself a
/// media playlist.
pub open spec fn next_playlist(playlist: Seq<char>, url: Seq<char>) -> Option<Option<Seq<char>>> {
    if text::holds(playlist, "#EXT-X-STREAM-INF"@) {
        match hls::master_playlist(text::lines(playlist), url) {
            Ok(v) => match lowest_playlist(v) {
                Some(p) => Some(Some(p)),
                None => None,
            },
            Err(_) => None,
        }
    } else {
        Some(None)
    }
}

/// The model of an address that may be there.
pub open spec fn nested(r: Option<Option<String>>) -> Option<Option<Seq<char>>> {
    match r {
        Some(o) => Some(text::opt(o)),
        None => None,
    }
}

fn bandwidth_stated(c: &HlsPlaylistContainer) -> (r: u64)
    ensures
        r == stated_bandwidth(c@),
{
    match c.attributes.get("BANDWIDTH") {
        Some(s) => match parse_u64(chars_of(s.as_str()).as_slice()) {
            Some(n) => n,
            None => u64::MAX,
        },
        None => u64::MAX,
    }
}

/// Settles which playlist is fetched next for a picture of a stream. Nothing where there
/// is no picture to be had.
pub fn picture_playlist(playlist: &str, url: &str) -> (r: Option<Option<String>>)
    ensures
        nested(r) == next_playlist(playlist@, url@),
{
    if !contains(chars_of(playlist).as_slice(), "#EXT-X-STREAM-INF") {
        return Some(None);
    }
    match read_master(playlist, url) {
        Err(_) => None,
        Ok(v) => {
            let ghost views = hls::container_views(v@);
            if v.len() == 0 {
                return None;
            }
            let mut best: usize = 0;
            let mut i: usize = 1;
            while i < v.len()
                invariant
                    1 <= i <= v.len(),
                    best < i,
                    views == hls::container_views(v@),
                    best == first_least(views, i as int),
                decreases v.len() - i,
            {
                assert(views[i as int] == v@[i as int]@);
                assert(views[best as int] == v@[best as int]@);
                if bandwidth_stated(&v[i]) < bandwidth_stated(&v[best]) {
                    best = i;
                }
                i += 1;
            }
            assert(views[best as int] == v@[best as int]@);
            let p = if v[best].video_playlist.is_some() {
                copy_opt(&v[best].video_playlist)
            } else {
                copy_opt(&v[best].audio_playlist)
            };
            match p {
                Some(a) => Some(Some(a)),
                None => None,
            }
        },
    }
}

/// How many segments, from the `i`-th on, are fetched for a picture: those up to the
/// first that is not an initialisation segment.
pub open spec fn opening_from(s: Seq<SegmentView>, i: int) -> int
    decreases s.len() - i,
{
    if i < 0 || i >= s.len() {
        i
    } else if s[i].is_init_segment {
        opening_from(s, i + 1)
    } else {
        i + 1
    }
}

/// How many segments are fetched for a picture of a stream.
pub fn opening_segments(p: &HlsPlaylist) -> (r: usize)
    ensures
        r == opening_from(p@.media_segments, 0),
        r <= p.media_segments@.len(),
{
    let ghost all = p@.media_segments;
    let mut i: usize = 0;
    while i < p.media_segments.len()
        invariant
            i <= p.media_segments.len(),
            all == hls::segment_views(p.media_segments@),
            opening_from(all, 0) == opening_from(all, i as int),
            all == p@.media_segments,
        decreases p.media_segments.len() - i,
    {
        assert(all[i as int] == p.media_segments@[i as int]@);
        if !p.media_segments[i].is_init_segment {
            return i + 1;
        }
        i += 1;
    }
    i
}

/// Takes the stream out of a segment for a picture; a key counts for every segment with
/// a key of its own.
pub fn picture_payload(raw: &[u8], segment: &HlsMediaSegment, key: Option<&[u8]>) -> (r: Option<
    Vec<u8>,
>)
    ensures
        segment.key_url is Some && segment.iv is Some && key is Some ==> match r {
            Some(p) => (key->0)@.len() == 16 && crypto::cbc_plaintext(
                raw@,
                (key->0)@,
                segment.iv->0@,
            ) == Some(p@),
            None => (key->0)@.len() != 16 || crypto::cbc_plaintext(
                raw@,
                (key->0)@,
                segment.iv->0@,
            ) is None,
        },
        segment.key_url is None || segment.iv is None || key is None ==> (r matches Some(p)
            && is_payload(raw@, p@)),
{
    if segment.key_url.is_some() {
        match (key, &segment.iv) {
            (Some(k), Some(iv)) => {
                return match decrypt_segment(raw, k, iv) {
                    Ok(p) => Some(p),
                    Err(_) => None,
                };
            },
            _ => {},
        }
    }
    Some(plain_payload(raw))
}

// ---------------------------------------------------------------------------
// What the parts keep to
// ---------------------------------------------------------------------------

/// The segments of a stream go to different files.
pub proof fn segments_have_their_own_files(i: nat, j: nat)
    requires
        i != j,
    ensures
        segment_name(i) != segment_name(j),
{
    if segment_name(i) == segment_name(j) {
        let a = number::zero_padded(number::dec(i), 8);
        let b = number::zero_padded(number::dec(j), 8);
        assert(segment_name(i).len() == a.len() + ".seg"@.len());
        assert(segment_name(j).len() == b.len() + ".seg"@.len());
        assert(segment_name(i).take(a.len() as int) =~= a);
        assert(segment_name(j).take(b.len() as int) =~= b);
        assert(a == b);
        number::padding_keeps_the_value(number::dec(i), 8);
        number::padding_keeps_the_value(number::dec(j), 8);
        number::lemma_dec_digits(i);
        number::lemma_dec_digits(j);
    }
}

} // verus!

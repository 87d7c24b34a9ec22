//! Kinds of downloads, and the decisions of a download that is carried out.

use vstd::prelude::*;

use crate::naming;
use crate::paths;
use crate::paths::{change_extension, get_extension};
use crate::text;
use crate::text::{chars_of, contains, cut_before_first, ends_with, is, str_eq};

verus! {

/// How a download is carried out.
#[derive(Clone, Copy, Debug, PartialEq, Eq, Structural)]
pub enum DownloadKind {
    Http,
    Hls,
    Dash,
}

impl DownloadKind {
    /// The kind that the end of a URL's path suggests.
    pub open spec fn of_url(url: Seq<char>) -> DownloadKind {
        let path = text::before_first(url, "?#"@);
        if text::has_suffix(path, ".m3u8"@) {
            DownloadKind::Hls
        } else if text::has_suffix(path, ".mpd"@) {
            DownloadKind::Dash
        } else {
            DownloadKind::Http
        }
    }

    /// Guesses the kind from a URL.
    pub fn guess_from_url(url: &str) -> (r: DownloadKind)
        ensures
            r == DownloadKind::of_url(url@),
    {
        let cs = chars_of(url);
        let path = cut_before_first(cs.as_slice(), "?#");
        if ends_with(path, ".m3u8") {
            DownloadKind::Hls
        } else if ends_with(path, ".mpd") {
            DownloadKind::Dash
        } else {
            DownloadKind::Http
        }
    }
}

/// The kind once the real extension is known: a playlist behind another name is
/// still a playlist.
pub open spec fn real_kind(guessed: DownloadKind, detected_ext: Option<Seq<char>>) -> DownloadKind {
    if detected_ext == Some("m3u8"@) {
        DownloadKind::Hls
    } else if detected_ext == Some("mpd"@) {
        DownloadKind::Dash
    } else {
        guessed
    }
}

/// The kind once the real extension is known.
pub fn kind_with_extension(guessed: DownloadKind, detected_ext: Option<&str>) -> (r: DownloadKind)
    ensures
        r == real_kind(guessed, text::opt_str(detected_ext)),
{
    match detected_ext {
        Some(e) => if str_eq(e, "m3u8") {
            DownloadKind::Hls
        } else if str_eq(e, "mpd") {
            DownloadKind::Dash
        } else {
            guessed
        },
        None => guessed,
    }
}

/// Where a download of the given kind ends up: a stream whose destination is named
/// like a manifest, or has no extension, becomes an mp4; anything else keeps the
/// name that was chosen.
pub open spec fn dest_for_kind(dest: Seq<char>, kind: DownloadKind) -> Seq<char> {
    let ext = naming::lower_extension(dest);
    if kind != DownloadKind::Http && (ext == "m3u8"@ || ext == "mpd"@ || ext.len() == 0) {
        paths::with_extension(dest, "mp4"@)
    } else {
        dest
    }
}

/// Settles the destination of a download.
pub fn sanitize_dest_for_kind(dest: &str, kind: DownloadKind) -> (r: String)
    ensures
        r@ == dest_for_kind(dest@, kind),
{
    if kind == DownloadKind::Http {
        return dest.to_string();
    }
    let ext = naming::current_extension(dest);
    let es = chars_of(ext.as_str());
    if es.len() == 0 || is(es.as_slice(), "m3u8") || is(es.as_slice(), "mpd") {
        change_extension(dest, "mp4")
    } else {
        dest.to_string()
    }
}

/// Settling a destination twice is settling it once.
pub proof fn settled_destinations_stay(dest: Seq<char>, kind: DownloadKind)
    ensures
        dest_for_kind(dest_for_kind(dest, kind), kind) == dest_for_kind(dest, kind),
{
    reveal_strlit("mp4");
    reveal_strlit("m3u8");
    reveal_strlit("mpd");
    reveal_strlit(".");
    reveal_strlit("..");
    let ext = naming::lower_extension(dest);
    if kind != DownloadKind::Http && (ext == "m3u8"@ || ext == "mpd"@ || ext.len() == 0) {
        if paths::file_name(dest) is Some {
            let m = "mp4"@;
            assert(m.len() == 3 && m[0] == 'm' && m[1] == 'p' && m[2] == '4');
            assert(!m.contains('/'));
            assert(!m.contains('.'));
            assert(m != "."@ && m != ".."@);
            paths::extension_is_replaced(dest, m);
            let l = text::lower(m);
            assert(l.len() == 3);
            assert(l[2] == '4');
            assert("mpd"@[2] == 'd');
            assert(l != "mpd"@);
            assert(l != "m3u8"@);
        }
    }
}

/// Settling a destination changes its extension only: the stem, with the hash in
/// it, stays.
pub proof fn settling_keeps_the_stem(dest: Seq<char>, kind: DownloadKind)
    ensures
        paths::file_stem(dest_for_kind(dest, kind)) == paths::file_stem(dest),
{
    reveal_strlit("mp4");
    reveal_strlit(".");
    reveal_strlit("..");
    if dest_for_kind(dest, kind) != dest && paths::file_name(dest) is Some {
        let m = "mp4"@;
        assert(m.len() == 3 && m[0] == 'm' && m[1] == 'p' && m[2] == '4');
        assert(!m.contains('/'));
        assert(!m.contains('.'));
        assert(m != "."@ && m != ".."@);
        paths::extension_is_replaced(dest, m);
    }
}

/// Where a muxed file goes: to the destination where the muxer kept its extension,
/// else to the destination with extension `mkv`.
pub open spec fn mux_destination(produced: Seq<char>, dest: Seq<char>) -> Seq<char> {
    if paths::extension(produced) == paths::extension(dest) {
        dest
    } else {
        paths::with_extension(dest, "mkv"@)
    }
}

fn same_option(a: &Option<String>, b: &Option<String>) -> (r: bool)
    ensures
        r == (text::opt(*a) == text::opt(*b)),
{
    match (a, b) {
        (Some(x), Some(y)) => str_eq(x.as_str(), y.as_str()),
        (None, None) => true,
        _ => false,
    }
}

/// Settles where a muxed file goes.
pub fn finish_mux(produced: &str, dest: &str) -> (r: String)
    ensures
        r@ == mux_destination(produced@, dest@),
{
    let a = get_extension(produced);
    let b = get_extension(dest);
    if same_option(&a, &b) {
        dest.to_string()
    } else {
        change_extension(dest, "mkv")
    }
}

/// What the text of an HLS playlist is.
#[derive(Clone, Copy, Debug, PartialEq, Eq, Structural)]
pub enum PlaylistKind {
    Master,
    Media,
    Other,
}

/// A text with a stream tag is a master playlist; one with a segment tag only is a
/// media playlist.
pub open spec fn playlist_kind_of(s: Seq<char>) -> PlaylistKind {
    if text::holds(s, "#EXT-X-STREAM-INF"@) {
        PlaylistKind::Master
    } else if text::holds(s, "#EXTINF"@) {
        PlaylistKind::Media
    } else {
        PlaylistKind::Other
    }
}

/// Tells what the text of a playlist is.
pub fn playlist_kind(s: &str) -> (r: PlaylistKind)
    ensures
        r == playlist_kind_of(s@),
{
    let cs = chars_of(s);
    if contains(cs.as_slice(), "#EXT-X-STREAM-INF") {
        PlaylistKind::Master
    } else if contains(cs.as_slice(), "#EXTINF") {
        PlaylistKind::Media
    } else {
        PlaylistKind::Other
    }
}

} // verus!

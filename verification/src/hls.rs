//! HLS playlists: media playlists and master playlists.
//!
//! A playlist is read line by line without touching the network or the base URL
//! ([`scan_media`], [`scan_master`]); the references that were found are then
//! resolved against the playlist's own URL.

use vstd::prelude::*;

use crate::attributes;
use crate::attributes::parse_attributes;
use crate::iv;
use crate::iv::{iv_from_media_sequence, parse_iv_attr};
use crate::number;
use crate::number::parse_u64;
use crate::strmap;
use crate::strmap::StrMap;
use crate::text;
use crate::text::{
    cat2, chars_of, copy_opt, cut_before_first, is, split_at_first, starts_with, str_eq, string_of,
    strip_prefix, trimmed,
};
use crate::urls;
use crate::urls::{join_url, parse_url};

verus! {

// ---------------------------------------------------------------------------
// Model
// ---------------------------------------------------------------------------

/// A media segment with its URL resolved.
#[derive(Debug)]
pub struct HlsMediaSegment {
    pub url: String,
    /// Offset and length in bytes.
    pub byte_range: Option<(u64, u64)>,
    /// The duration in seconds as the playlist writes it; empty where it gives
    /// none.
    pub duration: String,
    pub key_url: Option<String>,
    /// Given by the key, or else derived from the media sequence number.
    pub iv: Option<[u8; 16]>,
    /// Whether this is an initialisation segment, which is put in front of the
    /// segments after it.
    pub is_init_segment: bool,
}

/// A media playlist.
#[derive(Debug)]
pub struct HlsPlaylist {
    pub media_segments: Vec<HlsMediaSegment>,
    pub is_encrypted: bool,
    pub has_byte_range: bool,
    pub is_key_i_frame_only: bool,
}

/// One variant of a master playlist: its video and audio playlists and the
/// attributes of its tag.
#[derive(Debug)]
pub struct HlsPlaylistContainer {
    pub video_playlist: Option<String>,
    pub audio_playlist: Option<String>,
    pub attributes: StrMap<String>,
}

/// Why a playlist was refused.
#[derive(Debug)]
pub enum HlsParseError {
    /// The first line that is not blank is not `#EXTM3U`.
    MissingSignature,
    UnsupportedKeyMethod(String),
    InvalidUrl(String),
    Malformed { tag: &'static str, detail: String },
}

pub enum HlsErrorView {
    MissingSignature,
    UnsupportedKeyMethod(Seq<char>),
    InvalidUrl(Seq<char>),
    Malformed { tag: Seq<char>, detail: Seq<char> },
}

impl View for HlsParseError {
    type V = HlsErrorView;

    open spec fn view(&self) -> HlsErrorView {
        match self {
            HlsParseError::MissingSignature => HlsErrorView::MissingSignature,
            HlsParseError::UnsupportedKeyMethod(m) => HlsErrorView::UnsupportedKeyMethod(m@),
            HlsParseError::InvalidUrl(e) => HlsErrorView::InvalidUrl(e@),
            HlsParseError::Malformed { tag, detail } => HlsErrorView::Malformed {
                tag: tag@,
                detail: detail@,
            },
        }
    }
}

/// The bytes of an optional initialisation vector.
pub open spec fn opt_bytes(o: Option<[u8; 16]>) -> Option<Seq<u8>> {
    match o {
        Some(b) => Some(b@),
        None => None,
    }
}

/// The model of a resolved segment.
#[verifier::ext_equal]
pub struct SegmentView {
    pub url: Seq<char>,
    pub byte_range: Option<(u64, u64)>,
    pub duration: Seq<char>,
    pub key_url: Option<Seq<char>>,
    pub iv: Option<Seq<u8>>,
    pub is_init_segment: bool,
}

impl View for HlsMediaSegment {
    type V = SegmentView;

    open spec fn view(&self) -> SegmentView {
        SegmentView {
            url: self.url@,
            byte_range: self.byte_range,
            duration: self.duration@,
            key_url: text::opt(self.key_url),
            iv: opt_bytes(self.iv),
            is_init_segment: self.is_init_segment,
        }
    }
}

/// The models of a list of segments.
pub open spec fn segment_views(v: Seq<HlsMediaSegment>) -> Seq<SegmentView> {
    v.map_values(|s: HlsMediaSegment| s@)
}

/// The model of a media playlist.
#[verifier::ext_equal]
pub struct PlaylistView {
    pub media_segments: Seq<SegmentView>,
    pub is_encrypted: bool,
    pub has_byte_range: bool,
    pub is_key_i_frame_only: bool,
}

impl View for HlsPlaylist {
    type V = PlaylistView;

    open spec fn view(&self) -> PlaylistView {
        PlaylistView {
            media_segments: segment_views(self.media_segments@),
            is_encrypted: self.is_encrypted,
            has_byte_range: self.has_byte_range,
            is_key_i_frame_only: self.is_key_i_frame_only,
        }
    }
}

// ---------------------------------------------------------------------------
// Media playlists: reading lines
// ---------------------------------------------------------------------------

/// A segment whose references are not resolved yet.
#[derive(Debug)]
pub struct RawSegment {
    pub uri: String,
    pub byte_range: Option<(u64, u64)>,
    pub duration: String,
    pub key_uri: Option<String>,
    pub iv: Option<[u8; 16]>,
    pub is_init_segment: bool,
}

/// What a line of a media playlist refers to.
#[derive(Debug)]
pub enum MediaItem {
    /// The URI of a key.
    Key(String),
    Segment(RawSegment),
}

#[verifier::ext_equal]
pub struct RawSegmentView {
    pub uri: Seq<char>,
    pub byte_range: Option<(u64, u64)>,
    pub duration: Seq<char>,
    pub key_uri: Option<Seq<char>>,
    pub iv: Option<Seq<u8>>,
    pub is_init_segment: bool,
}

#[verifier::ext_equal]
pub enum MediaItemView {
    Key(Seq<char>),
    Segment(RawSegmentView),
}

impl View for MediaItem {
    type V = MediaItemView;

    open spec fn view(&self) -> MediaItemView {
        match self {
            MediaItem::Key(u) => MediaItemView::Key(u@),
            MediaItem::Segment(s) => MediaItemView::Segment(
                RawSegmentView {
                    uri: s.uri@,
                    byte_range: s.byte_range,
                    duration: s.duration@,
                    key_uri: text::opt(s.key_uri),
                    iv: opt_bytes(s.iv),
                    is_init_segment: s.is_init_segment,
                },
            ),
        }
    }
}

pub open spec fn item_views(v: Seq<MediaItem>) -> Seq<MediaItemView> {
    v.map_values(|i: MediaItem| i@)
}

/// What has been read of a media playlist: the items found, the flags, what the
/// tags so far say of the next segment, and the error that ended the reading.
#[derive(Debug)]
pub struct MediaScan {
    pub items: Vec<MediaItem>,
    pub stop: Option<HlsParseError>,
    pub is_encrypted: bool,
    pub has_byte_range: bool,
    pub is_key_i_frame_only: bool,
    pub media_sequence: u64,
    pub pending_duration: String,
    pub pending_byte_range: Option<(u64, u64)>,
    pub last_segment_end: u64,
    pub key_uri: Option<String>,
    pub key_iv: Option<[u8; 16]>,
    pub key_set: bool,
}

#[verifier::ext_equal]
pub struct MediaScanView {
    pub items: Seq<MediaItemView>,
    pub stop: Option<HlsErrorView>,
    pub is_encrypted: bool,
    pub has_byte_range: bool,
    pub is_key_i_frame_only: bool,
    pub media_sequence: u64,
    pub pending_duration: Seq<char>,
    pub pending_byte_range: Option<(u64, u64)>,
    pub last_segment_end: u64,
    pub key_uri: Option<Seq<char>>,
    pub key_iv: Option<Seq<u8>>,
    pub key_set: bool,
}

pub open spec fn opt_error(o: Option<HlsParseError>) -> Option<HlsErrorView> {
    match o {
        Some(e) => Some(e@),
        None => None,
    }
}

impl View for MediaScan {
    type V = MediaScanView;

    open spec fn view(&self) -> MediaScanView {
        MediaScanView {
            items: item_views(self.items@),
            stop: opt_error(self.stop),
            is_encrypted: self.is_encrypted,
            has_byte_range: self.has_byte_range,
            is_key_i_frame_only: self.is_key_i_frame_only,
            media_sequence: self.media_sequence,
            pending_duration: self.pending_duration@,
            pending_byte_range: self.pending_byte_range,
            last_segment_end: self.last_segment_end,
            key_uri: text::opt(self.key_uri),
            key_iv: opt_bytes(self.key_iv),
            key_set: self.key_set,
        }
    }
}

/// Before the first line.
pub open spec fn empty_scan() -> MediaScanView {
    MediaScanView {
        items: Seq::empty(),
        stop: None,
        is_encrypted: false,
        has_byte_range: false,
        is_key_i_frame_only: false,
        media_sequence: 0,
        pending_duration: Seq::empty(),
        pending_byte_range: None,
        last_segment_end: 0,
        key_uri: None,
        key_iv: None,
        key_set: false,
    }
}

pub open spec fn stopped(st: MediaScanView, e: HlsErrorView) -> MediaScanView {
    MediaScanView { stop: Some(e), ..st }
}

/// An unsigned 64-bit number, blanks around it ignored.
pub open spec fn trimmed_u64(s: Seq<char>) -> Option<u64> {
    match number::parsed_nat(text::trim(s), u64::MAX as nat) {
        Some(n) => Some(n as u64),
        None => None,
    }
}

/// The initialisation vector of the next segment: none without a key; that of the
/// key where it gives one; else the media sequence number.
pub open spec fn current_iv(st: MediaScanView) -> Option<Seq<u8>> {
    if !st.key_set {
        None
    } else if st.key_iv is Some {
        st.key_iv
    } else {
        Some(iv::be_bytes(st.media_sequence as nat, 16))
    }
}

/// `#EXT-X-BYTERANGE:<length>[@<offset>]`: without an offset the range begins
/// where the last one ended.
pub open spec fn byte_range_line(st: MediaScanView, rest: Seq<char>) -> MediaScanView {
    let st = MediaScanView { has_byte_range: true, ..st };
    let bad = HlsErrorView::Malformed { tag: "EXT-X-BYTERANGE"@, detail: rest };
    let (length, offset) = match text::split_once(rest, "@"@) {
        Some((l, o)) => (trimmed_u64(l), trimmed_u64(o)),
        None => (trimmed_u64(rest), Some(st.last_segment_end)),
    };
    match (length, offset) {
        (Some(l), Some(o)) => MediaScanView { pending_byte_range: Some((o, l)), ..st },
        _ => stopped(st, bad),
    }
}

/// `#EXT-X-KEY:<attributes>`.
pub open spec fn key_line(st: MediaScanView, rest: Seq<char>) -> MediaScanView {
    let attrs = attributes::attributes(rest);
    let method = attributes::attribute(attrs, "METHOD"@).unwrap_or("NONE"@);
    let format = attributes::attribute(attrs, "KEYFORMAT"@).unwrap_or("identity"@);
    let uri = attributes::attribute(attrs, "URI"@);
    if method == "NONE"@ {
        MediaScanView { key_uri: None, key_iv: None, key_set: false, ..st }
    } else if method != "AES-128"@ {
        stopped(st, HlsErrorView::UnsupportedKeyMethod(method))
    } else if format != "identity"@ {
        stopped(
            st,
            HlsErrorView::UnsupportedKeyMethod("AES-128 with KEYFORMAT="@ + format),
        )
    } else {
        MediaScanView {
            items: match uri {
                Some(u) => st.items.push(MediaItemView::Key(u)),
                None => st.items,
            },
            is_encrypted: true,
            key_uri: uri,
            key_iv: match attributes::attribute(attrs, "IV"@) {
                Some(s) => iv::iv_attr(s),
                None => None,
            },
            key_set: true,
            ..st
        }
    }
}

/// A byte range as an attribute writes it: `<length>@<offset>`.
pub open spec fn byte_range_attr(s: Seq<char>) -> Option<(u64, u64)> {
    match text::split_once(s, "@"@) {
        Some((l, o)) => match (trimmed_u64(o), trimmed_u64(l)) {
            (Some(offset), Some(length)) => Some((offset, length)),
            _ => None,
        },
        None => None,
    }
}

/// `#EXT-X-MAP:<attributes>`: an initialisation segment.
pub open spec fn map_line(st: MediaScanView, rest: Seq<char>) -> MediaScanView {
    let attrs = attributes::attributes(rest);
    match attributes::attribute(attrs, "URI"@) {
        None => stopped(
            st,
            HlsErrorView::Malformed { tag: "EXT-X-MAP"@, detail: "missing URI"@ },
        ),
        Some(uri) => MediaScanView {
            items: st.items.push(
                MediaItemView::Segment(
                    RawSegmentView {
                        uri,
                        byte_range: match attributes::attribute(attrs, "BYTERANGE"@) {
                            Some(b) => byte_range_attr(b),
                            None => None,
                        },
                        duration: Seq::empty(),
                        key_uri: st.key_uri,
                        iv: current_iv(st),
                        is_init_segment: true,
                    },
                ),
            ),
            ..st
        },
    }
}

/// A line that is the URI of a segment: it takes up what the tags before it said
/// and counts the sequence number on. Sums that leave 64 bits wrap round.
pub open spec fn segment_line(st: MediaScanView, line: Seq<char>) -> MediaScanView {
    MediaScanView {
        items: st.items.push(
            MediaItemView::Segment(
                RawSegmentView {
                    uri: line,
                    byte_range: st.pending_byte_range,
                    duration: st.pending_duration,
                    key_uri: st.key_uri,
                    iv: current_iv(st),
                    is_init_segment: false,
                },
            ),
        ),
        pending_byte_range: None,
        pending_duration: Seq::empty(),
        last_segment_end: match st.pending_byte_range {
            Some((offset, length)) => offset.wrapping_add(length),
            None => st.last_segment_end,
        },
        media_sequence: st.media_sequence.wrapping_add(1),
        ..st
    }
}

/// Whether a trimmed line is the URI of a segment.
pub open spec fn is_uri_line(line: Seq<char>) -> bool {
    line.len() > 0 && !text::has_prefix(line, "#"@)
}

/// The effect of one trimmed line.
pub open spec fn scan_line(st: MediaScanView, line: Seq<char>) -> MediaScanView {
    if line.len() == 0 || line == "#EXTM3U"@ {
        st
    } else if text::has_prefix(line, "#EXTINF:"@) {
        let rest = line.skip("#EXTINF:"@.len() as int);
        MediaScanView { pending_duration: text::trim(text::before_first(rest, ","@)), ..st }
    } else if text::has_prefix(line, "#EXT-X-BYTERANGE:"@) {
        byte_range_line(st, line.skip("#EXT-X-BYTERANGE:"@.len() as int))
    } else if text::has_prefix(line, "#EXT-X-MEDIA-SEQUENCE:"@) {
        let rest = line.skip("#EXT-X-MEDIA-SEQUENCE:"@.len() as int);
        MediaScanView { media_sequence: trimmed_u64(rest).unwrap_or(0), ..st }
    } else if text::has_prefix(line, "#EXT-X-KEY:"@) {
        key_line(st, line.skip("#EXT-X-KEY:"@.len() as int))
    } else if text::has_prefix(line, "#EXT-X-MAP:"@) {
        map_line(st, line.skip("#EXT-X-MAP:"@.len() as int))
    } else if line == "#EXT-X-I-FRAMES-ONLY"@ {
        MediaScanView { is_key_i_frame_only: true, ..st }
    } else if text::has_prefix(line, "#"@) {
        st
    } else {
        segment_line(st, line)
    }
}

/// The effect of the lines one after the other, up to the first error.
pub open spec fn scan_lines(lines: Seq<Seq<char>>) -> MediaScanView
    decreases lines.len(),
{
    if lines.len() == 0 {
        empty_scan()
    } else {
        let st = scan_lines(lines.drop_last());
        if st.stop is Some {
            st
        } else {
            scan_line(st, text::trim(lines.last()))
        }
    }
}

/// The first line that is not blank, trimmed.
pub open spec fn first_nonblank(lines: Seq<Seq<char>>) -> Option<Seq<char>>
    decreases lines.len(),
{
    if lines.len() == 0 {
        None
    } else if text::trim(lines[0]).len() > 0 {
        Some(text::trim(lines[0]))
    } else {
        first_nonblank(lines.skip(1))
    }
}

/// The texts of the lines.
pub open spec fn line_texts(lines: Seq<&str>) -> Seq<Seq<char>> {
    lines.map_values(|l: &str| l@)
}

fn parse_trimmed_u64(s: &[char]) -> (r: Option<u64>)
    ensures
        r == trimmed_u64(s@),
{
    parse_u64(trimmed(s))
}

/// The value of attribute `key`, where there is one.
fn attr<'a>(attrs: &'a StrMap<String>, key: &str) -> (r: Option<&'a String>)
    ensures
        match r {
            Some(v) => attributes::attribute(strmap::text_values(attrs@), key@) == Some(v@),
            None => attributes::attribute(strmap::text_values(attrs@), key@) is None,
        },
{
    attrs.get(key)
}

fn copied(o: Option<&String>) -> (r: Option<String>)
    ensures
        r is Some <==> o is Some,
        o matches Some(s) ==> r == Some(*s),
{
    match o {
        Some(s) => Some(s.clone()),
        None => None,
    }
}

impl MediaScan {
    pub fn new() -> (r: Self)
        ensures
            r@ == empty_scan(),
    {
        let r = MediaScan {
            items: Vec::new(),
            stop: None,
            is_encrypted: false,
            has_byte_range: false,
            is_key_i_frame_only: false,
            media_sequence: 0,
            pending_duration: String::new(),
            pending_byte_range: None,
            last_segment_end: 0,
            key_uri: None,
            key_iv: None,
            key_set: false,
        };
        assert(r@.items =~= empty_scan().items);
        r
    }

    fn current_iv(&self) -> (r: Option<[u8; 16]>)
        ensures
            opt_bytes(r) == current_iv(self@),
    {
        if !self.key_set {
            return None;
        }
        match self.key_iv {
            Some(b) => Some(b),
            None => Some(iv_from_media_sequence(self.media_sequence)),
        }
    }

    fn byte_range_line(&mut self, rest: &[char])
        requires
            old(self).stop is None,
        ensures
            final(self)@ == byte_range_line(old(self)@, rest@),
    {
        self.has_byte_range = true;
        let (length, offset) = match split_at_first(rest, "@") {
            Some((l, o)) => (parse_trimmed_u64(l), parse_trimmed_u64(o)),
            None => (parse_trimmed_u64(rest), Some(self.last_segment_end)),
        };
        match (length, offset) {
            (Some(l), Some(o)) => {
                self.pending_byte_range = Some((o, l));
            },
            _ => {
                self.stop = Some(
                    HlsParseError::Malformed {
                        tag: "EXT-X-BYTERANGE",
                        detail: string_of(rest),
                    },
                );
            },
        }
        assert(self@ =~= byte_range_line(old(self)@, rest@));
    }

    fn key_line(&mut self, rest: &[char])
        requires
            old(self).stop is None,
        ensures
            final(self)@ == key_line(old(self)@, rest@),
    {
        let attrs = parse_attributes(string_of(rest).as_str());
        let method = match attr(&attrs, "METHOD") {
            Some(m) => m.clone(),
            None => "NONE".to_string(),
        };
        if str_eq(method.as_str(), "NONE") {
            self.key_uri = None;
            self.key_iv = None;
            self.key_set = false;
        } else if !str_eq(method.as_str(), "AES-128") {
            self.stop = Some(HlsParseError::UnsupportedKeyMethod(method));
        } else {
            let format = match attr(&attrs, "KEYFORMAT") {
                Some(f) => f.clone(),
                None => "identity".to_string(),
            };
            if !str_eq(format.as_str(), "identity") {
                self.stop = Some(
                    HlsParseError::UnsupportedKeyMethod(
                        cat2("AES-128 with KEYFORMAT=", format.as_str()),
                    ),
                );
            } else {
                let ghost before = self.items@;
                let uri = copied(attr(&attrs, "URI"));
                match &uri {
                    Some(u) => {
                        self.items.push(MediaItem::Key(u.clone()));
                        assert(item_views(self.items@) =~= item_views(before).push(
                            MediaItemView::Key(u@),
                        ));
                    },
                    None => {},
                }
                self.is_encrypted = true;
                self.key_uri = uri;
                self.key_iv = match attr(&attrs, "IV") {
                    Some(s) => parse_iv_attr(s.as_str()),
                    None => None,
                };
                self.key_set = true;
            }
        }
        assert(self@ =~= key_line(old(self)@, rest@));
    }

    fn map_line(&mut self, rest: &[char])
        requires
            old(self).stop is None,
        ensures
            final(self)@ == map_line(old(self)@, rest@),
    {
        let attrs = parse_attributes(string_of(rest).as_str());
        match attr(&attrs, "URI") {
            None => {
                self.stop = Some(
                    HlsParseError::Malformed {
                        tag: "EXT-X-MAP",
                        detail: "missing URI".to_string(),
                    },
                );
            },
            Some(uri) => {
                let byte_range = match attr(&attrs, "BYTERANGE") {
                    Some(b) => {
                        let bs = chars_of(b.as_str());
                        match split_at_first(bs.as_slice(), "@") {
                            Some((l, o)) => match (parse_trimmed_u64(o), parse_trimmed_u64(l)) {
                                (Some(offset), Some(length)) => Some((offset, length)),
                                _ => None,
                            },
                            None => None,
                        }
                    },
                    None => None,
                };
                let ghost before = self.items@;
                let item = MediaItem::Segment(
                    RawSegment {
                        uri: uri.clone(),
                        byte_range,
                        duration: String::new(),
                        key_uri: copy_opt(&self.key_uri),
                        iv: self.current_iv(),
                        is_init_segment: true,
                    },
                );
                let ghost shown = item@;
                self.items.push(item);
                assert(item_views(self.items@) =~= item_views(before).push(shown));
            },
        }
        assert(self@ =~= map_line(old(self)@, rest@));
    }

    fn segment_line(&mut self, line: &[char])
        requires
            old(self).stop is None,
        ensures
            final(self)@ == segment_line(old(self)@, line@),
    {
        let ghost before = self.items@;
        let item = MediaItem::Segment(
            RawSegment {
                uri: string_of(line),
                byte_range: self.pending_byte_range,
                duration: self.pending_duration.clone(),
                key_uri: copy_opt(&self.key_uri),
                iv: self.current_iv(),
                is_init_segment: false,
            },
        );
        let ghost shown = item@;
        self.items.push(item);
        assert(item_views(self.items@) =~= item_views(before).push(shown));
        match self.pending_byte_range {
            Some((offset, length)) => {
                self.last_segment_end = offset.wrapping_add(length);
            },
            None => {},
        }
        self.pending_byte_range = None;
        self.pending_duration = String::new();
        self.media_sequence = self.media_sequence.wrapping_add(1);
        assert(self@ =~= segment_line(old(self)@, line@));
    }

    /// Takes in one trimmed line.
    pub fn line(&mut self, line: &[char])
        requires
            old(self).stop is None,
        ensures
            final(self)@ == scan_line(old(self)@, line@),
    {
        if line.len() == 0 || is(line, "#EXTM3U") {
            return ;
        }
        if let Some(rest) = strip_prefix(line, "#EXTINF:") {
            self.pending_duration = string_of(trimmed(cut_before_first(rest, ",")));
        } else if let Some(rest) = strip_prefix(line, "#EXT-X-BYTERANGE:") {
            self.byte_range_line(rest);
        } else if let Some(rest) = strip_prefix(line, "#EXT-X-MEDIA-SEQUENCE:") {
            self.media_sequence = match parse_trimmed_u64(rest) {
                Some(n) => n,
                None => 0,
            };
        } else if let Some(rest) = strip_prefix(line, "#EXT-X-KEY:") {
            self.key_line(rest);
        } else if let Some(rest) = strip_prefix(line, "#EXT-X-MAP:") {
            self.map_line(rest);
        } else if is(line, "#EXT-X-I-FRAMES-ONLY") {
            self.is_key_i_frame_only = true;
        } else if starts_with(line, "#") {
        } else {
            self.segment_line(line);
        }
    }
}

/// Reads the lines of a media playlist up to the first error.
pub fn scan_media(lines: &[&str]) -> (r: MediaScan)
    ensures
        r@ == scan_lines(line_texts(lines@)),
{
    let mut scan = MediaScan::new();
    let mut i: usize = 0;
    assert(line_texts(lines@).take(0) =~= Seq::empty());
    while i < lines.len()
        invariant
            i <= lines.len(),
            scan.stop is None,
            scan@ == scan_lines(line_texts(lines@).take(i as int)),
        decreases lines.len() - i,
    {
        let cs = chars_of(lines[i]);
        scan.line(trimmed(cs.as_slice()));
        proof {
            let next = line_texts(lines@).take(i + 1);
            assert(next.drop_last() =~= line_texts(lines@).take(i as int));
            assert(next.last() == lines@[i as int]@);
        }
        i += 1;
        if scan.stop.is_some() {
            proof {
                lemma_scan_stopped(line_texts(lines@), i as int);
            }
            return scan;
        }
    }
    assert(line_texts(lines@).take(i as int) =~= line_texts(lines@));
    scan
}

/// Lines after the first error change nothing.
pub proof fn lemma_scan_stopped(lines: Seq<Seq<char>>, n: int)
    requires
        0 <= n <= lines.len(),
        scan_lines(lines.take(n)).stop is Some,
    ensures
        scan_lines(lines) == scan_lines(lines.take(n)),
    decreases lines.len() - n,
{
    if n < lines.len() {
        assert(lines.take(n + 1).drop_last() =~= lines.take(n));
        lemma_scan_stopped(lines, n + 1);
    } else {
        assert(lines.take(n) =~= lines);
    }
}

/// Whether the first line that is not blank is the signature `#EXTM3U`.
pub fn has_signature(lines: &[&str]) -> (r: bool)
    ensures
        r == (first_nonblank(line_texts(lines@)) == Some("#EXTM3U"@)),
{
    let mut i: usize = 0;
    let ghost all = line_texts(lines@);
    assert(all.skip(0) =~= all);
    while i < lines.len()
        invariant
            i <= lines.len(),
            all == line_texts(lines@),
            first_nonblank(all) == first_nonblank(all.skip(i as int)),
        decreases lines.len() - i,
    {
        let cs = chars_of(lines[i]);
        let line = trimmed(cs.as_slice());
        assert(all.skip(i as int)[0] == lines@[i as int]@);
        assert(all.skip(i as int).skip(1) =~= all.skip(i + 1));
        if line.len() > 0 {
            return is(line, "#EXTM3U");
        }
        i += 1;
    }
    assert(all.skip(i as int).len() == 0);
    false
}

// ---------------------------------------------------------------------------
// Media playlists: resolving references
// ---------------------------------------------------------------------------

/// A reference resolved, where it resolves.
pub open spec fn resolved(base: Seq<char>, uri: Seq<char>) -> Option<Seq<char>> {
    match urls::joined_url(base, uri) {
        Ok(u) => Some(u),
        Err(_) => None,
    }
}

/// The segments among the items with their references resolved, or the message of
/// the first reference that does not resolve.
pub open spec fn resolve_items(base: Seq<char>, items: Seq<MediaItemView>) -> Result<
    Seq<SegmentView>,
    Seq<char>,
>
    decreases items.len(),
{
    if items.len() == 0 {
        Ok(Seq::empty())
    } else {
        match resolve_items(base, items.drop_last()) {
            Err(e) => Err(e),
            Ok(segments) => match items.last() {
                MediaItemView::Key(uri) => match urls::joined_url(base, uri) {
                    Err(e) => Err(e),
                    Ok(_) => Ok(segments),
                },
                MediaItemView::Segment(raw) => match urls::joined_url(base, raw.uri) {
                    Err(e) => Err(e),
                    Ok(url) => Ok(
                        segments.push(
                            SegmentView {
                                url,
                                byte_range: raw.byte_range,
                                duration: raw.duration,
                                key_url: match raw.key_uri {
                                    Some(k) => resolved(base, k),
                                    None => None,
                                },
                                iv: raw.iv,
                                is_init_segment: raw.is_init_segment,
                            },
                        ),
                    ),
                },
            },
        }
    }
}

/// The playlist that a scan describes, its references resolved against `base`.
/// A reference that does not resolve comes before the error that ended the scan.
pub open spec fn resolve_scan(base: Seq<char>, scan: MediaScanView) -> Result<
    PlaylistView,
    HlsErrorView,
> {
    match resolve_items(base, scan.items) {
        Err(e) => Err(HlsErrorView::InvalidUrl(e)),
        Ok(segments) => match scan.stop {
            Some(e) => Err(e),
            None => Ok(
                PlaylistView {
                    media_segments: segments,
                    is_encrypted: scan.is_encrypted,
                    has_byte_range: scan.has_byte_range,
                    is_key_i_frame_only: scan.is_key_i_frame_only,
                },
            ),
        },
    }
}

/// The media playlist that `lines` write, found at `base`.
pub open spec fn media_playlist(lines: Seq<Seq<char>>, base: Seq<char>) -> Result<
    PlaylistView,
    HlsErrorView,
> {
    match urls::parsed_url(base) {
        Err(e) => Err(HlsErrorView::InvalidUrl(e)),
        Ok(_) => if first_nonblank(lines) != Some("#EXTM3U"@) {
            Err(HlsErrorView::MissingSignature)
        } else {
            resolve_scan(base, scan_lines(lines))
        },
    }
}

/// The model of a parse result.
pub open spec fn playlist_result(r: Result<HlsPlaylist, HlsParseError>) -> Result<
    PlaylistView,
    HlsErrorView,
> {
    match r {
        Ok(p) => Ok(p@),
        Err(e) => Err(e@),
    }
}

proof fn lemma_resolve_err(base: Seq<char>, items: Seq<MediaItemView>, n: int)
    requires
        0 <= n <= items.len(),
        resolve_items(base, items.take(n)) is Err,
    ensures
        resolve_items(base, items) == resolve_items(base, items.take(n)),
    decreases items.len() - n,
{
    if n < items.len() {
        assert(items.take(n + 1).drop_last() =~= items.take(n));
        lemma_resolve_err(base, items, n + 1);
    } else {
        assert(items.take(n) =~= items);
    }
}

/// Resolves the references of a scan against the playlist's URL.
pub fn resolve_media(base_url: &str, scan: MediaScan) -> (r: Result<HlsPlaylist, HlsParseError>)
    ensures
        playlist_result(r) == resolve_scan(base_url@, scan@),
{
    let mut segments: Vec<HlsMediaSegment> = Vec::new();
    let mut i: usize = 0;
    let ghost items = item_views(scan.items@);
    assert(items.take(0) =~= Seq::empty());
    assert(segment_views(segments@) =~= Seq::empty());
    while i < scan.items.len()
        invariant
            i <= scan.items.len(),
            items == item_views(scan.items@),
            resolve_items(base_url@, items.take(i as int)) == Ok::<Seq<SegmentView>, Seq<char>>(
                segment_views(segments@),
            ),
        decreases scan.items.len() - i,
    {
        proof {
            assert(items.take(i + 1).drop_last() =~= items.take(i as int));
            assert(items.take(i + 1).last() == scan.items@[i as int]@);
        }
        let uri: &String = match &scan.items[i] {
            MediaItem::Key(u) => u,
            MediaItem::Segment(s) => &s.uri,
        };
        match join_url(base_url, uri.as_str()) {
            Err(e) => {
                proof {
                    lemma_resolve_err(base_url@, items, i + 1);
                }
                return Err(HlsParseError::InvalidUrl(e));
            },
            Ok(url) => {
                match &scan.items[i] {
                    MediaItem::Key(_) => {},
                    MediaItem::Segment(raw) => {
                        let key_url = match &raw.key_uri {
                            Some(k) => match join_url(base_url, k.as_str()) {
                                Ok(u) => Some(u),
                                Err(_) => None,
                            },
                            None => None,
                        };
                        let ghost before = segments@;
                        let segment = HlsMediaSegment {
                            url,
                            byte_range: raw.byte_range,
                            duration: raw.duration.clone(),
                            key_url,
                            iv: raw.iv,
                            is_init_segment: raw.is_init_segment,
                        };
                        let ghost shown = segment@;
                        segments.push(segment);
                        assert(segment_views(segments@) =~= segment_views(before).push(shown));
                    },
                }
            },
        }
        i += 1;
    }
    assert(items.take(i as int) =~= items);
    match scan.stop {
        Some(e) => Err(e),
        None => Ok(
            HlsPlaylist {
                media_segments: segments,
                is_encrypted: scan.is_encrypted,
                has_byte_range: scan.has_byte_range,
                is_key_i_frame_only: scan.is_key_i_frame_only,
            },
        ),
    }
}

/// Reads the lines of a media playlist found at `base_url`.
pub fn parse_media_playlist(lines: &[&str], base_url: &str) -> (r: Result<
    HlsPlaylist,
    HlsParseError,
>)
    ensures
        playlist_result(r) == media_playlist(line_texts(lines@), base_url@),
{
    match parse_url(base_url) {
        Err(e) => Err(HlsParseError::InvalidUrl(e)),
        Ok(_) => {
            if !has_signature(lines) {
                return Err(HlsParseError::MissingSignature);
            }
            let scan = scan_media(lines);
            resolve_media(base_url, scan)
        },
    }
}

// ---------------------------------------------------------------------------
// Media playlists: laws
// ---------------------------------------------------------------------------

/// The trimmed lines that are URIs of segments.
pub open spec fn uri_lines(lines: Seq<Seq<char>>) -> Seq<Seq<char>>
    decreases lines.len(),
{
    if lines.len() == 0 {
        Seq::empty()
    } else {
        let rest = uri_lines(lines.drop_last());
        let line = text::trim(lines.last());
        if is_uri_line(line) {
            rest.push(line)
        } else {
            rest
        }
    }
}

/// The URIs of the items that are segments, initialisation segments left out.
pub open spec fn segment_uris(items: Seq<MediaItemView>) -> Seq<Seq<char>>
    decreases items.len(),
{
    if items.len() == 0 {
        Seq::empty()
    } else {
        let rest = segment_uris(items.drop_last());
        match items.last() {
            MediaItemView::Segment(s) if !s.is_init_segment => rest.push(s.uri),
            _ => rest,
        }
    }
}

proof fn lemma_tag_prefixes(line: Seq<char>)
    ensures
        text::has_prefix(line, "#EXTINF:"@) ==> text::has_prefix(line, "#"@),
        text::has_prefix(line, "#EXT-X-BYTERANGE:"@) ==> text::has_prefix(line, "#"@),
        text::has_prefix(line, "#EXT-X-MEDIA-SEQUENCE:"@) ==> text::has_prefix(line, "#"@),
        text::has_prefix(line, "#EXT-X-KEY:"@) ==> text::has_prefix(line, "#"@),
        text::has_prefix(line, "#EXT-X-MAP:"@) ==> text::has_prefix(line, "#"@),
        line == "#EXTM3U"@ ==> text::has_prefix(line, "#"@),
        line == "#EXT-X-I-FRAMES-ONLY"@ ==> text::has_prefix(line, "#"@),
{
    reveal_strlit("#");
    reveal_strlit("#EXTINF:");
    reveal_strlit("#EXT-X-BYTERANGE:");
    reveal_strlit("#EXT-X-MEDIA-SEQUENCE:");
    reveal_strlit("#EXT-X-KEY:");
    reveal_strlit("#EXT-X-MAP:");
    reveal_strlit("#EXTM3U");
    reveal_strlit("#EXT-X-I-FRAMES-ONLY");
    if line.len() > 0 {
        if line[0] == '#' {
            assert(line.take(1) =~= "#"@);
        }
        if text::has_prefix(line, "#EXTINF:"@) {
            assert(line.take("#EXTINF:"@.len() as int)[0] == line[0]);
        }
        if text::has_prefix(line, "#EXT-X-BYTERANGE:"@) {
            assert(line.take("#EXT-X-BYTERANGE:"@.len() as int)[0] == line[0]);
        }
        if text::has_prefix(line, "#EXT-X-MEDIA-SEQUENCE:"@) {
            assert(line.take("#EXT-X-MEDIA-SEQUENCE:"@.len() as int)[0] == line[0]);
        }
        if text::has_prefix(line, "#EXT-X-KEY:"@) {
            assert(line.take("#EXT-X-KEY:"@.len() as int)[0] == line[0]);
        }
        if text::has_prefix(line, "#EXT-X-MAP:"@) {
            assert(line.take("#EXT-X-MAP:"@.len() as int)[0] == line[0]);
        }
    }
}

/// In a playlist that reads without error, the segments are the URI lines, each
/// once and in order; nothing is added and nothing is left out.
pub proof fn segments_are_the_uri_lines(lines: Seq<Seq<char>>)
    requires
        scan_lines(lines).stop is None,
    ensures
        segment_uris(scan_lines(lines).items) == uri_lines(lines),
    decreases lines.len(),
{
    if lines.len() > 0 {
        let st = scan_lines(lines.drop_last());
        let line = text::trim(lines.last());
        segments_are_the_uri_lines(lines.drop_last());
        lemma_tag_prefixes(line);
        let after = scan_line(st, line);
        if after.items.len() > st.items.len() {
            assert(after.items.drop_last() =~= st.items);
        }
        if text::has_prefix(line, "#"@) {
            reveal_strlit("#");
        }
    }
}

/// Every segment of a playlist without an `AES-128` key is plain: it has neither
/// a key nor an initialisation vector.
pub proof fn plain_playlists_have_no_keys(lines: Seq<Seq<char>>, i: int)
    requires
        !scan_lines(lines).is_encrypted,
        0 <= i < scan_lines(lines).items.len(),
    ensures
        scan_lines(lines).items[i] matches MediaItemView::Segment(s) && s.key_uri is None && s.iv
            is None,
{
    lemma_plain(lines);
}

proof fn lemma_plain(lines: Seq<Seq<char>>)
    requires
        !scan_lines(lines).is_encrypted,
    ensures
        !scan_lines(lines).key_set,
        scan_lines(lines).key_uri is None,
        forall|i: int|
            0 <= i < scan_lines(lines).items.len() ==> ((
            #[trigger] scan_lines(lines).items[i]) matches MediaItemView::Segment(s) && s.key_uri
                is None && s.iv is None),
    decreases lines.len(),
{
    if lines.len() > 0 {
        lemma_plain(lines.drop_last());
    }
}

/// Resolving keeps the segments in order: their URLs are the resolved references.
pub proof fn resolving_keeps_the_segments(base: Seq<char>, items: Seq<MediaItemView>)
    requires
        resolve_items(base, items) is Ok,
    ensures
        plain_segments(resolve_items(base, items)->Ok_0) == resolved_uris(base, segment_uris(items)),
    decreases items.len(),
{
    if items.len() > 0 {
        resolving_keeps_the_segments(base, items.drop_last());
        let before = resolve_items(base, items.drop_last())->Ok_0;
        let after = resolve_items(base, items)->Ok_0;
        match items.last() {
            MediaItemView::Segment(s) => {
                assert(after.drop_last() =~= before);
                if !s.is_init_segment {
                    let u = segment_uris(items);
                    assert(u.drop_last() =~= segment_uris(items.drop_last()));
                    assert(u.last() == s.uri);
                    assert(resolved_uris(base, u) =~= resolved_uris(base, u.drop_last()).push(
                        resolved(base, s.uri),
                    ));
                }
            },
            _ => {},
        }
    } else {
        assert(resolved_uris(base, segment_uris(items)) =~= Seq::empty());
    }
}

/// The URLs of the segments, initialisation segments left out.
pub open spec fn plain_segments(s: Seq<SegmentView>) -> Seq<Option<Seq<char>>>
    decreases s.len(),
{
    if s.len() == 0 {
        Seq::empty()
    } else if s.last().is_init_segment {
        plain_segments(s.drop_last())
    } else {
        plain_segments(s.drop_last()).push(Some(s.last().url))
    }
}

/// The references resolved, in order.
pub open spec fn resolved_uris(base: Seq<char>, uris: Seq<Seq<char>>) -> Seq<Option<Seq<char>>> {
    uris.map_values(|u: Seq<char>| resolved(base, u))
}

/// The segments of a playlist are its URI lines, resolved against the playlist's
/// URL, each once and in order.
pub proof fn playlist_lists_the_uri_lines(lines: Seq<Seq<char>>, base: Seq<char>)
    requires
        media_playlist(lines, base) is Ok,
    ensures
        plain_segments(media_playlist(lines, base)->Ok_0.media_segments) == resolved_uris(
            base,
            uri_lines(lines),
        ),
{
    segments_are_the_uri_lines(lines);
    resolving_keeps_the_segments(base, scan_lines(lines).items);
}

// ---------------------------------------------------------------------------
// Master playlists
// ---------------------------------------------------------------------------

/// What has been read of a master playlist.
#[derive(Debug)]
pub struct MasterScan {
    /// The attributes of the `#EXT-X-MEDIA` tags.
    pub renditions: Vec<StrMap<String>>,
    /// The attributes of each `#EXT-X-STREAM-INF` tag with the URI line after it.
    pub variants: Vec<(StrMap<String>, String)>,
    /// A stream tag whose URI line has not come yet.
    pub pending: Option<StrMap<String>>,
}

pub type Attrs = Map<Seq<char>, Seq<char>>;

#[verifier::ext_equal]
pub struct MasterScanView {
    pub renditions: Seq<Attrs>,
    pub variants: Seq<(Attrs, Seq<char>)>,
    pub pending: Option<Attrs>,
}

pub open spec fn attrs_view(m: StrMap<String>) -> Attrs {
    strmap::text_values(m@)
}

pub open spec fn rendition_views(v: Seq<StrMap<String>>) -> Seq<Attrs> {
    v.map_values(|m: StrMap<String>| attrs_view(m))
}

pub open spec fn variant_views(v: Seq<(StrMap<String>, String)>) -> Seq<(Attrs, Seq<char>)> {
    v.map_values(|p: (StrMap<String>, String)| (attrs_view(p.0), p.1@))
}

impl View for MasterScan {
    type V = MasterScanView;

    open spec fn view(&self) -> MasterScanView {
        MasterScanView {
            renditions: rendition_views(self.renditions@),
            variants: variant_views(self.variants@),
            pending: match self.pending {
                Some(m) => Some(attrs_view(m)),
                None => None,
            },
        }
    }
}

/// The effect of one trimmed line of a master playlist. A stream tag belongs to
/// the URI line that follows it; a URI line without one is passed over.
pub open spec fn master_line(st: MasterScanView, line: Seq<char>) -> MasterScanView {
    if text::has_prefix(line, "#EXT-X-MEDIA:"@) {
        let rest = line.skip("#EXT-X-MEDIA:"@.len() as int);
        MasterScanView { renditions: st.renditions.push(attributes::attributes(rest)), ..st }
    } else if text::has_prefix(line, "#EXT-X-STREAM-INF:"@) {
        let rest = line.skip("#EXT-X-STREAM-INF:"@.len() as int);
        MasterScanView { pending: Some(attributes::attributes(rest)), ..st }
    } else if is_uri_line(line) && st.pending is Some {
        MasterScanView {
            variants: st.variants.push((st.pending->0, line)),
            pending: None,
            ..st
        }
    } else {
        st
    }
}

pub open spec fn master_lines(lines: Seq<Seq<char>>) -> MasterScanView
    decreases lines.len(),
{
    if lines.len() == 0 {
        MasterScanView { renditions: Seq::empty(), variants: Seq::empty(), pending: None }
    } else {
        master_line(master_lines(lines.drop_last()), text::trim(lines.last()))
    }
}

impl MasterScan {
    /// Takes in one trimmed line.
    fn line(&mut self, line: &[char])
        ensures
            final(self)@ == master_line(old(self)@, line@),
    {
        if let Some(rest) = strip_prefix(line, "#EXT-X-MEDIA:") {
            let attrs = parse_attributes(string_of(rest).as_str());
            let ghost before = self.renditions@;
            let ghost shown = attrs_view(attrs);
            self.renditions.push(attrs);
            assert(rendition_views(self.renditions@) =~= rendition_views(before).push(shown));
        } else if let Some(rest) = strip_prefix(line, "#EXT-X-STREAM-INF:") {
            self.pending = Some(parse_attributes(string_of(rest).as_str()));
        } else if line.len() > 0 && !starts_with(line, "#") {
            match self.pending.take() {
                Some(attrs) => {
                    let ghost before = self.variants@;
                    let pair = (attrs, string_of(line));
                    let ghost shown = (attrs_view(pair.0), pair.1@);
                    self.variants.push(pair);
                    assert(variant_views(self.variants@) =~= variant_views(before).push(shown));
                },
                None => {},
            }
        }
        assert(self@ =~= master_line(old(self)@, line@));
    }
}

/// Reads the lines of a master playlist.
pub fn scan_master(lines: &[&str]) -> (r: MasterScan)
    ensures
        r@ == master_lines(line_texts(lines@)),
{
    let mut scan = MasterScan { renditions: Vec::new(), variants: Vec::new(), pending: None };
    let mut i: usize = 0;
    assert(line_texts(lines@).take(0) =~= Seq::empty());
    assert(scan@ =~= master_lines(Seq::empty()));
    while i < lines.len()
        invariant
            i <= lines.len(),
            scan@ == master_lines(line_texts(lines@).take(i as int)),
        decreases lines.len() - i,
    {
        let cs = chars_of(lines[i]);
        scan.line(trimmed(cs.as_slice()));
        proof {
            let next = line_texts(lines@).take(i + 1);
            assert(next.drop_last() =~= line_texts(lines@).take(i as int));
            assert(next.last() == lines@[i as int]@);
        }
        i += 1;
    }
    assert(line_texts(lines@).take(i as int) =~= line_texts(lines@));
    scan
}

/// Whether a rendition is of the given group and type.
pub open spec fn in_group(m: Attrs, group: Seq<char>, kind: Seq<char>) -> bool {
    attributes::attribute(m, "GROUP-ID"@) == Some(group) && attributes::attribute(m, "TYPE"@)
        == Some(kind)
}

/// The URL of a rendition that is in the group, has a URI, and whose URI resolves.
pub open spec fn rendition_url(
    base: Seq<char>,
    m: Attrs,
    group: Seq<char>,
    kind: Seq<char>,
) -> Option<Seq<char>> {
    if in_group(m, group, kind) {
        match attributes::attribute(m, "URI"@) {
            Some(u) => resolved(base, u),
            None => None,
        }
    } else {
        None
    }
}

/// The URL of the first rendition that has one.
pub open spec fn group_url(
    base: Seq<char>,
    renditions: Seq<Attrs>,
    group: Seq<char>,
    kind: Seq<char>,
) -> Option<Seq<char>>
    decreases renditions.len(),
{
    if renditions.len() == 0 {
        None
    } else {
        match rendition_url(base, renditions[0], group, kind) {
            Some(u) => Some(u),
            None => group_url(base, renditions.skip(1), group, kind),
        }
    }
}

/// The model of a variant.
#[verifier::ext_equal]
pub struct ContainerView {
    pub video_playlist: Option<Seq<char>>,
    pub audio_playlist: Option<Seq<char>>,
    pub attributes: Attrs,
}

impl View for HlsPlaylistContainer {
    type V = ContainerView;

    open spec fn view(&self) -> ContainerView {
        ContainerView {
            video_playlist: text::opt(self.video_playlist),
            audio_playlist: text::opt(self.audio_playlist),
            attributes: attrs_view(self.attributes),
        }
    }
}

pub open spec fn container_views(v: Seq<HlsPlaylistContainer>) -> Seq<ContainerView> {
    v.map_values(|c: HlsPlaylistContainer| c@)
}

/// A variant with its playlists: a variant with an audio group is the video and
/// the group gives the audio; one with a video group is the audio and the group
/// gives the video; any other is both in one.
pub open spec fn container(
    base: Seq<char>,
    renditions: Seq<Attrs>,
    attrs: Attrs,
    url: Seq<char>,
) -> ContainerView {
    match attributes::attribute(attrs, "AUDIO"@) {
        Some(group) => ContainerView {
            video_playlist: Some(url),
            audio_playlist: group_url(base, renditions, group, "AUDIO"@),
            attributes: attrs,
        },
        None => match attributes::attribute(attrs, "VIDEO"@) {
            Some(group) => ContainerView {
                video_playlist: group_url(base, renditions, group, "VIDEO"@),
                audio_playlist: Some(url),
                attributes: attrs,
            },
            None => ContainerView {
                video_playlist: Some(url),
                audio_playlist: None,
                attributes: attrs,
            },
        },
    }
}

/// The variants resolved in order, or the message of the first URI that does not
/// resolve.
pub open spec fn resolve_variants(
    base: Seq<char>,
    renditions: Seq<Attrs>,
    variants: Seq<(Attrs, Seq<char>)>,
) -> Result<Seq<ContainerView>, Seq<char>>
    decreases variants.len(),
{
    if variants.len() == 0 {
        Ok(Seq::empty())
    } else {
        match resolve_variants(base, renditions, variants.drop_last()) {
            Err(e) => Err(e),
            Ok(done) => match urls::joined_url(base, variants.last().1) {
                Err(e) => Err(e),
                Ok(url) => Ok(done.push(container(base, renditions, variants.last().0, url))),
            },
        }
    }
}

/// The variants of the master playlist that `lines` write, found at `base`.
pub open spec fn master_playlist(lines: Seq<Seq<char>>, base: Seq<char>) -> Result<
    Seq<ContainerView>,
    HlsErrorView,
> {
    match urls::parsed_url(base) {
        Err(e) => Err(HlsErrorView::InvalidUrl(e)),
        Ok(_) => if first_nonblank(lines) != Some("#EXTM3U"@) {
            Err(HlsErrorView::MissingSignature)
        } else {
            let scan = master_lines(lines);
            match resolve_variants(base, scan.renditions, scan.variants) {
                Err(e) => Err(HlsErrorView::InvalidUrl(e)),
                Ok(v) => Ok(v),
            }
        },
    }
}

pub open spec fn master_result(r: Result<Vec<HlsPlaylistContainer>, HlsParseError>) -> Result<
    Seq<ContainerView>,
    HlsErrorView,
> {
    match r {
        Ok(v) => Ok(container_views(v@)),
        Err(e) => Err(e@),
    }
}

fn find_group(
    base_url: &str,
    renditions: &Vec<StrMap<String>>,
    group: &str,
    kind: &str,
) -> (r: Option<String>)
    ensures
        text::opt(r) == group_url(base_url@, rendition_views(renditions@), group@, kind@),
{
    let mut i: usize = 0;
    let ghost all = rendition_views(renditions@);
    assert(all.skip(0) =~= all);
    while i < renditions.len()
        invariant
            i <= renditions.len(),
            all == rendition_views(renditions@),
            group_url(base_url@, all, group@, kind@) == group_url(
                base_url@,
                all.skip(i as int),
                group@,
                kind@,
            ),
        decreases renditions.len() - i,
    {
        let m = &renditions[i];
        assert(all.skip(i as int)[0] == attrs_view(*m));
        assert(all.skip(i as int).skip(1) =~= all.skip(i + 1));
        let same_group = match attr(m, "GROUP-ID") {
            Some(g) => str_eq(g.as_str(), group),
            None => false,
        };
        let same_kind = match attr(m, "TYPE") {
            Some(k) => str_eq(k.as_str(), kind),
            None => false,
        };
        if same_group && same_kind {
            match attr(m, "URI") {
                Some(u) => match join_url(base_url, u.as_str()) {
                    Ok(url) => {
                        return Some(url);
                    },
                    Err(_) => {},
                },
                None => {},
            }
        }
        i += 1;
    }
    assert(all.skip(i as int).len() == 0);
    None
}

proof fn lemma_variants_err(
    base: Seq<char>,
    renditions: Seq<Attrs>,
    variants: Seq<(Attrs, Seq<char>)>,
    n: int,
)
    requires
        0 <= n <= variants.len(),
        resolve_variants(base, renditions, variants.take(n)) is Err,
    ensures
        resolve_variants(base, renditions, variants) == resolve_variants(
            base,
            renditions,
            variants.take(n),
        ),
    decreases variants.len() - n,
{
    if n < variants.len() {
        assert(variants.take(n + 1).drop_last() =~= variants.take(n));
        lemma_variants_err(base, renditions, variants, n + 1);
    } else {
        assert(variants.take(n) =~= variants);
    }
}

/// Resolves the variants of a master playlist against its URL.
pub fn resolve_master(base_url: &str, scan: &MasterScan) -> (r: Result<
    Vec<HlsPlaylistContainer>,
    String,
>)
    ensures
        match r {
            Ok(v) => resolve_variants(base_url@, scan@.renditions, scan@.variants) == Ok::<
                Seq<ContainerView>,
                Seq<char>,
            >(container_views(v@)),
            Err(e) => resolve_variants(base_url@, scan@.renditions, scan@.variants) == Err::<
                Seq<ContainerView>,
                Seq<char>,
            >(e@),
        },
{
    let mut out: Vec<HlsPlaylistContainer> = Vec::new();
    let mut i: usize = 0;
    let ghost all = variant_views(scan.variants@);
    assert(all.take(0) =~= Seq::empty());
    assert(container_views(out@) =~= Seq::empty());
    while i < scan.variants.len()
        invariant
            i <= scan.variants.len(),
            all == variant_views(scan.variants@),
            resolve_variants(base_url@, scan@.renditions, all.take(i as int)) == Ok::<
                Seq<ContainerView>,
                Seq<char>,
            >(container_views(out@)),
        decreases scan.variants.len() - i,
    {
        let attrs = &scan.variants[i].0;
        proof {
            assert(all.take(i + 1).drop_last() =~= all.take(i as int));
            assert(all.take(i + 1).last() == all[i as int]);
        }
        match join_url(base_url, scan.variants[i].1.as_str()) {
            Err(e) => {
                proof {
                    lemma_variants_err(base_url@, scan@.renditions, all, i + 1);
                }
                return Err(e);
            },
            Ok(url) => {
                let c = match attr(attrs, "AUDIO") {
                    Some(group) => HlsPlaylistContainer {
                        video_playlist: Some(url),
                        audio_playlist: find_group(
                            base_url,
                            &scan.renditions,
                            group.as_str(),
                            "AUDIO",
                        ),
                        attributes: attrs.copy(),
                    },
                    None => match attr(attrs, "VIDEO") {
                        Some(group) => HlsPlaylistContainer {
                            video_playlist: find_group(
                                base_url,
                                &scan.renditions,
                                group.as_str(),
                                "VIDEO",
                            ),
                            audio_playlist: Some(url),
                            attributes: attrs.copy(),
                        },
                        None => HlsPlaylistContainer {
                            video_playlist: Some(url),
                            audio_playlist: None,
                            attributes: attrs.copy(),
                        },
                    },
                };
                let ghost before = out@;
                let ghost shown = c@;
                out.push(c);
                assert(container_views(out@) =~= container_views(before).push(shown));
            },
        }
        i += 1;
    }
    assert(all.take(i as int) =~= all);
    Ok(out)
}

/// Reads the lines of a master playlist found at `base_url` into its variants.
pub fn parse_master_playlist(lines: &[&str], base_url: &str) -> (r: Result<
    Vec<HlsPlaylistContainer>,
    HlsParseError,
>)
    ensures
        master_result(r) == master_playlist(line_texts(lines@), base_url@),
{
    match parse_url(base_url) {
        Err(e) => Err(HlsParseError::InvalidUrl(e)),
        Ok(_) => {
            if !has_signature(lines) {
                return Err(HlsParseError::MissingSignature);
            }
            let scan = scan_master(lines);
            match resolve_master(base_url, &scan) {
                Ok(v) => Ok(v),
                Err(e) => Err(HlsParseError::InvalidUrl(e)),
            }
        },
    }
}

/// The label of a variant: its resolution, else its name, else its bandwidth, else
/// its language, else "unknown".
pub open spec fn quality_label(attrs: Attrs) -> Seq<char> {
    match attributes::attribute(attrs, "RESOLUTION"@) {
        Some(r) => r,
        None => match attributes::attribute(attrs, "NAME"@) {
            Some(n) => n,
            None => match attributes::attribute(attrs, "BANDWIDTH"@) {
                Some(b) => b + " bps"@,
                None => match attributes::attribute(attrs, "LANGUAGE"@) {
                    Some(l) => l,
                    None => "unknown"@,
                },
            },
        },
    }
}

impl HlsPlaylistContainer {
    /// The label of the variant.
    pub fn quality(&self) -> (r: String)
        ensures
            r@ == quality_label(self@.attributes),
    {
        if let Some(res) = attr(&self.attributes, "RESOLUTION") {
            return res.clone();
        }
        if let Some(name) = attr(&self.attributes, "NAME") {
            return name.clone();
        }
        if let Some(bw) = attr(&self.attributes, "BANDWIDTH") {
            return cat2(bw.as_str(), " bps");
        }
        if let Some(lang) = attr(&self.attributes, "LANGUAGE") {
            return lang.clone();
        }
        "unknown".to_string()
    }
}

/// A master playlist has one container for each stream tag that a URI line
/// follows, in order and with the attributes of that tag.
pub proof fn containers_follow_the_variants(
    base: Seq<char>,
    renditions: Seq<Attrs>,
    variants: Seq<(Attrs, Seq<char>)>,
)
    requires
        resolve_variants(base, renditions, variants) is Ok,
    ensures
        resolve_variants(base, renditions, variants)->Ok_0.len() == variants.len(),
        forall|i: int|
            0 <= i < variants.len() ==> (#[trigger] resolve_variants(
                base,
                renditions,
                variants,
            )->Ok_0[i]).attributes == variants[i].0,
    decreases variants.len(),
{
    if variants.len() > 0 {
        containers_follow_the_variants(base, renditions, variants.drop_last());
    }
}

} // verus!

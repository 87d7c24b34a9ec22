//! Names and extensions of the files that downloads are saved to.

use vstd::prelude::*;
use vstd::slice::slice_subrange;

use crate::clock::nanos_now;
use crate::number;
use crate::number::{dec_u128, pad_zeros, parse_hex_upto, parse_u32, write_radix};
use crate::paths;
use crate::paths::{get_extension, get_file_stem, get_parent, join_path};
use crate::text;
use crate::text::{
    cat3, chars_of, cut_after_last, cut_before_first, first_of_from, is, join_chars, one_of,
    push_chars, push_str, split_words, string_of, strip_prefix, take_chars, to_lower, trimmed,
    trimmed_set,
};

verus! {

/// `char::from_u32`: the character with the given code, where there is one: not
/// above 0x10FFFF and not a surrogate.
pub assume_specification[ char::from_u32 ](i: u32) -> (r: Option<char>)
    ensures
        r == (if i < 0xD800 || 0xE000 <= i <= 0x10FFFF {
            Some(i as char)
        } else {
            None
        }),
;

// ---------------------------------------------------------------------------
// Extensions
// ---------------------------------------------------------------------------

/// The extensions that are taken at their word when a URL or name ends in them.
/// `txt` is not among them: playlists are found behind it.
pub open spec fn trusted_exts() -> Seq<Seq<char>> {
    seq![
        "mp4"@, "mkv"@, "webm"@, "mov"@, "avi"@, "flv"@, "ts"@, "m3u8"@, "mpd"@, "mp3"@, "m4a"@,
        "aac"@, "wav"@, "ogg"@, "flac"@, "pdf"@, "zip"@, "rar"@, "7z"@, "jpg"@, "jpeg"@, "png"@,
        "gif"@, "webp"@, "bmp"@, "svg"@, "doc"@, "docx"@, "xls"@, "xlsx"@, "ppt"@, "pptx"@, "csv"@,
        "json"@, "exe"@, "msi"@, "dmg"@, "apk"@, "srt"@, "vtt"@
    ]
}

/// Whether an extension is taken at its word.
pub fn is_trusted_ext(ext: &str) -> (r: bool)
    ensures
        r == trusted_exts().contains(ext@),
{
    let list: Vec<&str> = vec![
        "mp4", "mkv", "webm", "mov", "avi", "flv", "ts", "m3u8", "mpd", "mp3", "m4a",
        "aac", "wav", "ogg", "flac", "pdf", "zip", "rar", "7z", "jpg", "jpeg", "png",
        "gif", "webp", "bmp", "svg", "doc", "docx", "xls", "xlsx", "ppt", "pptx", "csv",
        "json", "exe", "msi", "dmg", "apk", "srt", "vtt"
    ];
    assert(text::str_texts(list@) =~= trusted_exts());
    let cs = chars_of(ext);
    one_of(cs.as_slice(), &list)
}

/// The extension of the files of a media type, parameters left out and in lower
/// case.
pub open spec fn mime_extension(base: Seq<char>) -> Option<Seq<char>> {
    if base == "video/mp4"@ || base == "video/x-m4v"@ {
        Some("mp4"@)
    } else if base == "video/webm"@ {
        Some("webm"@)
    } else if base == "video/x-matroska"@ {
        Some("mkv"@)
    } else if base == "video/quicktime"@ {
        Some("mov"@)
    } else if base == "video/x-msvideo"@ {
        Some("avi"@)
    } else if base == "video/x-flv"@ {
        Some("flv"@)
    } else if base == "video/mp2t"@ {
        Some("ts"@)
    } else if base == "audio/mpeg"@ {
        Some("mp3"@)
    } else if base == "audio/mp4"@ || base == "audio/x-m4a"@ {
        Some("m4a"@)
    } else if base == "audio/aac"@ {
        Some("aac"@)
    } else if base == "audio/wav"@ || base == "audio/x-wav"@ || base == "audio/wave"@ {
        Some("wav"@)
    } else if base == "audio/ogg"@ {
        Some("ogg"@)
    } else if base == "audio/flac"@ || base == "audio/x-flac"@ {
        Some("flac"@)
    } else if base == "application/pdf"@ {
        Some("pdf"@)
    } else if base == "application/zip"@ {
        Some("zip"@)
    } else if base == "application/x-rar-compressed"@ || base == "application/vnd.rar"@ {
        Some("rar"@)
    } else if base == "image/jpeg"@ {
        Some("jpg"@)
    } else if base == "image/png"@ {
        Some("png"@)
    } else if base == "image/gif"@ {
        Some("gif"@)
    } else if base == "image/webp"@ {
        Some("webp"@)
    } else if base == "image/bmp"@ {
        Some("bmp"@)
    } else if base == "image/svg+xml"@ {
        Some("svg"@)
    } else if base == "application/vnd.apple.mpegurl"@ || base == "application/x-mpegurl"@ {
        Some("m3u8"@)
    } else if base == "application/dash+xml"@ {
        Some("mpd"@)
    } else {
        None
    }
}

/// The media type of a `Content-Type` value without its parameters.
pub open spec fn mime_base(mime: Seq<char>) -> Seq<char> {
    text::lower(text::trim(text::before_first(mime, ";"@)))
}

/// The extension for a `Content-Type` value.
pub fn extension_for_mime(mime: &str) -> (r: Option<&'static str>)
    ensures
        text::opt_str(r) == mime_extension(mime_base(mime@)),
{
    let cs = chars_of(mime);
    let lowered = to_lower(trimmed(cut_before_first(cs.as_slice(), ";")));
    let base = lowered.as_slice();
    if is(base, "video/mp4") || is(base, "video/x-m4v") {
        Some("mp4")
    } else if is(base, "video/webm") {
        Some("webm")
    } else if is(base, "video/x-matroska") {
        Some("mkv")
    } else if is(base, "video/quicktime") {
        Some("mov")
    } else if is(base, "video/x-msvideo") {
        Some("avi")
    } else if is(base, "video/x-flv") {
        Some("flv")
    } else if is(base, "video/mp2t") {
        Some("ts")
    } else if is(base, "audio/mpeg") {
        Some("mp3")
    } else if is(base, "audio/mp4") || is(base, "audio/x-m4a") {
        Some("m4a")
    } else if is(base, "audio/aac") {
        Some("aac")
    } else if is(base, "audio/wav") || is(base, "audio/x-wav") || is(base, "audio/wave") {
        Some("wav")
    } else if is(base, "audio/ogg") {
        Some("ogg")
    } else if is(base, "audio/flac") || is(base, "audio/x-flac") {
        Some("flac")
    } else if is(base, "application/pdf") {
        Some("pdf")
    } else if is(base, "application/zip") {
        Some("zip")
    } else if is(base, "application/x-rar-compressed") || is(base, "application/vnd.rar") {
        Some("rar")
    } else if is(base, "image/jpeg") {
        Some("jpg")
    } else if is(base, "image/png") {
        Some("png")
    } else if is(base, "image/gif") {
        Some("gif")
    } else if is(base, "image/webp") {
        Some("webp")
    } else if is(base, "image/bmp") {
        Some("bmp")
    } else if is(base, "image/svg+xml") {
        Some("svg")
    } else if is(base, "application/vnd.apple.mpegurl") || is(base, "application/x-mpegurl") {
        Some("m3u8")
    } else if is(base, "application/dash+xml") {
        Some("mpd")
    } else {
        None
    }
}

/// Whether the ASCII text `s` stands in the bytes at position `i`.
pub open spec fn ascii_at(bytes: Seq<u8>, i: int, s: Seq<char>) -> bool {
    &&& 0 <= i
    &&& i + s.len() <= bytes.len()
    &&& forall|k: int| 0 <= k < s.len() ==> bytes[i + k] as u32 == (#[trigger] s[k]) as u32
}

/// Whether the element of a DASH manifest begins within the first 512 bytes.
pub open spec fn has_mpd(bytes: Seq<u8>) -> bool {
    exists|i: int| i + 4 <= 512 && #[trigger] ascii_at(bytes, i, "<MPD"@)
}

pub open spec fn is_png(b: Seq<u8>) -> bool {
    b.len() >= 8 && b[0] == 0x89 && ascii_at(b, 1, "PNG"@) && b[4] == 0x0D && b[5] == 0x0A && b[6]
        == 0x1A && b[7] == 0x0A
}

/// The extension that the first bytes of a file give away.
pub open spec fn sniffed(b: Seq<u8>) -> Option<Seq<char>> {
    if ascii_at(b, 0, "#EXTM3U"@) {
        Some("m3u8"@)
    } else if has_mpd(b) {
        Some("mpd"@)
    } else if ascii_at(b, 4, "ftyp"@) {
        Some("mp4"@)
    } else if b.len() >= 4 && b[0] == 0x1A && b[1] == 0x45 && b[2] == 0xDF && b[3] == 0xA3 {
        Some("webm"@)
    } else if ascii_at(b, 0, "%PDF-"@) {
        Some("pdf"@)
    } else if is_png(b) {
        Some("png"@)
    } else if b.len() >= 3 && b[0] == 0xFF && b[1] == 0xD8 && b[2] == 0xFF {
        Some("jpg"@)
    } else if ascii_at(b, 0, "GIF87a"@) || ascii_at(b, 0, "GIF89a"@) {
        Some("gif"@)
    } else if ascii_at(b, 0, "RIFF"@) && ascii_at(b, 8, "WEBP"@) {
        Some("webp"@)
    } else if ascii_at(b, 0, "RIFF"@) && ascii_at(b, 8, "WAVE"@) {
        Some("wav"@)
    } else if ascii_at(b, 0, "RIFF"@) && ascii_at(b, 8, "AVI"@) {
        Some("avi"@)
    } else if ascii_at(b, 0, "OggS"@) {
        Some("ogg"@)
    } else if ascii_at(b, 0, "fLaC"@) {
        Some("flac"@)
    } else if ascii_at(b, 0, "ID3"@) || (b.len() >= 2 && b[0] == 0xFF && b[1] >= 0xE0) {
        Some("mp3"@)
    } else if ascii_at(b, 0, "PK\u{3}\u{4}"@) {
        Some("zip"@)
    } else if b.len() >= 189 && b[0] == 0x47 && b[188] == 0x47 {
        Some("ts"@)
    } else {
        None
    }
}

/// Whether the ASCII text `s` stands in the bytes at position `i`.
pub fn text_at(bytes: &[u8], i: usize, s: &str) -> (r: bool)
    ensures
        r == ascii_at(bytes@, i as int, s@),
{
    let cs = chars_of(s);
    if i > bytes.len() || cs.len() > bytes.len() - i {
        return false;
    }
    let mut k: usize = 0;
    while k < cs.len()
        invariant
            k <= cs.len(),
            cs@ == s@,
            i + cs.len() <= bytes.len(),
            forall|j: int| 0 <= j < k ==> bytes@[i + j] as u32 == (#[trigger] s@[j]) as u32,
        decreases cs.len() - k,
    {
        if bytes[i + k] as u32 != cs[k] as u32 {
            assert(bytes@[i + k] as u32 != s@[k as int] as u32);
            return false;
        }
        k += 1;
    }
    true
}

fn mpd_in(bytes: &[u8]) -> (r: bool)
    ensures
        r == has_mpd(bytes@),
{
    proof {
        reveal_strlit("<MPD");
    }
    let mut i: usize = 0;
    while i + 4 <= 512
        invariant
            i <= 509,
            forall|j: int| 0 <= j < i ==> !#[trigger] ascii_at(bytes@, j, "<MPD"@),
        decreases 512 - i,
    {
        if text_at(bytes, i, "<MPD") {
            return true;
        }
        i += 1;
    }
    assert(forall|j: int| j < 0 ==> !#[trigger] ascii_at(bytes@, j, "<MPD"@));
    false
}

/// Guesses a file's extension from its first bytes.
pub fn sniff_extension_from_bytes(bytes: &[u8]) -> (r: Option<&'static str>)
    ensures
        text::opt_str(r) == sniffed(bytes@),
{
    let n: usize = bytes.len();
    if text_at(bytes, 0, "#EXTM3U") {
        return Some("m3u8");
    }
    if mpd_in(bytes) {
        return Some("mpd");
    }
    if text_at(bytes, 4, "ftyp") {
        return Some("mp4");
    }
    if n >= 4 && bytes[0] == 0x1A && bytes[1] == 0x45 && bytes[2] == 0xDF && bytes[3] == 0xA3 {
        return Some("webm");
    }
    if text_at(bytes, 0, "%PDF-") {
        return Some("pdf");
    }
    if n >= 8 && bytes[0] == 0x89 && text_at(bytes, 1, "PNG") && bytes[4] == 0x0D && bytes[5] == 0x0A
        && bytes[6] == 0x1A && bytes[7] == 0x0A {
        return Some("png");
    }
    if n >= 3 && bytes[0] == 0xFF && bytes[1] == 0xD8 && bytes[2] == 0xFF {
        return Some("jpg");
    }
    if text_at(bytes, 0, "GIF87a") || text_at(bytes, 0, "GIF89a") {
        return Some("gif");
    }
    let riff: bool = text_at(bytes, 0, "RIFF");
    if riff && text_at(bytes, 8, "WEBP") {
        return Some("webp");
    }
    if riff && text_at(bytes, 8, "WAVE") {
        return Some("wav");
    }
    if riff && text_at(bytes, 8, "AVI") {
        return Some("avi");
    }
    if text_at(bytes, 0, "OggS") {
        return Some("ogg");
    }
    if text_at(bytes, 0, "fLaC") {
        return Some("flac");
    }
    if text_at(bytes, 0, "ID3") || (n >= 2 && bytes[0] == 0xFF && bytes[1] >= 0xE0) {
        return Some("mp3");
    }
    if text_at(bytes, 0, "PK\u{3}\u{4}") {
        return Some("zip");
    }
    if n >= 189 && bytes[0] == 0x47 && bytes[188] == 0x47 {
        return Some("ts");
    }
    None
}

/// The extension of a name in lower case; empty where it has none.
pub open spec fn lower_extension(name: Seq<char>) -> Seq<char> {
    match paths::extension(name) {
        Some(e) => text::lower(e),
        None => Seq::empty(),
    }
}

/// The extension of a name in lower case; empty where it has none.
pub fn current_extension(name: &str) -> (r: String)
    ensures
        r@ == lower_extension(name@),
{
    match get_extension(name) {
        Some(e) => {
            let cs = chars_of(e.as_str());
            let l = to_lower(cs.as_slice());
            string_of(l.as_slice())
        },
        None => {
            let r = String::new();
            assert(r@ =~= Seq::empty());
            r
        },
    }
}

/// Whether the server has to be asked what a URL really is.
pub fn needs_probe(url_or_filename: &str) -> (r: bool)
    ensures
        r == !trusted_exts().contains(lower_extension(url_or_filename@)),
{
    let ext = current_extension(url_or_filename);
    !is_trusted_ext(ext.as_str())
}

/// The extension that a response shows: its media type's, else what its first
/// bytes give away.
pub open spec fn response_extension(content_type: Option<Seq<char>>, sample: Seq<u8>) -> Option<
    Seq<char>,
> {
    let by_type = match content_type {
        Some(t) => mime_extension(mime_base(t)),
        None => None,
    };
    if by_type is Some {
        by_type
    } else {
        sniffed(sample)
    }
}

/// What a successful response to the question of [`needs_probe`] shows.
pub fn extension_of_response(content_type: Option<&str>, sample: &[u8]) -> (r: Option<&'static str>)
    ensures
        text::opt_str(r) == response_extension(text::opt_str(content_type), sample@),
{
    if let Some(ct) = content_type {
        if let Some(ext) = extension_for_mime(ct) {
            return Some(ext);
        }
    }
    sniff_extension_from_bytes(sample)
}

// ---------------------------------------------------------------------------
// Titles
// ---------------------------------------------------------------------------

/// The character with code `n`, where there is one.
pub open spec fn char_of_code(n: nat) -> Option<char> {
    if n < 0xD800 || 0xE000 <= n <= 0x10FFFF {
        Some((n as u32) as char)
    } else {
        None
    }
}

/// The character that an HTML entity (without `&` and `;`) stands for.
pub open spec fn entity(e: Seq<char>) -> Option<char> {
    if e == "amp"@ {
        Some('&')
    } else if e == "lt"@ {
        Some('<')
    } else if e == "gt"@ {
        Some('>')
    } else if e == "quot"@ {
        Some('"')
    } else if e == "apos"@ {
        Some('\'')
    } else if e == "nbsp"@ {
        Some(' ')
    } else if text::has_prefix(e, "#x"@) || text::has_prefix(e, "#X"@) {
        match number::parsed_hex(e.skip(2), u32::MAX as nat) {
            Some(n) => char_of_code(n),
            None => None,
        }
    } else if text::has_prefix(e, "#"@) {
        match number::parsed_nat(e.skip(1), u32::MAX as nat) {
            Some(n) => char_of_code(n),
            None => None,
        }
    } else {
        None
    }
}

/// The entity that begins at position `i`: the character it stands for and the
/// position after it. Its name has one to nine characters.
pub open spec fn entity_at(s: Seq<char>, i: int) -> Option<(char, int)> {
    let semi = text::first_of(s, ";"@, i);
    if s[i] == '&' && semi < s.len() && 2 <= semi - i <= 10 {
        match entity(s.subrange(i + 1, semi)) {
            Some(c) => Some((c, semi + 1)),
            None => None,
        }
    } else {
        None
    }
}

/// `s` from position `i` on with its entities replaced; what is no known entity is
/// left as it is.
pub open spec fn decoded_from(s: Seq<char>, i: int) -> Seq<char>
    decreases s.len() - i,
{
    if i < 0 || i >= s.len() {
        Seq::empty()
    } else {
        match entity_at(s, i) {
            Some((c, next)) if next > i => seq![c] + decoded_from(s, next),
            _ => seq![s[i]] + decoded_from(s, i + 1),
        }
    }
}

/// A text with its HTML entities replaced.
pub open spec fn decoded(s: Seq<char>) -> Seq<char> {
    decoded_from(s, 0)
}

fn char_with_code(n: u32) -> (r: Option<char>)
    ensures
        r == char_of_code(n as nat),
{
    char::from_u32(n)
}

/// The character that an HTML entity stands for.
pub fn decode_one_html_entity(e: &[char]) -> (r: Option<char>)
    ensures
        r == entity(e@),
{
    proof {
        reveal_strlit("#x");
        reveal_strlit("#X");
        reveal_strlit("#");
    }
    if is(e, "amp") {
        Some('&')
    } else if is(e, "lt") {
        Some('<')
    } else if is(e, "gt") {
        Some('>')
    } else if is(e, "quot") {
        Some('"')
    } else if is(e, "apos") {
        Some('\'')
    } else if is(e, "nbsp") {
        Some(' ')
    } else if let Some(hex) = strip_prefix(e, "#x") {
        match parse_hex_upto(hex, u32::MAX) {
            Some(n) => char_with_code(n),
            None => None,
        }
    } else if let Some(hex) = strip_prefix(e, "#X") {
        match parse_hex_upto(hex, u32::MAX) {
            Some(n) => char_with_code(n),
            None => None,
        }
    } else if let Some(dec) = strip_prefix(e, "#") {
        match parse_u32(dec) {
            Some(n) => char_with_code(n),
            None => None,
        }
    } else {
        None
    }
}

/// Replaces the HTML entities of a text.
pub fn decode_html_entities(input: &[char]) -> (r: Vec<char>)
    ensures
        r@ == decoded(input@),
{
    let mut out: Vec<char> = Vec::new();
    let mut i: usize = 0;
    assert(out@ + decoded_from(input@, 0) =~= decoded(input@));
    while i < input.len()
        invariant
            i <= input.len(),
            out@ + decoded_from(input@, i as int) == decoded(input@),
        decreases input.len() - i,
    {
        let ghost before = out@;
        let ghost here = i as int;
        let semi: usize = first_of_from(input, ";", i);
        let mut found: Option<char> = None;
        if input[i] == '&' && semi < input.len() && semi - i >= 2 && semi - i <= 10 {
            found = decode_one_html_entity(slice_subrange(input, i + 1, semi));
        }
        match found {
            Some(c) => {
                out.push(c);
                i = semi + 1;
            },
            None => {
                out.push(input[i]);
                i += 1;
            },
        }
        assert(out@ + decoded_from(input@, i as int) =~= before + decoded_from(input@, here));
    }
    assert(out@ =~= decoded(input@));
    out
}

/// Characters that file names may not hold.
pub open spec fn is_illegal(c: char) -> bool {
    c == '<' || c == '>' || c == ':' || c == '"' || c == '/' || c == '\\' || c == '|' || c == '?' || c
        == '*' || (c as u32) < 0x20
}

/// An illegal character as a blank, any other unchanged.
pub open spec fn legal_char(c: char) -> char {
    if is_illegal(c) {
        ' '
    } else {
        c
    }
}

pub open spec fn legal(s: Seq<char>) -> Seq<char> {
    s.map_values(|c: char| legal_char(c))
}

/// How long a name made from a title may be.
pub const MAX_NAME_CHARS: usize = 150;

/// A title as a file name: entities replaced, illegal characters and runs of white
/// space as one blank each, points and blanks at the ends left out, cut to length.
pub open spec fn sanitized(s: Seq<char>) -> Seq<char> {
    let words = text::join(text::words(legal(decoded(s))), " "@);
    text::first_chars(text::trim(text::trim_set(words, "."@)), MAX_NAME_CHARS as nat)
}

fn make_legal(s: &[char]) -> (r: Vec<char>)
    ensures
        r@ == legal(s@),
{
    let mut out: Vec<char> = Vec::new();
    let mut i: usize = 0;
    while i < s.len()
        invariant
            i <= s.len(),
            out@ == legal(s@.take(i as int)),
        decreases s.len() - i,
    {
        let c: char = s[i];
        let illegal: bool = c == '<' || c == '>' || c == ':' || c == '"' || c == '/' || c == '\\' || c
            == '|' || c == '?' || c == '*' || (c as u32) < 0x20;
        out.push(
            if illegal {
                ' '
            } else {
                c
            },
        );
        i += 1;
        assert(out@ =~= legal(s@.take(i as int)));
    }
    assert(s@.take(s@.len() as int) =~= s@);
    out
}

/// Makes a file name of a title.
pub fn sanitize_filename_component(input: &str) -> (r: String)
    ensures
        r@ == sanitized(input@),
{
    let cs = chars_of(input);
    let plain = decode_html_entities(cs.as_slice());
    let cleaned = make_legal(plain.as_slice());
    let words = split_words(cleaned.as_slice());
    let joined = join_chars(&words, " ");
    let t = trimmed(trimmed_set(joined.as_slice(), "."));
    string_of(take_chars(t, MAX_NAME_CHARS))
}

/// The last segment of a URL's path; `download` where that is empty.
pub open spec fn url_filename(url: Seq<char>) -> Seq<char> {
    let last = text::after_last(text::before_first(url, "?#"@), "/"@);
    if last.len() > 0 {
        last
    } else {
        "download"@
    }
}

/// Names a file after a URL.
pub fn filename_from_url(url: &str) -> (r: String)
    ensures
        r@ == url_filename(url@),
{
    let cs = chars_of(url);
    let last = cut_after_last(cut_before_first(cs.as_slice(), "?#"), "/");
    if last.len() > 0 {
        string_of(last)
    } else {
        "download".to_string()
    }
}

/// The name for a download: the title where it leaves a name, else the URL's; with
/// the detected extension, else the URL's.
pub open spec fn suggested(
    title: Option<Seq<char>>,
    url: Seq<char>,
    detected_ext: Option<Seq<char>>,
) -> Seq<char> {
    let from_url = url_filename(url);
    let url_ext = lower_extension(from_url);
    let from_title = match title {
        Some(t) => sanitized(t),
        None => Seq::empty(),
    };
    let base = if from_title.len() > 0 {
        from_title
    } else {
        match paths::file_stem(from_url) {
            Some(s) => s,
            None => "download"@,
        }
    };
    let ext = match detected_ext {
        Some(e) if e.len() > 0 => e,
        _ => url_ext,
    };
    if ext.len() > 0 {
        base + "."@ + ext
    } else {
        base
    }
}

/// Names a download.
pub fn suggest_filename(title: Option<&str>, url: &str, detected_ext: Option<&str>) -> (r: String)
    ensures
        r@ == suggested(text::opt_str(title), url@, text::opt_str(detected_ext)),
{
    let from_url = filename_from_url(url);
    let url_ext = current_extension(from_url.as_str());
    let from_title = match title {
        Some(t) => sanitize_filename_component(t),
        None => {
            let e = String::new();
            assert(e@ =~= Seq::empty());
            e
        },
    };
    let base = if !from_title.as_str().is_empty() {
        from_title
    } else {
        match get_file_stem(from_url.as_str()) {
            Some(s) => s,
            None => "download".to_string(),
        }
    };
    let ext: &str = match detected_ext {
        Some(e) => if e.is_empty() {
            url_ext.as_str()
        } else {
            e
        },
        None => url_ext.as_str(),
    };
    if ext.is_empty() {
        base
    } else {
        cat3(base.as_str(), ".", ext)
    }
}

// ---------------------------------------------------------------------------
// Destinations
// ---------------------------------------------------------------------------

/// The FNV-1a hash of bytes, in 32 bits.
pub open spec fn fnv1a(bytes: Seq<u8>) -> u32
    decreases bytes.len(),
{
    if bytes.len() == 0 {
        0x811c_9dc5
    } else {
        (fnv1a(bytes.drop_last()) ^ (bytes.last() as u32)).wrapping_mul(0x0100_0193)
    }
}

/// The hash of a text in eight hexadecimal digits.
pub open spec fn hashed(s: Seq<char>) -> Seq<char> {
    number::zero_padded(number::written(fnv1a(vstd::utf8::encode_utf8(s)) as nat, 16), 8)
}

/// The hash of a text in eight hexadecimal digits.
pub fn short_hash(input: &str) -> (r: String)
    ensures
        r@ == hashed(input@),
{
    let bytes = input.as_bytes();
    let mut hash: u32 = 0x811c_9dc5;
    let mut i: usize = 0;
    assert(bytes@.take(0) =~= Seq::empty());
    while i < bytes.len()
        invariant
            i <= bytes.len(),
            hash == fnv1a(bytes@.take(i as int)),
        decreases bytes.len() - i,
    {
        assert(bytes@.take(i + 1).drop_last() =~= bytes@.take(i as int));
        hash = (hash ^ (bytes[i] as u32)).wrapping_mul(0x0100_0193);
        i += 1;
    }
    assert(bytes@.take(i as int) =~= bytes@);
    let digits = write_radix(hash as u64, 16);
    let padded = pad_zeros(digits.as_slice(), 8);
    string_of(padded.as_slice())
}

/// The name of a file with a hash put between its stem and its extension.
pub open spec fn hashed_name(filename: Seq<char>, hash: Seq<char>) -> Seq<char> {
    let stem = match paths::file_stem(filename) {
        Some(s) => s,
        None => "download"@,
    };
    match paths::extension(filename) {
        Some(e) => stem + "-"@ + hash + "."@ + e,
        None => stem + "-"@ + hash,
    }
}

/// Where a download that was added at `now_ns` is saved: directly in the download
/// directory, under its name with a hash of the URL and the moment.
pub open spec fn destination(
    dir: Seq<char>,
    url: Seq<char>,
    filename: Seq<char>,
    now_ns: nat,
) -> Seq<char> {
    paths::join(dir, hashed_name(filename, hashed(url + "#"@ + number::dec(now_ns))))
}

/// [`destination`], computed.
pub fn dest_path_at(download_dir: &str, url: &str, filename: &str, now_ns: u128) -> (r: String)
    ensures
        r@ == destination(download_dir@, url@, filename@, now_ns as nat),
{
    let digits = dec_u128(now_ns);
    let mut key = chars_of(url);
    push_str(&mut key, "#");
    push_chars(&mut key, digits.as_slice());
    let hash = short_hash(string_of(key.as_slice()).as_str());
    let stem = match get_file_stem(filename) {
        Some(s) => s,
        None => "download".to_string(),
    };
    let mut name = chars_of(stem.as_str());
    push_str(&mut name, "-");
    push_str(&mut name, hash.as_str());
    match get_extension(filename) {
        Some(e) => {
            push_str(&mut name, ".");
            push_str(&mut name, e.as_str());
        },
        None => {},
    }
    join_path(download_dir, string_of(name.as_slice()).as_str())
}

/// Where a download that is added now is saved. Every download gets a path of its
/// own, also where a URL is added a second time.
pub fn dest_path(download_dir: &str, url: &str, filename: &str) -> (r: String)
    ensures
        exists|now_ns: nat| r@ == #[trigger] destination(download_dir@, url@, filename@, now_ns),
{
    let now_ns: u128 = nanos_now();
    dest_path_at(download_dir, url, filename, now_ns)
}

/// The directory for what a download leaves on the way: inside `.tidm-cache`
/// beside the destination, named like the destination without its extension.
pub open spec fn cache_dir(dest: Seq<char>) -> Seq<char> {
    let stem = match paths::file_stem(dest) {
        Some(s) => s,
        None => "download"@,
    };
    let beside = match paths::parent(dest) {
        Some(p) => p,
        None => "."@,
    };
    paths::join(paths::join(beside, ".tidm-cache"@), stem)
}

/// The directory for what a download leaves on the way.
pub fn cache_dir_for(dest: &str) -> (r: String)
    ensures
        r@ == cache_dir(dest@),
{
    let stem = match get_file_stem(dest) {
        Some(s) => s,
        None => "download".to_string(),
    };
    let beside = match get_parent(dest) {
        Some(p) => p,
        None => ".".to_string(),
    };
    join_path(join_path(beside.as_str(), ".tidm-cache").as_str(), stem.as_str())
}

// ---------------------------------------------------------------------------
// Laws
// ---------------------------------------------------------------------------

/// Whether a text holds only characters that file names may hold.
pub open spec fn all_legal(s: Seq<char>) -> bool {
    forall|i: int| 0 <= i < s.len() ==> !is_illegal(#[trigger] s[i])
}

proof fn lemma_words_legal(s: Seq<char>, from: int)
    requires
        all_legal(s),
    ensures
        forall|i: int|
            0 <= i < text::words_from(s, from).len() ==> all_legal(
                #[trigger] text::words_from(s, from)[i],
            ),
    decreases s.len() - from,
{
    let a = text::next_space(s, from, false);
    let b = text::next_space(s, a, true);
    if 0 <= from <= a < b <= s.len() {
        lemma_words_legal(s, b);
        let w = s.subrange(a, b);
        assert(all_legal(w)) by {
            assert forall|i: int| 0 <= i < w.len() implies !is_illegal(#[trigger] w[i]) by {
                assert(!is_illegal(s[a + i]));
            }
        }
        assert forall|i: int| 0 <= i < text::words_from(s, from).len() implies all_legal(
            #[trigger] text::words_from(s, from)[i],
        ) by {
            if i > 0 {
                assert(text::words_from(s, from)[i] == text::words_from(s, b)[i - 1]);
            }
        }
    }
}

proof fn lemma_join_legal(parts: Seq<Seq<char>>, sep: Seq<char>)
    requires
        all_legal(sep),
        forall|i: int| 0 <= i < parts.len() ==> all_legal(#[trigger] parts[i]),
    ensures
        all_legal(text::join(parts, sep)),
    decreases parts.len(),
{
    if parts.len() == 1 {
        assert(all_legal(parts[0]));
    } else if parts.len() > 1 {
        let front = parts.drop_last();
        assert forall|i: int| 0 <= i < front.len() implies all_legal(#[trigger] front[i]) by {
            assert(all_legal(parts[i]));
        }
        lemma_join_legal(front, sep);
        assert(all_legal(parts[parts.len() - 1]));
        let x = text::join(front, sep);
        let y = text::join(parts, sep);
        assert forall|i: int| 0 <= i < y.len() implies !is_illegal(#[trigger] y[i]) by {
            if i < x.len() {
                assert(y[i] == x[i]);
            } else if i < x.len() + sep.len() {
                assert(y[i] == sep[i - x.len()]);
            } else {
                assert(y[i] == parts.last()[i - x.len() - sep.len()]);
            }
        }
    }
}

proof fn lemma_trim_legal(s: Seq<char>)
    requires
        all_legal(s),
    ensures
        all_legal(text::trim(s)),
{
    lemma_trim_start_legal(s);
    lemma_trim_end_legal(text::trim_start(s));
}

proof fn lemma_trim_start_legal(s: Seq<char>)
    requires
        all_legal(s),
    ensures
        all_legal(text::trim_start(s)),
    decreases s.len(),
{
    if s.len() > 0 && text::is_space(s[0]) {
        let t = s.skip(1);
        assert forall|i: int| 0 <= i < t.len() implies !is_illegal(#[trigger] t[i]) by {
            assert(!is_illegal(s[i + 1]));
        }
        lemma_trim_start_legal(t);
    }
}

proof fn lemma_trim_end_legal(s: Seq<char>)
    requires
        all_legal(s),
    ensures
        all_legal(text::trim_end(s)),
    decreases s.len(),
{
    if s.len() > 0 && text::is_space(s.last()) {
        let t = s.drop_last();
        assert forall|i: int| 0 <= i < t.len() implies !is_illegal(#[trigger] t[i]) by {
            assert(!is_illegal(s[i]));
        }
        lemma_trim_end_legal(t);
    }
}

proof fn lemma_trim_set_legal(s: Seq<char>, set: Seq<char>)
    requires
        all_legal(s),
    ensures
        all_legal(text::trim_set(s, set)),
{
    lemma_trim_start_set_legal(s, set);
    lemma_trim_end_set_legal(text::trim_start_set(s, set), set);
}

proof fn lemma_trim_start_set_legal(s: Seq<char>, set: Seq<char>)
    requires
        all_legal(s),
    ensures
        all_legal(text::trim_start_set(s, set)),
    decreases s.len(),
{
    if s.len() > 0 && set.contains(s[0]) {
        let t = s.skip(1);
        assert forall|i: int| 0 <= i < t.len() implies !is_illegal(#[trigger] t[i]) by {
            assert(!is_illegal(s[i + 1]));
        }
        lemma_trim_start_set_legal(t, set);
    }
}

proof fn lemma_trim_end_set_legal(s: Seq<char>, set: Seq<char>)
    requires
        all_legal(s),
    ensures
        all_legal(text::trim_end_set(s, set)),
    decreases s.len(),
{
    if s.len() > 0 && set.contains(s.last()) {
        let t = s.drop_last();
        assert forall|i: int| 0 <= i < t.len() implies !is_illegal(#[trigger] t[i]) by {
            assert(!is_illegal(s[i]));
        }
        lemma_trim_end_set_legal(t, set);
    }
}

/// Whether no white space follows white space.
pub open spec fn tight(s: Seq<char>) -> bool {
    forall|i: int, j: int|
        0 <= i && j == i + 1 && j < s.len() ==> !(text::is_space(#[trigger] s[i]) && text::is_space(
            #[trigger] s[j],
        ))
}

/// Whether a text holds no white space.
pub open spec fn solid(s: Seq<char>) -> bool {
    forall|i: int| 0 <= i < s.len() ==> !text::is_space(#[trigger] s[i])
}

proof fn lemma_no_space_upto(s: Seq<char>, from: int)
    requires
        0 <= from <= s.len(),
    ensures
        forall|i: int|
            from <= i < text::next_space(s, from, true) ==> !text::is_space(#[trigger] s[i]),
    decreases s.len() - from,
{
    if from < s.len() && !text::is_space(s[from]) {
        lemma_no_space_upto(s, from + 1);
    }
}

proof fn lemma_words_solid(s: Seq<char>, from: int)
    ensures
        forall|i: int|
            0 <= i < text::words_from(s, from).len() ==> solid(
                #[trigger] text::words_from(s, from)[i],
            ) && text::words_from(s, from)[i].len() > 0,
    decreases s.len() - from,
{
    let a = text::next_space(s, from, false);
    let b = text::next_space(s, a, true);
    if 0 <= from <= a < b <= s.len() {
        lemma_words_solid(s, b);
        lemma_no_space_upto(s, a);
        let w = s.subrange(a, b);
        assert forall|i: int| 0 <= i < w.len() implies !text::is_space(#[trigger] w[i]) by {
            assert(!text::is_space(s[a + i]));
        }
        assert forall|i: int| 0 <= i < text::words_from(s, from).len() implies solid(
            #[trigger] text::words_from(s, from)[i],
        ) && text::words_from(s, from)[i].len() > 0 by {
            if i > 0 {
                assert(text::words_from(s, from)[i] == text::words_from(s, b)[i - 1]);
            }
        }
    }
}

proof fn lemma_join_tight(parts: Seq<Seq<char>>)
    requires
        forall|i: int| 0 <= i < parts.len() ==> solid(#[trigger] parts[i]) && parts[i].len() > 0,
    ensures
        tight(text::join(parts, " "@)),
        parts.len() > 0 ==> {
            let s = text::join(parts, " "@);
            s.len() > 0 && !text::is_space(s.last())
        },
    decreases parts.len(),
{
    reveal_strlit(" ");
    if parts.len() == 1 {
        assert(solid(parts[0]) && parts[0].len() > 0);
    } else if parts.len() > 1 {
        let front = parts.drop_last();
        assert forall|i: int| 0 <= i < front.len() implies solid(#[trigger] front[i])
            && front[i].len() > 0 by {
            assert(solid(parts[i]));
        }
        lemma_join_tight(front);
        let word = parts.last();
        assert(solid(parts[parts.len() - 1]) && parts[parts.len() - 1].len() > 0);
        let x = text::join(front, " "@);
        let y = text::join(parts, " "@);
        assert(y =~= x + " "@ + word);
        assert forall|i: int, j: int| 0 <= i && j == i + 1 && j < y.len() implies !(text::is_space(
            #[trigger] y[i],
        ) && text::is_space(#[trigger] y[j])) by {
            if j < x.len() {
                assert(y[i] == x[i] && y[j] == x[j]);
            } else if j == x.len() {
                assert(y[i] == x.last());
            } else {
                assert(y[j] == word[j - x.len() - 1]);
            }
        }
        assert(y.last() == word.last());
    }
}

proof fn lemma_part_tight(s: Seq<char>, a: int, b: int)
    requires
        tight(s),
        0 <= a <= b <= s.len(),
    ensures
        tight(s.subrange(a, b)),
{
    let t = s.subrange(a, b);
    assert forall|i: int, j: int| 0 <= i && j == i + 1 && j < t.len() implies !(text::is_space(
        #[trigger] t[i],
    ) && text::is_space(#[trigger] t[j])) by {
        assert(t[i] == s[a + i] && t[j] == s[a + j]);
    }
}

proof fn lemma_set_trimmed_tight(s: Seq<char>, set: Seq<char>)
    requires
        tight(s),
    ensures
        tight(text::trim_set(s, set)),
    decreases s.len(),
{
    if s.len() > 0 && set.contains(s[0]) {
        lemma_part_tight(s, 1, s.len() as int);
        assert(s.subrange(1, s.len() as int) =~= s.skip(1));
        lemma_set_trimmed_tight(s.skip(1), set);
    } else {
        lemma_end_set_trimmed_tight(s, set);
    }
}

proof fn lemma_end_set_trimmed_tight(s: Seq<char>, set: Seq<char>)
    requires
        tight(s),
    ensures
        tight(text::trim_end_set(s, set)),
    decreases s.len(),
{
    if s.len() > 0 && set.contains(s.last()) {
        lemma_part_tight(s, 0, s.len() - 1);
        assert(s.subrange(0, s.len() - 1) =~= s.drop_last());
        lemma_end_set_trimmed_tight(s.drop_last(), set);
    }
}

proof fn lemma_trimmed_tight(s: Seq<char>)
    requires
        tight(s),
    ensures
        tight(text::trim(s)),
        text::trim(s).len() > 0 ==> !text::is_space(text::trim(s)[0]),
    decreases s.len(),
{
    if s.len() > 0 && text::is_space(s[0]) {
        lemma_part_tight(s, 1, s.len() as int);
        assert(s.subrange(1, s.len() as int) =~= s.skip(1));
        lemma_trimmed_tight(s.skip(1));
    } else {
        lemma_end_trimmed_tight(s);
    }
}

proof fn lemma_end_trimmed_tight(s: Seq<char>)
    requires
        tight(s),
    ensures
        tight(text::trim_end(s)),
        text::trim_end(s).len() > 0 ==> text::trim_end(s)[0] == s[0],
    decreases s.len(),
{
    if s.len() > 0 && text::is_space(s.last()) {
        lemma_part_tight(s, 0, s.len() - 1);
        assert(s.subrange(0, s.len() - 1) =~= s.drop_last());
        lemma_end_trimmed_tight(s.drop_last());
    }
}

/// A name made from a title, whatever the title, holds no character that is
/// illegal in file names, does not begin with white space, has no white space
/// behind white space, and has at most 150 characters.
pub proof fn sanitized_names_are_legal(title: Seq<char>)
    ensures
        all_legal(sanitized(title)),
        sanitized(title).len() > 0 ==> !text::is_space(sanitized(title)[0]),
        tight(sanitized(title)),
        sanitized(title).len() <= 150,
{
    reveal_strlit(" ");
    let cleaned = legal(decoded(title));
    assert(all_legal(cleaned)) by {
        assert forall|i: int| 0 <= i < cleaned.len() implies !is_illegal(#[trigger] cleaned[i]) by {
            assert(cleaned[i] == legal_char(decoded(title)[i]));
        }
    }
    lemma_words_legal(cleaned, 0);
    let joined = text::join(text::words(cleaned), " "@);
    assert(all_legal(" "@));
    lemma_join_legal(text::words(cleaned), " "@);
    lemma_trim_set_legal(joined, "."@);
    lemma_trim_legal(text::trim_set(joined, "."@));
    let t = text::trim(text::trim_set(joined, "."@));
    lemma_words_solid(cleaned, 0);
    lemma_join_tight(text::words(cleaned));
    lemma_set_trimmed_tight(joined, "."@);
    lemma_trimmed_tight(text::trim_set(joined, "."@));
    lemma_part_tight(t, 0, sanitized(title).len() as int);
    assert(t.subrange(0, sanitized(title).len() as int) =~= sanitized(title));
    assert forall|i: int| 0 <= i < sanitized(title).len() implies !is_illegal(
        #[trigger] sanitized(title)[i],
    ) by {
        assert(sanitized(title)[i] == t[i]);
    }
}

/// Digits and letters of a number, zeros in front included, are neither points
/// nor separators.
proof fn lemma_hex_chars(n: nat, radix: nat)
    requires
        2 <= radix <= 16,
    ensures
        !number::written(n, radix).contains('.'),
        !number::written(n, radix).contains('/'),
        number::written(n, radix).len() >= 1,
    decreases n,
{
    if n >= radix {
        assert(n / radix < n) by (nonlinear_arith)
            requires
                n >= radix,
                radix >= 2,
        ;
        lemma_hex_chars(n / radix, radix);
        assert(0 <= n % radix < radix) by (nonlinear_arith)
            requires
                radix >= 2,
        ;
        let w = number::written(n, radix);
        let front = number::written(n / radix, radix);
        assert(w == front.push(number::digit_char((n % radix) as int)));
        assert forall|i: int| 0 <= i < w.len() implies w[i] != '.' && w[i] != '/' by {
            if i < front.len() {
                assert(w[i] == front[i]);
                assert(front.contains(front[i]));
            }
        }
    }
}

proof fn lemma_hash_chars(s: Seq<char>)
    ensures
        !hashed(s).contains('.'),
        !hashed(s).contains('/'),
        hashed(s).len() >= 1,
{
    let w = number::written(fnv1a(vstd::utf8::encode_utf8(s)) as nat, 16);
    lemma_hex_chars(fnv1a(vstd::utf8::encode_utf8(s)) as nat, 16);
    let h = hashed(s);
    let pad = h.len() - w.len();
    assert forall|i: int| 0 <= i < h.len() implies h[i] != '.' && h[i] != '/' by {
        if i >= pad {
            assert(h[i] == w[i - pad]);
            assert(w.contains(w[i - pad]));
        }
    }
}

/// A download is saved directly in the download directory, with the extension of
/// its name, under a name that begins with the stem of its name and goes on with
/// a hash.
pub proof fn destinations_are_flat(dir: Seq<char>, url: Seq<char>, filename: Seq<char>, now_ns: nat)
    requires
        paths::file_stem(filename) is Some,
    ensures
        paths::file_name(destination(dir, url, filename, now_ns)) == Some(
            hashed_name(filename, hashed(url + "#"@ + number::dec(now_ns))),
        ),
        paths::extension(destination(dir, url, filename, now_ns)) == paths::extension(filename),
        paths::file_stem(destination(dir, url, filename, now_ns)) == Some(
            paths::file_stem(filename)->0 + "-"@ + hashed(url + "#"@ + number::dec(now_ns)),
        ),
{
    reveal_strlit("-");
    reveal_strlit(".");
    reveal_strlit("..");
    reveal_strlit("/");
    let hash = hashed(url + "#"@ + number::dec(now_ns));
    lemma_hash_chars(url + "#"@ + number::dec(now_ns));
    let name = paths::file_name(filename)->0;
    let stem = paths::stem_of(name);
    let full = hashed_name(filename, hash);
    let t = paths::trimmed_path(filename);
    text::lemma_last_of(t, "/"@, t.len() as int);
    text::lemma_last_of(name, "."@, name.len() as int);
    assert("/"@[0] == '/');
    assert("."@[0] == '.');
    assert(forall|c: char| "/"@.contains(c) ==> c == '/');
    assert(!name.contains('/')) by {
        if name.contains('/') {
            let i = choose|i: int| 0 <= i < name.len() && name[i] == '/';
            assert(t[t.len() - name.len() + i] == '/');
            assert("/"@.contains(t[t.len() - name.len() + i]));
        }
    }
    let head = stem + "-"@ + hash;
    assert(!head.contains('/')) by {
        if head.contains('/') {
            let i = choose|i: int| 0 <= i < head.len() && head[i] == '/';
            if i < stem.len() {
                assert(stem[i] == name[i]);
                assert(name.contains(name[i]));
            } else if i > stem.len() {
                assert(head[i] == hash[i - stem.len() - 1]);
                assert(hash.contains(hash[i - stem.len() - 1]));
            }
        }
    }
    assert(stem.len() > 0);
    assert(head[stem.len() as int] == '-');
    match paths::extension(filename) {
        Some(e) => {
            let p = paths::extension_point(name)->0;
            assert(!e.contains('/')) by {
                if e.contains('/') {
                    let i = choose|i: int| 0 <= i < e.len() && e[i] == '/';
                    assert(name[p + 1 + i] == '/');
                }
            }
            assert(!e.contains('.')) by {
                if e.contains('.') {
                    let i = choose|i: int| 0 <= i < e.len() && e[i] == '.';
                    assert(name[p + 1 + i] == '.');
                    assert("."@.contains(name[p + 1 + i]));
                }
            }
            assert(full =~= head + "."@ + e);
            assert(!full.contains('/')) by {
                if full.contains('/') {
                    let i = choose|i: int| 0 <= i < full.len() && full[i] == '/';
                    if i < head.len() {
                        assert(full[i] == head[i]);
                        assert(head.contains(head[i]));
                    } else if i > head.len() {
                        assert(full[i] == e[i - head.len() - 1]);
                        assert(e.contains(e[i - head.len() - 1]));
                    }
                }
            }
            assert(full[stem.len() as int] == '-');
            assert(paths::plain_name(full));
            text::lemma_last_of(full, "."@, full.len() as int);
            let q = text::last_of(full, "."@, full.len() as int);
            assert(full[head.len() as int] == '.');
            if q > head.len() {
                assert(full[q] == e[q - head.len() - 1]);
                assert(e.contains(e[q - head.len() - 1]));
                assert(forall|c: char| "."@.contains(c) ==> c == '.');
            }
            assert("."@.contains(full[head.len() as int]));
            assert(q == head.len());
            assert(full.skip(q + 1) =~= e);
            assert(full.take(q) =~= head);
        },
        None => {
            assert(full =~= head);
            assert(paths::plain_name(full));
            assert(stem == name);
            text::lemma_last_of(full, "."@, full.len() as int);
            let q = text::last_of(full, "."@, full.len() as int);
            assert(forall|c: char| "."@.contains(c) ==> c == '.');
            if q > 0 {
                if q < stem.len() {
                    assert(full[q] == name[q]);
                    assert(name[q] == '.');
                    assert("."@.contains(name[q]));
                } else if q > stem.len() {
                    assert(full[q] == hash[q - stem.len() - 1]);
                    assert(hash.contains(hash[q - stem.len() - 1]));
                }
                assert(false);
            }
        },
    }
    paths::joining_keeps_the_name(dir, full);
}

/// The cache directory is named after the destination's stem, so a download that
/// is tried again finds what the try before it left.
pub proof fn cache_dirs_carry_the_stem(dest: Seq<char>)
    requires
        paths::file_stem(dest) is Some,
        paths::plain_name(paths::file_stem(dest)->0),
    ensures
        paths::file_name(cache_dir(dest)) == paths::file_stem(dest),
{
    let beside = match paths::parent(dest) {
        Some(p) => p,
        None => "."@,
    };
    paths::joining_keeps_the_name(
        paths::join(beside, ".tidm-cache"@),
        paths::file_stem(dest)->0,
    );
}

} // verus!

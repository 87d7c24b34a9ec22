//! The yt-dlp program as a backend: which hosts it serves, how it is started, what
//! it prints, and what its description of a video offers.

use vstd::prelude::*;
use vstd::slice::slice_subrange;

use crate::backend::Confidence;
use crate::decimal;
use crate::decimal::{parse_decimal, parse_scaled_u64};
use crate::net::JobEvent;
use crate::number;
use crate::number::parse_u64;
use crate::paths;
use crate::paths::{get_file_stem, join_path};
use crate::strmap::StrMap;
use crate::text;
use crate::text::{
    cat2, cat3, chars_of, contains, cut_before_first, ends_with, find_str, is, push_text,
    same_ignoring_case, split_at_first, starts_with, str_eq, string_of, strip_prefix, strip_suffix,
    to_lower, trimmed, trimmed_start_set,
};
use crate::urls;
use crate::urls::host_of;

verus! {

/// How long the description of a video may take to come, in seconds.
pub const EXTRACT_TIMEOUT_SECS: u64 = 210;

/// How long a download may take, in seconds.
pub const DOWNLOAD_TIMEOUT_SECS: u64 = 3_600;

/// The largest description of a video that is read, in bytes.
pub const MAX_JSON_BYTES: usize = 50_331_648;

/// How often the description of a video is tried again.
pub const EXTRACT_RETRIES: u32 = 2;

/// How often a download is tried again.
pub const DOWNLOAD_RETRIES: u32 = 3;

// ---------------------------------------------------------------------------
// Hosts
// ---------------------------------------------------------------------------

/// The hosts whose pages go to yt-dlp.
pub open spec fn hosts() -> Seq<Seq<char>> {
    seq![
        "youtube.com"@, "youtu.be"@, "twitch.tv"@, "vimeo.com"@, "tiktok.com"@, "twitter.com"@,
        "x.com"@, "reddit.com"@, "dailymotion.com"@, "bilibili.com"@, "soundcloud.com"@,
        "facebook.com"@, "instagram.com"@
    ]
}

/// Lists the hosts whose pages go to yt-dlp.
pub fn page_hosts() -> (r: Vec<&'static str>)
    ensures
        text::str_texts(r@) == hosts(),
{
    let list: Vec<&'static str> = vec![
        "youtube.com", "youtu.be", "twitch.tv", "vimeo.com", "tiktok.com", "twitter.com",
        "x.com", "reddit.com", "dailymotion.com", "bilibili.com", "soundcloud.com",
        "facebook.com", "instagram.com"
    ];
    assert(text::str_texts(list@) =~= hosts());
    list
}

/// Whether a host is one of the list, from position `i` on, or a subdomain of one.
pub open spec fn served_from(host: Seq<char>, list: Seq<Seq<char>>, i: int) -> bool
    decreases list.len() - i,
{
    if i < 0 || i >= list.len() {
        false
    } else {
        host == list[i] || text::has_suffix(host, "."@ + list[i]) || served_from(host, list, i + 1)
    }
}

/// How strongly yt-dlp claims a URL.
pub open spec fn claim(url: Seq<char>) -> Confidence {
    match urls::host_in(url) {
        Some(h) => if served_from(h, hosts(), 0) {
            Confidence::Strong
        } else {
            Confidence::No
        },
        None => Confidence::No,
    }
}

/// Tells how strongly yt-dlp claims a URL.
pub fn can_handle(url: &str) -> (r: Confidence)
    ensures
        r == claim(url@),
{
    let host = match host_of(url) {
        Some(h) => h,
        None => {
            return Confidence::No;
        },
    };
    let cs = chars_of(host.as_str());
    let list = page_hosts();
    let ghost all = hosts();
    let mut i: usize = 0;
    while i < list.len()
        invariant
            i <= list.len(),
            all == hosts(),
            all == text::str_texts(list@),
            cs@ == host@,
            urls::host_in(url@) == Some(host@),
            served_from(host@, all, 0) == served_from(host@, all, i as int),
        decreases list.len() - i,
    {
        assert(all[i as int] == list@[i as int]@);
        if is(cs.as_slice(), list[i]) || ends_with(cs.as_slice(), cat2(".", list[i]).as_str()) {
            return Confidence::Strong;
        }
        i += 1;
    }
    Confidence::No
}

// ---------------------------------------------------------------------------
// Trying again
// ---------------------------------------------------------------------------

/// What an error holds, in lower case, that may pass by itself.
pub open spec fn passing_errors() -> Seq<Seq<char>> {
    seq![
        "remotedisconnected"@, "connection aborted"@, "connection reset"@, "timed out"@,
        "temporary failure"@, "unable to download api page"@, "http error 5"@
    ]
}

/// Whether a text holds one of the list, from position `i` on.
pub open spec fn holds_any_from(s: Seq<char>, list: Seq<Seq<char>>, i: int) -> bool
    decreases list.len() - i,
{
    if i < 0 || i >= list.len() {
        false
    } else {
        text::holds(s, list[i]) || holds_any_from(s, list, i + 1)
    }
}

/// Whether an error may pass by itself.
pub open spec fn is_passing(err: Seq<char>) -> bool {
    holds_any_from(text::lower(err), passing_errors(), 0)
}

/// Tells whether an error may pass by itself: a lost connection or an overloaded
/// server, but not a video that is gone.
pub fn is_transient(err: &str) -> (r: bool)
    ensures
        r == is_passing(err@),
{
    let e = to_lower(chars_of(err).as_slice());
    let list: Vec<&str> = vec![
        "remotedisconnected", "connection aborted", "connection reset", "timed out",
        "temporary failure", "unable to download api page", "http error 5"
    ];
    let ghost all = passing_errors();
    assert(text::str_texts(list@) =~= all);
    let mut i: usize = 0;
    while i < list.len()
        invariant
            i <= list.len(),
            all == passing_errors(),
            all == text::str_texts(list@),
            e@ == text::lower(err@),
            holds_any_from(e@, all, 0) == holds_any_from(e@, all, i as int),
        decreases list.len() - i,
    {
        assert(all[i as int] == list@[i as int]@);
        if contains(e.as_slice(), list[i]) {
            return true;
        }
        i += 1;
    }
    false
}

/// The wait in seconds before a run that failed is tried again: five seconds more
/// each time; nothing where the error does not pass by itself or there were tries
/// enough.
pub open spec fn wait_before_retry(failed_before: u32, limit: u32, err: Seq<char>) -> Option<u64> {
    if failed_before < limit && is_passing(err) {
        Some((5 * (failed_before + 1)) as u64)
    } else {
        None
    }
}

/// Decides whether a run that failed is tried again.
pub fn retry_wait(failed_before: u32, limit: u32, err: &str) -> (r: Option<u64>)
    ensures
        r == wait_before_retry(failed_before, limit, err@),
{
    if failed_before < limit && is_transient(err) {
        Some(5 * (failed_before as u64 + 1))
    } else {
        None
    }
}

/// Whether a download is tried without the captured cookies: at the last try, for
/// a bad cookie is a common cause of the very errors that are tried again.
pub fn drops_cookies(failures: u32) -> (r: bool)
    ensures
        r == (failures == DOWNLOAD_RETRIES),
{
    failures == DOWNLOAD_RETRIES
}

// ---------------------------------------------------------------------------
// Arguments
// ---------------------------------------------------------------------------

/// Arguments that every run has: they keep to IPv4, try harder, and ask for a new
/// address where the server is slow on purpose.
pub open spec fn resilience_args() -> Seq<Seq<char>> {
    seq![
        "--force-ipv4"@, "--extractor-retries"@, "8"@, "--retries"@, "10"@, "--fragment-retries"@,
        "10"@, "--retry-sleep"@, "4"@, "--socket-timeout"@, "30"@, "--sleep-requests"@, "1"@,
        "--throttled-rate"@, "100K"@
    ]
}

/// The arguments that name where cookies come from.
pub open spec fn cookie_args(browser: Option<Seq<char>>, cookie_file: Option<Seq<char>>) -> Seq<
    Seq<char>,
> {
    (match browser {
        Some(b) => seq!["--cookies-from-browser"@, b],
        None => Seq::empty(),
    }) + (match cookie_file {
        Some(f) => seq!["--cookies"@, f],
        None => Seq::empty(),
    })
}

fn push_resilience(args: &mut Vec<String>)
    ensures
        text::texts(final(args)@) == text::texts(old(args)@) + resilience_args(),
{
    let list: Vec<&str> = vec![
        "--force-ipv4", "--extractor-retries", "8", "--retries", "10", "--fragment-retries",
        "10", "--retry-sleep", "4", "--socket-timeout", "30", "--sleep-requests", "1",
        "--throttled-rate", "100K"
    ];
    let ghost all = resilience_args();
    assert(text::str_texts(list@) =~= all);
    let ghost before = text::texts(args@);
    let mut i: usize = 0;
    assert(before + all.take(0) =~= before);
    while i < list.len()
        invariant
            i <= list.len(),
            all == text::str_texts(list@),
            text::texts(args@) == before + all.take(i as int),
        decreases list.len() - i,
    {
        push_text(args, list[i]);
        assert(all[i as int] == list@[i as int]@);
        i += 1;
        assert(text::texts(args@) =~= before + all.take(i as int));
    }
    assert(all.take(list@.len() as int) =~= all);
}

fn push_cookies(args: &mut Vec<String>, browser: &Option<String>, cookie_file: Option<&str>)
    ensures
        text::texts(final(args)@) == text::texts(old(args)@) + cookie_args(
            text::opt(*browser),
            text::opt_str(cookie_file),
        ),
{
    let ghost before = text::texts(args@);
    match browser {
        Some(b) => {
            push_text(args, "--cookies-from-browser");
            push_text(args, b.as_str());
        },
        None => {},
    }
    match cookie_file {
        Some(f) => {
            push_text(args, "--cookies");
            push_text(args, f);
        },
        None => {},
    }
    assert(text::texts(args@) =~= before + cookie_args(
        text::opt(*browser),
        text::opt_str(cookie_file),
    ));
}

/// Builds the arguments that ask for the description of a video.
pub fn extract_args(url: &str, browser: &Option<String>, cookie_file: Option<&str>) -> (r: Vec<
    String,
>)
    ensures
        text::texts(r@) == seq!["--no-warnings"@, "-q"@, "-i"@, "--no-playlist"@, "-J"@]
            + resilience_args() + cookie_args(text::opt(*browser), text::opt_str(cookie_file))
            + seq![url@],
{
    let mut args: Vec<String> = Vec::new();
    push_text(&mut args, "--no-warnings");
    push_text(&mut args, "-q");
    push_text(&mut args, "-i");
    push_text(&mut args, "--no-playlist");
    push_text(&mut args, "-J");
    let ghost head = seq!["--no-warnings"@, "-q"@, "-i"@, "--no-playlist"@, "-J"@];
    assert(text::texts(args@) =~= head);
    push_resilience(&mut args);
    push_cookies(&mut args, browser, cookie_file);
    let ghost most = head + resilience_args() + cookie_args(
        text::opt(*browser),
        text::opt_str(cookie_file),
    );
    assert(text::texts(args@) == most);
    push_text(&mut args, url);
    assert(text::texts(args@) =~= most + seq![url@]);
    args
}

/// The name of the file of a download without its extension: that of the hint, or
/// `video`.
pub open spec fn stem_for(hint: Option<Seq<char>>) -> Seq<char> {
    let name = match hint {
        Some(h) => if h.len() > 0 {
            h
        } else {
            "video"@
        },
        None => "video"@,
    };
    match paths::file_stem(name) {
        Some(s) => s,
        None => name,
    }
}

/// Names the file of a download.
pub fn final_stem(hint: &Option<String>) -> (r: String)
    ensures
        r@ == stem_for(text::opt(*hint)),
{
    let name = match hint {
        Some(h) => {
            proof {
                reveal_strlit("");
                assert(h@.len() == 0 <==> h@ =~= ""@);
            }
            if str_eq(h.as_str(), "") {
                "video".to_string()
            } else {
                h.clone()
            }
        },
        None => "video".to_string(),
    };
    match get_file_stem(name.as_str()) {
        Some(s) => s,
        None => name,
    }
}

/// The value of the first header, from position `i` on, that is a referer.
pub open spec fn referer_from(headers: Seq<(String, String)>, i: int) -> Option<Seq<char>>
    decreases headers.len() - i,
{
    if i < 0 || i >= headers.len() {
        None
    } else if text::lower(headers[i].0@) == text::lower("referer"@) {
        Some(headers[i].1@)
    } else {
        referer_from(headers, i + 1)
    }
}

/// The arguments that name the page a video was found on.
pub open spec fn referer_args(referer: Option<Seq<char>>) -> Seq<Seq<char>> {
    match referer {
        Some(r) => seq!["--referer"@, r],
        None => Seq::empty(),
    }
}

fn find_referer(headers: &StrMap<String>) -> (r: Option<String>)
    ensures
        text::opt(r) == referer_from(headers.list(), 0),
{
    let n: usize = headers.len();
    let mut i: usize = 0;
    while i < n
        invariant
            i <= n,
            n == headers.list().len(),
            referer_from(headers.list(), 0) == referer_from(headers.list(), i as int),
        decreases n - i,
    {
        if same_ignoring_case(chars_of(headers.key_at(i).as_str()).as_slice(), "referer") {
            return Some(headers.value_at(i).clone());
        }
        i += 1;
    }
    None
}

/// The arguments in front of those that every run has.
pub open spec fn download_head(selector: Seq<char>, output: Seq<char>) -> Seq<Seq<char>> {
    seq![
        "--no-warnings"@, "--newline"@, "--progress"@, "-i"@, "--no-playlist"@, "--no-part"@,
        "--force-overwrites"@, "-f"@, selector, "--merge-output-format"@, "mp4"@, "-o"@, output
    ]
}

/// The formats that are asked for: the chosen ones, or the best.
pub open spec fn selector_of(quality: Option<Seq<char>>) -> Seq<char> {
    match quality {
        Some(q) => q,
        None => "bv*+ba/b"@,
    }
}

/// Builds the arguments of a download.
pub fn download_args(
    url: &str,
    dest_dir: &str,
    stem: &str,
    quality: &Option<String>,
    browser: &Option<String>,
    cookie_file: Option<&str>,
    headers: &StrMap<String>,
) -> (r: Vec<String>)
    ensures
        text::texts(r@) == download_head(
            selector_of(text::opt(*quality)),
            paths::join(dest_dir@, stem@ + ".%(ext)s"@),
        ) + resilience_args() + cookie_args(text::opt(*browser), text::opt_str(cookie_file))
            + referer_args(referer_from(headers.list(), 0)) + seq![
            "--print"@,
            "after_move:filepath"@,
            url@,
        ],
{
    let output = join_path(dest_dir, cat2(stem, ".%(ext)s").as_str());
    let selector = match quality {
        Some(q) => q.clone(),
        None => "bv*+ba/b".to_string(),
    };
    let mut args: Vec<String> = Vec::new();
    push_text(&mut args, "--no-warnings");
    push_text(&mut args, "--newline");
    push_text(&mut args, "--progress");
    push_text(&mut args, "-i");
    push_text(&mut args, "--no-playlist");
    push_text(&mut args, "--no-part");
    push_text(&mut args, "--force-overwrites");
    push_text(&mut args, "-f");
    push_text(&mut args, selector.as_str());
    push_text(&mut args, "--merge-output-format");
    push_text(&mut args, "mp4");
    push_text(&mut args, "-o");
    push_text(&mut args, output.as_str());
    let ghost head = download_head(selector@, output@);
    assert(text::texts(args@) =~= head);
    push_resilience(&mut args);
    push_cookies(&mut args, browser, cookie_file);
    let ghost most = head + resilience_args() + cookie_args(
        text::opt(*browser),
        text::opt_str(cookie_file),
    );
    assert(text::texts(args@) == most);
    match find_referer(headers) {
        Some(r) => {
            push_text(&mut args, "--referer");
            push_text(&mut args, r.as_str());
        },
        None => {},
    }
    let ghost more = most + referer_args(referer_from(headers.list(), 0));
    assert(text::texts(args@) =~= more);
    push_text(&mut args, "--print");
    push_text(&mut args, "after_move:filepath");
    push_text(&mut args, url);
    assert(text::texts(args@) =~= more + seq!["--print"@, "after_move:filepath"@, url@]);
    args
}

/// The first position, from `i` on, of the argument that names a cookie file.
pub open spec fn cookie_flag_from(args: Seq<Seq<char>>, i: int) -> int
    decreases args.len() - i,
{
    if i < 0 || i >= args.len() {
        args.len() as int
    } else if args[i] == "--cookies"@ {
        i
    } else {
        cookie_flag_from(args, i + 1)
    }
}

/// The arguments without the cookie file.
pub open spec fn cookieless(args: Seq<Seq<char>>) -> Seq<Seq<char>> {
    let k = cookie_flag_from(args, 0);
    if k + 1 < args.len() {
        args.take(k) + args.skip(k + 2)
    } else {
        args
    }
}

/// Takes the cookie file out of the arguments.
pub fn without_cookies(args: &mut Vec<String>)
    ensures
        text::texts(final(args)@) == cookieless(text::texts(old(args)@)),
{
    let ghost all = text::texts(args@);
    let mut k: usize = 0;
    while k < args.len() && !str_eq(args[k].as_str(), "--cookies")
        invariant
            k <= args.len(),
            all == text::texts(args@),
            cookie_flag_from(all, 0) == cookie_flag_from(all, k as int),
        decreases args.len() - k,
    {
        assert(all[k as int] == args@[k as int]@);
        k += 1;
    }
    if k < args.len() {
        assert(all[k as int] == args@[k as int]@);
        if args.len() - k > 1 {
            args.remove(k + 1);
            args.remove(k);
            assert(text::texts(args@) =~= all.take(k as int) + all.skip(k + 2));
        }
    }
}

/// The program to run: the configured one, else the bundled one, else whatever the
/// path has.
pub fn program(configured: &Option<String>, bundled: &Option<String>) -> (r: String)
    ensures
        r@ == (match text::opt(*configured) {
            Some(p) => p,
            None => match text::opt(*bundled) {
                Some(p) => p,
                None => "yt-dlp"@,
            },
        }),
{
    match configured {
        Some(p) => p.clone(),
        None => match bundled {
            Some(p) => p.clone(),
            None => "yt-dlp".to_string(),
        },
    }
}

/// The files that a download may have left, in the order in which they are looked
/// for.
pub open spec fn left_files(dest_dir: Seq<char>, stem: Seq<char>) -> Seq<Seq<char>> {
    seq![
        paths::join(dest_dir, stem + "."@ + "mp4"@),
        paths::join(dest_dir, stem + "."@ + "mkv"@),
        paths::join(dest_dir, stem + "."@ + "webm"@),
        paths::join(dest_dir, stem + "."@ + "m4a"@),
        paths::join(dest_dir, stem + "."@ + "mp3"@),
        paths::join(dest_dir, stem + "."@ + "opus"@),
        paths::join(dest_dir, stem + "."@ + "ogg"@),
    ]
}

/// Lists the files that a download may have left.
pub fn output_candidates(dest_dir: &str, stem: &str) -> (r: Vec<String>)
    ensures
        text::texts(r@) == left_files(dest_dir@, stem@),
{
    let r = vec![
        join_path(dest_dir, cat3(stem, ".", "mp4").as_str()),
        join_path(dest_dir, cat3(stem, ".", "mkv").as_str()),
        join_path(dest_dir, cat3(stem, ".", "webm").as_str()),
        join_path(dest_dir, cat3(stem, ".", "m4a").as_str()),
        join_path(dest_dir, cat3(stem, ".", "mp3").as_str()),
        join_path(dest_dir, cat3(stem, ".", "opus").as_str()),
        join_path(dest_dir, cat3(stem, ".", "ogg").as_str()),
    ];
    assert(text::texts(r@) =~= left_files(dest_dir@, stem@));
    r
}

// ---------------------------------------------------------------------------
// What the program prints
// ---------------------------------------------------------------------------

/// The letters of ASCII.
pub open spec fn is_letter(c: char) -> bool {
    ('a' <= c && c <= 'z') || ('A' <= c && c <= 'Z')
}

/// The first position, from `i` on, that holds a letter.
pub open spec fn letter_from(s: Seq<char>, i: int) -> int
    decreases s.len() - i,
{
    if i < 0 || i >= s.len() || is_letter(s[i]) {
        i
    } else {
        letter_from(s, i + 1)
    }
}

/// How many bytes a unit stands for.
pub open spec fn unit_size(unit: Seq<char>) -> Option<nat> {
    let u = text::lower(unit);
    if u == "b"@ {
        Some(1)
    } else if u == "kib"@ || u == "kb"@ {
        Some(1024)
    } else if u == "mib"@ || u == "mb"@ {
        Some(1_048_576)
    } else if u == "gib"@ || u == "gb"@ {
        Some(1_073_741_824)
    } else {
        None
    }
}

/// The bytes of a size such as `~ 34.48MiB`, rounded down.
pub open spec fn size_in(s: Seq<char>) -> Option<nat> {
    let t = text::trim(text::trim_start_set(s, "~"@));
    let k = letter_from(t, 0);
    if k >= t.len() {
        None
    } else {
        match (
            decimal::parsed_decimal(text::trim(t.take(k))),
            unit_size(text::trim(t.skip(k))),
        ) {
            (Some(v), Some(m)) => Some(decimal::scaled_nat(v, m, 0)),
            _ => None,
        }
    }
}

/// A text without the suffix, taken off as often as it stands there.
pub open spec fn without_suffixes(s: Seq<char>, p: Seq<char>) -> Seq<char>
    decreases s.len(),
{
    if p.len() > 0 && text::has_suffix(s, p) {
        without_suffixes(s.take(s.len() - p.len()), p)
    } else {
        s
    }
}

/// The bytes per second of a rate such as `1.23MiB/s`.
pub open spec fn rate_in(s: Seq<char>) -> Option<nat> {
    size_in(text::trim(without_suffixes(s, "/s"@)))
}

fn letter(c: char) -> (r: bool)
    ensures
        r == is_letter(c),
{
    ('a' <= c && c <= 'z') || ('A' <= c && c <= 'Z')
}

/// Reads a size.
pub fn parse_size(s: &[char]) -> (r: Option<u64>)
    ensures
        match r {
            Some(n) => size_in(s@) == Some(n as nat),
            None => size_in(s@) is None,
        },
{
    let t = trimmed(trimmed_start_set(s, "~"));
    let mut k: usize = 0;
    while k < t.len() && !letter(t[k])
        invariant
            k <= t.len(),
            letter_from(t@, 0) == letter_from(t@, k as int),
        decreases t.len() - k,
    {
        k += 1;
    }
    if k >= t.len() {
        return None;
    }
    let num = slice_subrange(t, 0, k);
    let unit = slice_subrange(t, k, t.len());
    assert(num@ =~= t@.take(k as int));
    assert(unit@ =~= t@.skip(k as int));
    let u = to_lower(trimmed(unit));
    let m: u64 = if is(u.as_slice(), "b") {
        1
    } else if is(u.as_slice(), "kib") || is(u.as_slice(), "kb") {
        1024
    } else if is(u.as_slice(), "mib") || is(u.as_slice(), "mb") {
        1_048_576
    } else if is(u.as_slice(), "gib") || is(u.as_slice(), "gb") {
        1_073_741_824
    } else {
        return None;
    };
    parse_scaled_u64(trimmed(num), m, 0)
}

/// Reads a rate.
pub fn parse_rate(s: &[char]) -> (r: Option<u64>)
    ensures
        match r {
            Some(n) => rate_in(s@) == Some(n as nat),
            None => rate_in(s@) is None,
        },
{
    proof {
        reveal_strlit("/s");
    }
    let mut rest = s;
    loop
        invariant
            "/s"@.len() == 2,
            without_suffixes(s@, "/s"@) == without_suffixes(rest@, "/s"@),
        ensures
            rest@ == without_suffixes(s@, "/s"@),
        decreases rest@.len(),
    {
        match strip_suffix(rest, "/s") {
            Some(x) => {
                rest = x;
            },
            None => {
                break;
            },
        }
    }
    parse_size(trimmed(rest))
}

/// A text up to the first occurrence of another one.
pub open spec fn upto_text(s: Seq<char>, sep: Seq<char>) -> Seq<char> {
    if text::holds(s, sep) {
        s.take(text::find(s, sep, 0))
    } else {
        s
    }
}

/// What stands between the first and the second occurrence of a text.
pub open spec fn second_piece(s: Seq<char>, sep: Seq<char>) -> Option<Seq<char>> {
    if text::holds(s, sep) {
        Some(upto_text(s.skip(text::find(s, sep, 0) + sep.len()), sep))
    } else {
        None
    }
}

/// The position before `end` at which a text occurs last; -1 where it does not.
pub open spec fn last_find(s: Seq<char>, needle: Seq<char>, end: int) -> int
    decreases end,
{
    if end <= 0 {
        -1
    } else if text::has_at(s, end - 1, needle) {
        end - 1
    } else {
        last_find(s, needle, end - 1)
    }
}

/// The fragments that a line tells, as in `(frag 12/138)`.
pub open spec fn fragments_in(s: Seq<char>) -> (nat, nat) {
    let k = last_find(s, "(frag "@, s.len() as int);
    if k < 0 {
        (0, 0)
    } else {
        match text::split_once(without_suffixes(s.skip(k + 6), ")"@), "/"@) {
            Some((d, t)) => match (
                number::parsed_nat(text::trim(d), u64::MAX as nat),
                number::parsed_nat(text::trim(t), u64::MAX as nat),
            ) {
                (Some(done), Some(total)) => (done, total),
                _ => (0, 0),
            },
            None => (0, 0),
        }
    }
}

/// The total that a line tells.
pub open spec fn total_in(s: Seq<char>) -> Option<nat> {
    match second_piece(s, " of "@) {
        Some(p) => size_in(text::trim(upto_text(p, " at "@))),
        None => None,
    }
}

/// The speed that a line tells.
pub open spec fn speed_in(s: Seq<char>) -> Option<nat> {
    match second_piece(s, " at "@) {
        Some(p) => rate_in(text::trim(upto_text(p, " ETA"@))),
        None => None,
    }
}

/// The progress that a line tells: the share of the total that is there, rounded
/// down, and the fragments.
pub open spec fn progress_in(s: Seq<char>) -> Option<JobEvent> {
    match decimal::parsed_decimal(text::trim(text::before_first(s, "%"@))) {
        Some(pct) => Some(
            JobEvent::Progress {
                downloaded_bytes: match total_in(s) {
                    Some(t) => decimal::scaled_nat(pct, t, 2) as u64,
                    None => 0,
                },
                total_bytes: match total_in(s) {
                    Some(t) => Some(t as u64),
                    None => None,
                },
                done_units: fragments_in(s).0 as u64,
                total_units: fragments_in(s).1 as u64,
                speed_bps: match speed_in(s) {
                    Some(v) => v as u64,
                    None => 0,
                },
            },
        ),
        None => None,
    }
}

fn upto<'a>(s: &'a [char], sep: &str) -> (r: &'a [char])
    ensures
        r@ == upto_text(s@, sep@),
{
    proof {
        text::lemma_find(s@, sep@, 0);
    }
    match find_str(s, sep) {
        Some(i) => {
            let r = slice_subrange(s, 0, i);
            assert(r@ =~= s@.take(i as int));
            r
        },
        None => s,
    }
}

fn second<'a>(s: &'a [char], sep: &str) -> (r: Option<&'a [char]>)
    ensures
        match r {
            Some(p) => second_piece(s@, sep@) == Some(p@),
            None => second_piece(s@, sep@) is None,
        },
{
    proof {
        text::lemma_find(s@, sep@, 0);
    }
    let n: usize = chars_of(sep).len();
    match find_str(s, sep) {
        Some(i) => {
            let rest = slice_subrange(s, i + n, s.len());
            assert(rest@ =~= s@.skip(i + n));
            Some(upto(rest, sep))
        },
        None => None,
    }
}

fn fragments(s: &[char]) -> (r: (u64, u64))
    ensures
        (r.0 as nat, r.1 as nat) == fragments_in(s@),
{
    let needle = chars_of("(frag ");
    proof {
        reveal_strlit("(frag ");
        reveal_strlit(")");
    }
    let mut end: usize = s.len();
    while end > 0 && !text::chars_at(s, end - 1, needle.as_slice())
        invariant
            end <= s.len(),
            needle@ == "(frag "@,
            last_find(s@, needle@, end as int) == last_find(s@, needle@, s@.len() as int),
        decreases end,
    {
        end -= 1;
    }
    if end == 0 {
        return (0, 0);
    }
    let mut rest = slice_subrange(s, end + 5, s.len());
    assert(rest@ =~= s@.skip(end - 1 + 6));
    let ghost tail = rest@;
    loop
        invariant
            ")"@.len() == 1,
            without_suffixes(tail, ")"@) == without_suffixes(rest@, ")"@),
        ensures
            rest@ == without_suffixes(tail, ")"@),
        decreases rest@.len(),
    {
        match strip_suffix(rest, ")") {
            Some(x) => {
                rest = x;
            },
            None => {
                break;
            },
        }
    }
    match split_at_first(rest, "/") {
        Some((d, t)) => match (parse_u64(trimmed(d)), parse_u64(trimmed(t))) {
            (Some(done), Some(total)) => (done, total),
            _ => (0, 0),
        },
        None => (0, 0),
    }
}

/// Reads the progress that a line tells.
pub fn parse_progress_line(s: &[char]) -> (r: Option<JobEvent>)
    ensures
        r == progress_in(s@),
{
    let pct = trimmed(cut_before_first(s, "%"));
    if parse_decimal(pct).is_none() {
        return None;
    }
    let total = match second(s, " of ") {
        Some(p) => parse_size(trimmed(upto(p, " at "))),
        None => None,
    };
    let speed = match second(s, " at ") {
        Some(p) => parse_rate(trimmed(upto(p, " ETA"))),
        None => None,
    };
    let (done_units, total_units) = fragments(s);
    let downloaded_bytes: u64 = match total {
        Some(t) => match parse_scaled_u64(pct, t, 2) {
            Some(n) => n,
            None => 0,
        },
        None => 0,
    };
    let speed_bps: u64 = match speed {
        Some(v) => v,
        None => 0,
    };
    Some(
        JobEvent::Progress {
            downloaded_bytes,
            total_bytes: total,
            done_units,
            total_units,
            speed_bps,
        },
    )
}

/// What a line of the program's output is.
#[derive(Debug)]
pub enum OutputLine {
    Event(JobEvent),
    /// Perhaps the path of the finished file.
    Path(String),
    Other,
}

/// The model of [`OutputLine`].
pub enum OutputLineView {
    Event(JobEvent),
    Path(Seq<char>),
    Other,
}

impl View for OutputLine {
    type V = OutputLineView;

    open spec fn view(&self) -> OutputLineView {
        match self {
            OutputLine::Event(e) => OutputLineView::Event(*e),
            OutputLine::Path(p) => OutputLineView::Path(p@),
            OutputLine::Other => OutputLineView::Other,
        }
    }
}

/// What a line is: progress, the start of a conversion, or a path where it is not a
/// message in brackets.
pub open spec fn line_meaning(raw: Seq<char>) -> OutputLineView {
    let line = text::trim(raw);
    if text::has_prefix(line, "[download]"@) {
        match progress_in(text::trim(line.skip(10))) {
            Some(e) => OutputLineView::Event(e),
            None => OutputLineView::Other,
        }
    } else if text::has_prefix(line, "[Merger]"@) || text::has_prefix(line, "[ExtractAudio]"@)
        || text::has_prefix(line, "[VideoConvertor]"@) {
        OutputLineView::Event(JobEvent::Converting)
    } else if line.len() > 0 && !text::has_prefix(line, "["@) {
        OutputLineView::Path(line)
    } else {
        OutputLineView::Other
    }
}

/// Reads a line of the program's output.
pub fn read_line(raw: &str) -> (r: OutputLine)
    ensures
        r@ == line_meaning(raw@),
{
    let cs = chars_of(raw);
    let line = trimmed(cs.as_slice());
    proof {
        reveal_strlit("[download]");
    }
    match strip_prefix(line, "[download]") {
        Some(rest) => {
            return match parse_progress_line(trimmed(rest)) {
                Some(e) => OutputLine::Event(e),
                None => OutputLine::Other,
            };
        },
        None => {},
    }
    if starts_with(line, "[Merger]") || starts_with(line, "[ExtractAudio]") || starts_with(
        line,
        "[VideoConvertor]",
    ) {
        OutputLine::Event(JobEvent::Converting)
    } else if line.len() > 0 && !starts_with(line, "[") {
        OutputLine::Path(string_of(line))
    } else {
        OutputLine::Other
    }
}

} // verus!

//! Torrents: which URLs they are, what they are called and where they go, and what
//! is shown of them.

use vstd::prelude::*;

use crate::backend::{Confidence, EntryMeta, Outcome, TorrentConfig};
use crate::cookies;
use crate::net;
use crate::net::JobEvent;
use crate::number;
use crate::number::{hex_digit_of, parse_upto};
use crate::paths;
use crate::paths::join_path;
use crate::text;
use crate::text::{
    chars_of, control, copy_opt, cut_after_last, cut_before_first, ends_with, in_set, split_all,
    split_at_first, starts_with, str_eq, string_of, strip_prefix, strip_suffix, take_chars,
    to_lower, trimmed, trimmed_set,
};
use crate::urls;
use crate::urls::{UrlPartsView, parse_url, query_pairs};

verus! {

/// The port that is listened on unless another one is set.
pub const DEFAULT_PORT: u16 = 4240;

/// How long the list of files of a torrent may take to come, in seconds.
pub const METADATA_TIMEOUT_SECS: u64 = 240;

/// How long it may take for a preview, in seconds.
pub const PREVIEW_TIMEOUT_SECS: u64 = 120;

/// The wish that names the chosen files.
pub const FILES_EXTRA: &'static str = "torrent_files";

// ---------------------------------------------------------------------------
// URLs
// ---------------------------------------------------------------------------

/// How strongly the torrent backend claims a URL: a magnet link for certain, a
/// torrent file strongly.
pub open spec fn claim(url: Seq<char>) -> Confidence {
    if text::has_prefix(url, "magnet:"@) {
        Confidence::Certain
    } else if text::has_suffix(text::lower(text::before_first(url, "?#"@)), ".torrent"@) {
        Confidence::Strong
    } else {
        Confidence::No
    }
}

/// Tells how strongly the torrent backend claims a URL.
pub fn can_handle(url: &str) -> (r: Confidence)
    ensures
        r == claim(url@),
{
    let cs = chars_of(url);
    if starts_with(cs.as_slice(), "magnet:") {
        return Confidence::Certain;
    }
    let path = to_lower(cut_before_first(cs.as_slice(), "?#"));
    if ends_with(path.as_slice(), ".torrent") {
        Confidence::Strong
    } else {
        Confidence::No
    }
}

/// Whether a torrent is fetched from a URL; otherwise it is a file on disk.
pub open spec fn is_remote(url: Seq<char>) -> bool {
    text::has_prefix(url, "magnet:"@) || text::has_prefix(url, "http://"@) || text::has_prefix(
        url,
        "https://"@,
    )
}

/// Tells whether a torrent is fetched from a URL.
pub fn is_remote_torrent(url: &str) -> (r: bool)
    ensures
        r == is_remote(url@),
{
    let cs = chars_of(url);
    starts_with(cs.as_slice(), "magnet:") || starts_with(cs.as_slice(), "http://") || starts_with(
        cs.as_slice(),
        "https://",
    )
}

// ---------------------------------------------------------------------------
// Magnet links
// ---------------------------------------------------------------------------

/// What becomes of a hash in a magnet link.
#[derive(Clone, Copy, PartialEq, Eq, Structural)]
pub enum HashFate {
    /// It is read.
    Taken,
    /// It is no hash, and the link with it is no magnet link.
    Refused,
    /// It decodes to another length than a hash has.
    Misfit,
}

/// The value of a symbol of base32.
pub open spec fn symbol(c: char) -> Option<int> {
    if 'A' <= c <= 'Z' {
        Some(c as int - 'A' as int)
    } else if '2' <= c <= '7' {
        Some(c as int - '2' as int + 26)
    } else {
        None
    }
}

/// Whether a block of eight characters at `from` is made of `n` symbols and padding,
/// with the last symbol a multiple of `m`.
pub open spec fn block_of(s: Seq<char>, from: int, n: int, m: int) -> bool {
    &&& forall|i: int| from <= i < from + n ==> symbol(#[trigger] s[i]) is Some
    &&& forall|i: int| from + n <= i < from + 8 ==> #[trigger] s[i] == '='
    &&& symbol(s[from + n - 1])->0 % m == 0
}

/// How many bytes a block of eight characters at `from` decodes to; nothing where it is
/// not base32. The bits that no byte takes up are zero.
pub open spec fn block_len(s: Seq<char>, from: int) -> Option<nat> {
    if block_of(s, from, 8, 1) {
        Some(5)
    } else if block_of(s, from, 7, 8) {
        Some(4)
    } else if block_of(s, from, 5, 2) {
        Some(3)
    } else if block_of(s, from, 4, 16) {
        Some(2)
    } else if block_of(s, from, 2, 4) {
        Some(1)
    } else {
        None
    }
}

/// How many bytes the first `blocks` blocks of a text decode to, each of which may be
/// padded; nothing where one of them is not base32.
pub open spec fn decoded_len(s: Seq<char>, blocks: nat) -> Option<nat>
    decreases blocks,
{
    if blocks == 0 {
        Some(0)
    } else {
        let last = (blocks - 1) as nat;
        match (decoded_len(s, last), block_len(s, 8 * last as int)) {
            (Some(a), Some(b)) => Some(a + b),
            _ => None,
        }
    }
}

/// What becomes of a hash of 20 bytes, or of a long one of 32 bytes: it is written in
/// hexadecimal digits or in base32.
pub open spec fn hash_fate(ih: Seq<char>, long: bool) -> HashFate {
    let bytes: nat = if long {
        32
    } else {
        20
    };
    let blocks: nat = if long {
        7
    } else {
        4
    };
    if cookies::byte_len(ih) == 2 * bytes {
        if number::all_hex(ih) {
            HashFate::Taken
        } else {
            HashFate::Refused
        }
    } else if cookies::byte_len(ih) == 8 * blocks && ih.len() == 8 * blocks {
        match decoded_len(ih, blocks) {
            Some(n) => if n == bytes {
                HashFate::Taken
            } else {
                HashFate::Misfit
            },
            None => HashFate::Refused,
        }
    } else {
        HashFate::Refused
    }
}

/// How many files the ranges of a magnet link can name altogether for it to be read:
/// the list of them is made in memory.
pub const MAX_LISTED: u64 = 268_435_456;

/// How many files a range of file numbers names; none where it is no range.
pub open spec fn range_len(piece: Seq<char>) -> nat {
    match text::split_once(piece, "-"@) {
        Some((a, b)) => match (
            number::parsed_nat(a, u64::MAX as nat),
            number::parsed_nat(b, u64::MAX as nat),
        ) {
            (Some(x), Some(y)) => if x <= y {
                (y - x + 1) as nat
            } else {
                0
            },
            _ => 0,
        },
        None => 0,
    }
}

/// How many files the ranges of a list name altogether.
pub open spec fn ranges_len(pieces: Seq<Seq<char>>) -> nat
    decreases pieces.len(),
{
    if pieces.len() == 0 {
        0
    } else {
        ranges_len(pieces.drop_last()) + range_len(pieces.last())
    }
}

/// What becomes of the topic of a magnet link.
pub open spec fn topic_fate(v: Seq<char>) -> HashFate {
    if text::has_prefix(v, "urn:btih:"@) {
        hash_fate(v.skip(9), false)
    } else if text::has_prefix(v, "urn:btmh:1220"@) {
        hash_fate(v.skip(13), true)
    } else {
        HashFate::Refused
    }
}

/// Whether a query can be read from pair `i` on, where its ranges named `files` files
/// before: a hash that is refused ends it, one of another length cannot be read, and
/// neither can too many files.
pub open spec fn readable_from(pairs: Seq<(Seq<char>, Seq<char>)>, i: int, files: nat) -> bool
    decreases pairs.len() - i,
{
    if i < 0 || i >= pairs.len() {
        true
    } else if pairs[i].0 == "xt"@ {
        match topic_fate(pairs[i].1) {
            HashFate::Taken => readable_from(pairs, i + 1, files),
            HashFate::Refused => true,
            HashFate::Misfit => false,
        }
    } else if pairs[i].0 == "so"@ {
        let all = files + ranges_len(text::split(pairs[i].1, ","@));
        all <= MAX_LISTED && readable_from(pairs, i + 1, all)
    } else {
        readable_from(pairs, i + 1, files)
    }
}

/// Whether a magnet link can be read.
pub open spec fn readable(parsed: Result<UrlPartsView, Seq<char>>) -> bool {
    match parsed {
        Ok(u) => match u.query {
            Some(q) => readable_from(urls::form_pairs(q), 0, 0),
            None => true,
        },
        Err(_) => true,
    }
}

/// The name that `librqbit_core::magnet::Magnet::parse` finds in a magnet link;
/// nothing where it has none or is no magnet link.
pub uninterp spec fn magnet_dn(url: Seq<char>) -> Option<Seq<char>>;

/// `librqbit_core::magnet::Magnet::parse`, of which the field `name` is read. The
/// result is a function of the link. It copies a hash in base32 as it was decoded, which
/// panics where that has another length, and it makes a list of the files that the link
/// names. So links that come to such a hash are left out, and those that come to more
/// than [`MAX_LISTED`] files.
#[verifier::external_body]
fn magnet_name(url: &str) -> (r: Option<String>)
    requires
        readable(urls::parsed_url(url@)),
    ensures
        text::opt(r) == magnet_dn(url@),
{
    librqbit_core::magnet::Magnet::parse(url).ok().and_then(|m| m.name)
}

fn symbol_of(c: char) -> (r: Option<u8>)
    ensures
        match r {
            Some(v) => symbol(c) == Some(v as int) && v < 32,
            None => symbol(c) is None,
        },
{
    if 'A' <= c && c <= 'Z' {
        Some((c as u32 - 'A' as u32) as u8)
    } else if '2' <= c && c <= '7' {
        Some((c as u32 - '2' as u32 + 26) as u8)
    } else {
        None
    }
}

fn is_block_of(s: &[char], from: usize, n: usize, m: u8) -> (r: bool)
    requires
        from + 8 <= s.len(),
        0 < n <= 8,
        m > 0,
    ensures
        r == block_of(s@, from as int, n as int, m as int),
{
    let mut i: usize = 0;
    let mut last: u8 = 0;
    while i < n
        invariant
            i <= n <= 8,
            from + 8 <= s.len(),
            forall|j: int| from <= j < from + i ==> symbol(#[trigger] s@[j]) is Some,
            i > 0 ==> symbol(s@[from + i - 1]) == Some(last as int),
        decreases n - i,
    {
        match symbol_of(s[from + i]) {
            Some(v) => {
                last = v;
            },
            None => {
                return false;
            },
        }
        i += 1;
    }
    while i < 8
        invariant
            0 < n <= i <= 8,
            from + 8 <= s.len(),
            forall|j: int| from <= j < from + n ==> symbol(#[trigger] s@[j]) is Some,
            forall|j: int| from + n <= j < from + i ==> #[trigger] s@[j] == '=',
            symbol(s@[from + n - 1]) == Some(last as int),
        decreases 8 - i,
    {
        if s[from + i] != '=' {
            return false;
        }
        i += 1;
    }
    last % m == 0
}

fn count_block(s: &[char], from: usize) -> (r: Option<u8>)
    requires
        from + 8 <= s.len(),
    ensures
        match r {
            Some(n) => block_len(s@, from as int) == Some(n as nat) && n <= 5,
            None => block_len(s@, from as int) is None,
        },
{
    if is_block_of(s, from, 8, 1) {
        Some(5)
    } else if is_block_of(s, from, 7, 8) {
        Some(4)
    } else if is_block_of(s, from, 5, 2) {
        Some(3)
    } else if is_block_of(s, from, 4, 16) {
        Some(2)
    } else if is_block_of(s, from, 2, 4) {
        Some(1)
    } else {
        None
    }
}

proof fn lemma_decoded_len(s: Seq<char>, some: nat, all: nat)
    requires
        some <= all,
        decoded_len(s, some) is None,
    ensures
        decoded_len(s, all) is None,
    decreases all,
{
    if some < all {
        lemma_decoded_len(s, some, (all - 1) as nat);
    }
}

fn count_decoded(s: &[char], blocks: usize) -> (r: Option<usize>)
    requires
        blocks <= 7,
        8 * blocks <= s.len(),
    ensures
        match r {
            Some(n) => decoded_len(s@, blocks as nat) == Some(n as nat),
            None => decoded_len(s@, blocks as nat) is None,
        },
{
    let mut total: usize = 0;
    let mut i: usize = 0;
    while i < blocks
        invariant
            i <= blocks <= 7,
            8 * blocks <= s.len(),
            total <= 5 * i,
            decoded_len(s@, i as nat) == Some(total as nat),
        decreases blocks - i,
    {
        match count_block(s, 8 * i) {
            Some(n) => {
                total = total + n as usize;
            },
            None => {
                proof {
                    lemma_decoded_len(s@, (i + 1) as nat, blocks as nat);
                }
                return None;
            },
        }
        i += 1;
    }
    Some(total)
}

fn is_all_hex(s: &[char]) -> (r: bool)
    ensures
        r == number::all_hex(s@),
{
    let mut i: usize = 0;
    while i < s.len()
        invariant
            i <= s.len(),
            forall|j: int| 0 <= j < i ==> number::hex_digit(#[trigger] s@[j]) is Some,
        decreases s.len() - i,
    {
        if hex_digit_of(s[i]).is_none() {
            return false;
        }
        i += 1;
    }
    true
}

fn read_hash(ih: &[char], long: bool) -> (r: HashFate)
    ensures
        r == hash_fate(ih@, long),
{
    let bytes: u32 = if long {
        32
    } else {
        20
    };
    let blocks: u32 = if long {
        7
    } else {
        4
    };
    if cookies::takes_bytes(ih, 2 * bytes) {
        if is_all_hex(ih) {
            HashFate::Taken
        } else {
            HashFate::Refused
        }
    } else if cookies::takes_bytes(ih, 8 * blocks) && ih.len() == 8 * blocks as usize {
        match count_decoded(ih, blocks as usize) {
            Some(n) => if n == bytes as usize {
                HashFate::Taken
            } else {
                HashFate::Misfit
            },
            None => HashFate::Refused,
        }
    } else {
        HashFate::Refused
    }
}

fn count_range(piece: &[char]) -> (r: u128)
    ensures
        r == range_len(piece@),
{
    match split_at_first(piece, "-") {
        Some((a, b)) => match (parse_upto(a, u64::MAX), parse_upto(b, u64::MAX)) {
            (Some(x), Some(y)) => if x <= y {
                (y - x) as u128 + 1
            } else {
                0
            },
            _ => 0,
        },
        None => 0,
    }
}

proof fn lemma_ranges_len(pieces: Seq<Seq<char>>, n: int)
    requires
        0 <= n <= pieces.len(),
    ensures
        ranges_len(pieces.take(n)) <= ranges_len(pieces),
    decreases pieces.len() - n,
{
    if n < pieces.len() {
        lemma_ranges_len(pieces, n + 1);
        assert(pieces.take(n + 1).drop_last() =~= pieces.take(n));
    } else {
        assert(pieces.take(n) =~= pieces);
    }
}

/// Adds how many files the ranges of a list name; nothing where that is too many.
fn count_ranges(v: &str, before: u64) -> (r: Option<u64>)
    requires
        before <= MAX_LISTED,
    ensures
        ({
            let n = before + ranges_len(text::split(v@, ","@));
            match r {
                Some(t) => t == n && n <= MAX_LISTED,
                None => n > MAX_LISTED,
            }
        }),
{
    let cs = chars_of(v);
    let pieces = split_all(cs.as_slice(), ",");
    let ghost all = text::views(pieces@);
    let mut total: u64 = before;
    let mut i: usize = 0;
    assert(all.take(0) =~= Seq::empty());
    while i < pieces.len()
        invariant
            i <= pieces.len(),
            all == text::views(pieces@),
            all == text::split(v@, ","@),
            total == before + ranges_len(all.take(i as int)),
            total <= MAX_LISTED,
        decreases pieces.len() - i,
    {
        assert(all[i as int] == pieces@[i as int]@);
        proof {
            assert(all.take(i + 1).drop_last() =~= all.take(i as int));
            lemma_ranges_len(all, i + 1);
        }
        let n: u128 = count_range(pieces[i].as_slice());
        if n > (MAX_LISTED - total) as u128 {
            return None;
        }
        total = total + n as u64;
        i += 1;
    }
    assert(all.take(i as int) =~= all);
    Some(total)
}

fn read_topic(v: &str) -> (r: HashFate)
    ensures
        r == topic_fate(v@),
{
    let cs = chars_of(v);
    proof {
        reveal_strlit("urn:btih:");
        reveal_strlit("urn:btmh:1220");
    }
    match strip_prefix(cs.as_slice(), "urn:btih:") {
        Some(ih) => read_hash(ih, false),
        None => match strip_prefix(cs.as_slice(), "urn:btmh:1220") {
            Some(ih) => read_hash(ih, true),
            None => HashFate::Refused,
        },
    }
}

fn is_readable_query(pairs: &Vec<(String, String)>) -> (r: bool)
    ensures
        r == readable_from(net::pairs_view(pairs@), 0, 0),
{
    let ghost all = net::pairs_view(pairs@);
    let mut files: u64 = 0;
    let mut i: usize = 0;
    while i < pairs.len()
        invariant
            i <= pairs.len(),
            files <= MAX_LISTED,
            all == net::pairs_view(pairs@),
            readable_from(all, 0, 0) == readable_from(all, i as int, files as nat),
        decreases pairs.len() - i,
    {
        assert(all[i as int] == net::pair_view(pairs@[i as int]));
        if str_eq(pairs[i].0.as_str(), "xt") {
            match read_topic(pairs[i].1.as_str()) {
                HashFate::Taken => {},
                HashFate::Refused => {
                    return true;
                },
                HashFate::Misfit => {
                    return false;
                },
            }
        } else if str_eq(pairs[i].0.as_str(), "so") {
            match count_ranges(pairs[i].1.as_str(), files) {
                Some(n) => {
                    files = n;
                },
                None => {
                    return false;
                },
            }
        }
        i += 1;
    }
    true
}

/// Tells whether a magnet link can be read.
pub fn is_readable(url: &str) -> (r: bool)
    ensures
        r == readable(urls::parsed_url(url@)),
{
    match parse_url(url) {
        Ok(u) => match &u.query {
            Some(q) => is_readable_query(&query_pairs(q.as_str())),
            None => true,
        },
        Err(_) => true,
    }
}

// ---------------------------------------------------------------------------
// Names
// ---------------------------------------------------------------------------

/// The name of a torrent file: the last part of its path without the extension.
pub open spec fn file_title(url: Seq<char>) -> Seq<char> {
    let name = text::after_last(text::before_first(url, "?#"@), "/\\"@);
    let stem = text::trim(
        if text::has_suffix(name, ".torrent"@) {
            name.take(name.len() - 8)
        } else {
            name
        },
    );
    if stem.len() == 0 {
        "torrent"@
    } else {
        stem
    }
}

/// The name of a torrent for people, before the torrent itself is there. `dn` is
/// the name in the magnet link.
pub open spec fn title_of(url: Seq<char>, dn: Option<Seq<char>>) -> Seq<char> {
    if text::has_prefix(url, "magnet:"@) {
        match dn {
            Some(n) => if text::trim(n).len() > 0 {
                n
            } else {
                "torrent"@
            },
            None => "torrent"@,
        }
    } else {
        file_title(url)
    }
}

/// Names a torrent, given the name in its magnet link.
pub fn display_name_with(url: &str, dn: Option<String>) -> (r: String)
    ensures
        r@ == title_of(url@, text::opt(dn)),
{
    let cs = chars_of(url);
    if starts_with(cs.as_slice(), "magnet:") {
        return match dn {
            Some(n) => {
                let ns = chars_of(n.as_str());
                if trimmed(ns.as_slice()).len() > 0 {
                    n
                } else {
                    "torrent".to_string()
                }
            },
            None => "torrent".to_string(),
        };
    }
    proof {
        reveal_strlit(".torrent");
    }
    let name = cut_after_last(cut_before_first(cs.as_slice(), "?#"), "/\\");
    let stem = match strip_suffix(name, ".torrent") {
        Some(s) => trimmed(s),
        None => trimmed(name),
    };
    if stem.len() == 0 {
        "torrent".to_string()
    } else {
        string_of(stem)
    }
}

/// Names a torrent.
pub fn display_name(url: &str) -> (r: String)
    requires
        text::has_prefix(url@, "magnet:"@) ==> readable(urls::parsed_url(url@)),
    ensures
        r@ == title_of(url@, magnet_dn(url@)),
{
    let cs = chars_of(url);
    if starts_with(cs.as_slice(), "magnet:") {
        display_name_with(url, magnet_name(url))
    } else {
        display_name_with(url, None)
    }
}

/// Names a torrent; nothing where its magnet link cannot be read.
pub fn try_display_name(url: &str) -> (r: Option<String>)
    ensures
        text::opt(r) == (if text::has_prefix(url@, "magnet:"@) && !readable(
            urls::parsed_url(url@),
        ) {
            None
        } else {
            Some(title_of(url@, magnet_dn(url@)))
        }),
{
    let cs = chars_of(url);
    if starts_with(cs.as_slice(), "magnet:") && !is_readable(url) {
        return None;
    }
    Some(display_name(url))
}

/// Whether a character cannot stand in the name of a folder.
pub open spec fn is_unsafe(c: char) -> bool {
    "/\\:*?\"<>|\0"@.contains(c) || text::is_control(c)
}

/// A text with an underscore for each character that cannot stand in the name of a
/// folder.
pub open spec fn cleaned(s: Seq<char>) -> Seq<char> {
    s.map_values(
        |c: char|
            if is_unsafe(c) {
                '_'
            } else {
                c
            },
    )
}

/// The name of the folder for a torrent: without what cannot stand in it, without
/// white space and dots around it, and not longer than 120 characters.
pub open spec fn folder_name(name: Seq<char>) -> Seq<char> {
    let t = text::trim(text::trim_set(text::trim(cleaned(name)), "."@));
    if t.len() == 0 {
        "torrent"@
    } else {
        text::first_chars(t, 120)
    }
}

fn clean(s: &[char]) -> (r: Vec<char>)
    ensures
        r@ == cleaned(s@),
{
    let set = chars_of("/\\:*?\"<>|\0");
    let mut out: Vec<char> = Vec::new();
    let mut i: usize = 0;
    while i < s.len()
        invariant
            i <= s.len(),
            set@ == "/\\:*?\"<>|\0"@,
            out@ == cleaned(s@).take(i as int),
        decreases s.len() - i,
    {
        let c = s[i];
        if in_set(c, set.as_slice()) || control(c) {
            out.push('_');
        } else {
            out.push(c);
        }
        i += 1;
        assert(out@ =~= cleaned(s@).take(i as int));
    }
    assert(out@ =~= cleaned(s@));
    out
}

/// Names the folder for a torrent.
pub fn sanitize(name: &str) -> (r: String)
    ensures
        r@ == folder_name(name@),
{
    let cleaned_name = clean(chars_of(name).as_slice());
    let t = trimmed(trimmed_set(trimmed(cleaned_name.as_slice()), "."));
    if t.len() == 0 {
        "torrent".to_string()
    } else {
        string_of(take_chars(t, 120))
    }
}

/// Whether all characters can stand in the name of a folder.
pub open spec fn all_safe(s: Seq<char>) -> bool {
    forall|i: int| 0 <= i < s.len() ==> !is_unsafe(#[trigger] s[i])
}

proof fn lemma_shorter_is_safe(s: Seq<char>)
    requires
        all_safe(s),
        s.len() > 0,
    ensures
        all_safe(s.skip(1)),
        all_safe(s.drop_last()),
{
    assert forall|i: int| 0 <= i < s.len() - 1 implies !is_unsafe(#[trigger] s.skip(1)[i]) by {
        assert(!is_unsafe(s[i + 1]));
    }
}

proof fn lemma_trimmed_is_safe(s: Seq<char>)
    requires
        all_safe(s),
    ensures
        all_safe(text::trim(s)),
    decreases s.len(),
{
    if s.len() > 0 && text::is_space(s[0]) {
        lemma_shorter_is_safe(s);
        lemma_trimmed_is_safe(s.skip(1));
        reveal_with_fuel(text::trim_start, 2);
    } else {
        lemma_end_trimmed_is_safe(s);
    }
}

proof fn lemma_end_trimmed_is_safe(s: Seq<char>)
    requires
        all_safe(s),
    ensures
        all_safe(text::trim_end(s)),
    decreases s.len(),
{
    if s.len() > 0 && text::is_space(s.last()) {
        lemma_shorter_is_safe(s);
        lemma_end_trimmed_is_safe(s.drop_last());
    }
}

proof fn lemma_set_trimmed_is_safe(s: Seq<char>, set: Seq<char>)
    requires
        all_safe(s),
    ensures
        all_safe(text::trim_set(s, set)),
    decreases s.len(),
{
    if s.len() > 0 && set.contains(s[0]) {
        lemma_shorter_is_safe(s);
        lemma_set_trimmed_is_safe(s.skip(1), set);
    } else {
        lemma_end_set_trimmed_is_safe(s, set);
    }
}

proof fn lemma_end_set_trimmed_is_safe(s: Seq<char>, set: Seq<char>)
    requires
        all_safe(s),
    ensures
        all_safe(text::trim_end_set(s, set)),
    decreases s.len(),
{
    if s.len() > 0 && set.contains(s.last()) {
        lemma_shorter_is_safe(s);
        lemma_end_set_trimmed_is_safe(s.drop_last(), set);
    }
}

/// The folder for a torrent has a name, of at most 120 characters, and all of them can
/// stand in it.
pub proof fn folder_names_are_safe(name: Seq<char>)
    ensures
        all_safe(folder_name(name)),
        1 <= folder_name(name).len() <= 120,
{
    reveal_strlit("/\\:*?\"<>|\0");
    reveal_strlit("torrent");
    let c = cleaned(name);
    assert forall|i: int| 0 <= i < c.len() implies !is_unsafe(#[trigger] c[i]) by {
        assert(!is_unsafe('_'));
    }
    lemma_trimmed_is_safe(c);
    lemma_set_trimmed_is_safe(text::trim(c), "."@);
    lemma_trimmed_is_safe(text::trim_set(text::trim(c), "."@));
    let t = text::trim(text::trim_set(text::trim(c), "."@));
    assert forall|i: int| 0 <= i < folder_name(name).len() implies !is_unsafe(
        #[trigger] folder_name(name)[i],
    ) by {
        if t.len() > 0 {
            assert(folder_name(name)[i] == t[i]);
        }
    }
}

/// The folder that a torrent goes to: in the directory for torrents, or else in
/// the one for downloads.
pub open spec fn folder_of(
    configured: Option<Seq<char>>,
    dest_dir: Seq<char>,
    name: Seq<char>,
) -> Seq<char> {
    paths::join(
        match configured {
            Some(d) => d,
            None => dest_dir,
        },
        folder_name(name),
    )
}

/// Picks the folder that a torrent goes to.
pub fn output_folder(cfg: &TorrentConfig, dest_dir: &str, name: &str) -> (r: String)
    ensures
        r@ == folder_of(text::opt(cfg.download_dir), dest_dir@, name@),
{
    let folder = sanitize(name);
    match &cfg.download_dir {
        Some(d) => join_path(d.as_str(), folder.as_str()),
        None => join_path(dest_dir, folder.as_str()),
    }
}

/// What is known of a torrent by its name, before it runs.
pub fn describe(cfg: &TorrentConfig, dest_dir: &str, name: &str) -> (r: EntryMeta)
    ensures
        r.author is None,
        text::opt(r.title) == Some(name@),
        text::opt(r.media_class) == Some("torrent"@),
        text::opt(r.out_dir) == Some(folder_of(text::opt(cfg.download_dir), dest_dir@, name@)),
{
    EntryMeta {
        author: None,
        title: Some(name.to_string()),
        media_class: Some("torrent".to_string()),
        out_dir: Some(output_folder(cfg, dest_dir, name)),
    }
}

// ---------------------------------------------------------------------------
// Wishes and limits
// ---------------------------------------------------------------------------

/// The numbers among the pieces of a list.
pub open spec fn numbers_in(pieces: Seq<Seq<char>>) -> Seq<nat>
    decreases pieces.len(),
{
    if pieces.len() == 0 {
        Seq::empty()
    } else {
        let rest = numbers_in(pieces.drop_last());
        match number::parsed_nat(text::trim(pieces.last()), usize::MAX as nat) {
            Some(n) => rest.push(n),
            None => rest,
        }
    }
}

/// The files that a wish names; nothing where it names none, which means all.
pub open spec fn selection(raw: Option<Seq<char>>) -> Option<Seq<nat>> {
    match raw {
        Some(s) => {
            let chosen = numbers_in(text::split(text::trim(s), ","@));
            if chosen.len() == 0 {
                None
            } else {
                Some(chosen)
            }
        },
        None => None,
    }
}

/// Numbers as naturals.
pub open spec fn nats(v: Seq<usize>) -> Seq<nat> {
    v.map_values(|n: usize| n as nat)
}

/// Reads the files that a wish names.
pub fn parse_file_selection(raw: Option<&String>) -> (r: Option<Vec<usize>>)
    ensures
        match r {
            Some(v) => selection(
                match raw {
                    Some(s) => Some(s@),
                    None => None,
                },
            ) == Some(nats(v@)),
            None => selection(
                match raw {
                    Some(s) => Some(s@),
                    None => None,
                },
            ) is None,
        },
{
    let cs = match raw {
        Some(s) => chars_of(s.as_str()),
        None => {
            return None;
        },
    };
    let pieces = split_all(trimmed(cs.as_slice()), ",");
    let ghost all = text::views(pieces@);
    let mut out: Vec<usize> = Vec::new();
    let mut i: usize = 0;
    assert(all.take(0) =~= Seq::empty());
    assert(nats(out@) =~= Seq::empty());
    while i < pieces.len()
        invariant
            i <= pieces.len(),
            all == text::views(pieces@),
            nats(out@) == numbers_in(all.take(i as int)),
        decreases pieces.len() - i,
    {
        proof {
            let next = all.take(i + 1);
            assert(next.drop_last() =~= all.take(i as int));
            assert(next.last() == pieces@[i as int]@);
        }
        match parse_upto(trimmed(pieces[i].as_slice()), usize::MAX as u64) {
            Some(n) => {
                let ghost before = nats(out@);
                out.push(n as usize);
                assert(nats(out@) =~= before.push(n as nat));
            },
            None => {},
        }
        i += 1;
    }
    assert(all.take(pieces@.len() as int) =~= all);
    if out.len() == 0 {
        assert(nats(out@).len() == 0);
        None
    } else {
        assert(nats(out@).len() > 0);
        Some(out)
    }
}

/// A limit in bytes per second for one in kibibytes per second, at most the largest
/// number that fits; no limit for 0.
pub open spec fn limit_of(kbps: Option<u32>) -> Option<u32> {
    match kbps {
        Some(v) => if v == 0 {
            None
        } else if v * 1024 <= u32::MAX {
            Some((v * 1024) as u32)
        } else {
            Some(u32::MAX)
        },
        None => None,
    }
}

/// Converts a limit to bytes per second.
pub fn kbps_to_bps(kbps: Option<u32>) -> (r: Option<u32>)
    ensures
        r == limit_of(kbps),
        r matches Some(v) ==> v > 0,
{
    match kbps {
        Some(v) => if v == 0 {
            None
        } else {
            let bps: u64 = v as u64 * 1024;
            if bps <= u32::MAX as u64 {
                Some(bps as u32)
            } else {
                Some(u32::MAX)
            }
        },
        None => None,
    }
}

/// How the session for torrents is set up.
#[derive(Debug)]
pub struct SessionPlan {
    pub session_dir: String,
    pub port: u16,
    pub dht: bool,
    pub upnp: bool,
    pub download_bps: Option<u32>,
    pub upload_bps: Option<u32>,
    pub peer_limit: Option<u32>,
}

/// Plans how the session for torrents is set up.
pub fn session_plan(cfg: &TorrentConfig, data_dir: &str) -> (r: SessionPlan)
    ensures
        r.session_dir@ == paths::join(data_dir@, "session"@),
        r.port == (match cfg.listen_port {
            Some(p) => p,
            None => DEFAULT_PORT,
        }),
        r.dht == (cfg.enable_dht != Some(false)),
        r.upnp == (cfg.enable_upnp != Some(false)),
        r.download_bps == limit_of(cfg.download_limit_kbps),
        r.upload_bps == limit_of(cfg.upload_limit_kbps),
        r.peer_limit == cfg.max_peers_per_torrent,
{
    let dht = match cfg.enable_dht {
        Some(b) => b,
        None => true,
    };
    let upnp = match cfg.enable_upnp {
        Some(b) => b,
        None => true,
    };
    let port = match cfg.listen_port {
        Some(p) => p,
        None => DEFAULT_PORT,
    };
    SessionPlan {
        session_dir: join_path(data_dir, "session"),
        port,
        dht,
        upnp,
        download_bps: kbps_to_bps(cfg.download_limit_kbps),
        upload_bps: kbps_to_bps(cfg.upload_limit_kbps),
        peer_limit: cfg.max_peers_per_torrent,
    }
}

// ---------------------------------------------------------------------------
// Running
// ---------------------------------------------------------------------------

/// What a session tells of a torrent.
#[derive(Debug)]
pub struct TorrentStats {
    /// `initializing`, `live`, `paused`, or something else for an error.
    pub state: String,
    pub error: Option<String>,
    pub progress_bytes: u64,
    pub total_bytes: u64,
    pub uploaded_bytes: u64,
    pub finished: bool,
    pub download_speed: u64,
    pub upload_speed: u64,
    pub live_peers: u32,
}

/// What a torrent that waits for its list of files does next.
#[derive(Debug, PartialEq, Eq)]
pub enum MetadataStep {
    Ready,
    Wait,
    Fail(String),
}

/// Decides whether the list of files is there: an error counts first, and a known
/// size means that it is.
pub fn metadata_step(s: &TorrentStats) -> (r: MetadataStep)
    ensures
        match s.error {
            Some(e) => r == MetadataStep::Fail(e),
            None => r == (if s.total_bytes > 0 {
                MetadataStep::Ready
            } else {
                MetadataStep::Wait
            }),
        },
{
    match &s.error {
        Some(e) => MetadataStep::Fail(e.clone()),
        None => if s.total_bytes > 0 {
            MetadataStep::Ready
        } else {
            MetadataStep::Wait
        },
    }
}

/// The event for a torrent that is not there yet.
pub fn waiting_event() -> (r: JobEvent)
    ensures
        r == (JobEvent::Progress {
            downloaded_bytes: 0,
            total_bytes: None,
            done_units: 0,
            total_units: 0,
            speed_bps: 0,
        }),
{
    JobEvent::Progress {
        downloaded_bytes: 0,
        total_bytes: None,
        done_units: 0,
        total_units: 0,
        speed_bps: 0,
    }
}

/// The event for a running torrent.
pub fn progress_event(s: &TorrentStats) -> (r: JobEvent)
    ensures
        r == (JobEvent::Progress {
            downloaded_bytes: s.progress_bytes,
            total_bytes: if s.total_bytes > 0 {
                Some(s.total_bytes)
            } else {
                None
            },
            done_units: 0,
            total_units: 0,
            speed_bps: s.download_speed,
        }),
{
    let total_bytes = if s.total_bytes > 0 {
        Some(s.total_bytes)
    } else {
        None
    };
    JobEvent::Progress {
        downloaded_bytes: s.progress_bytes,
        total_bytes,
        done_units: 0,
        total_units: 0,
        speed_bps: s.download_speed,
    }
}

/// The event for a complete torrent.
pub fn final_event(s: &TorrentStats) -> (r: JobEvent)
    ensures
        r == (JobEvent::Progress {
            downloaded_bytes: s.total_bytes,
            total_bytes: Some(s.total_bytes),
            done_units: 0,
            total_units: 0,
            speed_bps: 0,
        }),
{
    JobEvent::Progress {
        downloaded_bytes: s.total_bytes,
        total_bytes: Some(s.total_bytes),
        done_units: 0,
        total_units: 0,
        speed_bps: 0,
    }
}

/// Whether file number `i` is among the chosen ones; all are where none is named.
pub open spec fn is_chosen(only: Option<Seq<usize>>, i: int) -> bool {
    match only {
        Some(s) => 0 <= i <= usize::MAX && s.contains(i as usize),
        None => true,
    }
}

/// A choice of files as its model.
pub open spec fn choice(only: Option<Vec<usize>>) -> Option<Seq<usize>> {
    match only {
        Some(v) => Some(v@),
        None => None,
    }
}

fn chosen(only: &Option<Vec<usize>>, i: usize) -> (r: bool)
    ensures
        r == is_chosen(choice(*only), i as int),
{
    match only {
        Some(v) => {
            let mut j: usize = 0;
            while j < v.len()
                invariant
                    j <= v.len(),
                    choice(*only) == Some(v@),
                    forall|k: int| 0 <= k < j ==> #[trigger] v@[k] != i,
                decreases v.len() - j,
            {
                if v[j] == i {
                    assert(v@[j as int] == i);
                    return true;
                }
                j += 1;
            }
            false
        },
        None => true,
    }
}

/// The files of a torrent on disk, those that were chosen, in order.
pub open spec fn files_of(
    folder: Seq<char>,
    names: Seq<Seq<char>>,
    only: Option<Seq<usize>>,
) -> Seq<Seq<char>>
    decreases names.len(),
{
    if names.len() == 0 {
        names
    } else {
        let rest = files_of(folder, names.drop_last(), only);
        if is_chosen(only, names.len() - 1) {
            rest.push(paths::join(folder, names.last()))
        } else {
            rest
        }
    }
}

/// Lists the files of a torrent on disk.
pub fn output_files(folder: &str, names: &Vec<String>, only: &Option<Vec<usize>>) -> (r: Vec<
    String,
>)
    ensures
        text::texts(r@) == files_of(folder@, text::texts(names@), choice(*only)),
{
    let ghost all = text::texts(names@);
    let mut out: Vec<String> = Vec::new();
    let mut i: usize = 0;
    assert(all.take(0) =~= Seq::empty());
    assert(text::texts(out@) =~= Seq::empty());
    while i < names.len()
        invariant
            i <= names.len(),
            all == text::texts(names@),
            text::texts(out@) == files_of(folder@, all.take(i as int), choice(*only)),
        decreases names.len() - i,
    {
        proof {
            let next = all.take(i + 1);
            assert(next.drop_last() =~= all.take(i as int));
            assert(next.last() == names@[i as int]@);
        }
        if chosen(only, i) {
            let ghost before = text::texts(out@);
            let path = join_path(folder, names[i].as_str());
            let ghost shown = path@;
            out.push(path);
            assert(text::texts(out@) =~= before.push(shown));
        }
        i += 1;
    }
    assert(all.take(names@.len() as int) =~= all);
    out
}

/// The outcome of a complete torrent: its files, its own name or else the one that
/// it had before, and the folder that it has to itself.
pub fn outcome(
    folder: String,
    names: &Vec<String>,
    only: &Option<Vec<usize>>,
    own_name: Option<String>,
    display: String,
) -> (r: Outcome)
    ensures
        text::texts(r.files@) == files_of(folder@, text::texts(names@), choice(*only)),
        r.meta.author is None,
        r.meta.title == (match own_name {
            Some(n) => Some(n),
            None => Some(display),
        }),
        text::opt(r.meta.media_class) == Some("torrent"@),
        r.meta.out_dir == Some(folder),
        r.expected_units == Some(r.files@.len() as u64),
{
    let files = output_files(folder.as_str(), names, only);
    let n: u64 = files.len() as u64;
    let title = match own_name {
        Some(n) => Some(n),
        None => Some(display),
    };
    Outcome {
        files,
        meta: EntryMeta {
            author: None,
            title,
            media_class: Some("torrent".to_string()),
            out_dir: Some(folder),
        },
        expected_units: Some(n),
    }
}

/// Whether a complete torrent stays in the session.
pub fn keeps_seeding(cfg: &TorrentConfig) -> (r: bool)
    ensures
        r == (cfg.seed_forever == Some(true)),
{
    match cfg.seed_forever {
        Some(b) => b,
        None => false,
    }
}

// ---------------------------------------------------------------------------
// What is shown
// ---------------------------------------------------------------------------

/// The row of a torrent in a list. Speeds are in bytes per second.
#[derive(Debug)]
pub struct TorrentStat {
    pub url: String,
    pub name: String,
    pub progress_bytes: u64,
    pub total_bytes: u64,
    pub dl_speed: u64,
    pub ul_speed: u64,
    pub uploaded_bytes: u64,
    pub peers: u32,
    /// `metadata`, `verifying`, `downloading`, `seeding`, `paused` or `error`.
    pub state: &'static str,
    pub error: Option<String>,
    pub finished: bool,
    pub eta_secs: Option<u64>,
}

/// The state that is shown for a state of the session.
pub open spec fn shown_state(raw: Seq<char>, total_bytes: u64, finished: bool) -> Seq<char> {
    if raw == "initializing"@ {
        if total_bytes == 0 {
            "metadata"@
        } else {
            "verifying"@
        }
    } else if raw == "live"@ {
        if finished {
            "seeding"@
        } else {
            "downloading"@
        }
    } else if raw == "paused"@ {
        "paused"@
    } else {
        "error"@
    }
}

/// How long a torrent still takes at its speed, in seconds.
pub open spec fn eta(speed: u64, total: u64, done: u64) -> Option<u64> {
    if speed > 0 && total > done {
        Some(((total - done) / speed as int) as u64)
    } else {
        None
    }
}

/// Makes the row of a torrent.
pub fn to_stat(url: String, name: String, s: &TorrentStats) -> (r: TorrentStat)
    ensures
        r.url == url,
        r.name == name,
        r.progress_bytes == s.progress_bytes,
        r.total_bytes == s.total_bytes,
        r.dl_speed == s.download_speed,
        r.ul_speed == s.upload_speed,
        r.uploaded_bytes == s.uploaded_bytes,
        r.peers == s.live_peers,
        r.state@ == shown_state(s.state@, s.total_bytes, s.finished),
        r.error == s.error,
        r.finished == s.finished,
        r.eta_secs == eta(s.download_speed, s.total_bytes, s.progress_bytes),
{
    let raw = s.state.as_str();
    let state = if str_eq(raw, "initializing") {
        if s.total_bytes == 0 {
            "metadata"
        } else {
            "verifying"
        }
    } else if str_eq(raw, "live") {
        if s.finished {
            "seeding"
        } else {
            "downloading"
        }
    } else if str_eq(raw, "paused") {
        "paused"
    } else {
        "error"
    };
    let eta_secs = if s.download_speed > 0 && s.total_bytes > s.progress_bytes {
        Some((s.total_bytes - s.progress_bytes) / s.download_speed)
    } else {
        None
    };
    TorrentStat {
        url,
        name,
        progress_bytes: s.progress_bytes,
        total_bytes: s.total_bytes,
        dl_speed: s.download_speed,
        ul_speed: s.upload_speed,
        uploaded_bytes: s.uploaded_bytes,
        peers: s.live_peers,
        state,
        error: copy_opt(&s.error),
        finished: s.finished,
        eta_secs,
    }
}

/// One file of a torrent, how much of it is there, and whether it is chosen.
#[derive(Debug)]
pub struct TorrentFileStat {
    pub index: usize,
    pub path: String,
    pub size_bytes: u64,
    pub downloaded_bytes: u64,
    pub selected: bool,
}

/// One connected peer, with what went either way over the connection.
#[derive(Debug)]
pub struct TorrentPeer {
    pub addr: String,
    pub client: Option<String>,
    pub downloaded_bytes: u64,
    pub uploaded_bytes: u64,
}

/// The files of a torrent before it is downloaded.
#[derive(Debug)]
pub struct TorrentPreview {
    pub name: String,
    pub total_bytes: u64,
    pub files: Vec<TorrentPreviewFile>,
}

/// One file of a torrent before it is downloaded.
#[derive(Debug)]
pub struct TorrentPreviewFile {
    pub index: usize,
    pub path: String,
    pub size_bytes: u64,
}

/// Makes the list of the files of a torrent. `progress` holds how much of each file
/// is there, as far as it goes.
pub fn file_stats(
    files: &Vec<(String, u64)>,
    progress: &Vec<u64>,
    only: &Option<Vec<usize>>,
) -> (r: Vec<TorrentFileStat>)
    ensures
        r@.len() == files@.len(),
        forall|i: int|
            0 <= i < files@.len() ==> {
                &&& (#[trigger] r@[i]).index == i
                &&& r@[i].path == files@[i].0
                &&& r@[i].size_bytes == files@[i].1
                &&& r@[i].downloaded_bytes == (if i < progress@.len() {
                    progress@[i]
                } else {
                    0
                })
                &&& r@[i].selected == is_chosen(choice(*only), i)
            },
{
    let mut out: Vec<TorrentFileStat> = Vec::new();
    let mut i: usize = 0;
    while i < files.len()
        invariant
            i <= files.len(),
            out@.len() == i,
            forall|k: int|
                0 <= k < i ==> {
                    &&& (#[trigger] out@[k]).index == k
                    &&& out@[k].path == files@[k].0
                    &&& out@[k].size_bytes == files@[k].1
                    &&& out@[k].downloaded_bytes == (if k < progress@.len() {
                        progress@[k]
                    } else {
                        0
                    })
                    &&& out@[k].selected == is_chosen(choice(*only), k)
                },
        decreases files.len() - i,
    {
        let downloaded_bytes: u64 = if i < progress.len() {
            progress[i]
        } else {
            0
        };
        out.push(
            TorrentFileStat {
                index: i,
                path: files[i].0.clone(),
                size_bytes: files[i].1,
                downloaded_bytes,
                selected: chosen(only, i),
            },
        );
        i += 1;
    }
    out
}

/// The sizes of a list of files together.
pub open spec fn total_size(files: Seq<(String, u64)>) -> nat
    decreases files.len(),
{
    if files.len() == 0 {
        0
    } else {
        total_size(files.drop_last()) + files.last().1 as nat
    }
}

proof fn lemma_total_size(files: Seq<(String, u64)>, k: int)
    requires
        0 <= k <= files.len(),
    ensures
        total_size(files.take(k)) <= total_size(files),
    decreases files.len(),
{
    if k < files.len() {
        lemma_total_size(files.drop_last(), k);
        assert(files.drop_last().take(k) =~= files.take(k));
    } else {
        assert(files.take(k) =~= files);
    }
}

/// Lists the files of a torrent before it is downloaded. Their sizes together fit
/// into 64 bits.
pub fn preview(name: String, files: &Vec<(String, u64)>) -> (r: TorrentPreview)
    requires
        total_size(files@) <= u64::MAX,
    ensures
        r.name == name,
        r.total_bytes == total_size(files@),
        r.files@.len() == files@.len(),
        forall|i: int|
            0 <= i < files@.len() ==> {
                &&& (#[trigger] r.files@[i]).index == i
                &&& r.files@[i].path == files@[i].0
                &&& r.files@[i].size_bytes == files@[i].1
            },
{
    let mut out: Vec<TorrentPreviewFile> = Vec::new();
    let mut total: u64 = 0;
    let mut i: usize = 0;
    assert(files@.take(0) =~= Seq::empty());
    while i < files.len()
        invariant
            i <= files.len(),
            total_size(files@) <= u64::MAX,
            total == total_size(files@.take(i as int)),
            out@.len() == i,
            forall|k: int|
                0 <= k < i ==> {
                    &&& (#[trigger] out@[k]).index == k
                    &&& out@[k].path == files@[k].0
                    &&& out@[k].size_bytes == files@[k].1
                },
        decreases files.len() - i,
    {
        proof {
            let next = files@.take(i + 1);
            assert(next.drop_last() =~= files@.take(i as int));
            assert(next.last() == files@[i as int]);
            lemma_total_size(files@, i + 1);
        }
        total = total + files[i].1;
        out.push(
            TorrentPreviewFile { index: i, path: files[i].0.clone(), size_bytes: files[i].1 },
        );
        i += 1;
    }
    assert(files@.take(files@.len() as int) =~= files@);
    TorrentPreview { name, total_bytes: total, files: out }
}

} // verus!

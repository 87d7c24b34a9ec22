//! Laws of playlists: which tags say what of which segment.

use vstd::prelude::*;

use crate::attributes;
use crate::hls;
use crate::hls::{MediaItemView, MediaScanView, RawSegmentView, SegmentView};
use crate::iv;
use crate::number;
use crate::text;
use crate::urls;

verus! {

// ---------------------------------------------------------------------------
// Lines
// ---------------------------------------------------------------------------

/// What stands behind a tag, where a line begins with it.
pub open spec fn tagged(line: Seq<char>, tag: Seq<char>) -> Option<Seq<char>> {
    let l = text::trim(line);
    if l.len() >= tag.len() && l.take(tag.len() as int) == tag {
        Some(l.skip(tag.len() as int))
    } else {
        None
    }
}

/// Whether a line names a segment: it is neither blank nor a tag nor a comment.
pub open spec fn names_segment(line: Seq<char>) -> bool {
    text::trim(line).len() > 0 && text::trim(line)[0] != '#'
}

/// How many lines name segments.
pub open spec fn segment_lines(lines: Seq<Seq<char>>) -> nat
    decreases lines.len(),
{
    if lines.len() == 0 {
        0
    } else if names_segment(lines.last()) {
        segment_lines(lines.drop_last()) + 1
    } else {
        segment_lines(lines.drop_last())
    }
}

/// The segments among the items, initialisation segments left out.
pub open spec fn plain_items(items: Seq<MediaItemView>) -> Seq<RawSegmentView>
    decreases items.len(),
{
    if items.len() == 0 {
        Seq::empty()
    } else {
        match items.last() {
            MediaItemView::Segment(s) if !s.is_init_segment => plain_items(items.drop_last()).push(
                s,
            ),
            _ => plain_items(items.drop_last()),
        }
    }
}

proof fn lemma_tags(line: Seq<char>)
    ensures
        ({
            let l = text::trim(line);
            let inf = text::has_prefix(l, "#EXTINF:"@);
            let range = text::has_prefix(l, "#EXT-X-BYTERANGE:"@);
            let seq = text::has_prefix(l, "#EXT-X-MEDIA-SEQUENCE:"@);
            let key = text::has_prefix(l, "#EXT-X-KEY:"@);
            let map = text::has_prefix(l, "#EXT-X-MAP:"@);
            &&& inf ==> tagged(line, "#EXTINF:"@) == Some(l.skip("#EXTINF:"@.len() as int))
            &&& range ==> tagged(line, "#EXT-X-BYTERANGE:"@) == Some(
                l.skip("#EXT-X-BYTERANGE:"@.len() as int),
            )
            &&& seq ==> tagged(line, "#EXT-X-MEDIA-SEQUENCE:"@) == Some(
                l.skip("#EXT-X-MEDIA-SEQUENCE:"@.len() as int),
            )
            &&& key ==> tagged(line, "#EXT-X-KEY:"@) == Some(l.skip("#EXT-X-KEY:"@.len() as int))
            &&& map ==> tagged(line, "#EXT-X-MAP:"@) == Some(l.skip("#EXT-X-MAP:"@.len() as int))
            &&& tagged(line, "#EXTINF:"@) is Some == inf
            &&& tagged(line, "#EXT-X-BYTERANGE:"@) is Some == range
            &&& tagged(line, "#EXT-X-MEDIA-SEQUENCE:"@) is Some == seq
            &&& tagged(line, "#EXT-X-KEY:"@) is Some == key
            &&& tagged(line, "#EXT-X-MAP:"@) is Some == map
            &&& inf ==> !range && !seq && !key && !map
            &&& range ==> !seq && !key && !map
            &&& seq ==> !key && !map
            &&& key ==> !map
            &&& (inf || range || seq || key || map || l == "#EXTM3U"@ || l
                == "#EXT-X-I-FRAMES-ONLY"@) ==> text::has_prefix(l, "#"@)
            &&& (inf || range || seq || key || map) ==> l.len() > 0 && l != "#EXTM3U"@ && l
                != "#EXT-X-I-FRAMES-ONLY"@
            &&& names_segment(line) == (l.len() > 0 && !text::has_prefix(l, "#"@))
            &&& names_segment(line) ==> l != "#EXTM3U"@ && !inf && !range && !seq && !key && !map
                && l != "#EXT-X-I-FRAMES-ONLY"@
        }),
{
    reveal_strlit("#");
    reveal_strlit("#EXTINF:");
    reveal_strlit("#EXT-X-BYTERANGE:");
    reveal_strlit("#EXT-X-MEDIA-SEQUENCE:");
    reveal_strlit("#EXT-X-KEY:");
    reveal_strlit("#EXT-X-MAP:");
    reveal_strlit("#EXTM3U");
    reveal_strlit("#EXT-X-I-FRAMES-ONLY");
    let l = text::trim(line);
    if l.len() > 0 {
        if l[0] == '#' {
            assert(l.take(1) =~= "#"@);
        } else if text::has_prefix(l, "#"@) {
            assert(l.take(1)[0] == l[0]);
        }
    }
    if text::has_prefix(l, "#EXTINF:"@) {
        let p = l.take("#EXTINF:"@.len() as int);
        assert(p[0] == l[0] && p[4] == l[4]);
    }
    if text::has_prefix(l, "#EXT-X-BYTERANGE:"@) {
        let p = l.take("#EXT-X-BYTERANGE:"@.len() as int);
        assert(p[0] == l[0] && p[4] == l[4] && p[7] == l[7]);
    }
    if text::has_prefix(l, "#EXT-X-MEDIA-SEQUENCE:"@) {
        let p = l.take("#EXT-X-MEDIA-SEQUENCE:"@.len() as int);
        assert(p[0] == l[0] && p[4] == l[4] && p[7] == l[7] && p[8] == l[8]);
    }
    if text::has_prefix(l, "#EXT-X-KEY:"@) {
        let p = l.take("#EXT-X-KEY:"@.len() as int);
        assert(p[0] == l[0] && p[4] == l[4] && p[7] == l[7]);
    }
    if text::has_prefix(l, "#EXT-X-MAP:"@) {
        let p = l.take("#EXT-X-MAP:"@.len() as int);
        assert(p[0] == l[0] && p[4] == l[4] && p[7] == l[7] && p[8] == l[8]);
    }
}

proof fn lemma_prefix_reads(lines: Seq<Seq<char>>, n: int)
    requires
        0 <= n <= lines.len(),
        hls::scan_lines(lines).stop is None,
    ensures
        hls::scan_lines(lines.take(n)).stop is None,
{
    if hls::scan_lines(lines.take(n)).stop is Some {
        hls::lemma_scan_stopped(lines, n);
    }
}

proof fn lemma_next(lines: Seq<Seq<char>>, n: int)
    requires
        0 <= n < lines.len(),
        hls::scan_lines(lines).stop is None,
    ensures
        hls::scan_lines(lines.take(n)).stop is None,
        hls::scan_lines(lines.take(n + 1)).stop is None,
        hls::scan_lines(lines.take(n + 1)) == hls::scan_line(
            hls::scan_lines(lines.take(n)),
            text::trim(lines[n]),
        ),
{
    lemma_prefix_reads(lines, n);
    lemma_prefix_reads(lines, n + 1);
    assert(lines.take(n + 1).drop_last() =~= lines.take(n));
    assert(lines.take(n + 1).last() == lines[n]);
}

proof fn lemma_one_item(st: MediaScanView, line: Seq<char>)
    requires
        st.stop is None,
    ensures
        ({
            let after = hls::scan_line(st, text::trim(line));
            &&& st.items.len() <= after.items.len() <= st.items.len() + 1
            &&& after.items.take(st.items.len() as int) == st.items
            &&& names_segment(line) ==> after.items.len() == st.items.len() + 1
                && plain_items(after.items).len() == plain_items(st.items).len() + 1
                && plain_items(after.items).drop_last() == plain_items(st.items)
                && after.items.last() == MediaItemView::Segment(plain_items(after.items).last())
            &&& !names_segment(line) ==> plain_items(after.items) == plain_items(st.items)
        }),
{
    lemma_tags(line);
    let after = hls::scan_line(st, text::trim(line));
    if after.items.len() > st.items.len() {
        assert(after.items.drop_last() =~= st.items);
    }
    assert(after.items.take(st.items.len() as int) =~= st.items);
    if names_segment(line) {
        assert(plain_items(after.items).drop_last() =~= plain_items(st.items));
    }
}

/// What the lines so far say stays: the segments of the first lines of a playlist are the
/// first segments of the whole, one for each line that names one.
pub proof fn earlier_lines_stay(lines: Seq<Seq<char>>, n: int)
    requires
        hls::scan_lines(lines).stop is None,
        0 <= n <= lines.len(),
    ensures
        ({
            let some = plain_items(hls::scan_lines(lines.take(n)).items);
            let all = plain_items(hls::scan_lines(lines).items);
            &&& some.len() == segment_lines(lines.take(n))
            &&& some.len() <= all.len()
            &&& all.take(some.len() as int) == some
        }),
    decreases lines.len() - n,
{
    lemma_plain_count(lines, n);
    if n < lines.len() {
        earlier_lines_stay(lines, n + 1);
        lemma_next(lines, n);
        lemma_one_item(hls::scan_lines(lines.take(n)), lines[n]);
        let some = plain_items(hls::scan_lines(lines.take(n)).items);
        let more = plain_items(hls::scan_lines(lines.take(n + 1)).items);
        let all = plain_items(hls::scan_lines(lines).items);
        assert(all.take(more.len() as int) == more);
        assert(more.take(some.len() as int) =~= some);
        assert(all.take(some.len() as int) =~= all.take(more.len() as int).take(some.len() as int));
    } else {
        assert(lines.take(n) =~= lines);
        let all = plain_items(hls::scan_lines(lines).items);
        assert(all.take(all.len() as int) =~= all);
    }
}

proof fn lemma_plain_count(lines: Seq<Seq<char>>, n: int)
    requires
        hls::scan_lines(lines).stop is None,
        0 <= n <= lines.len(),
    ensures
        plain_items(hls::scan_lines(lines.take(n)).items).len() == segment_lines(lines.take(n)),
    decreases n,
{
    if n > 0 {
        lemma_plain_count(lines, n - 1);
        lemma_next(lines, n - 1);
        lemma_one_item(hls::scan_lines(lines.take(n - 1)), lines[n - 1]);
        assert(lines.take(n).drop_last() =~= lines.take(n - 1));
        assert(lines.take(n).last() == lines[n - 1]);
    } else {
        assert(lines.take(0) =~= Seq::empty());
    }
}

// ---------------------------------------------------------------------------
// Initialisation vectors
// ---------------------------------------------------------------------------

/// Whether no key of a playlist gives an initialisation vector.
pub open spec fn keys_give_no_iv(lines: Seq<Seq<char>>) -> bool {
    forall|i: int|
        0 <= i < lines.len() ==> (tagged(#[trigger] lines[i], "#EXT-X-KEY:"@) matches Some(rest)
            ==> !attributes::attributes(rest).dom().contains("IV"@))
}

/// Whether line `p` alone gives the sequence number of the first segment, as `m`, and
/// stands before all segments.
pub open spec fn begins_at(lines: Seq<Seq<char>>, p: int, m: nat) -> bool {
    &&& 0 <= p < lines.len()
    &&& tagged(lines[p], "#EXT-X-MEDIA-SEQUENCE:"@) matches Some(rest) && number::parsed_nat(
        text::trim(rest),
        u64::MAX as nat,
    ) == Some(m)
    &&& forall|i: int|
        0 <= i < lines.len() && i != p ==> tagged(
            #[trigger] lines[i],
            "#EXT-X-MEDIA-SEQUENCE:"@,
        ) is None
    &&& segment_lines(lines.take(p)) == 0
}

proof fn lemma_ivs(lines: Seq<Seq<char>>, p: int, m: nat, n: int)
    requires
        hls::scan_lines(lines).stop is None,
        keys_give_no_iv(lines),
        begins_at(lines, p, m),
        0 <= n <= lines.len(),
    ensures
        ({
            let st = hls::scan_lines(lines.take(n));
            let all = plain_items(st.items);
            &&& st.key_iv is None
            &&& n <= p ==> all.len() == 0
            &&& n > p && m + all.len() <= u64::MAX ==> st.media_sequence == m + all.len()
            &&& forall|k: int|
                0 <= k < all.len() && m + k <= u64::MAX ==> ((#[trigger] all[k]).iv matches Some(b)
                    ==> b == iv::be_bytes((m + k) as nat, 16))
        }),
    decreases n,
{
    if n > 0 {
        lemma_ivs(lines, p, m, n - 1);
        lemma_next(lines, n - 1);
        lemma_tags(lines[n - 1]);
        let before = hls::scan_lines(lines.take(n - 1));
        let st = hls::scan_lines(lines.take(n));
        lemma_one_item(before, lines[n - 1]);
        lemma_plain_count(lines, n);
        if n <= p {
            lemma_fewer(lines.take(p), n);
            assert(lines.take(p).take(n) =~= lines.take(n));
        }
        let all = plain_items(st.items);
        assert forall|k: int| 0 <= k < all.len() && m + k <= u64::MAX implies ((
        #[trigger] all[k]).iv matches Some(b) ==> b == iv::be_bytes((m + k) as nat, 16)) by {
            if k < plain_items(before.items).len() {
                assert(all[k] == plain_items(before.items)[k]);
            }
        }
    } else {
        assert(lines.take(0) =~= Seq::empty());
    }
}

proof fn lemma_fewer(lines: Seq<Seq<char>>, n: int)
    requires
        0 <= n <= lines.len(),
    ensures
        segment_lines(lines.take(n)) <= segment_lines(lines),
    decreases lines.len() - n,
{
    if n < lines.len() {
        lemma_fewer(lines, n + 1);
        assert(lines.take(n + 1).drop_last() =~= lines.take(n));
    } else {
        assert(lines.take(n) =~= lines);
    }
}

/// Under keys that give no initialisation vector, the vector of the `k`-th segment, counted
/// from 0, is the sequence number of the first segment and `k` more, written in sixteen
/// bytes with the highest first. So no two segments share one.
pub proof fn derived_vectors_count_on(lines: Seq<Seq<char>>, p: int, m: nat, j: int, k: int)
    requires
        hls::scan_lines(lines).stop is None,
        keys_give_no_iv(lines),
        begins_at(lines, p, m),
        0 <= j < k < plain_items(hls::scan_lines(lines).items).len(),
        m + k <= u64::MAX,
    ensures
        ({
            let all = plain_items(hls::scan_lines(lines).items);
            &&& all[j].iv matches Some(b) ==> b.len() == 16 && iv::be_value(b) == m + j
            &&& all[k].iv matches Some(b) ==> b.len() == 16 && iv::be_value(b) == m + k
            &&& all[j].iv is Some ==> all[j].iv != all[k].iv
        }),
{
    assert(lines.take(lines.len() as int) =~= lines);
    lemma_ivs(lines, p, m, lines.len() as int);
    iv::sequence_bytes_hold_the_number((m + j) as u64);
    iv::sequence_bytes_hold_the_number((m + k) as u64);
}

/// A playlist that does not number its segments begins with 0.
pub proof fn unnumbered_playlists_begin_at_zero(lines: Seq<Seq<char>>, k: int)
    requires
        hls::scan_lines(lines).stop is None,
        keys_give_no_iv(lines),
        forall|i: int|
            0 <= i < lines.len() ==> tagged(#[trigger] lines[i], "#EXT-X-MEDIA-SEQUENCE:"@) is None,
        0 <= k < plain_items(hls::scan_lines(lines).items).len(),
        k <= u64::MAX,
    ensures
        plain_items(hls::scan_lines(lines).items)[k].iv matches Some(b) ==> b.len() == 16
            && iv::be_value(b) == k,
{
    assert(lines.take(lines.len() as int) =~= lines);
    lemma_unnumbered(lines, lines.len() as int);
    iv::sequence_bytes_hold_the_number(k as u64);
}

proof fn lemma_unnumbered(lines: Seq<Seq<char>>, n: int)
    requires
        hls::scan_lines(lines).stop is None,
        keys_give_no_iv(lines),
        forall|i: int|
            0 <= i < lines.len() ==> tagged(#[trigger] lines[i], "#EXT-X-MEDIA-SEQUENCE:"@) is None,
        0 <= n <= lines.len(),
    ensures
        ({
            let st = hls::scan_lines(lines.take(n));
            let all = plain_items(st.items);
            &&& st.key_iv is None
            &&& all.len() <= u64::MAX ==> st.media_sequence == all.len()
            &&& forall|k: int|
                0 <= k < all.len() && k <= u64::MAX ==> ((#[trigger] all[k]).iv matches Some(b)
                    ==> b == iv::be_bytes(k as nat, 16))
        }),
    decreases n,
{
    if n > 0 {
        lemma_unnumbered(lines, n - 1);
        lemma_next(lines, n - 1);
        lemma_tags(lines[n - 1]);
        let before = hls::scan_lines(lines.take(n - 1));
        let st = hls::scan_lines(lines.take(n));
        lemma_one_item(before, lines[n - 1]);
        let all = plain_items(st.items);
        assert forall|k: int| 0 <= k < all.len() && k <= u64::MAX implies ((
        #[trigger] all[k]).iv matches Some(b) ==> b == iv::be_bytes(k as nat, 16)) by {
            if k < plain_items(before.items).len() {
                assert(all[k] == plain_items(before.items)[k]);
            }
        }
    } else {
        assert(lines.take(0) =~= Seq::empty());
    }
}

// ---------------------------------------------------------------------------
// Keys
// ---------------------------------------------------------------------------

/// Whether no line from `from` up to `to` begins with a tag.
pub open spec fn none_between(lines: Seq<Seq<char>>, from: int, to: int, tag: Seq<char>) -> bool {
    forall|i: int| from < i < to ==> tagged(#[trigger] lines[i], tag) is None
}

proof fn lemma_key_stays(lines: Seq<Seq<char>>, j: int, n: int)
    requires
        hls::scan_lines(lines).stop is None,
        0 <= j < n <= lines.len(),
        none_between(lines, j, n, "#EXT-X-KEY:"@),
    ensures
        ({
            let a = hls::scan_lines(lines.take(j + 1));
            let b = hls::scan_lines(lines.take(n));
            &&& a.key_uri == b.key_uri
            &&& a.key_iv == b.key_iv
            &&& a.key_set == b.key_set
        }),
    decreases n,
{
    if n > j + 1 {
        lemma_key_stays(lines, j, n - 1);
        lemma_next(lines, n - 1);
        lemma_tags(lines[n - 1]);
    }
}

/// The segments behind a key tag are encrypted under that key, up to the next key tag: they
/// have the address of the key, and its initialisation vector where it gives one. The tag
/// for no key ends that.
pub proof fn keys_hold_until_the_next(
    lines: Seq<Seq<char>>,
    j: int,
    i: int,
    attrs: Map<Seq<char>, Seq<char>>,
)
    requires
        hls::scan_lines(lines).stop is None,
        0 <= j < i < lines.len(),
        tagged(lines[j], "#EXT-X-KEY:"@) matches Some(rest) && attributes::attributes(rest) == attrs,
        none_between(lines, j, i, "#EXT-X-KEY:"@),
        names_segment(lines[i]),
    ensures
        ({
            let s = plain_items(hls::scan_lines(lines.take(i + 1)).items).last();
            let none = !attrs.dom().contains("METHOD"@) || attrs["METHOD"@] == "NONE"@;
            &&& s.uri == text::trim(lines[i])
            &&& none ==> s.key_uri is None && s.iv is None
            &&& !none ==> attrs["METHOD"@] == "AES-128"@ && s.iv is Some
            &&& !none && attrs.dom().contains("URI"@) ==> s.key_uri == Some(attrs["URI"@])
            &&& !none && attrs.dom().contains("IV"@) && iv::iv_attr(attrs["IV"@]) is Some ==> s.iv
                == iv::iv_attr(attrs["IV"@])
        }),
{
    lemma_next(lines, j);
    lemma_tags(lines[j]);
    lemma_key_stays(lines, j, i);
    lemma_next(lines, i);
    lemma_tags(lines[i]);
    lemma_one_item(hls::scan_lines(lines.take(i)), lines[i]);
}

/// Segments before the first key tag are not encrypted.
pub proof fn segments_before_keys_are_plain(lines: Seq<Seq<char>>, i: int)
    requires
        hls::scan_lines(lines).stop is None,
        0 <= i < lines.len(),
        none_between(lines, -1, i, "#EXT-X-KEY:"@),
        names_segment(lines[i]),
    ensures
        ({
            let s = plain_items(hls::scan_lines(lines.take(i + 1)).items).last();
            s.key_uri is None && s.iv is None
        }),
{
    lemma_keyless(lines, i);
    lemma_next(lines, i);
    lemma_tags(lines[i]);
    lemma_one_item(hls::scan_lines(lines.take(i)), lines[i]);
}

proof fn lemma_keyless(lines: Seq<Seq<char>>, n: int)
    requires
        hls::scan_lines(lines).stop is None,
        0 <= n <= lines.len(),
        none_between(lines, -1, n, "#EXT-X-KEY:"@),
    ensures
        hls::scan_lines(lines.take(n)).key_uri is None,
        !hls::scan_lines(lines.take(n)).key_set,
    decreases n,
{
    if n > 0 {
        lemma_keyless(lines, n - 1);
        lemma_next(lines, n - 1);
        lemma_tags(lines[n - 1]);
    } else {
        assert(lines.take(0) =~= Seq::empty());
    }
}

// ---------------------------------------------------------------------------
// Byte ranges and durations
// ---------------------------------------------------------------------------

/// Where the last byte range of the segments ends; 0 where there is none.
pub open spec fn range_end(items: Seq<RawSegmentView>) -> int
    decreases items.len(),
{
    if items.len() == 0 {
        0
    } else {
        match items.last().byte_range {
            Some((offset, length)) => offset + length,
            None => range_end(items.drop_last()),
        }
    }
}

proof fn lemma_range_end(lines: Seq<Seq<char>>, n: int)
    requires
        hls::scan_lines(lines).stop is None,
        0 <= n <= lines.len(),
    ensures
        ({
            let st = hls::scan_lines(lines.take(n));
            let end = range_end(plain_items(st.items));
            end <= u64::MAX ==> st.last_segment_end == end
        }),
    decreases n,
{
    if n > 0 {
        lemma_range_end(lines, n - 1);
        lemma_next(lines, n - 1);
        lemma_tags(lines[n - 1]);
        lemma_one_item(hls::scan_lines(lines.take(n - 1)), lines[n - 1]);
    } else {
        assert(lines.take(0) =~= Seq::empty());
    }
}

proof fn lemma_range_stays(lines: Seq<Seq<char>>, j: int, n: int)
    requires
        hls::scan_lines(lines).stop is None,
        0 <= j < n <= lines.len(),
        none_between(lines, j, n, "#EXT-X-BYTERANGE:"@),
        forall|i: int| j < i < n ==> !names_segment(#[trigger] lines[i]),
    ensures
        hls::scan_lines(lines.take(j + 1)).pending_byte_range == hls::scan_lines(
            lines.take(n),
        ).pending_byte_range,
    decreases n,
{
    if n > j + 1 {
        lemma_range_stays(lines, j, n - 1);
        lemma_next(lines, n - 1);
        lemma_tags(lines[n - 1]);
    }
}

/// A byte range tag holds for the next segment: the range has the length of the tag, and
/// begins at its offset, or where the range before it ended.
pub proof fn byte_ranges_hold_for_the_next(
    lines: Seq<Seq<char>>,
    j: int,
    i: int,
    rest: Seq<char>,
    length: nat,
    offset: nat,
)
    requires
        hls::scan_lines(lines).stop is None,
        0 <= j < i < lines.len(),
        tagged(lines[j], "#EXT-X-BYTERANGE:"@) == Some(rest),
        none_between(lines, j, i, "#EXT-X-BYTERANGE:"@),
        forall|n: int| j < n < i ==> !names_segment(#[trigger] lines[n]),
        names_segment(lines[i]),
        match text::split_once(rest, "@"@) {
            Some((l, o)) => number::parsed_nat(text::trim(l), u64::MAX as nat) == Some(length)
                && number::parsed_nat(text::trim(o), u64::MAX as nat) == Some(offset),
            None => number::parsed_nat(text::trim(rest), u64::MAX as nat) == Some(length) && offset
                == range_end(plain_items(hls::scan_lines(lines.take(j)).items)) && offset
                <= u64::MAX,
        },
    ensures
        plain_items(hls::scan_lines(lines.take(i + 1)).items).last().byte_range matches Some(b)
            && b.0 == offset && b.1 == length,
{
    lemma_range_end(lines, j);
    lemma_next(lines, j);
    lemma_tags(lines[j]);
    lemma_range_stays(lines, j, i);
    lemma_next(lines, i);
    lemma_tags(lines[i]);
    lemma_one_item(hls::scan_lines(lines.take(i)), lines[i]);
}

/// A segment without a byte range tag since the segment before it is a whole file.
pub proof fn segments_without_ranges_are_whole(lines: Seq<Seq<char>>, j: int, i: int)
    requires
        hls::scan_lines(lines).stop is None,
        0 <= j < i < lines.len(),
        names_segment(lines[j]),
        none_between(lines, j, i, "#EXT-X-BYTERANGE:"@),
        forall|n: int| j < n < i ==> !names_segment(#[trigger] lines[n]),
        names_segment(lines[i]),
    ensures
        plain_items(hls::scan_lines(lines.take(i + 1)).items).last().byte_range is None,
{
    lemma_next(lines, j);
    lemma_tags(lines[j]);
    lemma_range_stays(lines, j, i);
    lemma_next(lines, i);
    lemma_tags(lines[i]);
    lemma_one_item(hls::scan_lines(lines.take(i)), lines[i]);
}

proof fn lemma_duration_stays(lines: Seq<Seq<char>>, j: int, n: int)
    requires
        hls::scan_lines(lines).stop is None,
        0 <= j < n <= lines.len(),
        none_between(lines, j, n, "#EXTINF:"@),
        forall|i: int| j < i < n ==> !names_segment(#[trigger] lines[i]),
    ensures
        hls::scan_lines(lines.take(j + 1)).pending_duration == hls::scan_lines(
            lines.take(n),
        ).pending_duration,
    decreases n,
{
    if n > j + 1 {
        lemma_duration_stays(lines, j, n - 1);
        lemma_next(lines, n - 1);
        lemma_tags(lines[n - 1]);
    }
}

/// A duration tag holds for the next segment: the duration is what the tag writes up to
/// its first comma.
pub proof fn durations_hold_for_the_next(
    lines: Seq<Seq<char>>,
    j: int,
    i: int,
    duration: Seq<char>,
    title: Seq<char>,
)
    requires
        hls::scan_lines(lines).stop is None,
        0 <= j < i < lines.len(),
        tagged(lines[j], "#EXTINF:"@) == Some(duration + seq![','] + title),
        !duration.contains(','),
        none_between(lines, j, i, "#EXTINF:"@),
        forall|n: int| j < n < i ==> !names_segment(#[trigger] lines[n]),
        names_segment(lines[i]),
    ensures
        plain_items(hls::scan_lines(lines.take(i + 1)).items).last().duration == text::trim(duration),
{
    let rest = duration + seq![','] + title;
    reveal_strlit(",");
    text::lemma_first_of(rest, ","@, 0);
    let n = text::first_of(rest, ","@, 0);
    assert(rest[duration.len() as int] == ',');
    assert(","@[0] == ',');
    assert(","@.contains(','));
    if n < duration.len() {
        assert(duration[n] == rest[n]);
        assert(duration.contains(','));
    }
    assert(n == duration.len());
    assert(rest.take(n) =~= duration);
    lemma_next(lines, j);
    lemma_tags(lines[j]);
    lemma_duration_stays(lines, j, i);
    lemma_next(lines, i);
    lemma_tags(lines[i]);
    lemma_one_item(hls::scan_lines(lines.take(i)), lines[i]);
}

// ---------------------------------------------------------------------------
// Resolving
// ---------------------------------------------------------------------------

/// The segments among the items, in order.
pub open spec fn all_segments(items: Seq<MediaItemView>) -> Seq<RawSegmentView>
    decreases items.len(),
{
    if items.len() == 0 {
        Seq::empty()
    } else {
        match items.last() {
            MediaItemView::Segment(s) => all_segments(items.drop_last()).push(s),
            MediaItemView::Key(_) => all_segments(items.drop_last()),
        }
    }
}

/// Whether a segment is what was read of it, with its references resolved.
pub open spec fn is_resolved(base: Seq<char>, raw: RawSegmentView, s: SegmentView) -> bool {
    &&& urls::joined_url(base, raw.uri) == Ok::<Seq<char>, Seq<char>>(s.url)
    &&& s.byte_range == raw.byte_range
    &&& s.duration == raw.duration
    &&& s.iv == raw.iv
    &&& s.is_init_segment == raw.is_init_segment
    &&& raw.key_uri is None ==> s.key_url is None
    &&& raw.key_uri matches Some(k) ==> match urls::joined_url(base, k) {
        Ok(u) => s.key_url == Some(u),
        Err(_) => s.key_url is None,
    }
}

/// A playlist has one segment for each that was read, in order, and nothing that was read
/// of it is lost: its byte range, its duration, its key and its initialisation vector.
pub proof fn playlists_keep_what_was_read(lines: Seq<Seq<char>>, base: Seq<char>, k: int)
    requires
        hls::media_playlist(lines, base) is Ok,
        0 <= k < all_segments(hls::scan_lines(lines).items).len(),
    ensures
        ({
            let raw = all_segments(hls::scan_lines(lines).items);
            let done = hls::media_playlist(lines, base)->Ok_0.media_segments;
            &&& hls::scan_lines(lines).stop is None
            &&& done.len() == raw.len()
            &&& is_resolved(base, raw[k], done[k])
        }),
{
    lemma_resolved_items(base, hls::scan_lines(lines).items);
}

proof fn lemma_resolved_items(base: Seq<char>, items: Seq<MediaItemView>)
    requires
        hls::resolve_items(base, items) is Ok,
    ensures
        ({
            let raw = all_segments(items);
            let done = hls::resolve_items(base, items)->Ok_0;
            &&& done.len() == raw.len()
            &&& forall|k: int| 0 <= k < raw.len() ==> is_resolved(base, #[trigger] raw[k], done[k])
        }),
    decreases items.len(),
{
    if items.len() > 0 {
        lemma_resolved_items(base, items.drop_last());
        let raw = all_segments(items);
        let before = all_segments(items.drop_last());
        let done = hls::resolve_items(base, items)->Ok_0;
        let old_done = hls::resolve_items(base, items.drop_last())->Ok_0;
        assert forall|k: int| 0 <= k < raw.len() implies is_resolved(
            base,
            #[trigger] raw[k],
            done[k],
        ) by {
            if k < before.len() {
                assert(raw[k] == before[k]);
                assert(done[k] == old_done[k]);
            }
        }
    }
}

// ---------------------------------------------------------------------------
// Master playlists
// ---------------------------------------------------------------------------

/// A variant of a master playlist is at the address that its line resolves to: a variant
/// that names an audio group is the picture and its group the sound, one that names a video
/// group the other way round, and any other is both in one.
pub proof fn variants_are_at_their_lines(
    base: Seq<char>,
    renditions: Seq<Map<Seq<char>, Seq<char>>>,
    variants: Seq<(Map<Seq<char>, Seq<char>>, Seq<char>)>,
    i: int,
)
    requires
        hls::resolve_variants(base, renditions, variants) is Ok,
        0 <= i < variants.len(),
    ensures
        ({
            let c = hls::resolve_variants(base, renditions, variants)->Ok_0[i];
            let attrs = variants[i].0;
            let url = urls::joined_url(base, variants[i].1);
            let audio = attrs.dom().contains("AUDIO"@);
            let video = attrs.dom().contains("VIDEO"@);
            &&& url is Ok
            &&& c.attributes == attrs
            &&& audio || !video ==> c.video_playlist == Some(url->Ok_0)
            &&& !audio && video ==> c.audio_playlist == Some(url->Ok_0)
            &&& !audio && !video ==> c.audio_playlist is None
            &&& audio ==> (c.audio_playlist matches Some(u) ==> offers(
                base,
                renditions,
                attrs["AUDIO"@],
                "AUDIO"@,
                u,
            ))
            &&& !audio && video ==> (c.video_playlist matches Some(u) ==> offers(
                base,
                renditions,
                attrs["VIDEO"@],
                "VIDEO"@,
                u,
            ))
        }),
    decreases variants.len(),
{
    let last = variants.last();
    if i < variants.len() - 1 {
        variants_are_at_their_lines(base, renditions, variants.drop_last(), i);
    } else {
        if last.0.dom().contains("AUDIO"@) {
            lemma_group(base, renditions, last.0["AUDIO"@], "AUDIO"@);
        } else if last.0.dom().contains("VIDEO"@) {
            lemma_group(base, renditions, last.0["VIDEO"@], "VIDEO"@);
        }
        hls::containers_follow_the_variants(base, renditions, variants);
    }
    hls::containers_follow_the_variants(base, renditions, variants.drop_last());
}

/// Whether a rendition of a group and a type is at an address.
pub open spec fn offers(
    base: Seq<char>,
    renditions: Seq<Map<Seq<char>, Seq<char>>>,
    group: Seq<char>,
    kind: Seq<char>,
    url: Seq<char>,
) -> bool {
    exists|r: int|
        0 <= r < renditions.len() && is_at(base, #[trigger] renditions[r], group, kind, url)
}

/// Whether a rendition is of a group and a type, and at an address.
pub open spec fn is_at(
    base: Seq<char>,
    m: Map<Seq<char>, Seq<char>>,
    group: Seq<char>,
    kind: Seq<char>,
    url: Seq<char>,
) -> bool {
    &&& m.dom().contains("GROUP-ID"@) && m["GROUP-ID"@] == group
    &&& m.dom().contains("TYPE"@) && m["TYPE"@] == kind
    &&& m.dom().contains("URI"@) && urls::joined_url(base, m["URI"@]) == Ok::<
        Seq<char>,
        Seq<char>,
    >(url)
}

proof fn lemma_group(
    base: Seq<char>,
    renditions: Seq<Map<Seq<char>, Seq<char>>>,
    group: Seq<char>,
    kind: Seq<char>,
)
    ensures
        hls::group_url(base, renditions, group, kind) matches Some(u) ==> offers(
            base,
            renditions,
            group,
            kind,
            u,
        ),
    decreases renditions.len(),
{
    if renditions.len() > 0 {
        match hls::rendition_url(base, renditions[0], group, kind) {
            Some(u) => {
                assert(is_at(base, renditions[0], group, kind, u));
            },
            None => {
                lemma_group(base, renditions.skip(1), group, kind);
                if let Some(u) = hls::group_url(base, renditions.skip(1), group, kind) {
                    let r = choose|r: int|
                        0 <= r < renditions.skip(1).len() && is_at(
                            base,
                            #[trigger] renditions.skip(1)[r],
                            group,
                            kind,
                            u,
                        );
                    assert(is_at(base, renditions[r + 1], group, kind, u));
                }
            },
        }
    }
}

/// A variant that names a group has what the group offers, where it offers anything.
pub proof fn groups_are_found(
    base: Seq<char>,
    renditions: Seq<Map<Seq<char>, Seq<char>>>,
    group: Seq<char>,
    kind: Seq<char>,
    url: Seq<char>,
)
    requires
        offers(base, renditions, group, kind, url),
    ensures
        hls::group_url(base, renditions, group, kind) is Some,
    decreases renditions.len(),
{
    let r = choose|r: int|
        0 <= r < renditions.len() && is_at(base, #[trigger] renditions[r], group, kind, url);
    if r > 0 {
        assert(renditions.skip(1)[r - 1] == renditions[r]);
        assert(offers(base, renditions.skip(1), group, kind, url));
        groups_are_found(base, renditions.skip(1), group, kind, url);
    }
}

/// A stream tag and the next line that names a playlist make a variant, with the
/// attributes of the tag.
pub proof fn streams_are_the_tags_and_their_lines(
    lines: Seq<Seq<char>>,
    j: int,
    i: int,
    attrs: Map<Seq<char>, Seq<char>>,
)
    requires
        0 <= j < i < lines.len(),
        tagged(lines[j], "#EXT-X-STREAM-INF:"@) matches Some(rest) && attributes::attributes(rest)
            == attrs,
        none_between(lines, j, i, "#EXT-X-STREAM-INF:"@),
        forall|n: int| j < n < i ==> !names_segment(#[trigger] lines[n]),
        names_segment(lines[i]),
    ensures
        ({
            let before = hls::master_lines(lines.take(j)).variants;
            hls::master_lines(lines.take(i + 1)).variants == before.push(
                (attrs, text::trim(lines[i])),
            )
        }),
{
    lemma_master_tags(lines[j]);
    lemma_master_tags(lines[i]);
    assert(lines.take(j + 1).drop_last() =~= lines.take(j));
    assert(lines.take(i + 1).drop_last() =~= lines.take(i));
    lemma_stream_stays(lines, j, i);
}

proof fn lemma_stream_stays(lines: Seq<Seq<char>>, j: int, n: int)
    requires
        0 <= j < n <= lines.len(),
        none_between(lines, j, n, "#EXT-X-STREAM-INF:"@),
        forall|i: int| j < i < n ==> !names_segment(#[trigger] lines[i]),
    ensures
        hls::master_lines(lines.take(j + 1)).pending == hls::master_lines(lines.take(n)).pending,
        hls::master_lines(lines.take(j + 1)).variants == hls::master_lines(lines.take(n)).variants,
    decreases n,
{
    if n > j + 1 {
        lemma_stream_stays(lines, j, n - 1);
        assert(lines.take(n).drop_last() =~= lines.take(n - 1));
        lemma_master_tags(lines[n - 1]);
    }
}

proof fn lemma_master_tags(line: Seq<char>)
    ensures
        ({
            let l = text::trim(line);
            let media = text::has_prefix(l, "#EXT-X-MEDIA:"@);
            let stream = text::has_prefix(l, "#EXT-X-STREAM-INF:"@);
            &&& tagged(line, "#EXT-X-STREAM-INF:"@) is Some == stream
            &&& stream ==> tagged(line, "#EXT-X-STREAM-INF:"@) == Some(
                l.skip("#EXT-X-STREAM-INF:"@.len() as int),
            )
            &&& !(media && stream)
            &&& names_segment(line) == hls::is_uri_line(l)
            &&& names_segment(line) ==> !media && !stream
        }),
{
    reveal_strlit("#");
    reveal_strlit("#EXT-X-MEDIA:");
    reveal_strlit("#EXT-X-STREAM-INF:");
    let l = text::trim(line);
    if l.len() > 0 {
        if l[0] == '#' {
            assert(l.take(1) =~= "#"@);
        } else if text::has_prefix(l, "#"@) {
            assert(l.take(1)[0] == l[0]);
        }
    }
    if text::has_prefix(l, "#EXT-X-MEDIA:"@) {
        let p = l.take("#EXT-X-MEDIA:"@.len() as int);
        assert(p[0] == l[0] && p[7] == l[7]);
    }
    if text::has_prefix(l, "#EXT-X-STREAM-INF:"@) {
        let p = l.take("#EXT-X-STREAM-INF:"@.len() as int);
        assert(p[0] == l[0] && p[7] == l[7]);
    }
}

// ---------------------------------------------------------------------------
// Maps and refused keys
// ---------------------------------------------------------------------------

/// A map line adds a segment that comes before others: the one at its address,
/// with the range that it states as a length and an offset, and encrypted like
/// the segments around it.
pub proof fn maps_open_the_segments(
    lines: Seq<Seq<char>>,
    i: int,
    attrs: Map<Seq<char>, Seq<char>>,
    length: Seq<char>,
    offset: Seq<char>,
    l: nat,
    o: nat,
)
    requires
        hls::scan_lines(lines).stop is None,
        0 <= i < lines.len(),
        tagged(lines[i], "#EXT-X-MAP:"@) matches Some(rest) && attributes::attributes(rest) == attrs,
        !length.contains('@'),
        number::parsed_nat(text::trim(length), u64::MAX as nat) == Some(l),
        number::parsed_nat(text::trim(offset), u64::MAX as nat) == Some(o),
    ensures
        ({
            let before = hls::scan_lines(lines.take(i)).items;
            let after = hls::scan_lines(lines.take(i + 1)).items;
            &&& attrs.dom().contains("URI"@)
            &&& after.len() == before.len() + 1
            &&& after.drop_last() == before
            &&& after.last() matches MediaItemView::Segment(s) && s.is_init_segment && s.uri
                == attrs["URI"@] && (!attrs.dom().contains("BYTERANGE"@) ==> s.byte_range is None)
                && (attrs.dom().contains("BYTERANGE"@) && attrs["BYTERANGE"@] == length + "@"@
                + offset ==> s.byte_range == Some((o as u64, l as u64)))
        }),
{
    reveal_strlit("@");
    assert("@"@.len() == 1 && "@"@[0] == '@');
    lemma_next(lines, i);
    lemma_tags(lines[i]);
    let st = hls::scan_lines(lines.take(i));
    let line = text::trim(lines[i]);
    let after = hls::scan_lines(lines.take(i + 1));
    assert(after == hls::map_line(st, line.skip("#EXT-X-MAP:"@.len() as int)));
    assert(after.items.drop_last() =~= st.items);
    let range = length + "@"@ + offset;
    assert(text::free_of(length, "@"@)) by {
        assert forall|k: int| 0 <= k < length.len() implies !"@"@.contains(#[trigger] length[k]) by {
            assert(length.contains(length[k]));
        }
    }
    assert(range =~= length + ("@"@ + offset));
    assert(("@"@ + offset)[0] == '@');
    text::lemma_first_behind(length, "@"@ + offset, "@"@);
    assert(range.take(length.len() as int) =~= length);
    assert(range.skip(length.len() as int + 1) =~= offset);
}

/// A key of another method than AES-128, or in another format than the plain
/// one, ends the reading with an error.
pub proof fn other_keys_are_refused(
    lines: Seq<Seq<char>>,
    base: Seq<char>,
    i: int,
    attrs: Map<Seq<char>, Seq<char>>,
)
    requires
        0 <= i < lines.len(),
        tagged(lines[i], "#EXT-X-KEY:"@) matches Some(rest) && attributes::attributes(rest) == attrs,
        attrs.dom().contains("METHOD"@),
        attrs["METHOD"@] != "NONE"@,
        attrs["METHOD"@] != "AES-128"@ || (attrs.dom().contains("KEYFORMAT"@) && attrs["KEYFORMAT"@]
            != "identity"@),
    ensures
        hls::scan_lines(lines).stop is Some,
        hls::media_playlist(lines, base) is Err,
{
    if hls::scan_lines(lines).stop is None {
        lemma_next(lines, i);
        lemma_tags(lines[i]);
        let st = hls::scan_lines(lines.take(i));
        let line = text::trim(lines[i]);
        assert(hls::scan_lines(lines.take(i + 1)) == hls::key_line(
            st,
            line.skip("#EXT-X-KEY:"@.len() as int),
        ));
    }
}

/// A variant is shown by its resolution, or else by its name, or else by its
/// bandwidth.
pub proof fn variants_are_shown_by_size(attrs: Map<Seq<char>, Seq<char>>)
    ensures
        attrs.dom().contains("RESOLUTION"@) ==> hls::quality_label(attrs) == attrs["RESOLUTION"@],
        !attrs.dom().contains("RESOLUTION"@) && attrs.dom().contains("NAME"@)
            ==> hls::quality_label(attrs) == attrs["NAME"@],
        !attrs.dom().contains("RESOLUTION"@) && !attrs.dom().contains("NAME"@)
            && attrs.dom().contains("BANDWIDTH"@) ==> hls::quality_label(attrs)
            == attrs["BANDWIDTH"@] + " bps"@,
{
}

} // verus!

//! The variants of a stream as options to choose from.

use vstd::prelude::*;

use crate::attributes;
use crate::dash;
use crate::dash::{
    DashErrorView, DashParseError, PeriodPairings, Representation, RepresentationView,
};
use crate::hls;
use crate::hls::{HlsErrorView, HlsParseError, HlsPlaylistContainer, parse_master_playlist};
use crate::number;
use crate::number::{dec_i64, dec_string, dec_u64, parse_u32, parse_u64};
use crate::text;
use crate::text::{
    as_strs, cat2, chars_of, contains, push_chars, push_str, split_at_first, split_lines, str_eq,
    string_of,
};
use crate::xml;

verus! {

/// One variant that can be chosen.
#[derive(Debug)]
pub struct QualityOption {
    pub label: String,
    pub bandwidth: u64,
    pub resolution: Option<(u32, u32)>,
    /// By which the variant is found again when the manifest is read anew.
    pub variant_key: String,
}

#[verifier::ext_equal]
pub struct QualityView {
    pub label: Seq<char>,
    pub bandwidth: u64,
    pub resolution: Option<(u32, u32)>,
    pub variant_key: Seq<char>,
}

impl View for QualityOption {
    type V = QualityView;

    open spec fn view(&self) -> QualityView {
        QualityView {
            label: self.label@,
            bandwidth: self.bandwidth,
            resolution: self.resolution,
            variant_key: self.variant_key@,
        }
    }
}

pub open spec fn option_views(v: Seq<QualityOption>) -> Seq<QualityView> {
    v.map_values(|o: QualityOption| o@)
}

// ---------------------------------------------------------------------------
// HLS
// ---------------------------------------------------------------------------

/// The key of a variant: its bandwidth attribute as it stands; empty where it has
/// none.
pub open spec fn hls_key(attrs: hls::Attrs) -> Seq<char> {
    match attributes::attribute(attrs, "BANDWIDTH"@) {
        Some(b) => b,
        None => Seq::empty(),
    }
}

/// The bandwidth of a variant as a number; 0 where it is none.
pub open spec fn hls_bandwidth(attrs: hls::Attrs) -> u64 {
    match attributes::attribute(attrs, "BANDWIDTH"@) {
        Some(b) => match number::parsed_nat(b, u64::MAX as nat) {
            Some(n) => n as u64,
            None => 0,
        },
        None => 0,
    }
}

/// A resolution written as `<width>x<height>`.
pub open spec fn resolution_of(s: Seq<char>) -> Option<(u32, u32)> {
    match text::split_once(s, "x"@) {
        Some((w, h)) => match (
            number::parsed_nat(w, u32::MAX as nat),
            number::parsed_nat(h, u32::MAX as nat),
        ) {
            (Some(a), Some(b)) => Some((a as u32, b as u32)),
            _ => None,
        },
        None => None,
    }
}

pub open spec fn hls_option(attrs: hls::Attrs) -> QualityView {
    QualityView {
        label: hls::quality_label(attrs),
        bandwidth: hls_bandwidth(attrs),
        resolution: match attributes::attribute(attrs, "RESOLUTION"@) {
            Some(r) => resolution_of(r),
            None => None,
        },
        variant_key: hls_key(attrs),
    }
}

/// The key of a variant.
pub fn hls_variant_key(container: &HlsPlaylistContainer) -> (r: String)
    ensures
        r@ == hls_key(container@.attributes),
{
    match container.attributes.get("BANDWIDTH") {
        Some(b) => b.clone(),
        None => {
            let e = String::new();
            assert(e@ =~= Seq::empty());
            e
        },
    }
}

/// The bandwidth of a variant as a number.
pub fn variant_bandwidth(container: &HlsPlaylistContainer) -> (r: u64)
    ensures
        r == hls_bandwidth(container@.attributes),
{
    match container.attributes.get("BANDWIDTH") {
        Some(b) => {
            let cs = chars_of(b.as_str());
            match parse_u64(cs.as_slice()) {
                Some(n) => n,
                None => 0,
            }
        },
        None => 0,
    }
}

fn parse_resolution(s: &str) -> (r: Option<(u32, u32)>)
    ensures
        r == resolution_of(s@),
{
    let cs = chars_of(s);
    match split_at_first(cs.as_slice(), "x") {
        Some((w, h)) => match (parse_u32(w), parse_u32(h)) {
            (Some(a), Some(b)) => Some((a, b)),
            _ => None,
        },
        None => None,
    }
}

/// The variants of a master playlist as options, in order.
pub fn hls_options(containers: &Vec<HlsPlaylistContainer>) -> (r: Vec<QualityOption>)
    ensures
        option_views(r@) == hls::container_views(containers@).map_values(
            |c: hls::ContainerView| hls_option(c.attributes),
        ),
{
    let ghost want = hls::container_views(containers@).map_values(
        |c: hls::ContainerView| hls_option(c.attributes),
    );
    let mut out: Vec<QualityOption> = Vec::new();
    let mut i: usize = 0;
    assert(option_views(out@) =~= want.take(0));
    while i < containers.len()
        invariant
            i <= containers.len(),
            want == hls::container_views(containers@).map_values(
                |c: hls::ContainerView| hls_option(c.attributes),
            ),
            option_views(out@) == want.take(i as int),
        decreases containers.len() - i,
    {
        let c = &containers[i];
        let resolution = match c.attributes.get("RESOLUTION") {
            Some(r) => parse_resolution(r.as_str()),
            None => None,
        };
        let o = QualityOption {
            label: c.quality(),
            bandwidth: variant_bandwidth(c),
            resolution,
            variant_key: hls_variant_key(c),
        };
        let ghost before = out@;
        let ghost shown = o@;
        out.push(o);
        assert(shown =~= hls_option(c@.attributes));
        assert(want[i as int] == shown);
        assert(option_views(out@) =~= option_views(before).push(shown));
        assert(want.take(i + 1) =~= want.take(i as int).push(shown));
        i += 1;
    }
    assert(want.take(i as int) =~= want);
    out
}

/// The options that the text of a playlist at `url` offers: none where it is not
/// a master playlist.
pub open spec fn hls_qualities_of(playlist: Seq<char>, url: Seq<char>) -> Result<
    Seq<QualityView>,
    HlsErrorView,
> {
    if !text::holds(playlist, "#EXT-X-STREAM-INF"@) {
        Ok(Seq::empty())
    } else {
        match hls::master_playlist(text::lines(playlist), url) {
            Err(e) => Err(e),
            Ok(v) => Ok(v.map_values(|c: hls::ContainerView| hls_option(c.attributes))),
        }
    }
}

/// Lists the variants of the playlist whose text was fetched from `url`.
pub fn hls_qualities(playlist: &str, url: &str) -> (r: Result<Vec<QualityOption>, HlsParseError>)
    ensures
        (match r {
            Ok(v) => Ok::<Seq<QualityView>, HlsErrorView>(option_views(v@)),
            Err(e) => Err(e@),
        }) == hls_qualities_of(playlist@, url@),
{
    let cs = chars_of(playlist);
    if !contains(cs.as_slice(), "#EXT-X-STREAM-INF") {
        let none: Vec<QualityOption> = Vec::new();
        assert(option_views(none@) =~= Seq::empty());
        return Ok(none);
    }
    let lines = split_lines(cs.as_slice());
    let strs = as_strs(&lines);
    assert(hls::line_texts(strs@) =~= text::texts(lines@));
    match parse_master_playlist(strs.as_slice(), url) {
        Err(e) => Err(e),
        Ok(v) => Ok(hls_options(&v)),
    }
}

// ---------------------------------------------------------------------------
// DASH
// ---------------------------------------------------------------------------

pub open spec fn track_bandwidth(r: Option<RepresentationView>) -> i64 {
    match r {
        Some(x) => x.bandwidth,
        None => 0,
    }
}

/// The bandwidth of a pairing: that of its tracks together, wrapping at 64 bits.
pub open spec fn pair_bandwidth(p: dash::PairView) -> i64 {
    track_bandwidth(p.0).wrapping_add(track_bandwidth(p.1))
}

/// The width and height of a pairing's video, where both are known.
pub open spec fn pair_resolution(p: dash::PairView) -> Option<(u32, u32)> {
    match p.0 {
        Some(v) if v.width > 0 && v.height > 0 => Some((v.width as u32, v.height as u32)),
        _ => None,
    }
}

/// `<width>x<height>`.
pub open spec fn size_text(w: nat, h: nat) -> Seq<char> {
    number::dec(w) + "x"@ + number::dec(h)
}

/// The key of a pairing: resolution and bandwidth, or the bandwidth alone where
/// there is no resolution.
pub open spec fn dash_key(p: dash::PairView) -> Seq<char> {
    let b = number::dec_int(pair_bandwidth(p) as int);
    match pair_resolution(p) {
        Some((w, h)) => size_text(w as nat, h as nat) + "-"@ + b,
        None => b,
    }
}

pub open spec fn dash_option(p: dash::PairView) -> QualityView {
    let b = pair_bandwidth(p);
    let shown: u64 = if b > 0 {
        b as u64
    } else {
        0
    };
    QualityView {
        label: match pair_resolution(p) {
            Some((w, h)) => size_text(w as nat, h as nat),
            None => number::dec(shown as nat) + " bps"@,
        },
        bandwidth: shown,
        resolution: pair_resolution(p),
        variant_key: dash_key(p),
    }
}

pub open spec fn ref_view(r: Option<&Representation>) -> Option<RepresentationView> {
    match r {
        Some(x) => Some(x@),
        None => None,
    }
}

fn bandwidth_of_pair(video: Option<&Representation>, audio: Option<&Representation>) -> (r: i64)
    ensures
        r == pair_bandwidth((ref_view(video), ref_view(audio))),
{
    let v: i64 = match video {
        Some(x) => x.bandwidth,
        None => 0,
    };
    let a: i64 = match audio {
        Some(x) => x.bandwidth,
        None => 0,
    };
    v.wrapping_add(a)
}

fn resolution_of_pair(video: Option<&Representation>) -> (r: Option<(u32, u32)>)
    ensures
        forall|a: Option<RepresentationView>| r == #[trigger] pair_resolution((ref_view(video), a)),
{
    match video {
        Some(v) => if v.width > 0 && v.height > 0 {
            Some((v.width as u32, v.height as u32))
        } else {
            None
        },
        None => None,
    }
}

fn write_size(w: u32, h: u32) -> (r: Vec<char>)
    ensures
        r@ == size_text(w as nat, h as nat),
{
    let mut out = dec_u64(w as u64);
    push_str(&mut out, "x");
    let hs = dec_u64(h as u64);
    push_chars(&mut out, hs.as_slice());
    out
}

/// The key of a pairing.
pub fn dash_variant_key(video: Option<&Representation>, audio: Option<&Representation>) -> (r: String)
    ensures
        r@ == dash_key((ref_view(video), ref_view(audio))),
{
    let b = dec_i64(bandwidth_of_pair(video, audio));
    match resolution_of_pair(video) {
        Some((w, h)) => {
            let mut out = write_size(w, h);
            push_str(&mut out, "-");
            push_chars(&mut out, b.as_slice());
            string_of(out.as_slice())
        },
        None => string_of(b.as_slice()),
    }
}

/// One pairing as an option.
pub fn dash_quality(video: Option<&Representation>, audio: Option<&Representation>) -> (r:
    QualityOption)
    ensures
        r@ == dash_option((ref_view(video), ref_view(audio))),
{
    let b: i64 = bandwidth_of_pair(video, audio);
    let bandwidth: u64 = if b > 0 {
        b as u64
    } else {
        0
    };
    let resolution = resolution_of_pair(video);
    let label = match resolution {
        Some((w, h)) => {
            let size = write_size(w, h);
            string_of(size.as_slice())
        },
        None => cat2(dec_string(bandwidth).as_str(), " bps"),
    };
    QualityOption { label, bandwidth, resolution, variant_key: dash_variant_key(video, audio) }
}

/// The options of the pairings of a period, in order.
pub open spec fn period_options(pairs: Seq<dash::PairView>) -> Seq<QualityView> {
    pairs.map_values(|p: dash::PairView| dash_option(p))
}

/// The options of all periods, one after the other.
pub open spec fn all_options(periods: Seq<Seq<dash::PairView>>) -> Seq<QualityView>
    decreases periods.len(),
{
    if periods.len() == 0 {
        Seq::empty()
    } else {
        all_options(periods.drop_last()) + period_options(periods.last())
    }
}

fn push_period(out: &mut Vec<QualityOption>, pairs: &PeriodPairings)
    ensures
        option_views(final(out)@) == option_views(old(out)@) + period_options(
            dash::pair_views(pairs@),
        ),
{
    let ghost want = period_options(dash::pair_views(pairs@));
    let mut i: usize = 0;
    assert(option_views(out@) + want.take(0) =~= option_views(out@));
    while i < pairs.len()
        invariant
            i <= pairs.len(),
            want == period_options(dash::pair_views(pairs@)),
            option_views(out@) == option_views(old(out)@) + want.take(i as int),
        decreases pairs.len() - i,
    {
        let o = dash_quality(pairs[i].0.as_ref(), pairs[i].1.as_ref());
        let ghost before = out@;
        let ghost shown = o@;
        assert(dash::pair_views(pairs@)[i as int] == dash::pair_view(pairs@[i as int]));
        assert(want[i as int] == shown);
        out.push(o);
        assert(option_views(out@) =~= option_views(before).push(shown));
        assert(want.take(i + 1) =~= want.take(i as int).push(shown));
        i += 1;
        assert(option_views(out@) =~= option_views(old(out)@) + want.take(i as int));
    }
    assert(want.take(i as int) =~= want);
}

/// The pairings of a manifest as options.
pub fn dash_options(periods: &Vec<PeriodPairings>) -> (r: Vec<QualityOption>)
    ensures
        option_views(r@) == all_options(dash::period_views(periods@)),
{
    let ghost all = dash::period_views(periods@);
    let mut out: Vec<QualityOption> = Vec::new();
    let mut i: usize = 0;
    assert(all.take(0) =~= Seq::empty());
    assert(option_views(out@) =~= Seq::empty());
    while i < periods.len()
        invariant
            i <= periods.len(),
            all == dash::period_views(periods@),
            option_views(out@) == all_options(all.take(i as int)),
        decreases periods.len() - i,
    {
        proof {
            assert(all.take(i + 1).drop_last() =~= all.take(i as int));
            assert(all.take(i + 1).last() == dash::pair_views(periods@[i as int]@));
        }
        push_period(&mut out, &periods[i]);
        i += 1;
    }
    assert(all.take(i as int) =~= all);
    out
}

/// Lists the pairings of the manifest whose text was fetched from `url`.
pub fn dash_qualities(manifest: &str, url: &str) -> (r: Result<Vec<QualityOption>, DashParseError>)
    requires
        xml::nesting(manifest@) <= xml::MAX_DEPTH,
    ensures
        (match r {
            Ok(v) => Ok::<Seq<QualityView>, DashErrorView>(option_views(v@)),
            Err(e) => Err(e@),
        }) == (match dash::manifest(manifest@, url@) {
            Ok(periods) => Ok(all_options(periods)),
            Err(e) => Err(e),
        }),
{
    match dash::parse(manifest, url) {
        Ok(periods) => Ok(dash_options(&periods)),
        Err(e) => Err(e),
    }
}

// ---------------------------------------------------------------------------
// Choosing
// ---------------------------------------------------------------------------

/// The first variant at or after `from` with the given key; the number of
/// variants where there is none.
pub open spec fn keyed_from(keys: Seq<Seq<char>>, key: Seq<char>, from: int) -> int
    decreases keys.len() - from,
{
    if from < 0 || from >= keys.len() {
        keys.len() as int
    } else if keys[from] == key {
        from
    } else {
        keyed_from(keys, key, from + 1)
    }
}

/// The last of the largest among the first `n` numbers; -1 for none.
pub open spec fn last_largest(v: Seq<int>, n: int) -> int
    decreases n,
{
    if n <= 0 || n > v.len() {
        -1
    } else {
        let before = last_largest(v, n - 1);
        if before < 0 || v[n - 1] >= v[before] {
            n - 1
        } else {
            before
        }
    }
}

/// The variant for a wish: the first with the wished key where there is one, else
/// the one with the largest bandwidth, the last of equals.
pub open spec fn chosen(keys: Seq<Seq<char>>, bandwidths: Seq<int>, wish: Option<Seq<char>>) -> Option<
    int,
> {
    let keyed = match wish {
        Some(k) => keyed_from(keys, k, 0),
        None => keys.len() as int,
    };
    if keyed < keys.len() {
        Some(keyed)
    } else if keys.len() > 0 {
        Some(last_largest(bandwidths, bandwidths.len() as int))
    } else {
        None
    }
}

pub open spec fn hls_keys(v: Seq<HlsPlaylistContainer>) -> Seq<Seq<char>> {
    v.map_values(|c: HlsPlaylistContainer| hls_key(c@.attributes))
}

pub open spec fn hls_bandwidths(v: Seq<HlsPlaylistContainer>) -> Seq<int> {
    v.map_values(|c: HlsPlaylistContainer| hls_bandwidth(c@.attributes) as int)
}

/// Chooses a variant of a master playlist.
pub fn choose_hls(containers: &Vec<HlsPlaylistContainer>, quality: Option<&str>) -> (r: Option<
    usize,
>)
    ensures
        match r {
            Some(i) => i < containers@.len() && chosen(
                hls_keys(containers@),
                hls_bandwidths(containers@),
                text::opt_str(quality),
            ) == Some(i as int),
            None => containers@.len() == 0,
        },
{
    let ghost keys = hls_keys(containers@);
    let ghost bws = hls_bandwidths(containers@);
    if let Some(q) = quality {
        let mut i: usize = 0;
        while i < containers.len()
            invariant
                i <= containers.len(),
                keys == hls_keys(containers@),
                quality == Some(q),
                keyed_from(keys, q@, 0) == keyed_from(keys, q@, i as int),
            decreases containers.len() - i,
        {
            assert(keys[i as int] == hls_key(containers@[i as int]@.attributes));
            if str_eq(hls_variant_key(&containers[i]).as_str(), q) {
                return Some(i);
            }
            i += 1;
        }
    }
    if containers.len() == 0 {
        return None;
    }
    let mut best: usize = 0;
    let mut best_bw: u64 = variant_bandwidth(&containers[0]);
    let mut i: usize = 1;
    assert(bws[0] == hls_bandwidth(containers@[0]@.attributes) as int);
    assert(last_largest(bws, 0) == -1);
    assert(last_largest(bws, 1) == 0);
    while i < containers.len()
        invariant
            1 <= i <= containers.len(),
            best < i,
            bws == hls_bandwidths(containers@),
            best == last_largest(bws, i as int),
            best_bw == bws[best as int],
        decreases containers.len() - i,
    {
        assert(bws[i as int] == hls_bandwidth(containers@[i as int]@.attributes) as int);
        let bw: u64 = variant_bandwidth(&containers[i]);
        if bw >= best_bw {
            best = i;
            best_bw = bw;
        }
        i += 1;
    }
    Some(best)
}

/// The pairings of all periods in one list.
pub open spec fn flat_pairs(periods: Seq<Seq<dash::PairView>>) -> Seq<dash::PairView>
    decreases periods.len(),
{
    if periods.len() == 0 {
        Seq::empty()
    } else {
        flat_pairs(periods.drop_last()) + periods.last()
    }
}

pub open spec fn dash_keys(pairs: Seq<dash::PairView>) -> Seq<Seq<char>> {
    pairs.map_values(|p: dash::PairView| dash_key(p))
}

pub open spec fn dash_bandwidths(pairs: Seq<dash::PairView>) -> Seq<int> {
    pairs.map_values(|p: dash::PairView| pair_bandwidth(p) as int)
}

/// Chooses a pairing from a list of them.
pub fn choose_dash(pairs: &PeriodPairings, quality: Option<&str>) -> (r: Option<usize>)
    ensures
        match r {
            Some(i) => i < pairs@.len() && chosen(
                dash_keys(dash::pair_views(pairs@)),
                dash_bandwidths(dash::pair_views(pairs@)),
                text::opt_str(quality),
            ) == Some(i as int),
            None => pairs@.len() == 0,
        },
{
    let ghost all = dash::pair_views(pairs@);
    let ghost keys = dash_keys(all);
    let ghost bws = dash_bandwidths(all);
    if let Some(q) = quality {
        let mut i: usize = 0;
        while i < pairs.len()
            invariant
                i <= pairs.len(),
                all == dash::pair_views(pairs@),
                keys == dash_keys(all),
                quality == Some(q),
                keyed_from(keys, q@, 0) == keyed_from(keys, q@, i as int),
            decreases pairs.len() - i,
        {
            assert(all[i as int] == dash::pair_view(pairs@[i as int]));
            assert(keys[i as int] == dash_key(all[i as int]));
            let key = dash_variant_key(pairs[i].0.as_ref(), pairs[i].1.as_ref());
            if str_eq(key.as_str(), q) {
                return Some(i);
            }
            i += 1;
        }
    }
    if pairs.len() == 0 {
        return None;
    }
    let mut best: usize = 0;
    assert(all[0] == dash::pair_view(pairs@[0]));
    let mut best_bw: i64 = bandwidth_of_pair(pairs[0].0.as_ref(), pairs[0].1.as_ref());
    let mut i: usize = 1;
    assert(bws[0] == pair_bandwidth(all[0]) as int);
    assert(last_largest(bws, 0) == -1);
    assert(last_largest(bws, 1) == 0);
    while i < pairs.len()
        invariant
            1 <= i <= pairs.len(),
            best < i,
            all == dash::pair_views(pairs@),
            bws == dash_bandwidths(all),
            best == last_largest(bws, i as int),
            best_bw == bws[best as int],
        decreases pairs.len() - i,
    {
        assert(all[i as int] == dash::pair_view(pairs@[i as int]));
        assert(bws[i as int] == pair_bandwidth(all[i as int]) as int);
        let bw: i64 = bandwidth_of_pair(pairs[i].0.as_ref(), pairs[i].1.as_ref());
        if bw >= best_bw {
            best = i;
            best_bw = bw;
        }
        i += 1;
    }
    Some(best)
}

/// Puts the pairings of all periods in one list.
pub fn flatten_periods(periods: Vec<PeriodPairings>) -> (r: PeriodPairings)
    ensures
        dash::pair_views(r@) == flat_pairs(dash::period_views(periods@)),
{
    let ghost all = dash::period_views(periods@);
    let mut periods = periods;
    let mut out: PeriodPairings = Vec::new();
    let ghost n = periods@.len();
    let mut left: usize = periods.len();
    assert(flat_pairs(all) + dash::pair_views(out@) =~= flat_pairs(all));
    assert(all.take(all.len() as int) =~= all);
    while left > 0
        invariant
            left == periods@.len(),
            left <= all.len(),
            dash::period_views(periods@) == all.take(left as int),
            flat_pairs(all) == flat_pairs(all.take(left as int)) + dash::pair_views(out@),
        decreases left,
    {
        let ghost before = periods@;
        let ghost tail = dash::pair_views(out@);
        match periods.pop() {
            Some(p) => {
                let mut head = p;
                proof {
                    assert(all.take(left as int).drop_last() =~= all.take(left - 1));
                    assert(all.take(left as int).last() == dash::pair_views(before.last()@));
                    assert(dash::period_views(periods@) =~= all.take(left - 1));
                }
                let ghost hv = head@;
                let ghost ov = out@;
                head.append(&mut out);
                out = head;
                assert(dash::pair_views(out@) =~= dash::pair_views(hv) + dash::pair_views(ov));
                assert(flat_pairs(all.take(left - 1)) + (dash::pair_views(hv) + tail) =~= (
                flat_pairs(all.take(left - 1)) + dash::pair_views(hv)) + tail);
            },
            None => {},
        }
        left -= 1;
    }
    assert(all.take(0) =~= Seq::empty());
    assert(dash::pair_views(out@) =~= flat_pairs(all));
    out
}

proof fn lemma_keyed(keys: Seq<Seq<char>>, key: Seq<char>, from: int)
    requires
        0 <= from <= keys.len(),
    ensures
        from <= keyed_from(keys, key, from) <= keys.len(),
        keyed_from(keys, key, from) < keys.len() ==> keys[keyed_from(keys, key, from)] == key,
        keyed_from(keys, key, from) == keys.len() ==> forall|j: int|
            from <= j < keys.len() ==> #[trigger] keys[j] != key,
    decreases keys.len() - from,
{
    if from < keys.len() && keys[from] != key {
        lemma_keyed(keys, key, from + 1);
    }
}

/// Wishing for the key of a listed variant gives a variant with that very key, so
/// what was chosen from a list is found again when the manifest is read anew.
pub proof fn wished_keys_are_found(keys: Seq<Seq<char>>, bandwidths: Seq<int>, i: int)
    requires
        0 <= i < keys.len(),
    ensures
        chosen(keys, bandwidths, Some(keys[i])) matches Some(j) && 0 <= j < keys.len() && keys[j]
            == keys[i],
{
    lemma_keyed(keys, keys[i], 0);
}

/// Without a wish, or with one that no variant meets, nothing has more bandwidth
/// than what is chosen.
pub proof fn the_largest_is_the_default(
    keys: Seq<Seq<char>>,
    bandwidths: Seq<int>,
    wish: Option<Seq<char>>,
    i: int,
)
    requires
        keys.len() == bandwidths.len(),
        0 <= i < keys.len(),
        wish matches Some(k) ==> !keys.contains(k),
    ensures
        chosen(keys, bandwidths, wish) matches Some(j) && 0 <= j < keys.len() && bandwidths[i]
            <= bandwidths[j],
{
    if let Some(k) = wish {
        lemma_keyed(keys, k, 0);
        let f = keyed_from(keys, k, 0);
        if f < keys.len() {
            assert(keys.contains(keys[f]));
        }
    }
    lemma_largest(bandwidths, bandwidths.len() as int);
}

proof fn lemma_largest(v: Seq<int>, n: int)
    requires
        0 <= n <= v.len(),
    ensures
        n > 0 ==> 0 <= last_largest(v, n) < n,
        forall|i: int| 0 <= i < n ==> #[trigger] v[i] <= v[last_largest(v, n)],
    decreases n,
{
    if n > 0 {
        lemma_largest(v, n - 1);
        assert(last_largest(v, 0) == -1);
    }
}

} // verus!

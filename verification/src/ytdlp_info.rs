//! What the description of a video by yt-dlp offers: formats to choose from, a
//! thumbnail, and names.

use vstd::prelude::*;

use crate::backend::EntryMeta;
use crate::decimal;
use crate::decimal::{parse_decimal, parse_scaled_u64};
use crate::json;
use crate::json::{Json, JsonView};
use crate::number;
use crate::number::dec_string;
use crate::quality;
use crate::quality::{QualityOption, QualityView};
use crate::text;
use crate::text::{cat2, cat3, chars_of, digit, str_eq};

verus! {

// ---------------------------------------------------------------------------
// Formats
// ---------------------------------------------------------------------------

/// The identifier of a format; empty where it has none.
pub open spec fn id_of(f: JsonView) -> Seq<char> {
    match f.text_at("format_id"@) {
        Some(s) => s,
        None => Seq::empty(),
    }
}

/// Whether a format names a codec.
pub open spec fn has_codec(f: JsonView, key: Seq<char>) -> bool {
    match f.text_at(key) {
        Some(c) => c != "none"@,
        None => false,
    }
}

/// Whether a format holds video.
pub open spec fn with_video(f: JsonView) -> bool {
    has_codec(f, "vcodec"@)
}

/// Whether a format holds audio.
pub open spec fn with_audio(f: JsonView) -> bool {
    has_codec(f, "acodec"@)
}

/// Whether a format has an address.
pub open spec fn with_url(f: JsonView) -> bool {
    f.text_at("url"@) is Some
}

/// The number of a member, as it is written.
pub open spec fn number_at(f: JsonView, key: Seq<char>) -> Option<Seq<char>> {
    match f.get(key) {
        Some(JsonView::Number(s)) => Some(s),
        _ => None,
    }
}

/// The bandwidth of a format: its bit rate, given in thousands, rounded down, or
/// else its size.
pub open spec fn bandwidth(f: JsonView) -> nat {
    match number_at(f, "tbr"@) {
        Some(s) => match decimal::scaled_nat_text(s, 1000, 0) {
            Some(n) => n,
            None => 0,
        },
        None => {
            let size = match f.get("filesize"@) {
                Some(v) => Some(v),
                None => f.get("filesize_approx"@),
            };
            match size {
                Some(v) => match v.as_nat() {
                    Some(n) => n,
                    None => 0,
                },
                None => 0,
            }
        },
    }
}

/// A member as a number of 32 bits, higher bits cut off.
pub open spec fn size_at(f: JsonView, key: Seq<char>) -> Option<u32> {
    match f.get(key) {
        Some(v) => match v.as_nat() {
            Some(n) => Some((n % 0x1_0000_0000) as u32),
            None => None,
        },
        None => None,
    }
}

/// The width and height of a format, where both are known and not 0.
pub open spec fn resolution(f: JsonView) -> Option<(u32, u32)> {
    match (size_at(f, "width"@), size_at(f, "height"@)) {
        (Some(w), Some(h)) => if w > 0 && h > 0 {
            Some((w, h))
        } else {
            None
        },
        _ => None,
    }
}

/// Whether a text holds a digit.
pub open spec fn has_digit(s: Seq<char>) -> bool {
    exists|i: int| 0 <= i < s.len() && text::is_digit(#[trigger] s[i])
}

/// The note of a format; empty where it has none.
pub open spec fn note_of(f: JsonView) -> Seq<char> {
    match f.text_at("format_note"@) {
        Some(s) => s,
        None => Seq::empty(),
    }
}

/// The name of a format for people: its note, behind its height where the note has
/// no number; else its height, or else its bandwidth.
pub open spec fn label_of(f: JsonView) -> Seq<char> {
    let note = note_of(f);
    match resolution(f) {
        Some((w, h)) => if note.len() > 0 && !has_digit(note) {
            number::dec(h as nat) + "p ("@ + note + ")"@
        } else if note.len() > 0 {
            note
        } else {
            number::dec(h as nat) + "p"@
        },
        None => if note.len() > 0 {
            note
        } else {
            number::dec(bandwidth(f) / 1000) + " kbps"@
        },
    }
}

/// A format as an option with the given key.
pub open spec fn option_of(f: JsonView, key: Seq<char>) -> QualityView {
    QualityView {
        label: label_of(f),
        bandwidth: bandwidth(f) as u64,
        resolution: resolution(f),
        variant_key: key,
    }
}

fn format_id(f: &Json) -> (r: String)
    ensures
        r@ == id_of(f@),
{
    match f.str_at("format_id") {
        Some(s) => s.clone(),
        None => {
            let r = String::new();
            assert(r@ =~= Seq::empty());
            r
        },
    }
}

fn codec(f: &Json, key: &str) -> (r: bool)
    ensures
        r == has_codec(f@, key@),
{
    match f.str_at(key) {
        Some(c) => !str_eq(c.as_str(), "none"),
        None => false,
    }
}

fn has_video(f: &Json) -> (r: bool)
    ensures
        r == with_video(f@),
{
    codec(f, "vcodec")
}

fn has_audio(f: &Json) -> (r: bool)
    ensures
        r == with_audio(f@),
{
    codec(f, "acodec")
}

/// Tells the bandwidth of a format.
pub fn bandwidth_of(f: &Json) -> (r: u64)
    ensures
        r == bandwidth(f@),
{
    match f.get("tbr") {
        Some(v) => match v {
            Json::Number(s) => {
                return match parse_scaled_u64(chars_of(s.as_str()).as_slice(), 1000, 0) {
                    Some(n) => n,
                    None => 0,
                };
            },
            _ => {},
        },
        None => {},
    }
    let first = f.get("filesize");
    let size = if first.is_some() {
        first
    } else {
        f.get("filesize_approx")
    };
    match size {
        Some(v) => match v.as_u64() {
            Some(n) => n,
            None => 0,
        },
        None => 0,
    }
}

fn size(f: &Json, key: &str) -> (r: Option<u32>)
    ensures
        r == size_at(f@, key@),
{
    match f.get(key) {
        Some(v) => match v.as_u64() {
            Some(n) => {
                let low: u64 = n % 0x1_0000_0000;
                Some(low as u32)
            },
            None => None,
        },
        None => None,
    }
}

/// Tells the width and height of a format.
pub fn resolution_of(f: &Json) -> (r: Option<(u32, u32)>)
    ensures
        r == resolution(f@),
{
    match (size(f, "width"), size(f, "height")) {
        (Some(w), Some(h)) => if w > 0 && h > 0 {
            Some((w, h))
        } else {
            None
        },
        _ => None,
    }
}

fn any_digit(s: &[char]) -> (r: bool)
    ensures
        r == has_digit(s@),
{
    let mut i: usize = 0;
    while i < s.len()
        invariant
            i <= s.len(),
            forall|j: int| 0 <= j < i ==> !text::is_digit(#[trigger] s@[j]),
        decreases s.len() - i,
    {
        if digit(s[i]) {
            return true;
        }
        i += 1;
    }
    false
}

/// Makes a format an option.
pub fn quality_option(f: &Json, key: String) -> (r: QualityOption)
    ensures
        r@ == option_of(f@, key@),
{
    let note = match f.str_at("format_note") {
        Some(s) => s.clone(),
        None => {
            let r = String::new();
            assert(r@ =~= Seq::empty());
            r
        },
    };
    let ns = chars_of(note.as_str());
    let res = resolution_of(f);
    let bw = bandwidth_of(f);
    let label = match res {
        Some((_, h)) => if ns.len() > 0 && !any_digit(ns.as_slice()) {
            let head = cat2(dec_string(h as u64).as_str(), "p (");
            cat3(head.as_str(), note.as_str(), ")")
        } else if ns.len() > 0 {
            note
        } else {
            cat2(dec_string(h as u64).as_str(), "p")
        },
        None => if ns.len() > 0 {
            note
        } else {
            cat2(dec_string(bw / 1000).as_str(), " kbps")
        },
    };
    QualityOption { label, bandwidth: bw, resolution: res, variant_key: key }
}

// ---------------------------------------------------------------------------
// The options of a video
// ---------------------------------------------------------------------------

/// The formats that hold video and audio in one, as options.
pub open spec fn whole_options(s: Seq<JsonView>) -> Seq<QualityView>
    decreases s.len(),
{
    if s.len() == 0 {
        Seq::empty()
    } else {
        let rest = whole_options(s.drop_last());
        let f = s.last();
        if with_video(f) && with_audio(f) && with_url(f) {
            rest.push(option_of(f, id_of(f)))
        } else {
            rest
        }
    }
}

/// The position of the best format with audio only, the last one of several; -1
/// where there is none.
pub open spec fn best_audio(s: Seq<JsonView>) -> int
    decreases s.len(),
{
    if s.len() == 0 {
        -1
    } else {
        let k = best_audio(s.drop_last());
        let f = s.last();
        if with_audio(f) && !with_video(f) && (k < 0 || bandwidth(f) >= bandwidth(s[k])) {
            s.len() - 1
        } else {
            k
        }
    }
}

/// A format with its height.
#[verifier::ext_equal]
pub struct Tall {
    pub height: u64,
    pub format: JsonView,
}

/// The first position, from `i` on, whose height is not below the given one.
pub open spec fn place_from(s: Seq<Tall>, h: u64, i: int) -> int
    decreases s.len() - i,
{
    if i < 0 || i >= s.len() || s[i].height >= h {
        i
    } else {
        place_from(s, h, i + 1)
    }
}

/// With one more format: the better one stays where the height is there already.
pub open spec fn with_tall(s: Seq<Tall>, t: Tall) -> Seq<Tall> {
    let k = place_from(s, t.height, 0);
    if k < s.len() && s[k].height == t.height {
        if bandwidth(t.format) > bandwidth(s[k].format) {
            s.update(k, t)
        } else {
            s
        }
    } else {
        s.insert(k, t)
    }
}

/// Whether a format holds video only and can be fetched.
pub open spec fn is_video_only(f: JsonView) -> bool {
    with_video(f) && !with_audio(f) && with_url(f)
}

/// The height that a format is filed under.
pub open spec fn height_of(f: JsonView) -> u64 {
    match resolution(f) {
        Some((w, h)) => h as u64,
        None => 0,
    }
}

/// The best format with video only of each height, lowest first.
pub open spec fn tallest(s: Seq<JsonView>) -> Seq<Tall>
    decreases s.len(),
{
    if s.len() == 0 {
        Seq::empty()
    } else {
        let rest = tallest(s.drop_last());
        let f = s.last();
        if is_video_only(f) {
            with_tall(rest, Tall { height: height_of(f), format: f })
        } else {
            rest
        }
    }
}

/// The key of a format with video only: with that of the audio that goes with it.
pub open spec fn joined_key(video: Seq<char>, audio: Seq<char>) -> Seq<char> {
    if audio.len() == 0 {
        video
    } else {
        video + "+"@ + audio
    }
}

/// The formats with video only as options, highest first.
pub open spec fn tall_options(s: Seq<Tall>, audio: Seq<char>) -> Seq<QualityView>
    decreases s.len(),
{
    if s.len() == 0 {
        Seq::empty()
    } else {
        seq![option_of(s.last().format, joined_key(id_of(s.last().format), audio))] + tall_options(
            s.drop_last(),
            audio,
        )
    }
}

/// The bit rate of an audio format in its name.
pub open spec fn rate_text(f: JsonView) -> Seq<char> {
    match number_at(f, "abr"@) {
        Some(s) => match decimal::parsed_decimal(s) {
            Some(v) => decimal::rounded_text(v) + "k "@,
            None => Seq::empty(),
        },
        None => Seq::empty(),
    }
}

/// A format with audio only as an option.
pub open spec fn audio_option(f: JsonView) -> QualityView {
    let codec = match f.text_at("acodec"@) {
        Some(c) => c,
        None => "audio"@,
    };
    QualityView {
        label: "Audio only ("@ + rate_text(f) + codec + ")"@,
        bandwidth: bandwidth(f) as u64,
        resolution: None,
        variant_key: id_of(f),
    }
}

/// Options without those whose key is that of the one in front.
pub open spec fn unrepeated(s: Seq<QualityView>) -> Seq<QualityView>
    decreases s.len(),
{
    if s.len() == 0 {
        s
    } else {
        let rest = unrepeated(s.drop_last());
        if rest.len() > 0 && rest.last().variant_key == s.last().variant_key {
            rest
        } else {
            rest.push(s.last())
        }
    }
}

/// All options that the formats of a video offer.
pub open spec fn options_of(s: Seq<JsonView>) -> Seq<QualityView> {
    let k = best_audio(s);
    let audio = if k >= 0 {
        id_of(s[k])
    } else {
        Seq::empty()
    };
    let last = if k >= 0 {
        seq![audio_option(s[k])]
    } else {
        Seq::empty()
    };
    unrepeated(whole_options(s) + tall_options(tallest(s), audio) + last)
}

/// The formats that a description lists.
pub open spec fn formats_in(info: JsonView) -> Seq<JsonView> {
    match info.get("formats"@) {
        Some(v) => match v.as_list() {
            Some(s) => s,
            None => Seq::empty(),
        },
        None => Seq::empty(),
    }
}

/// A list of formats with their heights, as positions in the list of formats.
pub open spec fn talls(v: Seq<(u64, usize)>, all: Seq<JsonView>) -> Seq<Tall> {
    v.map_values(|p: (u64, usize)| Tall { height: p.0, format: all[p.1 as int] })
}

proof fn lemma_best_audio(s: Seq<JsonView>)
    ensures
        -1 <= best_audio(s) < s.len(),
    decreases s.len(),
{
    if s.len() > 0 {
        lemma_best_audio(s.drop_last());
    }
}

proof fn lemma_place(s: Seq<Tall>, h: u64, i: int)
    requires
        0 <= i <= s.len(),
    ensures
        i <= place_from(s, h, i) <= s.len(),
    decreases s.len() - i,
{
    if i < s.len() && s[i].height < h {
        lemma_place(s, h, i + 1);
    }
}

fn best_audio_only(v: &Vec<Json>) -> (r: Option<usize>)
    ensures
        match r {
            Some(k) => k < v@.len() && best_audio(json::list_view(v@)) == k,
            None => best_audio(json::list_view(v@)) == -1,
        },
{
    let ghost all = json::list_view(v@);
    proof {
        json::lemma_list_view(v@);
    }
    let mut best: Option<usize> = None;
    let mut i: usize = 0;
    assert(all.take(0) =~= Seq::empty());
    while i < v.len()
        invariant
            i <= v.len(),
            all.len() == v@.len(),
            forall|k: int| 0 <= k < v@.len() ==> #[trigger] all[k] == v@[k]@,
            match best {
                Some(k) => k < i && best_audio(all.take(i as int)) == k,
                None => best_audio(all.take(i as int)) == -1,
            },
        decreases v.len() - i,
    {
        proof {
            let next = all.take(i + 1);
            assert(next.drop_last() =~= all.take(i as int));
            assert(next.last() == v@[i as int]@);
            lemma_best_audio(all.take(i as int));
        }
        if has_audio(&v[i]) && !has_video(&v[i]) {
            let better = match best {
                Some(k) => {
                    assert(all.take(i + 1)[k as int] == v@[k as int]@);
                    bandwidth_of(&v[i]) >= bandwidth_of(&v[k])
                },
                None => true,
            };
            if better {
                best = Some(i);
            }
        }
        i += 1;
    }
    assert(all.take(v@.len() as int) =~= all);
    best
}

fn by_height(v: &Vec<Json>) -> (r: Vec<(u64, usize)>)
    ensures
        talls(r@, json::list_view(v@)) == tallest(json::list_view(v@)),
        forall|k: int| 0 <= k < r@.len() ==> (#[trigger] r@[k]).1 < v@.len(),
{
    let ghost all = json::list_view(v@);
    proof {
        json::lemma_list_view(v@);
    }
    let mut out: Vec<(u64, usize)> = Vec::new();
    let mut i: usize = 0;
    assert(all.take(0) =~= Seq::empty());
    assert(talls(out@, all) =~= Seq::empty());
    while i < v.len()
        invariant
            i <= v.len(),
            all.len() == v@.len(),
            forall|k: int| 0 <= k < v@.len() ==> #[trigger] all[k] == v@[k]@,
            talls(out@, all) == tallest(all.take(i as int)),
            forall|k: int| 0 <= k < out@.len() ==> (#[trigger] out@[k]).1 < v@.len(),
        decreases v.len() - i,
    {
        proof {
            let next = all.take(i + 1);
            assert(next.drop_last() =~= all.take(i as int));
            assert(next.last() == v@[i as int]@);
        }
        if has_video(&v[i]) && !has_audio(&v[i]) && v[i].str_at("url").is_some() {
            let h: u64 = match resolution_of(&v[i]) {
                Some((_, h)) => h as u64,
                None => 0,
            };
            let ghost filed = talls(out@, all);
            let ghost one = Tall { height: h, format: all[i as int] };
            let mut k: usize = 0;
            while k < out.len() && out[k].0 < h
                invariant
                    k <= out.len(),
                    filed == talls(out@, all),
                    place_from(filed, h, 0) == place_from(filed, h, k as int),
                decreases out.len() - k,
            {
                assert(filed[k as int].height == out@[k as int].0);
                k += 1;
            }
            let ghost listed = out@;
            if k < out.len() && out[k].0 == h {
                assert(filed[k as int] == (Tall {
                    height: listed[k as int].0,
                    format: all[listed[k as int].1 as int],
                }));
                if bandwidth_of(&v[i]) > bandwidth_of(&v[out[k].1]) {
                    out.set(k, (h, i));
                    assert(talls(out@, all) =~= filed.update(k as int, one));
                }
            } else {
                proof {
                    if k < listed.len() {
                        assert(filed[k as int].height == listed[k as int].0);
                    }
                }
                out.insert(k, (h, i));
                assert(talls(out@, all) =~= filed.insert(k as int, one));
            }
            assert(talls(out@, all) == with_tall(filed, one));
        }
        i += 1;
    }
    assert(all.take(v@.len() as int) =~= all);
    out
}

fn push_option(out: &mut Vec<QualityOption>, o: QualityOption)
    ensures
        quality::option_views(final(out)@) == quality::option_views(old(out)@).push(o@),
{
    let ghost before = quality::option_views(out@);
    let ghost shown = o@;
    out.push(o);
    assert(quality::option_views(out@) =~= before.push(shown));
}

fn rate(f: &Json) -> (r: String)
    ensures
        r@ == rate_text(f@),
{
    match f.get("abr") {
        Some(v) => match v {
            Json::Number(s) => {
                proof {
                    decimal::lemma_parsed_valid(s@);
                }
                match parse_decimal(chars_of(s.as_str()).as_slice()) {
                    Some(d) => {
                        return cat2(d.rounded_string().as_str(), "k ");
                    },
                    None => {},
                }
            },
            _ => {},
        },
        None => {},
    }
    let r = String::new();
    assert(r@ =~= Seq::empty());
    r
}

fn audio_quality(f: &Json) -> (r: QualityOption)
    ensures
        r@ == audio_option(f@),
{
    let codec = match f.str_at("acodec") {
        Some(c) => c.clone(),
        None => "audio".to_string(),
    };
    let head = cat3("Audio only (", rate(f).as_str(), codec.as_str());
    QualityOption {
        label: cat2(head.as_str(), ")"),
        bandwidth: bandwidth_of(f),
        resolution: None,
        variant_key: format_id(f),
    }
}

fn whole_formats(v: &Vec<Json>) -> (r: Vec<QualityOption>)
    ensures
        quality::option_views(r@) == whole_options(json::list_view(v@)),
{
    let ghost all = json::list_view(v@);
    proof {
        json::lemma_list_view(v@);
    }
    let mut out: Vec<QualityOption> = Vec::new();
    let mut i: usize = 0;
    assert(all.take(0) =~= Seq::empty());
    assert(quality::option_views(out@) =~= Seq::empty());
    while i < v.len()
        invariant
            i <= v.len(),
            all.len() == v@.len(),
            forall|k: int| 0 <= k < v@.len() ==> #[trigger] all[k] == v@[k]@,
            quality::option_views(out@) == whole_options(all.take(i as int)),
        decreases v.len() - i,
    {
        proof {
            let next = all.take(i + 1);
            assert(next.drop_last() =~= all.take(i as int));
            assert(next.last() == v@[i as int]@);
        }
        if has_video(&v[i]) && has_audio(&v[i]) && v[i].str_at("url").is_some() {
            push_option(&mut out, quality_option(&v[i], format_id(&v[i])));
        }
        i += 1;
    }
    assert(all.take(v@.len() as int) =~= all);
    out
}

fn drop_repeated(v: Vec<QualityOption>) -> (r: Vec<QualityOption>)
    ensures
        quality::option_views(r@) == unrepeated(quality::option_views(v@)),
{
    let ghost all = quality::option_views(v@);
    let mut out: Vec<QualityOption> = Vec::new();
    let mut i: usize = 0;
    assert(all.take(0) =~= Seq::empty());
    assert(quality::option_views(out@) =~= Seq::empty());
    while i < v.len()
        invariant
            i <= v.len(),
            all == quality::option_views(v@),
            quality::option_views(out@) == unrepeated(all.take(i as int)),
        decreases v.len() - i,
    {
        let ghost rest = quality::option_views(out@);
        proof {
            let next = all.take(i + 1);
            assert(next.drop_last() =~= all.take(i as int));
            assert(next.last() == v@[i as int]@);
        }
        let again = out.len() > 0 && str_eq(
            out[out.len() - 1].variant_key.as_str(),
            v[i].variant_key.as_str(),
        );
        proof {
            if out@.len() > 0 {
                assert(rest.last() == out@.last()@);
            }
        }
        if !again {
            let o = QualityOption {
                label: v[i].label.clone(),
                bandwidth: v[i].bandwidth,
                resolution: v[i].resolution,
                variant_key: v[i].variant_key.clone(),
            };
            push_option(&mut out, o);
        }
        i += 1;
    }
    assert(all.take(v@.len() as int) =~= all);
    out
}

/// Lists the options that the formats of a video offer.
pub fn format_options(v: &Vec<Json>) -> (r: Vec<QualityOption>)
    ensures
        quality::option_views(r@) == options_of(json::list_view(v@)),
{
    let ghost all = json::list_view(v@);
    proof {
        json::lemma_list_view(v@);
        lemma_best_audio(all);
    }
    let mut out = whole_formats(v);
    let best = best_audio_only(v);
    let audio = match best {
        Some(k) => format_id(&v[k]),
        None => {
            let r = String::new();
            assert(r@ =~= Seq::empty());
            r
        },
    };
    let audio_empty = chars_of(audio.as_str()).len() == 0;
    let talls_by = by_height(v);
    let ghost filed = talls(talls_by@, all);
    let ghost wholes = quality::option_views(out@);
    let mut i: usize = talls_by.len();
    assert(filed.take(filed.len() as int) =~= filed);
    assert(wholes + tall_options(filed, audio@) =~= quality::option_views(out@) + tall_options(
        filed.take(i as int),
        audio@,
    ));
    while i > 0
        invariant
            i <= talls_by.len(),
            filed == talls(talls_by@, all),
            all.len() == v@.len(),
            forall|k: int| 0 <= k < v@.len() ==> #[trigger] all[k] == v@[k]@,
            forall|k: int| 0 <= k < talls_by@.len() ==> (#[trigger] talls_by@[k]).1 < v@.len(),
            audio_empty == (audio@.len() == 0),
            wholes + tall_options(filed, audio@) == quality::option_views(out@) + tall_options(
                filed.take(i as int),
                audio@,
            ),
        decreases i,
    {
        i -= 1;
        let f = &v[talls_by[i].1];
        let key = if audio_empty {
            format_id(f)
        } else {
            cat3(format_id(f).as_str(), "+", audio.as_str())
        };
        let ghost before = quality::option_views(out@);
        let o = quality_option(f, key);
        let ghost shown = o@;
        push_option(&mut out, o);
        proof {
            let upto = filed.take(i + 1);
            assert(upto.drop_last() =~= filed.take(i as int));
            assert(upto.last() == filed[i as int]);
            assert(filed[i as int].format == all[talls_by@[i as int].1 as int]);
            assert(before + (seq![shown] + tall_options(filed.take(i as int), audio@))
                =~= quality::option_views(out@) + tall_options(filed.take(i as int), audio@));
        }
    }
    assert(tall_options(filed.take(0), audio@) =~= Seq::empty());
    assert(quality::option_views(out@) =~= wholes + tall_options(filed, audio@));
    let ghost most = quality::option_views(out@);
    match best {
        Some(k) => {
            push_option(&mut out, audio_quality(&v[k]));
            assert(quality::option_views(out@) =~= most + seq![audio_option(all[k as int])]);
        },
        None => {
            assert(most + Seq::<QualityView>::empty() =~= most);
        },
    }
    drop_repeated(out)
}

/// Lists the options that the description of a video offers.
pub fn probe_qualities(info: &Json) -> (r: Vec<QualityOption>)
    ensures
        quality::option_views(r@) == options_of(formats_in(info@)),
{
    let formats = match info.get("formats") {
        Some(v) => v.as_array(),
        None => None,
    };
    match formats {
        Some(v) => format_options(v),
        None => {
            let none: Vec<Json> = Vec::new();
            assert(json::list_view(none@) =~= Seq::empty());
            format_options(&none)
        },
    }
}

// ---------------------------------------------------------------------------
// Thumbnails and names
// ---------------------------------------------------------------------------

/// The area of a thumbnail: its width, 0 where unknown, times its height, 1 where
/// unknown.
pub open spec fn area_of(t: JsonView) -> nat {
    let w = match t.get("width"@) {
        Some(v) => match v.as_nat() {
            Some(n) => n,
            None => 0,
        },
        None => 0,
    };
    let h = match t.get("height"@) {
        Some(v) => match v.as_nat() {
            Some(n) => n,
            None => 1,
        },
        None => 1,
    };
    w * h
}

/// The largest thumbnail of a list, the last one of several: its area and address.
pub open spec fn largest(s: Seq<JsonView>) -> Option<(nat, Seq<char>)>
    decreases s.len(),
{
    if s.len() == 0 {
        None
    } else {
        let rest = largest(s.drop_last());
        match s.last().text_at("url"@) {
            Some(u) => match rest {
                Some((area, _)) => if area_of(s.last()) >= area {
                    Some((area_of(s.last()), u))
                } else {
                    rest
                },
                None => Some((area_of(s.last()), u)),
            },
            None => rest,
        }
    }
}

/// The thumbnail of a video.
pub open spec fn thumbnail_in(info: JsonView) -> Option<Seq<char>> {
    match info.text_at("thumbnail"@) {
        Some(t) => Some(t),
        None => match info.get("thumbnails"@) {
            Some(v) => match v.as_list() {
                Some(s) => match largest(s) {
                    Some((_, u)) => Some(u),
                    None => None,
                },
                None => None,
            },
            None => None,
        },
    }
}

fn area(t: &Json) -> (r: u128)
    ensures
        r == area_of(t@),
{
    let w: u64 = match t.get("width") {
        Some(v) => match v.as_u64() {
            Some(n) => n,
            None => 0,
        },
        None => 0,
    };
    let h: u64 = match t.get("height") {
        Some(v) => match v.as_u64() {
            Some(n) => n,
            None => 1,
        },
        None => 1,
    };
    assert(w as int * h as int <= 0xffff_ffff_ffff_ffff * 0xffff_ffff_ffff_ffff)
        by (nonlinear_arith)
        requires
            w <= 0xffff_ffff_ffff_ffffu64,
            h <= 0xffff_ffff_ffff_ffffu64,
    ;
    w as u128 * h as u128
}

/// Finds the thumbnail of a video.
pub fn thumbnail(info: &Json) -> (r: Option<String>)
    ensures
        text::opt(r) == thumbnail_in(info@),
{
    match info.str_at("thumbnail") {
        Some(t) => {
            return Some(t.clone());
        },
        None => {},
    }
    let list = match info.get("thumbnails") {
        Some(v) => v.as_array(),
        None => None,
    };
    let v = match list {
        Some(v) => v,
        None => {
            return None;
        },
    };
    let ghost all = json::list_view(v@);
    proof {
        json::lemma_list_view(v@);
    }
    let mut best: Option<(u128, String)> = None;
    let mut i: usize = 0;
    assert(all.take(0) =~= Seq::empty());
    while i < v.len()
        invariant
            i <= v.len(),
            all.len() == v@.len(),
            forall|k: int| 0 <= k < v@.len() ==> #[trigger] all[k] == v@[k]@,
            largest(all.take(i as int)) == (match best {
                Some(b) => Some((b.0 as nat, b.1@)),
                None => None,
            }),
        decreases v.len() - i,
    {
        proof {
            let next = all.take(i + 1);
            assert(next.drop_last() =~= all.take(i as int));
            assert(next.last() == v@[i as int]@);
        }
        match v[i].str_at("url") {
            Some(u) => {
                let a = area(&v[i]);
                let better = match &best {
                    Some(b) => a >= b.0,
                    None => true,
                };
                if better {
                    best = Some((a, u.clone()));
                }
            },
            None => {},
        }
        i += 1;
    }
    assert(all.take(v@.len() as int) =~= all);
    match best {
        Some(b) => Some(b.1),
        None => None,
    }
}

/// The text of a member where it is not empty.
pub open spec fn full_text(info: JsonView, key: Seq<char>) -> Option<Seq<char>> {
    match info.text_at(key) {
        Some(s) => if s.len() > 0 {
            Some(s)
        } else {
            None
        },
        None => None,
    }
}

/// Who a video is by: the channel, or else the uploader, or else its identifier.
pub open spec fn author_in(info: JsonView) -> Option<Seq<char>> {
    if full_text(info, "channel"@) is Some {
        full_text(info, "channel"@)
    } else if full_text(info, "uploader"@) is Some {
        full_text(info, "uploader"@)
    } else {
        full_text(info, "uploader_id"@)
    }
}

fn full(info: &Json, key: &str) -> (r: Option<String>)
    ensures
        text::opt(r) == full_text(info@, key@),
{
    match info.str_at(key) {
        Some(s) => if chars_of(s.as_str()).len() > 0 {
            Some(s.clone())
        } else {
            None
        },
        None => None,
    }
}

/// What the description of a video tells for grouping; nothing without one.
pub fn meta_of(info: Option<&Json>) -> (r: EntryMeta)
    ensures
        match info {
            Some(j) => {
                &&& text::opt(r.author) == author_in(j@)
                &&& text::opt(r.title) == full_text(j@, "title"@)
                &&& r.media_class is None
                &&& r.out_dir is None
            },
            None => r.nothing(),
        },
{
    match info {
        Some(j) => {
            let channel = full(j, "channel");
            let uploader = if channel.is_some() {
                channel
            } else {
                full(j, "uploader")
            };
            let author = if uploader.is_some() {
                uploader
            } else {
                full(j, "uploader_id")
            };
            EntryMeta { author, title: full(j, "title"), media_class: None, out_dir: None }
        },
        None => EntryMeta::default(),
    }
}

} // verus!

//! DASH manifests.
//!
//! The manifest's nodes are read into representations. What a representation
//! refers to is first listed as plain references ([`representation_plan`]) and
//! then resolved against the base URLs that surround it.

use vstd::prelude::*;

use crate::number;
use crate::number::{parse_i32, parse_i64};
use crate::template;
use crate::template::expand_template;
use crate::text;
use crate::text::{
    chars_of, copy_opt, copy_strings, is, starts_with, str_eq, string_of, to_unicode_lower, trimmed,
};
use crate::urls;
use crate::urls::{join_url, parse_url};
use crate::xml;
use crate::xml::{
    XmlNode, XmlNodeView, any_element, find_child, find_children, find_top, get_attribute,
    parse_xml,
};
use crate::xs_duration;
use crate::xs_duration::parse_xs_duration;

verus! {

// ---------------------------------------------------------------------------
// Model
// ---------------------------------------------------------------------------

/// One track of one quality: its segments in order, an initialisation segment
/// first where there is one.
#[derive(Debug)]
pub struct Representation {
    pub segments: Vec<String>,
    /// -1 where the manifest does not say.
    pub width: i32,
    pub height: i32,
    pub codec: Option<String>,
    pub bandwidth: i64,
    /// The duration of the period, in milliseconds.
    pub duration_ms: i64,
    pub mime_type: String,
    pub language: Option<String>,
}

/// The video and audio representations of a period that go together.
pub type PeriodPairings = Vec<(Option<Representation>, Option<Representation>)>;

/// Why a manifest was refused.
#[derive(Debug)]
pub enum DashParseError {
    Xml(String),
    MissingMpdRoot(String),
    DynamicManifestUnsupported,
    EncryptedManifestUnsupported,
    NoPeriods,
    MissingPeriodTiming,
    InvalidUrl(String),
    InvalidDuration(String),
    InvalidNumber { tag: &'static str, attr: &'static str, value: String },
    /// A segment duration of zero in a period that has a length.
    EndlessSegments,
}

pub enum DashErrorView {
    Xml(Seq<char>),
    MissingMpdRoot(Seq<char>),
    DynamicManifestUnsupported,
    EncryptedManifestUnsupported,
    NoPeriods,
    MissingPeriodTiming,
    InvalidUrl(Seq<char>),
    InvalidDuration(Seq<char>),
    InvalidNumber { tag: Seq<char>, attr: Seq<char>, value: Seq<char> },
    EndlessSegments,
}

impl View for DashParseError {
    type V = DashErrorView;

    open spec fn view(&self) -> DashErrorView {
        match self {
            DashParseError::Xml(e) => DashErrorView::Xml(e@),
            DashParseError::MissingMpdRoot(n) => DashErrorView::MissingMpdRoot(n@),
            DashParseError::DynamicManifestUnsupported => DashErrorView::DynamicManifestUnsupported,
            DashParseError::EncryptedManifestUnsupported => DashErrorView::EncryptedManifestUnsupported,
            DashParseError::NoPeriods => DashErrorView::NoPeriods,
            DashParseError::MissingPeriodTiming => DashErrorView::MissingPeriodTiming,
            DashParseError::InvalidUrl(e) => DashErrorView::InvalidUrl(e@),
            DashParseError::InvalidDuration(v) => DashErrorView::InvalidDuration(v@),
            DashParseError::InvalidNumber { tag, attr, value } => DashErrorView::InvalidNumber {
                tag: tag@,
                attr: attr@,
                value: value@,
            },
            DashParseError::EndlessSegments => DashErrorView::EndlessSegments,
        }
    }
}

/// The model of a representation.
#[verifier::ext_equal]
pub struct RepresentationView {
    pub segments: Seq<Seq<char>>,
    pub width: i32,
    pub height: i32,
    pub codec: Option<Seq<char>>,
    pub bandwidth: i64,
    pub duration_ms: i64,
    pub mime_type: Seq<char>,
    pub language: Option<Seq<char>>,
}

impl View for Representation {
    type V = RepresentationView;

    open spec fn view(&self) -> RepresentationView {
        RepresentationView {
            segments: text::texts(self.segments@),
            width: self.width,
            height: self.height,
            codec: text::opt(self.codec),
            bandwidth: self.bandwidth,
            duration_ms: self.duration_ms,
            mime_type: self.mime_type@,
            language: text::opt(self.language),
        }
    }
}

pub open spec fn representation_views(v: Seq<Representation>) -> Seq<RepresentationView> {
    v.map_values(|r: Representation| r@)
}

impl Representation {
    /// A copy of the representation.
    pub fn copy(&self) -> (r: Self)
        ensures
            r@ == self@,
    {
        let r = Representation {
            segments: copy_strings(&self.segments),
            width: self.width,
            height: self.height,
            codec: copy_opt(&self.codec),
            bandwidth: self.bandwidth,
            duration_ms: self.duration_ms,
            mime_type: self.mime_type.clone(),
            language: copy_opt(&self.language),
        };
        r
    }
}

// ---------------------------------------------------------------------------
// Attributes
// ---------------------------------------------------------------------------

/// An attribute of a node, or else of the node around it.
pub open spec fn inherited(
    nodes: Seq<XmlNodeView>,
    i: int,
    around: int,
    name: Seq<char>,
) -> Option<Seq<char>> {
    match xml::attribute(nodes, i, name) {
        Some(v) => Some(v),
        None => xml::attribute(nodes, around, name),
    }
}

/// A whole number of a representation, -1 where it is missing.
pub open spec fn number_of(
    v: Option<Seq<char>>,
    min: int,
    max: int,
    tag: Seq<char>,
    attr: Seq<char>,
) -> Result<int, DashErrorView> {
    match v {
        None => Ok(-1),
        Some(s) => match number::parsed_int(s, min, max) {
            Some(n) => Ok(n),
            None => Err(DashErrorView::InvalidNumber { tag, attr, value: s }),
        },
    }
}

/// A whole number that a template gives, `other` where it is missing or is none.
pub open spec fn number_or(v: Option<Seq<char>>, other: int) -> int {
    match v {
        None => other,
        Some(s) => match number::parsed_int(s, i64::MIN as int, i64::MAX as int) {
            Some(n) => n,
            None => other,
        },
    }
}

/// The text of an optional borrowed string.
pub open spec fn opt_ref(o: Option<&String>) -> Option<Seq<char>> {
    match o {
        Some(s) => Some(s@),
        None => None,
    }
}

fn get_inherited<'a>(nodes: &'a Vec<XmlNode>, i: usize, around: usize, name: &str) -> (r: Option<
    &'a String,
>)
    requires
        i < nodes.len(),
        around < nodes.len(),
    ensures
        opt_ref(r) == inherited(xml::node_views(nodes@), i as int, around as int, name@),
{
    match get_attribute(nodes, i, name) {
        Some(v) => Some(v),
        None => get_attribute(nodes, around, name),
    }
}

/// Reads a 32-bit number of an element.
pub fn parse_i32_attr(v: Option<&String>, tag: &'static str, attr: &'static str) -> (r: Result<
    i32,
    DashParseError,
>)
    ensures
        match r {
            Ok(n) => number_of(opt_ref(v), i32::MIN as int, i32::MAX as int, tag@, attr@) == Ok::<
                int,
                DashErrorView,
            >(n as int),
            Err(e) => number_of(opt_ref(v), i32::MIN as int, i32::MAX as int, tag@, attr@) == Err::<
                int,
                DashErrorView,
            >(e@),
        },
{
    match v {
        None => Ok(-1),
        Some(s) => {
            let cs = chars_of(s.as_str());
            match parse_i32(cs.as_slice()) {
                Some(n) => Ok(n),
                None => Err(DashParseError::InvalidNumber { tag, attr, value: s.clone() }),
            }
        },
    }
}

/// Reads a 64-bit number of an element.
pub fn parse_i64_attr(v: Option<&String>, tag: &'static str, attr: &'static str) -> (r: Result<
    i64,
    DashParseError,
>)
    ensures
        match r {
            Ok(n) => number_of(opt_ref(v), i64::MIN as int, i64::MAX as int, tag@, attr@) == Ok::<
                int,
                DashErrorView,
            >(n as int),
            Err(e) => number_of(opt_ref(v), i64::MIN as int, i64::MAX as int, tag@, attr@) == Err::<
                int,
                DashErrorView,
            >(e@),
        },
{
    match v {
        None => Ok(-1),
        Some(s) => {
            let cs = chars_of(s.as_str());
            match parse_i64(cs.as_slice()) {
                Some(n) => Ok(n),
                None => Err(DashParseError::InvalidNumber { tag, attr, value: s.clone() }),
            }
        },
    }
}

fn parse_or(v: Option<&String>, other: i64) -> (r: i64)
    ensures
        r == number_or(opt_ref(v), other as int),
{
    match v {
        None => other,
        Some(s) => {
            let cs = chars_of(s.as_str());
            match parse_i64(cs.as_slice()) {
                Some(n) => n,
                None => other,
            }
        },
    }
}

// ---------------------------------------------------------------------------
// Plans: the references of a representation
// ---------------------------------------------------------------------------

/// The references of a representation in the order in which they are resolved,
/// whether they make up its segments, and the error that comes after them.
#[derive(Debug)]
pub struct Refs {
    pub list: Vec<String>,
    pub complete: bool,
    pub stop: Option<DashParseError>,
}

#[verifier::ext_equal]
pub struct RefsView {
    pub list: Seq<Seq<char>>,
    pub complete: bool,
    pub stop: Option<DashErrorView>,
}

impl View for Refs {
    type V = RefsView;

    open spec fn view(&self) -> RefsView {
        RefsView {
            list: text::texts(self.list@),
            complete: self.complete,
            stop: match self.stop {
                Some(e) => Some(e@),
                None => None,
            },
        }
    }
}

/// What the tokens of a template stand for besides the number and the time.
#[verifier::ext_equal]
pub struct TokenValues {
    pub bandwidth: Seq<char>,
    pub id: Seq<char>,
}

/// `count` references of a template in a row: the number goes up by one and the
/// time by `step`, wrapping at 64 bits.
pub open spec fn run_of_refs(
    media: Seq<char>,
    number: i64,
    time: i64,
    step: i64,
    v: TokenValues,
    count: nat,
) -> Seq<Seq<char>>
    decreases count,
{
    if count == 0 {
        Seq::empty()
    } else {
        seq![template::expanded(media, number as int, time as int, v.bandwidth, v.id)]
            + run_of_refs(
            media,
            number.wrapping_add(1),
            time.wrapping_add(step),
            step,
            v,
            (count - 1) as nat,
        )
    }
}

/// How many segments of `duration / timescale` seconds it takes to cover `period`
/// milliseconds. None where no number of them does.
pub open spec fn segment_count(period: int, duration: int, timescale: int) -> Option<nat> {
    let covered = period * timescale;
    if timescale == 0 || covered == 0 {
        Some(0)
    } else if duration == 0 {
        if covered > 0 {
            None
        } else {
            Some(0)
        }
    } else if (covered > 0) != (duration > 0) {
        Some(0)
    } else {
        let n = if covered > 0 {
            covered
        } else {
            -covered
        };
        let d = 1000 * (if duration > 0 {
            duration
        } else {
            -duration
        });
        Some(((n + d - 1) / d) as nat)
    }
}

/// The largest number of segments that is counted.
pub open spec fn counted(n: nat) -> nat {
    if n > i64::MAX {
        i64::MAX as nat
    } else {
        n
    }
}

/// The reference of the initialisation segment, where the template names one.
pub open spec fn init_refs(
    nodes: Seq<XmlNodeView>,
    t: int,
    number: int,
    time: int,
    v: TokenValues,
) -> Seq<Seq<char>> {
    match xml::attribute(nodes, t, "initialization"@) {
        Some(init) => seq![template::expanded(init, number, time, v.bandwidth, v.id)],
        None => Seq::empty(),
    }
}

/// The references of a template whose segments all have one duration.
pub open spec fn simple_refs(nodes: Seq<XmlNodeView>, t: int, period: int, v: TokenValues) -> RefsView {
    let timescale = number_or(xml::attribute(nodes, t, "timescale"@), 1);
    let duration = number_or(xml::attribute(nodes, t, "duration"@), 1);
    let start = number_or(xml::attribute(nodes, t, "startNumber"@), 1);
    let init = init_refs(nodes, t, start, start, v);
    match xml::attribute(nodes, t, "media"@) {
        None => RefsView { list: init, complete: false, stop: None },
        Some(media) => match segment_count(period, duration, timescale) {
            None => RefsView {
                list: init,
                complete: false,
                stop: Some(DashErrorView::EndlessSegments),
            },
            Some(n) => RefsView {
                list: init + run_of_refs(
                    media,
                    start as i64,
                    start as i64,
                    duration as i64,
                    v,
                    counted(n),
                ),
                complete: true,
                stop: None,
            },
        },
    }
}

/// How many segments an entry of a timeline stands for.
pub open spec fn entry_count(nodes: Seq<XmlNodeView>, s: int) -> nat {
    let r = number_or(xml::attribute(nodes, s, "r"@), -1);
    if r > 0 {
        (r + 1) as nat
    } else {
        1
    }
}

/// The time at which an entry of a timeline begins.
pub open spec fn entry_time(nodes: Seq<XmlNodeView>, s: int, time: i64) -> i64 {
    let t = number_or(xml::attribute(nodes, s, "t"@), -1);
    if t > 0 {
        t as i64
    } else {
        time
    }
}

/// The references of the timeline's entries from position `from` on, each entry
/// beginning where the one before it ended unless it says otherwise.
pub open spec fn timeline_refs(
    nodes: Seq<XmlNodeView>,
    entries: Seq<int>,
    from: int,
    media: Seq<char>,
    number: i64,
    time: i64,
    v: TokenValues,
) -> (Seq<Seq<char>>, Option<DashErrorView>)
    decreases entries.len() - from,
{
    if from < 0 || from >= entries.len() {
        (Seq::empty(), None)
    } else {
        let s = entries[from];
        match xml::attribute(nodes, s, "d"@) {
            None => (
                Seq::empty(),
                Some(
                    DashErrorView::InvalidNumber { tag: "S"@, attr: "d"@, value: "missing"@ },
                ),
            ),
            Some(text) => match number::parsed_int(text, i64::MIN as int, i64::MAX as int) {
                None => (
                    Seq::empty(),
                    Some(DashErrorView::InvalidNumber { tag: "S"@, attr: "d"@, value: text }),
                ),
                Some(d) => {
                    let begin = entry_time(nodes, s, time);
                    let count = entry_count(nodes, s);
                    let (rest, stop) = timeline_refs(
                        nodes,
                        entries,
                        from + 1,
                        media,
                        after_number(number, count),
                        after_time(begin, d as i64, count),
                        v,
                    );
                    (run_of_refs(media, number, begin, d as i64, v, count) + rest, stop)
                },
            },
        }
    }
}

/// The number after `count` segments.
pub open spec fn after_number(number: i64, count: nat) -> i64
    decreases count,
{
    if count == 0 {
        number
    } else {
        after_number(number.wrapping_add(1), (count - 1) as nat)
    }
}

/// The time after `count` segments of duration `d`.
pub open spec fn after_time(time: i64, d: i64, count: nat) -> i64
    decreases count,
{
    if count == 0 {
        time
    } else {
        after_time(time.wrapping_add(d), d, (count - 1) as nat)
    }
}

/// The references of a template with a timeline.
pub open spec fn explicit_refs(
    nodes: Seq<XmlNodeView>,
    t: int,
    timeline: int,
    v: TokenValues,
) -> RefsView {
    let entries = xml::children(nodes, timeline, "S"@);
    let start = number_or(xml::attribute(nodes, t, "startNumber"@), 1);
    let init = init_refs(nodes, t, start, 0, v);
    if entries.len() == 0 {
        RefsView { list: Seq::empty(), complete: false, stop: None }
    } else {
        match xml::attribute(nodes, t, "media"@) {
            None => RefsView { list: init, complete: false, stop: None },
            Some(media) => {
                let (refs, stop) = timeline_refs(nodes, entries, 0, media, start as i64, 0, v);
                RefsView { list: init + refs, complete: true, stop }
            },
        }
    }
}

/// The references of the `SegmentURL` elements among `entries`, in order.
pub open spec fn media_refs(nodes: Seq<XmlNodeView>, entries: Seq<int>) -> Seq<Seq<char>>
    decreases entries.len(),
{
    if entries.len() == 0 {
        Seq::empty()
    } else {
        let rest = media_refs(nodes, entries.drop_last());
        match xml::attribute(nodes, entries.last(), "media"@) {
            Some(m) => rest.push(m),
            None => rest,
        }
    }
}

/// The references of a `SegmentList`.
pub open spec fn list_refs(nodes: Seq<XmlNodeView>, list: int) -> RefsView {
    let init_node = match xml::child(nodes, list, "Initialization"@) {
        Some(c) => Some(c),
        None => xml::child(nodes, list, "RepresentationIndex"@),
    };
    let init: Seq<Seq<char>> = match init_node {
        Some(c) => match xml::attribute(nodes, c, "sourceURL"@) {
            Some(u) => seq![u],
            None => Seq::empty(),
        },
        None => Seq::empty(),
    };
    RefsView {
        list: init + media_refs(nodes, xml::children(nodes, list, "SegmentURL"@)),
        complete: true,
        stop: None,
    }
}

proof fn lemma_texts_push(v: Seq<String>, s: String)
    ensures
        text::texts(v.push(s)) == text::texts(v).push(s@),
{
    assert(text::texts(v.push(s)) =~= text::texts(v).push(s@));
}

/// Appends `count` references of a template, and gives the number and time after
/// them.
fn push_run(
    out: &mut Vec<String>,
    media: &str,
    number: i64,
    time: i64,
    step: i64,
    bandwidth: &str,
    id: &str,
    count: u64,
) -> (r: (i64, i64))
    ensures
        text::texts(final(out)@) == text::texts(old(out)@) + run_of_refs(
            media@,
            number,
            time,
            step,
            TokenValues { bandwidth: bandwidth@, id: id@ },
            count as nat,
        ),
        r.0 == after_number(number, count as nat),
        r.1 == after_time(time, step, count as nat),
{
    let ghost v = TokenValues { bandwidth: bandwidth@, id: id@ };
    let ghost whole = text::texts(out@) + run_of_refs(media@, number, time, step, v, count as nat);
    let mut left: u64 = count;
    let mut n: i64 = number;
    let mut t: i64 = time;
    while left > 0
        invariant
            v == (TokenValues { bandwidth: bandwidth@, id: id@ }),
            text::texts(out@) + run_of_refs(media@, n, t, step, v, left as nat) == whole,
            after_number(number, count as nat) == after_number(n, left as nat),
            after_time(time, step, count as nat) == after_time(t, step, left as nat),
        decreases left,
    {
        let ghost before = out@;
        let ghost shown = run_of_refs(media@, n, t, step, v, left as nat);
        let s = expand_template(media, n, t, bandwidth, id);
        proof {
            lemma_texts_push(before, s);
        }
        let ghost first = s@;
        out.push(s);
        n = n.wrapping_add(1);
        t = t.wrapping_add(step);
        left -= 1;
        assert(text::texts(out@) + run_of_refs(media@, n, t, step, v, left as nat)
            =~= text::texts(before) + shown);
    }
    assert(text::texts(out@) =~= whole);
    (n, t)
}

/// Counts the segments that cover a period.
pub fn count_segments(period: i64, duration: i64, timescale: i64) -> (r: Option<u64>)
    ensures
        match r {
            Some(n) => segment_count(period as int, duration as int, timescale as int) matches Some(
                m,
            ) && n == counted(m),
            None => segment_count(period as int, duration as int, timescale as int) is None,
        },
        r matches Some(n) ==> n <= i64::MAX,
{
    let p: i128 = period as i128;
    let s: i128 = timescale as i128;
    proof {
        assert(-0x4000_0000_0000_0000_0000_0000_0000_0000 <= p * s
            <= 0x4000_0000_0000_0000_0000_0000_0000_0000) by (nonlinear_arith)
            requires
                -0x8000_0000_0000_0000 <= p <= 0x7fff_ffff_ffff_ffff,
                -0x8000_0000_0000_0000 <= s <= 0x7fff_ffff_ffff_ffff,
        ;
        assert(s == 0 ==> p * s == 0) by (nonlinear_arith);
    }
    let covered: i128 = p * s;
    if timescale == 0 || covered == 0 {
        return Some(0);
    }
    if duration == 0 {
        return if covered > 0 {
            None
        } else {
            Some(0)
        };
    }
    if (covered > 0) != (duration > 0) {
        return Some(0);
    }
    let n: u128 = if covered > 0 {
        covered as u128
    } else {
        (-covered) as u128
    };
    let d: u128 = 1000 * (if duration > 0 {
        duration as u128
    } else {
        (-(duration as i128)) as u128
    });
    let count: u128 = (n + d - 1) / d;
    Some(
        if count > i64::MAX as u128 {
            i64::MAX as u64
        } else {
            count as u64
        },
    )
}

/// The references of a template whose segments all have one duration.
pub fn parse_simple_addressing(
    nodes: &Vec<XmlNode>,
    t: usize,
    period: i64,
    id: &str,
    bandwidth: &str,
) -> (r: Refs)
    requires
        t < nodes.len(),
    ensures
        r@ == simple_refs(
            xml::node_views(nodes@),
            t as int,
            period as int,
            TokenValues { bandwidth: bandwidth@, id: id@ },
        ),
{
    let timescale: i64 = parse_or(get_attribute(nodes, t, "timescale"), 1);
    let duration: i64 = parse_or(get_attribute(nodes, t, "duration"), 1);
    let start: i64 = parse_or(get_attribute(nodes, t, "startNumber"), 1);
    let mut list: Vec<String> = Vec::new();
    if let Some(init) = get_attribute(nodes, t, "initialization") {
        let s = expand_template(init.as_str(), start, start, bandwidth, id);
        list.push(s);
    }
    assert(text::texts(list@) =~= init_refs(
        xml::node_views(nodes@),
        t as int,
        start as int,
        start as int,
        TokenValues { bandwidth: bandwidth@, id: id@ },
    ));
    match get_attribute(nodes, t, "media") {
        None => Refs { list, complete: false, stop: None },
        Some(media) => match count_segments(period, duration, timescale) {
            None => Refs { list, complete: false, stop: Some(DashParseError::EndlessSegments) },
            Some(n) => {
                push_run(&mut list, media.as_str(), start, start, duration, bandwidth, id, n);
                Refs { list, complete: true, stop: None }
            },
        },
    }
}

/// The references of a template with a timeline.
pub fn parse_explicit_addressing(
    nodes: &Vec<XmlNode>,
    t: usize,
    timeline: usize,
    id: &str,
    bandwidth: &str,
) -> (r: Refs)
    requires
        t < nodes.len(),
    ensures
        r@ == explicit_refs(
            xml::node_views(nodes@),
            t as int,
            timeline as int,
            TokenValues { bandwidth: bandwidth@, id: id@ },
        ),
{
    let ghost all = xml::node_views(nodes@);
    let ghost v = TokenValues { bandwidth: bandwidth@, id: id@ };
    let entries = find_children(nodes, timeline, "S");
    let ghost es = xml::ints(entries@);
    let mut list: Vec<String> = Vec::new();
    if entries.len() == 0 {
        assert(text::texts(list@) =~= Seq::empty());
        return Refs { list, complete: false, stop: None };
    }
    let mut number: i64 = parse_or(get_attribute(nodes, t, "startNumber"), 1);
    let mut time: i64 = 0;
    if let Some(init) = get_attribute(nodes, t, "initialization") {
        let s = expand_template(init.as_str(), number, time, bandwidth, id);
        list.push(s);
    }
    let ghost init = init_refs(all, t as int, number as int, 0, v);
    assert(text::texts(list@) =~= init);
    let media = match get_attribute(nodes, t, "media") {
        None => {
            return Refs { list, complete: false, stop: None };
        },
        Some(m) => m,
    };
    let mut i: usize = 0;
    let ghost whole = timeline_refs(all, es, 0, media@, number, time, v);
    assert(text::texts(list@) + whole.0 =~= init + whole.0);
    while i < entries.len()
        invariant
            i <= entries.len(),
            all == xml::node_views(nodes@),
            es == xml::ints(entries@),
            v == (TokenValues { bandwidth: bandwidth@, id: id@ }),
            forall|j: int| 0 <= j < entries@.len() ==> #[trigger] entries@[j] < nodes.len(),
            explicit_refs(all, t as int, timeline as int, v) == (RefsView {
                list: init + whole.0,
                complete: true,
                stop: whole.1,
            }),
            text::texts(list@) + timeline_refs(all, es, i as int, media@, number, time, v).0 == init
                + whole.0,
            timeline_refs(all, es, i as int, media@, number, time, v).1 == whole.1,
        decreases entries.len() - i,
    {
        let s: usize = entries[i];
        assert(es[i as int] == s as int);
        let d: i64 = match get_attribute(nodes, s, "d") {
            None => {
                let ghost here = text::texts(list@);
                assert(here + Seq::<Seq<char>>::empty() =~= here);
                return Refs {
                    list,
                    complete: true,
                    stop: Some(
                        DashParseError::InvalidNumber {
                            tag: "S",
                            attr: "d",
                            value: "missing".to_string(),
                        },
                    ),
                };
            },
            Some(text) => {
                let cs = chars_of(text.as_str());
                match parse_i64(cs.as_slice()) {
                    None => {
                        let ghost here = text::texts(list@);
                        assert(here + Seq::<Seq<char>>::empty() =~= here);
                        return Refs {
                            list,
                            complete: true,
                            stop: Some(
                                DashParseError::InvalidNumber {
                                    tag: "S",
                                    attr: "d",
                                    value: text.clone(),
                                },
                            ),
                        };
                    },
                    Some(d) => d,
                }
            },
        };
        let begin: i64 = parse_or(get_attribute(nodes, s, "t"), -1);
        let repeat: i64 = parse_or(get_attribute(nodes, s, "r"), -1);
        if begin > 0 {
            time = begin;
        }
        let count: u64 = if repeat > 0 {
            repeat as u64 + 1
        } else {
            1
        };
        let ghost before = text::texts(list@);
        let ghost old_number = number;
        let ghost old_time = time;
        let (n, after) = push_run(&mut list, media.as_str(), number, time, d, bandwidth, id, count);
        number = n;
        time = after;
        assert(text::texts(list@) + timeline_refs(all, es, i + 1, media@, number, time, v).0
            =~= before + (run_of_refs(media@, old_number, old_time, d, v, count as nat)
            + timeline_refs(all, es, i + 1, media@, number, time, v).0));
        i += 1;
    }
    assert(text::texts(list@) =~= init + whole.0);
    Refs { list, complete: true, stop: None }
}

/// The references of a `SegmentList`.
pub fn parse_segment_list(nodes: &Vec<XmlNode>, l: usize) -> (r: Refs)
    ensures
        r@ == list_refs(xml::node_views(nodes@), l as int),
{
    let ghost all = xml::node_views(nodes@);
    let mut list: Vec<String> = Vec::new();
    let init_node: Option<usize> = match find_child(nodes, l, "Initialization") {
        Some(c) => Some(c),
        None => find_child(nodes, l, "RepresentationIndex"),
    };
    if let Some(c) = init_node {
        if let Some(u) = get_attribute(nodes, c, "sourceURL") {
            list.push(u.clone());
        }
    }
    let ghost init = text::texts(list@);
    assert(list@.len() == 1 ==> init =~= seq![list@[0]@]);
    assert(list@.len() == 0 ==> init =~= Seq::empty());
    let entries = find_children(nodes, l, "SegmentURL");
    let ghost es = xml::ints(entries@);
    let mut i: usize = 0;
    assert(es.take(0) =~= Seq::empty());
    assert(init + Seq::<Seq<char>>::empty() =~= init);
    while i < entries.len()
        invariant
            i <= entries.len(),
            all == xml::node_views(nodes@),
            es == xml::ints(entries@),
            forall|j: int| 0 <= j < entries@.len() ==> #[trigger] entries@[j] < nodes.len(),
            text::texts(list@) == init + media_refs(all, es.take(i as int)),
        decreases entries.len() - i,
    {
        proof {
            assert(es.take(i + 1).drop_last() =~= es.take(i as int));
            assert(es.take(i + 1).last() == entries@[i as int] as int);
        }
        let ghost before = list@;
        if let Some(m) = get_attribute(nodes, entries[i], "media") {
            let s = m.clone();
            proof {
                lemma_texts_push(before, s);
            }
            list.push(s);
            assert(text::texts(list@) =~= init + media_refs(all, es.take(i as int)).push(m@));
        }
        i += 1;
    }
    assert(es.take(i as int) =~= es);
    Refs { list, complete: true, stop: None }
}

// ---------------------------------------------------------------------------
// Plans: representations
// ---------------------------------------------------------------------------

/// What a representation says of itself.
#[verifier::ext_equal]
pub struct InfoView {
    pub width: i32,
    pub height: i32,
    pub codec: Option<Seq<char>>,
    pub bandwidth: i64,
    pub mime_type: Seq<char>,
    pub language: Option<Seq<char>>,
}

/// Where a representation's segments come from.
#[verifier::ext_equal]
pub enum BodyView {
    /// One segment: the base URL itself.
    Base,
    Refs(RefsView),
    /// The representation names no segments.
    Nothing,
}

#[verifier::ext_equal]
pub struct PlanView {
    pub info: InfoView,
    pub base: Option<Seq<char>>,
    pub body: BodyView,
}

#[derive(Debug)]
pub enum Body {
    Base,
    Refs(Refs),
    Nothing,
}

/// A representation whose references are not resolved yet.
#[derive(Debug)]
pub struct RepresentationPlan {
    pub width: i32,
    pub height: i32,
    pub codec: Option<String>,
    pub bandwidth: i64,
    pub mime_type: String,
    pub language: Option<String>,
    /// The text of the representation's own `BaseURL`.
    pub base: Option<String>,
    pub body: Body,
}

impl View for RepresentationPlan {
    type V = PlanView;

    open spec fn view(&self) -> PlanView {
        PlanView {
            info: InfoView {
                width: self.width,
                height: self.height,
                codec: text::opt(self.codec),
                bandwidth: self.bandwidth,
                mime_type: self.mime_type@,
                language: text::opt(self.language),
            },
            base: text::opt(self.base),
            body: match self.body {
                Body::Base => BodyView::Base,
                Body::Refs(r) => BodyView::Refs(r@),
                Body::Nothing => BodyView::Nothing,
            },
        }
    }
}

/// The text of the `BaseURL` inside node `i`, trimmed.
pub open spec fn base_text(nodes: Seq<XmlNodeView>, i: int) -> Option<Seq<char>> {
    match xml::child(nodes, i, "BaseURL"@) {
        Some(c) => Some(
            match nodes[c].text {
                Some(t) => text::trim(t),
                None => text::trim(""@),
            },
        ),
        None => None,
    }
}

/// Where the segments of representation `r` inside adaptation set `set` come from.
pub open spec fn body_of(
    nodes: Seq<XmlNodeView>,
    r: int,
    set: int,
    period: int,
    parent_base: bool,
) -> BodyView {
    let tmpl = match xml::child(nodes, r, "SegmentTemplate"@) {
        Some(t) => Some(t),
        None => xml::child(nodes, set, "SegmentTemplate"@),
    };
    if xml::child(nodes, r, "SegmentBase"@) is Some || parent_base {
        BodyView::Base
    } else {
        match xml::child(nodes, r, "SegmentList"@) {
            Some(l) => BodyView::Refs(list_refs(nodes, l)),
            None => match tmpl {
                Some(t) => {
                    let v = TokenValues {
                        bandwidth: inherited(nodes, r, set, "bandwidth"@).unwrap_or("-1"@),
                        id: xml::attribute(nodes, r, "id"@).unwrap_or(""@),
                    };
                    match xml::child(nodes, t, "SegmentTimeline"@) {
                        Some(line) => BodyView::Refs(explicit_refs(nodes, t, line, v)),
                        None => BodyView::Refs(simple_refs(nodes, t, period, v)),
                    }
                },
                None => BodyView::Nothing,
            },
        }
    }
}

/// Representation `r` of adaptation set `set`: none where it is neither audio nor
/// video, an error where a number of it is none.
pub open spec fn plan_of(
    nodes: Seq<XmlNodeView>,
    r: int,
    set: int,
    period: int,
    parent_base: bool,
) -> Result<Option<PlanView>, DashErrorView> {
    let mime = text::unicode_lower(inherited(nodes, r, set, "mimeType"@).unwrap_or(""@));
    let tag = "Representation"@;
    match number_of(
        inherited(nodes, r, set, "width"@),
        i32::MIN as int,
        i32::MAX as int,
        tag,
        "width"@,
    ) {
        Err(e) => Err(e),
        Ok(width) => match number_of(
            inherited(nodes, r, set, "height"@),
            i32::MIN as int,
            i32::MAX as int,
            tag,
            "height"@,
        ) {
            Err(e) => Err(e),
            Ok(height) => match number_of(
                inherited(nodes, r, set, "bandwidth"@),
                i64::MIN as int,
                i64::MAX as int,
                tag,
                "bandwidth"@,
            ) {
                Err(e) => Err(e),
                Ok(bandwidth) => if !text::has_prefix(mime, "audio"@) && !text::has_prefix(
                    mime,
                    "video"@,
                ) {
                    Ok(None)
                } else {
                    Ok(
                        Some(
                            PlanView {
                                info: InfoView {
                                    width: width as i32,
                                    height: height as i32,
                                    codec: inherited(nodes, r, set, "codecs"@),
                                    bandwidth: bandwidth as i64,
                                    mime_type: mime,
                                    language: inherited(nodes, r, set, "lang"@),
                                },
                                base: base_text(nodes, r),
                                body: body_of(nodes, r, set, period, parent_base),
                            },
                        ),
                    )
                },
            },
        },
    }
}

fn get_base_text(nodes: &Vec<XmlNode>, i: usize) -> (r: Option<String>)
    ensures
        text::opt(r) == base_text(xml::node_views(nodes@), i as int),
{
    match find_child(nodes, i, "BaseURL") {
        Some(c) => {
            assert(xml::node_views(nodes@)[c as int] == nodes@[c as int]@);
            let cs = match &nodes[c].text {
                Some(t) => chars_of(t.as_str()),
                None => chars_of(""),
            };
            Some(string_of(trimmed(cs.as_slice())))
        },
        None => None,
    }
}

fn copy_ref(o: Option<&String>) -> (r: Option<String>)
    ensures
        text::opt(r) == opt_ref(o),
{
    match o {
        Some(s) => Some(s.clone()),
        None => None,
    }
}

fn plan_body(nodes: &Vec<XmlNode>, r: usize, set: usize, period: i64, parent_base: bool) -> (b: Body)
    requires
        r < nodes.len(),
        set < nodes.len(),
    ensures
        (match b {
            Body::Base => BodyView::Base,
            Body::Refs(x) => BodyView::Refs(x@),
            Body::Nothing => BodyView::Nothing,
        }) == body_of(xml::node_views(nodes@), r as int, set as int, period as int, parent_base),
{
    if parent_base || find_child(nodes, r, "SegmentBase").is_some() {
        return Body::Base;
    }
    if let Some(l) = find_child(nodes, r, "SegmentList") {
        return Body::Refs(parse_segment_list(nodes, l));
    }
    let tmpl: Option<usize> = match find_child(nodes, r, "SegmentTemplate") {
        Some(t) => Some(t),
        None => find_child(nodes, set, "SegmentTemplate"),
    };
    match tmpl {
        Some(t) => {
            let id = match get_attribute(nodes, r, "id") {
                Some(v) => v.clone(),
                None => "".to_string(),
            };
            let bandwidth = match get_inherited(nodes, r, set, "bandwidth") {
                Some(v) => v.clone(),
                None => "-1".to_string(),
            };
            match find_child(nodes, t, "SegmentTimeline") {
                Some(line) => Body::Refs(
                    parse_explicit_addressing(nodes, t, line, id.as_str(), bandwidth.as_str()),
                ),
                None => Body::Refs(
                    parse_simple_addressing(nodes, t, period, id.as_str(), bandwidth.as_str()),
                ),
            }
        },
        None => Body::Nothing,
    }
}

/// Reads representation `r` of adaptation set `set` without resolving its
/// references.
pub fn representation_plan(
    nodes: &Vec<XmlNode>,
    r: usize,
    set: usize,
    period: i64,
    parent_base: bool,
) -> (p: Result<Option<RepresentationPlan>, DashParseError>)
    requires
        r < nodes.len(),
        set < nodes.len(),
    ensures
        (match p {
            Ok(Some(x)) => Ok::<Option<PlanView>, DashErrorView>(Some(x@)),
            Ok(None) => Ok(None),
            Err(e) => Err(e@),
        }) == plan_of(xml::node_views(nodes@), r as int, set as int, period as int, parent_base),
{
    let mime = match get_inherited(nodes, r, set, "mimeType") {
        Some(m) => to_unicode_lower(m.as_str()),
        None => to_unicode_lower(""),
    };
    let width: i32 = match parse_i32_attr(
        get_inherited(nodes, r, set, "width"),
        "Representation",
        "width",
    ) {
        Ok(n) => n,
        Err(e) => {
            return Err(e);
        },
    };
    let height: i32 = match parse_i32_attr(
        get_inherited(nodes, r, set, "height"),
        "Representation",
        "height",
    ) {
        Ok(n) => n,
        Err(e) => {
            return Err(e);
        },
    };
    let bandwidth: i64 = match parse_i64_attr(
        get_inherited(nodes, r, set, "bandwidth"),
        "Representation",
        "bandwidth",
    ) {
        Ok(n) => n,
        Err(e) => {
            return Err(e);
        },
    };
    let codec = copy_ref(get_inherited(nodes, r, set, "codecs"));
    let language = copy_ref(get_inherited(nodes, r, set, "lang"));
    let ms = chars_of(mime.as_str());
    if !starts_with(ms.as_slice(), "audio") && !starts_with(ms.as_slice(), "video") {
        return Ok(None);
    }
    let base = get_base_text(nodes, r);
    let body = plan_body(nodes, r, set, period, parent_base);
    Ok(
        Some(
            RepresentationPlan {
                width,
                height,
                codec,
                bandwidth,
                mime_type: mime,
                language,
                base,
                body,
            },
        ),
    )
}

// ---------------------------------------------------------------------------
// Resolving
// ---------------------------------------------------------------------------

/// A base URL with an optional `BaseURL` text resolved against it.
pub open spec fn rebased(base: Seq<char>, own: Option<Seq<char>>) -> Result<Seq<char>, DashErrorView> {
    match own {
        None => Ok(base),
        Some(t) => match urls::joined_url(base, t) {
            Ok(u) => Ok(u),
            Err(e) => Err(DashErrorView::InvalidUrl(e)),
        },
    }
}

/// `done` with the references from position `from` on resolved and appended, or
/// the error of the first that does not resolve.
pub open spec fn resolved_refs(
    base: Seq<char>,
    refs: Seq<Seq<char>>,
    from: int,
    done: Seq<Seq<char>>,
) -> Result<Seq<Seq<char>>, DashErrorView>
    decreases refs.len() - from,
{
    if from < 0 || from >= refs.len() {
        Ok(done)
    } else {
        match urls::joined_url(base, refs[from]) {
            Err(e) => Err(DashErrorView::InvalidUrl(e)),
            Ok(u) => resolved_refs(base, refs, from + 1, done.push(u)),
        }
    }
}

/// A representation with the given segments.
pub open spec fn with_segments(
    info: InfoView,
    segments: Seq<Seq<char>>,
    period: int,
) -> RepresentationView {
    RepresentationView {
        segments,
        width: info.width,
        height: info.height,
        codec: info.codec,
        bandwidth: info.bandwidth,
        duration_ms: period as i64,
        mime_type: info.mime_type,
        language: info.language,
    }
}

/// A plan resolved against the base URL around it. A representation without
/// segments is none.
pub open spec fn resolved_plan(base: Seq<char>, plan: PlanView, period: int) -> Result<
    Option<RepresentationView>,
    DashErrorView,
> {
    match rebased(base, plan.base) {
        Err(e) => Err(e),
        Ok(b) => match plan.body {
            BodyView::Base => Ok(Some(with_segments(plan.info, seq![b], period))),
            BodyView::Nothing => Ok(None),
            BodyView::Refs(refs) => match resolved_refs(b, refs.list, 0, Seq::empty()) {
                Err(e) => Err(e),
                Ok(segments) => match refs.stop {
                    Some(e) => Err(e),
                    None => if refs.complete && segments.len() > 0 {
                        Ok(Some(with_segments(plan.info, segments, period)))
                    } else {
                        Ok(None)
                    },
                },
            },
        },
    }
}

pub open spec fn opt_representation(o: Option<Representation>) -> Option<RepresentationView> {
    match o {
        Some(r) => Some(r@),
        None => None,
    }
}

fn rebase(base: &str, own: &Option<String>) -> (r: Result<String, DashParseError>)
    ensures
        match r {
            Ok(u) => rebased(base@, text::opt(*own)) == Ok::<Seq<char>, DashErrorView>(u@),
            Err(e) => rebased(base@, text::opt(*own)) == Err::<Seq<char>, DashErrorView>(e@),
        },
{
    match own {
        None => Ok(base.to_string()),
        Some(t) => match join_url(base, t.as_str()) {
            Ok(u) => Ok(u),
            Err(e) => Err(DashParseError::InvalidUrl(e)),
        },
    }
}

fn resolve_refs(base: &str, refs: &Vec<String>) -> (r: Result<Vec<String>, DashParseError>)
    ensures
        match r {
            Ok(v) => resolved_refs(base@, text::texts(refs@), 0, Seq::empty()) == Ok::<
                Seq<Seq<char>>,
                DashErrorView,
            >(text::texts(v@)),
            Err(e) => resolved_refs(base@, text::texts(refs@), 0, Seq::empty()) == Err::<
                Seq<Seq<char>>,
                DashErrorView,
            >(e@),
        },
{
    let ghost all = text::texts(refs@);
    let mut out: Vec<String> = Vec::new();
    let mut i: usize = 0;
    assert(text::texts(out@) =~= Seq::empty());
    while i < refs.len()
        invariant
            i <= refs.len(),
            all == text::texts(refs@),
            resolved_refs(base@, all, 0, Seq::empty()) == resolved_refs(
                base@,
                all,
                i as int,
                text::texts(out@),
            ),
        decreases refs.len() - i,
    {
        assert(all[i as int] == refs@[i as int]@);
        match join_url(base, refs[i].as_str()) {
            Err(e) => {
                return Err(DashParseError::InvalidUrl(e));
            },
            Ok(u) => {
                proof {
                    lemma_texts_push(out@, u);
                }
                out.push(u);
            },
        }
        i += 1;
    }
    Ok(out)
}

/// Resolves the references of a plan.
pub fn resolve_plan(base: &str, plan: RepresentationPlan, period: i64) -> (r: Result<
    Option<Representation>,
    DashParseError,
>)
    ensures
        (match r {
            Ok(o) => Ok::<Option<RepresentationView>, DashErrorView>(opt_representation(o)),
            Err(e) => Err(e@),
        }) == resolved_plan(base@, plan@, period as int),
{
    let b = match rebase(base, &plan.base) {
        Ok(u) => u,
        Err(e) => {
            return Err(e);
        },
    };
    let segments: Vec<String> = match plan.body {
        Body::Nothing => {
            return Ok(None);
        },
        Body::Base => {
            let ghost shown = b@;
            let mut v: Vec<String> = Vec::new();
            v.push(b);
            assert(text::texts(v@) =~= seq![shown]);
            v
        },
        Body::Refs(refs) => {
            match resolve_refs(b.as_str(), &refs.list) {
                Err(e) => {
                    return Err(e);
                },
                Ok(v) => {
                    match refs.stop {
                        Some(e) => {
                            return Err(e);
                        },
                        None => {},
                    }
                    if !refs.complete || v.len() == 0 {
                        return Ok(None);
                    }
                    v
                },
            }
        },
    };
    Ok(
        Some(
            Representation {
                segments,
                width: plan.width,
                height: plan.height,
                codec: plan.codec,
                bandwidth: plan.bandwidth,
                duration_ms: period,
                mime_type: plan.mime_type,
                language: plan.language,
            },
        ),
    )
}

// ---------------------------------------------------------------------------
// Adaptation sets
// ---------------------------------------------------------------------------

/// What surrounds a representation: the base URL, the length of the period and
/// whether the period has a `SegmentBase`.
#[verifier::ext_equal]
pub struct Surroundings {
    pub base: Seq<char>,
    pub period: int,
    pub parent_base: bool,
}

/// Representation `r` of adaptation set `set`, resolved.
pub open spec fn representation(
    nodes: Seq<XmlNodeView>,
    r: int,
    set: int,
    at: Surroundings,
) -> Result<Option<RepresentationView>, DashErrorView> {
    match plan_of(nodes, r, set, at.period, at.parent_base) {
        Err(e) => Err(e),
        Ok(None) => Ok(None),
        Ok(Some(plan)) => resolved_plan(at.base, plan, at.period),
    }
}

/// `done` with the representations among `list` from position `from` on appended,
/// or the first error among them.
pub open spec fn representations_from(
    nodes: Seq<XmlNodeView>,
    list: Seq<int>,
    set: int,
    at: Surroundings,
    from: int,
    done: Seq<RepresentationView>,
) -> Result<Seq<RepresentationView>, DashErrorView>
    decreases list.len() - from,
{
    if from < 0 || from >= list.len() {
        Ok(done)
    } else {
        match representation(nodes, list[from], set, at) {
            Err(e) => Err(e),
            Ok(Some(r)) => representations_from(nodes, list, set, at, from + 1, done.push(r)),
            Ok(None) => representations_from(nodes, list, set, at, from + 1, done),
        }
    }
}

pub open spec fn trick_mode_uri() -> Seq<char> {
    "http://dashif.org/guidelines/trickmode"@
}

/// Whether a property element of the given name marks the set as trick mode.
pub open spec fn marks_trick_mode(nodes: Seq<XmlNodeView>, set: int, tag: Seq<char>) -> bool {
    match xml::child(nodes, set, tag) {
        Some(c) => xml::attribute(nodes, c, "schemeIdUri"@) == Some(trick_mode_uri()),
        None => false,
    }
}

/// Whether an adaptation set holds frames for fast forward only.
pub open spec fn trick_mode(nodes: Seq<XmlNodeView>, set: int) -> bool {
    marks_trick_mode(nodes, set, "EssentialProperty"@) || marks_trick_mode(
        nodes,
        set,
        "SupplementalProperty"@,
    )
}

/// The representations of an adaptation set; none where it is for trick mode.
pub open spec fn adaptation_set(nodes: Seq<XmlNodeView>, set: int, at: Surroundings) -> Result<
    Seq<RepresentationView>,
    DashErrorView,
> {
    match rebased(at.base, base_text(nodes, set)) {
        Err(e) => Err(e),
        Ok(base) => if trick_mode(nodes, set) {
            Ok(Seq::empty())
        } else {
            representations_from(
                nodes,
                xml::children(nodes, set, "Representation"@),
                set,
                Surroundings { base, ..at },
                0,
                Seq::empty(),
            )
        },
    }
}

fn property_marks(nodes: &Vec<XmlNode>, set: usize, tag: &str) -> (r: bool)
    ensures
        r == marks_trick_mode(xml::node_views(nodes@), set as int, tag@),
{
    match find_child(nodes, set, tag) {
        Some(c) => match get_attribute(nodes, c, "schemeIdUri") {
            Some(v) => str_eq(v.as_str(), "http://dashif.org/guidelines/trickmode"),
            None => false,
        },
        None => false,
    }
}

/// Whether an adaptation set is for trick mode.
pub fn contains_trick_mode(nodes: &Vec<XmlNode>, set: usize) -> (r: bool)
    ensures
        r == trick_mode(xml::node_views(nodes@), set as int),
{
    property_marks(nodes, set, "EssentialProperty") || property_marks(
        nodes,
        set,
        "SupplementalProperty",
    )
}

proof fn lemma_views_push(v: Seq<Representation>, r: Representation)
    ensures
        representation_views(v.push(r)) == representation_views(v).push(r@),
{
    assert(representation_views(v.push(r)) =~= representation_views(v).push(r@));
}

/// Reads and resolves a representation.
pub fn parse_representation(
    nodes: &Vec<XmlNode>,
    r: usize,
    set: usize,
    base: &str,
    period: i64,
    parent_base: bool,
) -> (o: Result<Option<Representation>, DashParseError>)
    requires
        r < nodes.len(),
        set < nodes.len(),
    ensures
        (match o {
            Ok(x) => Ok::<Option<RepresentationView>, DashErrorView>(opt_representation(x)),
            Err(e) => Err(e@),
        }) == representation(
            xml::node_views(nodes@),
            r as int,
            set as int,
            Surroundings { base: base@, period: period as int, parent_base },
        ),
{
    match representation_plan(nodes, r, set, period, parent_base) {
        Err(e) => Err(e),
        Ok(None) => Ok(None),
        Ok(Some(plan)) => resolve_plan(base, plan, period),
    }
}

pub open spec fn list_result(r: Result<Vec<Representation>, DashParseError>) -> Result<
    Seq<RepresentationView>,
    DashErrorView,
> {
    match r {
        Ok(v) => Ok(representation_views(v@)),
        Err(e) => Err(e@),
    }
}

/// Reads the representations of an adaptation set.
pub fn parse_adaptation_set(
    nodes: &Vec<XmlNode>,
    set: usize,
    base: &str,
    period: i64,
    parent_base: bool,
) -> (r: Result<Vec<Representation>, DashParseError>)
    requires
        set < nodes.len(),
    ensures
        list_result(r) == adaptation_set(
            xml::node_views(nodes@),
            set as int,
            Surroundings { base: base@, period: period as int, parent_base },
        ),
{
    let ghost all = xml::node_views(nodes@);
    let own = get_base_text(nodes, set);
    let b = match rebase(base, &own) {
        Ok(u) => u,
        Err(e) => {
            return Err(e);
        },
    };
    let mut out: Vec<Representation> = Vec::new();
    assert(representation_views(out@) =~= Seq::empty());
    if contains_trick_mode(nodes, set) {
        return Ok(out);
    }
    let list = find_children(nodes, set, "Representation");
    let ghost ls = xml::ints(list@);
    let ghost at = Surroundings { base: b@, period: period as int, parent_base };
    let ghost want = adaptation_set(
        all,
        set as int,
        Surroundings { base: base@, period: period as int, parent_base },
    );
    let mut i: usize = 0;
    while i < list.len()
        invariant
            i <= list.len(),
            set < nodes.len(),
            all == xml::node_views(nodes@),
            ls == xml::ints(list@),
            at == (Surroundings { base: b@, period: period as int, parent_base }),
            want == adaptation_set(
                all,
                set as int,
                Surroundings { base: base@, period: period as int, parent_base },
            ),
            forall|j: int| 0 <= j < list@.len() ==> #[trigger] list@[j] < nodes.len(),
            want == representations_from(
                all,
                ls,
                set as int,
                at,
                i as int,
                representation_views(out@),
            ),
        decreases list.len() - i,
    {
        assert(ls[i as int] == list@[i as int] as int);
        match parse_representation(nodes, list[i], set, b.as_str(), period, parent_base) {
            Err(e) => {
                return Err(e);
            },
            Ok(Some(r)) => {
                proof {
                    lemma_views_push(out@, r);
                }
                out.push(r);
            },
            Ok(None) => {},
        }
        i += 1;
    }
    Ok(out)
}

// ---------------------------------------------------------------------------
// Periods
// ---------------------------------------------------------------------------

pub type PairView = (Option<RepresentationView>, Option<RepresentationView>);

/// One video with every audio, in order.
pub open spec fn with_each(video: RepresentationView, audios: Seq<RepresentationView>) -> Seq<
    PairView,
> {
    audios.map_values(|a: RepresentationView| (Some(video), Some(a)))
}

/// Every video with every audio: the videos in order, and for each the audios in
/// order.
pub open spec fn cross(videos: Seq<RepresentationView>, audios: Seq<RepresentationView>) -> Seq<
    PairView,
>
    decreases videos.len(),
{
    if videos.len() == 0 {
        Seq::empty()
    } else {
        cross(videos.drop_last(), audios) + with_each(videos.last(), audios)
    }
}

/// The pairings of a period: every video with every audio where it has both; else
/// each by itself.
pub open spec fn pairings(videos: Seq<RepresentationView>, audios: Seq<RepresentationView>) -> Seq<
    PairView,
> {
    if videos.len() > 0 && audios.len() > 0 {
        cross(videos, audios)
    } else if videos.len() > 0 {
        videos.map_values(|v: RepresentationView| (Some(v), None))
    } else {
        audios.map_values(|a: RepresentationView| (None, Some(a)))
    }
}

/// The videos and audios of the adaptation sets from position `from` on, added to
/// those found before, or the first error. The first representation of a set says
/// whether the set is audio.
pub open spec fn tracks_from(
    nodes: Seq<XmlNodeView>,
    sets: Seq<int>,
    at: Surroundings,
    from: int,
    videos: Seq<RepresentationView>,
    audios: Seq<RepresentationView>,
) -> Result<(Seq<RepresentationView>, Seq<RepresentationView>), DashErrorView>
    decreases sets.len() - from,
{
    if from < 0 || from >= sets.len() {
        Ok((videos, audios))
    } else {
        match adaptation_set(nodes, sets[from], at) {
            Err(e) => Err(e),
            Ok(found) => if found.len() > 0 && text::has_prefix(found[0].mime_type, "audio"@) {
                tracks_from(nodes, sets, at, from + 1, videos, audios + found)
            } else {
                tracks_from(nodes, sets, at, from + 1, videos + found, audios)
            },
        }
    }
}

/// A duration in milliseconds that an attribute writes.
pub open spec fn duration_of(s: Seq<char>) -> Result<i64, DashErrorView> {
    match xs_duration::xs_duration(s) {
        Some(d) => Ok(d as i64),
        None => Err(DashErrorView::InvalidDuration(s)),
    }
}

/// The pairings of period `p`, whose length is `length` unless it says otherwise.
pub open spec fn period(nodes: Seq<XmlNodeView>, p: int, base: Seq<char>, length: int) -> Result<
    Seq<PairView>,
    DashErrorView,
> {
    let own = match xml::attribute(nodes, p, "duration"@) {
        Some(d) => duration_of(d),
        None => Ok(length as i64),
    };
    match own {
        Err(e) => Err(e),
        Ok(d) => match rebased(base, base_text(nodes, p)) {
            Err(e) => Err(e),
            Ok(b) => {
                let at = Surroundings {
                    base: b,
                    period: d as int,
                    parent_base: xml::child(nodes, p, "SegmentBase"@) is Some,
                };
                match tracks_from(
                    nodes,
                    xml::children(nodes, p, "AdaptationSet"@),
                    at,
                    0,
                    Seq::empty(),
                    Seq::empty(),
                ) {
                    Err(e) => Err(e),
                    Ok((videos, audios)) => Ok(pairings(videos, audios)),
                }
            },
        },
    }
}

pub open spec fn pair_view(p: (Option<Representation>, Option<Representation>)) -> PairView {
    (opt_representation(p.0), opt_representation(p.1))
}

pub open spec fn pair_views(v: Seq<(Option<Representation>, Option<Representation>)>) -> Seq<PairView> {
    v.map_values(|p: (Option<Representation>, Option<Representation>)| pair_view(p))
}

proof fn lemma_pairs_push(
    v: Seq<(Option<Representation>, Option<Representation>)>,
    p: (Option<Representation>, Option<Representation>),
)
    ensures
        pair_views(v.push(p)) == pair_views(v).push(pair_view(p)),
{
    assert(pair_views(v.push(p)) =~= pair_views(v).push(pair_view(p)));
}

/// Appends one video with every audio.
fn push_with_each(out: &mut PeriodPairings, video: &Representation, audios: &Vec<Representation>)
    ensures
        pair_views(final(out)@) == pair_views(old(out)@) + with_each(
            video@,
            representation_views(audios@),
        ),
{
    let ghost all = with_each(video@, representation_views(audios@));
    let mut j: usize = 0;
    assert(all.take(0) =~= Seq::empty());
    assert(pair_views(out@) + Seq::<PairView>::empty() =~= pair_views(out@));
    while j < audios.len()
        invariant
            j <= audios.len(),
            all == with_each(video@, representation_views(audios@)),
            pair_views(out@) == pair_views(old(out)@) + all.take(j as int),
        decreases audios.len() - j,
    {
        let pair = (Some(video.copy()), Some(audios[j].copy()));
        proof {
            lemma_pairs_push(out@, pair);
            assert(all[j as int] == pair_view(pair));
            assert(all.take(j + 1) =~= all.take(j as int).push(pair_view(pair)));
        }
        out.push(pair);
        j += 1;
        assert(pair_views(out@) =~= pair_views(old(out)@) + all.take(j as int));
    }
    assert(all.take(j as int) =~= all);
}

/// Pairs the videos and audios of a period.
pub fn pair_tracks(videos: &Vec<Representation>, audios: &Vec<Representation>) -> (r: PeriodPairings)
    ensures
        pair_views(r@) == pairings(representation_views(videos@), representation_views(audios@)),
{
    let ghost vs = representation_views(videos@);
    let ghost aus = representation_views(audios@);
    let mut out: PeriodPairings = Vec::new();
    assert(pair_views(out@) =~= Seq::empty());
    let mut i: usize = 0;
    if videos.len() > 0 && audios.len() > 0 {
        assert(vs.take(0) =~= Seq::empty());
        while i < videos.len()
            invariant
                i <= videos.len(),
                vs == representation_views(videos@),
                aus == representation_views(audios@),
                pair_views(out@) == cross(vs.take(i as int), aus),
            decreases videos.len() - i,
        {
            proof {
                assert(vs.take(i + 1).drop_last() =~= vs.take(i as int));
                assert(vs.take(i + 1).last() == videos@[i as int]@);
            }
            push_with_each(&mut out, &videos[i], audios);
            i += 1;
        }
        assert(vs.take(i as int) =~= vs);
    } else if videos.len() > 0 {
        let ghost all = vs.map_values(|v: RepresentationView| (Some(v), None::<RepresentationView>));
        assert(all.take(0) =~= Seq::empty());
        while i < videos.len()
            invariant
                i <= videos.len(),
                vs == representation_views(videos@),
                all == vs.map_values(
                    |v: RepresentationView| (Some(v), None::<RepresentationView>),
                ),
                pair_views(out@) == all.take(i as int),
            decreases videos.len() - i,
        {
            let pair = (Some(videos[i].copy()), None);
            proof {
                lemma_pairs_push(out@, pair);
                assert(all[i as int] == pair_view(pair));
                assert(all.take(i + 1) =~= all.take(i as int).push(pair_view(pair)));
            }
            out.push(pair);
            i += 1;
        }
        assert(all.take(i as int) =~= all);
    } else {
        let ghost all = aus.map_values(|a: RepresentationView| (None::<RepresentationView>, Some(a)));
        assert(all.take(0) =~= Seq::empty());
        while i < audios.len()
            invariant
                i <= audios.len(),
                aus == representation_views(audios@),
                all == aus.map_values(
                    |a: RepresentationView| (None::<RepresentationView>, Some(a)),
                ),
                pair_views(out@) == all.take(i as int),
            decreases audios.len() - i,
        {
            let pair = (None, Some(audios[i].copy()));
            proof {
                lemma_pairs_push(out@, pair);
                assert(all[i as int] == pair_view(pair));
                assert(all.take(i + 1) =~= all.take(i as int).push(pair_view(pair)));
            }
            out.push(pair);
            i += 1;
        }
        assert(all.take(i as int) =~= all);
    }
    out
}

fn append_all(to: &mut Vec<Representation>, from: &mut Vec<Representation>)
    ensures
        representation_views(final(to)@) == representation_views(old(to)@) + representation_views(
            old(from)@,
        ),
{
    to.append(from);
    assert(representation_views(to@) =~= representation_views(old(to)@) + representation_views(
        old(from)@,
    ));
}

fn read_duration(s: &String) -> (r: Result<i64, DashParseError>)
    ensures
        match r {
            Ok(d) => duration_of(s@) == Ok::<i64, DashErrorView>(d),
            Err(e) => duration_of(s@) == Err::<i64, DashErrorView>(e@),
        },
{
    match parse_xs_duration(s.as_str()) {
        Ok(d) => Ok(d),
        Err(_) => Err(DashParseError::InvalidDuration(s.clone())),
    }
}

pub open spec fn pairings_result(r: Result<PeriodPairings, DashParseError>) -> Result<
    Seq<PairView>,
    DashErrorView,
> {
    match r {
        Ok(v) => Ok(pair_views(v@)),
        Err(e) => Err(e@),
    }
}

/// Reads a period.
pub fn parse_period(nodes: &Vec<XmlNode>, p: usize, base: &str, length: i64) -> (r: Result<
    PeriodPairings,
    DashParseError,
>)
    requires
        p < nodes.len(),
    ensures
        pairings_result(r) == period(xml::node_views(nodes@), p as int, base@, length as int),
{
    let ghost all = xml::node_views(nodes@);
    let d: i64 = match get_attribute(nodes, p, "duration") {
        Some(s) => match read_duration(s) {
            Ok(d) => d,
            Err(e) => {
                return Err(e);
            },
        },
        None => length,
    };
    let own = get_base_text(nodes, p);
    let b = match rebase(base, &own) {
        Ok(u) => u,
        Err(e) => {
            return Err(e);
        },
    };
    let parent_base: bool = find_child(nodes, p, "SegmentBase").is_some();
    let sets = find_children(nodes, p, "AdaptationSet");
    let ghost ss = xml::ints(sets@);
    let ghost at = Surroundings { base: b@, period: d as int, parent_base };
    let ghost want = period(all, p as int, base@, length as int);
    let ghost tracks = tracks_from(all, ss, at, 0, Seq::empty(), Seq::empty());
    let mut videos: Vec<Representation> = Vec::new();
    let mut audios: Vec<Representation> = Vec::new();
    assert(representation_views(videos@) =~= Seq::empty());
    assert(representation_views(audios@) =~= Seq::empty());
    let mut i: usize = 0;
    while i < sets.len()
        invariant
            i <= sets.len(),
            all == xml::node_views(nodes@),
            ss == xml::ints(sets@),
            at == (Surroundings { base: b@, period: d as int, parent_base }),
            forall|j: int| 0 <= j < sets@.len() ==> #[trigger] sets@[j] < nodes.len(),
            want == period(all, p as int, base@, length as int),
            tracks is Err ==> want == Err::<Seq<PairView>, DashErrorView>(tracks->Err_0),
            tracks == tracks_from(
                all,
                ss,
                at,
                i as int,
                representation_views(videos@),
                representation_views(audios@),
            ),
        decreases sets.len() - i,
    {
        assert(ss[i as int] == sets@[i as int] as int);
        match parse_adaptation_set(nodes, sets[i], b.as_str(), d, parent_base) {
            Err(e) => {
                return Err(e);
            },
            Ok(found) => {
                let mut found = found;
                let audio: bool = if found.len() > 0 {
                    assert(representation_views(found@)[0] == found@[0]@);
                    let ms = chars_of(found[0].mime_type.as_str());
                    starts_with(ms.as_slice(), "audio")
                } else {
                    false
                };
                if audio {
                    append_all(&mut audios, &mut found);
                } else {
                    append_all(&mut videos, &mut found);
                }
            },
        }
        i += 1;
    }
    Ok(pair_tracks(&videos, &audios))
}

// ---------------------------------------------------------------------------
// Manifests
// ---------------------------------------------------------------------------

/// The lengths of the first `n` periods put in front of `done`, worked out from
/// the last period to the first: a period with a duration has that length; one
/// with a start lasts until `last`, the moment at which what comes after it
/// begins. A period must have one of the two.
pub open spec fn period_lengths(
    nodes: Seq<XmlNodeView>,
    periods: Seq<int>,
    n: int,
    last: i64,
    total: i64,
    done: Seq<i64>,
) -> Result<Seq<i64>, DashErrorView>
    decreases n,
{
    if n <= 0 || n > periods.len() {
        Ok(done)
    } else {
        let p = periods[n - 1];
        match xml::attribute(nodes, p, "duration"@) {
            Some(s) => match duration_of(s) {
                Err(e) => Err(e),
                Ok(d) => period_lengths(
                    nodes,
                    periods,
                    n - 1,
                    total.wrapping_sub(d),
                    total,
                    seq![d] + done,
                ),
            },
            None => match xml::attribute(nodes, p, "start"@) {
                None => Err(DashErrorView::MissingPeriodTiming),
                Some(s) => match duration_of(s) {
                    Err(e) => Err(e),
                    Ok(start) => period_lengths(
                        nodes,
                        periods,
                        n - 1,
                        start,
                        total,
                        seq![last.wrapping_sub(start)] + done,
                    ),
                },
            },
        }
    }
}

/// `done` with the periods from position `from` on appended, or the first error.
pub open spec fn periods_from(
    nodes: Seq<XmlNodeView>,
    periods: Seq<int>,
    lengths: Seq<i64>,
    base: Seq<char>,
    from: int,
    done: Seq<Seq<PairView>>,
) -> Result<Seq<Seq<PairView>>, DashErrorView>
    decreases periods.len() - from,
{
    if from < 0 || from >= periods.len() {
        Ok(done)
    } else {
        match period(nodes, periods[from], base, lengths[from] as int) {
            Err(e) => Err(e),
            Ok(p) => periods_from(nodes, periods, lengths, base, from + 1, done.push(p)),
        }
    }
}

/// The periods of a manifest whose top element is `root`, found at `url`.
pub open spec fn manifest_periods(nodes: Seq<XmlNodeView>, root: int, url: Seq<char>) -> Result<
    Seq<Seq<PairView>>,
    DashErrorView,
> {
    let total = match xml::attribute(nodes, root, "mediaPresentationDuration"@) {
        Some(s) => duration_of(s),
        None => Ok(0i64),
    };
    let periods = xml::children(nodes, root, "Period"@);
    match total {
        Err(e) => Err(e),
        Ok(length) => match urls::parsed_url(url) {
            Err(e) => Err(DashErrorView::InvalidUrl(e)),
            Ok(u) => match rebased(u.text, base_text(nodes, root)) {
                Err(e) => Err(e),
                Ok(base) => if periods.len() == 0 {
                    Err(DashErrorView::NoPeriods)
                } else if periods.len() == 1 {
                    periods_from(nodes, periods, seq![length], base, 0, Seq::empty())
                } else {
                    match period_lengths(
                        nodes,
                        periods,
                        periods.len() as int,
                        length,
                        length,
                        Seq::empty(),
                    ) {
                        Err(e) => Err(e),
                        Ok(lengths) => periods_from(
                            nodes,
                            periods,
                            lengths,
                            base,
                            0,
                            Seq::empty(),
                        ),
                    }
                },
            },
        },
    }
}

/// The periods of the manifest that the nodes make up. A live manifest and an
/// encrypted one are refused.
pub open spec fn manifest_nodes(nodes: Seq<XmlNodeView>, url: Seq<char>) -> Result<
    Seq<Seq<PairView>>,
    DashErrorView,
> {
    let root = xml::top_element(nodes, 0);
    if nodes[root].name != "MPD"@ {
        Err(DashErrorView::MissingMpdRoot(nodes[root].name))
    } else if xml::attribute(nodes, root, "type"@) == Some("dynamic"@) {
        Err(DashErrorView::DynamicManifestUnsupported)
    } else if xml::has_element(nodes, "ContentProtection"@) {
        Err(DashErrorView::EncryptedManifestUnsupported)
    } else {
        manifest_periods(nodes, root, url)
    }
}

/// The periods of the manifest that a text writes, given the nodes that the text is
/// read as.
pub open spec fn manifest_read(read: Result<Seq<XmlNodeView>, Seq<char>>, url: Seq<char>) -> Result<
    Seq<Seq<PairView>>,
    DashErrorView,
> {
    match read {
        Err(e) => Err(DashErrorView::Xml(e)),
        Ok(nodes) => manifest_nodes(nodes, url),
    }
}

/// The periods of the manifest that a text writes.
pub open spec fn manifest(s: Seq<char>, url: Seq<char>) -> Result<
    Seq<Seq<PairView>>,
    DashErrorView,
> {
    manifest_read(xml::xml_nodes(s), url)
}

pub open spec fn period_views(v: Seq<PeriodPairings>) -> Seq<Seq<PairView>> {
    v.map_values(|p: PeriodPairings| pair_views(p@))
}

pub open spec fn manifest_result(r: Result<Vec<PeriodPairings>, DashParseError>) -> Result<
    Seq<Seq<PairView>>,
    DashErrorView,
> {
    match r {
        Ok(v) => Ok(period_views(v@)),
        Err(e) => Err(e@),
    }
}

/// Works out the lengths of a manifest's periods.
pub fn calculate_period_durations_if_missing(
    nodes: &Vec<XmlNode>,
    periods: &Vec<usize>,
    total: i64,
) -> (r: Result<Vec<i64>, DashParseError>)
    requires
        forall|j: int| 0 <= j < periods@.len() ==> #[trigger] periods@[j] < nodes.len(),
    ensures
        (match r {
            Ok(v) => Ok::<Seq<i64>, DashErrorView>(v@),
            Err(e) => Err(e@),
        }) == period_lengths(
            xml::node_views(nodes@),
            xml::ints(periods@),
            periods@.len() as int,
            total,
            total,
            Seq::empty(),
        ),
        r matches Ok(v) ==> v@.len() == periods@.len(),
{
    let ghost all = xml::node_views(nodes@);
    let ghost ps = xml::ints(periods@);
    let ghost want = period_lengths(all, ps, ps.len() as int, total, total, Seq::empty());
    let mut list: Vec<i64> = Vec::new();
    let mut last: i64 = total;
    let mut n: usize = periods.len();
    assert(list@ =~= Seq::empty());
    while n > 0
        invariant
            n <= periods.len(),
            all == xml::node_views(nodes@),
            ps == xml::ints(periods@),
            forall|j: int| 0 <= j < periods@.len() ==> #[trigger] periods@[j] < nodes.len(),
            list@.len() == periods@.len() - n,
            want == period_lengths(all, ps, ps.len() as int, total, total, Seq::empty()),
            want == period_lengths(all, ps, n as int, last, total, list@),
        decreases n,
    {
        let p: usize = periods[n - 1];
        assert(ps[n - 1] == p as int);
        let ghost before = list@;
        match get_attribute(nodes, p, "duration") {
            Some(s) => match read_duration(s) {
                Err(e) => {
                    return Err(e);
                },
                Ok(d) => {
                    list.insert(0, d);
                    assert(list@ =~= seq![d] + before);
                    last = total.wrapping_sub(d);
                },
            },
            None => match get_attribute(nodes, p, "start") {
                None => {
                    return Err(DashParseError::MissingPeriodTiming);
                },
                Some(s) => match read_duration(s) {
                    Err(e) => {
                        return Err(e);
                    },
                    Ok(start) => {
                        let v: i64 = last.wrapping_sub(start);
                        list.insert(0, v);
                        assert(list@ =~= seq![v] + before);
                        last = start;
                    },
                },
            },
        }
        n -= 1;
    }
    Ok(list)
}

fn parse_periods(nodes: &Vec<XmlNode>, periods: &Vec<usize>, lengths: &Vec<i64>, base: &str) -> (r:
    Result<Vec<PeriodPairings>, DashParseError>)
    requires
        forall|j: int| 0 <= j < periods@.len() ==> #[trigger] periods@[j] < nodes.len(),
        lengths@.len() == periods@.len(),
    ensures
        manifest_result(r) == periods_from(
            xml::node_views(nodes@),
            xml::ints(periods@),
            lengths@,
            base@,
            0,
            Seq::empty(),
        ),
{
    let ghost all = xml::node_views(nodes@);
    let ghost ps = xml::ints(periods@);
    let ghost want = periods_from(all, ps, lengths@, base@, 0, Seq::empty());
    let mut out: Vec<PeriodPairings> = Vec::new();
    let mut i: usize = 0;
    assert(period_views(out@) =~= Seq::empty());
    while i < periods.len()
        invariant
            i <= periods.len(),
            all == xml::node_views(nodes@),
            ps == xml::ints(periods@),
            lengths@.len() == periods@.len(),
            forall|j: int| 0 <= j < periods@.len() ==> #[trigger] periods@[j] < nodes.len(),
            want == periods_from(all, ps, lengths@, base@, 0, Seq::empty()),
            want == periods_from(all, ps, lengths@, base@, i as int, period_views(out@)),
        decreases periods.len() - i,
    {
        assert(ps[i as int] == periods@[i as int] as int);
        match parse_period(nodes, periods[i], base, lengths[i]) {
            Err(e) => {
                return Err(e);
            },
            Ok(p) => {
                let ghost before = out@;
                let ghost shown = pair_views(p@);
                out.push(p);
                assert(period_views(out@) =~= period_views(before).push(shown));
            },
        }
        i += 1;
    }
    Ok(out)
}

/// Reads a manifest from the nodes of its document.
pub fn parse_nodes(nodes: &Vec<XmlNode>, playlist_url: &str) -> (r: Result<
    Vec<PeriodPairings>,
    DashParseError,
>)
    requires
        xml::top_element(xml::node_views(nodes@), 0) < nodes@.len(),
    ensures
        manifest_result(r) == manifest_nodes(xml::node_views(nodes@), playlist_url@),
{
    let root: usize = find_top(nodes);
    assert(xml::node_views(nodes@)[root as int] == nodes@[root as int]@);
    if !str_eq(nodes[root].name.as_str(), "MPD") {
        return Err(DashParseError::MissingMpdRoot(nodes[root].name.clone()));
    }
    if let Some(kind) = get_attribute(nodes, root, "type") {
        if str_eq(kind.as_str(), "dynamic") {
            return Err(DashParseError::DynamicManifestUnsupported);
        }
    }
    if any_element(nodes, "ContentProtection") {
        return Err(DashParseError::EncryptedManifestUnsupported);
    }
    let total: i64 = match get_attribute(nodes, root, "mediaPresentationDuration") {
        Some(s) => match read_duration(s) {
            Ok(d) => d,
            Err(e) => {
                return Err(e);
            },
        },
        None => 0,
    };
    let url = match parse_url(playlist_url) {
        Ok(u) => u,
        Err(e) => {
            return Err(DashParseError::InvalidUrl(e));
        },
    };
    let own = get_base_text(nodes, root);
    let base = match rebase(url.text.as_str(), &own) {
        Ok(u) => u,
        Err(e) => {
            return Err(e);
        },
    };
    let periods = find_children(nodes, root, "Period");
    if periods.len() == 0 {
        return Err(DashParseError::NoPeriods);
    }
    let lengths: Vec<i64> = if periods.len() == 1 {
        let mut one: Vec<i64> = Vec::new();
        one.push(total);
        assert(one@ =~= seq![total]);
        one
    } else {
        match calculate_period_durations_if_missing(nodes, &periods, total) {
            Ok(v) => v,
            Err(e) => {
                return Err(e);
            },
        }
    };
    parse_periods(nodes, &periods, &lengths, base.as_str())
}

/// Reads the text of a manifest found at `playlist_url`: for every period, its
/// video and audio representations paired. Whether a text nests no deeper than can be
/// read, [`xml::is_shallow`] tells.
pub fn parse(manifest_text: &str, playlist_url: &str) -> (r: Result<
    Vec<PeriodPairings>,
    DashParseError,
>)
    requires
        xml::nesting(manifest_text@) <= xml::MAX_DEPTH,
    ensures
        manifest_result(r) == manifest_read(xml::xml_nodes(manifest_text@), playlist_url@),
{
    match parse_xml(manifest_text) {
        Err(e) => Err(DashParseError::Xml(e)),
        Ok(nodes) => parse_nodes(&nodes, playlist_url),
    }
}

// ---------------------------------------------------------------------------
// Laws
// ---------------------------------------------------------------------------

/// A period with both kinds of track pairs every video with every audio, each
/// pair once: the `i`-th video with the `j`-th audio stands at `i * audios + j`.
pub proof fn every_video_meets_every_audio(
    videos: Seq<RepresentationView>,
    audios: Seq<RepresentationView>,
    i: int,
    j: int,
)
    requires
        0 <= i < videos.len(),
        0 <= j < audios.len(),
    ensures
        pairings(videos, audios).len() == videos.len() * audios.len(),
        0 <= i * audios.len() + j < videos.len() * audios.len(),
        pairings(videos, audios)[i * audios.len() + j] == (Some(videos[i]), Some(audios[j])),
{
    lemma_cross(videos, audios);
    lemma_cross_at(videos, audios, i, j);
    let a = audios.len() as int;
    let v = videos.len() as int;
    assert(0 <= i * a && i * a + j < v * a) by (nonlinear_arith)
        requires
            0 <= i < v,
            0 <= j < a,
    ;
}

proof fn lemma_cross(videos: Seq<RepresentationView>, audios: Seq<RepresentationView>)
    ensures
        cross(videos, audios).len() == videos.len() * audios.len(),
    decreases videos.len(),
{
    if videos.len() > 0 {
        lemma_cross(videos.drop_last(), audios);
        let a = audios.len() as int;
        let v = videos.len() as int;
        assert((v - 1) * a + a == v * a) by (nonlinear_arith);
    }
}

proof fn lemma_cross_at(
    videos: Seq<RepresentationView>,
    audios: Seq<RepresentationView>,
    i: int,
    j: int,
)
    requires
        0 <= i < videos.len(),
        0 <= j < audios.len(),
    ensures
        cross(videos, audios)[i * audios.len() + j] == (Some(videos[i]), Some(audios[j])),
    decreases videos.len(),
{
    let front = videos.drop_last();
    lemma_cross(front, audios);
    let a = audios.len() as int;
    let n = front.len() as int;
    if i < n {
        lemma_cross_at(front, audios, i, j);
        assert(0 <= i * a && i * a + j < n * a) by (nonlinear_arith)
            requires
                0 <= i < n,
                0 <= j < a,
        ;
        assert(cross(videos, audios)[i * a + j] == cross(front, audios)[i * a + j]);
    } else {
        assert(i == n);
    }
}

/// The segments counted cover the period, and one fewer would not.
pub proof fn segments_cover_the_period(period: int, duration: int, timescale: int)
    requires
        period > 0,
        duration > 0,
        timescale > 0,
    ensures
        segment_count(period, duration, timescale) matches Some(n) && n * (1000 * duration)
            >= period * timescale && (n - 1) * (1000 * duration) < period * timescale,
{
    let c = period * timescale;
    let d = 1000 * duration;
    assert(c > 0) by (nonlinear_arith)
        requires
            period > 0,
            timescale > 0,
            c == period * timescale,
    ;
    let n = (c + d - 1) / d;
    assert(n * d >= c && (n - 1) * d < c) by (nonlinear_arith)
        requires
            n == (c + d - 1) / d,
            c > 0,
            d > 0,
    ;
}

/// Whether an error is about what a manifest holds, and not about its kind.
pub open spec fn of_content(e: DashErrorView) -> bool {
    !(e is DynamicManifestUnsupported) && !(e is EncryptedManifestUnsupported)
}

proof fn lemma_timeline_content(
    nodes: Seq<XmlNodeView>,
    entries: Seq<int>,
    from: int,
    media: Seq<char>,
    number: i64,
    time: i64,
    v: TokenValues,
)
    ensures
        timeline_refs(nodes, entries, from, media, number, time, v).1 matches Some(e) ==> of_content(e),
    decreases entries.len() - from,
{
    if 0 <= from < entries.len() {
        let s = entries[from];
        if let Some(text) = xml::attribute(nodes, s, "d"@) {
            if let Some(d) = number::parsed_int(text, i64::MIN as int, i64::MAX as int) {
                let begin = entry_time(nodes, s, time);
                let count = entry_count(nodes, s);
                lemma_timeline_content(
                    nodes,
                    entries,
                    from + 1,
                    media,
                    after_number(number, count),
                    after_time(begin, d as i64, count),
                    v,
                );
            }
        }
    }
}

proof fn lemma_body_content(
    nodes: Seq<XmlNodeView>,
    r: int,
    set: int,
    period: int,
    parent_base: bool,
)
    ensures
        body_of(nodes, r, set, period, parent_base) matches BodyView::Refs(refs) ==> (
        refs.stop matches Some(e) ==> of_content(e)),
{
    let tmpl = match xml::child(nodes, r, "SegmentTemplate"@) {
        Some(t) => Some(t),
        None => xml::child(nodes, set, "SegmentTemplate"@),
    };
    if let Some(t) = tmpl {
        let v = TokenValues {
            bandwidth: inherited(nodes, r, set, "bandwidth"@).unwrap_or("-1"@),
            id: xml::attribute(nodes, r, "id"@).unwrap_or(""@),
        };
        let start = number_or(xml::attribute(nodes, t, "startNumber"@), 1);
        if let Some(line) = xml::child(nodes, t, "SegmentTimeline"@) {
            if let Some(media) = xml::attribute(nodes, t, "media"@) {
                lemma_timeline_content(
                    nodes,
                    xml::children(nodes, line, "S"@),
                    0,
                    media,
                    start as i64,
                    0,
                    v,
                );
            }
        }
    }
}

proof fn lemma_refs_content(base: Seq<char>, refs: Seq<Seq<char>>, from: int, done: Seq<Seq<char>>)
    ensures
        resolved_refs(base, refs, from, done) matches Err(e) ==> of_content(e),
    decreases refs.len() - from,
{
    if 0 <= from < refs.len() {
        if let Ok(u) = urls::joined_url(base, refs[from]) {
            lemma_refs_content(base, refs, from + 1, done.push(u));
        }
    }
}

proof fn lemma_representation_content(
    nodes: Seq<XmlNodeView>,
    r: int,
    set: int,
    at: Surroundings,
)
    ensures
        representation(nodes, r, set, at) matches Err(e) ==> of_content(e),
{
    lemma_body_content(nodes, r, set, at.period, at.parent_base);
    if let Ok(Some(plan)) = plan_of(nodes, r, set, at.period, at.parent_base) {
        if let Ok(b) = rebased(at.base, plan.base) {
            if let BodyView::Refs(refs) = plan.body {
                lemma_refs_content(b, refs.list, 0, Seq::empty());
            }
        }
    }
}

proof fn lemma_representations_content(
    nodes: Seq<XmlNodeView>,
    list: Seq<int>,
    set: int,
    at: Surroundings,
    from: int,
    done: Seq<RepresentationView>,
)
    ensures
        representations_from(nodes, list, set, at, from, done) matches Err(e) ==> of_content(e),
    decreases list.len() - from,
{
    if 0 <= from < list.len() {
        lemma_representation_content(nodes, list[from], set, at);
        match representation(nodes, list[from], set, at) {
            Err(_) => {},
            Ok(Some(r)) => {
                lemma_representations_content(nodes, list, set, at, from + 1, done.push(r));
            },
            Ok(None) => {
                lemma_representations_content(nodes, list, set, at, from + 1, done);
            },
        }
    }
}

proof fn lemma_tracks_content(
    nodes: Seq<XmlNodeView>,
    sets: Seq<int>,
    at: Surroundings,
    from: int,
    videos: Seq<RepresentationView>,
    audios: Seq<RepresentationView>,
)
    ensures
        tracks_from(nodes, sets, at, from, videos, audios) matches Err(e) ==> of_content(e),
    decreases sets.len() - from,
{
    if 0 <= from < sets.len() {
        let set = sets[from];
        if let Ok(base) = rebased(at.base, base_text(nodes, set)) {
            lemma_representations_content(
                nodes,
                xml::children(nodes, set, "Representation"@),
                set,
                Surroundings { base, ..at },
                0,
                Seq::empty(),
            );
        }
        if let Ok(found) = adaptation_set(nodes, set, at) {
            lemma_tracks_content(nodes, sets, at, from + 1, videos, audios + found);
            lemma_tracks_content(nodes, sets, at, from + 1, videos + found, audios);
        }
    }
}

proof fn lemma_periods_content(
    nodes: Seq<XmlNodeView>,
    periods: Seq<int>,
    lengths: Seq<i64>,
    base: Seq<char>,
    from: int,
    done: Seq<Seq<PairView>>,
)
    ensures
        periods_from(nodes, periods, lengths, base, from, done) matches Err(e) ==> of_content(e),
    decreases periods.len() - from,
{
    if 0 <= from < periods.len() {
        let p = periods[from];
        let own = match xml::attribute(nodes, p, "duration"@) {
            Some(d) => duration_of(d),
            None => Ok(lengths[from]),
        };
        if let (Ok(d), Ok(b)) = (own, rebased(base, base_text(nodes, p))) {
            let at = Surroundings {
                base: b,
                period: d as int,
                parent_base: xml::child(nodes, p, "SegmentBase"@) is Some,
            };
            lemma_tracks_content(
                nodes,
                xml::children(nodes, p, "AdaptationSet"@),
                at,
                0,
                Seq::empty(),
                Seq::empty(),
            );
        }
        if let Ok(found) = period(nodes, p, base, lengths[from] as int) {
            lemma_periods_content(nodes, periods, lengths, base, from + 1, done.push(found));
        }
    }
}

proof fn lemma_lengths_content(
    nodes: Seq<XmlNodeView>,
    periods: Seq<int>,
    n: int,
    last: i64,
    total: i64,
    done: Seq<i64>,
)
    ensures
        period_lengths(nodes, periods, n, last, total, done) matches Err(e) ==> of_content(e),
    decreases n,
{
    if 0 < n <= periods.len() {
        let p = periods[n - 1];
        match xml::attribute(nodes, p, "duration"@) {
            Some(s) => {
                if let Ok(d) = duration_of(s) {
                    lemma_lengths_content(
                        nodes,
                        periods,
                        n - 1,
                        total.wrapping_sub(d),
                        total,
                        seq![d] + done,
                    );
                }
            },
            None => {
                if let Some(s) = xml::attribute(nodes, p, "start"@) {
                    if let Ok(start) = duration_of(s) {
                        lemma_lengths_content(
                            nodes,
                            periods,
                            n - 1,
                            start,
                            total,
                            seq![last.wrapping_sub(start)] + done,
                        );
                    }
                }
            },
        }
    }
}

/// A manifest is refused as a live one if and only if its top element says so, and
/// otherwise as an encrypted one if and only if it protects its content somewhere.
pub proof fn kinds_of_manifests_are_told_apart(nodes: Seq<XmlNodeView>, url: Seq<char>)
    requires
        nodes[xml::top_element(nodes, 0)].name == "MPD"@,
    ensures
        ({
            let root = xml::top_element(nodes, 0);
            let live = xml::attribute(nodes, root, "type"@) == Some("dynamic"@);
            let read = manifest_read(Ok(nodes), url);
            &&& read == Err::<Seq<Seq<PairView>>, DashErrorView>(
                DashErrorView::DynamicManifestUnsupported,
            ) <==> live
            &&& !live ==> (read == Err::<Seq<Seq<PairView>>, DashErrorView>(
                DashErrorView::EncryptedManifestUnsupported,
            ) <==> xml::has_element(nodes, "ContentProtection"@))
        }),
{
    let root = xml::top_element(nodes, 0);
    let total = match xml::attribute(nodes, root, "mediaPresentationDuration"@) {
        Some(s) => duration_of(s),
        None => Ok(0i64),
    };
    let periods = xml::children(nodes, root, "Period"@);
    if let (Ok(length), Ok(u)) = (total, urls::parsed_url(url)) {
        let n = periods.len() as int;
        lemma_lengths_content(nodes, periods, n, length, length, Seq::empty());
        if let Ok(base) = rebased(u.text, base_text(nodes, root)) {
            lemma_periods_content(nodes, periods, seq![length], base, 0, Seq::empty());
            let all = period_lengths(nodes, periods, n, length, length, Seq::empty());
            if let Ok(lengths) = all {
                lemma_periods_content(nodes, periods, lengths, base, 0, Seq::empty());
            }
        }
    }
    assert(manifest_periods(nodes, root, url) matches Err(e) ==> of_content(e));
}

// ---------------------------------------------------------------------------
// Laws of segments
// ---------------------------------------------------------------------------

proof fn lemma_between(time: int, step: int, k: int, j: int)
    requires
        0 <= j <= k,
        i64::MIN <= time <= i64::MAX,
        i64::MIN <= time + k * step <= i64::MAX,
    ensures
        i64::MIN <= time + j * step <= i64::MAX,
{
    assert(i64::MIN <= time + j * step <= i64::MAX) by (nonlinear_arith)
        requires
            0 <= j <= k,
            i64::MIN <= time <= i64::MAX,
            i64::MIN <= time + k * step <= i64::MAX,
    ;
}

/// In a run of segments the `k`-th reference, counted from 0, is the template with a
/// number that is greater by `k` and a time that is later by `k` durations, as long as
/// both stay within 64 bits.
pub proof fn segments_count_on(
    media: Seq<char>,
    number: i64,
    time: i64,
    step: i64,
    v: TokenValues,
    count: nat,
    k: int,
)
    requires
        0 <= k < count,
        number + k <= i64::MAX,
        i64::MIN <= time + k * step <= i64::MAX,
    ensures
        run_of_refs(media, number, time, step, v, count).len() == count,
        run_of_refs(media, number, time, step, v, count)[k] == template::expanded(
            media,
            number + k,
            time + k * step,
            v.bandwidth,
            v.id,
        ),
    decreases count,
{
    lemma_run_len(media, number, time, step, v, count);
    let rest = (count - 1) as nat;
    let n = number.wrapping_add(1);
    let t = time.wrapping_add(step);
    lemma_run_len(media, n, t, step, v, rest);
    if k > 0 {
        lemma_between(time as int, step as int, k, 1);
        assert(1 * step == step) by (nonlinear_arith);
        assert(n == number + 1);
        assert(t == time + step);
        assert(t + (k - 1) * step == time + k * step) by (nonlinear_arith)
            requires
                t == time + step,
        ;
        segments_count_on(media, n, t, step, v, rest, k - 1);
        assert(run_of_refs(media, number, time, step, v, count)[k] == run_of_refs(
            media,
            n,
            t,
            step,
            v,
            rest,
        )[k - 1]);
    } else {
        assert(0 * step == 0) by (nonlinear_arith);
    }
}

proof fn lemma_run_len(
    media: Seq<char>,
    number: i64,
    time: i64,
    step: i64,
    v: TokenValues,
    count: nat,
)
    ensures
        run_of_refs(media, number, time, step, v, count).len() == count,
    decreases count,
{
    if count > 0 {
        lemma_run_len(
            media,
            number.wrapping_add(1),
            time.wrapping_add(step),
            step,
            v,
            (count - 1) as nat,
        );
    }
}

proof fn lemma_after(number: i64, time: i64, step: i64, count: nat)
    requires
        number + count <= i64::MAX,
        i64::MIN <= time + count * step <= i64::MAX,
    ensures
        after_number(number, count) == number + count,
        after_time(time, step, count) == time + count * step,
    decreases count,
{
    if count > 0 {
        lemma_between(time as int, step as int, count as int, 1);
        assert(1 * step == step) by (nonlinear_arith);
        let rest = (count - 1) as nat;
        let t = time.wrapping_add(step);
        assert(t == time + step);
        assert(t + rest * step == time + count * step) by (nonlinear_arith)
            requires
                t == time + step,
                rest == count - 1,
        ;
        lemma_after(number.wrapping_add(1), t, step, rest);
    } else {
        assert(0 * step == 0) by (nonlinear_arith);
    }
}

/// An integer that an attribute writes.
pub open spec fn integer_at(nodes: Seq<XmlNodeView>, i: int, name: Seq<char>) -> Option<int> {
    match xml::attribute(nodes, i, name) {
        Some(s) => number::parsed_int(s, i64::MIN as int, i64::MAX as int),
        None => None,
    }
}

/// An entry of a timeline that says how long its segments are and how often it repeats
/// stands for that many segments and one more. They begin at the time that the entry
/// names, or where the entry before it ended, and follow one another without a gap. The
/// next entry goes on with the next number, where this one ended.
pub proof fn timelines_go_on_without_gaps(
    nodes: Seq<XmlNodeView>,
    entries: Seq<int>,
    from: int,
    media: Seq<char>,
    number: i64,
    time: i64,
    v: TokenValues,
    begin: int,
    d: int,
    more: int,
)
    requires
        0 <= from < entries.len(),
        integer_at(nodes, entries[from], "d"@) == Some(d),
        match integer_at(nodes, entries[from], "t"@) {
            Some(t) if t > 0 => begin == t,
            _ => begin == time,
        },
        match integer_at(nodes, entries[from], "r"@) {
            Some(r) if r > 0 => more == r,
            _ => more == 0,
        },
        number + more + 1 <= i64::MAX,
        i64::MIN <= begin + (more + 1) * d <= i64::MAX,
    ensures
        ({
            let (refs, stop) = timeline_refs(nodes, entries, from, media, number, time, v);
            let (rest, rest_stop) = timeline_refs(
                nodes,
                entries,
                from + 1,
                media,
                (number + more + 1) as i64,
                (begin + (more + 1) * d) as i64,
                v,
            );
            &&& stop == rest_stop
            &&& refs.len() == more + 1 + rest.len()
            &&& refs.skip(more + 1) == rest
            &&& forall|k: int|
                0 <= k <= more ==> #[trigger] refs[k] == template::expanded(
                    media,
                    number + k,
                    begin + k * d,
                    v.bandwidth,
                    v.id,
                )
        }),
{
    let s = entries[from];
    let b = entry_time(nodes, s, time);
    let count = entry_count(nodes, s);
    assert(b == begin);
    assert(count == more + 1);
    lemma_after(number, b, d as i64, count);
    let run = run_of_refs(media, number, b, d as i64, v, count);
    lemma_run_len(media, number, b, d as i64, v, count);
    let (refs, stop) = timeline_refs(nodes, entries, from, media, number, time, v);
    let (rest, rest_stop) = timeline_refs(
        nodes,
        entries,
        from + 1,
        media,
        after_number(number, count),
        after_time(b, d as i64, count),
        v,
    );
    assert(refs == run + rest);
    assert(refs.skip(more + 1) =~= rest);
    assert forall|k: int| 0 <= k <= more implies #[trigger] refs[k] == template::expanded(
        media,
        number + k,
        begin + k * d,
        v.bandwidth,
        v.id,
    ) by {
        lemma_between(begin, d, more + 1, k);
        segments_count_on(media, number, b, d as i64, v, count, k);
        assert(refs[k] == run[k]);
    }
}

/// A template with a timeline gives the initialisation segment that it names, and behind
/// it the segments of the timeline's entries, of which the first has the start number of
/// the template, or 1, and begins at 0 unless its entry names a time.
pub proof fn timelines_begin_at_the_start_number(
    nodes: Seq<XmlNodeView>,
    t: int,
    line: int,
    v: TokenValues,
    media: Seq<char>,
    start: int,
)
    requires
        xml::attribute(nodes, t, "media"@) == Some(media),
        xml::children(nodes, line, "S"@).len() > 0,
        match integer_at(nodes, t, "startNumber"@) {
            Some(n) => start == n,
            None => start == 1,
        },
    ensures
        ({
            let r = explicit_refs(nodes, t, line, v);
            let entries = xml::children(nodes, line, "S"@);
            let (refs, stop) = timeline_refs(nodes, entries, 0, media, start as i64, 0, v);
            &&& r.complete
            &&& r.stop == stop
            &&& xml::attribute(nodes, t, "initialization"@) is None ==> r.list == refs
            &&& xml::attribute(nodes, t, "initialization"@) matches Some(init) ==> {
                &&& r.list.len() == refs.len() + 1
                &&& r.list.skip(1) == refs
                &&& r.list[0] == template::expanded(init, start, 0, v.bandwidth, v.id)
            }
        }),
{
    let r = explicit_refs(nodes, t, line, v);
    let entries = xml::children(nodes, line, "S"@);
    let (refs, stop) = timeline_refs(nodes, entries, 0, media, start as i64, 0, v);
    if xml::attribute(nodes, t, "initialization"@) is Some {
        assert(r.list.skip(1) =~= refs);
    } else {
        assert(r.list =~= refs);
    }
}

/// A template without a timeline gives the initialisation segment that it names, and
/// behind it as many segments as cover the period: the `k`-th one, counted from 0, has
/// the start number, or 1, and `k` more.
pub proof fn templates_number_their_segments(
    nodes: Seq<XmlNodeView>,
    t: int,
    period: int,
    v: TokenValues,
    media: Seq<char>,
    start: int,
    duration: int,
    timescale: int,
    k: int,
)
    requires
        xml::attribute(nodes, t, "media"@) == Some(media),
        xml::attribute(nodes, t, "initialization"@) is None,
        match integer_at(nodes, t, "startNumber"@) {
            Some(n) => start == n,
            None => start == 1,
        },
        match integer_at(nodes, t, "duration"@) {
            Some(n) => duration == n,
            None => duration == 1,
        },
        match integer_at(nodes, t, "timescale"@) {
            Some(n) => timescale == n,
            None => timescale == 1,
        },
        0 < period <= i64::MAX,
        duration > 0,
        timescale > 0,
        k >= 0,
        start + k <= i64::MAX,
        start + k * duration <= i64::MAX,
        i64::MIN <= start,
    ensures
        ({
            let r = simple_refs(nodes, t, period, v);
            &&& r.complete
            &&& r.stop is None
            &&& k * (1000 * duration) < period * timescale && k < i64::MAX ==> k < r.list.len()
                && r.list[k] == template::expanded(
                media,
                start + k,
                start + k * duration,
                v.bandwidth,
                v.id,
            )
            &&& k * (1000 * duration) >= period * timescale ==> r.list.len() <= k
        }),
{
    let r = simple_refs(nodes, t, period, v);
    segments_cover_the_period(period, duration, timescale);
    let n = segment_count(period, duration, timescale)->0;
    let refs = run_of_refs(media, start as i64, start as i64, duration as i64, v, counted(n));
    lemma_run_len(media, start as i64, start as i64, duration as i64, v, counted(n));
    assert(r.list =~= refs);
    let d = 1000 * duration;
    let c = period * timescale;
    if k * d < c {
        assert(k < n) by (nonlinear_arith)
            requires
                k * d < c,
                n * d >= c,
                d > 0,
        ;
        if k < i64::MAX {
            assert(k * duration >= 0) by (nonlinear_arith)
                requires
                    k >= 0,
                    duration > 0,
            ;
            segments_count_on(
                media,
                start as i64,
                start as i64,
                duration as i64,
                v,
                counted(n),
                k,
            );
        }
    } else {
        assert(n <= k) by (nonlinear_arith)
            requires
                k * d >= c,
                (n - 1) * d < c,
                d > 0,
        ;
    }
}

/// References that resolve keep their number and order: each segment is the reference at
/// its place, resolved against the base.
pub proof fn segments_are_the_references(base: Seq<char>, refs: Seq<Seq<char>>, k: int)
    requires
        resolved_refs(base, refs, 0, Seq::empty()) is Ok,
        0 <= k < refs.len(),
    ensures
        resolved_refs(base, refs, 0, Seq::empty())->Ok_0.len() == refs.len(),
        urls::joined_url(base, refs[k]) == Ok::<Seq<char>, Seq<char>>(
            resolved_refs(base, refs, 0, Seq::empty())->Ok_0[k],
        ),
{
    lemma_resolved_refs(base, refs, 0, Seq::empty());
}

proof fn lemma_resolved_refs(base: Seq<char>, refs: Seq<Seq<char>>, from: int, done: Seq<Seq<char>>)
    requires
        0 <= from <= refs.len(),
        resolved_refs(base, refs, from, done) is Ok,
    ensures
        ({
            let all = resolved_refs(base, refs, from, done)->Ok_0;
            &&& all.len() == done.len() + refs.len() - from
            &&& all.take(done.len() as int) == done
            &&& forall|k: int|
                from <= k < refs.len() ==> urls::joined_url(base, #[trigger] refs[k]) == Ok::<
                    Seq<char>,
                    Seq<char>,
                >(all[done.len() + k - from])
        }),
    decreases refs.len() - from,
{
    let all = resolved_refs(base, refs, from, done)->Ok_0;
    if from < refs.len() {
        let u = urls::joined_url(base, refs[from])->Ok_0;
        lemma_resolved_refs(base, refs, from + 1, done.push(u));
        assert(all.take((done.len() + 1) as int) == done.push(u));
        assert(all[done.len() as int] == all.take((done.len() + 1) as int)[done.len() as int]);
        assert(all.take(done.len() as int) =~= done) by {
            assert forall|i: int| 0 <= i < done.len() implies all[i] == done[i] by {
                assert(all.take((done.len() + 1) as int)[i] == done.push(u)[i]);
            }
        }
    } else {
        assert(all.take(done.len() as int) =~= done);
    }
}

} // verus!

//! Laws of manifests: how long periods last, which tracks they offer, and what
//! a representation takes from the set around it.
use vstd::prelude::*;

use crate::dash;
use crate::dash::{BodyView, PairView, RepresentationView, Surroundings};
use crate::number;
use crate::text;
use crate::xml;
use crate::xml::XmlNodeView;
use crate::xs_duration;

verus! {

// ---------------------------------------------------------------------------
// Periods
// ---------------------------------------------------------------------------

/// The milliseconds that an attribute of an element states.
#[verifier::opaque]
pub open spec fn stated_millis(nodes: Seq<XmlNodeView>, i: int, name: Seq<char>) -> Option<i64> {
    match xml::attribute(nodes, i, name) {
        Some(s) => match xs_duration::xs_duration(s) {
            Some(d) => Some(d as i64),
            None => None,
        },
        None => None,
    }
}

/// When what follows period `k` begins: at the end of the presentation for the
/// last period, at the start of the next one, or as long before the end as the
/// next one lasts.
pub open spec fn next_begins(
    nodes: Seq<XmlNodeView>,
    periods: Seq<int>,
    k: int,
    total: i64,
) -> i64 {
    if k + 1 >= periods.len() {
        total
    } else if xml::attribute(nodes, periods[k + 1], "duration"@) is Some {
        total.wrapping_sub(stated_millis(nodes, periods[k + 1], "duration"@)->0)
    } else {
        stated_millis(nodes, periods[k + 1], "start"@)->0
    }
}

/// What is known of a period's length.
pub open spec fn is_length(
    nodes: Seq<XmlNodeView>,
    periods: Seq<int>,
    k: int,
    total: i64,
    length: i64,
) -> bool {
    if xml::attribute(nodes, periods[k], "duration"@) is Some {
        stated_millis(nodes, periods[k], "duration"@) == Some(length)
    } else {
        stated_millis(nodes, periods[k], "start"@) matches Some(s) && length == next_begins(
            nodes,
            periods,
            k,
            total,
        ).wrapping_sub(s)
    }
}

/// The length of period `p`, where what follows it begins at `last`.
pub open spec fn own_length(nodes: Seq<XmlNodeView>, p: int, last: i64) -> i64 {
    if xml::attribute(nodes, p, "duration"@) is Some {
        stated_millis(nodes, p, "duration"@)->0
    } else {
        last.wrapping_sub(stated_millis(nodes, p, "start"@)->0)
    }
}

/// When period `p` begins.
pub open spec fn own_start(nodes: Seq<XmlNodeView>, p: int, total: i64) -> i64 {
    if xml::attribute(nodes, p, "duration"@) is Some {
        total.wrapping_sub(stated_millis(nodes, p, "duration"@)->0)
    } else {
        stated_millis(nodes, p, "start"@)->0
    }
}

proof fn lemma_lengths_step(
    nodes: Seq<XmlNodeView>,
    periods: Seq<int>,
    n: int,
    last: i64,
    total: i64,
    done: Seq<i64>,
)
    requires
        0 < n <= periods.len(),
        dash::period_lengths(nodes, periods, n, last, total, done) is Ok,
    ensures
        dash::period_lengths(nodes, periods, n, last, total, done) == dash::period_lengths(
            nodes,
            periods,
            n - 1,
            own_start(nodes, periods[n - 1], total),
            total,
            seq![own_length(nodes, periods[n - 1], last)] + done,
        ),
        xml::attribute(nodes, periods[n - 1], "duration"@) is Some ==> stated_millis(
            nodes,
            periods[n - 1],
            "duration"@,
        ) is Some,
        xml::attribute(nodes, periods[n - 1], "duration"@) is None ==> stated_millis(
            nodes,
            periods[n - 1],
            "start"@,
        ) is Some,
{
    reveal(stated_millis);
}

proof fn lemma_lengths(
    nodes: Seq<XmlNodeView>,
    periods: Seq<int>,
    n: int,
    last: i64,
    total: i64,
    done: Seq<i64>,
)
    requires
        0 <= n <= periods.len(),
        done.len() == periods.len() - n,
        n > 0 ==> last == next_begins(nodes, periods, n - 1, total),
        forall|i: int|
            0 <= i < done.len() ==> is_length(nodes, periods, n + i, total, #[trigger] done[i]),
        dash::period_lengths(nodes, periods, n, last, total, done) is Ok,
    ensures
        ({
            let all = dash::period_lengths(nodes, periods, n, last, total, done)->Ok_0;
            &&& all.len() == periods.len()
            &&& forall|k: int|
                0 <= k < periods.len() ==> is_length(nodes, periods, k, total, #[trigger] all[k])
        }),
    decreases n,
{
    if n > 0 {
        lemma_lengths_step(nodes, periods, n, last, total, done);
        let p = periods[n - 1];
        let length = own_length(nodes, p, last);
        let more = seq![length] + done;
        assert(is_length(nodes, periods, n - 1, total, length));
        assert forall|i: int| 0 <= i < more.len() implies is_length(
            nodes,
            periods,
            n - 1 + i,
            total,
            #[trigger] more[i],
        ) by {
            if i > 0 {
                assert(more[i] == done[i - 1]);
                assert(is_length(nodes, periods, n + (i - 1), total, done[i - 1]));
            }
        }
        if n > 1 {
            assert(own_start(nodes, p, total) == next_begins(nodes, periods, n - 2, total));
        }
        lemma_lengths(nodes, periods, n - 1, own_start(nodes, p, total), total, more);
    } else {
        assert(dash::period_lengths(nodes, periods, n, last, total, done) == Ok::<
            Seq<i64>,
            dash::DashErrorView,
        >(done));
        assert forall|k: int| 0 <= k < periods.len() implies is_length(
            nodes,
            periods,
            k,
            total,
            #[trigger] done[k],
        ) by {
            assert(is_length(nodes, periods, n + k, total, done[k]));
        }
    }
}

/// A period that states its duration lasts that long. One that states its start
/// lasts until what follows it begins, and the last one to the end of the
/// presentation.
pub proof fn periods_last_until_the_next(
    nodes: Seq<XmlNodeView>,
    periods: Seq<int>,
    total: i64,
    k: int,
)
    requires
        0 <= k < periods.len(),
        dash::period_lengths(nodes, periods, periods.len() as int, total, total, Seq::empty()) is Ok,
    ensures
        ({
            let all = dash::period_lengths(
                nodes,
                periods,
                periods.len() as int,
                total,
                total,
                Seq::empty(),
            )->Ok_0;
            &&& all.len() == periods.len()
            &&& is_length(nodes, periods, k, total, all[k])
        }),
{
    lemma_lengths(nodes, periods, periods.len() as int, total, total, Seq::empty());
}

proof fn lemma_periods(
    nodes: Seq<XmlNodeView>,
    periods: Seq<int>,
    lengths: Seq<i64>,
    base: Seq<char>,
    from: int,
    done: Seq<Seq<PairView>>,
)
    requires
        0 <= from <= periods.len(),
        done.len() == from,
        forall|k: int|
            0 <= k < from ==> dash::period(nodes, periods[k], base, lengths[k] as int) == Ok::<
                Seq<PairView>,
                dash::DashErrorView,
            >(#[trigger] done[k]),
        dash::periods_from(nodes, periods, lengths, base, from, done) is Ok,
    ensures
        ({
            let all = dash::periods_from(nodes, periods, lengths, base, from, done)->Ok_0;
            &&& all.len() == periods.len()
            &&& forall|k: int|
                0 <= k < periods.len() ==> dash::period(nodes, periods[k], base, lengths[k] as int)
                    == Ok::<Seq<PairView>, dash::DashErrorView>(#[trigger] all[k])
        }),
    decreases periods.len() - from,
{
    if from < periods.len() {
        let p = dash::period(nodes, periods[from], base, lengths[from] as int)->Ok_0;
        assert forall|k: int| 0 <= k < from + 1 implies dash::period(
            nodes,
            periods[k],
            base,
            lengths[k] as int,
        ) == Ok::<Seq<PairView>, dash::DashErrorView>(#[trigger] done.push(p)[k]) by {
            if k < from {
                assert(done.push(p)[k] == done[k]);
            }
        }
        lemma_periods(nodes, periods, lengths, base, from + 1, done.push(p));
    }
}

/// A manifest offers its periods one by one and in order, each with its own
/// length.
pub proof fn periods_keep_their_order(
    nodes: Seq<XmlNodeView>,
    periods: Seq<int>,
    lengths: Seq<i64>,
    base: Seq<char>,
    k: int,
)
    requires
        0 <= k < periods.len(),
        dash::periods_from(nodes, periods, lengths, base, 0, Seq::empty()) is Ok,
    ensures
        ({
            let all = dash::periods_from(nodes, periods, lengths, base, 0, Seq::empty())->Ok_0;
            &&& all.len() == periods.len()
            &&& dash::period(nodes, periods[k], base, lengths[k] as int) == Ok::<
                Seq<PairView>,
                dash::DashErrorView,
            >(all[k])
        }),
{
    lemma_periods(nodes, periods, lengths, base, 0, Seq::empty());
}

// ---------------------------------------------------------------------------
// Tracks
// ---------------------------------------------------------------------------

/// Where a period has no audio, each video is offered alone; where it has no
/// video, each audio.
pub proof fn lone_tracks_are_offered_alone(tracks: Seq<RepresentationView>, i: int)
    requires
        0 <= i < tracks.len(),
    ensures
        dash::pairings(tracks, Seq::empty()).len() == tracks.len(),
        dash::pairings(tracks, Seq::empty())[i] == (Some(tracks[i]), None::<RepresentationView>),
        dash::pairings(Seq::empty(), tracks).len() == tracks.len(),
        dash::pairings(Seq::empty(), tracks)[i] == (None::<RepresentationView>, Some(tracks[i])),
{
}

/// Whether the representations of a set are audio: the first one says so.
pub open spec fn are_audio(found: Seq<RepresentationView>) -> bool {
    found.len() > 0 && found[0].mime_type.len() >= 5 && found[0].mime_type.take(5) == "audio"@
}

/// What set `k` offers.
pub open spec fn offered(
    nodes: Seq<XmlNodeView>,
    sets: Seq<int>,
    at: Surroundings,
    k: int,
) -> Seq<RepresentationView> {
    dash::adaptation_set(nodes, sets[k], at)->Ok_0
}

/// Every representation of the first `n` sets is among those of its kind, and
/// nothing else is.
pub open spec fn are_sorted_out(
    nodes: Seq<XmlNodeView>,
    sets: Seq<int>,
    at: Surroundings,
    n: int,
    videos: Seq<RepresentationView>,
    audios: Seq<RepresentationView>,
) -> bool {
    &&& forall|k: int, i: int|
        0 <= k < n && 0 <= i < offered(nodes, sets, at, k).len() ==> {
            let r = #[trigger] offered(nodes, sets, at, k)[i];
            if are_audio(offered(nodes, sets, at, k)) {
                audios.contains(r)
            } else {
                videos.contains(r)
            }
        }
    &&& forall|j: int|
        0 <= j < audios.len() ==> comes_from(nodes, sets, at, n, #[trigger] audios[j], true)
    &&& forall|j: int|
        0 <= j < videos.len() ==> comes_from(nodes, sets, at, n, #[trigger] videos[j], false)
}

/// Whether one of the first `n` sets of the kind offers `r`.
pub open spec fn comes_from(
    nodes: Seq<XmlNodeView>,
    sets: Seq<int>,
    at: Surroundings,
    n: int,
    r: RepresentationView,
    audio: bool,
) -> bool {
    exists|k: int|
        0 <= k < n && #[trigger] offered(nodes, sets, at, k).contains(r) && are_audio(
            offered(nodes, sets, at, k),
        ) == audio
}

proof fn lemma_sorted_on(
    nodes: Seq<XmlNodeView>,
    sets: Seq<int>,
    at: Surroundings,
    n: int,
    videos: Seq<RepresentationView>,
    audios: Seq<RepresentationView>,
)
    requires
        0 <= n < sets.len(),
        are_sorted_out(nodes, sets, at, n, videos, audios),
    ensures
        ({
            let found = offered(nodes, sets, at, n);
            if are_audio(found) {
                are_sorted_out(nodes, sets, at, n + 1, videos, audios + found)
            } else {
                are_sorted_out(nodes, sets, at, n + 1, videos + found, audios)
            }
        }),
{
    let found = offered(nodes, sets, at, n);
    let v = if are_audio(found) {
        videos
    } else {
        videos + found
    };
    let a = if are_audio(found) {
        audios + found
    } else {
        audios
    };
    assert forall|k: int, i: int|
        0 <= k < n + 1 && 0 <= i < offered(nodes, sets, at, k).len() implies {
        let r = #[trigger] offered(nodes, sets, at, k)[i];
        if are_audio(offered(nodes, sets, at, k)) {
            a.contains(r)
        } else {
            v.contains(r)
        }
    } by {
        let r = offered(nodes, sets, at, k)[i];
        if k < n {
            if are_audio(offered(nodes, sets, at, k)) {
                let j = choose|j: int| 0 <= j < audios.len() && audios[j] == r;
                assert(a[j] == r);
            } else {
                let j = choose|j: int| 0 <= j < videos.len() && videos[j] == r;
                assert(v[j] == r);
            }
        } else if are_audio(found) {
            assert(a[audios.len() + i] == r);
        } else {
            assert(v[videos.len() + i] == r);
        }
    }
    assert forall|j: int| 0 <= j < a.len() implies comes_from(
        nodes,
        sets,
        at,
        n + 1,
        #[trigger] a[j],
        true,
    ) by {
        if j < audios.len() {
            assert(comes_from(nodes, sets, at, n, audios[j], true));
            let k = choose|k: int|
                0 <= k < n && #[trigger] offered(nodes, sets, at, k).contains(audios[j])
                    && are_audio(offered(nodes, sets, at, k)) == true;
            assert(offered(nodes, sets, at, k).contains(a[j]));
        } else {
            assert(a[j] == found[j - audios.len()]);
            assert(offered(nodes, sets, at, n).contains(a[j]));
        }
    }
    assert forall|j: int| 0 <= j < v.len() implies comes_from(
        nodes,
        sets,
        at,
        n + 1,
        #[trigger] v[j],
        false,
    ) by {
        if j < videos.len() {
            assert(comes_from(nodes, sets, at, n, videos[j], false));
            let k = choose|k: int|
                0 <= k < n && #[trigger] offered(nodes, sets, at, k).contains(videos[j])
                    && are_audio(offered(nodes, sets, at, k)) == false;
            assert(offered(nodes, sets, at, k).contains(v[j]));
        } else {
            assert(v[j] == found[j - videos.len()]);
            assert(offered(nodes, sets, at, n).contains(v[j]));
        }
    }
}

proof fn lemma_tracks(
    nodes: Seq<XmlNodeView>,
    sets: Seq<int>,
    at: Surroundings,
    from: int,
    videos: Seq<RepresentationView>,
    audios: Seq<RepresentationView>,
)
    requires
        0 <= from <= sets.len(),
        are_sorted_out(nodes, sets, at, from, videos, audios),
        dash::tracks_from(nodes, sets, at, from, videos, audios) is Ok,
    ensures
        ({
            let (v, a) = dash::tracks_from(nodes, sets, at, from, videos, audios)->Ok_0;
            are_sorted_out(nodes, sets, at, sets.len() as int, v, a)
        }),
    decreases sets.len() - from,
{
    reveal_strlit("audio");
    if from < sets.len() {
        lemma_sorted_on(nodes, sets, at, from, videos, audios);
        let found = offered(nodes, sets, at, from);
        if are_audio(found) {
            lemma_tracks(nodes, sets, at, from + 1, videos, audios + found);
        } else {
            lemma_tracks(nodes, sets, at, from + 1, videos + found, audios);
        }
    }
}

/// Every representation of a period is among its audios or its videos, as the
/// first one of its set says, and none is there that no set offers.
pub proof fn tracks_are_sorted_out(nodes: Seq<XmlNodeView>, sets: Seq<int>, at: Surroundings)
    requires
        dash::tracks_from(nodes, sets, at, 0, Seq::empty(), Seq::empty()) is Ok,
    ensures
        ({
            let (videos, audios) = dash::tracks_from(
                nodes,
                sets,
                at,
                0,
                Seq::empty(),
                Seq::empty(),
            )->Ok_0;
            are_sorted_out(nodes, sets, at, sets.len() as int, videos, audios)
        }),
{
    lemma_tracks(nodes, sets, at, 0, Seq::empty(), Seq::empty());
}

// ---------------------------------------------------------------------------
// Representations
// ---------------------------------------------------------------------------

/// An attribute as a representation has it: its own, or else that of its set.
pub open spec fn own_or_set(
    nodes: Seq<XmlNodeView>,
    r: int,
    set: int,
    name: Seq<char>,
) -> Option<Seq<char>> {
    if xml::attribute(nodes, r, name) is Some {
        xml::attribute(nodes, r, name)
    } else {
        xml::attribute(nodes, set, name)
    }
}

/// A number that an attribute states, and -1 where there is none.
pub open spec fn is_number(v: Option<Seq<char>>, n: int) -> bool {
    match v {
        None => n == -1,
        Some(s) => exists|min: int, max: int| #[trigger]
            number::parsed_int(s, min, max) == Some(n),
    }
}

/// A representation has the size, the bandwidth, the codecs and the language
/// that its own attributes state, or else those of its set; it lasts as long
/// as its period, and it is audio or video.
pub proof fn representations_say_what_they_are(
    nodes: Seq<XmlNodeView>,
    r: int,
    set: int,
    at: Surroundings,
)
    requires
        dash::representation(nodes, r, set, at) matches Ok(Some(_)),
    ensures
        ({
            let x = (dash::representation(nodes, r, set, at)->Ok_0)->0;
            &&& is_number(own_or_set(nodes, r, set, "width"@), x.width as int)
            &&& is_number(own_or_set(nodes, r, set, "height"@), x.height as int)
            &&& is_number(own_or_set(nodes, r, set, "bandwidth"@), x.bandwidth as int)
            &&& x.codec == own_or_set(nodes, r, set, "codecs"@)
            &&& x.language == own_or_set(nodes, r, set, "lang"@)
            &&& x.duration_ms == at.period as i64
            &&& text::has_prefix(x.mime_type, "audio"@) || text::has_prefix(x.mime_type, "video"@)
            &&& x.segments.len() > 0
        }),
{
    let plan = (dash::plan_of(nodes, r, set, at.period, at.parent_base)->Ok_0)->0;
    let x = (dash::representation(nodes, r, set, at)->Ok_0)->0;
    let w = own_or_set(nodes, r, set, "width"@);
    let h = own_or_set(nodes, r, set, "height"@);
    let b = own_or_set(nodes, r, set, "bandwidth"@);
    if w is Some {
        assert(number::parsed_int(w->0, i32::MIN as int, i32::MAX as int) == Some(x.width as int));
    }
    if h is Some {
        assert(number::parsed_int(h->0, i32::MIN as int, i32::MAX as int) == Some(x.height as int));
    }
    if b is Some {
        assert(number::parsed_int(b->0, i64::MIN as int, i64::MAX as int) == Some(
            x.bandwidth as int,
        ));
    }
}

/// A representation whose own template numbers its segments does not look at
/// the template of its set.
pub proof fn own_templates_win(
    nodes: Seq<XmlNodeView>,
    r: int,
    set: int,
    other: int,
    period: int,
    parent_base: bool,
)
    requires
        xml::child(nodes, r, "SegmentTemplate"@) is Some,
        xml::attribute(nodes, r, "bandwidth"@) is Some,
    ensures
        dash::body_of(nodes, r, set, period, parent_base) == dash::body_of(
            nodes,
            r,
            other,
            period,
            parent_base,
        ),
{
}

/// A representation with an address of its own and nothing more, or in a
/// period that says so, is one segment: its base address.
pub proof fn based_representations_are_one_segment(
    nodes: Seq<XmlNodeView>,
    r: int,
    set: int,
    period: int,
    parent_base: bool,
)
    requires
        xml::child(nodes, r, "SegmentBase"@) is Some || parent_base,
    ensures
        dash::body_of(nodes, r, set, period, parent_base) == BodyView::Base,
{
}

proof fn lemma_media(nodes: Seq<XmlNodeView>, entries: Seq<int>)
    requires
        forall|i: int|
            0 <= i < entries.len() ==> xml::attribute(nodes, #[trigger] entries[i], "media"@) is Some,
    ensures
        dash::media_refs(nodes, entries).len() == entries.len(),
        forall|i: int|
            0 <= i < entries.len() ==> #[trigger] dash::media_refs(nodes, entries)[i]
                == xml::attribute(nodes, entries[i], "media"@)->0,
    decreases entries.len(),
{
    if entries.len() > 0 {
        let front = entries.drop_last();
        assert forall|i: int| 0 <= i < front.len() implies xml::attribute(
            nodes,
            #[trigger] front[i],
            "media"@,
        ) is Some by {
            assert(front[i] == entries[i]);
        }
        lemma_media(nodes, front);
        assert(entries[entries.len() - 1] == entries.last());
        assert forall|i: int| 0 <= i < entries.len() implies #[trigger] dash::media_refs(
            nodes,
            entries,
        )[i] == xml::attribute(nodes, entries[i], "media"@)->0 by {
            if i < front.len() {
                assert(front[i] == entries[i]);
                assert(dash::media_refs(nodes, front)[i] == xml::attribute(
                    nodes,
                    front[i],
                    "media"@,
                )->0);
            }
        }
    }
}

/// A list of segments gives its initialization first, and then the addresses
/// of its segments in order.
pub proof fn lists_give_their_segments_in_order(nodes: Seq<XmlNodeView>, list: int, c: int, i: int)
    requires
        xml::child(nodes, list, "Initialization"@) == Some(c),
        xml::attribute(nodes, c, "sourceURL"@) is Some,
        0 <= i < xml::children(nodes, list, "SegmentURL"@).len(),
        forall|j: int|
            0 <= j < xml::children(nodes, list, "SegmentURL"@).len() ==> xml::attribute(
                nodes,
                #[trigger] xml::children(nodes, list, "SegmentURL"@)[j],
                "media"@,
            ) is Some,
    ensures
        dash::list_refs(nodes, list).list.len() == 1 + xml::children(
            nodes,
            list,
            "SegmentURL"@,
        ).len(),
        dash::list_refs(nodes, list).list[0] == xml::attribute(nodes, c, "sourceURL"@)->0,
        dash::list_refs(nodes, list).list[i + 1] == xml::attribute(
            nodes,
            xml::children(nodes, list, "SegmentURL"@)[i],
            "media"@,
        )->0,
{
    lemma_media(nodes, xml::children(nodes, list, "SegmentURL"@));
    let refs = dash::media_refs(nodes, xml::children(nodes, list, "SegmentURL"@));
    assert(dash::list_refs(nodes, list).list[i + 1] == refs[i]);
}

// ---------------------------------------------------------------------------
// Elements
// ---------------------------------------------------------------------------

proof fn lemma_children(nodes: Seq<XmlNodeView>, i: int, name: Seq<char>, n: int)
    requires
        0 <= n <= nodes.len(),
    ensures
        forall|k: int|
            0 <= k < n ==> (#[trigger] xml::children_upto(nodes, i, name, n).contains(k) <==> (
            nodes[k].parent == Some(i as usize) && nodes[k].is_element && nodes[k].name == name)),
        forall|a: int|
            0 <= a < xml::children_upto(nodes, i, name, n).len() ==> 0
                <= #[trigger] xml::children_upto(nodes, i, name, n)[a] < n,
        forall|a: int, b: int|
            0 <= a < b < xml::children_upto(nodes, i, name, n).len() ==> (
            #[trigger] xml::children_upto(nodes, i, name, n)[a]) < (
            #[trigger] xml::children_upto(nodes, i, name, n)[b]),
    decreases n,
{
    if n > 0 {
        lemma_children(nodes, i, name, n - 1);
        let front = xml::children_upto(nodes, i, name, n - 1);
        let all = xml::children_upto(nodes, i, name, n);
        assert forall|k: int| 0 <= k < n implies (#[trigger] all.contains(k) <==> (nodes[k].parent
            == Some(i as usize) && nodes[k].is_element && nodes[k].name == name)) by {
            if all.contains(k) {
                let a = choose|a: int| 0 <= a < all.len() && all[a] == k;
                if a < front.len() {
                    assert(front[a] == k);
                    assert(front.contains(k));
                }
            }
            if k < n - 1 && nodes[k].parent == Some(i as usize) && nodes[k].is_element
                && nodes[k].name == name {
                assert(front.contains(k));
                let a = choose|a: int| 0 <= a < front.len() && front[a] == k;
                assert(all[a] == k);
            }
            if k == n - 1 && nodes[k].parent == Some(i as usize) && nodes[k].is_element
                && nodes[k].name == name {
                assert(all[front.len() as int] == k);
            }
        }
    }
}

/// The children of an element are the elements of that name directly in it, all
/// of them, once and in the order of the document.
pub proof fn children_are_the_elements_inside(
    nodes: Seq<XmlNodeView>,
    i: int,
    name: Seq<char>,
    k: int,
    a: int,
    b: int,
)
    requires
        0 <= k < nodes.len(),
    ensures
        xml::children(nodes, i, name).contains(k) <==> nodes[k].parent == Some(i as usize)
            && nodes[k].is_element && nodes[k].name == name,
        0 <= a < b < xml::children(nodes, i, name).len() ==> xml::children(nodes, i, name)[a]
            < xml::children(nodes, i, name)[b],
{
    lemma_children(nodes, i, name, nodes.len() as int);
    let all = xml::children_upto(nodes, i, name, nodes.len() as int);
    assert(xml::children(nodes, i, name) == all);
    if 0 <= a < b < all.len() {
        assert(all[a] < all[b]);
    }
}

proof fn lemma_child(nodes: Seq<XmlNodeView>, i: int, name: Seq<char>, k: int, from: int)
    requires
        0 <= from <= k < nodes.len(),
        xml::is_child(nodes, k, i, name),
        forall|j: int| from <= j < k ==> !xml::is_child(nodes, j, i, name),
    ensures
        xml::child_from(nodes, i, name, from) == k,
    decreases k - from,
{
    if from < k {
        lemma_child(nodes, i, name, k, from + 1);
    }
}

/// The child of an element is the first element of that name directly in it.
pub proof fn first_children_are_found(nodes: Seq<XmlNodeView>, i: int, name: Seq<char>, k: int)
    requires
        0 <= k < nodes.len(),
        nodes[k].parent == Some(i as usize) && nodes[k].is_element && nodes[k].name == name,
        forall|j: int|
            0 <= j < k ==> !((#[trigger] nodes[j]).parent == Some(i as usize) && nodes[j].is_element
                && nodes[j].name == name),
    ensures
        xml::child(nodes, i, name) == Some(k),
{
    assert forall|j: int| 0 <= j < k implies !xml::is_child(nodes, j, i, name) by {
        assert(!(nodes[j].parent == Some(i as usize) && nodes[j].is_element && nodes[j].name
            == name));
    }
    lemma_child(nodes, i, name, k, 0);
}

proof fn lemma_attribute(attrs: Seq<xml::XmlAttributeView>, name: Seq<char>, k: int, from: int)
    requires
        0 <= from <= k < attrs.len(),
        attrs[k].namespace is None && attrs[k].name == name,
        forall|j: int|
            from <= j < k ==> !((#[trigger] attrs[j]).namespace is None && attrs[j].name == name),
    ensures
        xml::attribute_from(attrs, name, from) == Some(attrs[k].value),
    decreases k - from,
{
    if from < k {
        assert(!(attrs[from].namespace is None && attrs[from].name == name));
        lemma_attribute(attrs, name, k, from + 1);
    }
}

/// The value of an attribute is that of the first attribute of the name that is
/// in no namespace.
pub proof fn attributes_are_found(nodes: Seq<XmlNodeView>, i: int, name: Seq<char>, k: int)
    requires
        0 <= k < nodes[i].attributes.len(),
        nodes[i].attributes[k].namespace is None && nodes[i].attributes[k].name == name,
        forall|j: int|
            0 <= j < k ==> !((#[trigger] nodes[i].attributes[j]).namespace is None
                && nodes[i].attributes[j].name == name),
    ensures
        xml::attribute(nodes, i, name) == Some(nodes[i].attributes[k].value),
{
    lemma_attribute(nodes[i].attributes, name, k, 0);
}

/// Sets for fast forward offer nothing.
pub proof fn fast_forward_is_left_out(nodes: Seq<XmlNodeView>, set: int, at: Surroundings, c: int)
    requires
        xml::child(nodes, set, "EssentialProperty"@) == Some(c) || xml::child(
            nodes,
            set,
            "SupplementalProperty"@,
        ) == Some(c),
        xml::attribute(nodes, c, "schemeIdUri"@) == Some("http://dashif.org/guidelines/trickmode"@),
    ensures
        dash::adaptation_set(nodes, set, at) matches Ok(found) ==> found.len() == 0,
{
}

proof fn lemma_representations(
    nodes: Seq<XmlNodeView>,
    list: Seq<int>,
    set: int,
    at: Surroundings,
    from: int,
    done: Seq<RepresentationView>,
    i: int,
)
    requires
        0 <= from <= list.len(),
        dash::representations_from(nodes, list, set, at, from, done) is Ok,
    ensures
        ({
            let all = dash::representations_from(nodes, list, set, at, from, done)->Ok_0;
            &&& all.len() >= done.len() && all.take(done.len() as int) == done
            &&& from <= i < list.len() ==> (dash::representation(nodes, list[i], set, at) matches Ok(
                Some(r),
            ) ==> all.contains(r))
        }),
    decreases list.len() - from,
{
    let all = dash::representations_from(nodes, list, set, at, from, done)->Ok_0;
    if from < list.len() {
        match dash::representation(nodes, list[from], set, at) {
            Ok(Some(r)) => {
                let more = done.push(r);
                lemma_representations(nodes, list, set, at, from + 1, more, i);
                assert(all.take(more.len() as int)[done.len() as int] == r);
                assert(all[done.len() as int] == r);
                assert(all.take(done.len() as int) =~= all.take(more.len() as int).take(
                    done.len() as int,
                ));
                assert(more.take(done.len() as int) =~= done);
            },
            _ => {
                lemma_representations(nodes, list, set, at, from + 1, done, i);
            },
        }
    } else {
        assert(all.take(done.len() as int) =~= done);
    }
}

/// Every representation of a set is offered, unless the set is for fast
/// forward: those that stand for audio or video and name their segments.
pub proof fn sets_offer_every_representation(
    nodes: Seq<XmlNodeView>,
    set: int,
    at: Surroundings,
    base: Seq<char>,
    i: int,
)
    requires
        dash::rebased(at.base, dash::base_text(nodes, set)) == Ok::<Seq<char>, dash::DashErrorView>(
            base,
        ),
        !dash::trick_mode(nodes, set),
        dash::adaptation_set(nodes, set, at) is Ok,
        0 <= i < xml::children(nodes, set, "Representation"@).len(),
    ensures
        dash::representation(
            nodes,
            xml::children(nodes, set, "Representation"@)[i],
            set,
            (Surroundings { base, ..at }),
        ) matches Ok(Some(r)) ==> dash::adaptation_set(nodes, set, at)->Ok_0.contains(r),
{
    lemma_representations(
        nodes,
        xml::children(nodes, set, "Representation"@),
        set,
        Surroundings { base, ..at },
        0,
        Seq::empty(),
        i,
    );
}

/// Without an address of its own an element takes the one around it; with one,
/// its own is resolved against that.
pub proof fn own_addresses_are_resolved(base: Seq<char>, own: Seq<char>)
    ensures
        dash::rebased(base, None) == Ok::<Seq<char>, dash::DashErrorView>(base),
        crate::urls::joined_url(base, own) matches Ok(u) ==> dash::rebased(base, Some(own)) == Ok::<
            Seq<char>,
            dash::DashErrorView,
        >(u),
        crate::urls::joined_url(base, own) is Err ==> dash::rebased(base, Some(own)) is Err,
{
}

} // verus!

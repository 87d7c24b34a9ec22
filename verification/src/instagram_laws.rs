//! Laws of what is found in the answers of Instagram.

use vstd::prelude::*;

use crate::instagram;
use crate::instagram::{Best, Found, MediaView};
use crate::json::JsonView;

verus! {

// ---------------------------------------------------------------------------
// The best resource
// ---------------------------------------------------------------------------

/// The address of an entry of a list, at one of two members.
pub open spec fn address(e: JsonView, a: Seq<char>, b: Seq<char>) -> Option<Seq<char>> {
    if e.text_at(a) is Some {
        e.text_at(a)
    } else {
        e.text_at(b)
    }
}

/// The width that an entry states.
pub open spec fn stated_width(e: JsonView) -> Option<int> {
    match e.get("config_width"@) {
        Some(w) => w.as_int(),
        None => match e.get("width"@) {
            Some(w) => w.as_int(),
            None => None,
        },
    }
}

/// Whether entry `i` of a list has an address and no other entry with one is wider. An
/// entry that states no width counts as having none.
pub open spec fn is_widest(s: Seq<JsonView>, i: int, a: Seq<char>, b: Seq<char>) -> bool {
    &&& 0 <= i < s.len()
    &&& address(s[i], a, b) is Some
    &&& forall|k: int|
        0 <= k < s.len() && address(#[trigger] s[k], a, b) is Some ==> stated_width(s[k]).unwrap_or(
            0,
        ) <= stated_width(s[i]).unwrap_or(0)
}

/// Whether entry `i` of a list has an address and no other entry with one is narrower. An
/// entry that states no width counts as the widest.
pub open spec fn is_narrowest(s: Seq<JsonView>, i: int, a: Seq<char>, b: Seq<char>) -> bool {
    &&& 0 <= i < s.len()
    &&& address(s[i], a, b) is Some
    &&& forall|k: int|
        0 <= k < s.len() && address(#[trigger] s[k], a, b) is Some ==> stated_width(s[i]).unwrap_or(
            i64::MAX as int,
        ) <= stated_width(s[k]).unwrap_or(i64::MAX as int)
}

/// Whether a list has an entry with an address.
pub open spec fn has_address(s: Seq<JsonView>, a: Seq<char>, b: Seq<char>) -> bool {
    exists|i: int| 0 <= i < s.len() && address(#[trigger] s[i], a, b) is Some
}

proof fn lemma_address(e: JsonView, keys: Seq<Seq<char>>, a: Seq<char>, b: Seq<char>)
    requires
        keys == seq![a, b] || (a == b && keys == seq![a]),
    ensures
        instagram::first_text_from(e, keys, 0) == address(e, a, b),
{
    reveal_with_fuel(instagram::first_text_from, 3);
}

proof fn lemma_best(
    s: Seq<JsonView>,
    keys: Seq<Seq<char>>,
    a: Seq<char>,
    b: Seq<char>,
    widest: bool,
    i: int,
    best: Option<Best>,
)
    requires
        keys == seq![a, b] || (a == b && keys == seq![a]),
        0 <= i <= s.len(),
    ensures
        ({
            let r = instagram::best_from(s, keys, widest, i, best);
            let default = if widest {
                0
            } else {
                i64::MAX as int
            };
            &&& best is Some ==> r is Some && (if widest {
                r->0.width >= best->0.width
            } else {
                r->0.width <= best->0.width
            })
            &&& forall|k: int|
                i <= k < s.len() && address(#[trigger] s[k], a, b) is Some ==> r is Some && (
                if widest {
                    r->0.width >= stated_width(s[k]).unwrap_or(default)
                } else {
                    r->0.width <= stated_width(s[k]).unwrap_or(default)
                })
            &&& r is Some ==> r == best || exists|k: int|
                i <= k < s.len() && address(#[trigger] s[k], a, b) == Some(r->0.src)
                    && stated_width(s[k]).unwrap_or(default) == r->0.width
        }),
    decreases s.len() - i,
{
    if i < s.len() {
        lemma_address(s[i], keys, a, b);
        let default = if widest {
            0
        } else {
            i64::MAX as int
        };
        assert(instagram::width_of(s[i], default) == stated_width(s[i]).unwrap_or(default));
        let next = match address(s[i], a, b) {
            Some(src) => {
                let width = stated_width(s[i]).unwrap_or(default);
                let better = match best {
                    Some(x) => if widest {
                        width >= x.width
                    } else {
                        width < x.width
                    },
                    None => true,
                };
                if better {
                    Some(Best { src, width })
                } else {
                    best
                }
            },
            None => best,
        };
        assert(instagram::best_from(s, keys, widest, i, best) == instagram::best_from(
            s,
            keys,
            widest,
            i + 1,
            next,
        ));
        lemma_best(s, keys, a, b, widest, i + 1, next);
    }
}

proof fn lemma_widest(
    list: Option<JsonView>,
    s: Seq<JsonView>,
    keys: Seq<Seq<char>>,
    a: Seq<char>,
    b: Seq<char>,
)
    requires
        keys == seq![a, b] || (a == b && keys == seq![a]),
        list == Some(JsonView::List(s)),
    ensures
        has_address(s, a, b) ==> exists|i: int|
            #[trigger] is_widest(s, i, a, b) && instagram::resource(list, keys, true) == address(
                s[i],
                a,
                b,
            ),
        !has_address(s, a, b) ==> instagram::resource(list, keys, true) is None,
        has_address(s, a, b) ==> exists|i: int|
            #[trigger] is_narrowest(s, i, a, b) && instagram::resource(list, keys, false)
                == address(s[i], a, b),
{
    lemma_best(s, keys, a, b, true, 0, None);
    lemma_best(s, keys, a, b, false, 0, None);
    if has_address(s, a, b) {
        let r = instagram::best_from(s, keys, true, 0, None)->0;
        let i = choose|k: int|
            0 <= k < s.len() && address(#[trigger] s[k], a, b) == Some(r.src) && stated_width(
                s[k],
            ).unwrap_or(0) == r.width;
        assert(is_widest(s, i, a, b));
        let q = instagram::best_from(s, keys, false, 0, None)->0;
        let n = choose|k: int|
            0 <= k < s.len() && address(#[trigger] s[k], a, b) == Some(q.src) && stated_width(
                s[k],
            ).unwrap_or(i64::MAX as int) == q.width;
        assert(is_narrowest(s, n, a, b));
    }
}

/// Whether a node shows a picture of its own: it says nowhere that it is a video, and does
/// not merely hold a carousel.
pub open spec fn shows_picture(j: JsonView) -> bool {
    &&& j.get("is_video"@) != Some(JsonView::Bool(true))
    &&& j.get("video_url"@) is None
    &&& j.get("video_resources"@) is None
    &&& j.get("media_type"@) matches Some(t) ==> t.as_int() != Some(2int)
    &&& j.get("edge_sidecar_to_children"@) is None
    &&& j.get("carousel_media"@) matches Some(JsonView::List(s)) ==> s.len() == 0
}

/// Whether a node shows a video of its own.
pub open spec fn shows_video(j: JsonView) -> bool {
    &&& j.get("is_video"@) == Some(JsonView::Bool(true)) || j.get("video_url"@) is Some || j.get(
        "video_resources"@,
    ) is Some || (j.get("media_type"@) matches Some(t) && t.as_int() == Some(2int))
    &&& j.get("edge_sidecar_to_children"@) is None
    &&& j.get("carousel_media"@) matches Some(JsonView::List(s)) ==> s.len() == 0
}

/// The picture of a node is the widest of its display resources that has an address.
pub proof fn pictures_are_the_widest(j: JsonView, s: Seq<JsonView>)
    requires
        shows_picture(j),
        j.get("display_resources"@) == Some(JsonView::List(s)),
        has_address(s, "src"@, "url"@),
    ensures
        exists|i: int|
            #[trigger] is_widest(s, i, "src"@, "url"@) && instagram::node_media(j) == Some(
                (address(s[i], "src"@, "url"@)->0, false),
            ),
{
    lemma_widest(
        j.get("display_resources"@),
        s,
        instagram::src_keys(),
        "src"@,
        "url"@,
    );
}

/// Without display resources the picture is the one that the node names, and without
/// that the widest of its candidates.
pub proof fn candidates_stand_in(j: JsonView, v: JsonView, s: Seq<JsonView>)
    requires
        shows_picture(j),
        j.get("display_resources"@) is None,
        j.get("image_versions2"@) == Some(v),
        v.get("candidates"@) == Some(JsonView::List(s)),
        has_address(s, "url"@, "url"@),
    ensures
        j.text_at("display_url"@) matches Some(u) ==> instagram::node_media(j) == Some((u, false)),
        j.text_at("display_url"@) is None ==> exists|i: int|
            #[trigger] is_widest(s, i, "url"@, "url"@) && instagram::node_media(j) == Some(
                (address(s[i], "url"@, "url"@)->0, false),
            ),
{
    lemma_widest(v.get("candidates"@), s, seq!["url"@], "url"@, "url"@);
}

/// The video of a node is the widest of its resources that has an address; without
/// resources the one that the node names, and without that the widest of its versions.
pub proof fn videos_are_the_widest(j: JsonView, s: Seq<JsonView>)
    requires
        shows_video(j),
    ensures
        j.get("video_resources"@) == Some(JsonView::List(s)) && has_address(s, "src"@, "url"@)
            ==> exists|i: int|
            #[trigger] is_widest(s, i, "src"@, "url"@) && instagram::node_media(j) == Some(
                (address(s[i], "src"@, "url"@)->0, true),
            ),
        j.get("video_resources"@) is None ==> (j.text_at("video_url"@) matches Some(u)
            ==> instagram::node_media(j) == Some((u, true))),
        j.get("video_resources"@) is None && j.text_at("video_url"@) is None && j.get(
            "video_versions"@,
        ) == Some(JsonView::List(s)) && has_address(s, "url"@, "url"@) ==> exists|i: int|
            #[trigger] is_widest(s, i, "url"@, "url"@) && instagram::node_media(j) == Some(
                (address(s[i], "url"@, "url"@)->0, true),
            ),
{
    if j.get("video_resources"@) == Some(JsonView::List(s)) {
        lemma_widest(j.get("video_resources"@), s, instagram::src_keys(), "src"@, "url"@);
    }
    if j.get("video_versions"@) == Some(JsonView::List(s)) {
        lemma_widest(j.get("video_versions"@), s, seq!["url"@], "url"@, "url"@);
    }
}

/// A node that only holds a carousel has no media of its own.
pub proof fn carousels_have_no_media(j: JsonView)
    requires
        j.get("edge_sidecar_to_children"@) is Some || (j.get("carousel_media"@) matches Some(
            JsonView::List(s),
        ) && s.len() > 0),
    ensures
        instagram::node_media(j) is None,
        instagram::item_in(j) is None,
{
}

/// A thumbnail is taken from the candidates of an image, and it is the narrowest of them.
pub proof fn thumbnails_are_the_narrowest(j: JsonView, v: JsonView, s: Seq<JsonView>)
    requires
        j is Object,
        j.get("cropped_image_version"@) is None,
        j.get("cover_image_version"@) is None,
        j.get("image_versions2"@) == Some(v),
        v.get("candidates"@) == Some(JsonView::List(s)),
        has_address(s, "url"@, "url"@),
    ensures
        exists|i: int|
            #[trigger] is_narrowest(s, i, "url"@, "url"@) && instagram::small_image(j) == address(
                s[i],
                "url"@,
                "url"@,
            ),
{
    lemma_widest(v.get("candidates"@), s, seq!["url"@], "url"@, "url"@);
}

// ---------------------------------------------------------------------------
// Everything is found
// ---------------------------------------------------------------------------

/// Whether a value is another one, or stands anywhere in it.
pub open spec fn holds(j: JsonView, n: JsonView) -> bool
    decreases j,
{
    j == n || match j {
        JsonView::Object(s) => members_hold(s, n),
        JsonView::List(s) => list_holds(s, n),
        _ => false,
    }
}

pub open spec fn list_holds(s: Seq<JsonView>, n: JsonView) -> bool
    decreases s,
{
    s.len() > 0 && (holds(s.last(), n) || list_holds(s.drop_last(), n))
}

pub open spec fn members_hold(s: Seq<(Seq<char>, JsonView)>, n: JsonView) -> bool
    decreases s,
{
    s.len() > 0 && (holds(s.last().1, n) || members_hold(s.drop_last(), n))
}

/// Whether what was found once is among what is found later.
pub open spec fn keeps(f: Found, g: Found) -> bool {
    &&& f.items.len() <= g.items.len() && g.items.take(f.items.len() as int) == f.items
    &&& forall|k: Seq<char>| f.seen.contains(k) ==> #[trigger] g.seen.contains(k)
}

proof fn lemma_keeps(f: Found, g: Found, h: Found)
    requires
        keeps(f, g),
        keeps(g, h),
    ensures
        keeps(f, h),
{
    assert(h.items.take(f.items.len() as int) =~= h.items.take(g.items.len() as int).take(
        f.items.len() as int,
    ));
}

proof fn lemma_with(f: Found, m: MediaView)
    ensures
        keeps(f, f.with(m)),
        f.with(m).seen.contains(instagram::item_key(m)),
{
    let g = f.with(m);
    assert(g.items.take(f.items.len() as int) =~= f.items);
    if !f.seen.contains(instagram::item_key(m)) {
        assert(g.seen[f.seen.len() as int] == instagram::item_key(m));
        assert forall|k: Seq<char>| f.seen.contains(k) implies #[trigger] g.seen.contains(k) by {
            let i = choose|i: int| 0 <= i < f.seen.len() && f.seen[i] == k;
            assert(g.seen[i] == k);
        }
    }
}

proof fn lemma_same(f: Found)
    ensures
        keeps(f, f),
{
    assert(f.items.take(f.items.len() as int) =~= f.items);
}

proof fn lemma_walk_keeps(j: JsonView, f: Found)
    ensures
        keeps(f, instagram::walked(j, f)),
    decreases j,
{
    lemma_same(f);
    match j {
        JsonView::Object(s) => {
            let own = f.with_node(j);
            if let Some(m) = instagram::item_in(j) {
                lemma_with(f, m);
            }
            lemma_members_keep(s, own);
            lemma_keeps(f, own, instagram::walked_members(s, own));
        },
        JsonView::List(s) => {
            lemma_list_keeps(s, f);
        },
        _ => {},
    }
}

proof fn lemma_list_keeps(s: Seq<JsonView>, f: Found)
    ensures
        keeps(f, instagram::walked_list(s, f)),
    decreases s,
{
    lemma_same(f);
    if s.len() > 0 {
        let g = instagram::walked_list(s.drop_last(), f);
        lemma_list_keeps(s.drop_last(), f);
        lemma_walk_keeps(s.last(), g);
        lemma_keeps(f, g, instagram::walked(s.last(), g));
    }
}

proof fn lemma_members_keep(s: Seq<(Seq<char>, JsonView)>, f: Found)
    ensures
        keeps(f, instagram::walked_members(s, f)),
    decreases s,
{
    lemma_same(f);
    if s.len() > 0 {
        let g = instagram::walked_members(s.drop_last(), f);
        lemma_members_keep(s.drop_last(), f);
        lemma_walk_keeps(s.last().1, g);
        lemma_keeps(f, g, instagram::walked(s.last().1, g));
    }
}

/// Every node with media, however deep it stands in an answer, is collected: afterwards an
/// item with its key is there. What was collected before stays.
pub proof fn every_item_is_collected(j: JsonView, n: JsonView, f: Found)
    requires
        f.told_apart(),
        holds(j, n),
        n is Object,
        instagram::item_in(n) is Some,
    ensures
        ({
            let g = instagram::walked(j, f);
            &&& g.items.len() >= f.items.len() && g.items.take(f.items.len() as int) == f.items
            &&& exists|i: int|
                0 <= i < g.items.len() && instagram::item_key(#[trigger] g.items[i])
                    == instagram::item_key(instagram::item_in(n)->0)
        }),
{
    let g = instagram::walked(j, f);
    let key = instagram::item_key(instagram::item_in(n)->0);
    instagram::items_are_collected_once(j, f);
    lemma_walk_keeps(j, f);
    lemma_walk_finds(j, n, f);
    let i = choose|i: int| 0 <= i < g.seen.len() && g.seen[i] == key;
    assert(g.seen == g.items.map_values(|m: MediaView| instagram::item_key(m)));
    assert(instagram::item_key(g.items[i]) == key);
}

proof fn lemma_walk_finds(j: JsonView, n: JsonView, f: Found)
    requires
        holds(j, n),
        n is Object,
        instagram::item_in(n) is Some,
    ensures
        instagram::walked(j, f).seen.contains(instagram::item_key(instagram::item_in(n)->0)),
    decreases j,
{
    match j {
        JsonView::Object(s) => {
            let own = f.with_node(j);
            if j == n {
                lemma_with(f, instagram::item_in(n)->0);
                lemma_members_keep(s, own);
            } else {
                lemma_members_find(s, n, own);
            }
        },
        JsonView::List(s) => {
            lemma_list_finds(s, n, f);
        },
        _ => {},
    }
}

proof fn lemma_list_finds(s: Seq<JsonView>, n: JsonView, f: Found)
    requires
        list_holds(s, n),
        n is Object,
        instagram::item_in(n) is Some,
    ensures
        instagram::walked_list(s, f).seen.contains(instagram::item_key(instagram::item_in(n)->0)),
    decreases s,
{
    let g = instagram::walked_list(s.drop_last(), f);
    if holds(s.last(), n) {
        lemma_walk_finds(s.last(), n, g);
    } else {
        lemma_list_finds(s.drop_last(), n, f);
        lemma_walk_keeps(s.last(), g);
    }
}

proof fn lemma_members_find(s: Seq<(Seq<char>, JsonView)>, n: JsonView, f: Found)
    requires
        members_hold(s, n),
        n is Object,
        instagram::item_in(n) is Some,
    ensures
        instagram::walked_members(s, f).seen.contains(
            instagram::item_key(instagram::item_in(n)->0),
        ),
    decreases s,
{
    let g = instagram::walked_members(s.drop_last(), f);
    if holds(s.last().1, n) {
        lemma_walk_finds(s.last().1, n, g);
    } else {
        lemma_members_find(s.drop_last(), n, f);
        lemma_walk_keeps(s.last().1, g);
    }
}

/// Whether an item is that of a node that stands in a value.
pub open spec fn comes_from(m: MediaView, j: JsonView) -> bool {
    exists|n: JsonView| #[trigger] holds(j, n) && instagram::item_in(n) == Some(m)
}

/// Nothing else is collected: every new item is that of a node in the answer.
pub proof fn only_items_are_collected(j: JsonView, f: Found, i: int)
    requires
        f.items.len() <= i < instagram::walked(j, f).items.len(),
    ensures
        comes_from(instagram::walked(j, f).items[i], j),
    decreases j,
{
    let m = instagram::walked(j, f).items[i];
    match j {
        JsonView::Object(s) => {
            let own = f.with_node(j);
            lemma_members_keep(s, own);
            if i < own.items.len() {
                assert(instagram::walked_members(s, own).items.take(own.items.len() as int)[i]
                    == own.items[i]);
                assert(holds(j, j));
            } else {
                lemma_only_members(s, own, i);
                let n = choose|n: JsonView|
                    #[trigger] members_hold(s, n) && instagram::item_in(n) == Some(m);
                assert(holds(j, n));
            }
        },
        JsonView::List(s) => {
            lemma_only_list(s, f, i);
            let n = choose|n: JsonView|
                #[trigger] list_holds(s, n) && instagram::item_in(n) == Some(m);
            assert(holds(j, n));
        },
        _ => {},
    }
}

proof fn lemma_only_list(s: Seq<JsonView>, f: Found, i: int)
    requires
        f.items.len() <= i < instagram::walked_list(s, f).items.len(),
    ensures
        exists|n: JsonView|
            #[trigger] list_holds(s, n) && instagram::item_in(n) == Some(
                instagram::walked_list(s, f).items[i],
            ),
    decreases s,
{
    let m = instagram::walked_list(s, f).items[i];
    let g = instagram::walked_list(s.drop_last(), f);
    lemma_walk_keeps(s.last(), g);
    if i < g.items.len() {
        assert(instagram::walked(s.last(), g).items.take(g.items.len() as int)[i] == g.items[i]);
        lemma_only_list(s.drop_last(), f, i);
        let n = choose|n: JsonView|
            #[trigger] list_holds(s.drop_last(), n) && instagram::item_in(n) == Some(m);
        assert(list_holds(s, n));
    } else {
        only_items_are_collected(s.last(), g, i);
        let n = choose|n: JsonView| #[trigger] holds(s.last(), n) && instagram::item_in(n) == Some(m);
        assert(list_holds(s, n));
    }
}

proof fn lemma_only_members(s: Seq<(Seq<char>, JsonView)>, f: Found, i: int)
    requires
        f.items.len() <= i < instagram::walked_members(s, f).items.len(),
    ensures
        exists|n: JsonView|
            #[trigger] members_hold(s, n) && instagram::item_in(n) == Some(
                instagram::walked_members(s, f).items[i],
            ),
    decreases s,
{
    let m = instagram::walked_members(s, f).items[i];
    let g = instagram::walked_members(s.drop_last(), f);
    lemma_walk_keeps(s.last().1, g);
    if i < g.items.len() {
        assert(instagram::walked(s.last().1, g).items.take(g.items.len() as int)[i] == g.items[i]);
        lemma_only_members(s.drop_last(), f, i);
        let n = choose|n: JsonView|
            #[trigger] members_hold(s.drop_last(), n) && instagram::item_in(n) == Some(m);
        assert(members_hold(s, n));
    } else {
        only_items_are_collected(s.last().1, g, i);
        let n = choose|n: JsonView|
            #[trigger] holds(s.last().1, n) && instagram::item_in(n) == Some(m);
        assert(members_hold(s, n));
    }
}

/// Whether an object names an account as its owner or its user.
pub open spec fn names_owner(n: JsonView, name: Seq<char>) -> bool {
    n is Object && ((n.get("owner"@) matches Some(o) && o.text_at("username"@) == Some(name)) || (
    n.get("user"@) matches Some(u) && u.text_at("username"@) == Some(name)))
}

/// The owner of an answer is found wherever it is named, and nobody else is.
pub proof fn owners_are_found(j: JsonView)
    ensures
        instagram::owner_in(j) matches Some(name) ==> exists|n: JsonView|
            #[trigger] holds(j, n) && names_owner(n, name),
        forall|n: JsonView, name: Seq<char>|
            #[trigger] holds(j, n) && #[trigger] names_owner(n, name) ==> instagram::owner_in(
                j,
            ) is Some,
    decreases j, 0int,
{
    match j {
        JsonView::Object(s) => {
            lemma_owner_members(s, 0);
            if let Some(name) = instagram::own_owner(j) {
                assert(holds(j, j) && names_owner(j, name));
            } else if let Some(name) = instagram::owner_in_members(s, 0) {
                let n = choose|n: JsonView| #[trigger] members_hold(s, n) && names_owner(n, name);
                assert(holds(j, n));
            }
            assert forall|n: JsonView, name: Seq<char>|
                #[trigger] holds(j, n) && #[trigger] names_owner(n, name) implies instagram::owner_in(
                j,
            ) is Some by {
                if j != n {
                    lemma_members_at(s, n);
                }
            }
        },
        JsonView::List(s) => {
            lemma_owner_list(s, 0);
            if let Some(name) = instagram::owner_in_list(s, 0) {
                let n = choose|n: JsonView| #[trigger] list_holds(s, n) && names_owner(n, name);
                assert(holds(j, n));
            }
            assert forall|n: JsonView, name: Seq<char>|
                #[trigger] holds(j, n) && #[trigger] names_owner(n, name) implies instagram::owner_in(
                j,
            ) is Some by {
                if j != n {
                    lemma_list_at(s, n);
                }
            }
        },
        _ => {},
    }
}

proof fn lemma_list_at(s: Seq<JsonView>, n: JsonView)
    requires
        list_holds(s, n),
    ensures
        exists|i: int| 0 <= i < s.len() && holds(#[trigger] s[i], n),
    decreases s.len(),
{
    if holds(s.last(), n) {
        assert(holds(s[s.len() - 1], n));
    } else {
        lemma_list_at(s.drop_last(), n);
        let i = choose|i: int|
            0 <= i < s.drop_last().len() && holds(#[trigger] s.drop_last()[i], n);
        assert(holds(s[i], n));
    }
}

proof fn lemma_members_at(s: Seq<(Seq<char>, JsonView)>, n: JsonView)
    requires
        members_hold(s, n),
    ensures
        exists|i: int| 0 <= i < s.len() && holds((#[trigger] s[i]).1, n),
    decreases s.len(),
{
    if holds(s.last().1, n) {
        assert(holds(s[s.len() - 1].1, n));
    } else {
        lemma_members_at(s.drop_last(), n);
        let i = choose|i: int|
            0 <= i < s.drop_last().len() && holds((#[trigger] s.drop_last()[i]).1, n);
        assert(holds(s[i].1, n));
    }
}

proof fn lemma_list_has(s: Seq<JsonView>, i: int, n: JsonView)
    requires
        0 <= i < s.len(),
        holds(s[i], n),
    ensures
        list_holds(s, n),
    decreases s.len(),
{
    if i < s.len() - 1 {
        lemma_list_has(s.drop_last(), i, n);
    }
}

proof fn lemma_members_have(s: Seq<(Seq<char>, JsonView)>, i: int, n: JsonView)
    requires
        0 <= i < s.len(),
        holds(s[i].1, n),
    ensures
        members_hold(s, n),
    decreases s.len(),
{
    if i < s.len() - 1 {
        lemma_members_have(s.drop_last(), i, n);
    }
}

proof fn lemma_owner_list(s: Seq<JsonView>, i: int)
    requires
        0 <= i <= s.len(),
    ensures
        instagram::owner_in_list(s, i) matches Some(name) ==> exists|n: JsonView|
            #[trigger] list_holds(s, n) && names_owner(n, name),
        forall|k: int, n: JsonView, name: Seq<char>|
            i <= k < s.len() && #[trigger] holds(s[k], n) && #[trigger] names_owner(n, name)
                ==> instagram::owner_in_list(s, i) is Some,
    decreases s, s.len() - i,
{
    if i < s.len() {
        owners_are_found(s[i]);
        lemma_owner_list(s, i + 1);
        if let Some(name) = instagram::owner_in(s[i]) {
            let n = choose|n: JsonView| #[trigger] holds(s[i], n) && names_owner(n, name);
            lemma_list_has(s, i, n);
        }
    }
}

proof fn lemma_owner_members(s: Seq<(Seq<char>, JsonView)>, i: int)
    requires
        0 <= i <= s.len(),
    ensures
        instagram::owner_in_members(s, i) matches Some(name) ==> exists|n: JsonView|
            #[trigger] members_hold(s, n) && names_owner(n, name),
        forall|k: int, n: JsonView, name: Seq<char>|
            i <= k < s.len() && #[trigger] holds(s[k].1, n) && #[trigger] names_owner(n, name)
                ==> instagram::owner_in_members(s, i) is Some,
    decreases s, s.len() - i,
{
    if i < s.len() {
        owners_are_found(s[i].1);
        lemma_owner_members(s, i + 1);
        if let Some(name) = instagram::owner_in(s[i].1) {
            let n = choose|n: JsonView| #[trigger] holds(s[i].1, n) && names_owner(n, name);
            lemma_members_have(s, i, n);
        }
    }
}

// ---------------------------------------------------------------------------
// What an item says
// ---------------------------------------------------------------------------

/// An item carries the identifier, the time and the code of its node, each
/// under the first of the names that it may stand under.
pub proof fn items_say_what_their_node_says(j: JsonView, s: Seq<char>, n: int)
    requires
        instagram::item_in(j) is Some,
    ensures
        ({
            let m = instagram::item_in(j)->0;
            &&& j.get("id"@) == Some(JsonView::Text(s)) ==> m.id == s
            &&& j.get("id"@) is None && j.get("pk"@) == Some(JsonView::Number(s)) ==> m.id == s
            &&& j.get("id"@) is None && j.get("pk"@) is None ==> m.id.len() == 0
            &&& j.get("shortcode"@) == Some(JsonView::Text(s)) ==> m.shortcode == Some(s)
            &&& j.get("shortcode"@) is None && j.get("code"@) == Some(JsonView::Text(s))
                ==> m.shortcode == Some(s)
            &&& j.get("taken_at_timestamp"@) is Some ==> m.timestamp == j.get(
                "taken_at_timestamp"@,
            )->0.as_int()
            &&& j.get("taken_at_timestamp"@) is None && j.get("taken_at"@) is Some ==> m.timestamp
                == j.get("taken_at"@)->0.as_int()
            &&& j.get("is_video"@) == Some(JsonView::Bool(true)) ==> m.is_video
            &&& j.get("video_url"@) is Some ==> m.is_video
            &&& j.get("is_video"@) is None && j.get("video_url"@) is None && j.get(
                "video_resources"@,
            ) is None && j.get("media_type"@) is None ==> !m.is_video
        }),
{
    if j.get("is_video"@) == Some(JsonView::Bool(true)) {
        assert(j.get("is_video"@)->0.as_truth() == Some(true));
    }
    if j.get("shortcode"@) == Some(JsonView::Text(s)) {
        assert(j.get("shortcode"@)->0.as_text() == Some(s));
    }
    if j.get("code"@) == Some(JsonView::Text(s)) {
        assert(j.get("code"@)->0.as_text() == Some(s));
    }
}

/// The account of an object is its owner, or else its user.
pub proof fn owners_go_before_users(j: JsonView, owner: JsonView, user: JsonView, name: Seq<char>)
    requires
        j is Object,
    ensures
        j.get("owner"@) == Some(owner) && owner.text_at("username"@) == Some(name)
            ==> instagram::owner_in(j) == Some(name),
        j.get("owner"@) is None && j.get("user"@) == Some(user) && user.text_at("username"@) == Some(
            name,
        ) ==> instagram::owner_in(j) == Some(name),
{
}

/// A picture that was cropped for the cover is shown first; without pictures of
/// several sizes, the thumbnail is shown, and else the picture itself.
pub proof fn covers_are_shown_first(j: JsonView, cover: JsonView, url: Seq<char>, other: Seq<char>)
    requires
        j is Object,
    ensures
        j.get("cropped_image_version"@) == Some(cover) && cover.text_at("url"@) == Some(url)
            ==> instagram::small_image(j) == Some(url),
        j.get("cropped_image_version"@) is None && j.get("cover_image_version"@) == Some(cover)
            && cover.text_at("url"@) == Some(url) ==> instagram::small_image(j) == Some(url),
        j.get("cropped_image_version"@) is None && j.get("cover_image_version"@) is None && j.get(
            "image_versions2"@,
        ) is None && j.get("display_resources"@) is None && j.text_at("thumbnail_src"@) == Some(url)
            ==> instagram::small_image(j) == Some(url),
        j.get("cropped_image_version"@) is None && j.get("cover_image_version"@) is None && j.get(
            "image_versions2"@,
        ) is None && j.get("display_resources"@) is None && j.text_at("thumbnail_src"@) is None
            && j.text_at("display_url"@) == Some(other) ==> instagram::small_image(j) == Some(other),
{
}

} // verus!

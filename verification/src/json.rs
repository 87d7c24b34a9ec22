//! JSON values.

use vstd::prelude::*;

use crate::number;
use crate::number::{parse_i64, parse_u64};
use crate::text::{chars_of, str_eq};

verus! {

/// A JSON value. A number is kept as it is written.
#[derive(Debug)]
pub enum Json {
    Null,
    Bool(bool),
    Number(String),
    Text(String),
    List(Vec<Json>),
    Object(Vec<(String, Json)>),
}

/// The model of [`Json`].
pub enum JsonView {
    Null,
    Bool(bool),
    Number(Seq<char>),
    Text(Seq<char>),
    List(Seq<JsonView>),
    Object(Seq<(Seq<char>, JsonView)>),
}

/// The models of a list of values.
pub open spec fn list_view(s: Seq<Json>) -> Seq<JsonView>
    decreases s,
{
    if s.len() == 0 {
        Seq::empty()
    } else {
        list_view(s.drop_last()).push(json_view(s.last()))
    }
}

/// The models of the members of an object.
pub open spec fn members_view(s: Seq<(String, Json)>) -> Seq<(Seq<char>, JsonView)>
    decreases s,
{
    if s.len() == 0 {
        Seq::empty()
    } else {
        members_view(s.drop_last()).push((s.last().0@, json_view(s.last().1)))
    }
}

/// The model of a value.
pub open spec fn json_view(j: Json) -> JsonView
    decreases j,
{
    match j {
        Json::Null => JsonView::Null,
        Json::Bool(b) => JsonView::Bool(b),
        Json::Number(s) => JsonView::Number(s@),
        Json::Text(s) => JsonView::Text(s@),
        Json::List(v) => JsonView::List(list_view(v@)),
        Json::Object(v) => JsonView::Object(members_view(v@)),
    }
}

impl View for Json {
    type V = JsonView;

    open spec fn view(&self) -> JsonView {
        json_view(*self)
    }
}

pub proof fn lemma_list_view(s: Seq<Json>)
    ensures
        list_view(s).len() == s.len(),
        forall|i: int| 0 <= i < s.len() ==> #[trigger] list_view(s)[i] == s[i]@,
    decreases s.len(),
{
    if s.len() > 0 {
        lemma_list_view(s.drop_last());
    }
}

pub proof fn lemma_members_view(s: Seq<(String, Json)>)
    ensures
        members_view(s).len() == s.len(),
        forall|i: int|
            0 <= i < s.len() ==> #[trigger] members_view(s)[i] == (s[i].0@, s[i].1@),
    decreases s.len(),
{
    if s.len() > 0 {
        lemma_members_view(s.drop_last());
    }
}

// ---------------------------------------------------------------------------
// Reading
// ---------------------------------------------------------------------------

/// The first member of the given name, from position `i` on.
pub open spec fn member_from(s: Seq<(Seq<char>, JsonView)>, key: Seq<char>, i: int) -> Option<JsonView>
    decreases s.len() - i,
{
    if i < 0 || i >= s.len() {
        None
    } else if s[i].0 == key {
        Some(s[i].1)
    } else {
        member_from(s, key, i + 1)
    }
}

impl JsonView {
    /// The member of an object; nothing where the value is no object.
    pub open spec fn get(self, key: Seq<char>) -> Option<JsonView> {
        match self {
            JsonView::Object(s) => member_from(s, key, 0),
            _ => None,
        }
    }

    pub open spec fn as_text(self) -> Option<Seq<char>> {
        match self {
            JsonView::Text(s) => Some(s),
            _ => None,
        }
    }

    pub open spec fn as_truth(self) -> Option<bool> {
        match self {
            JsonView::Bool(b) => Some(b),
            _ => None,
        }
    }

    pub open spec fn as_list(self) -> Option<Seq<JsonView>> {
        match self {
            JsonView::List(s) => Some(s),
            _ => None,
        }
    }

    /// The number, where it is written as an integer of 64 bits with sign.
    pub open spec fn as_int(self) -> Option<int> {
        match self {
            JsonView::Number(s) => number::parsed_int(s, i64::MIN as int, i64::MAX as int),
            _ => None,
        }
    }

    /// The number, where it is written as an integer of 64 bits without sign.
    pub open spec fn as_nat(self) -> Option<nat> {
        match self {
            JsonView::Number(s) => number::parsed_nat(s, u64::MAX as nat),
            _ => None,
        }
    }

    /// The text of a member.
    pub open spec fn text_at(self, key: Seq<char>) -> Option<Seq<char>> {
        match self.get(key) {
            Some(v) => v.as_text(),
            None => None,
        }
    }
}

/// An optional value as its model.
pub open spec fn opt_view(o: Option<&Json>) -> Option<JsonView> {
    match o {
        Some(j) => Some(j@),
        None => None,
    }
}

/// An optional text as its model.
pub open spec fn opt_text(o: Option<&String>) -> Option<Seq<char>> {
    match o {
        Some(s) => Some(s@),
        None => None,
    }
}

impl Json {
    pub fn get(&self, key: &str) -> (r: Option<&Json>)
        ensures
            opt_view(r) == self@.get(key@),
    {
        match self {
            Json::Object(v) => {
                let ghost all = members_view(v@);
                proof {
                    lemma_members_view(v@);
                }
                let mut i: usize = 0;
                while i < v.len()
                    invariant
                        i <= v.len(),
                        all == members_view(v@),
                        all.len() == v@.len(),
                        forall|k: int|
                            0 <= k < v@.len() ==> #[trigger] all[k] == (v@[k].0@, v@[k].1@),
                        self@ == JsonView::Object(all),
                        member_from(all, key@, 0) == member_from(all, key@, i as int),
                    decreases v.len() - i,
                {
                    assert(all[i as int] == (v@[i as int].0@, v@[i as int].1@));
                    if str_eq(v[i].0.as_str(), key) {
                        return Some(&v[i].1);
                    }
                    i += 1;
                }
                None
            },
            _ => None,
        }
    }

    pub fn as_str(&self) -> (r: Option<&String>)
        ensures
            opt_text(r) == self@.as_text(),
    {
        match self {
            Json::Text(s) => Some(s),
            _ => None,
        }
    }

    pub fn as_bool(&self) -> (r: Option<bool>)
        ensures
            r == self@.as_truth(),
    {
        match self {
            Json::Bool(b) => Some(*b),
            _ => None,
        }
    }

    pub fn as_array(&self) -> (r: Option<&Vec<Json>>)
        ensures
            r is Some == self@.as_list() is Some,
            r matches Some(v) ==> self@.as_list() == Some(list_view(v@)) && *self == Json::List(*v),
    {
        match self {
            Json::List(v) => Some(v),
            _ => None,
        }
    }

    pub fn as_i64(&self) -> (r: Option<i64>)
        ensures
            match r {
                Some(n) => self@.as_int() == Some(n as int),
                None => self@.as_int() is None,
            },
    {
        match self {
            Json::Number(s) => parse_i64(chars_of(s.as_str()).as_slice()),
            _ => None,
        }
    }

    pub fn as_u64(&self) -> (r: Option<u64>)
        ensures
            match r {
                Some(n) => self@.as_nat() == Some(n as nat),
                None => self@.as_nat() is None,
            },
    {
        match self {
            Json::Number(s) => parse_u64(chars_of(s.as_str()).as_slice()),
            _ => None,
        }
    }

    /// The text of a member.
    pub fn str_at(&self, key: &str) -> (r: Option<&String>)
        ensures
            opt_text(r) == self@.text_at(key@),
    {
        match self.get(key) {
            Some(v) => v.as_str(),
            None => None,
        }
    }
}

// ---------------------------------------------------------------------------
// Depth
// ---------------------------------------------------------------------------

/// The deepest nesting of lists and objects that is read and written.
pub const MAX_DEPTH: usize = 128;

/// The depth of the deepest value of a list.
pub open spec fn list_depth(s: Seq<JsonView>) -> nat
    decreases s,
{
    if s.len() == 0 {
        0
    } else {
        let rest = list_depth(s.drop_last());
        let last = depth(s.last());
        if rest < last {
            last
        } else {
            rest
        }
    }
}

/// The depth of the deepest member of an object.
pub open spec fn members_depth(s: Seq<(Seq<char>, JsonView)>) -> nat
    decreases s,
{
    if s.len() == 0 {
        0
    } else {
        let rest = members_depth(s.drop_last());
        let last = depth(s.last().1);
        if rest < last {
            last
        } else {
            rest
        }
    }
}

/// How deep lists and objects nest in a value.
pub open spec fn depth(j: JsonView) -> nat
    decreases j,
{
    match j {
        JsonView::List(s) => 1 + list_depth(s),
        JsonView::Object(s) => 1 + members_depth(s),
        _ => 0,
    }
}

pub proof fn lemma_list_depth(s: Seq<JsonView>)
    ensures
        forall|i: int| 0 <= i < s.len() ==> depth(#[trigger] s[i]) <= list_depth(s),
    decreases s.len(),
{
    if s.len() > 0 {
        let d = s.drop_last();
        lemma_list_depth(d);
        assert forall|i: int| 0 <= i < s.len() implies depth(#[trigger] s[i]) <= list_depth(s) by {
            if i < d.len() {
                assert(d[i] == s[i]);
            }
        }
    }
}

pub proof fn lemma_members_depth(s: Seq<(Seq<char>, JsonView)>)
    ensures
        forall|i: int| 0 <= i < s.len() ==> depth((#[trigger] s[i]).1) <= members_depth(s),
    decreases s.len(),
{
    if s.len() > 0 {
        let d = s.drop_last();
        lemma_members_depth(d);
        assert forall|i: int| 0 <= i < s.len() implies depth((#[trigger] s[i]).1)
            <= members_depth(s) by {
            if i < d.len() {
                assert(d[i] == s[i]);
            }
        }
    }
}

/// The members of an object nest no deeper than a bound where each of them does not.
pub proof fn lemma_members_within(s: Seq<(Seq<char>, JsonView)>, d: nat)
    requires
        forall|i: int| 0 <= i < s.len() ==> depth((#[trigger] s[i]).1) <= d,
    ensures
        members_depth(s) <= d,
    decreases s.len(),
{
    if s.len() > 0 {
        let front = s.drop_last();
        assert forall|i: int| 0 <= i < front.len() implies depth((#[trigger] front[i]).1) <= d by {
            assert(front[i] == s[i]);
        }
        lemma_members_within(front, d);
        assert(depth(s[s.len() - 1].1) <= d);
    }
}

proof fn lemma_member_from(s: Seq<(Seq<char>, JsonView)>, key: Seq<char>, i: int)
    requires
        0 <= i,
    ensures
        member_from(s, key, i) matches Some(v) ==> depth(v) <= members_depth(s),
    decreases s.len() - i,
{
    if i < s.len() {
        lemma_members_depth(s);
        if s[i].0 != key {
            lemma_member_from(s, key, i + 1);
        }
    }
}

/// A member nests less deep than its object.
pub proof fn lemma_member_depth(j: JsonView, key: Seq<char>)
    ensures
        j.get(key) matches Some(v) ==> depth(v) < depth(j),
{
    match j {
        JsonView::Object(s) => lemma_member_from(s, key, 0),
        _ => {},
    }
}

fn within(j: &Json, limit: usize) -> (r: bool)
    ensures
        r == (depth(j@) <= limit),
    decreases j,
{
    match j {
        Json::List(v) => {
            if limit == 0 {
                return false;
            }
            let ghost all = list_view(v@);
            proof {
                lemma_list_view(v@);
                lemma_list_depth(all);
            }
            let mut i: usize = 0;
            assert(all.take(0) =~= Seq::empty());
            while i < v.len()
                invariant
                    i <= v.len(),
                    0 < limit,
                    all.len() == v@.len(),
                    forall|k: int| 0 <= k < v@.len() ==> #[trigger] all[k] == v@[k]@,
                    forall|k: int| 0 <= k < all.len() ==> depth(#[trigger] all[k]) <= list_depth(all),
                    list_depth(all.take(i as int)) < limit,
                    j@ == JsonView::List(all),
                    decreases_to!(j => v),
                decreases v.len() - i,
            {
                assert(all.take(i + 1).drop_last() =~= all.take(i as int));
                assert(all.take(i + 1).last() == v@[i as int]@);
                if !within(&v[i], limit - 1) {
                    assert(depth(all[i as int]) <= list_depth(all));
                    return false;
                }
                i += 1;
            }
            assert(all.take(v@.len() as int) =~= all);
            true
        },
        Json::Object(v) => {
            if limit == 0 {
                return false;
            }
            let ghost all = members_view(v@);
            proof {
                lemma_members_view(v@);
                lemma_members_depth(all);
            }
            let mut i: usize = 0;
            assert(all.take(0) =~= Seq::empty());
            while i < v.len()
                invariant
                    i <= v.len(),
                    0 < limit,
                    all.len() == v@.len(),
                    forall|k: int| 0 <= k < v@.len() ==> #[trigger] all[k] == (v@[k].0@, v@[k].1@),
                    forall|k: int|
                        0 <= k < all.len() ==> depth((#[trigger] all[k]).1) <= members_depth(all),
                    members_depth(all.take(i as int)) < limit,
                    j@ == JsonView::Object(all),
                    decreases_to!(j => v),
                decreases v.len() - i,
            {
                assert(all.take(i + 1).drop_last() =~= all.take(i as int));
                assert(all.take(i + 1).last() == (v@[i as int].0@, v@[i as int].1@));
                if !within(&v[i].1, limit - 1) {
                    assert(depth(all[i as int].1) <= members_depth(all));
                    return false;
                }
                i += 1;
            }
            assert(all.take(v@.len() as int) =~= all);
            true
        },
        _ => true,
    }
}

/// Tells whether a value nests no deeper than is read and written.
pub fn is_shallow(j: &Json) -> (r: bool)
    ensures
        r == (depth(j@) <= MAX_DEPTH),
{
    within(j, MAX_DEPTH)
}

// ---------------------------------------------------------------------------
// Parsing
// ---------------------------------------------------------------------------

/// A value of the `serde_json` crate.
#[verifier::external_type_specification]
#[verifier::external_body]
pub struct ExValue(serde_json::Value);

/// What a value of the `serde_json` crate holds.
pub uninterp spec fn json_of(v: serde_json::Value) -> JsonView;

/// What `serde_json::from_str` makes of a text: the value, or the message of the
/// error.
pub uninterp spec fn parsed_json(s: Seq<char>) -> Result<JsonView, Seq<char>>;

/// `serde_json::from_str` into a `serde_json::Value`. What the value holds, or the
/// message of the error, is a function of the text. Texts that nest deeper than
/// [`MAX_DEPTH`] give an error.
#[verifier::external_body]
fn parse_value(s: &str) -> (r: Result<serde_json::Value, String>)
    ensures
        r matches Ok(v) ==> depth(json_of(v)) <= MAX_DEPTH,
        match r {
            Ok(v) => parsed_json(s@) == Ok::<JsonView, Seq<char>>(json_of(v)),
            Err(e) => parsed_json(s@) == Err::<JsonView, Seq<char>>(e@),
        },
{
    serde_json::from_str::<serde_json::Value>(s).map_err(|e| e.to_string())
}

/// The variants of `serde_json::Value`, one for one: a number as `Number` writes
/// it, the members of an object in the order in which its map walks them.
#[verifier::external_body]
fn unwrap_value(v: serde_json::Value) -> (r: Json)
    requires
        depth(json_of(v)) <= MAX_DEPTH,
    ensures
        r@ == json_of(v),
{
    match v {
        serde_json::Value::Null => Json::Null,
        serde_json::Value::Bool(b) => Json::Bool(b),
        serde_json::Value::Number(n) => Json::Number(n.to_string()),
        serde_json::Value::String(s) => Json::Text(s),
        serde_json::Value::Array(a) => Json::List(a.into_iter().map(unwrap_value).collect()),
        serde_json::Value::Object(m) => Json::Object(m.into_iter().map(|(k, v)| (k, unwrap_value(v))).collect()),
    }
}

/// The value that a text can be read as.
pub open spec fn readable(s: Seq<char>) -> Option<JsonView> {
    match parsed_json(s) {
        Ok(j) => Some(j),
        Err(_) => None,
    }
}

/// Parses a text.
pub fn parse_json(s: &str) -> (r: Result<Json, String>)
    ensures
        match r {
            Ok(j) => parsed_json(s@) == Ok::<JsonView, Seq<char>>(j@) && depth(j@) <= MAX_DEPTH,
            Err(e) => parsed_json(s@) == Err::<JsonView, Seq<char>>(e@),
        },
{
    match parse_value(s) {
        Ok(v) => Ok(unwrap_value(v)),
        Err(e) => Err(e),
    }
}

// ---------------------------------------------------------------------------
// Writing
// ---------------------------------------------------------------------------

/// What a `serde_json::Value` holds of a value.
pub uninterp spec fn as_value(j: JsonView) -> JsonView;

/// The variants of [`Json`] as those of `serde_json::Value`, one for one: a number as
/// `Number` reads its text, and null where it reads none; the members of an object as its
/// map takes them, which keeps the last of one name. The result is a function of the
/// value, and nests no deeper.
#[verifier::external_body]
fn wrap_value(j: &Json) -> (r: serde_json::Value)
    requires
        depth(j@) <= MAX_DEPTH,
    ensures
        json_of(r) == as_value(j@),
        depth(json_of(r)) <= depth(j@),
{
    match j {
        Json::Null => serde_json::Value::Null,
        Json::Bool(b) => serde_json::Value::Bool(*b),
        Json::Number(n) => n.parse().map_or(serde_json::Value::Null, serde_json::Value::Number),
        Json::Text(s) => serde_json::Value::String(s.clone()),
        Json::List(v) => serde_json::Value::Array(v.iter().map(wrap_value).collect()),
        Json::Object(v) => serde_json::Value::Object(v.iter().map(|(k, v)| (k.clone(), wrap_value(v))).collect()),
    }
}

/// The text that a `serde_json::Value` writes of what it holds.
pub uninterp spec fn value_text(j: JsonView) -> Seq<char>;

/// `serde_json::Value::to_string`: the value as text without white space, a function of
/// what the value holds. It calls itself for every value inside another, so values that
/// nest deeper than [`MAX_DEPTH`] are left out.
#[verifier::external_body]
fn write_value(v: &serde_json::Value) -> (r: String)
    requires
        depth(json_of(*v)) <= MAX_DEPTH,
    ensures
        r@ == value_text(json_of(*v)),
{
    v.to_string()
}

/// A value as text, without white space.
pub open spec fn written(j: JsonView) -> Seq<char> {
    value_text(as_value(j))
}

/// Writes a value without white space.
pub fn write_json(j: &Json) -> (r: String)
    requires
        depth(j@) <= MAX_DEPTH,
    ensures
        r@ == written(j@),
{
    write_value(&wrap_value(j))
}

} // verus!

//! The browser sessions that requests to Instagram can go out with.

use vstd::prelude::*;

use crate::cookies;
use crate::cookies::cookie_after;
use crate::json;
use crate::json::{Json, JsonView, parse_json};
use crate::text;
use crate::text::{chars_of, contains, listed, push_text, split_lines, str_eq, string_of, trimmed};

verus! {

/// How many sessions are kept.
pub const IG_COOKIE_MAX: usize = 6;

/// The session in a cookie header.
pub open spec fn session_in(cookie: Seq<char>) -> Option<Seq<char>> {
    cookies::after_prefix(cookie, "sessionid="@)
}

/// Finds the session in a cookie header.
pub fn sessionid_of(cookie: &str) -> (r: Option<String>)
    ensures
        text::opt(r) == session_in(cookie@),
{
    cookie_after(cookie, "sessionid=")
}

/// The cookies of other sessions than the given one.
pub open spec fn of_others(s: Seq<Seq<char>>, session: Seq<char>) -> Seq<Seq<char>>
    decreases s.len(),
{
    if s.len() == 0 {
        s
    } else if session_in(s.last()) == Some(session) {
        of_others(s.drop_last(), session)
    } else {
        of_others(s.drop_last(), session).push(s.last())
    }
}

/// The other cookies than the given one.
pub open spec fn all_but(s: Seq<Seq<char>>, cookie: Seq<char>) -> Seq<Seq<char>>
    decreases s.len(),
{
    if s.len() == 0 {
        s
    } else if s.last() == cookie {
        all_but(s.drop_last(), cookie)
    } else {
        all_but(s.drop_last(), cookie).push(s.last())
    }
}

/// At most the first `n`.
pub open spec fn at_most(s: Seq<Seq<char>>, n: nat) -> Seq<Seq<char>> {
    if s.len() <= n {
        s
    } else {
        s.take(n as int)
    }
}

/// Whether a cookie is the first.
pub open spec fn is_first(s: Seq<Seq<char>>, cookie: Seq<char>) -> bool {
    s.len() > 0 && s[0] == cookie
}

/// The pool once a browser sent a cookie: one of a session that is known already takes
/// the place of that, and goes to the front.
pub open spec fn remembered(pool: Seq<Seq<char>>, cookie: Seq<char>) -> Seq<Seq<char>> {
    let c = text::trim(cookie);
    match session_in(c) {
        None => pool,
        Some(session) => if is_first(pool, c) {
            pool
        } else {
            at_most(seq![c] + of_others(pool, session), IG_COOKIE_MAX as nat)
        },
    }
}

/// The pool once a cookie worked: it goes to the front.
pub open spec fn promoted(pool: Seq<Seq<char>>, cookie: Seq<char>) -> Seq<Seq<char>> {
    if is_first(pool, cookie) {
        pool
    } else {
        seq![cookie] + all_but(pool, cookie)
    }
}

/// A list with one more text, without the white space around it, unless that is
/// nothing or is there already.
pub open spec fn with_new(s: Seq<Seq<char>>, c: Seq<char>) -> Seq<Seq<char>> {
    let t = text::trim(c);
    if t.len() == 0 || s.contains(t) {
        s
    } else {
        s.push(t)
    }
}

/// A list with more texts.
pub open spec fn with_all_new(s: Seq<Seq<char>>, more: Seq<Seq<char>>) -> Seq<Seq<char>>
    decreases more.len(),
{
    if more.len() == 0 {
        s
    } else {
        with_new(with_all_new(s, more.drop_last()), more.last())
    }
}

/// The cookies that a request tries, in order: its own, those of the pool, the one of
/// the settings.
pub open spec fn candidates_of(
    own: Option<Seq<char>>,
    pool: Seq<Seq<char>>,
    fallback: Option<Seq<char>>,
) -> Seq<Seq<char>> {
    let first = match own {
        Some(c) => with_new(Seq::empty(), c),
        None => Seq::empty(),
    };
    let all = with_all_new(first, pool);
    match fallback {
        Some(c) => with_new(all, c),
        None => all,
    }
}

/// Adds a text, without the white space around it, unless that is nothing or is there
/// already.
pub fn push_uniq(out: &mut Vec<String>, c: &str)
    ensures
        text::texts(final(out)@) == with_new(text::texts(old(out)@), c@),
{
    let cs = chars_of(c);
    let t = string_of(trimmed(cs.as_slice()));
    if chars_of(t.as_str()).len() > 0 && !listed(out, t.as_str()) {
        push_text(out, t.as_str());
    }
}

/// The sessions that browsers sent, the newest first.
#[derive(Debug)]
pub struct CookiePool {
    pub cookies: Vec<String>,
}

impl View for CookiePool {
    type V = Seq<Seq<char>>;

    open spec fn view(&self) -> Seq<Seq<char>> {
        text::texts(self.cookies@)
    }
}

fn without_session(v: &Vec<String>, session: &str) -> (r: Vec<String>)
    ensures
        text::texts(r@) == of_others(text::texts(v@), session@),
{
    let ghost all = text::texts(v@);
    let mut out: Vec<String> = Vec::new();
    let mut i: usize = 0;
    assert(all.take(0) =~= Seq::empty());
    assert(text::texts(out@) =~= Seq::empty());
    while i < v.len()
        invariant
            i <= v.len(),
            all == text::texts(v@),
            text::texts(out@) == of_others(all.take(i as int), session@),
        decreases v.len() - i,
    {
        proof {
            let next = all.take(i + 1);
            assert(next.drop_last() =~= all.take(i as int));
            assert(next.last() == v@[i as int]@);
        }
        let same = match sessionid_of(v[i].as_str()) {
            Some(s) => str_eq(s.as_str(), session),
            None => false,
        };
        if !same {
            push_text(&mut out, v[i].as_str());
        }
        i += 1;
    }
    assert(all.take(all.len() as int) =~= all);
    out
}

fn without_text(v: &Vec<String>, cookie: &str) -> (r: Vec<String>)
    ensures
        text::texts(r@) == all_but(text::texts(v@), cookie@),
{
    let ghost all = text::texts(v@);
    let mut out: Vec<String> = Vec::new();
    let mut i: usize = 0;
    assert(all.take(0) =~= Seq::empty());
    assert(text::texts(out@) =~= Seq::empty());
    while i < v.len()
        invariant
            i <= v.len(),
            all == text::texts(v@),
            text::texts(out@) == all_but(all.take(i as int), cookie@),
        decreases v.len() - i,
    {
        proof {
            let next = all.take(i + 1);
            assert(next.drop_last() =~= all.take(i as int));
            assert(next.last() == v@[i as int]@);
        }
        if !str_eq(v[i].as_str(), cookie) {
            push_text(&mut out, v[i].as_str());
        }
        i += 1;
    }
    assert(all.take(all.len() as int) =~= all);
    out
}

fn put_first(v: Vec<String>, cookie: String) -> (r: Vec<String>)
    ensures
        text::texts(r@) == seq![cookie@] + text::texts(v@),
{
    let ghost rest = text::texts(v@);
    let ghost shown = cookie@;
    let mut out = v;
    out.insert(0, cookie);
    assert(text::texts(out@) =~= seq![shown] + rest);
    out
}

impl CookiePool {
    fn starts_with(&self, cookie: &str) -> (r: bool)
        ensures
            r == is_first(self@, cookie@),
    {
        if self.cookies.len() > 0 {
            assert(self@[0] == self.cookies@[0]@);
            str_eq(self.cookies[0].as_str(), cookie)
        } else {
            false
        }
    }

    /// Takes in a cookie that a browser sent; tells whether the pool is to be stored.
    pub fn remember(&mut self, cookie: &str) -> (r: bool)
        ensures
            final(self)@ == remembered(old(self)@, cookie@),
            r == (session_in(text::trim(cookie@)) is Some && !is_first(
                old(self)@,
                text::trim(cookie@),
            )),
    {
        let cs = chars_of(cookie);
        let c = string_of(trimmed(cs.as_slice()));
        match sessionid_of(c.as_str()) {
            None => false,
            Some(session) => {
                if self.starts_with(c.as_str()) {
                    return false;
                }
                let rest = without_session(&self.cookies, session.as_str());
                let mut all = put_first(rest, c);
                if all.len() > IG_COOKIE_MAX {
                    let ghost full = text::texts(all@);
                    all.truncate(IG_COOKIE_MAX);
                    assert(text::texts(all@) =~= full.take(IG_COOKIE_MAX as int));
                }
                self.cookies = all;
                true
            },
        }
    }

    /// Moves a cookie that worked to the front; tells whether the pool is to be stored.
    pub fn promote(&mut self, cookie: &str) -> (r: bool)
        ensures
            final(self)@ == promoted(old(self)@, cookie@),
            r == !is_first(old(self)@, cookie@),
    {
        if self.starts_with(cookie) {
            return false;
        }
        let rest = without_text(&self.cookies, cookie);
        self.cookies = put_first(rest, cookie.to_string());
        true
    }

    /// The cookies that a request tries, in order.
    pub fn candidates(&self, own: Option<&str>, fallback: &Option<String>) -> (r: Vec<String>)
        ensures
            text::texts(r@) == candidates_of(text::opt_str(own), self@, text::opt(*fallback)),
    {
        let mut out: Vec<String> = Vec::new();
        assert(text::texts(out@) =~= Seq::empty());
        match own {
            Some(c) => {
                push_uniq(&mut out, c);
            },
            None => {},
        }
        let ghost first = text::texts(out@);
        let ghost all = self@;
        let mut i: usize = 0;
        assert(all.take(0) =~= Seq::empty());
        while i < self.cookies.len()
            invariant
                i <= self.cookies.len(),
                all == text::texts(self.cookies@),
                text::texts(out@) == with_all_new(first, all.take(i as int)),
            decreases self.cookies.len() - i,
        {
            proof {
                let next = all.take(i + 1);
                assert(next.drop_last() =~= all.take(i as int));
                assert(next.last() == self.cookies@[i as int]@);
            }
            push_uniq(&mut out, self.cookies[i].as_str());
            i += 1;
        }
        assert(all.take(all.len() as int) =~= all);
        match fallback {
            Some(c) => {
                push_uniq(&mut out, c.as_str());
            },
            None => {},
        }
        out
    }

    /// The best cookie for a request that tries only one.
    pub fn best(&self, own: Option<&str>, fallback: &Option<String>) -> (r: Option<String>)
        ensures
            ({
                let all = candidates_of(text::opt_str(own), self@, text::opt(*fallback));
                text::opt(r) == if all.len() > 0 {
                    Some(all[0])
                } else {
                    None
                }
            }),
    {
        let all = self.candidates(own, fallback);
        if all.len() > 0 {
            assert(text::texts(all@)[0] == all@[0]@);
            Some(all[0].clone())
        } else {
            None
        }
    }
}

/// Texts without the white space around them, as far as they have a session.
pub open spec fn with_sessions(s: Seq<Seq<char>>) -> Seq<Seq<char>>
    decreases s.len(),
{
    if s.len() == 0 {
        s
    } else {
        let rest = with_sessions(s.drop_last());
        let t = text::trim(s.last());
        if text::holds(t, "sessionid="@) {
            rest.push(t)
        } else {
            rest
        }
    }
}

/// The texts of a list that has only texts.
pub open spec fn texts_of(s: Seq<JsonView>) -> Option<Seq<Seq<char>>>
    decreases s.len(),
{
    if s.len() == 0 {
        Some(Seq::empty())
    } else {
        match (texts_of(s.drop_last()), s.last().as_text()) {
            (Some(rest), Some(t)) => Some(rest.push(t)),
            _ => None,
        }
    }
}

/// The texts of a stored pool: a list of texts, or one text a line.
pub open spec fn stored_texts(stored: Seq<char>, parsed: Option<JsonView>) -> Seq<Seq<char>> {
    match parsed {
        Some(j) => match j.as_list() {
            Some(s) => match texts_of(s) {
                Some(t) => t,
                None => text::lines(stored),
            },
            None => text::lines(stored),
        },
        None => text::lines(stored),
    }
}

fn list_texts(j: &Json) -> (r: Option<Vec<String>>)
    ensures
        match r {
            Some(v) => j@.as_list() matches Some(s) && texts_of(s) == Some(text::texts(v@)),
            None => j@.as_list() matches Some(s) ==> texts_of(s) is None,
        },
{
    match j {
        Json::List(v) => {
            let ghost all = json::list_view(v@);
            proof {
                json::lemma_list_view(v@);
            }
            assert(j@.as_list() == Some(all));
            let mut out: Vec<String> = Vec::new();
            let mut i: usize = 0;
            assert(all.take(0) =~= Seq::empty());
            assert(text::texts(out@) =~= Seq::empty());
            while i < v.len()
                invariant
                    i <= v.len(),
                    all == json::list_view(v@),
                    all.len() == v@.len(),
                    forall|k: int| 0 <= k < v@.len() ==> #[trigger] all[k] == v@[k]@,
                    texts_of(all.take(i as int)) == Some(text::texts(out@)),
                    j@.as_list() == Some(all),
                decreases v.len() - i,
            {
                proof {
                    let next = all.take(i + 1);
                    assert(next.drop_last() =~= all.take(i as int));
                    assert(next.last() == v@[i as int]@);
                }
                match v[i].as_str() {
                    Some(t) => {
                        push_text(&mut out, t.as_str());
                    },
                    None => {
                        proof {
                            lemma_not_texts(all, i + 1);
                        }
                        return None;
                    },
                }
                i += 1;
            }
            assert(all.take(all.len() as int) =~= all);
            Some(out)
        },
        _ => None,
    }
}

proof fn lemma_not_texts(s: Seq<JsonView>, n: int)
    requires
        0 <= n <= s.len(),
        texts_of(s.take(n)) is None,
    ensures
        texts_of(s) is None,
    decreases s.len(),
{
    if n < s.len() {
        assert(s.drop_last().take(n) =~= s.take(n));
        lemma_not_texts(s.drop_last(), n);
    } else {
        assert(s.take(n) =~= s);
    }
}

fn keep_sessions(v: &Vec<String>) -> (r: Vec<String>)
    ensures
        text::texts(r@) == with_sessions(text::texts(v@)),
{
    let ghost all = text::texts(v@);
    let mut out: Vec<String> = Vec::new();
    let mut i: usize = 0;
    assert(all.take(0) =~= Seq::empty());
    assert(text::texts(out@) =~= Seq::empty());
    while i < v.len()
        invariant
            i <= v.len(),
            all == text::texts(v@),
            text::texts(out@) == with_sessions(all.take(i as int)),
        decreases v.len() - i,
    {
        proof {
            let next = all.take(i + 1);
            assert(next.drop_last() =~= all.take(i as int));
            assert(next.last() == v@[i as int]@);
        }
        let cs = chars_of(v[i].as_str());
        let t = trimmed(cs.as_slice());
        if contains(t, "sessionid=") {
            push_text(&mut out, string_of(t).as_str());
        }
        i += 1;
    }
    assert(all.take(all.len() as int) =~= all);
    out
}

/// The pool of a stored text and what the text parses to.
pub fn restore_with(stored: &str, parsed: Option<&Json>) -> (r: CookiePool)
    ensures
        r@ == with_sessions(stored_texts(stored@, json::opt_view(parsed))),
{
    let listed_texts = match parsed {
        Some(j) => list_texts(j),
        None => None,
    };
    let all = match listed_texts {
        Some(v) => v,
        None => split_lines(chars_of(stored).as_slice()),
    };
    CookiePool { cookies: keep_sessions(&all) }
}

/// The pool of a stored text.
pub fn restore(stored: &str) -> (r: CookiePool)
    ensures
        r@ == with_sessions(stored_texts(stored@, json::readable(stored@))),
{
    match parse_json(stored) {
        Ok(j) => restore_with(stored, Some(&j)),
        Err(_) => restore_with(stored, None),
    }
}

/// A request that tries one session after the other.
#[derive(Debug)]
pub struct SessionTry {
    pub candidates: Vec<String>,
    /// The session that is tried.
    pub at: usize,
}

/// What follows when a session fails.
#[derive(Clone, Copy, Debug, PartialEq, Eq, Structural)]
pub enum AfterFailure {
    /// The next session is tried.
    TryNext,
    /// The failure stands.
    GiveUp,
}

impl SessionTry {
    pub fn new(candidates: Vec<String>) -> (r: Self)
        ensures
            r.candidates == candidates,
            r.at == 0,
    {
        SessionTry { candidates, at: 0 }
    }

    /// The cookie that is tried; none where there are no candidates.
    pub fn cookie(&self) -> (r: Option<&String>)
        ensures
            match r {
                Some(c) => self.at < self.candidates@.len() && *c
                    == self.candidates@[self.at as int],
                None => self.at >= self.candidates@.len(),
            },
    {
        if self.at < self.candidates.len() {
            Some(&self.candidates[self.at])
        } else {
            None
        }
    }

    /// Goes on after a failure.
    pub fn failed(&mut self) -> (r: AfterFailure)
        ensures
            final(self).candidates == old(self).candidates,
            old(self).at + 1 < old(self).candidates@.len() ==> {
                &&& r == AfterFailure::TryNext
                &&& final(self).at == old(self).at + 1
            },
            old(self).at + 1 >= old(self).candidates@.len() ==> {
                &&& r == AfterFailure::GiveUp
                &&& final(self).at == old(self).at
            },
    {
        if self.candidates.len() > 0 && self.at < self.candidates.len() - 1 {
            self.at = self.at + 1;
            AfterFailure::TryNext
        } else {
            AfterFailure::GiveUp
        }
    }

    /// Whether the session that worked goes to the front of the pool: one that was not
    /// tried first.
    pub fn promotes(&self) -> (r: bool)
        ensures
            r == (0 < self.at < self.candidates@.len()),
    {
        self.at > 0 && self.at < self.candidates.len()
    }
}

// ---------------------------------------------------------------------------
// What the pool keeps to
// ---------------------------------------------------------------------------

/// Whether each cookie has a session, and no two have the same.
pub open spec fn sessions_differ(s: Seq<Seq<char>>) -> bool {
    &&& forall|i: int| 0 <= i < s.len() ==> session_in(#[trigger] s[i]) is Some
    &&& forall|i: int, j: int|
        0 <= i < j < s.len() ==> session_in(#[trigger] s[i]) != session_in(#[trigger] s[j])
}

proof fn lemma_of_others(s: Seq<Seq<char>>, session: Seq<char>)
    requires
        sessions_differ(s),
    ensures
        sessions_differ(of_others(s, session)),
        forall|i: int|
            0 <= i < of_others(s, session).len() ==> session_in(
                #[trigger] of_others(s, session)[i],
            ) != Some(session),
        forall|i: int|
            0 <= i < of_others(s, session).len() ==> s.contains(#[trigger] of_others(s, session)[i]),
    decreases s.len(),
{
    if s.len() > 0 {
        let d = s.drop_last();
        assert forall|i: int| 0 <= i < d.len() implies session_in(#[trigger] d[i]) is Some by {
            assert(session_in(s[i]) is Some);
        }
        assert forall|i: int, j: int| 0 <= i < j < d.len() implies session_in(#[trigger] d[i])
            != session_in(#[trigger] d[j]) by {
            assert(session_in(s[i]) != session_in(s[j]));
        }
        lemma_of_others(d, session);
        let rest = of_others(d, session);
        let all = of_others(s, session);
        assert forall|i: int| 0 <= i < all.len() implies s.contains(#[trigger] all[i]) by {
            if i < rest.len() {
                assert(all[i] == rest[i]);
                let k = choose|k: int| 0 <= k < d.len() && d[k] == rest[i];
                assert(s[k] == all[i]);
            } else {
                assert(s[s.len() - 1] == all[i]);
            }
        }
        assert forall|i: int| 0 <= i < all.len() implies session_in(#[trigger] all[i]) is Some
            && session_in(all[i]) != Some(session) by {
            if i < rest.len() {
                assert(all[i] == rest[i]);
            } else {
                assert(session_in(s[s.len() - 1]) is Some);
            }
        }
        assert forall|i: int, j: int| 0 <= i < j < all.len() implies session_in(#[trigger] all[i])
            != session_in(#[trigger] all[j]) by {
            assert(all[i] == rest[i]);
            if j < rest.len() {
                assert(all[j] == rest[j]);
            } else {
                let k = choose|k: int| 0 <= k < d.len() && d[k] == rest[i];
                assert(session_in(s[k]) != session_in(s[s.len() - 1]));
            }
        }
    }
}

/// The pool holds each session once, the newest first, and no more than it may.
pub proof fn sessions_are_kept_once(pool: Seq<Seq<char>>, cookie: Seq<char>)
    requires
        sessions_differ(pool),
        pool.len() <= IG_COOKIE_MAX,
    ensures
        sessions_differ(remembered(pool, cookie)),
        remembered(pool, cookie).len() <= IG_COOKIE_MAX,
        session_in(text::trim(cookie)) is Some ==> is_first(
            remembered(pool, cookie),
            text::trim(cookie),
        ),
        session_in(text::trim(cookie)) is None ==> remembered(pool, cookie) == pool,
{
    let c = text::trim(cookie);
    match session_in(c) {
        Some(session) => {
            lemma_of_others(pool, session);
            let rest = of_others(pool, session);
            let all = seq![c] + rest;
            let kept = at_most(all, IG_COOKIE_MAX as nat);
            assert forall|i: int| 0 <= i < kept.len() implies session_in(#[trigger] kept[i])
                is Some by {
                assert(kept[i] == all[i]);
                if i > 0 {
                    assert(all[i] == rest[i - 1]);
                }
            }
            assert forall|i: int, j: int| 0 <= i < j < kept.len() implies session_in(
                #[trigger] kept[i],
            ) != session_in(#[trigger] kept[j]) by {
                assert(kept[i] == all[i] && kept[j] == all[j]);
                assert(all[j] == rest[j - 1]);
                if i > 0 {
                    assert(all[i] == rest[i - 1]);
                }
            }
        },
        None => {},
    }
}

proof fn lemma_no_repeats(s: Seq<Seq<char>>, c: Seq<char>)
    requires
        s.no_duplicates(),
    ensures
        with_new(s, c).no_duplicates(),
{
    let t = text::trim(c);
    let w = with_new(s, c);
    if t.len() > 0 && !s.contains(t) {
        assert forall|i: int, j: int| 0 <= i < w.len() && 0 <= j < w.len() && i != j implies w[i]
            != w[j] by {
            if i < s.len() && j < s.len() {
                assert(s[i] != s[j]);
            } else if i < s.len() {
                assert(s.contains(s[i]));
            } else {
                assert(s.contains(s[j]));
            }
        }
    }
}

proof fn lemma_no_repeats_all(s: Seq<Seq<char>>, more: Seq<Seq<char>>)
    requires
        s.no_duplicates(),
    ensures
        with_all_new(s, more).no_duplicates(),
    decreases more.len(),
{
    if more.len() > 0 {
        lemma_no_repeats_all(s, more.drop_last());
        lemma_no_repeats(with_all_new(s, more.drop_last()), more.last());
    }
}

/// A request tries no cookie twice.
pub proof fn no_cookie_is_tried_twice(
    own: Option<Seq<char>>,
    pool: Seq<Seq<char>>,
    fallback: Option<Seq<char>>,
)
    ensures
        candidates_of(own, pool, fallback).no_duplicates(),
{
    let none = Seq::<Seq<char>>::empty();
    match own {
        Some(c) => lemma_no_repeats(none, c),
        None => {},
    }
    let first = match own {
        Some(c) => with_new(none, c),
        None => none,
    };
    lemma_no_repeats_all(first, pool);
    match fallback {
        Some(c) => lemma_no_repeats(with_all_new(first, pool), c),
        None => {},
    }
}

proof fn lemma_first_stays(s: Seq<Seq<char>>, more: Seq<Seq<char>>)
    requires
        s.len() > 0,
    ensures
        with_all_new(s, more).len() > 0,
        with_all_new(s, more)[0] == s[0],
    decreases more.len(),
{
    if more.len() > 0 {
        lemma_first_stays(s, more.drop_last());
    }
}

proof fn lemma_first_of_all(more: Seq<Seq<char>>)
    requires
        more.len() > 0,
        text::trim(more[0]) == more[0],
        more[0].len() > 0,
    ensures
        with_all_new(Seq::empty(), more).len() > 0,
        with_all_new(Seq::empty(), more)[0] == more[0],
    decreases more.len(),
{
    let none = Seq::<Seq<char>>::empty();
    if more.len() == 1 {
        reveal_with_fuel(with_all_new, 2);
        assert(!none.contains(more[0]));
    } else {
        assert(more.drop_last()[0] == more[0]);
        lemma_first_of_all(more.drop_last());
    }
}

/// A cookie that worked is the first that the next request tries, unless that brings
/// one of its own.
pub proof fn what_worked_is_tried_first(
    pool: Seq<Seq<char>>,
    cookie: Seq<char>,
    fallback: Option<Seq<char>>,
)
    requires
        text::trim(cookie) == cookie,
        cookie.len() > 0,
    ensures
        candidates_of(None, promoted(pool, cookie), fallback).len() > 0,
        candidates_of(None, promoted(pool, cookie), fallback)[0] == cookie,
{
    lemma_first_of_all(promoted(pool, cookie));
}

/// A cookie that a request brings is the first that it tries.
pub proof fn own_cookies_are_tried_first(
    own: Seq<char>,
    pool: Seq<Seq<char>>,
    fallback: Option<Seq<char>>,
)
    requires
        text::trim(own).len() > 0,
    ensures
        candidates_of(Some(own), pool, fallback).len() > 0,
        candidates_of(Some(own), pool, fallback)[0] == text::trim(own),
{
    let none = Seq::<Seq<char>>::empty();
    assert(!none.contains(text::trim(own)));
    lemma_first_stays(with_new(none, own), pool);
}

/// A pool as a list of texts.
pub open spec fn as_list_of_texts(pool: Seq<Seq<char>>) -> JsonView {
    JsonView::List(pool.map_values(|c: Seq<char>| JsonView::Text(c)))
}

proof fn lemma_texts_of(pool: Seq<Seq<char>>)
    ensures
        texts_of(pool.map_values(|c: Seq<char>| JsonView::Text(c))) == Some(pool),
    decreases pool.len(),
{
    let f = |c: Seq<char>| JsonView::Text(c);
    if pool.len() > 0 {
        lemma_texts_of(pool.drop_last());
        assert(pool.map_values(f).drop_last() == pool.drop_last().map_values(f));
        assert(pool.drop_last().push(pool.last()) == pool);
    } else {
        assert(pool == Seq::<Seq<char>>::empty());
    }
}

proof fn lemma_with_sessions(pool: Seq<Seq<char>>)
    requires
        forall|i: int|
            0 <= i < pool.len() ==> text::trim(#[trigger] pool[i]) == pool[i] && text::holds(
                pool[i],
                "sessionid="@,
            ),
    ensures
        with_sessions(pool) == pool,
    decreases pool.len(),
{
    if pool.len() > 0 {
        let d = pool.drop_last();
        assert forall|i: int| 0 <= i < d.len() implies text::trim(#[trigger] d[i]) == d[i]
            && text::holds(d[i], "sessionid="@) by {
            assert(d[i] == pool[i]);
        }
        lemma_with_sessions(d);
        assert(text::trim(pool[pool.len() - 1]) == pool.last());
        assert(d.push(pool.last()) == pool);
    }
}

/// A pool that is stored as a list of texts is restored as it was.
pub proof fn stored_pools_come_back(stored: Seq<char>, pool: Seq<Seq<char>>)
    requires
        json::readable(stored) == Some(as_list_of_texts(pool)),
        forall|i: int|
            0 <= i < pool.len() ==> text::trim(#[trigger] pool[i]) == pool[i] && text::holds(
                pool[i],
                "sessionid="@,
            ),
    ensures
        with_sessions(stored_texts(stored, json::readable(stored))) == pool,
{
    lemma_texts_of(pool);
    lemma_with_sessions(pool);
}

} // verus!

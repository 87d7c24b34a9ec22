//! Looking up hosts over HTTPS where the system's resolver knows nothing of them.

use vstd::prelude::*;

use crate::json;
use crate::json::{Json, JsonView};
use crate::text;
use crate::text::{cat2, cat3, chars_of, copy_strings, push_text, string_of, trimmed};
use crate::textmap;
use crate::textmap::TextMap;

verus! {

/// How long what was looked up is kept, in seconds.
pub const CACHE_TTL_SECS: u64 = 300;

/// How long a look-up may take, in seconds.
pub const LOOKUP_TIMEOUT_SECS: u64 = 6;

/// The services that are asked, in order; both are reached without a look-up.
pub open spec fn endpoints() -> Seq<Seq<char>> {
    seq!["https://1.1.1.1/dns-query"@, "https://8.8.8.8/resolve"@]
}

/// The kinds of record that are asked for, in order.
pub open spec fn records() -> Seq<Seq<char>> {
    seq!["A"@, "AAAA"@]
}

/// The address of a question.
pub open spec fn question(endpoint: Seq<char>, host: Seq<char>, record: Seq<char>) -> Seq<char> {
    endpoint + "?name="@ + host + "&type="@ + record
}

/// Whether what was looked up some time ago still counts.
pub fn is_fresh(age_secs: u64) -> (r: bool)
    ensures
        r == (age_secs < CACHE_TTL_SECS),
{
    age_secs < CACHE_TTL_SECS
}

/// A look-up: which question comes next, and whether an address was found.
#[derive(Debug)]
pub struct Lookup {
    pub host: String,
    /// Which question comes next; each service is asked for each kind of record.
    pub at: usize,
    pub found: bool,
}

/// The address of the question at a position of a look-up.
pub open spec fn question_at(host: Seq<char>, at: int) -> Option<Seq<char>> {
    if 0 <= at < 4 {
        Some(question(endpoints()[at / 2], host, records()[at % 2]))
    } else {
        None
    }
}

/// Which question comes after one was answered: none further where a service that was
/// asked for every kind of record knew an address.
pub open spec fn after_answer(at: int, found: bool) -> int {
    if at % 2 == 1 && found {
        4
    } else {
        at + 1
    }
}

impl Lookup {
    pub fn new(host: &str) -> (r: Self)
        ensures
            r.host@ == host@,
            r.at == 0,
            !r.found,
    {
        Lookup { host: host.to_string(), at: 0, found: false }
    }

    /// The address of the next question; nothing where the look-up is at its end.
    pub fn next(&self) -> (r: Option<String>)
        ensures
            text::opt(r) == question_at(self.host@, self.at as int),
    {
        if self.at >= 4 {
            return None;
        }
        let endpoint = if self.at < 2 {
            "https://1.1.1.1/dns-query"
        } else {
            "https://8.8.8.8/resolve"
        };
        let record = if self.at % 2 == 0 {
            "A"
        } else {
            "AAAA"
        };
        let front = cat2(endpoint, "?name=");
        let named = cat3(front.as_str(), self.host.as_str(), "&type=");
        Some(cat2(named.as_str(), record))
    }

    /// Goes on once a question was answered, with an address or without.
    pub fn answered(&mut self, found: bool)
        requires
            old(self).at < 4,
        ensures
            final(self).host == old(self).host,
            final(self).found == (old(self).found || found),
            final(self).at == after_answer(old(self).at as int, final(self).found),
    {
        self.found = self.found || found;
        self.at = if self.at % 2 == 1 && self.found {
            4
        } else {
            self.at + 1
        };
    }
}

/// The addresses, as texts, in a list of answers.
pub open spec fn data_of(s: Seq<JsonView>) -> Seq<Seq<char>>
    decreases s.len(),
{
    if s.len() == 0 {
        Seq::empty()
    } else {
        let rest = data_of(s.drop_last());
        match s.last().text_at("data"@) {
            Some(t) => rest.push(text::trim(t)),
            None => rest,
        }
    }
}

/// The addresses, as texts, in an answer.
pub open spec fn answers_of(j: JsonView) -> Seq<Seq<char>> {
    match j.get("Answer"@) {
        Some(a) => match a.as_list() {
            Some(s) => data_of(s),
            None => Seq::empty(),
        },
        None => Seq::empty(),
    }
}

/// Reads the addresses, as texts, in an answer.
pub fn answers_in(answer: &Json) -> (r: Vec<String>)
    ensures
        text::texts(r@) == answers_of(answer@),
{
    let mut out: Vec<String> = Vec::new();
    assert(text::texts(out@) =~= Seq::empty());
    let list = match answer.get("Answer") {
        Some(a) => a.as_array(),
        None => None,
    };
    match list {
        Some(v) => {
            let ghost all = json::list_view(v@);
            proof {
                json::lemma_list_view(v@);
            }
            let mut i: usize = 0;
            assert(all.take(0) =~= Seq::empty());
            while i < v.len()
                invariant
                    i <= v.len(),
                    all == json::list_view(v@),
                    all.len() == v@.len(),
                    forall|k: int| 0 <= k < v@.len() ==> #[trigger] all[k] == v@[k]@,
                    text::texts(out@) == data_of(all.take(i as int)),
                decreases v.len() - i,
            {
                proof {
                    let next = all.take(i + 1);
                    assert(next.drop_last() =~= all.take(i as int));
                    assert(next.last() == v@[i as int]@);
                }
                match v[i].str_at("data") {
                    Some(t) => {
                        let cs = chars_of(t.as_str());
                        push_text(&mut out, string_of(trimmed(cs.as_slice())).as_str());
                    },
                    None => {},
                }
                i += 1;
            }
            assert(all.take(all.len() as int) =~= all);
        },
        None => {},
    }
    out
}

/// What was looked up, by host: addresses, and when they were found, in seconds.
#[derive(Debug)]
pub struct LookupCache {
    pub found: TextMap<(Vec<String>, u64)>,
}

/// What is known of a host at a time.
pub open spec fn known(
    found: Seq<(Seq<char>, (Vec<String>, u64))>,
    host: Seq<char>,
    now: u64,
) -> Option<Seq<Seq<char>>> {
    match textmap::get(found, host) {
        Some(p) => if now - p.1 < CACHE_TTL_SECS {
            Some(text::texts(p.0@))
        } else {
            None
        },
        None => None,
    }
}

impl LookupCache {
    pub fn new() -> (r: Self)
        ensures
            r.found.list() == Seq::<(Seq<char>, (Vec<String>, u64))>::empty(),
    {
        LookupCache { found: TextMap::new() }
    }

    /// The addresses of a host, where they were found not too long ago.
    pub fn get(&self, host: &str, now: u64) -> (r: Option<Vec<String>>)
        ensures
            match r {
                Some(v) => known(self.found.list(), host@, now) == Some(text::texts(v@)),
                None => known(self.found.list(), host@, now) is None,
            },
    {
        match self.found.get(host) {
            Some(p) => {
                let age: u64 = if now >= p.1 {
                    now - p.1
                } else {
                    0
                };
                if is_fresh(age) {
                    Some(copy_strings(&p.0))
                } else {
                    None
                }
            },
            None => None,
        }
    }

    /// Keeps the addresses of a host that were found, if any were.
    pub fn keep(&mut self, host: &str, addresses: Vec<String>, now: u64)
        ensures
            final(self).found.list() == (if addresses@.len() > 0 {
                textmap::put(old(self).found.list(), host@, (addresses, now))
            } else {
                old(self).found.list()
            }),
    {
        if addresses.len() > 0 {
            self.found.insert(host.to_string(), (addresses, now));
        }
    }
}

/// What was kept of a host is known until it is too old.
pub proof fn look_ups_are_remembered(
    found: Seq<(Seq<char>, (Vec<String>, u64))>,
    host: Seq<char>,
    addresses: Vec<String>,
    at: u64,
    now: u64,
)
    requires
        textmap::ordered(found),
        at <= now,
    ensures
        known(textmap::put(found, host, (addresses, at)), host, now) == (if now - at
            < CACHE_TTL_SECS {
            Some(text::texts(addresses@))
        } else {
            None
        }),
{
    let other = host.push('x');
    assert(other.len() != host.len());
    textmap::writes_are_read_back(found, host, (addresses, at), other);
}

/// Why a host could not be looked up.
pub fn lookup_failure(host: &str) -> (r: String)
    ensures
        r@ == "could not resolve "@ + host@ + " (system resolver and DoH both failed)"@,
{
    cat3("could not resolve ", host, " (system resolver and DoH both failed)")
}

/// A look-up asks at most four questions, and both kinds of record of a service before
/// another service.
pub proof fn look_ups_end(at: int, found: bool)
    requires
        0 <= at < 4,
    ensures
        at < after_answer(at, found) <= 4,
        at % 2 == 0 ==> after_answer(at, found) == at + 1,
        at == 3 ==> after_answer(at, found) == 4,
{
}

} // verus!

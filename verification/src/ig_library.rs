//! The Instagram accounts that were seen, and what was seen of them.

use vstd::prelude::*;

use crate::paths;
use crate::paths::join_path;
use crate::sorting;
use crate::text;
use crate::text::{chars_of, str_eq, string_of, to_lower};
use crate::textmap;
use crate::textmap::TextMap;

verus! {

/// The key for what belongs to an account that is not known yet.
pub const UNRESOLVED: &'static str = "__unresolved__";

/// Something that was seen.
#[derive(Debug)]
pub struct IgCaught {
    /// `post`, `reel`, `igtv`, `story`, `highlight` or `profile`.
    pub kind: String,
    /// The short code or the identifier, where there is one.
    pub key: String,
    /// The page.
    pub url: String,
    pub seen: i64,
}

/// The model of [`IgCaught`].
#[verifier::ext_equal]
pub struct CaughtView {
    pub kind: Seq<char>,
    pub key: Seq<char>,
    pub url: Seq<char>,
    pub seen: i64,
}

impl View for IgCaught {
    type V = CaughtView;

    open spec fn view(&self) -> CaughtView {
        CaughtView { kind: self.kind@, key: self.key@, url: self.url@, seen: self.seen }
    }
}

/// The models of a list of what was seen.
pub open spec fn caught_views(v: Seq<IgCaught>) -> Seq<CaughtView> {
    v.map_values(|c: IgCaught| c@)
}

/// Where the download of a whole account stands.
#[derive(Clone, Copy, Debug, PartialEq, Eq, Structural)]
pub enum ArchiveState {
    /// More pages are being added.
    Running,
    /// Stopped; the cursor tells where to go on.
    Paused,
    /// Every page was added.
    Done,
}

/// The download of a whole account.
#[derive(Debug)]
pub struct ArchiveJob {
    pub state: ArchiveState,
    /// How many pages were walked.
    pub page: u32,
    /// Where to go on; at the newest page where there is none.
    pub cursor: Option<String>,
    /// How many posts there were at the start.
    pub total: u64,
    /// How many posts were queued.
    pub queued: u64,
    /// `all` or `recent`.
    pub scope: String,
    /// Which start of the job this is.
    pub epoch: u64,
    pub updated: i64,
}

/// An account.
#[derive(Debug)]
pub struct IgAccount {
    pub username: String,
    pub first_seen: i64,
    pub last_seen: i64,
    pub caught: Vec<IgCaught>,
    /// The picture of the account.
    pub avatar_url: Option<String>,
    /// When the picture was last set.
    pub avatar_at: i64,
    pub archive: Option<ArchiveJob>,
}

/// The model of [`IgAccount`].
#[verifier::ext_equal]
pub struct AccountView {
    pub username: Seq<char>,
    pub first_seen: i64,
    pub last_seen: i64,
    pub caught: Seq<CaughtView>,
    pub avatar_url: Option<Seq<char>>,
    pub avatar_at: i64,
    pub archive: Option<ArchiveJob>,
}

impl View for IgAccount {
    type V = AccountView;

    open spec fn view(&self) -> AccountView {
        AccountView {
            username: self.username@,
            first_seen: self.first_seen,
            last_seen: self.last_seen,
            caught: caught_views(self.caught@),
            avatar_url: text::opt(self.avatar_url),
            avatar_at: self.avatar_at,
            archive: self.archive,
        }
    }
}

/// The accounts, by their names in lower case.
#[derive(Debug)]
pub struct IgLibrary {
    pub accounts: TextMap<IgAccount>,
}

impl View for IgLibrary {
    type V = Seq<(Seq<char>, AccountView)>;

    open spec fn view(&self) -> Seq<(Seq<char>, AccountView)> {
        textmap::shown(self.accounts.list())
    }
}

/// Whether two are the same thing, whenever they were seen.
pub open spec fn same_thing(a: CaughtView, b: CaughtView) -> bool {
    a.kind == b.kind && a.key == b.key && a.url == b.url
}

/// Whether a list has the same thing.
pub open spec fn has_thing(s: Seq<CaughtView>, c: CaughtView) -> bool {
    exists|i: int| 0 <= i < s.len() && same_thing(#[trigger] s[i], c)
}

/// With one more thing, unless it is there already.
pub open spec fn with_thing(s: Seq<CaughtView>, c: CaughtView) -> Seq<CaughtView> {
    if has_thing(s, c) {
        s
    } else {
        s.push(c)
    }
}

/// With more things, each unless it is there already.
pub open spec fn with_things(s: Seq<CaughtView>, more: Seq<CaughtView>) -> Seq<CaughtView>
    decreases more.len(),
{
    if more.len() == 0 {
        s
    } else {
        with_thing(with_things(s, more.drop_last()), more.last())
    }
}

/// The things of a list whose page is the given one, or is not.
pub open spec fn at_url(s: Seq<CaughtView>, url: Seq<char>, want: bool) -> Seq<CaughtView>
    decreases s.len(),
{
    if s.len() == 0 {
        s
    } else {
        let rest = at_url(s.drop_last(), url, want);
        if (s.last().url == url) == want {
            rest.push(s.last())
        } else {
            rest
        }
    }
}

/// An account that is new at a time.
pub open spec fn new_account(username: Seq<char>, now: i64) -> AccountView {
    AccountView {
        username,
        first_seen: now,
        last_seen: now,
        caught: Seq::empty(),
        avatar_url: None,
        avatar_at: 0,
        archive: None,
    }
}

/// The account of a key, or a new one.
pub open spec fn account_or_new(
    lib: Seq<(Seq<char>, AccountView)>,
    key: Seq<char>,
    username: Seq<char>,
    now: i64,
) -> AccountView {
    match textmap::get(lib, key) {
        Some(a) => a,
        None => new_account(username, now),
    }
}

/// The key of an account.
pub open spec fn key_of(account: Option<Seq<char>>) -> Seq<char> {
    match account {
        Some(a) => text::lower(a),
        None => UNRESOLVED@,
    }
}

/// The library once something was seen of an account, or of nobody known.
pub open spec fn recorded(
    lib: Seq<(Seq<char>, AccountView)>,
    account: Option<Seq<char>>,
    c: CaughtView,
    now: i64,
) -> Seq<(Seq<char>, AccountView)> {
    let key = key_of(account);
    let name = match account {
        Some(a) => a,
        None => Seq::empty(),
    };
    let a = account_or_new(lib, key, name, now);
    textmap::put(
        lib,
        key,
        AccountView { last_seen: now, caught: with_thing(a.caught, c), ..a },
    )
}

/// What is filed under nobody known.
pub open spec fn unresolved(lib: Seq<(Seq<char>, AccountView)>) -> Seq<CaughtView> {
    match textmap::get(lib, UNRESOLVED@) {
        Some(a) => a.caught,
        None => Seq::empty(),
    }
}

/// The library once only the given things are filed under nobody known: without
/// that key where there are none.
pub open spec fn with_unresolved(
    lib: Seq<(Seq<char>, AccountView)>,
    caught: Seq<CaughtView>,
) -> Seq<(Seq<char>, AccountView)> {
    match textmap::get(lib, UNRESOLVED@) {
        Some(a) => if caught.len() == 0 {
            textmap::del(lib, UNRESOLVED@)
        } else {
            textmap::put(lib, UNRESOLVED@, AccountView { caught, ..a })
        },
        None => lib,
    }
}

/// The account with the name, unless it has one.
pub open spec fn named(a: AccountView, name: Seq<char>) -> AccountView {
    if a.username.len() == 0 {
        AccountView { username: name, ..a }
    } else {
        a
    }
}

/// What is filed at a page under other keys than the given one, in the order of the
/// keys.
pub open spec fn elsewhere(
    lib: Seq<(Seq<char>, AccountView)>,
    url: Seq<char>,
    key: Seq<char>,
) -> Seq<CaughtView>
    decreases lib.len(),
{
    if lib.len() == 0 {
        Seq::empty()
    } else {
        let rest = elsewhere(lib.drop_last(), url, key);
        if lib.last().0 == key {
            rest
        } else {
            rest + at_url(lib.last().1.caught, url, true)
        }
    }
}

/// A key and its account without what is filed at a page, unless it is the given key.
pub open spec fn cleared(
    p: (Seq<char>, AccountView),
    url: Seq<char>,
    key: Seq<char>,
) -> (Seq<char>, AccountView) {
    if p.0 == key {
        p
    } else {
        (p.0, AccountView { caught: at_url(p.1.caught, url, false), ..p.1 })
    }
}

/// The library without what is filed at a page under other keys than the given one.
pub open spec fn all_cleared(
    lib: Seq<(Seq<char>, AccountView)>,
    url: Seq<char>,
    key: Seq<char>,
) -> Seq<(Seq<char>, AccountView)> {
    lib.map_values(|p: (Seq<char>, AccountView)| cleared(p, url, key))
}

/// The library without the key for nobody known where nothing is filed under it.
pub open spec fn tidied(lib: Seq<(Seq<char>, AccountView)>) -> Seq<(Seq<char>, AccountView)> {
    match textmap::get(lib, UNRESOLVED@) {
        Some(a) if a.caught.len() == 0 => textmap::del(lib, UNRESOLVED@),
        _ => lib,
    }
}

/// The library once the account of a page is known: what is filed at the page, under
/// nobody known or under another account, moves to it.
pub open spec fn resolved(
    lib: Seq<(Seq<char>, AccountView)>,
    url: Seq<char>,
    account: Seq<char>,
    now: i64,
) -> Seq<(Seq<char>, AccountView)> {
    let key = text::lower(account);
    let moving = elsewhere(lib, url, key);
    let rest = tidied(all_cleared(lib, url, key));
    if moving.len() == 0 {
        rest
    } else {
        let a = named(account_or_new(rest, key, account, now), account);
        textmap::put(rest, key, AccountView { caught: with_things(a.caught, moving), ..a })
    }
}

fn new_entry(username: String, now: i64) -> (r: IgAccount)
    ensures
        r@ == new_account(username@, now),
{
    let r = IgAccount {
        username,
        first_seen: now,
        last_seen: now,
        caught: Vec::new(),
        avatar_url: None,
        avatar_at: 0,
        archive: None,
    };
    assert(caught_views(r.caught@) =~= Seq::empty());
    r
}

fn lower_string(s: &str) -> (r: String)
    ensures
        r@ == text::lower(s@),
{
    string_of(to_lower(chars_of(s).as_slice()).as_slice())
}

fn thing_there(v: &Vec<IgCaught>, c: &IgCaught) -> (r: bool)
    ensures
        r == has_thing(caught_views(v@), c@),
{
    let ghost all = caught_views(v@);
    let mut i: usize = 0;
    while i < v.len()
        invariant
            i <= v.len(),
            all == caught_views(v@),
            forall|j: int| 0 <= j < i ==> !same_thing(#[trigger] all[j], c@),
        decreases v.len() - i,
    {
        assert(all[i as int] == v@[i as int]@);
        if str_eq(v[i].kind.as_str(), c.kind.as_str()) && str_eq(v[i].key.as_str(), c.key.as_str())
            && str_eq(v[i].url.as_str(), c.url.as_str()) {
            assert(same_thing(all[i as int], c@));
            return true;
        }
        i += 1;
    }
    false
}

fn add_thing(v: &mut Vec<IgCaught>, c: IgCaught)
    ensures
        caught_views(final(v)@) == with_thing(caught_views(old(v)@), c@),
{
    if !thing_there(v, &c) {
        let ghost before = caught_views(v@);
        let ghost shown = c@;
        v.push(c);
        assert(caught_views(v@) =~= before.push(shown));
    }
}

fn divide(v: Vec<IgCaught>, url: &str) -> (r: (Vec<IgCaught>, Vec<IgCaught>))
    ensures
        caught_views(r.0@) == at_url(caught_views(v@), url@, true),
        caught_views(r.1@) == at_url(caught_views(v@), url@, false),
{
    let ghost all = caught_views(v@);
    let mut old_list = v;
    let mut mine: Vec<IgCaught> = Vec::new();
    let mut rest: Vec<IgCaught> = Vec::new();
    let ghost mut n: int = 0;
    assert(all.take(0) =~= Seq::empty());
    assert(caught_views(mine@) =~= Seq::empty());
    assert(caught_views(rest@) =~= Seq::empty());
    assert(all.skip(0) =~= all);
    while old_list.len() > 0
        invariant
            0 <= n <= all.len(),
            n + old_list@.len() == all.len(),
            caught_views(old_list@) == all.skip(n),
            caught_views(mine@) == at_url(all.take(n), url@, true),
            caught_views(rest@) == at_url(all.take(n), url@, false),
        decreases old_list@.len(),
    {
        let ghost before = old_list@;
        let c = old_list.remove(0);
        let ghost shown = c@;
        proof {
            assert(shown == caught_views(before)[0]);
            assert(shown == all[n]);
            assert(caught_views(old_list@) =~= all.skip(n + 1)) by {
                assert forall|i: int| 0 <= i < old_list@.len() implies caught_views(
                    old_list@,
                )[i] == all.skip(n + 1)[i] by {
                    assert(caught_views(before)[i + 1] == all.skip(n)[i + 1]);
                }
            }
            assert(all.take(n + 1).drop_last() =~= all.take(n));
            assert(all.take(n + 1).last() == shown);
            n = n + 1;
        }
        if str_eq(c.url.as_str(), url) {
            let ghost m = caught_views(mine@);
            mine.push(c);
            assert(caught_views(mine@) =~= m.push(shown));
        } else {
            let ghost m = caught_views(rest@);
            rest.push(c);
            assert(caught_views(rest@) =~= m.push(shown));
        }
    }
    assert(all.take(n) =~= all);
    (mine, rest)
}

fn add_things(v: &mut Vec<IgCaught>, more: Vec<IgCaught>)
    ensures
        caught_views(final(v)@) == with_things(caught_views(old(v)@), caught_views(more@)),
{
    let ghost start = caught_views(v@);
    let ghost all = caught_views(more@);
    let mut left = more;
    let ghost mut n: int = 0;
    assert(all.take(0) =~= Seq::empty());
    assert(all.skip(0) =~= all);
    while left.len() > 0
        invariant
            0 <= n <= all.len(),
            n + left@.len() == all.len(),
            caught_views(left@) == all.skip(n),
            caught_views(v@) == with_things(start, all.take(n)),
        decreases left@.len(),
    {
        let ghost before = left@;
        let c = left.remove(0);
        proof {
            assert(c@ == caught_views(before)[0]);
            assert(c@ == all[n]);
            assert(caught_views(left@) =~= all.skip(n + 1)) by {
                assert forall|i: int| 0 <= i < left@.len() implies caught_views(left@)[i]
                    == all.skip(n + 1)[i] by {
                    assert(caught_views(before)[i + 1] == all.skip(n)[i + 1]);
                }
            }
            assert(all.take(n + 1).drop_last() =~= all.take(n));
            assert(all.take(n + 1).last() == c@);
            n = n + 1;
        }
        add_thing(v, c);
    }
    assert(all.take(n) =~= all);
}

/// Whether the account at a key is there and has another picture than this one.
pub open spec fn wants_avatar(
    lib: Seq<(Seq<char>, AccountView)>,
    key: Seq<char>,
    url: Seq<char>,
) -> bool {
    textmap::get(lib, key) matches Some(a) && a.avatar_url != Some(url)
}

/// A library once a picture of the account at a key was found at a time.
pub open spec fn pictured(
    lib: Seq<(Seq<char>, AccountView)>,
    key: Seq<char>,
    url: Seq<char>,
    now: i64,
) -> Seq<(Seq<char>, AccountView)> {
    match textmap::get(lib, key) {
        Some(a) if a.avatar_url != Some(url) => textmap::put(
            lib,
            key,
            AccountView { avatar_url: Some(url), avatar_at: now, ..a },
        ),
        _ => lib,
    }
}

impl IgLibrary {
    pub fn new() -> (r: Self)
        ensures
            r@ == Seq::<(Seq<char>, AccountView)>::empty(),
    {
        let r = IgLibrary { accounts: TextMap::new() };
        assert(r@ =~= Seq::empty());
        r
    }

    fn take(&mut self, key: &str, username: &str, now: i64) -> (r: IgAccount)
        ensures
            r@ == account_or_new(old(self)@, key@, username@, now),
            final(self)@ == textmap::del(old(self)@, key@),
            forall|v: AccountView|
                #[trigger] textmap::put(final(self)@, key@, v) == textmap::put(old(self)@, key@, v),
    {
        let ghost before = self.accounts.list();
        let n: usize = self.accounts.len();
        match self.accounts.remove(key) {
            Some(a) => {
                proof {
                    textmap::lemma_shown(before, key@, a);
                    textmap::lemma_shown_ordered(before);
                    textmap::lemma_put_after_del(old(self)@, key@);
                }
                a
            },
            None => {
                let a = new_entry(username.to_string(), now);
                proof {
                    textmap::lemma_shown(before, key@, a);
                }
                a
            },
        }
    }

    fn give(&mut self, key: String, a: IgAccount)
        ensures
            final(self)@ == textmap::put(old(self)@, key@, a@),
    {
        proof {
            textmap::lemma_shown(self.accounts.list(), key@, a);
        }
        self.accounts.insert(key, a);
    }

    /// Files something that was seen at a time under an account, or under nobody
    /// known. The library is to be stored.
    pub fn record(&mut self, account: Option<&str>, c: IgCaught, now: i64)
        ensures
            final(self)@ == recorded(old(self)@, text::opt_str(account), c@, now),
    {
        let (key, name) = match account {
            Some(a) => (lower_string(a), a.to_string()),
            None => {
                let none = String::new();
                assert(none@ =~= Seq::empty());
                (UNRESOLVED.to_string(), none)
            },
        };
        let mut a = self.take(key.as_str(), name.as_str(), now);
        a.last_seen = now;
        add_thing(&mut a.caught, c);
        self.give(key, a);
    }

    /// Takes what is filed at a page under other keys than the given one.
    fn take_elsewhere(&mut self, url: &str, key: &str) -> (r: Vec<IgCaught>)
        ensures
            final(self)@ == all_cleared(old(self)@, url@, key@),
            caught_views(r@) == elsewhere(old(self)@, url@, key@),
    {
        let ghost start = self@;
        let n: usize = self.accounts.len();
        let mut moving: Vec<IgCaught> = Vec::new();
        let mut i: usize = 0;
        assert(start.take(0) =~= Seq::empty());
        assert(caught_views(moving@) =~= Seq::empty());
        while i < n
            invariant
                i <= n,
                n == start.len(),
                self@.len() == n,
                forall|j: int| 0 <= j < i ==> #[trigger] self@[j] == cleared(start[j], url@, key@),
                forall|j: int| i <= j < n ==> #[trigger] self@[j] == start[j],
                caught_views(moving@) == elsewhere(start.take(i as int), url@, key@),
            decreases n - i,
        {
            let ghost before = self@;
            let ghost list = self.accounts.list();
            let ghost here = list[i as int];
            assert(before[i as int] == (here.0, here.1@));
            assert(before[i as int] == start[i as int]);
            assert(start.take(i + 1).drop_last() =~= start.take(i as int));
            assert(start.take(i + 1).last() == start[i as int]);
            if str_eq(self.accounts.key_at(i).as_str(), key) {
                assert(cleared(start[i as int], url@, key@) == start[i as int]);
            } else {
                let mut a = self.accounts.replace_at(i, new_entry(String::new(), 0));
                let mut caught: Vec<IgCaught> = Vec::new();
                core::mem::swap(&mut caught, &mut a.caught);
                let (mut mine, rest) = divide(caught, url);
                a.caught = rest;
                let ghost shown = a@;
                let ghost more = caught_views(mine@);
                let ghost had = caught_views(moving@);
                moving.append(&mut mine);
                assert(caught_views(moving@) =~= had + more);
                let _ = self.accounts.replace_at(i, a);
                proof {
                    assert(self.accounts.list() =~= list.update(i as int, (here.0, a)));
                    assert(self@ =~= before.update(i as int, (here.0, shown)));
                    assert((here.0, shown) == cleared(start[i as int], url@, key@));
                }
            }
            i += 1;
        }
        assert(start.take(n as int) =~= start);
        assert(self@ =~= all_cleared(start, url@, key@));
        moving
    }

    /// Removes the key for nobody known where nothing is filed under it.
    fn tidy(&mut self)
        ensures
            final(self)@ == tidied(old(self)@),
    {
        let ghost before = self.accounts.list();
        let empty = match self.accounts.get(UNRESOLVED) {
            Some(a) => a.caught.len() == 0,
            None => false,
        };
        proof {
            let any: IgAccount = arbitrary();
            textmap::lemma_shown(before, UNRESOLVED@, any);
            if let Some(a) = textmap::get(before, UNRESOLVED@) {
                assert(a@.caught.len() == a.caught@.len());
            }
        }
        if empty {
            let _ = self.accounts.remove(UNRESOLVED);
        }
    }

    /// Moves what is filed at a page, under nobody known or under another account, to the
    /// account that it is of; tells whether the library is to be stored.
    pub fn set_account(&mut self, url: &str, account: &str, now: i64) -> (r: bool)
        ensures
            final(self)@ == resolved(old(self)@, url@, account@, now),
            r == (elsewhere(old(self)@, url@, text::lower(account@)).len() > 0),
    {
        let key = lower_string(account);
        let moving = self.take_elsewhere(url, key.as_str());
        self.tidy();
        assert(caught_views(moving@).len() == moving@.len());
        if moving.len() == 0 {
            return false;
        }
        let mut a = self.take(key.as_str(), account, now);
        proof {
            reveal_strlit("");
            assert(a.username@.len() == 0 <==> a.username@ =~= ""@);
        }
        if str_eq(a.username.as_str(), "") {
            a.username = account.to_string();
        }
        add_things(&mut a.caught, moving);
        self.give(key, a);
        true
    }

    /// Sets the picture of an account at a time, where the account is there and has
    /// another one; tells whether the library is to be stored. Nothing changes
    /// otherwise.
    pub fn set_avatar(&mut self, account: &str, url: &str, now: i64) -> (r: bool)
        ensures
            r == wants_avatar(old(self)@, text::lower(account@), url@),
            final(self)@ == pictured(old(self)@, text::lower(account@), url@, now),
    {
        let key = lower_string(account);
        let ghost before = self.accounts.list();
        proof {
            let any: IgAccount = arbitrary();
            textmap::lemma_shown(before, key@, any);
        }
        let wanted = match self.accounts.get(key.as_str()) {
            Some(a) => match &a.avatar_url {
                Some(u) => !str_eq(u.as_str(), url),
                None => true,
            },
            None => false,
        };
        if wanted {
            let mut a = self.take(key.as_str(), account, now);
            a.avatar_url = Some(url.to_string());
            a.avatar_at = now;
            self.give(key, a);
        }
        wanted
    }

    /// The download of a whole account.
    pub fn archive_of(&self, account: &str) -> (r: Option<&ArchiveJob>)
        ensures
            match r {
                Some(j) => textmap::get(self@, text::lower(account@)) matches Some(a) && a.archive
                    == Some(*j),
                None => textmap::get(self@, text::lower(account@)) matches Some(a)
                    ==> a.archive is None,
            },
    {
        let key = lower_string(account);
        proof {
            let any: IgAccount = arbitrary();
            textmap::lemma_shown(self.accounts.list(), key@, any);
        }
        match self.accounts.get(key.as_str()) {
            Some(a) => match &a.archive {
                Some(j) => Some(j),
                None => None,
            },
            None => None,
        }
    }

    /// Sets or clears the download of a whole account, which is filed at a time where
    /// it is new. The library is to be stored.
    pub fn set_archive(&mut self, account: &str, job: Option<ArchiveJob>, now: i64)
        ensures
            ({
                let key = text::lower(account@);
                let a = named(account_or_new(old(self)@, key, account@, now), account@);
                final(self)@ == textmap::put(old(self)@, key, AccountView { archive: job, ..a })
            }),
    {
        let key = lower_string(account);
        let mut a = self.take(key.as_str(), account, now);
        proof {
            reveal_strlit("");
            assert(a.username@.len() == 0 <==> a.username@ =~= ""@);
        }
        if str_eq(a.username.as_str(), "") {
            a.username = account.to_string();
        }
        a.archive = job;
        self.give(key, a);
    }

    /// Keeps of what is filed under nobody known only what a condition holds of; tells
    /// how much went. The library is to be stored where anything did.
    pub fn prune_unresolved<K: Fn(&IgCaught) -> bool>(&mut self, keep: K) -> (r: usize)
        requires
            forall|c: &IgCaught| #[trigger] call_requires(keep, (c,)),
        ensures
            exists|hit: Seq<bool>, items: Seq<IgCaught>|
                #![trigger flagged(items, hit)]
                {
                    &&& caught_views(items) == unresolved(old(self)@)
                    &&& hit.len() == items.len()
                    &&& forall|i: int|
                        0 <= i < items.len() ==> call_ensures(keep, (&items[i],), #[trigger] hit[i])
                    &&& final(self)@ == with_unresolved(
                        old(self)@,
                        caught_views(flagged(items, hit)),
                    )
                    &&& r == items.len() - flagged(items, hit).len()
                },
    {
        let ghost start = self@;
        let ghost before = self.accounts.list();
        if !self.accounts.contains_key(UNRESOLVED) {
            proof {
                let any: IgAccount = arbitrary();
                textmap::lemma_shown(before, UNRESOLVED@, any);
                let items: Seq<IgCaught> = Seq::empty();
                let hit: Seq<bool> = Seq::empty();
                assert(caught_views(items) =~= unresolved(start));
                assert(flagged(items, hit).len() == 0);
            }
            return 0;
        }
        let mut u = self.take(UNRESOLVED, "", 0);
        proof {
            textmap::lemma_shown(before, UNRESOLVED@, u);
        }
        let mut left: Vec<IgCaught> = Vec::new();
        core::mem::swap(&mut left, &mut u.caught);
        let ghost items = left@;
        let ghost mut hit: Seq<bool> = Seq::empty();
        let ghost mut n: int = 0;
        let count: usize = left.len();
        let mut kept: Vec<IgCaught> = Vec::new();
        assert(items.take(0) =~= Seq::empty());
        assert(items.skip(0) =~= items);
        while left.len() > 0
            invariant
                forall|c: &IgCaught| #[trigger] call_requires(keep, (c,)),
                0 <= n <= items.len(),
                n + left@.len() == items.len(),
                left@ == items.skip(n),
                hit.len() == n,
                forall|i: int|
                    0 <= i < n ==> call_ensures(keep, (&items[i],), #[trigger] hit[i]),
                kept@ == flagged(items.take(n), hit),
                kept@.len() <= n,
            decreases left@.len(),
        {
            let c = left.remove(0);
            assert(c == items[n]);
            assert(left@ =~= items.skip(n + 1));
            let ok = keep(&c);
            let ghost hit_before = hit;
            proof {
                hit = hit.push(ok);
                assert(items.take(n + 1).drop_last() =~= items.take(n));
                assert(items.take(n + 1).last() == c);
                lemma_flagged(items.take(n), hit_before, hit);
                n = n + 1;
            }
            if ok {
                kept.push(c);
            }
        }
        assert(items.take(n) =~= items);
        let removed: usize = count - kept.len();
        let ghost stays = kept@;
        assert(stays == flagged(items, hit));
        if kept.len() > 0 {
            u.caught = kept;
            self.give(UNRESOLVED.to_string(), u);
        }
        assert(caught_views(items) == unresolved(start));
        assert(self@ == with_unresolved(start, caught_views(flagged(items, hit))));
        removed
    }
}

/// The things of which the flag is set, in order.
pub open spec fn flagged(s: Seq<IgCaught>, hit: Seq<bool>) -> Seq<IgCaught>
    decreases s.len(),
{
    if s.len() == 0 {
        s
    } else {
        let rest = flagged(s.drop_last(), hit);
        if hit[s.len() - 1] {
            rest.push(s.last())
        } else {
            rest
        }
    }
}

proof fn lemma_flagged(s: Seq<IgCaught>, a: Seq<bool>, b: Seq<bool>)
    requires
        s.len() <= a.len(),
        s.len() <= b.len(),
        forall|i: int| 0 <= i < s.len() ==> a[i] == #[trigger] b[i],
    ensures
        flagged(s, a) == flagged(s, b),
    decreases s.len(),
{
    if s.len() > 0 {
        lemma_flagged(s.drop_last(), a, b);
        assert(a[s.len() - 1] == b[s.len() - 1]);
    }
}

/// Where the library is stored.
pub fn default_ig_library_path(data_dir: &str) -> (r: String)
    ensures
        r@ == paths::join(data_dir@, "ig_library.json"@),
{
    join_path(data_dir, "ig_library.json")
}

// ---------------------------------------------------------------------------
// What the library keeps to
// ---------------------------------------------------------------------------

/// Whether nothing occurs twice in a list.
pub open spec fn things_differ(s: Seq<CaughtView>) -> bool {
    forall|i: int, j: int| 0 <= i < j < s.len() ==> !same_thing(#[trigger] s[i], #[trigger] s[j])
}

/// Something that is seen again is not filed again, and nothing is filed twice under
/// one account.
pub proof fn things_are_filed_once(s: Seq<CaughtView>, c: CaughtView)
    ensures
        with_thing(with_thing(s, c), c) == with_thing(s, c),
        has_thing(with_thing(s, c), c),
        things_differ(s) ==> things_differ(with_thing(s, c)),
{
    let w = with_thing(s, c);
    if !has_thing(s, c) {
        assert(same_thing(w[s.len() as int], c));
        if things_differ(s) {
            assert forall|i: int, j: int| 0 <= i < j < w.len() implies !same_thing(
                #[trigger] w[i],
                #[trigger] w[j],
            ) by {
                assert(w[i] == s[i]);
                if j < s.len() {
                    assert(w[j] == s[j]);
                }
            }
        }
    }
}

/// Dividing what is filed by a page loses nothing.
pub proof fn dividing_loses_nothing(s: Seq<CaughtView>, url: Seq<char>)
    ensures
        at_url(s, url, true).len() + at_url(s, url, false).len() == s.len(),
        forall|i: int|
            0 <= i < at_url(s, url, true).len() ==> (#[trigger] at_url(s, url, true)[i]).url == url,
        forall|i: int|
            0 <= i < at_url(s, url, false).len() ==> (#[trigger] at_url(s, url, false)[i]).url
                != url,
    decreases s.len(),
{
    if s.len() > 0 {
        dividing_loses_nothing(s.drop_last(), url);
    }
}

proof fn lemma_cleared(
    lib: Seq<(Seq<char>, AccountView)>,
    url: Seq<char>,
    key: Seq<char>,
    k: Seq<char>,
)
    requires
        textmap::ordered(lib),
    ensures
        textmap::ordered(all_cleared(lib, url, key)),
        textmap::get(all_cleared(lib, url, key), k) == (match textmap::get(lib, k) {
            Some(a) => Some(cleared((k, a), url, key).1),
            None => None,
        }),
{
    let c = all_cleared(lib, url, key);
    assert forall|i: int, j: int| 0 <= i < j < c.len() implies sorting::before(
        (#[trigger] c[i]).0,
        (#[trigger] c[j]).0,
    ) by {
        assert(sorting::before(lib[i].0, lib[j].0));
    }
    textmap::lemma_at(lib, k, 0);
    textmap::lemma_at(c, k, 0);
    if textmap::has_key(lib, k) {
        let p = textmap::at(lib, k);
        assert(c[p].0 == k);
        textmap::keys_are_found(c, p);
    }
    if textmap::has_key(c, k) {
        let q = textmap::at(c, k);
        assert(lib[q].0 == k);
        textmap::keys_are_found(lib, q);
    }
}

proof fn lemma_tidied(lib: Seq<(Seq<char>, AccountView)>, k: Seq<char>)
    requires
        textmap::ordered(lib),
    ensures
        textmap::ordered(tidied(lib)),
        k != UNRESOLVED@ ==> textmap::get(tidied(lib), k) == textmap::get(lib, k),
        textmap::get(tidied(lib), UNRESOLVED@) matches Some(a) ==> textmap::get(lib, UNRESOLVED@)
            == Some(a) && a.caught.len() > 0,
{
    let any: AccountView = arbitrary();
    let other = if k == UNRESOLVED@ {
        k.push('x')
    } else {
        k
    };
    assert(other != UNRESOLVED@) by {
        assert(k.push('x').len() != k.len());
    }
    textmap::writes_are_read_back(lib, UNRESOLVED@, any, other);
}

proof fn lemma_rest(
    lib: Seq<(Seq<char>, AccountView)>,
    url: Seq<char>,
    account: Seq<char>,
    now: i64,
    k: Seq<char>,
)
    requires
        textmap::ordered(lib),
        k != text::lower(account),
    ensures
        textmap::get(resolved(lib, url, account, now), k) == textmap::get(
            tidied(all_cleared(lib, url, text::lower(account))),
            k,
        ),
{
    let key = text::lower(account);
    let moving = elsewhere(lib, url, key);
    let rest = tidied(all_cleared(lib, url, key));
    lemma_cleared(lib, url, key, k);
    lemma_tidied(all_cleared(lib, url, key), k);
    let a = named(account_or_new(rest, key, account, now), account);
    textmap::writes_are_read_back(
        rest,
        key,
        AccountView { caught: with_things(a.caught, moving), ..a },
        k,
    );
}

/// Once the account of a page is known, nothing of that page is left under nobody known
/// or under another account.
pub proof fn resolved_pages_leave(
    lib: Seq<(Seq<char>, AccountView)>,
    url: Seq<char>,
    account: Seq<char>,
    now: i64,
    k: Seq<char>,
    i: int,
)
    requires
        textmap::ordered(lib),
        k != text::lower(account),
        textmap::get(resolved(lib, url, account, now), k) is Some,
        0 <= i < textmap::get(resolved(lib, url, account, now), k)->0.caught.len(),
    ensures
        textmap::get(resolved(lib, url, account, now), k)->0.caught[i].url != url,
{
    let key = text::lower(account);
    lemma_rest(lib, url, account, now, k);
    lemma_cleared(lib, url, key, k);
    lemma_tidied(all_cleared(lib, url, key), k);
    dividing_loses_nothing(textmap::get(lib, k)->0.caught, url);
}

/// What is filed elsewhere than at the page stays where it is, in order; the key for
/// nobody known goes where nothing is left under it.
pub proof fn other_pages_stay(
    lib: Seq<(Seq<char>, AccountView)>,
    url: Seq<char>,
    account: Seq<char>,
    now: i64,
    k: Seq<char>,
)
    requires
        textmap::ordered(lib),
        k != text::lower(account),
        textmap::get(lib, k) is Some,
    ensures
        ({
            let a = textmap::get(lib, k)->0;
            let left = AccountView { caught: at_url(a.caught, url, false), ..a };
            textmap::get(resolved(lib, url, account, now), k) == (if k == UNRESOLVED@
                && left.caught.len() == 0 {
                None
            } else {
                Some(left)
            })
        }),
{
    let key = text::lower(account);
    let c = all_cleared(lib, url, key);
    lemma_rest(lib, url, account, now, k);
    lemma_cleared(lib, url, key, k);
    lemma_tidied(c, k);
    if k == UNRESOLVED@ {
        let any: AccountView = arbitrary();
        assert(k.push('x').len() != k.len());
        textmap::writes_are_read_back(c, UNRESOLVED@, any, k.push('x'));
    }
}

proof fn lemma_things_are_there(s: Seq<CaughtView>, more: Seq<CaughtView>, c: CaughtView)
    requires
        has_thing(s, c) || has_thing(more, c),
    ensures
        has_thing(with_things(s, more), c),
    decreases more.len(),
{
    if more.len() > 0 {
        let d = more.drop_last();
        let w = with_things(s, d);
        let last = more.last();
        if has_thing(s, c) || has_thing(d, c) {
            lemma_things_are_there(s, d, c);
            let k = choose|k: int| 0 <= k < w.len() && same_thing(#[trigger] w[k], c);
            assert(with_thing(w, last)[k] == w[k]);
        } else {
            let k = choose|k: int| 0 <= k < more.len() && same_thing(#[trigger] more[k], c);
            assert(k == more.len() - 1) by {
                if k < more.len() - 1 {
                    assert(d[k] == more[k]);
                }
            }
            if has_thing(w, last) {
                let j = choose|j: int| 0 <= j < w.len() && same_thing(#[trigger] w[j], last);
                assert(same_thing(w[j], c));
            } else {
                assert(with_thing(w, last)[w.len() as int] == last);
            }
        }
    }
}

proof fn lemma_elsewhere(
    lib: Seq<(Seq<char>, AccountView)>,
    url: Seq<char>,
    key: Seq<char>,
    p: int,
    i: int,
)
    requires
        0 <= p < lib.len(),
        lib[p].0 != key,
        0 <= i < lib[p].1.caught.len(),
        lib[p].1.caught[i].url == url,
    ensures
        has_thing(elsewhere(lib, url, key), lib[p].1.caught[i]),
    decreases lib.len(),
{
    let d = lib.drop_last();
    let rest = elsewhere(d, url, key);
    let c = lib[p].1.caught[i];
    if p < lib.len() - 1 {
        assert(d[p] == lib[p]);
        lemma_elsewhere(d, url, key, p, i);
        let k = choose|k: int| 0 <= k < rest.len() && same_thing(#[trigger] rest[k], c);
        assert(elsewhere(lib, url, key)[k] == rest[k]);
    } else {
        lemma_at_url(lib[p].1.caught, url, i);
        let mine = at_url(lib[p].1.caught, url, true);
        let k = choose|k: int| 0 <= k < mine.len() && #[trigger] mine[k] == c;
        assert(elsewhere(lib, url, key)[rest.len() + k] == c);
    }
}

proof fn lemma_at_url(s: Seq<CaughtView>, url: Seq<char>, i: int)
    requires
        0 <= i < s.len(),
        s[i].url == url,
    ensures
        at_url(s, url, true).contains(s[i]),
    decreases s.len(),
{
    let d = s.drop_last();
    let rest = at_url(d, url, true);
    if i < s.len() - 1 {
        assert(d[i] == s[i]);
        lemma_at_url(d, url, i);
        let k = choose|k: int| 0 <= k < rest.len() && rest[k] == s[i];
        assert(at_url(s, url, true)[k] == s[i]);
    } else {
        assert(at_url(s, url, true)[rest.len() as int] == s[i]);
    }
}

/// Once the account of a page is known, whatever was filed at that page under any key is
/// filed under the account.
pub proof fn resolved_pages_arrive(
    lib: Seq<(Seq<char>, AccountView)>,
    url: Seq<char>,
    account: Seq<char>,
    now: i64,
    k: Seq<char>,
    i: int,
)
    requires
        textmap::ordered(lib),
        k != text::lower(account),
        textmap::get(lib, k) is Some,
        0 <= i < textmap::get(lib, k)->0.caught.len(),
        textmap::get(lib, k)->0.caught[i].url == url,
    ensures
        textmap::get(resolved(lib, url, account, now), text::lower(account)) matches Some(a)
            && has_thing(a.caught, textmap::get(lib, k)->0.caught[i]),
{
    let key = text::lower(account);
    let c = textmap::get(lib, k)->0.caught[i];
    let moving = elsewhere(lib, url, key);
    let rest = tidied(all_cleared(lib, url, key));
    textmap::lemma_at(lib, k, 0);
    lemma_elsewhere(lib, url, key, textmap::at(lib, k), i);
    lemma_cleared(lib, url, key, k);
    lemma_tidied(all_cleared(lib, url, key), k);
    let a = named(account_or_new(rest, key, account, now), account);
    lemma_things_are_there(a.caught, moving, c);
    textmap::writes_are_read_back(
        rest,
        key,
        AccountView { caught: with_things(a.caught, moving), ..a },
        k,
    );
}

/// A picture of the account that is found again changes nothing, not even its time.
pub proof fn pictures_are_set_once(
    lib: Seq<(Seq<char>, AccountView)>,
    key: Seq<char>,
    url: Seq<char>,
    now: i64,
    later: i64,
)
    requires
        textmap::ordered(lib),
    ensures
        !wants_avatar(pictured(lib, key, url, now), key, url),
        pictured(pictured(lib, key, url, now), key, url, later) == pictured(lib, key, url, now),
{
    if wants_avatar(lib, key, url) {
        let a = textmap::get(lib, key)->0;
        textmap::writes_are_read_back(
            lib,
            key,
            AccountView { avatar_url: Some(url), avatar_at: now, ..a },
            key.push('x'),
        );
    }
}

} // verus!

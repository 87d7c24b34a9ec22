//! Which backend carries out a download.

use vstd::prelude::*;

use crate::backend;
use crate::backend::{BackendConfig, Confidence, HostRoute, Sniff, provider_label, sniff_ext_is};
use crate::instagram;
use crate::instagram::classify;
use crate::jobs::DownloadKind;
use crate::sorting;
use crate::sorting::{dedup_strings, sort_strings};
use crate::text;
use crate::text::{listed, str_eq};
use crate::torrent;
use crate::urls;
use crate::urls::{host_matches, host_of};
use crate::ytdlp;

verus! {

/// The backends that there are.
#[derive(Clone, Copy, Debug, PartialEq, Eq, Structural)]
pub enum Backend {
    Http,
    Hls,
    Dash,
    Ytdlp,
    Instagram,
    Torrent,
}

/// How strongly a backend claims a URL, given the extension that a look at the
/// content told. Plain HTTP takes whatever nobody else wants.
pub open spec fn claim(b: Backend, url: Seq<char>, ext: Option<Seq<char>>) -> Confidence {
    match b {
        Backend::Http => Confidence::Weak,
        Backend::Hls => if DownloadKind::of_url(url) == DownloadKind::Hls || ext == Some("m3u8"@) {
            Confidence::Strong
        } else {
            Confidence::No
        },
        Backend::Dash => if DownloadKind::of_url(url) == DownloadKind::Dash || ext == Some("mpd"@) {
            Confidence::Strong
        } else {
            Confidence::No
        },
        Backend::Ytdlp => ytdlp::claim(url),
        Backend::Instagram => if instagram::target_of(urls::parsed_url(url)) is Some {
            Confidence::Certain
        } else {
            Confidence::No
        },
        Backend::Torrent => torrent::claim(url),
    }
}

impl Backend {
    /// The identifier of the backend.
    pub open spec fn name(self) -> Seq<char> {
        match self {
            Backend::Http => "http"@,
            Backend::Hls => "hls"@,
            Backend::Dash => "dash"@,
            Backend::Ytdlp => "ytdlp"@,
            Backend::Instagram => "instagram"@,
            Backend::Torrent => "torrent"@,
        }
    }

    /// The identifier of the backend.
    pub fn id(self) -> (r: &'static str)
        ensures
            r@ == self.name(),
    {
        match self {
            Backend::Http => "http",
            Backend::Hls => "hls",
            Backend::Dash => "dash",
            Backend::Ytdlp => "ytdlp",
            Backend::Instagram => "instagram",
            Backend::Torrent => "torrent",
        }
    }

    /// Tells how strongly the backend claims a URL.
    pub fn can_handle(self, url: &str, sniff: &Option<Sniff>) -> (r: Confidence)
        ensures
            r == claim(self, url@, backend::sniffed_ext(*sniff)),
    {
        match self {
            Backend::Http => Confidence::Weak,
            Backend::Hls => if DownloadKind::guess_from_url(url) == DownloadKind::Hls
                || sniff_ext_is(sniff, "m3u8") {
                Confidence::Strong
            } else {
                Confidence::No
            },
            Backend::Dash => if DownloadKind::guess_from_url(url) == DownloadKind::Dash
                || sniff_ext_is(sniff, "mpd") {
                Confidence::Strong
            } else {
                Confidence::No
            },
            Backend::Ytdlp => ytdlp::can_handle(url),
            Backend::Instagram => if classify(url).is_some() {
                Confidence::Certain
            } else {
                Confidence::No
            },
            Backend::Torrent => torrent::can_handle(url),
        }
    }

    /// Whether the backend pauses and resumes its downloads in a session of its own.
    pub fn is_torrent(self) -> (r: bool)
        ensures
            r == (self == Backend::Torrent),
    {
        self == Backend::Torrent
    }

    /// The hosts whose pages the backend downloads.
    pub open spec fn pages(self) -> Seq<Seq<char>> {
        match self {
            Backend::Ytdlp => ytdlp::hosts(),
            Backend::Instagram => seq!["instagram.com"@],
            _ => Seq::empty(),
        }
    }

    /// The hosts whose pages the backend downloads.
    pub fn page_hosts(self) -> (r: Vec<&'static str>)
        ensures
            text::str_texts(r@) == self.pages(),
    {
        match self {
            Backend::Ytdlp => ytdlp::page_hosts(),
            Backend::Instagram => {
                let r: Vec<&'static str> = vec!["instagram.com"];
                assert(text::str_texts(r@) =~= seq!["instagram.com"@]);
                r
            },
            _ => {
                let r: Vec<&'static str> = Vec::new();
                assert(text::str_texts(r@) =~= Seq::empty());
                r
            },
        }
    }
}

/// No two backends share an identifier.
pub proof fn ids_tell_backends_apart(a: Backend, b: Backend)
    ensures
        a.name() == b.name() ==> a == b,
{
    reveal_strlit("http");
    reveal_strlit("hls");
    reveal_strlit("dash");
    reveal_strlit("ytdlp");
    reveal_strlit("instagram");
    reveal_strlit("torrent");
    assert("http"@.len() == 4 && "http"@[0] == 'h');
    assert("hls"@.len() == 3);
    assert("dash"@.len() == 4 && "dash"@[0] == 'd');
    assert("ytdlp"@.len() == 5);
    assert("instagram"@.len() == 9);
    assert("torrent"@.len() == 7);
}

// ---------------------------------------------------------------------------
// Choosing
// ---------------------------------------------------------------------------

/// The first of the backends, from position `i` on, with the given identifier.
pub open spec fn named_from(s: Seq<Backend>, id: Seq<char>, i: int) -> Option<Backend>
    decreases s.len() - i,
{
    if i < 0 || i >= s.len() {
        None
    } else if s[i].name() == id {
        Some(s[i])
    } else {
        named_from(s, id, i + 1)
    }
}

/// The first of the routes, from position `i` on, that a host falls under.
pub open spec fn route_from(routes: Seq<HostRoute>, host: Seq<char>, i: int) -> Option<Seq<char>>
    decreases routes.len() - i,
{
    if i < 0 || i >= routes.len() {
        None
    } else if urls::in_domain(host, routes[i].host_suffix@) {
        Some(routes[i].backend_id@)
    } else {
        route_from(routes, host, i + 1)
    }
}

/// The backend that a URL is routed to, where its first route names one that is
/// there.
pub open spec fn routed(s: Seq<Backend>, routes: Seq<HostRoute>, url: Seq<char>) -> Option<Backend> {
    match urls::host_in(url) {
        Some(host) => match route_from(routes, host, 0) {
            Some(id) => named_from(s, id, 0),
            None => None,
        },
        None => None,
    }
}

/// A backend with its claim.
#[derive(Clone, Copy, Debug, PartialEq, Eq, Structural)]
pub struct Claim {
    pub confidence: Confidence,
    pub backend: Backend,
}

/// The best claim once the backends from position `i` on are asked: a later one
/// wins only where it is stronger.
pub open spec fn best_from(
    s: Seq<Backend>,
    url: Seq<char>,
    ext: Option<Seq<char>>,
    i: int,
    best: Option<Claim>,
) -> Option<Claim>
    decreases s.len() - i,
{
    if i < 0 || i >= s.len() {
        best
    } else {
        let c = claim(s[i], url, ext);
        let better = match best {
            Some(b) => c.level() > b.confidence.level(),
            None => true,
        };
        best_from(
            s,
            url,
            ext,
            i + 1,
            if better {
                Some(Claim { confidence: c, backend: s[i] })
            } else {
                best
            },
        )
    }
}

/// The backend of a claim, or plain HTTP where there is none.
pub open spec fn claimant(best: Option<Claim>) -> Backend {
    match best {
        Some(b) => b.backend,
        None => Backend::Http,
    }
}

/// The backend that a URL alone suggests: the one that it is routed to, else the
/// one with the best claim.
pub open spec fn quick(s: Seq<Backend>, routes: Seq<HostRoute>, url: Seq<char>) -> Backend {
    match routed(s, routes, url) {
        Some(b) => b,
        None => claimant(best_from(s, url, None, 0, None)),
    }
}

/// Where the choice of a backend stands once the URL is looked at.
#[derive(Clone, Copy, Debug, PartialEq, Eq, Structural)]
pub enum Choice {
    Decided(Backend),
    /// The content has to be looked at; so far this is the best claim.
    LookAtContent(Option<Claim>),
}

/// The first of the backends, from position `i` on, that claims a URL for certain.
pub open spec fn certain_from(s: Seq<Backend>, url: Seq<char>, i: int) -> Option<Backend>
    decreases s.len() - i,
{
    if i < 0 || i >= s.len() {
        None
    } else if claim(s[i], url, None) == Confidence::Certain {
        Some(s[i])
    } else {
        certain_from(s, url, i + 1)
    }
}

/// The choice of a backend by the URL: the one that it is routed to, else one that
/// claims it for certain, else the best claim, where that is at least strong.
pub open spec fn choice_by_url(s: Seq<Backend>, routes: Seq<HostRoute>, url: Seq<char>) -> Choice {
    match routed(s, routes, url) {
        Some(b) => Choice::Decided(b),
        None => match certain_from(s, url, 0) {
            Some(b) => Choice::Decided(b),
            None => {
                let best = best_from(s, url, None, 0, None);
                let strong = match best {
                    Some(b) => b.confidence.level() >= Confidence::Strong.level(),
                    None => false,
                };
                if strong {
                    Choice::Decided(claimant(best))
                } else {
                    Choice::LookAtContent(best)
                }
            },
        },
    }
}

/// The backends that are in use. Plain HTTP is always among them.
#[derive(Debug)]
pub struct BackendRegistry {
    backends: Vec<Backend>,
}

impl View for BackendRegistry {
    type V = Seq<Backend>;

    closed spec fn view(&self) -> Seq<Backend> {
        self.backends@
    }
}

impl BackendRegistry {
    #[verifier::type_invariant]
    spec fn has_http(&self) -> bool {
        self.backends@.len() > 0 && self.backends@[0] == Backend::Http
    }

    /// The three backends that need no other program.
    pub fn with_builtins() -> (r: Self)
        ensures
            r@ == seq![Backend::Http, Backend::Hls, Backend::Dash],
    {
        BackendRegistry { backends: vec![Backend::Http, Backend::Hls, Backend::Dash] }
    }

    /// Adds a backend behind the others.
    pub fn register(&mut self, backend: Backend)
        ensures
            final(self)@ == old(self)@.push(backend),
    {
        proof {
            use_type_invariant(&*self);
        }
        let mut list: Vec<Backend> = vec![Backend::Http];
        core::mem::swap(&mut list, &mut self.backends);
        list.push(backend);
        self.backends = list;
    }

    /// The first backend with an identifier.
    pub fn get(&self, id: &str) -> (r: Option<Backend>)
        ensures
            r == named_from(self@, id@, 0),
    {
        let mut i: usize = 0;
        while i < self.backends.len()
            invariant
                i <= self.backends.len(),
                named_from(self@, id@, 0) == named_from(self@, id@, i as int),
            decreases self.backends.len() - i,
        {
            if str_eq(self.backends[i].id(), id) {
                return Some(self.backends[i]);
            }
            i += 1;
        }
        None
    }

    /// The backend for plain HTTP.
    pub fn http(&self) -> (r: Backend)
        ensures
            r == Backend::Http,
            self@.contains(r),
            named_from(self@, "http"@, 0) == Some(r),
    {
        proof {
            use_type_invariant(self);
            assert(self@[0] == Backend::Http);
        }
        self.backends[0]
    }

    /// The backend that an entry names, or else plain HTTP.
    pub fn get_or_http(&self, id: &str) -> (r: Backend)
        ensures
            r == (match named_from(self@, id@, 0) {
                Some(b) => b,
                None => Backend::Http,
            }),
    {
        match self.get(id) {
            Some(b) => b,
            None => self.http(),
        }
    }

    fn route(&self, url: &str, cfg: &BackendConfig) -> (r: Option<Backend>)
        ensures
            r == routed(self@, cfg.host_routing@, url@),
    {
        let host = match host_of(url) {
            Some(h) => h,
            None => {
                return None;
            },
        };
        let mut i: usize = 0;
        while i < cfg.host_routing.len()
            invariant
                i <= cfg.host_routing.len(),
                urls::host_in(url@) == Some(host@),
                route_from(cfg.host_routing@, host@, 0) == route_from(
                    cfg.host_routing@,
                    host@,
                    i as int,
                ),
            decreases cfg.host_routing.len() - i,
        {
            if host_matches(host.as_str(), cfg.host_routing[i].host_suffix.as_str()) {
                return self.get(cfg.host_routing[i].backend_id.as_str());
            }
            i += 1;
        }
        None
    }

    fn best_claim(&self, url: &str, sniff: &Option<Sniff>, start: Option<Claim>) -> (r: Option<Claim>)
        ensures
            r == best_from(self@, url@, backend::sniffed_ext(*sniff), 0, start),
    {
        let mut best = start;
        let mut i: usize = 0;
        while i < self.backends.len()
            invariant
                i <= self.backends.len(),
                best_from(self@, url@, backend::sniffed_ext(*sniff), 0, start) == best_from(
                    self@,
                    url@,
                    backend::sniffed_ext(*sniff),
                    i as int,
                    best,
                ),
            decreases self.backends.len() - i,
        {
            let b = self.backends[i];
            let c = b.can_handle(url, sniff);
            let better = match best {
                Some(x) => c.rank() > x.confidence.rank(),
                None => true,
            };
            if better {
                best = Some(Claim { confidence: c, backend: b });
            }
            i += 1;
        }
        best
    }

    /// The identifier of the backend that a URL alone suggests.
    pub fn quick_id(&self, url: &str, cfg: &BackendConfig) -> (r: &'static str)
        ensures
            r@ == quick(self@, cfg.host_routing@, url@).name(),
    {
        match self.route(url, cfg) {
            Some(b) => b.id(),
            None => match self.best_claim(url, &None, None) {
                Some(b) => b.backend.id(),
                None => "http",
            },
        }
    }

    /// Chooses a backend by the URL, as far as that goes.
    pub fn resolve(&self, url: &str, cfg: &BackendConfig) -> (r: Choice)
        ensures
            r == choice_by_url(self@, cfg.host_routing@, url@),
    {
        match self.route(url, cfg) {
            Some(b) => {
                return Choice::Decided(b);
            },
            None => {},
        }
        let mut i: usize = 0;
        while i < self.backends.len()
            invariant
                i <= self.backends.len(),
                routed(self@, cfg.host_routing@, url@) is None,
                certain_from(self@, url@, 0) == certain_from(self@, url@, i as int),
            decreases self.backends.len() - i,
        {
            if self.backends[i].can_handle(url, &None) == Confidence::Certain {
                return Choice::Decided(self.backends[i]);
            }
            i += 1;
        }
        let best = self.best_claim(url, &None, None);
        match best {
            Some(b) => if b.confidence.rank() >= Confidence::Strong.rank() {
                Choice::Decided(b.backend)
            } else {
                Choice::LookAtContent(best)
            },
            None => Choice::LookAtContent(best),
        }
    }

    /// Chooses a backend once the content was looked at; `best` is what
    /// [`Self::resolve`] gave.
    pub fn resolve_with_content(&self, url: &str, best: Option<Claim>, sniff: Sniff) -> (r: Backend)
        ensures
            r == claimant(best_from(self@, url@, text::opt(sniff.real_ext), 0, best)),
    {
        let sniff = Some(sniff);
        match self.best_claim(url, &sniff, best) {
            Some(b) => b.backend,
            None => self.http(),
        }
    }

    /// The names of the backends for people, each once, in their order.
    pub fn provider_labels(&self) -> (r: Vec<String>)
        ensures
            text::texts(r@) == labels(self@),
    {
        let mut out: Vec<String> = Vec::new();
        let mut i: usize = 0;
        assert(self@.take(0) =~= Seq::empty());
        assert(text::texts(out@) =~= Seq::empty());
        while i < self.backends.len()
            invariant
                i <= self.backends.len(),
                self@ == self.backends@,
                text::texts(out@) == labels(self@.take(i as int)),
            decreases self.backends.len() - i,
        {
            let label = provider_label(self.backends[i].id());
            proof {
                let next = self@.take(i + 1);
                assert(next.drop_last() =~= self@.take(i as int));
                assert(next.last() == self.backends@[i as int]);
            }
            if !listed(&out, label) {
                let ghost before = text::texts(out@);
                out.push(label.to_string());
                assert(text::texts(out@) =~= before.push(label@));
            }
            i += 1;
        }
        assert(self@.take(self@.len() as int) =~= self@);
        out
    }

    /// The hosts whose pages some backend downloads, in order, each once.
    pub fn page_hosts(&self) -> (r: Vec<String>)
        ensures
            text::texts(r@) == sorting::deduped(sorting::sorted(all_pages(self@))),
    {
        let mut out: Vec<String> = Vec::new();
        let mut i: usize = 0;
        assert(self@.take(0) =~= Seq::empty());
        assert(text::texts(out@) =~= Seq::empty());
        while i < self.backends.len()
            invariant
                i <= self.backends.len(),
                self@ == self.backends@,
                text::texts(out@) == all_pages(self@.take(i as int)),
            decreases self.backends.len() - i,
        {
            let hosts = self.backends[i].page_hosts();
            let ghost more = text::str_texts(hosts@);
            let ghost before = text::texts(out@);
            proof {
                let next = self@.take(i + 1);
                assert(next.drop_last() =~= self@.take(i as int));
                assert(next.last() == self.backends@[i as int]);
            }
            let mut j: usize = 0;
            assert(before + more.take(0) =~= before);
            while j < hosts.len()
                invariant
                    j <= hosts.len(),
                    more == text::str_texts(hosts@),
                    text::texts(out@) == before + more.take(j as int),
                decreases hosts.len() - j,
            {
                let ghost so_far = text::texts(out@);
                out.push(hosts[j].to_string());
                assert(text::texts(out@) =~= so_far.push(hosts@[j as int]@));
                assert(more[j as int] == hosts@[j as int]@);
                j += 1;
                assert(text::texts(out@) =~= before + more.take(j as int));
            }
            assert(more.take(hosts@.len() as int) =~= more);
            i += 1;
        }
        assert(self@.take(self@.len() as int) =~= self@);
        dedup_strings(&sort_strings(&out))
    }
}

/// The names of backends for people, each once.
pub open spec fn labels(s: Seq<Backend>) -> Seq<Seq<char>>
    decreases s.len(),
{
    if s.len() == 0 {
        Seq::empty()
    } else {
        let rest = labels(s.drop_last());
        let label = backend::label_of(s.last().name());
        if rest.contains(label) {
            rest
        } else {
            rest.push(label)
        }
    }
}

/// The hosts whose pages backends download, in the order of the backends.
pub open spec fn all_pages(s: Seq<Backend>) -> Seq<Seq<char>>
    decreases s.len(),
{
    if s.len() == 0 {
        Seq::empty()
    } else {
        all_pages(s.drop_last()) + s.last().pages()
    }
}

// ---------------------------------------------------------------------------
// What the choice keeps to
// ---------------------------------------------------------------------------

proof fn lemma_named(s: Seq<Backend>, id: Seq<char>, i: int)
    requires
        0 <= i <= s.len(),
    ensures
        named_from(s, id, i) matches Some(b) ==> s.contains(b) && b.name() == id,
    decreases s.len() - i,
{
    if i < s.len() && s[i].name() != id {
        lemma_named(s, id, i + 1);
    }
}

proof fn lemma_best(
    s: Seq<Backend>,
    url: Seq<char>,
    ext: Option<Seq<char>>,
    i: int,
    best: Option<Claim>,
)
    requires
        0 <= i <= s.len(),
    ensures
        ({
            let r = best_from(s, url, ext, i, best);
            &&& best is Some ==> r is Some && r->0.confidence.level() >= best->0.confidence.level()
            &&& r == best || (r matches Some(c) && s.contains(c.backend) && c.confidence == claim(
                c.backend,
                url,
                ext,
            ))
            &&& forall|j: int|
                i <= j < s.len() ==> r is Some && r->0.confidence.level() >= claim(
                    #[trigger] s[j],
                    url,
                    ext,
                ).level()
        }),
    decreases s.len() - i,
{
    if i < s.len() {
        let c = claim(s[i], url, ext);
        let better = match best {
            Some(b) => c.level() > b.confidence.level(),
            None => true,
        };
        let next = if better {
            Some(Claim { confidence: c, backend: s[i] })
        } else {
            best
        };
        lemma_best(s, url, ext, i + 1, next);
        assert(s.contains(s[i]));
    }
}

/// A URL that is routed goes to the backend of its route, whoever else claims it.
pub proof fn routes_win(s: Seq<Backend>, routes: Seq<HostRoute>, url: Seq<char>, b: Backend)
    requires
        routed(s, routes, url) == Some(b),
    ensures
        choice_by_url(s, routes, url) == Choice::Decided(b),
        quick(s, routes, url) == b,
        s.contains(b),
{
    match urls::host_in(url) {
        Some(host) => match route_from(routes, host, 0) {
            Some(id) => {
                lemma_named(s, id, 0);
            },
            None => {},
        },
        None => {},
    }
}

/// Whoever a URL goes to in the end is among the backends, and nobody's claim is
/// stronger, routes aside.
pub proof fn the_strongest_claim_wins(
    s: Seq<Backend>,
    url: Seq<char>,
    ext: Option<Seq<char>>,
    rival: Backend,
)
    requires
        s.contains(rival),
    ensures
        best_from(s, url, ext, 0, None) matches Some(c) && s.contains(c.backend)
            && c.confidence == claim(c.backend, url, ext) && c.confidence.level() >= claim(
            rival,
            url,
            ext,
        ).level(),
{
    lemma_best(s, url, ext, 0, None);
    let j = choose|j: int| 0 <= j < s.len() && s[j] == rival;
    assert(s[j] == rival);
}

/// A URL that nobody claims goes to plain HTTP.
pub proof fn unclaimed_urls_go_to_http(s: Seq<Backend>, url: Seq<char>, ext: Option<Seq<char>>)
    requires
        s.contains(Backend::Http),
        forall|i: int|
            0 <= i < s.len() && #[trigger] s[i] != Backend::Http ==> claim(s[i], url, ext)
                == Confidence::No,
    ensures
        claimant(best_from(s, url, ext, 0, None)) == Backend::Http,
{
    the_strongest_claim_wins(s, url, ext, Backend::Http);
    let c = best_from(s, url, ext, 0, None)->0;
    let j = choose|j: int| 0 <= j < s.len() && s[j] == c.backend;
    assert(s[j] == c.backend);
}

} // verus!

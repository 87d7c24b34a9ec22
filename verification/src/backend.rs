//! What download backends share: how they claim URLs, what they are asked for and
//! what they produce, and how they are configured.

use vstd::prelude::*;

use crate::jobs;
use crate::jobs::{DownloadKind, sanitize_dest_for_kind};
use crate::net::RequestContext;
use crate::paths;
use crate::paths::join_path;
use crate::strmap::StrMap;
use crate::text;
use crate::text::str_eq;

verus! {

/// How strongly a backend claims a URL. Higher wins.
#[derive(Clone, Copy, Debug, PartialEq, Eq, PartialOrd, Ord, Structural)]
pub enum Confidence {
    No,
    Weak,
    Strong,
    Certain,
}

impl Confidence {
    /// The place of the claim among the claims, from 0 up.
    pub open spec fn level(self) -> int {
        match self {
            Confidence::No => 0,
            Confidence::Weak => 1,
            Confidence::Strong => 2,
            Confidence::Certain => 3,
        }
    }

    /// The place of the claim among the claims, from 0 up.
    pub fn rank(self) -> (r: u8)
        ensures
            r == self.level(),
    {
        match self {
            Confidence::No => 0,
            Confidence::Weak => 1,
            Confidence::Strong => 2,
            Confidence::Certain => 3,
        }
    }
}

/// What a look at the content told, for a second opinion where the URL alone is
/// ambiguous.
#[derive(Debug)]
pub struct Sniff {
    pub real_ext: Option<String>,
    pub content_type: Option<String>,
}

impl Default for Sniff {
    fn default() -> (r: Self)
        ensures
            r.real_ext is None,
            r.content_type is None,
    {
        Sniff { real_ext: None, content_type: None }
    }
}

/// The extension that a look at the content told.
pub open spec fn sniffed_ext(sniff: Option<Sniff>) -> Option<Seq<char>> {
    match sniff {
        Some(s) => text::opt(s.real_ext),
        None => None,
    }
}

/// Whether a look at the content told the given extension.
pub fn sniff_ext_is(sniff: &Option<Sniff>, want: &str) -> (r: bool)
    ensures
        r == (sniffed_ext(*sniff) == Some(want@)),
{
    match sniff {
        Some(s) => match &s.real_ext {
            Some(e) => str_eq(e.as_str(), want),
            None => false,
        },
        None => false,
    }
}

/// Everything that a backend needs for one download.
#[derive(Debug)]
pub struct DownloadReq {
    pub url: String,
    /// The directory that the output goes to; the backend names the files.
    pub dest_dir: String,
    pub filename_hint: Option<String>,
    pub ctx: RequestContext,
    /// The variant that was chosen, in terms of the backend.
    pub quality: Option<String>,
    /// Further wishes, in terms of the backend.
    pub extras: StrMap<String>,
    pub concurrency: usize,
    pub config: BackendConfig,
}

/// Where a download of a kind is to end up.
pub open spec fn dest_in(
    dest_dir: Seq<char>,
    filename_hint: Option<Seq<char>>,
    kind: DownloadKind,
) -> Seq<char> {
    let name = match filename_hint {
        Some(n) => n,
        None => "download"@,
    };
    jobs::dest_for_kind(paths::join(dest_dir, name), kind)
}

/// Settles where a requested download of a kind is to end up.
pub fn dest_for(req: &DownloadReq, kind: DownloadKind) -> (r: String)
    ensures
        r@ == dest_in(req.dest_dir@, text::opt(req.filename_hint), kind),
{
    let path = match &req.filename_hint {
        Some(n) => join_path(req.dest_dir.as_str(), n.as_str()),
        None => join_path(req.dest_dir.as_str(), "download"),
    };
    sanitize_dest_for_kind(path.as_str(), kind)
}

/// What a completed download produced.
#[derive(Debug)]
pub struct Outcome {
    pub files: Vec<String>,
    /// What was learnt of the download on the way.
    pub meta: EntryMeta,
    /// How many files there were to be, where the backend knows.
    pub expected_units: Option<u64>,
}

impl Outcome {
    /// The outcome of a download of one file.
    pub fn single(path: String) -> (r: Self)
        ensures
            r.files@ == seq![path],
            r.meta.nothing(),
            r.expected_units is None,
    {
        Outcome { files: vec![path], meta: EntryMeta::default(), expected_units: None }
    }
}

/// What downloads are grouped by, each part where it is known.
#[derive(Debug)]
pub struct EntryMeta {
    /// A channel, an uploader or an `@account`.
    pub author: Option<String>,
    /// A title for people.
    pub title: Option<String>,
    /// The group within an author, such as `post` or `story`.
    pub media_class: Option<String>,
    /// The folder that this download has to itself.
    pub out_dir: Option<String>,
}

impl EntryMeta {
    /// Whether no part is known.
    pub open spec fn nothing(self) -> bool {
        self.author is None && self.title is None && self.media_class is None && self.out_dir is None
    }

    /// Tells whether no part is known.
    pub fn is_empty(&self) -> (r: bool)
        ensures
            r == self.nothing(),
    {
        self.author.is_none() && self.title.is_none() && self.media_class.is_none()
            && self.out_dir.is_none()
    }
}

impl Default for EntryMeta {
    fn default() -> (r: Self)
        ensures
            r.nothing(),
    {
        EntryMeta { author: None, title: None, media_class: None, out_dir: None }
    }
}

// ---------------------------------------------------------------------------
// Identifiers
// ---------------------------------------------------------------------------

/// The identifier of the backend for a kind of download.
pub open spec fn id_of_kind(kind: DownloadKind) -> Seq<char> {
    match kind {
        DownloadKind::Http => "http"@,
        DownloadKind::Hls => "hls"@,
        DownloadKind::Dash => "dash"@,
    }
}

/// The identifier of the backend for a kind of download.
pub fn backend_id_for_kind(kind: DownloadKind) -> (r: &'static str)
    ensures
        r@ == id_of_kind(kind),
{
    match kind {
        DownloadKind::Http => "http",
        DownloadKind::Hls => "hls",
        DownloadKind::Dash => "dash",
    }
}

/// The kind of download that a backend stands for; plain HTTP for every other
/// backend.
pub open spec fn kind_of_id(id: Seq<char>) -> DownloadKind {
    if id == "hls"@ {
        DownloadKind::Hls
    } else if id == "dash"@ {
        DownloadKind::Dash
    } else {
        DownloadKind::Http
    }
}

/// The kind of download that a backend stands for.
pub fn kind_for_backend_id(id: &str) -> (r: DownloadKind)
    ensures
        r == kind_of_id(id@),
{
    if str_eq(id, "hls") {
        DownloadKind::Hls
    } else if str_eq(id, "dash") {
        DownloadKind::Dash
    } else {
        DownloadKind::Http
    }
}

/// Every kind is found again by the identifier of its backend.
pub proof fn kinds_survive_their_ids(kind: DownloadKind)
    ensures
        kind_of_id(id_of_kind(kind)) == kind,
{
    reveal_strlit("http");
    reveal_strlit("hls");
    reveal_strlit("dash");
    assert("http"@.len() == 4 && "hls"@.len() == 3 && "dash"@.len() == 4);
    assert("http"@[0] == 'h' && "dash"@[0] == 'd');
}

/// The name of a backend for people.
pub open spec fn label_of(id: Seq<char>) -> Seq<char> {
    if id == "http"@ || id == "hls"@ || id == "dash"@ {
        "Lüdd"@
    } else if id == "ytdlp"@ {
        "yt-dlp"@
    } else if id == "instagram"@ {
        "Lüdd-Insta"@
    } else {
        id
    }
}

/// The name of a backend for people.
pub fn provider_label(backend_id: &str) -> (r: &str)
    ensures
        r@ == label_of(backend_id@),
{
    if str_eq(backend_id, "http") || str_eq(backend_id, "hls") || str_eq(backend_id, "dash") {
        "Lüdd"
    } else if str_eq(backend_id, "ytdlp") {
        "yt-dlp"
    } else if str_eq(backend_id, "instagram") {
        "Lüdd-Insta"
    } else {
        backend_id
    }
}

// ---------------------------------------------------------------------------
// Configuration
// ---------------------------------------------------------------------------

/// The configuration of the backends.
#[derive(Clone, Debug)]
pub struct BackendConfig {
    /// The yt-dlp program; the bundled one or the one on the path where unset.
    pub ytdlp_path: Option<String>,
    pub instaloader_path: Option<String>,
    pub python_path: Option<String>,
    /// The first engine for Instagram: `custom`, also where unset, or
    /// `instaloader`.
    pub instagram_engine_main: Option<String>,
    /// The engine that is tried where the first one fails: `none`, also where
    /// unset, `custom` or `instaloader`.
    pub instagram_engine_fallback: Option<String>,
    /// The browser that cookies are taken from.
    pub cookies_from_browser: Option<String>,
    /// Hosts that go to a chosen backend.
    pub host_routing: Vec<HostRoute>,
    pub instagram: InstagramConfig,
    pub torrent: TorrentConfig,
}

impl Default for BackendConfig {
    fn default() -> (r: Self)
        ensures
            r.ytdlp_path is None,
            r.instaloader_path is None,
            r.python_path is None,
            r.instagram_engine_main is None,
            r.instagram_engine_fallback is None,
            r.cookies_from_browser is None,
            r.host_routing@ == Seq::<HostRoute>::empty(),
            r.instagram.is_default(),
            r.torrent == TorrentConfig::unset(),
    {
        BackendConfig {
            ytdlp_path: None,
            instaloader_path: None,
            python_path: None,
            instagram_engine_main: None,
            instagram_engine_fallback: None,
            cookies_from_browser: None,
            host_routing: Vec::new(),
            instagram: InstagramConfig::default(),
            torrent: TorrentConfig::default(),
        }
    }
}

/// A host with its subdomains, and the backend that it goes to.
#[derive(Clone, Debug)]
pub struct HostRoute {
    pub host_suffix: String,
    pub backend_id: String,
}

/// How Instagram is asked.
#[derive(Clone, Debug)]
pub struct InstagramConfig {
    /// The session cookie for URLs that come without one.
    pub session_cookie: Option<String>,
    /// The persisted query for one post.
    pub doc_id_shortcode: Option<String>,
    /// The persisted query for the posts of an account.
    pub doc_id_timeline: Option<String>,
    pub query_hash_reels: Option<String>,
    pub app_id: String,
}

impl InstagramConfig {
    /// Whether the configuration is the one that works out of the box.
    pub open spec fn is_default(self) -> bool {
        &&& self.session_cookie is None
        &&& text::opt(self.doc_id_shortcode) == Some("24368985919464652"@)
        &&& text::opt(self.doc_id_timeline) == Some("8759034877476257"@)
        &&& self.query_hash_reels is None
        &&& self.app_id@ == "936619743392459"@
    }
}

impl Default for InstagramConfig {
    fn default() -> (r: Self)
        ensures
            r.is_default(),
    {
        InstagramConfig {
            session_cookie: None,
            doc_id_shortcode: Some("24368985919464652".to_string()),
            doc_id_timeline: Some("8759034877476257".to_string()),
            query_hash_reels: None,
            app_id: "936619743392459".to_string(),
        }
    }
}

/// How torrents are handled.
#[derive(Clone, Debug)]
pub struct TorrentConfig {
    pub download_dir: Option<String>,
    pub listen_port: Option<u16>,
    pub download_limit_kbps: Option<u32>,
    pub upload_limit_kbps: Option<u32>,
    pub enable_dht: Option<bool>,
    pub enable_upnp: Option<bool>,
    pub max_peers_per_torrent: Option<u32>,
    /// Whether a torrent goes on being offered once it is complete.
    pub seed_forever: Option<bool>,
}

impl TorrentConfig {
    /// The configuration in which nothing is set.
    pub open spec fn unset() -> TorrentConfig {
        TorrentConfig {
            download_dir: None,
            listen_port: None,
            download_limit_kbps: None,
            upload_limit_kbps: None,
            enable_dht: None,
            enable_upnp: None,
            max_peers_per_torrent: None,
            seed_forever: None,
        }
    }
}

impl Default for TorrentConfig {
    fn default() -> (r: Self)
        ensures
            r == TorrentConfig::unset(),
    {
        TorrentConfig {
            download_dir: None,
            listen_port: None,
            download_limit_kbps: None,
            upload_limit_kbps: None,
            enable_dht: None,
            enable_upnp: None,
            max_peers_per_torrent: None,
            seed_forever: None,
        }
    }
}

} // verus!

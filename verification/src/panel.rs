//! What the browser extension is told, and what its requests lead to.

use vstd::prelude::*;

use crate::backend;
use crate::backend::{BackendConfig, provider_label};
use crate::detections;
use crate::detections::{Detections, DetectionsView, ItemView, MediaReport, VideoListItem};
use crate::headers;
use crate::headers::flatten_headers;
use crate::net;
use crate::net::RequestContext;
use crate::pages;
use crate::pages::{canonical_page_url, is_page_host};
use crate::preview;
use crate::preview::{Preview, progressive_url};
use crate::quality;
use crate::quality::QualityOption;
use crate::queueing::QueueRequest;
use crate::registry;
use crate::registry::BackendRegistry;
use crate::sorting;
use crate::strmap::StrMap;
use crate::text;
use crate::text::{copy_opt, owned, str_eq};
use crate::textmap;
use crate::textmap::TextMap;

verus! {

// ---------------------------------------------------------------------------
// What the extension is told
// ---------------------------------------------------------------------------

/// What the extension is told in answer to a request.
#[derive(Debug)]
pub struct SyncResponse {
    /// Whether the extension goes on reporting.
    pub enabled: bool,
    pub file_exts: Vec<String>,
    /// Hosts whose requests are not reported.
    pub blocked_hosts: Vec<String>,
    pub tabs_watcher: Vec<String>,
    pub video_list: Vec<VideoListItem>,
    /// Extensions of requests that are reported.
    pub request_file_exts: Vec<String>,
    pub matching_hosts: Vec<String>,
    /// Content types of requests that are reported.
    pub media_types: Vec<String>,
    /// Hosts whose pages are reported.
    pub page_hosts: Vec<String>,
    /// Which build is running.
    pub server_build: String,
    /// The names of the backends.
    pub providers: Vec<String>,
    pub new_detection: Option<VideoListItem>,
    pub vid_queued: Option<bool>,
    pub quality_variants: Option<Vec<QualityOption>>,
    pub preview_data_url: Option<String>,
    pub preview_kind: Option<String>,
    /// Why there is no preview.
    pub preview_error: Option<String>,
}

/// Extensions of requests that are reported.
pub open spec fn media_exts() -> Seq<Seq<char>> {
    seq![
        ".M3U8"@,
        ".MPD"@,
        ".MP4"@,
        ".M4V"@,
        ".M4A"@,
        ".WEBM"@,
        ".MKV"@,
        ".MOV"@,
        ".AVI"@,
        ".FLV"@,
        ".TS"@,
        ".MP3"@,
        ".AAC"@,
        ".WAV"@,
        ".OGG"@,
        ".FLAC"@,
        ".PDF"@,
        ".JPG"@,
        ".JPEG"@,
        ".PNG"@,
        ".GIF"@,
        ".WEBP"@,
        ".BMP"@,
        ".SVG"@,
    ]
}

/// Content types of requests that are reported.
pub open spec fn media_types() -> Seq<Seq<char>> {
    seq![
        "video/"@,
        "audio/"@,
        "application/vnd.apple.mpegurl"@,
        "application/x-mpegurl"@,
        "application/dash+xml"@,
        "application/vnd.ms-sstr+xml"@,
        "application/pdf"@,
        "image/"@,
    ]
}

/// Hosts that serve what surrounds media, never media.
pub open spec fn blocked_hosts() -> Seq<Seq<char>> {
    seq![
        "ytimg.com"@,
        "ggpht.com"@,
        "gstatic.com"@,
        "googleusercontent.com"@,
        "google-analytics.com"@,
        "googletagmanager.com"@,
        "doubleclick.net"@,
        "googlesyndication.com"@,
        "fonts.googleapis.com"@,
        "cdn.jsdelivr.net"@,
    ]
}

/// Lists the extensions of requests that are reported.
pub fn default_media_exts() -> (r: Vec<String>)
    ensures
        text::texts(r@) == media_exts(),
{
    let list: Vec<&str> = vec![
        ".M3U8", ".MPD", ".MP4", ".M4V", ".M4A", ".WEBM", ".MKV", ".MOV", ".AVI", ".FLV", ".TS",
        ".MP3", ".AAC", ".WAV", ".OGG", ".FLAC", ".PDF", ".JPG", ".JPEG", ".PNG", ".GIF", ".WEBP",
        ".BMP", ".SVG",
    ];
    assert(text::str_texts(list@) =~= media_exts());
    owned(&list)
}

/// Lists the content types of requests that are reported.
pub fn default_media_types() -> (r: Vec<String>)
    ensures
        text::texts(r@) == media_types(),
{
    let list: Vec<&str> = vec![
        "video/", "audio/", "application/vnd.apple.mpegurl", "application/x-mpegurl",
        "application/dash+xml", "application/vnd.ms-sstr+xml", "application/pdf", "image/",
    ];
    assert(text::str_texts(list@) =~= media_types());
    owned(&list)
}

/// Lists the hosts that serve what surrounds media, never media.
pub fn default_blocked_hosts() -> (r: Vec<String>)
    ensures
        text::texts(r@) == blocked_hosts(),
{
    let list: Vec<&str> = vec![
        "ytimg.com", "ggpht.com", "gstatic.com", "googleusercontent.com", "google-analytics.com",
        "googletagmanager.com", "doubleclick.net", "googlesyndication.com", "fonts.googleapis.com",
        "cdn.jsdelivr.net",
    ];
    assert(text::str_texts(list@) =~= blocked_hosts());
    owned(&list)
}

impl SyncResponse {
    /// Whether the answer says what every answer says, and nothing beyond it but a new
    /// item.
    pub open spec fn is_plain(
        self,
        enabled: bool,
        items: Seq<ItemView>,
        new_item: Option<ItemView>,
    ) -> bool {
        &&& self.is_common(enabled, items)
        &&& detections::item_view(self.new_detection) == new_item
        &&& self.vid_queued is None
        &&& self.quality_variants is None
        &&& self.preview_data_url is None
        &&& self.preview_kind is None
        &&& self.preview_error is None
        &&& self.page_hosts@.len() == 0
        &&& self.server_build@.len() == 0
        &&& self.providers@.len() == 0
    }

    /// Whether the answer says what every answer says.
    pub open spec fn is_common(self, enabled: bool, items: Seq<ItemView>) -> bool {
        &&& self.enabled == enabled
        &&& self.file_exts@.len() == 0
        &&& text::texts(self.blocked_hosts@) == blocked_hosts()
        &&& self.tabs_watcher@.len() == 0
        &&& detections::item_views(self.video_list@) == items
        &&& text::texts(self.request_file_exts@) == media_exts()
        &&& self.matching_hosts@.len() == 0
        &&& text::texts(self.media_types@) == media_types()
    }
}

/// Makes an answer.
pub fn sync_response(
    enabled: bool,
    video_list: Vec<VideoListItem>,
    new_detection: Option<VideoListItem>,
) -> (r: SyncResponse)
    ensures
        r.is_plain(
            enabled,
            detections::item_views(video_list@),
            detections::item_view(new_detection),
        ),
{
    let server_build = String::new();
    assert(server_build@ =~= Seq::empty());
    SyncResponse {
        enabled,
        file_exts: Vec::new(),
        blocked_hosts: default_blocked_hosts(),
        tabs_watcher: Vec::new(),
        video_list,
        request_file_exts: default_media_exts(),
        matching_hosts: Vec::new(),
        media_types: default_media_types(),
        page_hosts: Vec::new(),
        server_build,
        providers: Vec::new(),
        new_detection,
        vid_queued: None,
        quality_variants: None,
        preview_data_url: None,
        preview_kind: None,
        preview_error: None,
    }
}

// ---------------------------------------------------------------------------
// What is known of the reports
// ---------------------------------------------------------------------------

/// What the extension reported, and what was found out of it.
#[derive(Debug)]
pub struct Panel {
    /// Whether the extension goes on reporting.
    pub enabled: bool,
    pub detections: Detections,
    /// Previews by address; a page without one is known to have none.
    pub previews: TextMap<Option<Preview>>,
    /// Variants by address.
    pub qualities: TextMap<Vec<QualityOption>>,
}

/// Where a page is also filed.
#[derive(Clone, Copy, Debug, PartialEq, Eq, Structural)]
pub enum Catch {
    Nowhere,
    /// With what was seen of Instagram accounts.
    Instagram,
    /// With the videos that were seen.
    Videos,
}

/// Where a page of a provider is also filed.
pub open spec fn catch_of(provider: Seq<char>) -> Catch {
    if provider == "Lüdd-Insta"@ {
        Catch::Instagram
    } else if provider == "yt-dlp"@ {
        Catch::Videos
    } else {
        Catch::Nowhere
    }
}

fn catch_for(provider: &str) -> (r: Catch)
    ensures
        r == catch_of(provider@),
{
    if str_eq(provider, "Lüdd-Insta") {
        Catch::Instagram
    } else if str_eq(provider, "yt-dlp") {
        Catch::Videos
    } else {
        Catch::Nowhere
    }
}

/// The name of the backend that an address alone suggests.
pub open spec fn provider_in(
    backends: Seq<registry::Backend>,
    routes: Seq<backend::HostRoute>,
    url: Seq<char>,
) -> Seq<char> {
    backend::label_of(registry::quick(backends, routes, url).name())
}

fn provider_of(registry: &BackendRegistry, cfg: &BackendConfig, url: &str) -> (r: String)
    ensures
        r@ == provider_in(registry@, cfg.host_routing@, url@),
{
    provider_label(registry.quick_id(url, cfg)).to_string()
}

/// The hosts whose pages some backend downloads.
pub open spec fn hosts_of(backends: Seq<registry::Backend>) -> Seq<Seq<char>> {
    sorting::deduped(sorting::sorted(registry::all_pages(backends)))
}

/// A page that was reported.
#[derive(Debug)]
pub struct PageSeen {
    /// The address that stands for the page.
    pub url: String,
    pub catch: Catch,
    /// The item to offer, where it is new or its title settled.
    pub item: Option<VideoListItem>,
}

/// What a click on an item leads to.
#[derive(Debug)]
pub struct VidPlan {
    pub request: QueueRequest,
    /// Whether the video is also filed with those that were seen.
    pub files_video: bool,
    /// Whether a preview is still to be made.
    pub wants_preview: bool,
}

/// What is done to learn the variants of an item.
#[derive(Debug)]
pub enum QualityStep {
    /// There is no such item.
    Unknown,
    /// They are known.
    Known(Vec<QualityOption>),
    /// The backend is asked.
    Ask { url: String, ctx: RequestContext },
}

/// What is done for a preview of an item.
#[derive(Debug)]
pub enum PreviewPlan {
    /// There is no such item.
    Unknown,
    /// It is known, or known not to be.
    Known(Option<Preview>),
    /// The backend is asked for an image of the page.
    AskBackend { url: String, ctx: RequestContext },
    /// A picture of the media is made.
    Make { url: String, ctx: RequestContext },
}

fn copy_options(v: &Vec<QualityOption>) -> (r: Vec<QualityOption>)
    ensures
        quality::option_views(r@) == quality::option_views(v@),
{
    let ghost all = quality::option_views(v@);
    let mut out: Vec<QualityOption> = Vec::new();
    let mut i: usize = 0;
    assert(quality::option_views(out@) =~= all.take(0));
    while i < v.len()
        invariant
            i <= v.len(),
            all == quality::option_views(v@),
            quality::option_views(out@) == all.take(i as int),
        decreases v.len() - i,
    {
        let ghost before = quality::option_views(out@);
        let o = QualityOption {
            label: v[i].label.clone(),
            bandwidth: v[i].bandwidth,
            resolution: v[i].resolution,
            variant_key: v[i].variant_key.clone(),
        };
        let ghost shown = o@;
        assert(all[i as int] == v@[i as int]@);
        out.push(o);
        assert(quality::option_views(out@) =~= before.push(shown));
        i += 1;
        assert(all.take(i as int) =~= before.push(shown));
    }
    assert(all.take(all.len() as int) =~= all);
    out
}

/// A preview as it goes with an entry.
pub open spec fn preview_pair(p: Option<Preview>) -> Option<(Seq<char>, Seq<char>)> {
    match p {
        Some(p) => Some((p.data_url@, p.kind.name())),
        None => None,
    }
}

/// The model of a preview that goes with an entry.
pub open spec fn pair_texts(p: Option<(String, String)>) -> Option<(Seq<char>, Seq<char>)> {
    match p {
        Some(p) => Some((p.0@, p.1@)),
        None => None,
    }
}

/// The preview of an address, as far as it is known.
pub open spec fn cached_preview(list: Seq<(Seq<char>, Option<Preview>)>, url: Seq<char>) -> Option<
    Preview,
> {
    match textmap::get(list, url) {
        Some(p) => p,
        None => None,
    }
}

impl Panel {
    pub fn new() -> (r: Self)
        ensures
            r.enabled,
            r.detections@ == (DetectionsView { list: Seq::empty(), next_id: 1 }),
            r.previews.list() == Seq::<(Seq<char>, Option<Preview>)>::empty(),
            r.qualities.list() == Seq::<(Seq<char>, Vec<QualityOption>)>::empty(),
    {
        Panel {
            enabled: true,
            detections: Detections::new(),
            previews: TextMap::new(),
            qualities: TextMap::new(),
        }
    }

    /// An answer that tells of no more than a new item.
    pub fn response(&self, new_detection: Option<VideoListItem>) -> (r: SyncResponse)
        ensures
            r.is_plain(
                self.enabled,
                detections::items_of(self.detections@.list),
                detections::item_view(new_detection),
            ),
    {
        sync_response(self.enabled, self.detections.video_list(), new_detection)
    }

    /// The answer to a request that only wants to know.
    pub fn sync(&self, registry: &BackendRegistry, build: String) -> (r: SyncResponse)
        ensures
            r.is_common(self.enabled, detections::items_of(self.detections@.list)),
            text::texts(r.page_hosts@) == hosts_of(registry@),
            r.server_build == build,
            text::texts(r.providers@) == registry::labels(registry@),
            r.new_detection is None && r.vid_queued is None && r.quality_variants is None,
            r.preview_data_url is None && r.preview_kind is None && r.preview_error is None,
    {
        let mut r = self.response(None);
        r.page_hosts = registry.page_hosts();
        r.server_build = build;
        r.providers = registry.provider_labels();
        r
    }

    /// Takes in a page that was reported, unless reports are off.
    pub fn page(
        &mut self,
        registry: &BackendRegistry,
        cfg: &BackendConfig,
        raw_url: &str,
        title: Option<String>,
        cookie: Option<String>,
    ) -> (r: Option<PageSeen>)
        ensures
            final(self).enabled == old(self).enabled,
            final(self).previews == old(self).previews,
            final(self).qualities == old(self).qualities,
            !old(self).enabled ==> r is None && final(self).detections@ == old(self).detections@,
            old(self).enabled ==> ({
                let url = pages::canonical(raw_url@);
                let provider = provider_in(registry@, cfg.host_routing@, url);
                let after = detections::with_page(
                    old(self).detections@,
                    url,
                    text::opt(title),
                    text::opt(cookie),
                    provider,
                );
                &&& final(self).detections@ == after.0
                &&& r matches Some(p) && p.url@ == url && p.catch == catch_of(provider)
                    && detections::item_view(p.item) == after.1
            }),
    {
        if !self.enabled {
            return None;
        }
        let url = canonical_page_url(raw_url);
        let provider = provider_of(registry, cfg, url.as_str());
        let catch = catch_for(provider.as_str());
        let item = self.detections.ensure_page(url.as_str(), title, cookie, provider.as_str());
        Some(PageSeen { url, catch, item })
    }

    /// Takes in media that were reported, unless reports are off; gives the item to
    /// offer.
    pub fn media(
        &mut self,
        registry: &BackendRegistry,
        cfg: &BackendConfig,
        report: MediaReport,
    ) -> (r: Option<VideoListItem>)
        ensures
            final(self).enabled == old(self).enabled,
            final(self).previews == old(self).previews,
            final(self).qualities == old(self).qualities,
            ({
                let offered = old(self).enabled && detections::is_offered(
                    old(self).detections@,
                    report,
                    hosts_of(registry@),
                );
                let provider = provider_in(registry@, cfg.host_routing@, report.url@);
                let added = detections::reported_media(
                    detections::id_text(old(self).detections@.next_id),
                    report,
                    provider,
                );
                &&& offered ==> {
                    &&& final(self).detections@.list == old(self).detections@.list.push(added)
                    &&& final(self).detections@.next_id == detections::next_number(
                        old(self).detections@.next_id,
                    )
                    &&& detections::item_view(r) == Some(
                        detections::item_of(
                            added.id,
                            report.url@,
                            text::opt(report.tab_url),
                            text::opt(report.file),
                            text::opt(report.tab_url),
                            added.is_image,
                            false,
                            provider,
                            added.kind_hint,
                        ),
                    )
                }
                &&& !offered ==> r is None && final(self).detections@ == old(self).detections@
            }),
    {
        if !self.enabled {
            return None;
        }
        let hosts = registry.page_hosts();
        let provider = provider_of(registry, cfg, report.url.as_str());
        self.detections.take_media(report, &hosts, provider.as_str())
    }

    /// Turns reports on or off.
    pub fn set_monitoring(&mut self, enabled: bool)
        ensures
            *final(self) == (Panel { enabled, ..*old(self) }),
    {
        self.enabled = enabled;
    }

    /// Drops all reports and all that was found out of them.
    pub fn clear(&mut self)
        ensures
            final(self).enabled == old(self).enabled,
            final(self).detections@ == (DetectionsView {
                list: Seq::empty(),
                ..old(self).detections@
            }),
            final(self).previews.list() == Seq::<(Seq<char>, Option<Preview>)>::empty(),
            final(self).qualities.list() == Seq::<(Seq<char>, Vec<QualityOption>)>::empty(),
    {
        self.detections.clear();
        self.previews = TextMap::new();
        self.qualities = TextMap::new();
    }

    fn preview_of(&self, url: &str) -> (r: Option<(String, String)>)
        ensures
            pair_texts(r) == preview_pair(cached_preview(self.previews.list(), url@)),
    {
        match self.previews.get(url) {
            Some(p) => match p {
                Some(p) => Some((p.data_url.clone(), p.kind.as_str().to_string())),
                None => None,
            },
            None => None,
        }
    }

    /// Settles what a click on an item leads to; nothing where there is no such item.
    pub fn vid(&self, id: &str, quality: Option<String>) -> (r: Option<VidPlan>)
        ensures
            ({
                let list = self.detections@.list;
                let p = detections::id_at(list, id@, 0);
                match r {
                    None => p >= list.len(),
                    Some(v) => {
                        let m = list[p];
                        let cached = cached_preview(self.previews.list(), m.url);
                        &&& p < list.len()
                        &&& v.request.url@ == m.url
                        &&& v.request.filename_hint is None
                        &&& text::opt(v.request.title_hint) == m.page_title
                        &&& net::pairs_view(v.request.headers.list()) == headers::flattened(
                            m.request_headers,
                            m.user_agent,
                        )
                        &&& text::opt(v.request.cookie) == m.cookie
                        &&& v.request.quality == quality
                        &&& v.request.extras@ == Map::<Seq<char>, String>::empty()
                        &&& pair_texts(v.request.preview) == preview_pair(cached)
                        &&& v.files_video == (m.is_page && m.provider == "yt-dlp"@)
                        &&& v.wants_preview == (cached is None)
                    },
                }
            }),
    {
        match self.detections.find(id) {
            None => None,
            Some(m) => {
                let preview = self.preview_of(m.url.as_str());
                let wants_preview = preview.is_none();
                let request = QueueRequest {
                    url: m.url.clone(),
                    filename_hint: None,
                    title_hint: copy_opt(&m.page_title),
                    headers: flatten_headers(&m.request_headers, &m.user_agent),
                    cookie: copy_opt(&m.cookie),
                    quality,
                    extras: StrMap::new(),
                    preview,
                };
                Some(
                    VidPlan {
                        request,
                        files_video: m.is_page && str_eq(m.provider.as_str(), "yt-dlp"),
                        wants_preview,
                    },
                )
            },
        }
    }

    /// Settles what is done to learn the variants of an item. A file that is served in one
    /// piece has none, which is kept.
    pub fn quality_step(&mut self, id: &str) -> (r: QualityStep)
        ensures
            final(self).enabled == old(self).enabled,
            final(self).detections == old(self).detections,
            final(self).previews == old(self).previews,
            ({
                let list = old(self).detections@.list;
                let p = detections::id_at(list, id@, 0);
                let m = list[p];
                let known = textmap::get(old(self).qualities.list(), m.url);
                if p >= list.len() {
                    &&& r is Unknown
                    &&& final(self).qualities.list() == old(self).qualities.list()
                } else if known is Some {
                    &&& r matches QualityStep::Known(v) && quality::option_views(v@)
                        == quality::option_views(known->0@)
                    &&& final(self).qualities.list() == old(self).qualities.list()
                } else if preview::is_progressive_url(m.url) {
                    &&& r matches QualityStep::Known(v) && v@.len() == 0
                    &&& exists|none: Vec<QualityOption>|
                        none@.len() == 0 && final(self).qualities.list() == #[trigger] textmap::put(
                            old(self).qualities.list(),
                            m.url,
                            none,
                        )
                } else {
                    &&& r matches QualityStep::Ask { url, ctx } && url@ == m.url && net::pairs_view(
                        ctx.headers.list(),
                    ) == headers::flattened(m.request_headers, m.user_agent) && text::opt(
                        ctx.cookie,
                    ) == m.cookie
                    &&& final(self).qualities.list() == old(self).qualities.list()
                }
            }),
    {
        let (url, headers, cookie) = match self.detections.find(id) {
            None => {
                return QualityStep::Unknown;
            },
            Some(m) => (
                m.url.clone(),
                flatten_headers(&m.request_headers, &m.user_agent),
                copy_opt(&m.cookie),
            ),
        };
        match self.qualities.get(url.as_str()) {
            Some(v) => {
                return QualityStep::Known(copy_options(v));
            },
            None => {},
        }
        if progressive_url(url.as_str()) {
            let none: Vec<QualityOption> = Vec::new();
            self.qualities.insert(url, none);
            QualityStep::Known(Vec::new())
        } else {
            QualityStep::Ask { url, ctx: RequestContext { headers, cookie } }
        }
    }

    /// Keeps the variants of an address.
    pub fn keep_qualities(&mut self, url: String, variants: Vec<QualityOption>)
        ensures
            final(self).enabled == old(self).enabled,
            final(self).detections == old(self).detections,
            final(self).previews == old(self).previews,
            final(self).qualities.list() == textmap::put(
                old(self).qualities.list(),
                url@,
                variants,
            ),
    {
        self.qualities.insert(url, variants);
    }

    /// Settles what is done for a preview of an item.
    pub fn preview_step(&self, id: &str, registry: &BackendRegistry) -> (r: PreviewPlan)
        ensures
            ({
                let list = self.detections@.list;
                let p = detections::id_at(list, id@, 0);
                let m = list[p];
                let known = textmap::get(self.previews.list(), m.url);
                let sent = headers::with_agent(
                    headers::with_referer(
                        headers::flattened(m.request_headers, m.user_agent),
                        if m.page_url is Some {
                            m.page_url
                        } else {
                            m.tab_url
                        },
                    ),
                );
                if p >= list.len() {
                    r is Unknown
                } else if known is Some {
                    r == PreviewPlan::Known(known->0)
                } else if pages::on_hosts(m.url, hosts_of(registry@)) {
                    r matches PreviewPlan::AskBackend { url, ctx } && url@ == m.url
                        && net::pairs_view(ctx.headers.list()) == sent && text::opt(ctx.cookie)
                        == m.cookie
                } else {
                    r matches PreviewPlan::Make { url, ctx } && url@ == m.url && net::pairs_view(
                        ctx.headers.list(),
                    ) == sent && text::opt(ctx.cookie) == m.cookie
                }
            }),
    {
        match self.detections.find(id) {
            None => PreviewPlan::Unknown,
            Some(m) => {
                match self.previews.get(m.url.as_str()) {
                    Some(p) => {
                        return PreviewPlan::Known(
                            match p {
                                Some(p) => Some(p.copy()),
                                None => None,
                            },
                        );
                    },
                    None => {},
                }
                let ctx = m.preview_ctx_for();
                let url = m.url.clone();
                if is_page_host(url.as_str(), &registry.page_hosts()) {
                    PreviewPlan::AskBackend { url, ctx }
                } else {
                    PreviewPlan::Make { url, ctx }
                }
            },
        }
    }

    /// Keeps the preview of an address, or that it has none.
    pub fn keep_preview(&mut self, url: String, preview: Option<Preview>)
        ensures
            final(self).enabled == old(self).enabled,
            final(self).detections == old(self).detections,
            final(self).qualities == old(self).qualities,
            final(self).previews.list() == textmap::put(old(self).previews.list(), url@, preview),
    {
        self.previews.insert(url, preview);
    }

    /// The answer to a request for a preview.
    pub fn preview_response(&self, preview: Option<Preview>) -> (r: SyncResponse)
        ensures
            r.is_common(self.enabled, detections::items_of(self.detections@.list)),
            r.new_detection is None && r.vid_queued is None && r.quality_variants is None,
            r.preview_error is None,
            r.page_hosts@.len() == 0 && r.server_build@.len() == 0 && r.providers@.len() == 0,
            match preview {
                Some(p) => {
                    &&& r.preview_data_url == Some(p.data_url)
                    &&& text::opt(r.preview_kind) == Some(p.kind.name())
                },
                None => r.preview_data_url is None && r.preview_kind is None,
            },
    {
        let mut r = self.response(None);
        match preview {
            Some(p) => {
                r.preview_kind = Some(p.kind.as_str().to_string());
                r.preview_data_url = Some(p.data_url);
            },
            None => {},
        }
        r
    }

    /// Settles a preview that was made for an address, or why there is none: either is
    /// kept, so that it is not made again, and told.
    pub fn settle_preview(&mut self, url: String, made: Result<Preview, String>) -> (r: SyncResponse)
        ensures
            final(self).enabled == old(self).enabled,
            final(self).detections == old(self).detections,
            final(self).qualities == old(self).qualities,
            final(self).previews.list() == textmap::put(
                old(self).previews.list(),
                url@,
                match made {
                    Ok(p) => Some(p),
                    Err(_) => None,
                },
            ),
            r.is_common(old(self).enabled, detections::items_of(old(self).detections@.list)),
            r.new_detection is None && r.vid_queued is None && r.quality_variants is None,
            r.page_hosts@.len() == 0 && r.server_build@.len() == 0 && r.providers@.len() == 0,
            match made {
                Ok(p) => {
                    &&& r.preview_data_url == Some(p.data_url)
                    &&& text::opt(r.preview_kind) == Some(p.kind.name())
                    &&& r.preview_error is None
                },
                Err(reason) => {
                    &&& r.preview_data_url is None
                    &&& r.preview_kind is None
                    &&& r.preview_error == Some(reason)
                },
            },
    {
        match made {
            Ok(p) => {
                let r = self.preview_response(Some(p.copy()));
                self.keep_preview(url, Some(p));
                r
            },
            Err(reason) => {
                let mut r = self.preview_response(None);
                r.preview_error = Some(reason);
                self.keep_preview(url, None);
                r
            },
        }
    }
}

// ---------------------------------------------------------------------------
// What the panel keeps to
// ---------------------------------------------------------------------------

/// A preview that was kept is the one that is shown, until the reports are dropped.
pub proof fn kept_previews_are_shown(
    list: Seq<(Seq<char>, Option<Preview>)>,
    url: Seq<char>,
    p: Preview,
    other: Seq<char>,
)
    requires
        textmap::ordered(list),
        other != url,
    ensures
        cached_preview(textmap::put(list, url, Some(p)), url) == Some(p),
        cached_preview(textmap::put(list, url, Some(p)), other) == cached_preview(list, other),
{
    textmap::writes_are_read_back(list, url, Some(p), other);
}

/// That an address has no preview, once kept, is known when it is asked for again, until
/// the reports are dropped; it changes nothing for other addresses.
pub proof fn kept_misses_are_known(
    list: Seq<(Seq<char>, Option<Preview>)>,
    url: Seq<char>,
    other: Seq<char>,
)
    requires
        textmap::ordered(list),
        other != url,
    ensures
        textmap::get(textmap::put(list, url, None), url) == Some(None::<Preview>),
        textmap::get(textmap::put(list, url, None), other) == textmap::get(list, other),
{
    textmap::writes_are_read_back(list, url, None, other);
}

} // verus!

//! The media and pages that a browser reported, as they are offered for download.

use vstd::prelude::*;

use crate::headers;
use crate::headers::{first_header, preview_context};
use crate::naming;
use crate::naming::suggest_filename;
use crate::net;
use crate::net::RequestContext;
use crate::number;
use crate::number::dec_string;
use crate::pages;
use crate::pages::{is_page_host, kind_from_content_type, looks_like_image, page_label};
use crate::strmap::StrMap;
use crate::text;
use crate::text::{borrowed, cat2, chars_of, copy_opt, str_eq, string_of, trimmed};

verus! {

/// An item of the list that a browser shows.
#[derive(Debug)]
pub struct VideoListItem {
    pub id: String,
    pub text: String,
    pub info: String,
    pub url: String,
    pub page_url: Option<String>,
    pub is_image: bool,
    /// The kind of media; to be guessed from the address where there is none.
    pub kind: Option<String>,
    pub provider: String,
}

/// The model of [`VideoListItem`].
#[verifier::ext_equal]
pub struct ItemView {
    pub id: Seq<char>,
    pub text: Seq<char>,
    pub info: Seq<char>,
    pub url: Seq<char>,
    pub page_url: Option<Seq<char>>,
    pub is_image: bool,
    pub kind: Option<Seq<char>>,
    pub provider: Seq<char>,
}

impl View for VideoListItem {
    type V = ItemView;

    open spec fn view(&self) -> ItemView {
        ItemView {
            id: self.id@,
            text: self.text@,
            info: self.info@,
            url: self.url@,
            page_url: text::opt(self.page_url),
            is_image: self.is_image,
            kind: text::opt(self.kind),
            provider: self.provider@,
        }
    }
}

impl VideoListItem {
    /// A copy of the item.
    pub fn copy(&self) -> (r: Self)
        ensures
            r@ == self@,
    {
        VideoListItem {
            id: self.id.clone(),
            text: self.text.clone(),
            info: self.info.clone(),
            url: self.url.clone(),
            page_url: copy_opt(&self.page_url),
            is_image: self.is_image,
            kind: copy_opt(&self.kind),
            provider: self.provider.clone(),
        }
    }
}

/// The models of a list of items.
pub open spec fn item_views(v: Seq<VideoListItem>) -> Seq<ItemView> {
    v.map_values(|i: VideoListItem| i@)
}

/// The model of an item that may be there.
pub open spec fn item_view(o: Option<VideoListItem>) -> Option<ItemView> {
    match o {
        Some(i) => Some(i@),
        None => None,
    }
}

/// The first text that is there, or the last one.
pub open spec fn first_text(
    a: Option<Seq<char>>,
    b: Option<Seq<char>>,
    c: Seq<char>,
) -> Seq<char> {
    match a {
        Some(t) => t,
        None => match b {
            Some(t) => t,
            None => c,
        },
    }
}

/// The item for media or for a page.
pub open spec fn item_of(
    id: Seq<char>,
    url: Seq<char>,
    tab_url: Option<Seq<char>>,
    page_title: Option<Seq<char>>,
    page_url: Option<Seq<char>>,
    is_image: bool,
    is_page: bool,
    provider: Seq<char>,
    kind: Option<Seq<char>>,
) -> ItemView {
    ItemView {
        id,
        text: if is_page {
            pages::label(url, page_title, provider)
        } else {
            first_text(tab_url, page_title, url)
        },
        info: if is_page {
            first_text(page_title, None, Seq::empty())
        } else {
            naming::suggested(page_title, url, None)
        },
        url,
        page_url,
        is_image,
        kind: match kind {
            Some(k) if k.len() > 0 => Some(k),
            _ => if is_page {
                Some("video"@)
            } else {
                None
            },
        },
        provider,
    }
}

fn copy_str(o: Option<&str>) -> (r: Option<String>)
    ensures
        text::opt(r) == text::opt_str(o),
{
    match o {
        Some(s) => Some(s.to_string()),
        None => None,
    }
}

/// Makes the item for media or for a page.
pub fn to_video_list_item(
    id: &str,
    url: &str,
    tab_url: Option<&str>,
    page_title: Option<&str>,
    page_url: Option<&str>,
    is_image: bool,
    is_page: bool,
    provider: &str,
    kind: Option<&str>,
) -> (r: VideoListItem)
    ensures
        r@ == item_of(
            id@,
            url@,
            text::opt_str(tab_url),
            text::opt_str(page_title),
            text::opt_str(page_url),
            is_image,
            is_page,
            provider@,
            text::opt_str(kind),
        ),
{
    let label = if is_page {
        page_label(url, page_title, provider)
    } else {
        match tab_url {
            Some(t) => t.to_string(),
            None => match page_title {
                Some(t) => t.to_string(),
                None => url.to_string(),
            },
        }
    };
    let info = if is_page {
        match page_title {
            Some(t) => t.to_string(),
            None => {
                let none = String::new();
                assert(none@ =~= Seq::empty());
                none
            },
        }
    } else {
        suggest_filename(page_title, url, None)
    };
    let known = match kind {
        Some(k) => if chars_of(k).len() > 0 {
            Some(k.to_string())
        } else {
            None
        },
        None => None,
    };
    let kind = match known {
        Some(k) => Some(k),
        None => if is_page {
            Some("video".to_string())
        } else {
            None
        },
    };
    VideoListItem {
        id: id.to_string(),
        text: label,
        info,
        url: url.to_string(),
        page_url: copy_str(page_url),
        is_image,
        kind,
        provider: provider.to_string(),
    }
}

/// Media, or a page, that a browser reported.
#[derive(Debug)]
pub struct DetectedMedia {
    pub id: String,
    pub url: String,
    pub tab_url: Option<String>,
    pub page_title: Option<String>,
    pub page_url: Option<String>,
    pub request_headers: StrMap<Vec<String>>,
    pub cookie: Option<String>,
    pub user_agent: Option<String>,
    pub is_image: bool,
    /// Whether this is a page, the address of which is downloaded.
    pub is_page: bool,
    /// The kind of media by its content type.
    pub kind_hint: Option<String>,
    pub provider: String,
}

/// The model of [`DetectedMedia`].
#[verifier::ext_equal]
pub struct MediaView {
    pub id: Seq<char>,
    pub url: Seq<char>,
    pub tab_url: Option<Seq<char>>,
    pub page_title: Option<Seq<char>>,
    pub page_url: Option<Seq<char>>,
    pub request_headers: Seq<(Seq<char>, Seq<Seq<char>>)>,
    pub cookie: Option<Seq<char>>,
    pub user_agent: Option<Seq<char>>,
    pub is_image: bool,
    pub is_page: bool,
    pub kind_hint: Option<Seq<char>>,
    pub provider: Seq<char>,
}

impl View for DetectedMedia {
    type V = MediaView;

    open spec fn view(&self) -> MediaView {
        MediaView {
            id: self.id@,
            url: self.url@,
            tab_url: text::opt(self.tab_url),
            page_title: text::opt(self.page_title),
            page_url: text::opt(self.page_url),
            request_headers: headers::captured(self.request_headers.list()),
            cookie: text::opt(self.cookie),
            user_agent: text::opt(self.user_agent),
            is_image: self.is_image,
            is_page: self.is_page,
            kind_hint: text::opt(self.kind_hint),
            provider: self.provider@,
        }
    }
}

/// The models of a list of reports.
pub open spec fn media_views(v: Seq<DetectedMedia>) -> Seq<MediaView> {
    v.map_values(|m: DetectedMedia| m@)
}

impl MediaView {
    /// The item that is offered for the report.
    pub open spec fn item(self) -> ItemView {
        item_of(
            self.id,
            self.url,
            self.tab_url,
            self.page_title,
            self.page_url,
            self.is_image,
            self.is_page,
            self.provider,
            self.kind_hint,
        )
    }
}

/// The items that are offered for reports.
pub open spec fn items_of(s: Seq<MediaView>) -> Seq<ItemView> {
    s.map_values(|m: MediaView| m.item())
}

impl DetectedMedia {
    /// The item that is offered for the report.
    pub fn item(&self) -> (r: VideoListItem)
        ensures
            r@ == self@.item(),
    {
        to_video_list_item(
            self.id.as_str(),
            self.url.as_str(),
            borrowed(&self.tab_url),
            borrowed(&self.page_title),
            borrowed(&self.page_url),
            self.is_image,
            self.is_page,
            self.provider.as_str(),
            borrowed(&self.kind_hint),
        )
    }

    /// The context in which a preview of the media is requested.
    pub fn preview_ctx_for(&self) -> (r: RequestContext)
        ensures
            net::pairs_view(r.headers.list()) == headers::with_agent(
                headers::with_referer(
                    headers::flattened(self@.request_headers, self@.user_agent),
                    if self@.page_url is Some {
                        self@.page_url
                    } else {
                        self@.tab_url
                    },
                ),
            ),
            r.cookie == self.cookie,
    {
        let page = match borrowed(&self.page_url) {
            Some(p) => Some(p),
            None => borrowed(&self.tab_url),
        };
        preview_context(&self.request_headers, &self.user_agent, page, &self.cookie)
    }
}

/// What a browser says of media that a page requested.
#[derive(Debug)]
pub struct MediaReport {
    pub url: String,
    pub file: Option<String>,
    pub tab_url: Option<String>,
    pub request_headers: StrMap<Vec<String>>,
    pub response_headers: StrMap<Vec<String>>,
    pub cookie: Option<String>,
    pub user_agent: Option<String>,
}

/// The reports so far.
#[derive(Debug)]
pub struct Detections {
    pub list: Vec<DetectedMedia>,
    /// The number of the next report.
    pub next_id: u64,
}

/// The model of [`Detections`].
#[verifier::ext_equal]
pub struct DetectionsView {
    pub list: Seq<MediaView>,
    pub next_id: u64,
}

impl View for Detections {
    type V = DetectionsView;

    open spec fn view(&self) -> DetectionsView {
        DetectionsView { list: media_views(self.list@), next_id: self.next_id }
    }
}

/// The position, from `i` on, of the first report with an address; the length of the
/// list where there is none.
pub open spec fn url_at(s: Seq<MediaView>, url: Seq<char>, i: int) -> int
    decreases s.len() - i,
{
    if i < 0 || i >= s.len() || s[i].url == url {
        i
    } else {
        url_at(s, url, i + 1)
    }
}

/// The position, from `i` on, of the first report with an identifier; the length of the
/// list where there is none.
pub open spec fn id_at(s: Seq<MediaView>, id: Seq<char>, i: int) -> int
    decreases s.len() - i,
{
    if i < 0 || i >= s.len() || s[i].id == id {
        i
    } else {
        id_at(s, id, i + 1)
    }
}

/// The number after a number, from the largest to 0.
pub open spec fn next_number(n: u64) -> u64 {
    if n == u64::MAX {
        0
    } else {
        (n + 1) as u64
    }
}

/// The identifier of a report.
pub open spec fn id_text(n: u64) -> Seq<char> {
    "v"@ + number::dec(n as nat)
}

/// A page as it is reported.
pub open spec fn page_media(
    id: Seq<char>,
    url: Seq<char>,
    title: Option<Seq<char>>,
    cookie: Option<Seq<char>>,
    provider: Seq<char>,
) -> MediaView {
    MediaView {
        id,
        url,
        tab_url: Some(url),
        page_title: title,
        page_url: Some(url),
        request_headers: Seq::empty(),
        cookie,
        user_agent: None,
        is_image: false,
        is_page: true,
        kind_hint: None,
        provider,
    }
}

/// The title that a page reported again gets: one that says something and is new.
pub open spec fn settled_title(title: Option<Seq<char>>, known: Option<Seq<char>>) -> Option<
    Seq<char>,
> {
    match title {
        Some(t) if text::trim(t).len() > 0 && Some(text::trim(t)) != known => Some(text::trim(t)),
        _ => None,
    }
}

/// The reports, and the item that is offered, once a page was reported.
pub open spec fn with_page(
    d: DetectionsView,
    url: Seq<char>,
    title: Option<Seq<char>>,
    cookie: Option<Seq<char>>,
    provider: Seq<char>,
) -> (DetectionsView, Option<ItemView>) {
    let p = url_at(d.list, url, 0);
    if p < d.list.len() {
        match settled_title(title, d.list[p].page_title) {
            Some(t) => (
                DetectionsView {
                    list: d.list.update(p, MediaView { page_title: Some(t), ..d.list[p] }),
                    ..d
                },
                Some(
                    item_of(
                        d.list[p].id,
                        url,
                        Some(url),
                        Some(t),
                        Some(url),
                        false,
                        true,
                        provider,
                        None,
                    ),
                ),
            ),
            None => (d, None),
        }
    } else {
        let m = page_media(id_text(d.next_id), url, title, cookie, provider);
        (
            DetectionsView { list: d.list.push(m), next_id: next_number(d.next_id) },
            Some(m.item()),
        )
    }
}

/// Media as they are reported.
pub open spec fn reported_media(id: Seq<char>, m: MediaReport, provider: Seq<char>) -> MediaView {
    let ct = headers::first_value(headers::captured(m.response_headers.list()), "content-type"@, 0);
    MediaView {
        id,
        url: m.url@,
        tab_url: if m.tab_url is Some {
            text::opt(m.tab_url)
        } else {
            text::opt(m.file)
        },
        page_title: text::opt(m.file),
        page_url: text::opt(m.tab_url),
        request_headers: headers::captured(m.request_headers.list()),
        cookie: text::opt(m.cookie),
        user_agent: text::opt(m.user_agent),
        is_image: pages::is_image(ct, m.url@),
        is_page: false,
        kind_hint: pages::kind_of_type(ct),
        provider,
    }
}

/// Whether media that were reported are offered: not those of a page that is offered
/// itself, and none twice.
pub open spec fn is_offered(d: DetectionsView, m: MediaReport, page_hosts: Seq<Seq<char>>) -> bool {
    &&& !(m.tab_url matches Some(t) && pages::on_hosts(t@, page_hosts))
    &&& url_at(d.list, m.url@, 0) >= d.list.len()
}

impl Detections {
    pub fn new() -> (r: Self)
        ensures
            r@ == (DetectionsView { list: Seq::empty(), next_id: 1 }),
    {
        let r = Detections { list: Vec::new(), next_id: 1 };
        assert(r@.list =~= Seq::empty());
        r
    }

    fn position(&self, url: &str) -> (r: usize)
        ensures
            r == url_at(self@.list, url@, 0),
            r <= self.list.len(),
    {
        let ghost all = self@.list;
        let mut i: usize = 0;
        while i < self.list.len()
            invariant
                i <= self.list.len(),
                all == media_views(self.list@),
                url_at(all, url@, 0) == url_at(all, url@, i as int),
            decreases self.list.len() - i,
        {
            assert(all[i as int] == self.list@[i as int]@);
            if str_eq(self.list[i].url.as_str(), url) {
                return i;
            }
            i += 1;
        }
        i
    }

    /// The report with an identifier.
    pub fn find(&self, id: &str) -> (r: Option<&DetectedMedia>)
        ensures
            match r {
                Some(m) => id_at(self@.list, id@, 0) < self@.list.len() && m@ == self@.list[id_at(
                    self@.list,
                    id@,
                    0,
                )],
                None => id_at(self@.list, id@, 0) >= self@.list.len(),
            },
    {
        let ghost all = self@.list;
        let mut i: usize = 0;
        while i < self.list.len()
            invariant
                i <= self.list.len(),
                all == media_views(self.list@),
                id_at(all, id@, 0) == id_at(all, id@, i as int),
            decreases self.list.len() - i,
        {
            assert(all[i as int] == self.list@[i as int]@);
            if str_eq(self.list[i].id.as_str(), id) {
                return Some(&self.list[i]);
            }
            i += 1;
        }
        None
    }

    fn take_id(&mut self) -> (r: String)
        ensures
            r@ == id_text(old(self).next_id),
            final(self)@ == (DetectionsView {
                next_id: next_number(old(self).next_id),
                ..old(self)@
            }),
    {
        let n: u64 = self.next_id;
        self.next_id = if n == u64::MAX {
            0
        } else {
            n + 1
        };
        cat2("v", dec_string(n).as_str())
    }

    fn add(&mut self, m: DetectedMedia)
        ensures
            final(self)@ == (DetectionsView { list: old(self)@.list.push(m@), ..old(self)@ }),
    {
        let ghost before = media_views(self.list@);
        let ghost shown = m@;
        self.list.push(m);
        assert(media_views(self.list@) =~= before.push(shown));
    }

    /// Takes in a page that was reported; gives the item to offer where it is new, or
    /// where its title settled.
    pub fn ensure_page(
        &mut self,
        url: &str,
        title: Option<String>,
        cookie: Option<String>,
        provider: &str,
    ) -> (r: Option<VideoListItem>)
        ensures
            (final(self)@, item_view(r)) == with_page(
                old(self)@,
                url@,
                text::opt(title),
                text::opt(cookie),
                provider@,
            ),
    {
        let p: usize = self.position(url);
        if p < self.list.len() {
            let ghost before = self@.list;
            assert(before[p as int] == self.list@[p as int]@);
            match title {
                None => None,
                Some(t) => {
                    let cs = chars_of(t.as_str());
                    let new_title = string_of(trimmed(cs.as_slice()));
                    if chars_of(new_title.as_str()).len() == 0 {
                        return None;
                    }
                    let same = match &self.list[p].page_title {
                        Some(known) => str_eq(known.as_str(), new_title.as_str()),
                        None => false,
                    };
                    if same {
                        return None;
                    }
                    let item = to_video_list_item(
                        self.list[p].id.as_str(),
                        url,
                        Some(url),
                        Some(new_title.as_str()),
                        Some(url),
                        false,
                        true,
                        provider,
                        None,
                    );
                    let ghost shown = new_title@;
                    let mut m = self.list.remove(p);
                    m.page_title = Some(new_title);
                    self.list.insert(p, m);
                    assert(media_views(self.list@) =~= before.update(
                        p as int,
                        MediaView { page_title: Some(shown), ..before[p as int] },
                    ));
                    Some(item)
                },
            }
        } else {
            let id = self.take_id();
            let none: StrMap<Vec<String>> = StrMap::new();
            assert(headers::captured(none.list()) =~= Seq::empty());
            let m = DetectedMedia {
                id,
                url: url.to_string(),
                tab_url: Some(url.to_string()),
                page_title: title,
                page_url: Some(url.to_string()),
                request_headers: none,
                cookie,
                user_agent: None,
                is_image: false,
                is_page: true,
                kind_hint: None,
                provider: provider.to_string(),
            };
            let item = m.item();
            self.add(m);
            Some(item)
        }
    }

    /// Takes in media that were reported; gives the item to offer where they are.
    pub fn take_media(
        &mut self,
        m: MediaReport,
        page_hosts: &Vec<String>,
        provider: &str,
    ) -> (r: Option<VideoListItem>)
        ensures
            is_offered(old(self)@, m, text::texts(page_hosts@)) ==> ({
                let added = reported_media(id_text(old(self).next_id), m, provider@);
                &&& final(self)@.list == old(self)@.list.push(added)
                &&& final(self).next_id == next_number(old(self).next_id)
                &&& item_view(r) == Some(
                    item_of(
                        added.id,
                        m.url@,
                        text::opt(m.tab_url),
                        text::opt(m.file),
                        text::opt(m.tab_url),
                        added.is_image,
                        false,
                        provider@,
                        added.kind_hint,
                    ),
                )
            }),
            !is_offered(old(self)@, m, text::texts(page_hosts@)) ==> {
                &&& final(self)@ == old(self)@
                &&& r is None
            },
    {
        match &m.tab_url {
            Some(t) => {
                if is_page_host(t.as_str(), page_hosts) {
                    return None;
                }
            },
            None => {},
        }
        if self.position(m.url.as_str()) < self.list.len() {
            return None;
        }
        let ct = first_header(&m.response_headers, "content-type");
        let is_image = looks_like_image(ct, m.url.as_str());
        let kind_hint = copy_str(kind_from_content_type(ct));
        let id = self.take_id();
        let item = to_video_list_item(
            id.as_str(),
            m.url.as_str(),
            borrowed(&m.tab_url),
            borrowed(&m.file),
            borrowed(&m.tab_url),
            is_image,
            false,
            provider,
            borrowed(&kind_hint),
        );
        let tab_url = match &m.tab_url {
            Some(t) => Some(t.clone()),
            None => copy_opt(&m.file),
        };
        let added = DetectedMedia {
            id,
            url: m.url,
            tab_url,
            page_title: m.file,
            page_url: m.tab_url,
            request_headers: m.request_headers,
            cookie: m.cookie,
            user_agent: m.user_agent,
            is_image,
            is_page: false,
            kind_hint,
            provider: provider.to_string(),
        };
        self.add(added);
        Some(item)
    }

    /// The items that are offered.
    pub fn video_list(&self) -> (r: Vec<VideoListItem>)
        ensures
            item_views(r@) == items_of(self@.list),
    {
        let ghost all = items_of(self@.list);
        let mut out: Vec<VideoListItem> = Vec::new();
        let mut i: usize = 0;
        assert(item_views(out@) =~= all.take(0));
        while i < self.list.len()
            invariant
                i <= self.list.len(),
                all == items_of(media_views(self.list@)),
                item_views(out@) == all.take(i as int),
            decreases self.list.len() - i,
        {
            let ghost before = item_views(out@);
            let item = self.list[i].item();
            let ghost shown = item@;
            assert(all[i as int] == self.list@[i as int]@.item());
            out.push(item);
            assert(item_views(out@) =~= before.push(shown));
            assert(all.take(i + 1) =~= before.push(shown));
            i += 1;
        }
        assert(all.take(all.len() as int) =~= all);
        out
    }

    /// Drops all reports.
    pub fn clear(&mut self)
        ensures
            final(self)@ == (DetectionsView { list: Seq::empty(), ..old(self)@ }),
    {
        self.list = Vec::new();
        assert(media_views(self.list@) =~= Seq::empty());
    }
}

// ---------------------------------------------------------------------------
// What the reports keep to
// ---------------------------------------------------------------------------

/// Whether no two reports share an address.
pub open spec fn urls_differ(s: Seq<MediaView>) -> bool {
    forall|i: int, j: int| 0 <= i < j < s.len() ==> (#[trigger] s[i]).url != (#[trigger] s[j]).url
}

/// Whether the reports have the identifiers of the given numbers, which grow and are
/// all before the next.
pub open spec fn numbered(d: DetectionsView, n: Seq<u64>) -> bool {
    &&& n.len() == d.list.len()
    &&& forall|i: int| 0 <= i < n.len() ==> d.list[i].id == id_text(#[trigger] n[i])
    &&& forall|i: int| 0 <= i < n.len() ==> #[trigger] n[i] < d.next_id
    &&& forall|i: int, j: int| 0 <= i < j < n.len() ==> #[trigger] n[i] < #[trigger] n[j]
}

/// Whether the reports have the identifiers of growing numbers, all before the next.
pub open spec fn ids_in_order(d: DetectionsView) -> bool {
    exists|n: Seq<u64>| numbered(d, n)
}

proof fn lemma_url_at(s: Seq<MediaView>, url: Seq<char>, i: int)
    requires
        0 <= i <= s.len(),
    ensures
        i <= url_at(s, url, i) <= s.len(),
        url_at(s, url, i) < s.len() ==> s[url_at(s, url, i)].url == url,
        forall|j: int| i <= j < url_at(s, url, i) ==> (#[trigger] s[j]).url != url,
    decreases s.len() - i,
{
    if i < s.len() && s[i].url != url {
        lemma_url_at(s, url, i + 1);
    }
}

proof fn lemma_added(d: DetectionsView, m: MediaView)
    requires
        urls_differ(d.list),
        ids_in_order(d),
        d.next_id < u64::MAX,
        url_at(d.list, m.url, 0) >= d.list.len(),
        m.id == id_text(d.next_id),
    ensures
        urls_differ(d.list.push(m)),
        ids_in_order(DetectionsView { list: d.list.push(m), next_id: next_number(d.next_id) }),
{
    lemma_url_at(d.list, m.url, 0);
    let after = d.list.push(m);
    assert forall|i: int, j: int| 0 <= i < j < after.len() implies (#[trigger] after[i]).url != (
    #[trigger] after[j]).url by {
        assert(after[i] == d.list[i]);
        if j < d.list.len() {
            assert(after[j] == d.list[j]);
        }
    }
    let n = choose|n: Seq<u64>| numbered(d, n);
    let m2 = n.push(d.next_id);
    assert forall|i: int| 0 <= i < m2.len() implies after[i].id == id_text(#[trigger] m2[i]) by {
        if i < n.len() {
            assert(m2[i] == n[i]);
            assert(after[i] == d.list[i]);
        }
    }
    assert(numbered(
        DetectionsView { list: after, next_id: next_number(d.next_id) },
        m2,
    ));
}

/// Pages and media are offered once, whatever is reported again, and under identifiers
/// that differ.
pub proof fn pages_are_offered_once(
    d: DetectionsView,
    url: Seq<char>,
    title: Option<Seq<char>>,
    cookie: Option<Seq<char>>,
    provider: Seq<char>,
)
    requires
        urls_differ(d.list),
        ids_in_order(d),
        d.next_id < u64::MAX,
    ensures
        urls_differ(with_page(d, url, title, cookie, provider).0.list),
        ids_in_order(with_page(d, url, title, cookie, provider).0),
        with_page(d, url, title, cookie, provider).0.list.len() <= d.list.len() + 1,
{
    lemma_url_at(d.list, url, 0);
    let p = url_at(d.list, url, 0);
    if p < d.list.len() {
        match settled_title(title, d.list[p].page_title) {
            Some(t) => {
                let after = d.list.update(p, MediaView { page_title: Some(t), ..d.list[p] });
                assert forall|i: int, j: int| 0 <= i < j < after.len() implies (
                #[trigger] after[i]).url != (#[trigger] after[j]).url by {
                    assert(d.list[i].url != d.list[j].url);
                }
                let n = choose|n: Seq<u64>| numbered(d, n);
                assert forall|i: int| 0 <= i < n.len() implies after[i].id == id_text(
                    #[trigger] n[i],
                ) by {
                    assert(d.list[i].id == id_text(n[i]));
                }
                assert(numbered(DetectionsView { list: after, ..d }, n));
            },
            None => {},
        }
    } else {
        lemma_added(d, page_media(id_text(d.next_id), url, title, cookie, provider));
    }
}

/// Media are offered once, and under identifiers that differ.
pub proof fn media_are_offered_once(
    d: DetectionsView,
    m: MediaReport,
    page_hosts: Seq<Seq<char>>,
    provider: Seq<char>,
)
    requires
        urls_differ(d.list),
        ids_in_order(d),
        d.next_id < u64::MAX,
        is_offered(d, m, page_hosts),
    ensures
        urls_differ(d.list.push(reported_media(id_text(d.next_id), m, provider))),
        ids_in_order(
            DetectionsView {
                list: d.list.push(reported_media(id_text(d.next_id), m, provider)),
                next_id: next_number(d.next_id),
            },
        ),
{
    lemma_added(d, reported_media(id_text(d.next_id), m, provider));
}

/// A page that was reported is found by the identifier under which it is offered.
pub proof fn offered_items_are_found(d: DetectionsView, i: int)
    requires
        ids_in_order(d),
        0 <= i < d.list.len(),
    ensures
        id_at(d.list, d.list[i].id, 0) == i,
{
    let n = choose|n: Seq<u64>| numbered(d, n);
    let id = d.list[i].id;
    assert forall|j: int| 0 <= j < i implies (#[trigger] d.list[j]).id != id by {
        assert(n[j] < n[i]);
        if id_text(n[j]) == id_text(n[i]) {
            reveal_strlit("v");
            assert(id_text(n[j]).skip(1) =~= number::dec(n[j] as nat));
            assert(id_text(n[i]).skip(1) =~= number::dec(n[i] as nat));
            number::decimal_is_injective(n[j] as nat, n[i] as nat);
        }
    }
    lemma_id_at(d.list, id, 0, i);
}

proof fn lemma_id_at(s: Seq<MediaView>, id: Seq<char>, from: int, i: int)
    requires
        0 <= from <= i < s.len(),
        s[i].id == id,
        forall|j: int| from <= j < i ==> (#[trigger] s[j]).id != id,
    ensures
        id_at(s, id, from) == i,
    decreases i - from,
{
    if from < i {
        lemma_id_at(s, id, from + 1, i);
    }
}

} // verus!

//! From an address that a browser hands over to an entry of the queue.

use vstd::prelude::*;

use crate::backend;
use crate::backend::{BackendConfig, DownloadReq, EntryMeta, kind_for_backend_id};
use crate::clock::nanos_now;
use crate::entry;
use crate::entry::{DownloadEntry, DownloadStatus};
use crate::jobs;
use crate::jobs::{DownloadKind, sanitize_dest_for_kind};
use crate::naming;
use crate::naming::{dest_path_at, suggest_filename};
use crate::net;
use crate::net::RequestContext;
use crate::paths;
use crate::paths::{get_file_name, get_parent, join_path};
use crate::strmap::StrMap;
use crate::text;
use crate::text::{borrowed, chars_of, copy_opt, str_eq, trimmed};

verus! {

/// What a browser hands over.
#[derive(Debug)]
pub struct QueueRequest {
    pub url: String,
    pub filename_hint: Option<String>,
    pub title_hint: Option<String>,
    pub headers: StrMap<String>,
    pub cookie: Option<String>,
    pub quality: Option<String>,
    /// Further wishes, in terms of the backend.
    pub extras: StrMap<String>,
    /// A small image, and how it is shown.
    pub preview: Option<(String, String)>,
}

/// Whether the media are looked at for their extension: only those that are fetched as
/// one file and do not look like a playlist. Other backends name their files.
pub open spec fn is_sniffed(backend_id: Seq<char>, url: Seq<char>) -> bool {
    backend_id == "http"@ && DownloadKind::of_url(url) == DownloadKind::Http
}

/// Tells whether the media are looked at for their extension.
pub fn needs_sniff(backend_id: &str, url: &str) -> (r: bool)
    ensures
        r == is_sniffed(backend_id@, url@),
{
    str_eq(backend_id, "http") && DownloadKind::guess_from_url(url) == DownloadKind::Http
}

/// The name under which media are saved.
pub open spec fn queue_name(
    hint: Option<Seq<char>>,
    title: Option<Seq<char>>,
    url: Seq<char>,
    detected_ext: Option<Seq<char>>,
) -> Seq<char> {
    match hint {
        Some(n) if n.len() > 0 => n,
        _ => naming::suggested(title, url, detected_ext),
    }
}

impl QueueRequest {
    /// Where media that are handed over at a time go, before the backend has its say.
    pub open spec fn destination(
        self,
        dir: Seq<char>,
        backend_id: Seq<char>,
        detected_ext: Option<Seq<char>>,
        now_ns: nat,
    ) -> Seq<char> {
        let name = queue_name(
            text::opt(self.filename_hint),
            text::opt(self.title_hint),
            self.url@,
            detected_ext,
        );
        jobs::dest_for_kind(
            naming::destination(dir, self.url@, name, now_ns),
            backend::kind_of_id(backend_id),
        )
    }

    /// Settles where media that are handed over at a time go.
    pub fn dest_at(
        &self,
        download_dir: &str,
        backend_id: &str,
        detected_ext: Option<&str>,
        now_ns: u128,
    ) -> (r: String)
        ensures
            r@ == self.destination(
                download_dir@,
                backend_id@,
                text::opt_str(detected_ext),
                now_ns as nat,
            ),
    {
        let hinted = match &self.filename_hint {
            Some(n) => if chars_of(n.as_str()).len() > 0 {
                Some(n.clone())
            } else {
                None
            },
            None => None,
        };
        let name = match hinted {
            Some(n) => n,
            None => suggest_filename(borrowed(&self.title_hint), self.url.as_str(), detected_ext),
        };
        let dest = dest_path_at(download_dir, self.url.as_str(), name.as_str(), now_ns);
        sanitize_dest_for_kind(dest.as_str(), kind_for_backend_id(backend_id))
    }

    /// Settles where media that are handed over now go.
    pub fn dest(&self, download_dir: &str, backend_id: &str, detected_ext: Option<&str>) -> (r:
        String)
        ensures
            exists|now_ns: nat|
                r@ == #[trigger] self.destination(
                    download_dir@,
                    backend_id@,
                    text::opt_str(detected_ext),
                    now_ns,
                ),
    {
        let now_ns: u128 = nanos_now();
        self.dest_at(download_dir, backend_id, detected_ext, now_ns)
    }

    /// What a backend is asked to describe.
    pub fn describe_request(&self, dest: &str, config: BackendConfig) -> (r: DownloadReq)
        ensures
            r.url == self.url,
            r.dest_dir@ == (match paths::parent(dest@) {
                Some(p) => p,
                None => Seq::empty(),
            }),
            text::opt(r.filename_hint) == paths::file_name(dest@),
            r.ctx.headers@ == self.headers@,
            r.ctx.headers.list() == self.headers.list(),
            r.ctx.cookie == self.cookie,
            r.quality == self.quality,
            r.extras@ == self.extras@,
            r.concurrency == 1,
            r.config == config,
    {
        let dest_dir = match get_parent(dest) {
            Some(p) => p,
            None => {
                let none = String::new();
                assert(none@ =~= Seq::empty());
                none
            },
        };
        DownloadReq {
            url: self.url.clone(),
            dest_dir,
            filename_hint: get_file_name(dest),
            ctx: RequestContext { headers: self.headers.copy(), cookie: copy_opt(&self.cookie) },
            quality: copy_opt(&self.quality),
            extras: self.extras.copy(),
            concurrency: 1,
            config,
        }
    }

    /// Whether an entry is the one that is queued for the request.
    pub open spec fn queues(
        self,
        e: DownloadEntry,
        dest: Seq<char>,
        backend_id: String,
        meta: EntryMeta,
    ) -> bool {
        &&& e.url == self.url
        &&& e.dest@ == rooted(dest, text::opt(meta.out_dir))
        &&& e.backend_id == backend_id
        &&& e.kind == backend::kind_of_id(backend_id@)
        &&& e.status == DownloadStatus::Queued
        &&& e.headers == self.headers
        &&& e.cookie == self.cookie
        &&& e.quality == self.quality
        &&& e.extras == self.extras
        &&& match self.preview {
            Some((data_url, kind)) => e.preview == Some(data_url) && e.preview_kind == Some(kind),
            None => e.preview is None && e.preview_kind is None,
        }
        &&& e.author == meta.author
        &&& e.title == entry::or_else(meta.title, self.title_hint)
        &&& e.media_class == meta.media_class
        &&& e.out_dir == meta.out_dir
        &&& e.error is None && e.progress is None && e.retry_count == 0 && e.next_retry_at is None
        &&& e.extra_files@ == Seq::<String>::empty()
    }

    /// The entry with a given identifier, made at a given time, that is queued for the
    /// request.
    pub fn entry_with_id(
        self,
        id: String,
        created_at: i64,
        dest: &str,
        backend_id: String,
        meta: EntryMeta,
    ) -> (r: DownloadEntry)
        ensures
            r.id == id,
            r.created_at == created_at,
            self.queues(r, dest@, backend_id, meta),
    {
        let dest = root(dest, &meta.out_dir);
        let kind = kind_for_backend_id(backend_id.as_str());
        let e = DownloadEntry::with_id(id, created_at, self.url.clone(), dest, kind);
        self.fill(e, backend_id, meta)
    }

    fn fill(self, e: DownloadEntry, backend_id: String, meta: EntryMeta) -> (r: DownloadEntry)
        ensures
            r == (DownloadEntry {
                backend_id,
                kind: backend::kind_of_id(backend_id@),
                headers: self.headers,
                cookie: self.cookie,
                quality: self.quality,
                extras: self.extras,
                preview: match self.preview {
                    Some(p) => Some(p.0),
                    None => e.preview,
                },
                preview_kind: match self.preview {
                    Some(p) => Some(p.1),
                    None => e.preview_kind,
                },
                author: meta.author,
                title: entry::or_else(meta.title, self.title_hint),
                media_class: meta.media_class,
                out_dir: meta.out_dir,
                ..e
            }),
    {
        let e = e.with_backend_id(backend_id);
        let e = e.with_request_context(self.headers, self.cookie);
        let e = e.with_quality(self.quality);
        let e = e.with_extras(self.extras);
        let e = e.with_preview(self.preview);
        let title = match meta.title {
            Some(t) => Some(t),
            None => self.title_hint,
        };
        DownloadEntry {
            author: meta.author,
            title,
            media_class: meta.media_class,
            out_dir: meta.out_dir,
            ..e
        }
    }

    /// The entry that is queued for the request now.
    pub fn entry(self, dest: &str, backend_id: String, meta: EntryMeta) -> (r: DownloadEntry)
        ensures
            entry::is_uuid(r.id@),
            r.created_at >= 0,
            self.queues(r, dest@, backend_id, meta),
    {
        let dest = root(dest, &meta.out_dir);
        let kind = kind_for_backend_id(backend_id.as_str());
        let e = DownloadEntry::new(self.url.clone(), dest, kind);
        self.fill(e, backend_id, meta)
    }
}

/// Where media go that have a folder to themselves.
pub open spec fn rooted(dest: Seq<char>, out_dir: Option<Seq<char>>) -> Seq<char> {
    match out_dir {
        Some(dir) => match paths::file_name(dest) {
            Some(name) => paths::join(dir, name),
            None => dest,
        },
        None => dest,
    }
}

fn root(dest: &str, out_dir: &Option<String>) -> (r: String)
    ensures
        r@ == rooted(dest@, text::opt(*out_dir)),
{
    match out_dir {
        Some(dir) => match get_file_name(dest) {
            Some(name) => join_path(dir.as_str(), name.as_str()),
            None => dest.to_string(),
        },
        None => dest.to_string(),
    }
}

/// What a backend is asked that only looks at an address.
pub fn probe_req(url: String, ctx: RequestContext, config: BackendConfig) -> (r: DownloadReq)
    ensures
        r.url == url,
        r.dest_dir@ == "."@,
        r.filename_hint is None,
        r.ctx == ctx,
        r.quality is None,
        r.extras@ == Map::<Seq<char>, String>::empty(),
        r.concurrency == 1,
        r.config == config,
{
    DownloadReq {
        url,
        dest_dir: ".".to_string(),
        filename_hint: None,
        ctx,
        quality: None,
        extras: StrMap::new(),
        concurrency: 1,
        config,
    }
}

/// The wishes for a video: subtitles, and what is put into the file.
pub open spec fn video_extras(subs: Option<Seq<char>>, thumbnail: bool, chapters: bool) -> Seq<
    (Seq<char>, Seq<char>),
> {
    let a = match subs {
        Some(s) if text::trim(s).len() > 0 => seq![("subs"@, s)],
        _ => Seq::empty(),
    };
    let b = if thumbnail {
        a.push(("thumbnail"@, "1"@))
    } else {
        a
    };
    if chapters {
        b.push(("chapters"@, "1"@))
    } else {
        b
    }
}

/// Writes down the wishes for a video.
pub fn queue_extras(subs: Option<String>, thumbnail: bool, chapters: bool) -> (r: StrMap<String>)
    ensures
        net::pairs_view(r.list()) == video_extras(text::opt(subs), thumbnail, chapters),
{
    let mut pairs: Vec<(String, String)> = Vec::new();
    assert(net::pairs_view(pairs@) =~= Seq::empty());
    let ghost a0 = net::pairs_view(pairs@);
    match subs {
        Some(s) => {
            let cs = chars_of(s.as_str());
            if trimmed(cs.as_slice()).len() > 0 {
                pairs.push(("subs".to_string(), s));
                assert(net::pairs_view(pairs@) =~= seq![("subs"@, s@)]);
            }
        },
        None => {},
    }
    let ghost a = net::pairs_view(pairs@);
    if thumbnail {
        pairs.push(("thumbnail".to_string(), "1".to_string()));
        assert(net::pairs_view(pairs@) =~= a.push(("thumbnail"@, "1"@)));
    }
    let ghost b = net::pairs_view(pairs@);
    if chapters {
        pairs.push(("chapters".to_string(), "1".to_string()));
        assert(net::pairs_view(pairs@) =~= b.push(("chapters"@, "1"@)));
    }
    proof {
        reveal_strlit("subs");
        reveal_strlit("thumbnail");
        reveal_strlit("chapters");
        let all = net::pairs_view(pairs@);
        assert("subs"@.len() == 4 && "thumbnail"@.len() == 9 && "chapters"@.len() == 8);
        assert forall|i: int, j: int| 0 <= i < j < pairs@.len() implies (#[trigger] pairs@[i]).0@
            != (#[trigger] pairs@[j]).0@ by {
            assert(all[i].0 == pairs@[i].0@);
            assert(all[j].0 == pairs@[j].0@);
        }
    }
    StrMap::of_pairs(pairs)
}

// ---------------------------------------------------------------------------
// What queueing keeps to
// ---------------------------------------------------------------------------

/// Whatever folder a backend asks for, the name of the file stays, and the file is in
/// the folder.
pub proof fn folders_keep_the_name(dest: Seq<char>, dir: Seq<char>)
    requires
        paths::file_name(dest) is Some,
        paths::plain_name(paths::file_name(dest)->0),
    ensures
        paths::file_name(rooted(dest, Some(dir))) == paths::file_name(dest),
        rooted(dest, Some(dir)) == paths::join(dir, paths::file_name(dest)->0),
        rooted(dest, None) == dest,
{
    paths::joining_keeps_the_name(dir, paths::file_name(dest)->0);
}

} // verus!

//! Entries of the download list.

use vstd::prelude::*;

use crate::backend;
use crate::backend::{BackendConfig, DownloadReq, Outcome, backend_id_for_kind, kind_for_backend_id};
use crate::clock::now_unix;
use crate::jobs::DownloadKind;
use crate::naming;
use crate::naming::cache_dir_for;
use crate::net::{JobEvent, RequestContext};
use crate::paths;
use crate::paths::{get_file_name, get_parent};
use crate::strmap::StrMap;
use crate::text;
use crate::text::{copy_opt, str_eq};

verus! {

/// Where a download stands.
#[derive(Clone, Copy, Debug, PartialEq, Eq, Structural)]
pub enum DownloadStatus {
    Queued,
    Downloading,
    Converting,
    Paused,
    Finished,
    Failed,
    Cancelled,
}

/// How far a running download is.
#[derive(Clone, Copy, Debug, PartialEq, Eq)]
pub struct DownloadProgress {
    pub downloaded_bytes: u64,
    /// Total bytes, where known.
    pub total_bytes: Option<u64>,
    /// Completed segments; 0 for byte-only downloads.
    pub done_units: u64,
    /// Total segments; 0 where there is no segment count.
    pub total_units: u64,
    /// Bytes per second over the recent past.
    pub speed_bps: u64,
}

/// One download.
#[derive(Debug)]
pub struct DownloadEntry {
    pub id: String,
    pub url: String,
    pub dest: String,
    /// The kind of the backend, where the backend stands for one.
    pub kind: DownloadKind,
    /// Which backend carries out the download.
    pub backend_id: String,
    pub status: DownloadStatus,
    pub error: Option<String>,
    /// Seconds since the Unix epoch.
    pub created_at: i64,
    pub headers: StrMap<String>,
    pub cookie: Option<String>,
    pub progress: Option<DownloadProgress>,
    /// How often the download was started again by itself.
    pub retry_count: u32,
    /// When the download is started again by itself.
    pub next_retry_at: Option<i64>,
    pub quality: Option<String>,
    /// Further wishes, in terms of the backend.
    pub extras: StrMap<String>,
    /// A small image, as a data URL.
    pub preview: Option<String>,
    pub preview_kind: Option<String>,
    /// Files beyond `dest`.
    pub extra_files: Vec<String>,
    /// The channel or `@account` that the download is grouped under.
    pub author: Option<String>,
    pub title: Option<String>,
    /// The group within an author.
    pub media_class: Option<String>,
    /// The folder that this download has to itself.
    pub out_dir: Option<String>,
}

/// An entry as it was stored: an older one has a kind and no backend, a newer one
/// has both.
#[derive(Debug)]
pub struct DownloadEntryRepr {
    pub id: String,
    pub url: String,
    pub dest: String,
    pub kind: Option<DownloadKind>,
    pub backend_id: Option<String>,
    pub status: DownloadStatus,
    pub error: Option<String>,
    pub created_at: i64,
    pub headers: StrMap<String>,
    pub cookie: Option<String>,
    pub progress: Option<DownloadProgress>,
    pub retry_count: u32,
    pub next_retry_at: Option<i64>,
    pub quality: Option<String>,
    pub extras: StrMap<String>,
    pub preview: Option<String>,
    pub preview_kind: Option<String>,
    pub extra_files: Vec<String>,
    pub author: Option<String>,
    pub title: Option<String>,
    pub media_class: Option<String>,
    pub out_dir: Option<String>,
}

/// The backend of a stored entry: the one that it names, else that of its kind,
/// else plain HTTP.
pub open spec fn stored_backend(id: Option<Seq<char>>, kind: Option<DownloadKind>) -> Seq<char> {
    match id {
        Some(s) => if s.len() > 0 {
            s
        } else {
            backend_of_kind(kind)
        },
        None => backend_of_kind(kind),
    }
}

/// The backend of a kind, plain HTTP where there is none.
pub open spec fn backend_of_kind(kind: Option<DownloadKind>) -> Seq<char> {
    match kind {
        Some(k) => backend::id_of_kind(k),
        None => "http"@,
    }
}

/// Whether a character is a hexadecimal digit in lower case.
pub open spec fn is_hex(c: char) -> bool {
    ('0' <= c && c <= '9') || ('a' <= c && c <= 'f')
}

/// Whether a text has the shape of a random identifier: groups of hexadecimal
/// digits with hyphens between them, and the mark of its version.
pub open spec fn is_uuid(s: Seq<char>) -> bool {
    &&& s.len() == 36
    &&& s[14] == '4'
    &&& forall|i: int|
        0 <= i < 36 ==> if i == 8 || i == 13 || i == 18 || i == 23 {
            #[trigger] s[i] == '-'
        } else {
            is_hex(s[i])
        }
}

/// `uuid::Uuid::new_v4` as text: a random identifier in the usual form. Which one
/// it is is left to chance.
#[verifier::external_body]
fn new_uuid() -> (r: String)
    ensures
        is_uuid(r@),
{
    uuid::Uuid::new_v4().to_string()
}

impl DownloadEntry {
    /// Whether the entry is a new one that waits, with nothing else known of it.
    pub open spec fn is_fresh(self, url: String, dest: String, kind: DownloadKind) -> bool {
        &&& self.url == url
        &&& self.dest == dest
        &&& self.kind == kind
        &&& self.backend_id@ == backend::id_of_kind(kind)
        &&& self.status == DownloadStatus::Queued
        &&& self.error is None
        &&& self.headers@ == Map::<Seq<char>, String>::empty()
        &&& self.cookie is None
        &&& self.progress is None
        &&& self.retry_count == 0
        &&& self.next_retry_at is None
        &&& self.quality is None
        &&& self.extras@ == Map::<Seq<char>, String>::empty()
        &&& self.preview is None
        &&& self.preview_kind is None
        &&& self.extra_files@ == Seq::<String>::empty()
        &&& self.author is None
        &&& self.title is None
        &&& self.media_class is None
        &&& self.out_dir is None
    }

    /// A new entry with a given identifier, made at a given time.
    pub fn with_id(id: String, created_at: i64, url: String, dest: String, kind: DownloadKind) -> (r:
        Self)
        ensures
            r.id == id,
            r.created_at == created_at,
            r.is_fresh(url, dest, kind),
    {
        DownloadEntry {
            id,
            url,
            dest,
            kind,
            backend_id: backend_id_for_kind(kind).to_string(),
            status: DownloadStatus::Queued,
            error: None,
            created_at,
            headers: StrMap::new(),
            cookie: None,
            progress: None,
            retry_count: 0,
            next_retry_at: None,
            quality: None,
            extras: StrMap::new(),
            preview: None,
            preview_kind: None,
            extra_files: Vec::new(),
            author: None,
            title: None,
            media_class: None,
            out_dir: None,
        }
    }

    /// A new entry.
    pub fn new(url: String, dest: String, kind: DownloadKind) -> (r: Self)
        ensures
            is_uuid(r.id@),
            r.created_at >= 0,
            r.is_fresh(url, dest, kind),
    {
        Self::with_id(new_uuid(), now_unix(), url, dest, kind)
    }

    /// The entry that was stored.
    pub fn from_repr(r: DownloadEntryRepr) -> (e: Self)
        ensures
            e.backend_id@ == stored_backend(text::opt(r.backend_id), r.kind),
            e == (DownloadEntry {
                id: r.id,
                url: r.url,
                dest: r.dest,
                kind: match r.kind {
                    Some(k) => k,
                    None => backend::kind_of_id(stored_backend(text::opt(r.backend_id), r.kind)),
                },
                backend_id: e.backend_id,
                status: r.status,
                error: r.error,
                created_at: r.created_at,
                headers: r.headers,
                cookie: r.cookie,
                progress: r.progress,
                retry_count: r.retry_count,
                next_retry_at: r.next_retry_at,
                quality: r.quality,
                extras: r.extras,
                preview: r.preview,
                preview_kind: r.preview_kind,
                extra_files: r.extra_files,
                author: r.author,
                title: r.title,
                media_class: r.media_class,
                out_dir: r.out_dir,
            }),
    {
        let of_kind = match r.kind {
            Some(k) => backend_id_for_kind(k),
            None => "http",
        };
        let backend_id = match r.backend_id {
            Some(s) => {
                proof {
                    reveal_strlit("");
                    assert(s@.len() == 0 <==> s@ =~= ""@);
                }
                if str_eq(s.as_str(), "") {
                    of_kind.to_string()
                } else {
                    s
                }
            },
            None => of_kind.to_string(),
        };
        let kind = match r.kind {
            Some(k) => k,
            None => kind_for_backend_id(backend_id.as_str()),
        };
        DownloadEntry {
            id: r.id,
            url: r.url,
            dest: r.dest,
            kind,
            backend_id,
            status: r.status,
            error: r.error,
            created_at: r.created_at,
            headers: r.headers,
            cookie: r.cookie,
            progress: r.progress,
            retry_count: r.retry_count,
            next_retry_at: r.next_retry_at,
            quality: r.quality,
            extras: r.extras,
            preview: r.preview,
            preview_kind: r.preview_kind,
            extra_files: r.extra_files,
            author: r.author,
            title: r.title,
            media_class: r.media_class,
            out_dir: r.out_dir,
        }
    }

    /// The entry for another backend, with its kind.
    pub fn with_backend_id(self, id: String) -> (r: Self)
        ensures
            r == (DownloadEntry { backend_id: id, kind: backend::kind_of_id(id@), ..self }),
    {
        let kind = kind_for_backend_id(id.as_str());
        DownloadEntry { backend_id: id, kind, ..self }
    }

    /// The entry with a small image and its kind, where there is one.
    pub fn with_preview(self, preview: Option<(String, String)>) -> (r: Self)
        ensures
            r == (match preview {
                Some((data_url, kind)) => DownloadEntry {
                    preview: Some(data_url),
                    preview_kind: Some(kind),
                    ..self
                },
                None => self,
            }),
    {
        match preview {
            Some((data_url, kind)) => DownloadEntry {
                preview: Some(data_url),
                preview_kind: Some(kind),
                ..self
            },
            None => self,
        }
    }

    /// The entry with a chosen variant.
    pub fn with_quality(self, quality: Option<String>) -> (r: Self)
        ensures
            r == (DownloadEntry { quality, ..self }),
    {
        DownloadEntry { quality, ..self }
    }

    /// The entry with further wishes.
    pub fn with_extras(self, extras: StrMap<String>) -> (r: Self)
        ensures
            r == (DownloadEntry { extras, ..self }),
    {
        DownloadEntry { extras, ..self }
    }

    /// The entry with what the browser sent.
    pub fn with_request_context(self, headers: StrMap<String>, cookie: Option<String>) -> (r: Self)
        ensures
            r == (DownloadEntry { headers, cookie, ..self }),
    {
        DownloadEntry { headers, cookie, ..self }
    }
}

// ---------------------------------------------------------------------------
// Transitions
// ---------------------------------------------------------------------------

/// Whether a download can be put back into the queue: it failed, was cancelled or
/// paused, or was left converting.
pub open spec fn can_retry(s: DownloadStatus) -> bool {
    s == DownloadStatus::Failed || s == DownloadStatus::Cancelled || s == DownloadStatus::Paused || s
        == DownloadStatus::Converting
}

/// Whether a download still has something to do or to wait for.
pub open spec fn is_open(s: DownloadStatus) -> bool {
    s == DownloadStatus::Queued || s == DownloadStatus::Downloading || s
        == DownloadStatus::Converting || s == DownloadStatus::Paused
}

/// The progress that an event tells.
pub open spec fn progress_of(e: JobEvent) -> Option<DownloadProgress> {
    match e {
        JobEvent::Progress { downloaded_bytes, total_bytes, done_units, total_units, speed_bps } => Some(
            DownloadProgress { downloaded_bytes, total_bytes, done_units, total_units, speed_bps },
        ),
        JobEvent::Converting => None,
    }
}

/// A value, or another one where there is none.
pub open spec fn or_else<T>(a: Option<T>, b: Option<T>) -> Option<T> {
    match a {
        Some(x) => Some(x),
        None => b,
    }
}

impl DownloadEntry {
    /// The entry once a run starts: nothing is left of an earlier failure.
    pub open spec fn started(self) -> DownloadEntry {
        DownloadEntry {
            status: DownloadStatus::Downloading,
            error: None,
            next_retry_at: None,
            ..self
        }
    }

    /// The entry once an event of its run came.
    pub open spec fn after_event(self, e: JobEvent) -> DownloadEntry {
        match e {
            JobEvent::Progress { .. } => DownloadEntry { progress: progress_of(e), ..self },
            JobEvent::Converting => DownloadEntry {
                status: DownloadStatus::Converting,
                progress: None,
                ..self
            },
        }
    }

    /// Whether an entry is what becomes of this one once its run succeeded: the
    /// first file is the destination, the others go with it, and what was learnt of
    /// the download replaces what was known.
    pub open spec fn finishes_as(self, outcome: Outcome, r: DownloadEntry) -> bool {
        &&& r.dest == (if outcome.files@.len() > 0 {
            outcome.files@[0]
        } else {
            self.dest
        })
        &&& r.extra_files@ == (if outcome.files@.len() > 0 {
            outcome.files@.skip(1)
        } else {
            Seq::empty()
        })
        &&& r == (DownloadEntry {
            status: DownloadStatus::Finished,
            error: None,
            next_retry_at: None,
            dest: r.dest,
            extra_files: r.extra_files,
            author: or_else(outcome.meta.author, self.author),
            title: or_else(outcome.meta.title, self.title),
            media_class: or_else(outcome.meta.media_class, self.media_class),
            ..self
        })
    }

    /// The entry once it failed.
    pub open spec fn failed(self, error: String, next_retry_at: Option<i64>) -> DownloadEntry {
        DownloadEntry {
            status: DownloadStatus::Failed,
            error: Some(error),
            next_retry_at,
            ..self
        }
    }

    /// The entry once it is back in the queue.
    pub open spec fn requeued(self) -> DownloadEntry {
        DownloadEntry {
            status: DownloadStatus::Queued,
            error: None,
            progress: None,
            retry_count: 0,
            next_retry_at: None,
            ..self
        }
    }

    /// The entry once it is paused.
    pub open spec fn paused(self) -> DownloadEntry {
        DownloadEntry { status: DownloadStatus::Paused, ..self }
    }

    /// Starts a run.
    pub fn start(self) -> (r: Self)
        ensures
            r == self.started(),
    {
        DownloadEntry {
            status: DownloadStatus::Downloading,
            error: None,
            next_retry_at: None,
            ..self
        }
    }

    /// Takes an event of a run.
    pub fn on_event(self, e: JobEvent) -> (r: Self)
        ensures
            r == self.after_event(e),
    {
        match e {
            JobEvent::Progress {
                downloaded_bytes,
                total_bytes,
                done_units,
                total_units,
                speed_bps,
            } => DownloadEntry {
                progress: Some(
                    DownloadProgress {
                        downloaded_bytes,
                        total_bytes,
                        done_units,
                        total_units,
                        speed_bps,
                    },
                ),
                ..self
            },
            JobEvent::Converting => DownloadEntry {
                status: DownloadStatus::Converting,
                progress: None,
                ..self
            },
        }
    }

    /// Ends a run that succeeded.
    pub fn finish(self, outcome: Outcome) -> (r: Self)
        ensures
            self.finishes_as(outcome, r),
    {
        let mut files = outcome.files;
        let ghost all = files@;
        let meta = outcome.meta;
        let DownloadEntry {
            id,
            url,
            dest,
            kind,
            backend_id,
            status: _,
            error: _,
            created_at,
            headers,
            cookie,
            progress,
            retry_count,
            next_retry_at: _,
            quality,
            extras,
            preview,
            preview_kind,
            extra_files: _,
            author,
            title,
            media_class,
            out_dir,
        } = self;
        let dest = if files.len() == 0 {
            assert(files@ =~= Seq::empty());
            dest
        } else {
            let first = files.remove(0);
            assert(files@ =~= all.skip(1));
            first
        };
        let author = if meta.author.is_some() {
            meta.author
        } else {
            author
        };
        let title = if meta.title.is_some() {
            meta.title
        } else {
            title
        };
        let media_class = if meta.media_class.is_some() {
            meta.media_class
        } else {
            media_class
        };
        DownloadEntry {
            id,
            url,
            dest,
            kind,
            backend_id,
            status: DownloadStatus::Finished,
            error: None,
            created_at,
            headers,
            cookie,
            progress,
            retry_count,
            next_retry_at: None,
            quality,
            extras,
            preview,
            preview_kind,
            extra_files: files,
            author,
            title,
            media_class,
            out_dir,
        }
    }

    /// Ends a run that failed.
    pub fn fail(self, error: String, next_retry_at: Option<i64>) -> (r: Self)
        ensures
            r == self.failed(error, next_retry_at),
    {
        DownloadEntry {
            status: DownloadStatus::Failed,
            error: Some(error),
            next_retry_at,
            ..self
        }
    }

    /// Puts the entry back into the queue.
    pub fn requeue(self) -> (r: Self)
        ensures
            r == self.requeued(),
    {
        DownloadEntry {
            status: DownloadStatus::Queued,
            error: None,
            progress: None,
            retry_count: 0,
            next_retry_at: None,
            ..self
        }
    }

    /// Pauses the entry.
    pub fn pause(self) -> (r: Self)
        ensures
            r == self.paused(),
    {
        DownloadEntry { status: DownloadStatus::Paused, ..self }
    }

    /// Tells whether the entry can be put back into the queue.
    pub fn retryable(&self) -> (r: bool)
        ensures
            r == can_retry(self.status),
    {
        self.status == DownloadStatus::Failed || self.status == DownloadStatus::Cancelled
            || self.status == DownloadStatus::Paused || self.status == DownloadStatus::Converting
    }

    /// Tells whether the entry still has something to do or to wait for.
    pub fn open(&self) -> (r: bool)
        ensures
            r == is_open(self.status),
    {
        self.status == DownloadStatus::Queued || self.status == DownloadStatus::Downloading
            || self.status == DownloadStatus::Converting || self.status == DownloadStatus::Paused
    }
}

/// What becomes of an entry never changes what it is: its identifier, its URL, its
/// backend and the folder that it has to itself stay.
pub proof fn transitions_keep_identity(
    e: DownloadEntry,
    event: JobEvent,
    error: String,
    at: Option<i64>,
)
    ensures
        e.started().id == e.id && e.started().url == e.url && e.started().backend_id
            == e.backend_id && e.started().out_dir == e.out_dir,
        e.after_event(event).id == e.id && e.after_event(event).url == e.url && e.after_event(
            event,
        ).backend_id == e.backend_id && e.after_event(event).out_dir == e.out_dir,
        e.failed(error, at).id == e.id && e.failed(error, at).url == e.url && e.failed(
            error,
            at,
        ).backend_id == e.backend_id && e.failed(error, at).out_dir == e.out_dir,
        e.requeued().id == e.id && e.requeued().url == e.url && e.requeued().backend_id
            == e.backend_id && e.requeued().out_dir == e.out_dir,
        e.paused().id == e.id && e.paused().url == e.url && e.paused().backend_id == e.backend_id
            && e.paused().out_dir == e.out_dir,
{
}

/// A failed download that is put back and started again shows nothing of its
/// failure.
pub proof fn retries_start_clean(e: DownloadEntry, error: String, at: Option<i64>)
    ensures
        can_retry(e.failed(error, at).status),
        e.failed(error, at).requeued().started().error is None,
        e.failed(error, at).requeued().started().progress is None,
        e.failed(error, at).requeued().started().next_retry_at is None,
{
}

// ---------------------------------------------------------------------------
// Requests and files
// ---------------------------------------------------------------------------

/// The directory that an entry downloads to: the folder that it has to itself,
/// else the one of its destination, else the current one.
pub open spec fn dir_of(out_dir: Option<Seq<char>>, dest: Seq<char>) -> Seq<char> {
    match out_dir {
        Some(d) => d,
        None => match paths::parent(dest) {
            Some(p) => p,
            None => "."@,
        },
    }
}

/// What a backend is asked to do for an entry.
pub fn request_for(entry: &DownloadEntry, concurrency: usize, config: BackendConfig) -> (r:
    DownloadReq)
    ensures
        r.url == entry.url,
        r.dest_dir@ == dir_of(text::opt(entry.out_dir), entry.dest@),
        text::opt(r.filename_hint) == paths::file_name(entry.dest@),
        r.ctx.headers@ == entry.headers@,
        r.ctx.headers.list() == entry.headers.list(),
        r.ctx.cookie == entry.cookie,
        r.quality == entry.quality,
        r.extras@ == entry.extras@,
        r.concurrency == concurrency,
        r.config == config,
{
    let dest_dir = match &entry.out_dir {
        Some(d) => d.clone(),
        None => match get_parent(entry.dest.as_str()) {
            Some(p) => p,
            None => ".".to_string(),
        },
    };
    DownloadReq {
        url: entry.url.clone(),
        dest_dir,
        filename_hint: get_file_name(entry.dest.as_str()),
        ctx: RequestContext { headers: entry.headers.copy(), cookie: copy_opt(&entry.cookie) },
        quality: copy_opt(&entry.quality),
        extras: entry.extras.copy(),
        concurrency,
        config,
    }
}

/// Something that a download leaves on disk.
#[derive(Debug)]
pub enum Artifact {
    File(String),
    /// A directory with all that is in it.
    Folder(String),
}

/// The model of [`Artifact`].
pub enum ArtifactView {
    File(Seq<char>),
    Folder(Seq<char>),
}

impl View for Artifact {
    type V = ArtifactView;

    open spec fn view(&self) -> ArtifactView {
        match self {
            Artifact::File(p) => ArtifactView::File(p@),
            Artifact::Folder(p) => ArtifactView::Folder(p@),
        }
    }
}

/// The models of a list of what is left on disk.
pub open spec fn artifact_views(v: Seq<Artifact>) -> Seq<ArtifactView> {
    v.map_values(|a: Artifact| a@)
}

/// A file with the directory of what led to it.
pub open spec fn file_artifacts(p: Seq<char>) -> Seq<ArtifactView> {
    seq![ArtifactView::File(p), ArtifactView::Folder(naming::cache_dir(p))]
}

/// The files of a list, each with the directory of what led to it.
pub open spec fn files_artifacts(files: Seq<Seq<char>>) -> Seq<ArtifactView>
    decreases files.len(),
{
    if files.len() == 0 {
        Seq::empty()
    } else {
        files_artifacts(files.drop_last()) + file_artifacts(files.last())
    }
}

/// What a download leaves on disk: the folder that it has to itself, unless that is
/// a root, and its files, each with the directory of what led to it.
pub open spec fn artifacts(
    out_dir: Option<Seq<char>>,
    dest: Seq<char>,
    extra_files: Seq<Seq<char>>,
) -> Seq<ArtifactView> {
    let folder = match out_dir {
        Some(d) => if paths::file_name(d) is Some {
            seq![ArtifactView::Folder(d)]
        } else {
            Seq::empty()
        },
        None => Seq::empty(),
    };
    folder + file_artifacts(dest) + files_artifacts(extra_files)
}

fn push_file(out: &mut Vec<Artifact>, p: &str)
    ensures
        artifact_views(final(out)@) == artifact_views(old(out)@) + file_artifacts(p@),
{
    let ghost before = artifact_views(out@);
    out.push(Artifact::File(p.to_string()));
    out.push(Artifact::Folder(cache_dir_for(p)));
    assert(artifact_views(out@) =~= before + file_artifacts(p@));
}

/// Lists what a download leaves on disk.
pub fn list_artifacts(entry: &DownloadEntry) -> (r: Vec<Artifact>)
    ensures
        artifact_views(r@) == artifacts(
            text::opt(entry.out_dir),
            entry.dest@,
            text::texts(entry.extra_files@),
        ),
{
    let mut out: Vec<Artifact> = Vec::new();
    let ghost folder = match text::opt(entry.out_dir) {
        Some(d) => if paths::file_name(d) is Some {
            seq![ArtifactView::Folder(d)]
        } else {
            Seq::empty()
        },
        None => Seq::empty(),
    };
    match &entry.out_dir {
        Some(d) => {
            if get_file_name(d.as_str()).is_some() {
                out.push(Artifact::Folder(d.clone()));
            }
        },
        None => {},
    }
    assert(artifact_views(out@) =~= folder);
    push_file(&mut out, entry.dest.as_str());
    let ghost head = folder + file_artifacts(entry.dest@);
    let ghost all = text::texts(entry.extra_files@);
    let mut i: usize = 0;
    assert(all.take(0) =~= Seq::empty());
    assert(artifact_views(out@) =~= head + files_artifacts(all.take(0)));
    while i < entry.extra_files.len()
        invariant
            i <= entry.extra_files.len(),
            all == text::texts(entry.extra_files@),
            artifact_views(out@) == head + files_artifacts(all.take(i as int)),
        decreases entry.extra_files.len() - i,
    {
        push_file(&mut out, entry.extra_files[i].as_str());
        proof {
            let next = all.take(i + 1);
            assert(next.drop_last() =~= all.take(i as int));
            assert(next.last() == entry.extra_files@[i as int]@);
            assert(artifact_views(out@) =~= head + files_artifacts(next));
        }
        i += 1;
    }
    assert(all.take(entry.extra_files@.len() as int) =~= all);
    out
}

} // verus!

//! Torrents that run: from the request for a torrent to its outcome, and which torrents
//! a session holds.

use vstd::prelude::*;

use crate::backend::{DownloadReq, Outcome};
use crate::text;
use crate::text::{cat2, chars_of, listed, starts_with, str_eq};
use crate::textmap;
use crate::textmap::TextMap;
use crate::torrent;
use crate::torrent::{
    FILES_EXTRA, MetadataStep, TorrentFileStat, TorrentPeer, TorrentPreview, TorrentPreviewFile,
    TorrentStats, display_name, file_stats, is_readable, keeps_seeding, metadata_step, outcome,
    output_folder, parse_file_selection,
};
use crate::urls;

verus! {

// ---------------------------------------------------------------------------
// A run
// ---------------------------------------------------------------------------

/// Where a run is.
#[derive(Debug)]
pub enum TorrentStep {
    /// The torrent is handed to the session.
    Add,
    /// Its list of files is awaited.
    AwaitMetadata,
    /// Its files are awaited.
    AwaitFiles,
    Finished,
    Failed(String),
}

/// The model of [`TorrentStep`].
pub enum StepView {
    Add,
    AwaitMetadata,
    AwaitFiles,
    Finished,
    Failed(Seq<char>),
}

impl View for TorrentStep {
    type V = StepView;

    open spec fn view(&self) -> StepView {
        match self {
            TorrentStep::Add => StepView::Add,
            TorrentStep::AwaitMetadata => StepView::AwaitMetadata,
            TorrentStep::AwaitFiles => StepView::AwaitFiles,
            TorrentStep::Finished => StepView::Finished,
            TorrentStep::Failed(e) => StepView::Failed(e@),
        }
    }
}

/// How a session answers when a torrent is handed to it.
#[derive(Debug)]
pub enum Added {
    /// Not in time, as the message tells.
    TimedOut(String),
    Refused(String),
    /// It took the torrent but does not run it.
    NoHandle,
    Running,
}

/// A torrent from the request to its outcome.
#[derive(Debug)]
pub struct TorrentRun {
    /// What the torrent is called until its own name is known.
    pub name: String,
    /// Where its files go.
    pub folder: String,
    /// The chosen files; all of them where none is named.
    pub only: Option<Vec<usize>>,
    /// Whether it stays in the session once it is complete.
    pub stays: bool,
    pub step: TorrentStep,
}

/// What is told of a torrent whose list of files does not come.
pub open spec fn metadata_trouble() -> Seq<char> {
    "couldn't fetch torrent metadata in 240s — no reachable seeds or peers (check your connection / firewall / VPN; the torrent may also be dead)"@
}

/// The step after a torrent was handed to the session.
pub open spec fn after_add(a: Added) -> StepView {
    match a {
        Added::TimedOut(e) => StepView::Failed("timed out adding torrent: "@ + e@),
        Added::Refused(e) => StepView::Failed(e@),
        Added::NoHandle => StepView::Failed("torrent add returned no handle"@),
        Added::Running => StepView::AwaitMetadata,
    }
}

/// The step after the list of files was asked for.
pub open spec fn after_look(error: Option<Seq<char>>, total_bytes: u64) -> StepView {
    match error {
        Some(e) => StepView::Failed(e),
        None => if total_bytes > 0 {
            StepView::AwaitFiles
        } else {
            StepView::AwaitMetadata
        },
    }
}

/// The step after the files were awaited.
pub open spec fn after_files(failure: Option<Seq<char>>) -> StepView {
    match failure {
        Some(e) => StepView::Failed("torrent download failed: "@ + e),
        None => StepView::Finished,
    }
}

/// Whether files are chosen as the wishes say.
pub open spec fn selects(extras: Map<Seq<char>, String>, only: Option<Vec<usize>>) -> bool {
    let wish = if extras.dom().contains(FILES_EXTRA@) {
        Some(extras[FILES_EXTRA@]@)
    } else {
        None
    };
    torrent::selection(wish) == (match only {
        Some(v) => Some(torrent::nats(v@)),
        None => None,
    })
}

impl TorrentRun {
    /// Whether nothing but the step differs.
    pub open spec fn same_torrent(self, other: TorrentRun) -> bool {
        &&& self.name == other.name
        &&& self.folder == other.folder
        &&& self.only == other.only
        &&& self.stays == other.stays
    }

    /// Whether a run begins as a request says, under a name.
    pub open spec fn begins(self, req: DownloadReq, name: Seq<char>) -> bool {
        &&& self.name@ == name
        &&& self.folder@ == torrent::folder_of(
            text::opt(req.config.torrent.download_dir),
            req.dest_dir@,
            name,
        )
        &&& selects(req.extras@, self.only)
        &&& self.stays == (req.config.torrent.seed_forever == Some(true))
        &&& self.step@ == StepView::Add
    }

    /// Begins a run under a name.
    pub fn start_named(req: &DownloadReq, name: String) -> (r: Self)
        ensures
            r.begins(*req, name@),
    {
        let folder = output_folder(&req.config.torrent, req.dest_dir.as_str(), name.as_str());
        let only = parse_file_selection(req.extras.get(FILES_EXTRA));
        let stays = keeps_seeding(&req.config.torrent);
        TorrentRun { name, folder, only, stays, step: TorrentStep::Add }
    }

    /// Begins a run.
    pub fn start(req: &DownloadReq) -> (r: Self)
        requires
            text::has_prefix(req.url@, "magnet:"@) ==> torrent::readable(urls::parsed_url(req.url@)),
        ensures
            r.begins(*req, torrent::title_of(req.url@, torrent::magnet_dn(req.url@))),
    {
        TorrentRun::start_named(req, display_name(req.url.as_str()))
    }

    /// Begins a run; nothing where the magnet link cannot be read.
    pub fn try_start(req: &DownloadReq) -> (r: Option<Self>)
        ensures
            r is None == (text::has_prefix(req.url@, "magnet:"@) && !torrent::readable(
                urls::parsed_url(req.url@),
            )),
            r matches Some(run) ==> run.begins(
                *req,
                torrent::title_of(req.url@, torrent::magnet_dn(req.url@)),
            ),
    {
        if starts_with(chars_of(req.url.as_str()).as_slice(), "magnet:") && !is_readable(
            req.url.as_str(),
        ) {
            None
        } else {
            Some(TorrentRun::start(req))
        }
    }

    /// Goes on once the torrent was handed to the session.
    pub fn added(&mut self, answer: Added)
        ensures
            final(self).same_torrent(*old(self)),
            final(self).step@ == (if old(self).step@ == StepView::Add {
                after_add(answer)
            } else {
                old(self).step@
            }),
    {
        if let TorrentStep::Add = self.step {
            self.step = match answer {
                Added::TimedOut(e) => TorrentStep::Failed(
                    cat2("timed out adding torrent: ", e.as_str()),
                ),
                Added::Refused(e) => TorrentStep::Failed(e),
                Added::NoHandle => TorrentStep::Failed("torrent add returned no handle".to_string()),
                Added::Running => TorrentStep::AwaitMetadata,
            };
        }
    }

    /// Goes on once the session told how the torrent stands.
    pub fn looked(&mut self, stats: &TorrentStats)
        ensures
            final(self).same_torrent(*old(self)),
            final(self).step@ == (if old(self).step@ == StepView::AwaitMetadata {
                after_look(text::opt(stats.error), stats.total_bytes)
            } else {
                old(self).step@
            }),
    {
        if let TorrentStep::AwaitMetadata = self.step {
            match metadata_step(stats) {
                MetadataStep::Ready => {
                    self.step = TorrentStep::AwaitFiles;
                },
                MetadataStep::Wait => {},
                MetadataStep::Fail(e) => {
                    self.step = TorrentStep::Failed(e);
                },
            }
        }
    }

    /// Ends a run whose list of files did not come in time.
    pub fn metadata_timed_out(&mut self)
        ensures
            final(self).same_torrent(*old(self)),
            final(self).step@ == (if old(self).step@ == StepView::AwaitMetadata {
                StepView::Failed(metadata_trouble())
            } else {
                old(self).step@
            }),
    {
        if let TorrentStep::AwaitMetadata = self.step {
            self.step =
            TorrentStep::Failed(
                "couldn't fetch torrent metadata in 240s — no reachable seeds or peers (check your connection / firewall / VPN; the torrent may also be dead)".to_string(),
            );
        }
    }

    /// Goes on once the files are there, or failed to come.
    pub fn files_came(&mut self, failure: Option<String>)
        ensures
            final(self).same_torrent(*old(self)),
            final(self).step@ == (if old(self).step@ == StepView::AwaitFiles {
                after_files(text::opt(failure))
            } else {
                old(self).step@
            }),
    {
        if let TorrentStep::AwaitFiles = self.step {
            self.step = match failure {
                Some(e) => TorrentStep::Failed(cat2("torrent download failed: ", e.as_str())),
                None => TorrentStep::Finished,
            };
        }
    }

    /// Records the selection of files that the session has now: it can be changed while
    /// the torrent runs, and the outcome goes by the one in force at the end.
    pub fn selected(&mut self, only: Option<Vec<usize>>)
        ensures
            *final(self) == (TorrentRun { only, ..*old(self) }),
    {
        self.only = only;
    }

    /// The outcome of a run that finished, or the message of one that failed. `folder`,
    /// `names` and `own_name` are what the session tells of the torrent.
    pub fn outcome(
        self,
        folder: String,
        names: &Vec<String>,
        own_name: Option<String>,
    ) -> (r: Option<Result<Outcome, String>>)
        ensures
            match self.step {
                TorrentStep::Finished => r matches Some(Ok(o)) && {
                    &&& text::texts(o.files@) == torrent::files_of(
                        folder@,
                        text::texts(names@),
                        torrent::choice(self.only),
                    )
                    &&& o.meta.author is None
                    &&& o.meta.title == (match own_name {
                        Some(n) => Some(n),
                        None => Some(self.name),
                    })
                    &&& text::opt(o.meta.media_class) == Some("torrent"@)
                    &&& o.meta.out_dir == Some(folder)
                    &&& o.expected_units == Some(o.files@.len() as u64)
                },
                TorrentStep::Failed(e) => r == Some(Err::<Outcome, String>(e)),
                _ => r is None,
            },
    {
        match self.step {
            TorrentStep::Finished => {
                Some(Ok(outcome(folder, names, &self.only, own_name, self.name)))
            },
            TorrentStep::Failed(e) => Some(Err(e)),
            _ => None,
        }
    }
}

/// How many steps a run has left at most before it ends, waiting aside.
pub open spec fn steps_left(s: StepView) -> nat {
    match s {
        StepView::Add => 3,
        StepView::AwaitMetadata => 2,
        StepView::AwaitFiles => 1,
        _ => 0,
    }
}

/// A run only goes forward: every answer leads towards its end, but for a look at a
/// torrent whose list of files is still to come.
pub proof fn torrents_go_forward(a: Added, error: Option<Seq<char>>, total: u64, failure: Option<Seq<char>>)
    ensures
        steps_left(after_add(a)) < steps_left(StepView::Add),
        steps_left(after_look(error, total)) < steps_left(StepView::AwaitMetadata) || (error is None
            && total == 0),
        steps_left(after_files(failure)) == 0,
{
}

// ---------------------------------------------------------------------------
// The torrents of a session
// ---------------------------------------------------------------------------

/// Which torrents a session runs: the hash for each URL, and the hashes that run. Two
/// URLs can stand for the same torrent.
#[derive(Debug)]
pub struct TorrentIndex {
    pub by_url: TextMap<String>,
    pub running: Vec<String>,
}

/// The hashes without one.
pub open spec fn without(list: Seq<Seq<char>>, hash: Seq<char>) -> Seq<Seq<char>>
    decreases list.len(),
{
    if list.len() == 0 {
        list
    } else {
        let rest = without(list.drop_last(), hash);
        if list.last() == hash {
            rest
        } else {
            rest.push(list.last())
        }
    }
}

/// The hashes with one.
pub open spec fn with(list: Seq<Seq<char>>, hash: Seq<char>) -> Seq<Seq<char>> {
    if list.contains(hash) {
        list
    } else {
        list.push(hash)
    }
}

proof fn lemma_without(list: Seq<Seq<char>>, hash: Seq<char>, other: Seq<char>)
    ensures
        without(list, hash).contains(other) == (list.contains(other) && other != hash),
    decreases list.len(),
{
    if list.len() > 0 {
        let rest = list.drop_last();
        lemma_without(rest, hash, other);
        let w = without(rest, hash);
        assert(list =~= rest.push(list.last()));
        if rest.contains(other) {
            let k = rest.index_of(other);
            assert(list[k] == other);
        }
        if list.contains(other) && !rest.contains(other) {
            let k = list.index_of(other);
            assert(k == list.len() - 1) by {
                if k < list.len() - 1 {
                    assert(rest[k] == other);
                }
            }
        }
        if w.contains(other) {
            let k = w.index_of(other);
            assert(w.push(list.last())[k] == other);
        }
        if list.last() == other {
            assert(list[list.len() - 1] == other);
            assert(w.push(list.last())[w.len() as int] == other);
        }
        if list.last() != hash && without(list, hash).contains(other) {
            let k = without(list, hash).index_of(other);
            if k < w.len() {
                assert(w[k] == other);
            }
        }
    }
}

fn drop_hash(list: Vec<String>, hash: &str) -> (r: Vec<String>)
    ensures
        text::texts(r@) == without(text::texts(list@), hash@),
{
    let ghost all = text::texts(list@);
    let mut out: Vec<String> = Vec::new();
    let mut i: usize = 0;
    assert(all.take(0) =~= Seq::empty());
    assert(text::texts(out@) =~= Seq::empty());
    while i < list.len()
        invariant
            i <= list.len(),
            all == text::texts(list@),
            text::texts(out@) == without(all.take(i as int), hash@),
        decreases list.len() - i,
    {
        proof {
            let next = all.take(i + 1);
            assert(next.drop_last() =~= all.take(i as int));
            assert(next.last() == list@[i as int]@);
        }
        if !str_eq(list[i].as_str(), hash) {
            let ghost before = text::texts(out@);
            let h = list[i].clone();
            let ghost shown = h@;
            out.push(h);
            assert(text::texts(out@) =~= before.push(shown));
        }
        i += 1;
    }
    assert(all.take(list@.len() as int) =~= all);
    out
}

impl TorrentIndex {
    /// The hash of the torrent that runs for a URL.
    pub open spec fn hash_of(self, url: Seq<char>) -> Option<Seq<char>> {
        match textmap::get(self.by_url.list(), url) {
            Some(h) if text::texts(self.running@).contains(h@) => Some(h@),
            _ => None,
        }
    }

    pub fn new() -> (r: Self)
        ensures
            r.by_url.list() == Seq::<(Seq<char>, String)>::empty(),
            r.running@.len() == 0,
    {
        TorrentIndex { by_url: TextMap::new(), running: Vec::new() }
    }

    /// Takes in a torrent that runs.
    pub fn insert(&mut self, url: String, hash: String)
        ensures
            final(self).by_url.list() == textmap::put(old(self).by_url.list(), url@, hash),
            text::texts(final(self).running@) == with(text::texts(old(self).running@), hash@),
    {
        let ghost before = text::texts(self.running@);
        if !listed(&self.running, hash.as_str()) {
            let h = hash.clone();
            let ghost shown = h@;
            self.running.push(h);
            assert(text::texts(self.running@) =~= before.push(shown));
        }
        self.by_url.insert(url, hash);
    }

    /// The hash of the torrent that runs for a URL.
    pub fn find(&self, url: &str) -> (r: Option<&String>)
        ensures
            match r {
                Some(h) => self.hash_of(url@) == Some(h@),
                None => self.hash_of(url@) is None,
            },
    {
        match self.by_url.get(url) {
            Some(h) => if listed(&self.running, h.as_str()) {
                Some(h)
            } else {
                None
            },
            None => None,
        }
    }

    /// Takes out what a URL stands for; gives the hash of it.
    pub fn remove(&mut self, url: &str) -> (r: Option<String>)
        ensures
            r == textmap::get(old(self).by_url.list(), url@),
            final(self).by_url.list() == textmap::del(old(self).by_url.list(), url@),
            text::texts(final(self).running@) == (match r {
                Some(h) => without(text::texts(old(self).running@), h@),
                None => text::texts(old(self).running@),
            }),
    {
        let r = self.by_url.remove(url);
        if let Some(h) = &r {
            let mut list: Vec<String> = Vec::new();
            core::mem::swap(&mut list, &mut self.running);
            self.running = drop_hash(list, h.as_str());
        }
        r
    }
}

/// A torrent that was taken in is found, whatever else runs.
pub proof fn running_torrents_are_found(before: TorrentIndex, after: TorrentIndex, url: Seq<char>, hash: String)
    requires
        textmap::ordered(before.by_url.list()),
        after.by_url.list() == textmap::put(before.by_url.list(), url, hash),
        text::texts(after.running@) == with(text::texts(before.running@), hash@),
    ensures
        after.hash_of(url) == Some(hash@),
{
    let other = url.push('x');
    assert(other.len() != url.len());
    textmap::writes_are_read_back(before.by_url.list(), url, hash, other);
    let list = text::texts(before.running@);
    if !list.contains(hash@) {
        assert(list.push(hash@)[list.len() as int] == hash@);
    }
}

/// A torrent that was taken out is not found any more, under no URL.
pub proof fn removed_torrents_are_gone(before: TorrentIndex, after: TorrentIndex, url: Seq<char>, other: Seq<char>)
    requires
        before.hash_of(url) is Some,
        text::texts(after.running@) == without(text::texts(before.running@), before.hash_of(url)->0),
    ensures
        after.hash_of(other) != before.hash_of(url),
{
    let hash = before.hash_of(url)->0;
    lemma_without(text::texts(before.running@), hash, hash);
}

// ---------------------------------------------------------------------------
// What is shown of one torrent
// ---------------------------------------------------------------------------

/// One torrent with its files and its peers. What was sent for each byte of the torrent
/// is `uploaded_bytes` over `total_bytes`.
#[derive(Debug)]
pub struct TorrentDetail {
    pub info_hash: String,
    pub save_path: String,
    pub total_pieces: u32,
    pub progress_bytes: u64,
    pub total_bytes: u64,
    pub uploaded_bytes: u64,
    pub files: Vec<TorrentFileStat>,
    pub peers: Vec<TorrentPeer>,
}

/// What a session knows of the contents of a torrent.
#[derive(Debug)]
pub struct TorrentContents {
    pub info_hash: String,
    pub save_path: String,
    pub total_pieces: u32,
    /// Names and sizes.
    pub files: Vec<(String, u64)>,
    /// How much of each file is there, as far as it goes.
    pub file_progress: Vec<u64>,
    pub only: Option<Vec<usize>>,
    pub peers: Vec<TorrentPeer>,
}

/// Puts together what is shown of one torrent.
pub fn build_torrent_detail(c: TorrentContents, stats: &TorrentStats) -> (r: TorrentDetail)
    ensures
        r.info_hash == c.info_hash,
        r.save_path == c.save_path,
        r.total_pieces == c.total_pieces,
        r.progress_bytes == stats.progress_bytes,
        r.total_bytes == stats.total_bytes,
        r.uploaded_bytes == stats.uploaded_bytes,
        r.peers == c.peers,
        r.files@.len() == c.files@.len(),
        forall|i: int|
            0 <= i < c.files@.len() ==> {
                &&& (#[trigger] r.files@[i]).index == i
                &&& r.files@[i].path == c.files@[i].0
                &&& r.files@[i].size_bytes == c.files@[i].1
                &&& r.files@[i].downloaded_bytes == (if i < c.file_progress@.len() {
                    c.file_progress@[i]
                } else {
                    0
                })
                &&& r.files@[i].selected == torrent::is_chosen(torrent::choice(c.only), i)
            },
{
    let files = file_stats(&c.files, &c.file_progress, &c.only);
    TorrentDetail {
        info_hash: c.info_hash,
        save_path: c.save_path,
        total_pieces: c.total_pieces,
        progress_bytes: stats.progress_bytes,
        total_bytes: stats.total_bytes,
        uploaded_bytes: stats.uploaded_bytes,
        files,
        peers: c.peers,
    }
}

/// Lists the files of a torrent that already runs, under a name.
pub fn preview_of(d: &TorrentDetail, name: String) -> (r: TorrentPreview)
    ensures
        r.name == name,
        r.total_bytes == d.total_bytes,
        r.files@.len() == d.files@.len(),
        forall|i: int|
            0 <= i < d.files@.len() ==> {
                &&& (#[trigger] r.files@[i]).index == d.files@[i].index
                &&& r.files@[i].path == d.files@[i].path
                &&& r.files@[i].size_bytes == d.files@[i].size_bytes
            },
{
    let mut files: Vec<TorrentPreviewFile> = Vec::new();
    let mut i: usize = 0;
    while i < d.files.len()
        invariant
            i <= d.files.len(),
            files@.len() == i,
            forall|k: int|
                0 <= k < i ==> {
                    &&& (#[trigger] files@[k]).index == d.files@[k].index
                    &&& files@[k].path == d.files@[k].path
                    &&& files@[k].size_bytes == d.files@[k].size_bytes
                },
        decreases d.files.len() - i,
    {
        let f = &d.files[i];
        files.push(
            TorrentPreviewFile { index: f.index, path: f.path.clone(), size_bytes: f.size_bytes },
        );
        i += 1;
    }
    TorrentPreview { name, total_bytes: d.total_bytes, files }
}

} // verus!

//! Runs of downloads: which ones start, what their events and ends do to the list,
//! and what goes with them when they are removed.

use vstd::prelude::*;

use crate::backend::{BackendConfig, DownloadReq, Outcome};
use crate::entry;
use crate::entry::{
    Artifact, ArtifactView, DownloadEntry, DownloadStatus, list_artifacts, request_for,
};
use crate::paths;
use crate::scheduler;
use crate::scheduler::auto_retry_at;
use crate::store;
use crate::store::{DownloadStore, StoreView};
use crate::text;
use crate::text::{cat2, str_eq};

verus! {

/// The download list together with the runs that are under way.
#[derive(Debug)]
pub struct DownloadManager {
    pub store: DownloadStore,
    /// The identifiers of the entries that run.
    pub running: Vec<String>,
    pub max_concurrent: usize,
    pub per_download_concurrency: usize,
}

/// A run of a download.
#[derive(Debug)]
pub struct Run {
    pub id: String,
    pub backend_id: String,
    /// How often the download was started again by itself before this run.
    pub retry_count: u32,
    /// The destination at the start.
    pub dest: String,
    pub req: DownloadReq,
}

/// What an order to run a download at once comes to.
#[derive(Debug)]
pub enum RunNow {
    /// There is no such download; the message says so.
    Missing(String),
    /// It does not wait.
    Nothing,
    Start,
}

/// The identifiers of the entries that wait, in order.
pub open spec fn waiting(s: Seq<DownloadEntry>) -> Seq<Seq<char>>
    decreases s.len(),
{
    if s.len() == 0 {
        Seq::empty()
    } else {
        let rest = waiting(s.drop_last());
        if s.last().status == DownloadStatus::Queued {
            rest.push(s.last().id@)
        } else {
            rest
        }
    }
}

/// A list without the first occurrence of a text.
pub open spec fn without(s: Seq<Seq<char>>, x: Seq<char>) -> Seq<Seq<char>>
    decreases s.len(),
{
    if s.len() == 0 {
        s
    } else if s[0] == x {
        s.skip(1)
    } else {
        seq![s[0]] + without(s.skip(1), x)
    }
}

/// A list with a text in it.
pub open spec fn with(s: Seq<Seq<char>>, x: Seq<char>) -> Seq<Seq<char>> {
    if s.contains(x) {
        s
    } else {
        s.push(x)
    }
}

/// What removed entries leave on disk, in order.
pub open spec fn all_artifacts(s: Seq<DownloadEntry>) -> Seq<ArtifactView>
    decreases s.len(),
{
    if s.len() == 0 {
        Seq::empty()
    } else {
        all_artifacts(s.drop_last()) + left_by(s.last())
    }
}

/// What an entry leaves on disk.
pub open spec fn left_by(e: DownloadEntry) -> Seq<ArtifactView> {
    entry::artifacts(text::opt(e.out_dir), e.dest@, text::texts(e.extra_files@))
}

proof fn lemma_without(s: Seq<Seq<char>>, x: Seq<char>, k: int)
    requires
        0 <= k < s.len(),
        s[k] == x,
        forall|j: int| 0 <= j < k ==> #[trigger] s[j] != x,
    ensures
        without(s, x) == s.remove(k),
    decreases s.len(),
{
    if k > 0 {
        let rest = s.skip(1);
        assert(s[0] != x);
        assert forall|j: int| 0 <= j < k - 1 implies #[trigger] rest[j] != x by {
            assert(rest[j] == s[j + 1]);
        }
        lemma_without(rest, x, k - 1);
        assert(seq![s[0]] + rest.remove(k - 1) =~= s.remove(k));
    } else {
        assert(s.skip(1) =~= s.remove(0));
    }
}

proof fn lemma_without_absent(s: Seq<Seq<char>>, x: Seq<char>)
    requires
        !s.contains(x),
    ensures
        without(s, x) == s,
    decreases s.len(),
{
    if s.len() > 0 {
        let rest = s.skip(1);
        assert(s.contains(s[0]));
        assert(!rest.contains(x)) by {
            if rest.contains(x) {
                let j = choose|j: int| 0 <= j < rest.len() && rest[j] == x;
                assert(s[j + 1] == x);
            }
        }
        lemma_without_absent(rest, x);
        assert(seq![s[0]] + rest =~= s);
    }
}

/// The model of the runs that are under way.
pub open spec fn runs(m: DownloadManager) -> Seq<Seq<char>> {
    text::texts(m.running@)
}

impl DownloadManager {
    /// A manager with nothing running. At least one download may run at a time.
    pub fn new(store: DownloadStore, max_concurrent: usize, per_download_concurrency: usize) -> (r:
        Self)
        ensures
            r.store == store,
            runs(r) == Seq::<Seq<char>>::empty(),
            r.max_concurrent == (if max_concurrent > 1 {
                max_concurrent
            } else {
                1
            }),
            r.per_download_concurrency == per_download_concurrency,
    {
        let r = DownloadManager {
            store,
            running: Vec::new(),
            max_concurrent: if max_concurrent > 1 {
                max_concurrent
            } else {
                1
            },
            per_download_concurrency,
        };
        assert(text::texts(r.running@) =~= Seq::empty());
        r
    }

    /// The entries that a sweep over the queue runs, in order.
    pub fn run_queued(&self) -> (r: Vec<String>)
        ensures
            text::texts(r@) == waiting(self.store@.entries),
    {
        let entries = self.store.list_entries();
        let mut out: Vec<String> = Vec::new();
        let mut i: usize = 0;
        assert(entries@.take(0) =~= Seq::empty());
        assert(text::texts(out@) =~= Seq::empty());
        while i < entries.len()
            invariant
                i <= entries.len(),
                text::texts(out@) == waiting(entries@.take(i as int)),
            decreases entries.len() - i,
        {
            proof {
                let next = entries@.take(i + 1);
                assert(next.drop_last() =~= entries@.take(i as int));
                assert(next.last() == entries@[i as int]);
            }
            if entries[i].status == DownloadStatus::Queued {
                let ghost before = text::texts(out@);
                out.push(entries[i].id.clone());
                assert(text::texts(out@) =~= before.push(entries@[i as int].id@));
            }
            i += 1;
        }
        assert(entries@.take(entries@.len() as int) =~= entries@);
        out
    }

    /// Decides on an order to run a download at once.
    pub fn run_entry_now(&self, id: &str) -> (r: RunNow)
        ensures
            !store::holds_id(self.store@.entries, id@) ==> (r matches RunNow::Missing(m) && m@
                == "no entry with id "@ + id@),
            store::holds_id(self.store@.entries, id@) ==> r == (if self.store@.entries[store::position(
                self.store@.entries,
                id@,
            )].status == DownloadStatus::Queued {
                RunNow::Start
            } else {
                RunNow::Nothing
            }),
    {
        match self.store.get_entry(id) {
            Some(e) => if e.status == DownloadStatus::Queued {
                RunNow::Start
            } else {
                RunNow::Nothing
            },
            None => RunNow::Missing(cat2("no entry with id ", id)),
        }
    }

    fn find_running(&self, id: &str) -> (r: Option<usize>)
        ensures
            match r {
                Some(k) => k < self.running@.len() && runs(*self)[k as int] == id@ && forall|j: int|
                    0 <= j < k ==> #[trigger] runs(*self)[j] != id@,
                None => !runs(*self).contains(id@),
            },
    {
        let ghost all = runs(*self);
        let mut i: usize = 0;
        while i < self.running.len()
            invariant
                i <= self.running.len(),
                all == runs(*self),
                forall|j: int| 0 <= j < i ==> #[trigger] all[j] != id@,
            decreases self.running.len() - i,
        {
            assert(all[i as int] == self.running@[i as int]@);
            if str_eq(self.running[i].as_str(), id) {
                return Some(i);
            }
            i += 1;
        }
        None
    }

    fn drop_running(&mut self, id: &str) -> (r: bool)
        ensures
            r == runs(*old(self)).contains(id@),
            runs(*final(self)) == without(runs(*old(self)), id@),
            final(self).store == old(self).store,
            final(self).max_concurrent == old(self).max_concurrent,
            final(self).per_download_concurrency == old(self).per_download_concurrency,
    {
        let ghost before = runs(*self);
        match self.find_running(id) {
            Some(k) => {
                proof {
                    lemma_without(before, id@, k as int);
                }
                self.running.remove(k);
                assert(runs(*self) =~= before.remove(k as int));
                true
            },
            None => {
                proof {
                    lemma_without_absent(before, id@);
                }
                false
            },
        }
    }

    /// Starts a run, where the entry is there: nothing is left of an earlier failure,
    /// and the backend is asked for what the entry says.
    pub fn begin(&mut self, id: &str, config: BackendConfig) -> (r: Option<Run>)
        ensures
            ({
                let s = old(self).store@.entries;
                let e = s[store::position(s, id@)];
                &&& r is Some == store::holds_id(s, id@)
                &&& r is None ==> final(self).store@ == old(self).store@ && runs(*final(self))
                    == runs(*old(self))
                &&& r matches Some(run) ==> {
                    &&& run.id@ == id@
                    &&& run.backend_id == e.backend_id
                    &&& run.retry_count == e.retry_count
                    &&& run.dest == e.dest
                    &&& run.req.url == e.url
                    &&& run.req.dest_dir@ == entry::dir_of(text::opt(e.out_dir), e.dest@)
                    &&& text::opt(run.req.filename_hint) == paths::file_name(e.dest@)
                    &&& run.req.ctx.headers@ == e.headers@
                    &&& run.req.ctx.headers.list() == e.headers.list()
                    &&& run.req.ctx.cookie == e.cookie
                    &&& run.req.quality == e.quality
                    &&& run.req.extras@ == e.extras@
                    &&& run.req.concurrency == old(self).per_download_concurrency
                    &&& run.req.config == config
                    &&& final(self).store@ == (StoreView {
                        entries: store::replaced(s, id@, e.started()),
                        ..old(self).store@
                    })
                    &&& runs(*final(self)) == with(runs(*old(self)), id@)
                }
            }),
            final(self).per_download_concurrency == old(self).per_download_concurrency,
            final(self).max_concurrent == old(self).max_concurrent,
    {
        let run = match self.store.get_entry(id) {
            Some(e) => Run {
                id: id.to_string(),
                backend_id: e.backend_id.clone(),
                retry_count: e.retry_count,
                dest: e.dest.clone(),
                req: request_for(e, self.per_download_concurrency, config),
            },
            None => {
                return None;
            },
        };
        self.store.start_entry(id);
        let ghost before = runs(*self);
        if self.find_running(id).is_none() {
            self.running.push(id.to_string());
            assert(runs(*self) =~= before.push(id@));
        }
        Some(run)
    }

    /// Ends a run that succeeded. A run without files leaves the destination that it
    /// started with.
    pub fn succeed(&mut self, run: &Run, outcome: Outcome)
        ensures
            ({
                let s = old(self).store@.entries;
                let k = store::position(s, run.id@);
                let after = final(self).store@.entries;
                &&& final(self).store@ == (StoreView {
                    entries: store::replaced(s, run.id@, after[k]),
                    ..old(self).store@
                })
                &&& store::holds_id(s, run.id@) ==> {
                    &&& after[k].status == DownloadStatus::Finished
                    &&& after[k].error is None
                    &&& after[k].next_retry_at is None
                    &&& after[k].dest == (if outcome.files@.len() > 0 {
                        outcome.files@[0]
                    } else {
                        run.dest
                    })
                    &&& after[k].extra_files@ == (if outcome.files@.len() > 0 {
                        outcome.files@.skip(1)
                    } else {
                        Seq::empty()
                    })
                    &&& after[k] == (DownloadEntry {
                        status: DownloadStatus::Finished,
                        error: None,
                        next_retry_at: None,
                        dest: after[k].dest,
                        extra_files: after[k].extra_files,
                        author: entry::or_else(outcome.meta.author, s[k].author),
                        title: entry::or_else(outcome.meta.title, s[k].title),
                        media_class: entry::or_else(outcome.meta.media_class, s[k].media_class),
                        ..s[k]
                    })
                }
            }),
            runs(*final(self)) == without(runs(*old(self)), run.id@),
            final(self).max_concurrent == old(self).max_concurrent,
            final(self).per_download_concurrency == old(self).per_download_concurrency,
    {
        let mut outcome = outcome;
        let ghost files = outcome.files@;
        if outcome.files.len() == 0 {
            outcome.files.push(run.dest.clone());
            assert(outcome.files@.skip(1) =~= Seq::empty());
        }
        self.store.finish_entry(run.id.as_str(), outcome);
        self.drop_running(run.id.as_str());
    }

    /// Ends a run that failed at a time: it is started again by itself unless that was
    /// done often enough.
    pub fn fail(&mut self, run: &Run, error: String, now: i64)
        ensures
            ({
                let s = old(self).store@.entries;
                final(self).store@ == (StoreView {
                    entries: store::replaced(
                        s,
                        run.id@,
                        s[store::position(s, run.id@)].failed(
                            error,
                            scheduler::retry_time(run.retry_count, now),
                        ),
                    ),
                    ..old(self).store@
                })
            }),
            runs(*final(self)) == without(runs(*old(self)), run.id@),
            final(self).max_concurrent == old(self).max_concurrent,
            final(self).per_download_concurrency == old(self).per_download_concurrency,
    {
        let at = auto_retry_at(run.retry_count, now);
        self.store.fail_entry(run.id.as_str(), error, at);
        self.drop_running(run.id.as_str());
    }

    /// Pauses a download that runs; tells whether it did. The run is to be stopped.
    pub fn pause_entry(&mut self, id: &str) -> (r: bool)
        ensures
            r == runs(*old(self)).contains(id@),
            runs(*final(self)) == without(runs(*old(self)), id@),
            final(self).store@ == (if r {
                StoreView {
                    entries: store::replaced(
                        old(self).store@.entries,
                        id@,
                        old(self).store@.entries[store::position(
                            old(self).store@.entries,
                            id@,
                        )].paused(),
                    ),
                    ..old(self).store@
                }
            } else {
                old(self).store@
            }),
            final(self).max_concurrent == old(self).max_concurrent,
            final(self).per_download_concurrency == old(self).per_download_concurrency,
    {
        if self.drop_running(id) {
            self.store.pause_entry(id);
            true
        } else {
            false
        }
    }

    /// Removes an entry; tells whether it was there, and what is to be deleted with it.
    pub fn remove_entry(&mut self, id: &str, delete_files: bool) -> (r: (bool, Vec<Artifact>))
        ensures
            ({
                let s = old(self).store@.entries;
                let k = store::position(s, id@);
                &&& r.0 == store::holds_id(s, id@)
                &&& entry::artifact_views(r.1@) == (if r.0 && delete_files {
                    left_by(s[k])
                } else {
                    Seq::empty()
                })
                &&& final(self).store@ == (if r.0 {
                    StoreView { entries: s.remove(k), ..old(self).store@ }
                } else {
                    old(self).store@
                })
            }),
            runs(*final(self)) == runs(*old(self)),
            final(self).max_concurrent == old(self).max_concurrent,
            final(self).per_download_concurrency == old(self).per_download_concurrency,
    {
        let none: Vec<Artifact> = Vec::new();
        assert(entry::artifact_views(none@) =~= Seq::empty());
        match self.store.remove_entry(id) {
            Some(e) => if delete_files {
                (true, list_artifacts(&e))
            } else {
                (true, none)
            },
            None => (false, none),
        }
    }

    /// Puts an entry back into the queue; tells whether it did.
    pub fn retry_entry(&mut self, id: &str) -> (r: bool)
        ensures
            ({
                let s = old(self).store@.entries;
                let k = store::position(s, id@);
                &&& r == (store::holds_id(s, id@) && entry::can_retry(s[k].status))
                &&& final(self).store@ == (if r {
                    StoreView {
                        entries: store::replaced(s, id@, s[k].requeued()),
                        ..old(self).store@
                    }
                } else {
                    old(self).store@
                })
            }),
            runs(*final(self)) == runs(*old(self)),
            final(self).max_concurrent == old(self).max_concurrent,
            final(self).per_download_concurrency == old(self).per_download_concurrency,
    {
        self.store.retry_entry(id)
    }

    /// Removes the entries that have nothing left to do; tells how many there were,
    /// and what is to be deleted with them.
    pub fn clear_finished(&mut self, delete_files: bool) -> (r: (usize, Vec<Artifact>))
        ensures
            ({
                let gone = store::open_entries(old(self).store@.entries, false);
                &&& r.0 == gone.len()
                &&& entry::artifact_views(r.1@) == (if delete_files {
                    all_artifacts(gone)
                } else {
                    Seq::empty()
                })
                &&& final(self).store@ == (StoreView {
                    entries: store::open_entries(old(self).store@.entries, true),
                    ..old(self).store@
                })
            }),
            runs(*final(self)) == runs(*old(self)),
            final(self).max_concurrent == old(self).max_concurrent,
            final(self).per_download_concurrency == old(self).per_download_concurrency,
    {
        let removed = self.store.clear_finished();
        let mut out: Vec<Artifact> = Vec::new();
        assert(entry::artifact_views(out@) =~= Seq::empty());
        if delete_files {
            let mut i: usize = 0;
            assert(removed@.take(0) =~= Seq::empty());
            while i < removed.len()
                invariant
                    i <= removed.len(),
                    entry::artifact_views(out@) == all_artifacts(removed@.take(i as int)),
                decreases removed.len() - i,
            {
                let mut more = list_artifacts(&removed[i]);
                let ghost before = entry::artifact_views(out@);
                let ghost shown = entry::artifact_views(more@);
                out.append(&mut more);
                assert(entry::artifact_views(out@) =~= before + shown);
                proof {
                    let next = removed@.take(i + 1);
                    assert(next.drop_last() =~= removed@.take(i as int));
                    assert(next.last() == removed@[i as int]);
                }
                i += 1;
            }
            assert(removed@.take(removed@.len() as int) =~= removed@);
        }
        (removed.len(), out)
    }
}

/// A download that was paused runs no more, and can be put back into the queue.
pub proof fn paused_downloads_stop(running: Seq<Seq<char>>, e: DownloadEntry)
    requires
        running.no_duplicates(),
    ensures
        !without(running, e.id@).contains(e.id@),
        entry::can_retry(e.paused().status),
    decreases running.len(),
{
    if running.len() > 0 {
        let rest = running.skip(1);
        assert(rest.no_duplicates()) by {
            assert forall|i: int, j: int|
                0 <= i < rest.len() && 0 <= j < rest.len() && i != j implies rest[i] != rest[j] by {
                assert(running[i + 1] != running[j + 1]);
            }
        }
        if running[0] == e.id@ {
            if rest.contains(e.id@) {
                let j = choose|j: int| 0 <= j < rest.len() && rest[j] == e.id@;
                assert(running[j + 1] == running[0]);
            }
        } else {
            paused_downloads_stop(rest, e);
            let w = without(rest, e.id@);
            let all = seq![running[0]] + w;
            if all.contains(e.id@) {
                let j = choose|j: int| 0 <= j < all.len() && all[j] == e.id@;
                if j > 0 {
                    assert(w[j - 1] == e.id@);
                }
            }
        }
    }
}

/// Starting runs keeps each under way once.
pub proof fn runs_are_counted_once(running: Seq<Seq<char>>, id: Seq<char>)
    requires
        running.no_duplicates(),
    ensures
        with(running, id).no_duplicates(),
        with(running, id).contains(id),
{
    let w = with(running, id);
    if !running.contains(id) {
        assert(w[running.len() as int] == id);
        assert forall|i: int, j: int|
            0 <= i < w.len() && 0 <= j < w.len() && i != j implies w[i] != w[j] by {
            if i < running.len() && j < running.len() {
                assert(running[i] != running[j]);
            } else if i < running.len() {
                assert(running.contains(running[i]));
            } else {
                assert(running.contains(running[j]));
            }
        }
    }
}

} // verus!

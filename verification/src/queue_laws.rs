//! Laws of the download list: which downloads run, and what becomes of them.

use vstd::prelude::*;

use crate::entry;
use crate::entry::{ArtifactView, DownloadEntry, DownloadStatus};
use crate::manager;
use crate::naming;
use crate::paths;
use crate::scheduler;
use crate::store;
use crate::store::{DownloadQueueDef, DownloadSchedule};
use crate::text;

verus! {

// ---------------------------------------------------------------------------
// Sweeps
// ---------------------------------------------------------------------------

/// A sweep over the queue runs a download if and only if it waits: an identifier is among
/// those that are run exactly where an entry with it has the status of waiting.
pub proof fn sweeps_run_what_waits(s: Seq<DownloadEntry>, id: Seq<char>)
    ensures
        manager::waiting(s).contains(id) <==> exists|k: int|
            0 <= k < s.len() && (#[trigger] s[k]).id@ == id && s[k].status is Queued,
    decreases s.len(),
{
    if s.len() > 0 {
        let d = s.drop_last();
        sweeps_run_what_waits(d, id);
        let w = manager::waiting(s);
        let rest = manager::waiting(d);
        if rest.contains(id) {
            let k = choose|k: int| 0 <= k < d.len() && (#[trigger] d[k]).id@ == id && d[k].status is Queued;
            assert(s[k].id@ == id && s[k].status is Queued);
            let i = choose|i: int| 0 <= i < rest.len() && rest[i] == id;
            assert(w[i] == id);
        }
        if s.last().status is Queued {
            assert(w[rest.len() as int] == s.last().id@);
            assert(s[s.len() - 1] == s.last());
        }
        if exists|k: int| 0 <= k < s.len() && (#[trigger] s[k]).id@ == id && s[k].status is Queued {
            let k = choose|k: int|
                0 <= k < s.len() && (#[trigger] s[k]).id@ == id && s[k].status is Queued;
            if k < d.len() {
                assert(d[k] == s[k]);
            } else {
                assert(w[rest.len() as int] == id);
            }
        }
    }
}

/// A download that does not wait is not run by a sweep, whatever else it does: it is
/// paused, finished, failed, cancelled or under way.
pub proof fn sweeps_leave_the_others(s: Seq<DownloadEntry>, k: int)
    requires
        store::distinct_ids(s),
        0 <= k < s.len(),
        !(s[k].status is Queued),
    ensures
        !manager::waiting(s).contains(s[k].id@),
{
    sweeps_run_what_waits(s, s[k].id@);
}

/// Sweeps keep the order of the list and run every entry that waits once: what two lists
/// run one after the other is what the whole runs.
pub proof fn sweeps_keep_the_order(a: Seq<DownloadEntry>, b: Seq<DownloadEntry>)
    ensures
        manager::waiting(a + b) == manager::waiting(a) + manager::waiting(b),
    decreases b.len(),
{
    if b.len() > 0 {
        sweeps_keep_the_order(a, b.drop_last());
        assert((a + b).drop_last() =~= a + b.drop_last());
        assert((a + b).last() == b.last());
        assert(manager::waiting(a + b) =~= manager::waiting(a) + manager::waiting(b));
    } else {
        assert(a + b =~= a);
        assert(manager::waiting(a) + manager::waiting(b) =~= manager::waiting(a));
    }
}

// ---------------------------------------------------------------------------
// What becomes of a download
// ---------------------------------------------------------------------------

/// A download that is put back into the queue is run by the next sweep, and one that is
/// started, paused or failed is not.
pub proof fn only_waiting_downloads_are_run(e: DownloadEntry, error: String, at: Option<i64>)
    ensures
        manager::waiting(seq![e.requeued()]) == seq![e.id@],
        manager::waiting(seq![e.started()]) == Seq::<Seq<char>>::empty(),
        manager::waiting(seq![e.paused()]) == Seq::<Seq<char>>::empty(),
        manager::waiting(seq![e.failed(error, at)]) == Seq::<Seq<char>>::empty(),
{
    reveal_with_fuel(manager::waiting, 2);
    assert(seq![e.requeued()].drop_last() =~= Seq::empty());
    assert(seq![e.started()].drop_last() =~= Seq::empty());
    assert(seq![e.paused()].drop_last() =~= Seq::empty());
    assert(seq![e.failed(error, at)].drop_last() =~= Seq::empty());
    assert(manager::waiting(seq![e.requeued()]) =~= seq![e.id@]);
}

/// A download can be started again where it neither waits nor is under way nor is
/// finished.
pub proof fn what_can_be_started_again(s: DownloadStatus)
    ensures
        entry::can_retry(s) == !(s is Queued || s is Downloading || s is Finished),
{
}

/// Clearing removes what is finished, failed or cancelled, and nothing else.
pub proof fn what_is_cleared(s: Seq<DownloadEntry>, e: DownloadEntry)
    ensures
        store::open_entries(s, false).contains(e) <==> s.contains(e) && (e.status is Finished
            || e.status is Failed || e.status is Cancelled),
        store::open_entries(s, true).contains(e) <==> s.contains(e) && !(e.status is Finished
            || e.status is Failed || e.status is Cancelled),
    decreases s.len(),
{
    lemma_open(s, e, true);
    lemma_open(s, e, false);
}

proof fn lemma_open(s: Seq<DownloadEntry>, e: DownloadEntry, open: bool)
    ensures
        store::open_entries(s, open).contains(e) <==> s.contains(e) && open == !(e.status is Finished
            || e.status is Failed || e.status is Cancelled),
    decreases s.len(),
{
    if s.len() > 0 {
        let d = s.drop_last();
        lemma_open(d, e, open);
        let rest = store::open_entries(d, open);
        let all = store::open_entries(s, open);
        if rest.contains(e) {
            let i = choose|i: int| 0 <= i < rest.len() && rest[i] == e;
            assert(all[i] == e);
        }
        if d.contains(e) {
            let i = choose|i: int| 0 <= i < d.len() && d[i] == e;
            assert(s[i] == e);
        }
        if s.contains(e) && !d.contains(e) {
            let i = choose|i: int| 0 <= i < s.len() && s[i] == e;
            if i < d.len() {
                assert(d[i] == e);
            }
        }
        assert(s[s.len() - 1] == s.last());
        if all.len() > rest.len() {
            assert(all[rest.len() as int] == s.last());
            if all.contains(e) && !rest.contains(e) {
                let i = choose|i: int| 0 <= i < all.len() && all[i] == e;
                if i < rest.len() {
                    assert(rest[i] == e);
                }
            }
        }
    }
}

/// A failure keeps what was wrong, and the download is due again when its wait is over and
/// not before; one that has no further try is not due at any time.
pub proof fn failures_are_due_when_their_wait_is_over(
    e: DownloadEntry,
    error: String,
    failed_at: i64,
    now: i64,
)
    requires
        failed_at < 9_000_000_000_000_000_000,
    ensures
        ({
            let f = e.failed(error, scheduler::retry_time(e.retry_count, failed_at));
            &&& f.error == Some(error)
            &&& f.id == e.id && f.url == e.url && f.dest == e.dest
            &&& e.retry_count >= 3 ==> !scheduler::is_due(f, now)
            &&& e.retry_count < 3 ==> f.next_retry_at is Some && f.next_retry_at->0 > failed_at
            &&& e.retry_count < 3 ==> (scheduler::is_due(f, now) <==> now >= f.next_retry_at->0)
            &&& now <= failed_at ==> !scheduler::is_due(f, now)
        }),
{
}

/// Nothing but a failed download is started again by itself.
pub proof fn only_failures_are_due(e: DownloadEntry, now: i64)
    ensures
        scheduler::is_due(e, now) ==> e.status is Failed && e.next_retry_at is Some && now
            >= e.next_retry_at->0,
{
}

/// Starting a download forgets its failure and keeps what it is; putting it back also
/// forgets how far it was and how often it was tried.
pub proof fn starts_forget_failures(e: DownloadEntry)
    ensures
        e.started().error is None,
        e.started().next_retry_at is None,
        e.started().progress == e.progress,
        e.requeued().error is None,
        e.requeued().next_retry_at is None,
        e.requeued().progress is None,
        e.requeued().retry_count == 0,
        e.started().url == e.url && e.started().dest == e.dest && e.started().quality == e.quality,
        e.requeued().url == e.url && e.requeued().dest == e.dest && e.requeued().quality == e.quality,
        e.started().headers == e.headers && e.requeued().headers == e.headers,
        e.started().cookie == e.cookie && e.requeued().cookie == e.cookie,
{
}

// ---------------------------------------------------------------------------
// What is deleted
// ---------------------------------------------------------------------------

proof fn lemma_files(files: Seq<Seq<char>>, a: ArtifactView)
    ensures
        entry::files_artifacts(files).contains(a) <==> exists|i: int|
            0 <= i < files.len() && (a == ArtifactView::File(#[trigger] files[i]) || a
                == ArtifactView::Folder(naming::cache_dir(files[i]))),
    decreases files.len(),
{
    if files.len() > 0 {
        let d = files.drop_last();
        lemma_files(d, a);
        let rest = entry::files_artifacts(d);
        let all = entry::files_artifacts(files);
        let more = entry::file_artifacts(files.last());
        assert(all == rest + more);
        assert(more[0] == ArtifactView::File(files.last()));
        assert(more[1] == ArtifactView::Folder(naming::cache_dir(files.last())));
        if rest.contains(a) {
            let i = choose|i: int| 0 <= i < rest.len() && rest[i] == a;
            assert(all[i] == a);
            let k = choose|k: int|
                0 <= k < d.len() && (a == ArtifactView::File(#[trigger] d[k]) || a
                    == ArtifactView::Folder(naming::cache_dir(d[k])));
            assert(files[k] == d[k]);
        }
        assert(files[files.len() - 1] == files.last());
        assert(all[rest.len() as int] == more[0]);
        assert(all[(rest.len() + 1) as int] == more[1]);
        if all.contains(a) && !rest.contains(a) {
            let i = choose|i: int| 0 <= i < all.len() && all[i] == a;
            if i < rest.len() {
                assert(rest[i] == a);
            }
        }
        if exists|i: int|
            0 <= i < files.len() && (a == ArtifactView::File(#[trigger] files[i]) || a
                == ArtifactView::Folder(naming::cache_dir(files[i]))) {
            let k = choose|k: int|
                0 <= k < files.len() && (a == ArtifactView::File(#[trigger] files[k]) || a
                    == ArtifactView::Folder(naming::cache_dir(files[k])));
            if k < d.len() {
                assert(d[k] == files[k]);
            }
        }
    }
}

/// What is deleted with a download: the folder that it has to itself, its files, and for
/// each file the directory of what led to it. Nothing else is deleted.
pub proof fn deleted_is_what_belongs(
    out_dir: Option<Seq<char>>,
    dest: Seq<char>,
    extra: Seq<Seq<char>>,
    a: ArtifactView,
)
    ensures
        entry::artifacts(out_dir, dest, extra).contains(a) <==> {
            ||| out_dir matches Some(d) && paths::file_name(d) is Some && a
                == ArtifactView::Folder(d)
            ||| a == ArtifactView::File(dest)
            ||| a == ArtifactView::Folder(naming::cache_dir(dest))
            ||| exists|i: int|
                0 <= i < extra.len() && (a == ArtifactView::File(#[trigger] extra[i]) || a
                    == ArtifactView::Folder(naming::cache_dir(extra[i])))
        },
{
    lemma_files(extra, a);
    let all = entry::artifacts(out_dir, dest, extra);
    let own = entry::file_artifacts(dest);
    let others = entry::files_artifacts(extra);
    let folder = match out_dir {
        Some(d) => if paths::file_name(d) is Some {
            seq![ArtifactView::Folder(d)]
        } else {
            Seq::empty()
        },
        None => Seq::empty(),
    };
    let n = folder.len() as int;
    assert(all =~= folder + own + others);
    assert(own[0] == ArtifactView::File(dest) && own[1] == ArtifactView::Folder(
        naming::cache_dir(dest),
    ));
    assert(all[n] == own[0] && all[n + 1] == own[1]);
    if n > 0 {
        assert(all[0] == folder[0]);
    }
    if others.contains(a) {
        let i = choose|i: int| 0 <= i < others.len() && others[i] == a;
        assert(all[n + 2 + i] == a);
    }
    if all.contains(a) {
        let i = choose|i: int| 0 <= i < all.len() && all[i] == a;
        if i >= n + 2 {
            assert(others[i - n - 2] == a);
        }
    }
}

// ---------------------------------------------------------------------------
// Schedules
// ---------------------------------------------------------------------------

/// A schedule takes in its first minute and leaves out its last one; a schedule that does
/// not end before it begins takes in just the minutes between, and another one goes on past
/// midnight.
pub proof fn schedules_begin_and_end(s: DownloadSchedule, minutes: u32)
    requires
        s.start_minutes < 1440,
        s.end_minutes < 1440,
        minutes < 1440,
    ensures
        s.start_minutes < s.end_minutes ==> s.active(s.start_minutes) && !s.active(s.end_minutes),
        s.start_minutes > s.end_minutes ==> s.active(s.start_minutes) && !s.active(s.end_minutes),
        s.start_minutes < s.end_minutes ==> (s.active(minutes) <==> s.start_minutes <= minutes
            < s.end_minutes),
        s.start_minutes > s.end_minutes ==> (s.active(minutes) <==> minutes >= s.start_minutes
            || minutes < s.end_minutes),
{
}

// ---------------------------------------------------------------------------
// Changes to many entries
// ---------------------------------------------------------------------------

/// What is removed from a list and what stays make up the list: each entry goes to one
/// side, as its flag says, and nothing changes its order.
pub proof fn picking_divides_the_list(s: Seq<DownloadEntry>, hit: Seq<bool>, k: int)
    requires
        hit.len() == s.len(),
        0 <= k < s.len(),
    ensures
        store::picked(s, hit, true).len() + store::picked(s, hit, false).len() == s.len(),
        store::picked(s, hit, hit[k]).contains(s[k]),
        hit[k] ==> store::picked_ids(s, hit).contains(s[k].id@),
        store::picked_ids(s, hit).len() == store::picked(s, hit, true).len(),
    decreases s.len(),
{
    lemma_picked_len(s, hit);
    lemma_picked_has(s, hit, k);
}

proof fn lemma_picked_len(s: Seq<DownloadEntry>, hit: Seq<bool>)
    ensures
        store::picked(s, hit, true).len() + store::picked(s, hit, false).len() == s.len(),
        store::picked_ids(s, hit).len() == store::picked(s, hit, true).len(),
    decreases s.len(),
{
    if s.len() > 0 {
        lemma_picked_len(s.drop_last(), hit);
    }
}

proof fn lemma_picked_has(s: Seq<DownloadEntry>, hit: Seq<bool>, k: int)
    requires
        0 <= k < s.len(),
    ensures
        store::picked(s, hit, hit[k]).contains(s[k]),
        hit[k] ==> store::picked_ids(s, hit).contains(s[k].id@),
    decreases s.len(),
{
    let all = store::picked(s, hit, hit[k]);
    let ids = store::picked_ids(s, hit);
    if k < s.len() - 1 {
        lemma_picked_has(s.drop_last(), hit, k);
        let rest = store::picked(s.drop_last(), hit, hit[k]);
        let i = choose|i: int| 0 <= i < rest.len() && rest[i] == s[k];
        assert(all[i] == s[k]);
        if hit[k] {
            let more = store::picked_ids(s.drop_last(), hit);
            let j = choose|j: int| 0 <= j < more.len() && more[j] == s[k].id@;
            assert(ids[j] == s[k].id@);
        }
    } else {
        assert(all.last() == s[k]);
        assert(all[all.len() - 1] == s[k]);
        if hit[k] {
            assert(ids[ids.len() - 1] == s[k].id@);
        }
    }
}

// ---------------------------------------------------------------------------
// Queues of the day
// ---------------------------------------------------------------------------

/// Without queues, and with one that has no schedule, downloads always run;
/// with one queue that has a schedule, they run while it is active.
pub proof fn downloads_run_while_a_queue_does(q: DownloadQueueDef, other: DownloadQueueDef, minutes: u32)
    ensures
        scheduler::runs_at(Seq::empty(), minutes),
        q.schedule is None ==> scheduler::runs_at(seq![q, other], minutes),
        q.schedule is None ==> scheduler::runs_at(seq![other, q], minutes),
        q.schedule is Some ==> scheduler::runs_at(seq![q], minutes) == q.schedule->0.active(minutes),
{
    let a = seq![q, other];
    let b = seq![other, q];
    let c = seq![q];
    assert(a[0] == q && b[1] == q && c[0] == q);
    if q.schedule is None {
        assert(scheduler::queue_active(a[0], minutes));
        assert(scheduler::queue_active(b[1], minutes));
    } else if q.schedule->0.active(minutes) {
        assert(scheduler::queue_active(c[0], minutes));
    }
}

proof fn lemma_left(s: Seq<DownloadEntry>, i: int, a: ArtifactView)
    requires
        0 <= i < s.len(),
        manager::left_by(s[i]).contains(a),
    ensures
        manager::all_artifacts(s).contains(a),
    decreases s.len(),
{
    let all = manager::all_artifacts(s);
    let front = manager::all_artifacts(s.drop_last());
    if i == s.len() - 1 {
        let own = manager::left_by(s[i]);
        let k = choose|k: int| 0 <= k < own.len() && own[k] == a;
        assert(all[front.len() + k] == a);
    } else {
        lemma_left(s.drop_last(), i, a);
        let k = choose|k: int| 0 <= k < front.len() && front[k] == a;
        assert(all[k] == a);
    }
}

/// Of every entry that is cleared away, its destination is among what is left
/// to delete.
pub proof fn cleared_entries_leave_their_files(s: Seq<DownloadEntry>, i: int)
    requires
        0 <= i < s.len(),
    ensures
        manager::all_artifacts(s).contains(ArtifactView::File(s[i].dest@)),
{
    let own = manager::left_by(s[i]);
    let more = entry::files_artifacts(text::texts(s[i].extra_files@));
    let n = own.len() - more.len();
    assert(own[n - 2] == ArtifactView::File(s[i].dest@));
    lemma_left(s, i, ArtifactView::File(s[i].dest@));
}

// ---------------------------------------------------------------------------
// Waiting and stopping
// ---------------------------------------------------------------------------

/// A download that failed is tried again after half a minute, then after two
/// minutes, then after ten, and then no more.
pub proof fn failures_wait_longer_each_time(now: i64)
    requires
        now <= i64::MAX - 600,
    ensures
        scheduler::retry_time(0, now) == Some((now + 30) as i64),
        scheduler::retry_time(1, now) == Some((now + 2 * 60) as i64),
        scheduler::retry_time(2, now) == Some((now + 10 * 60) as i64),
        scheduler::retry_time(3, now) is None,
{
}

/// A run that stops is no longer under way, and every other run goes on.
pub proof fn other_runs_go_on(running: Seq<Seq<char>>, id: Seq<char>, other: Seq<char>)
    requires
        other != id,
    ensures
        manager::without(running, id).contains(other) == running.contains(other),
        manager::with(running, id).contains(other) == running.contains(other),
    decreases running.len(),
{
    let w = manager::without(running, id);
    if running.len() > 0 {
        let rest = running.skip(1);
        if running[0] == id {
            if running.contains(other) {
                let i = choose|i: int| 0 <= i < running.len() && running[i] == other;
                assert(rest[i - 1] == other);
            }
            if rest.contains(other) {
                let i = choose|i: int| 0 <= i < rest.len() && rest[i] == other;
                assert(running[i + 1] == other);
            }
        } else {
            other_runs_go_on(rest, id, other);
            let tail = manager::without(rest, id);
            if running.contains(other) {
                let i = choose|i: int| 0 <= i < running.len() && running[i] == other;
                if i == 0 {
                    assert(w[0] == other);
                } else {
                    assert(rest[i - 1] == other);
                    let k = choose|k: int| 0 <= k < tail.len() && tail[k] == other;
                    assert(w[k + 1] == other);
                }
            }
            if w.contains(other) {
                let i = choose|i: int| 0 <= i < w.len() && w[i] == other;
                if i == 0 {
                    assert(running[0] == other);
                } else {
                    assert(tail[i - 1] == other);
                    assert(tail.contains(other));
                    let k = choose|k: int| 0 <= k < rest.len() && rest[k] == other;
                    assert(running[k + 1] == other);
                }
            }
        }
    }
    let more = manager::with(running, id);
    if running.contains(other) {
        let i = choose|i: int| 0 <= i < running.len() && running[i] == other;
        assert(more[i] == other);
    }
    if more.contains(other) {
        let i = choose|i: int| 0 <= i < more.len() && more[i] == other;
        if i < running.len() {
            assert(running[i] == other);
        }
    }
}

} // verus!

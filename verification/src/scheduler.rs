//! When queues run, and when failed downloads are started again by themselves.

use vstd::prelude::*;

use crate::clock::now_unix;
use crate::entry;
use crate::entry::{DownloadEntry, DownloadStatus};
use crate::store;
use crate::store::{DownloadQueueDef, DownloadStore, StoreView};

verus! {

/// How often a failed download is started again by itself.
pub const MAX_AUTO_RETRIES: u32 = 3;

/// The wait between two looks at the queues, in seconds.
pub const CHECK_INTERVAL_SECS: u64 = 15;

/// The wait in seconds before a failed download is started again by itself, by how
/// often that was done before; nothing once that was done often enough.
pub open spec fn backoff(retry_count: u32) -> Option<int> {
    if retry_count == 0 {
        Some(30)
    } else if retry_count == 1 {
        Some(120)
    } else if retry_count == 2 {
        Some(600)
    } else {
        None
    }
}

/// A sum that is held to the range of `i64`.
pub open spec fn held_sum(a: int, b: int) -> int {
    if a + b > i64::MAX {
        i64::MAX as int
    } else {
        a + b
    }
}

/// When a download that failed at a time is started again by itself.
pub open spec fn retry_time(retry_count: u32, now: i64) -> Option<i64> {
    match backoff(retry_count) {
        Some(wait) => Some(held_sum(now as int, wait) as i64),
        None => None,
    }
}

/// Tells when a download that failed at a time is started again by itself.
pub fn auto_retry_at(retry_count: u32, now: i64) -> (r: Option<i64>)
    ensures
        r == retry_time(retry_count, now),
{
    let wait: i64 = if retry_count == 0 {
        30
    } else if retry_count == 1 {
        120
    } else if retry_count == 2 {
        600
    } else {
        return None;
    };
    if now > i64::MAX - wait {
        Some(i64::MAX)
    } else {
        Some(now + wait)
    }
}

/// Tells when a download that fails now is started again by itself. What the clock
/// shows is left open.
pub fn next_auto_retry_at(retry_count: u32) -> (r: Option<i64>)
    ensures
        r is Some <==> retry_count < MAX_AUTO_RETRIES,
        exists|now: i64| now >= 0 && r == #[trigger] retry_time(retry_count, now),
{
    let now = now_unix();
    auto_retry_at(retry_count, now)
}

/// Each wait is longer than the one before, and after the last there is none.
pub proof fn waits_grow(retry_count: u32)
    requires
        retry_count < MAX_AUTO_RETRIES,
    ensures
        backoff(retry_count) matches Some(w) && w > 0 && (backoff((retry_count + 1) as u32) matches Some(
            next,
        ) ==> next > w),
        backoff((retry_count + 1) as u32) is None <==> retry_count + 1 == MAX_AUTO_RETRIES,
{
}

// ---------------------------------------------------------------------------
// Queues
// ---------------------------------------------------------------------------

/// Whether a queue runs at a minute of the day: always where it has no schedule.
pub open spec fn queue_active(q: DownloadQueueDef, minutes: u32) -> bool {
    match q.schedule {
        Some(s) => s.active(minutes),
        None => true,
    }
}

/// Whether queued downloads run at a minute of the day: where some queue does, or
/// there are no queues.
pub open spec fn runs_at(queues: Seq<DownloadQueueDef>, minutes: u32) -> bool {
    queues.len() == 0 || exists|i: int|
        0 <= i < queues.len() && queue_active(#[trigger] queues[i], minutes)
}

/// Tells whether queued downloads run at a minute of the day.
pub fn should_run(queues: &Vec<DownloadQueueDef>, minutes_since_midnight: u32) -> (r: bool)
    ensures
        r == runs_at(queues@, minutes_since_midnight),
{
    if queues.len() == 0 {
        return true;
    }
    let mut i: usize = 0;
    while i < queues.len()
        invariant
            i <= queues.len(),
            forall|j: int|
                0 <= j < i ==> !queue_active(#[trigger] queues@[j], minutes_since_midnight),
        decreases queues.len() - i,
    {
        let active = match &queues[i].schedule {
            Some(s) => s.is_active_at(minutes_since_midnight),
            None => true,
        };
        assert(active == queue_active(queues@[i as int], minutes_since_midnight));
        if active {
            return true;
        }
        i += 1;
    }
    false
}

// ---------------------------------------------------------------------------
// Failed downloads
// ---------------------------------------------------------------------------

/// Whether a download is to be started again by itself: it failed, its time has
/// come, and that was not done often enough yet.
pub open spec fn is_due(e: DownloadEntry, now: i64) -> bool {
    e.status == DownloadStatus::Failed && (match e.next_retry_at {
        Some(at) => now >= at,
        None => false,
    }) && e.retry_count < MAX_AUTO_RETRIES
}

/// A download that is due: its identifier, and how often it will have been started
/// again by itself.
#[derive(Debug)]
pub struct DueRetry {
    pub id: String,
    pub count: u32,
}

/// The downloads that are due, in order.
pub open spec fn due(s: Seq<DownloadEntry>, now: i64) -> Seq<(Seq<char>, u32)>
    decreases s.len(),
{
    if s.len() == 0 {
        Seq::empty()
    } else {
        let rest = due(s.drop_last(), now);
        if is_due(s.last(), now) {
            rest.push((s.last().id@, (s.last().retry_count + 1) as u32))
        } else {
            rest
        }
    }
}

/// The list once a due download is back in the queue, counted as started again so
/// often.
pub open spec fn revived(s: Seq<DownloadEntry>, id: Seq<char>, count: u32) -> Seq<DownloadEntry> {
    let k = store::position(s, id);
    if k < s.len() && entry::can_retry(s[k].status) {
        store::counted(store::replaced(s, id, s[k].requeued()), id, count)
    } else {
        s
    }
}

/// The list once all due downloads are back in the queue, one after the other.
pub open spec fn all_revived(s: Seq<DownloadEntry>, list: Seq<(Seq<char>, u32)>) -> Seq<
    DownloadEntry,
>
    decreases list.len(),
{
    if list.len() == 0 {
        s
    } else {
        revived(all_revived(s, list.drop_last()), list.last().0, list.last().1)
    }
}

/// A list of due downloads as its model.
pub open spec fn due_views(v: Seq<DueRetry>) -> Seq<(Seq<char>, u32)> {
    v.map_values(|d: DueRetry| (d.id@, d.count))
}

/// Lists the downloads that are due.
pub fn due_retries(entries: &Vec<DownloadEntry>, now: i64) -> (r: Vec<DueRetry>)
    ensures
        due_views(r@) == due(entries@, now),
{
    let mut out: Vec<DueRetry> = Vec::new();
    let mut i: usize = 0;
    assert(entries@.take(0) =~= Seq::empty());
    assert(due_views(out@) =~= Seq::empty());
    while i < entries.len()
        invariant
            i <= entries.len(),
            due_views(out@) == due(entries@.take(i as int), now),
        decreases entries.len() - i,
    {
        let e = &entries[i];
        proof {
            let next = entries@.take(i + 1);
            assert(next.drop_last() =~= entries@.take(i as int));
            assert(next.last() == entries@[i as int]);
        }
        let timed = match e.next_retry_at {
            Some(at) => now >= at,
            None => false,
        };
        if e.status == DownloadStatus::Failed && timed && e.retry_count < MAX_AUTO_RETRIES {
            let ghost before = due_views(out@);
            let d = DueRetry { id: e.id.clone(), count: e.retry_count + 1 };
            out.push(d);
            assert(due_views(out@) =~= before.push((e.id@, (e.retry_count + 1) as u32)));
        }
        i += 1;
    }
    assert(entries@.take(entries@.len() as int) =~= entries@);
    out
}

/// Puts every download that is due back into the queue; tells whether there was one.
pub fn auto_retry_due_entries(store: &mut DownloadStore, now: i64) -> (r: bool)
    ensures
        final(store)@ == (StoreView {
            entries: all_revived(old(store)@.entries, due(old(store)@.entries, now)),
            ..old(store)@
        }),
        r == (due(old(store)@.entries, now).len() > 0),
{
    let ghost start = store@;
    let list = due_retries(store.list_entries(), now);
    let ghost all = due_views(list@);
    let mut i: usize = 0;
    assert(all.take(0) =~= Seq::empty());
    assert(store@ =~= (StoreView { entries: all_revived(start.entries, all.take(0)), ..start }));
    while i < list.len()
        invariant
            i <= list.len(),
            all == due_views(list@),
            store@ == (StoreView {
                entries: all_revived(start.entries, all.take(i as int)),
                ..start
            }),
        decreases list.len() - i,
    {
        proof {
            let next = all.take(i + 1);
            assert(next.drop_last() =~= all.take(i as int));
            assert(next.last() == (list@[i as int].id@, list@[i as int].count));
        }
        if store.retry_entry(list[i].id.as_str()) {
            store.set_retry_count(list[i].id.as_str(), list[i].count);
        }
        i += 1;
    }
    assert(all.take(list@.len() as int) =~= all);
    list.len() > 0
}

/// A download that is started again by itself waits in the queue afterwards and has
/// used up one more of its tries; all other downloads stay as they are.
pub proof fn revived_downloads_wait(s: Seq<DownloadEntry>, now: i64, k: int, other: int)
    requires
        store::distinct_ids(s),
        0 <= k < s.len(),
        is_due(s[k], now),
        0 <= other < s.len(),
        other != k,
    ensures
        ({
            let after = revived(s, s[k].id@, (s[k].retry_count + 1) as u32);
            &&& after.len() == s.len()
            &&& after[k].status == DownloadStatus::Queued
            &&& after[k].id == s[k].id
            &&& after[k].error is None
            &&& after[k].next_retry_at is None
            &&& after[k].retry_count == s[k].retry_count + 1
            &&& after[k].retry_count <= MAX_AUTO_RETRIES
            &&& after[other] == s[other]
        }),
{
    let id = s[k].id@;
    store::lemma_position(s, id, 0);
    let p = store::position(s, id);
    if p < k {
        assert(s[p].id@ != s[k].id@);
    }
    assert(p == k);
    let queued = store::replaced(s, id, s[k].requeued());
    store::lemma_position(queued, id, 0);
    let q = store::position(queued, id);
    assert(queued[k].id@ == id);
    if q < k {
        assert(queued[q] == s[q]);
        assert(s[q].id@ != s[k].id@);
    }
    assert(q == k);
}

/// An entry after a sweep over the failed downloads: back in the queue and counted once
/// more where it was due, else as it was.
pub open spec fn swept(e: DownloadEntry, now: i64) -> DownloadEntry {
    if is_due(e, now) {
        DownloadEntry { retry_count: (e.retry_count + 1) as u32, ..e.requeued() }
    } else {
        e
    }
}

proof fn lemma_swept(s: Seq<DownloadEntry>, now: i64, n: int)
    requires
        store::distinct_ids(s),
        0 <= n <= s.len(),
    ensures
        all_revived(s, due(s.take(n), now)) == Seq::new(
            s.len(),
            |k: int|
                if k < n {
                    swept(s[k], now)
                } else {
                    s[k]
                },
        ),
    decreases n,
{
    let before = all_revived(s, due(s.take(n - 1), now));
    if n == 0 {
        assert(s.take(0).len() == 0);
    } else {
        lemma_swept(s, now, n - 1);
        assert(s.take(n).drop_last() =~= s.take(n - 1));
        let e = s[n - 1];
        assert(s.take(n).last() == e);
        if is_due(e, now) {
            let list = due(s.take(n), now);
            assert(list.drop_last() =~= due(s.take(n - 1), now));
            assert forall|k: int| 0 <= k < s.len() implies (#[trigger] before[k]).id == s[k].id by {}
            assert(before[n - 1] == e);
            store::lemma_position(before, e.id@, 0);
            let p = store::position(before, e.id@);
            assert(p == n - 1) by {
                if p < n - 1 {
                    assert(before[p].id == s[p].id);
                } else if p > n - 1 {
                    assert(before[n - 1].id@ != e.id@);
                }
            }
            let requeued = store::replaced(before, e.id@, e.requeued());
            assert(requeued =~= before.update(n - 1, e.requeued()));
            assert forall|k: int| 0 <= k < s.len() implies (#[trigger] requeued[k]).id
                == s[k].id by {
                assert(before[k].id == s[k].id);
            }
            store::lemma_position(requeued, e.id@, 0);
            let q = store::position(requeued, e.id@);
            assert(q == n - 1) by {
                if q < n - 1 {
                    assert(requeued[q].id == s[q].id);
                } else if q > n - 1 {
                    assert(requeued[n - 1].id@ != e.id@);
                }
            }
        }
    }
}

/// A sweep over the failed downloads puts exactly those that are due back into the
/// queue, each counted once more, and leaves all others as they are.
pub proof fn sweeps_revive_what_is_due(s: Seq<DownloadEntry>, now: i64)
    requires
        store::distinct_ids(s),
    ensures
        all_revived(s, due(s, now)) == s.map_values(|e: DownloadEntry| swept(e, now)),
{
    lemma_swept(s, now, s.len() as int);
    assert(s.take(s.len() as int) =~= s);
}

/// No download is started again by itself more often than the limit: one that has
/// used up its tries is never due, and gets no time to be started at.
pub proof fn tries_run_out(e: DownloadEntry, now: i64)
    requires
        e.retry_count >= MAX_AUTO_RETRIES,
    ensures
        !is_due(e, now),
        retry_time(e.retry_count, now) is None,
{
}

} // verus!

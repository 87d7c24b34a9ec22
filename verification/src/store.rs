//! The download list: its entries, its queues, and what is not stored yet.

use vstd::prelude::*;

use crate::backend::Outcome;
use crate::entry;
use crate::entry::{DownloadEntry, DownloadProgress, DownloadStatus};
use crate::net::JobEvent;
use crate::paths;
use crate::paths::join_path;
use crate::text;
use crate::text::str_eq;

verus! {

/// A time of day at which a queue runs, in minutes since midnight. A start behind
/// the end means a time over midnight.
#[derive(Clone, Copy, Debug, PartialEq, Eq, Structural)]
pub struct DownloadSchedule {
    pub start_minutes: u32,
    pub end_minutes: u32,
}

impl DownloadSchedule {
    /// Whether a minute of the day falls into the schedule.
    pub open spec fn active(self, minutes: u32) -> bool {
        let m = minutes % 1440;
        if self.start_minutes <= self.end_minutes {
            self.start_minutes <= m < self.end_minutes
        } else {
            m >= self.start_minutes || m < self.end_minutes
        }
    }

    /// Tells whether a minute of the day falls into the schedule.
    pub fn is_active_at(&self, minutes_since_midnight: u32) -> (r: bool)
        ensures
            r == self.active(minutes_since_midnight),
    {
        let m: u32 = minutes_since_midnight % 1440;
        if self.start_minutes <= self.end_minutes {
            m >= self.start_minutes && m < self.end_minutes
        } else {
            m >= self.start_minutes || m < self.end_minutes
        }
    }
}

/// Two schedules that swap start and end divide the day between them: every minute
/// falls into exactly one.
pub proof fn swapped_schedules_divide_the_day(a: u32, b: u32, minutes: u32)
    requires
        a != b,
    ensures
        (DownloadSchedule { start_minutes: a, end_minutes: b }).active(minutes) != (
        DownloadSchedule { start_minutes: b, end_minutes: a }).active(minutes),
{
}

/// A queue.
#[derive(Debug)]
pub struct DownloadQueueDef {
    pub id: String,
    pub name: String,
    pub entry_ids: Vec<String>,
    pub schedule: Option<DownloadSchedule>,
}

/// The download list.
#[derive(Debug)]
pub struct DownloadStore {
    entries: Vec<DownloadEntry>,
    queues: Vec<DownloadQueueDef>,
    dirty: bool,
}

/// The model of [`DownloadStore`].
#[verifier::ext_equal]
pub struct StoreView {
    pub entries: Seq<DownloadEntry>,
    pub queues: Seq<DownloadQueueDef>,
    /// Whether something changed that was not stored at once.
    pub dirty: bool,
}

impl View for DownloadStore {
    type V = StoreView;

    closed spec fn view(&self) -> StoreView {
        StoreView { entries: self.entries@, queues: self.queues@, dirty: self.dirty }
    }
}

/// The position, from `i` on, of the first entry with an identifier; the length of
/// the list where there is none.
pub open spec fn position_from(s: Seq<DownloadEntry>, id: Seq<char>, i: int) -> int
    decreases s.len() - i,
{
    if i < 0 || i >= s.len() {
        s.len() as int
    } else if s[i].id@ == id {
        i
    } else {
        position_from(s, id, i + 1)
    }
}

/// The position of the first entry with an identifier.
pub open spec fn position(s: Seq<DownloadEntry>, id: Seq<char>) -> int {
    position_from(s, id, 0)
}

/// Whether an entry with an identifier is there.
pub open spec fn holds_id(s: Seq<DownloadEntry>, id: Seq<char>) -> bool {
    position(s, id) < s.len()
}

pub proof fn lemma_position(s: Seq<DownloadEntry>, id: Seq<char>, i: int)
    requires
        0 <= i <= s.len(),
    ensures
        i <= position_from(s, id, i) <= s.len(),
        position_from(s, id, i) < s.len() ==> s[position_from(s, id, i)].id@ == id,
        forall|j: int| i <= j < position_from(s, id, i) ==> (#[trigger] s[j]).id@ != id,
    decreases s.len() - i,
{
    if i < s.len() && s[i].id@ != id {
        lemma_position(s, id, i + 1);
    }
}

/// The list once the first entry with an identifier is replaced.
pub open spec fn replaced(s: Seq<DownloadEntry>, id: Seq<char>, e: DownloadEntry) -> Seq<
    DownloadEntry,
> {
    if holds_id(s, id) {
        s.update(position(s, id), e)
    } else {
        s
    }
}

/// The list once the first entry with an identifier counts as started again so
/// often.
pub open spec fn counted(s: Seq<DownloadEntry>, id: Seq<char>, count: u32) -> Seq<DownloadEntry> {
    replaced(s, id, (DownloadEntry { retry_count: count, ..s[position(s, id)] }))
}

/// The entries of which the flag is as wanted, in order.
pub open spec fn picked(s: Seq<DownloadEntry>, hit: Seq<bool>, want: bool) -> Seq<DownloadEntry>
    decreases s.len(),
{
    if s.len() == 0 {
        s
    } else {
        let rest = picked(s.drop_last(), hit, want);
        if hit[s.len() - 1] == want {
            rest.push(s.last())
        } else {
            rest
        }
    }
}

/// The identifiers of the entries of which the flag is set, in order.
pub open spec fn picked_ids(s: Seq<DownloadEntry>, hit: Seq<bool>) -> Seq<Seq<char>>
    decreases s.len(),
{
    if s.len() == 0 {
        Seq::empty()
    } else {
        let rest = picked_ids(s.drop_last(), hit);
        if hit[s.len() - 1] {
            rest.push(s.last().id@)
        } else {
            rest
        }
    }
}

/// The entries that still have something to do or to wait for, in order.
pub open spec fn open_entries(s: Seq<DownloadEntry>, open: bool) -> Seq<DownloadEntry>
    decreases s.len(),
{
    if s.len() == 0 {
        s
    } else {
        let rest = open_entries(s.drop_last(), open);
        if entry::is_open(s.last().status) == open {
            rest.push(s.last())
        } else {
            rest
        }
    }
}

/// Whether `hit` is what a condition answers for each entry, and `after` what a
/// change makes of each entry that it answers with yes, the others staying.
pub open spec fn changed_where<P, F>(
    before: Seq<DownloadEntry>,
    after: Seq<DownloadEntry>,
    hit: Seq<bool>,
    pred: P,
    f: F,
) -> bool where
    P: Fn(&DownloadEntry) -> bool,
    F: Fn(DownloadEntry) -> DownloadEntry,
 {
    &&& hit.len() == before.len()
    &&& after.len() == before.len()
    &&& forall|i: int|
        0 <= i < before.len() ==> {
            &&& call_ensures(pred, (&before[i],), #[trigger] hit[i])
            &&& if hit[i] {
                call_ensures(f, (before[i],), after[i])
            } else {
                after[i] == before[i]
            }
        }
}

/// Whether `hit` is what a condition answers for each entry.
pub open spec fn answered<P>(s: Seq<DownloadEntry>, hit: Seq<bool>, pred: P) -> bool where
    P: Fn(&DownloadEntry) -> bool,
 {
    &&& hit.len() == s.len()
    &&& forall|i: int| 0 <= i < s.len() ==> call_ensures(pred, (&s[i],), #[trigger] hit[i])
}

impl DownloadStore {
    /// The list of what was stored.
    pub fn new(entries: Vec<DownloadEntry>, queues: Vec<DownloadQueueDef>) -> (r: Self)
        ensures
            r@ == (StoreView { entries: entries@, queues: queues@, dirty: false }),
    {
        DownloadStore { entries, queues, dirty: false }
    }

    fn find(&self, id: &str) -> (r: usize)
        ensures
            r == position(self.entries@, id@),
            r <= self.entries@.len(),
    {
        let mut i: usize = 0;
        while i < self.entries.len() && !str_eq(self.entries[i].id.as_str(), id)
            invariant
                i <= self.entries.len(),
                position(self.entries@, id@) == position_from(self.entries@, id@, i as int),
            decreases self.entries.len() - i,
        {
            i += 1;
        }
        i
    }

    /// The entries.
    pub fn list_entries(&self) -> (r: &Vec<DownloadEntry>)
        ensures
            r@ == self@.entries,
    {
        &self.entries
    }

    /// The first entry with an identifier.
    pub fn get_entry(&self, id: &str) -> (r: Option<&DownloadEntry>)
        ensures
            r is Some == holds_id(self@.entries, id@),
            r matches Some(e) ==> *e == self@.entries[position(self@.entries, id@)],
    {
        let i: usize = self.find(id);
        if i < self.entries.len() {
            Some(&self.entries[i])
        } else {
            None
        }
    }

    /// Adds an entry behind the others. The list is to be stored.
    pub fn add_entry(&mut self, e: DownloadEntry)
        ensures
            final(self)@ == (StoreView { entries: old(self)@.entries.push(e), ..old(self)@ }),
    {
        self.entries.push(e);
    }

    /// Changes the first entry with an identifier, where there is one. The list is to
    /// be stored.
    pub fn update_entry<F: FnOnce(DownloadEntry) -> DownloadEntry>(&mut self, id: &str, f: F)
        requires
            holds_id(old(self)@.entries, id@) ==> call_requires(
                f,
                (old(self)@.entries[position(old(self)@.entries, id@)],),
            ),
        ensures
            !holds_id(old(self)@.entries, id@) ==> final(self)@ == old(self)@,
            holds_id(old(self)@.entries, id@) ==> exists|e: DownloadEntry|
                #![trigger replaced(old(self)@.entries, id@, e)]
                call_ensures(f, (old(self)@.entries[position(old(self)@.entries, id@)],), e)
                    && final(self)@ == (StoreView {
                    entries: replaced(old(self)@.entries, id@, e),
                    ..old(self)@
                }),
    {
        let i: usize = self.find(id);
        let ghost before = self.entries@;
        if i < self.entries.len() {
            let e = self.entries.remove(i);
            let changed = f(e);
            let ghost shown = changed;
            self.entries.insert(i, changed);
            assert(self.entries@ =~= before.update(i as int, shown));
            assert(self.entries@ == replaced(before, id@, shown));
        }
    }

    /// Takes an event of the run of an entry, where the entry is there. The list is to
    /// be stored.
    pub fn apply_event(&mut self, id: &str, e: JobEvent)
        ensures
            final(self)@ == (StoreView {
                entries: replaced(
                    old(self)@.entries,
                    id@,
                    old(self)@.entries[position(old(self)@.entries, id@)].after_event(e),
                ),
                ..old(self)@
            }),
    {
        let i: usize = self.find(id);
        let ghost before = self.entries@;
        if i < self.entries.len() {
            let entry = self.entries.remove(i);
            let entry = entry.on_event(e);
            let ghost shown = entry;
            self.entries.insert(i, entry);
            assert(self.entries@ =~= before.update(i as int, shown));
        }
    }

    /// Takes the start of a run of an entry, where the entry is there. The list is to
    /// be stored.
    pub fn start_entry(&mut self, id: &str)
        ensures
            final(self)@ == (StoreView {
                entries: replaced(
                    old(self)@.entries,
                    id@,
                    old(self)@.entries[position(old(self)@.entries, id@)].started(),
                ),
                ..old(self)@
            }),
    {
        let i: usize = self.find(id);
        let ghost before = self.entries@;
        if i < self.entries.len() {
            let entry = self.entries.remove(i);
            let entry = entry.start();
            let ghost shown = entry;
            self.entries.insert(i, entry);
            assert(self.entries@ =~= before.update(i as int, shown));
        }
    }

    /// Takes a pause of an entry, where the entry is there. The list is to be stored.
    pub fn pause_entry(&mut self, id: &str)
        ensures
            final(self)@ == (StoreView {
                entries: replaced(
                    old(self)@.entries,
                    id@,
                    old(self)@.entries[position(old(self)@.entries, id@)].paused(),
                ),
                ..old(self)@
            }),
    {
        let i: usize = self.find(id);
        let ghost before = self.entries@;
        if i < self.entries.len() {
            let entry = self.entries.remove(i);
            let entry = entry.pause();
            let ghost shown = entry;
            self.entries.insert(i, entry);
            assert(self.entries@ =~= before.update(i as int, shown));
        }
    }

    /// Takes the failure of the run of an entry, where the entry is there. The list is
    /// to be stored.
    pub fn fail_entry(&mut self, id: &str, error: String, next_retry_at: Option<i64>)
        ensures
            final(self)@ == (StoreView {
                entries: replaced(
                    old(self)@.entries,
                    id@,
                    old(self)@.entries[position(old(self)@.entries, id@)].failed(
                        error,
                        next_retry_at,
                    ),
                ),
                ..old(self)@
            }),
    {
        let i: usize = self.find(id);
        let ghost before = self.entries@;
        if i < self.entries.len() {
            let entry = self.entries.remove(i);
            let entry = entry.fail(error, next_retry_at);
            let ghost shown = entry;
            self.entries.insert(i, entry);
            assert(self.entries@ =~= before.update(i as int, shown));
        }
    }

    /// Takes the success of the run of an entry, where the entry is there. The list is
    /// to be stored.
    pub fn finish_entry(&mut self, id: &str, outcome: Outcome)
        ensures
            final(self)@.entries.len() == old(self)@.entries.len(),
            holds_id(old(self)@.entries, id@) ==> old(self)@.entries[position(
                old(self)@.entries,
                id@,
            )].finishes_as(outcome, final(self)@.entries[position(old(self)@.entries, id@)]),
            final(self)@ == (StoreView {
                entries: replaced(
                    old(self)@.entries,
                    id@,
                    final(self)@.entries[position(old(self)@.entries, id@)],
                ),
                ..old(self)@
            }),
    {
        let i: usize = self.find(id);
        let ghost before = self.entries@;
        if i < self.entries.len() {
            let entry = self.entries.remove(i);
            let entry = entry.finish(outcome);
            let ghost shown = entry;
            self.entries.insert(i, entry);
            assert(self.entries@ =~= before.update(i as int, shown));
        }
    }

    /// Sets the progress of an entry, where it is there. The list is stored later.
    pub fn set_progress(&mut self, id: &str, progress: DownloadProgress)
        ensures
            final(self)@ == (if holds_id(old(self)@.entries, id@) {
                StoreView {
                    entries: replaced(
                        old(self)@.entries,
                        id@,
                        (DownloadEntry {
                            progress: Some(progress),
                            ..old(self)@.entries[position(old(self)@.entries, id@)]
                        }),
                    ),
                    dirty: true,
                    ..old(self)@
                }
            } else {
                old(self)@
            }),
    {
        let i: usize = self.find(id);
        let ghost before = self.entries@;
        if i < self.entries.len() {
            let e = self.entries.remove(i);
            let e = DownloadEntry { progress: Some(progress), ..e };
            let ghost shown = e;
            self.entries.insert(i, e);
            assert(self.entries@ =~= before.update(i as int, shown));
            self.dirty = true;
        }
    }

    /// Tells whether something is to be stored that was not stored at once, and takes
    /// it as done.
    pub fn take_dirty(&mut self) -> (r: bool)
        ensures
            r == old(self)@.dirty,
            final(self)@ == (StoreView { dirty: false, ..old(self)@ }),
    {
        let was = self.dirty;
        self.dirty = false;
        was
    }

    /// Notes that the list was stored.
    pub fn saved(&mut self)
        ensures
            final(self)@ == (StoreView { dirty: false, ..old(self)@ }),
    {
        self.dirty = false;
    }

    /// Changes every entry that a condition holds of, and tells which ones it were.
    /// The list is to be stored where there were any.
    pub fn update_where<
        P: Fn(&DownloadEntry) -> bool,
        F: Fn(DownloadEntry) -> DownloadEntry,
    >(&mut self, pred: P, f: F) -> (r: Vec<String>)
        requires
            forall|e: &DownloadEntry| #[trigger] call_requires(pred, (e,)),
            forall|e: DownloadEntry| #[trigger] call_requires(f, (e,)),
        ensures
            exists|hit: Seq<bool>|
                #![trigger picked_ids(final(self)@.entries, hit)]
                changed_where(old(self)@.entries, final(self)@.entries, hit, pred, f)
                    && text::texts(r@) == picked_ids(final(self)@.entries, hit),
            final(self)@.queues == old(self)@.queues,
            final(self)@.dirty == old(self)@.dirty,
    {
        let ghost before = self.entries@;
        let ghost mut hit: Seq<bool> = Seq::empty();
        let mut old_entries: Vec<DownloadEntry> = Vec::new();
        core::mem::swap(&mut old_entries, &mut self.entries);
        let mut out: Vec<DownloadEntry> = Vec::new();
        let mut ids: Vec<String> = Vec::new();
        let ghost queues = self.queues@;
        let ghost dirty = self.dirty;
        assert(text::texts(ids@) =~= Seq::empty());
        assert(old_entries@ =~= before.skip(0));
        while old_entries.len() > 0
            invariant
                forall|e: &DownloadEntry| #[trigger] call_requires(pred, (e,)),
                forall|e: DownloadEntry| #[trigger] call_requires(f, (e,)),
                out@.len() + old_entries@.len() == before.len(),
                old_entries@ == before.skip(out@.len() as int),
                changed_where(before.take(out@.len() as int), out@, hit, pred, f),
                text::texts(ids@) == picked_ids(out@, hit),
                self.queues@ == queues,
                self.dirty == dirty,
            decreases old_entries@.len(),
        {
            let ghost n = out@.len() as int;
            let ghost done = out@;
            let ghost hit_before = hit;
            let e = old_entries.remove(0);
            let ghost was = e;
            assert(was == before[n]);
            assert(old_entries@ =~= before.skip(n + 1));
            let matched = pred(&e);
            proof {
                hit = hit.push(matched);
            }
            if matched {
                let changed = f(e);
                let ghost shown = changed;
                let ghost ids_before = text::texts(ids@);
                let id = changed.id.clone();
                ids.push(id);
                out.push(changed);
                assert(text::texts(ids@) =~= ids_before.push(shown.id@));
            } else {
                out.push(e);
            }
            proof {
                assert(out@.drop_last() =~= done);
                assert(before.take(n + 1).drop_last() =~= before.take(n));
                lemma_picked_ids(done, hit_before, hit);
                assert forall|i: int| 0 <= i < n + 1 implies {
                    &&& call_ensures(pred, (&before.take(n + 1)[i],), #[trigger] hit[i])
                    &&& if hit[i] {
                        call_ensures(f, (before.take(n + 1)[i],), out@[i])
                    } else {
                        out@[i] == before.take(n + 1)[i]
                    }
                } by {
                    if i < n {
                        assert(hit_before[i] == hit[i]);
                        assert(before.take(n)[i] == before.take(n + 1)[i]);
                        assert(done[i] == out@[i]);
                    }
                }
            }
        }
        assert(before.take(out@.len() as int) =~= before);
        let ghost after = out@;
        self.entries = out;
        assert(self@.entries == after);
        assert(old(self)@.entries == before);
        assert(changed_where(old(self)@.entries, self@.entries, hit, pred, f));
        assert(text::texts(ids@) == picked_ids(self@.entries, hit));
        ids
    }

    /// Removes every entry that a condition holds of, and hands them out. The list is
    /// to be stored where there were any.
    pub fn remove_where<P: Fn(&DownloadEntry) -> bool>(&mut self, pred: P) -> (r: Vec<
        DownloadEntry,
    >)
        requires
            forall|e: &DownloadEntry| #[trigger] call_requires(pred, (e,)),
        ensures
            exists|hit: Seq<bool>|
                #![trigger picked(old(self)@.entries, hit, true)]
                answered(old(self)@.entries, hit, pred) && r@ == picked(
                    old(self)@.entries,
                    hit,
                    true,
                ) && final(self)@.entries == picked(old(self)@.entries, hit, false),
            final(self)@.queues == old(self)@.queues,
            final(self)@.dirty == old(self)@.dirty,
    {
        let ghost before = self.entries@;
        let ghost mut hit: Seq<bool> = Seq::empty();
        let mut old_entries: Vec<DownloadEntry> = Vec::new();
        core::mem::swap(&mut old_entries, &mut self.entries);
        let mut keep: Vec<DownloadEntry> = Vec::new();
        let mut removed: Vec<DownloadEntry> = Vec::new();
        let ghost mut n: int = 0;
        let ghost queues = self.queues@;
        let ghost dirty = self.dirty;
        assert(before.take(0) =~= Seq::empty());
        assert(old_entries@ =~= before.skip(0));
        while old_entries.len() > 0
            invariant
                forall|e: &DownloadEntry| #[trigger] call_requires(pred, (e,)),
                0 <= n <= before.len(),
                n + old_entries@.len() == before.len(),
                old_entries@ == before.skip(n),
                answered(before.take(n), hit, pred),
                keep@ == picked(before.take(n), hit, false),
                removed@ == picked(before.take(n), hit, true),
                self.queues@ == queues,
                self.dirty == dirty,
            decreases old_entries@.len(),
        {
            let ghost hit_before = hit;
            let e = old_entries.remove(0);
            assert(e == before[n]);
            assert(old_entries@ =~= before.skip(n + 1));
            let matched = pred(&e);
            proof {
                hit = hit.push(matched);
                assert(before.take(n + 1).drop_last() =~= before.take(n));
                assert(before.take(n + 1).last() == e);
                lemma_picked(before.take(n), hit_before, hit, true);
                lemma_picked(before.take(n), hit_before, hit, false);
                assert forall|i: int| 0 <= i < n + 1 implies call_ensures(
                    pred,
                    (&before.take(n + 1)[i],),
                    #[trigger] hit[i],
                ) by {
                    if i < n {
                        assert(hit_before[i] == hit[i]);
                        assert(before.take(n)[i] == before.take(n + 1)[i]);
                    }
                }
                n = n + 1;
            }
            if matched {
                removed.push(e);
            } else {
                keep.push(e);
            }
        }
        assert(before.take(n) =~= before);
        self.entries = keep;
        assert(old(self)@.entries == before);
        assert(answered(old(self)@.entries, hit, pred));
        assert(removed@ == picked(old(self)@.entries, hit, true));
        removed
    }

    /// Moves an entry that still waits to the running ones; tells whether it did. An
    /// entry that runs already, or is gone, stays. The list is to be stored where it
    /// did.
    pub fn try_claim(&mut self, id: &str) -> (r: bool)
        ensures
            r == (holds_id(old(self)@.entries, id@) && old(self)@.entries[position(
                old(self)@.entries,
                id@,
            )].status == DownloadStatus::Queued),
            final(self)@ == (if r {
                StoreView {
                    entries: replaced(
                        old(self)@.entries,
                        id@,
                        old(self)@.entries[position(old(self)@.entries, id@)].started(),
                    ),
                    ..old(self)@
                }
            } else {
                old(self)@
            }),
    {
        let i: usize = self.find(id);
        let ghost before = self.entries@;
        if i < self.entries.len() && self.entries[i].status == DownloadStatus::Queued {
            let e = self.entries.remove(i);
            let e = e.start();
            let ghost shown = e;
            self.entries.insert(i, e);
            assert(self.entries@ =~= before.update(i as int, shown));
            true
        } else {
            false
        }
    }

    /// Adds a queue behind the others. The list is to be stored.
    pub fn add_queue(&mut self, queue: DownloadQueueDef)
        ensures
            final(self)@ == (StoreView { queues: old(self)@.queues.push(queue), ..old(self)@ }),
    {
        self.queues.push(queue);
    }

    /// The queues.
    pub fn list_queues(&self) -> (r: &Vec<DownloadQueueDef>)
        ensures
            r@ == self@.queues,
    {
        &self.queues
    }

    /// Removes the first entry with an identifier and hands it out. The list is to be
    /// stored.
    pub fn remove_entry(&mut self, id: &str) -> (r: Option<DownloadEntry>)
        ensures
            r is Some == holds_id(old(self)@.entries, id@),
            r matches Some(e) ==> e == old(self)@.entries[position(old(self)@.entries, id@)],
            final(self)@ == (if holds_id(old(self)@.entries, id@) {
                StoreView {
                    entries: old(self)@.entries.remove(position(old(self)@.entries, id@)),
                    ..old(self)@
                }
            } else {
                old(self)@
            }),
    {
        let i: usize = self.find(id);
        if i < self.entries.len() {
            Some(self.entries.remove(i))
        } else {
            None
        }
    }

    /// Puts an entry back into the queue that failed, was cancelled or paused, or was
    /// left converting; tells whether it did. The list is to be stored.
    pub fn retry_entry(&mut self, id: &str) -> (r: bool)
        ensures
            r == (holds_id(old(self)@.entries, id@) && entry::can_retry(
                old(self)@.entries[position(old(self)@.entries, id@)].status,
            )),
            final(self)@ == (if r {
                StoreView {
                    entries: replaced(
                        old(self)@.entries,
                        id@,
                        old(self)@.entries[position(old(self)@.entries, id@)].requeued(),
                    ),
                    ..old(self)@
                }
            } else {
                old(self)@
            }),
    {
        let i: usize = self.find(id);
        let ghost before = self.entries@;
        if i < self.entries.len() && self.entries[i].retryable() {
            let e = self.entries.remove(i);
            let e = e.requeue();
            let ghost shown = e;
            self.entries.insert(i, e);
            assert(self.entries@ =~= before.update(i as int, shown));
            true
        } else {
            false
        }
    }

    /// Sets how often an entry was started again by itself, where it is there. The
    /// list is to be stored.
    pub fn set_retry_count(&mut self, id: &str, count: u32)
        ensures
            final(self)@ == (StoreView {
                entries: counted(old(self)@.entries, id@, count),
                ..old(self)@
            }),
    {
        let i: usize = self.find(id);
        let ghost before = self.entries@;
        if i < self.entries.len() {
            let e = self.entries.remove(i);
            let e = DownloadEntry { retry_count: count, ..e };
            let ghost shown = e;
            self.entries.insert(i, e);
            assert(self.entries@ =~= before.update(i as int, shown));
        }
    }

    /// Removes the entries that have nothing left to do, and hands them out. The list
    /// is to be stored.
    pub fn clear_finished(&mut self) -> (r: Vec<DownloadEntry>)
        ensures
            r@ == open_entries(old(self)@.entries, false),
            final(self)@ == (StoreView {
                entries: open_entries(old(self)@.entries, true),
                ..old(self)@
            }),
    {
        let ghost before = self.entries@;
        let mut old_entries: Vec<DownloadEntry> = Vec::new();
        core::mem::swap(&mut old_entries, &mut self.entries);
        let mut keep: Vec<DownloadEntry> = Vec::new();
        let mut removed: Vec<DownloadEntry> = Vec::new();
        let ghost mut n: int = 0;
        let ghost queues = self.queues@;
        let ghost dirty = self.dirty;
        assert(before.take(0) =~= Seq::empty());
        assert(old_entries@ =~= before.skip(0));
        while old_entries.len() > 0
            invariant
                0 <= n <= before.len(),
                n + old_entries@.len() == before.len(),
                old_entries@ == before.skip(n),
                keep@ == open_entries(before.take(n), true),
                removed@ == open_entries(before.take(n), false),
                self.queues@ == queues,
                self.dirty == dirty,
            decreases old_entries@.len(),
        {
            let e = old_entries.remove(0);
            assert(e == before[n]);
            assert(old_entries@ =~= before.skip(n + 1));
            proof {
                assert(before.take(n + 1).drop_last() =~= before.take(n));
                assert(before.take(n + 1).last() == e);
                n = n + 1;
            }
            if e.open() {
                keep.push(e);
            } else {
                removed.push(e);
            }
        }
        assert(before.take(n) =~= before);
        self.entries = keep;
        removed
    }
}

proof fn lemma_picked_ids(s: Seq<DownloadEntry>, a: Seq<bool>, b: Seq<bool>)
    requires
        s.len() <= a.len(),
        s.len() <= b.len(),
        forall|i: int| 0 <= i < s.len() ==> a[i] == #[trigger] b[i],
    ensures
        picked_ids(s, a) == picked_ids(s, b),
    decreases s.len(),
{
    if s.len() > 0 {
        lemma_picked_ids(s.drop_last(), a, b);
        assert(a[s.len() - 1] == b[s.len() - 1]);
    }
}

proof fn lemma_picked(s: Seq<DownloadEntry>, a: Seq<bool>, b: Seq<bool>, want: bool)
    requires
        s.len() <= a.len(),
        s.len() <= b.len(),
        forall|i: int| 0 <= i < s.len() ==> a[i] == #[trigger] b[i],
    ensures
        picked(s, a, want) == picked(s, b, want),
    decreases s.len(),
{
    if s.len() > 0 {
        lemma_picked(s.drop_last(), a, b, want);
        assert(a[s.len() - 1] == b[s.len() - 1]);
    }
}

// ---------------------------------------------------------------------------
// What the list keeps to
// ---------------------------------------------------------------------------

/// Whether no two entries share an identifier.
pub open spec fn distinct_ids(s: Seq<DownloadEntry>) -> bool {
    forall|i: int, j: int| 0 <= i < j < s.len() ==> (#[trigger] s[i]).id@ != (#[trigger] s[j]).id@
}

/// An entry that was claimed cannot be claimed again: two sweeps over the queue never
/// start the same download twice.
pub proof fn claims_are_taken_once(s: Seq<DownloadEntry>, id: Seq<char>)
    requires
        holds_id(s, id),
    ensures
        ({
            let after = replaced(s, id, s[position(s, id)].started());
            holds_id(after, id) && after[position(after, id)].status != DownloadStatus::Queued
        }),
{
    lemma_position(s, id, 0);
    let k = position(s, id);
    let after = replaced(s, id, s[k].started());
    lemma_position(after, id, 0);
    assert(after[k].id@ == id);
    let j = position(after, id);
    if j < k {
        assert(after[j] == s[j]);
        assert(s[j].id@ != id);
    }
}

/// Replacing an entry by one with its identifier leaves all others as they are, and
/// no two share an identifier afterwards if none did before.
pub proof fn updates_touch_one_entry(s: Seq<DownloadEntry>, id: Seq<char>, e: DownloadEntry, other: int)
    requires
        holds_id(s, id),
        e.id@ == id,
        0 <= other < s.len(),
        other != position(s, id),
    ensures
        replaced(s, id, e)[other] == s[other],
        replaced(s, id, e).len() == s.len(),
        distinct_ids(s) ==> distinct_ids(replaced(s, id, e)),
{
    lemma_position(s, id, 0);
    let k = position(s, id);
    let after = replaced(s, id, e);
    if distinct_ids(s) {
        assert forall|i: int, j: int| 0 <= i < j < after.len() implies (#[trigger] after[i]).id@ != (
        #[trigger] after[j]).id@ by {
            assert(s[i].id@ != s[j].id@);
        }
    }
}

/// An entry that was removed is found no more, where no two shared its identifier;
/// adding an entry that was not there makes it found.
pub proof fn removed_entries_are_gone(s: Seq<DownloadEntry>, id: Seq<char>, e: DownloadEntry)
    requires
        distinct_ids(s),
    ensures
        holds_id(s, id) ==> !holds_id(s.remove(position(s, id)), id),
        !holds_id(s, e.id@) ==> holds_id(s.push(e), e.id@) && s.push(e)[position(s.push(e), e.id@)] == e,
{
    lemma_position(s, id, 0);
    let k = position(s, id);
    if holds_id(s, id) {
        let rest = s.remove(k);
        lemma_position(rest, id, 0);
        let j = position(rest, id);
        if j < rest.len() {
            if j < k {
                assert(rest[j] == s[j]);
            } else {
                assert(rest[j] == s[j + 1]);
                assert(s[k].id@ != s[j + 1].id@);
            }
        }
    }
    if !holds_id(s, e.id@) {
        lemma_position(s, e.id@, 0);
        let all = s.push(e);
        lemma_position(all, e.id@, 0);
        assert(all[s.len() as int] == e);
        let j = position(all, e.id@);
        if j < s.len() {
            assert(all[j] == s[j]);
        }
    }
}

/// Clearing divides the list: what still has something to do stays, the rest goes,
/// and nothing is lost.
pub proof fn clearing_divides_the_list(s: Seq<DownloadEntry>)
    ensures
        open_entries(s, true).len() + open_entries(s, false).len() == s.len(),
        forall|i: int|
            0 <= i < open_entries(s, true).len() ==> entry::is_open(
                (#[trigger] open_entries(s, true)[i]).status,
            ),
        forall|i: int|
            0 <= i < open_entries(s, false).len() ==> !entry::is_open(
                (#[trigger] open_entries(s, false)[i]).status,
            ),
        open_entries(open_entries(s, true), false) == Seq::<DownloadEntry>::empty(),
    decreases s.len(),
{
    if s.len() > 0 {
        clearing_divides_the_list(s.drop_last());
        let rest = open_entries(s.drop_last(), true);
        let keep = open_entries(s, true);
        if entry::is_open(s.last().status) {
            assert(keep.drop_last() =~= rest);
        }
    }
}

/// Where the list is stored.
pub fn default_store_path(data_dir: &str) -> (r: String)
    ensures
        r@ == paths::join(data_dir@, "downloads.json"@),
{
    join_path(data_dir, "downloads.json")
}

} // verus!

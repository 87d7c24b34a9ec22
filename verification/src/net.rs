//! Requests, what they send, how often they are tried, and how their progress is
//! accounted for.

use vstd::prelude::*;

use crate::number;
use crate::number::{dec_string, parse_u64};
use crate::sorting;
use crate::sorting::sort_strings;
use crate::strmap;
use crate::strmap::StrMap;
use crate::text;
use crate::text::{
    cat2, cat3, chars_of, copy_opt, join_strings, one_of, same_ignoring_case, to_lower,
};

verus! {

/// How often a request is tried unless told otherwise.
pub const DEFAULT_RETRY_ATTEMPTS: usize = 6;

/// The wait before a request is tried a second time, in milliseconds.
pub const DEFAULT_RETRY_DELAY_MS: u64 = 500;

/// The longest wait between two tries that doubling leads to, in milliseconds.
pub const MAX_RETRY_DELAY_MS: u64 = 10_000;

/// Throughput is measured over this many nanoseconds.
pub const SPEED_WINDOW: u64 = 5_000_000_000;

/// The least time between two progress events, in nanoseconds.
pub const EMIT_INTERVAL: u64 = 250_000_000;

// ---------------------------------------------------------------------------
// Events
// ---------------------------------------------------------------------------

/// What a running download tells of itself.
#[derive(Clone, Copy, Debug, PartialEq, Eq)]
pub enum JobEvent {
    Progress {
        /// Bytes transferred so far.
        downloaded_bytes: u64,
        /// Total bytes, where known.
        total_bytes: Option<u64>,
        /// Completed units, such as segments; 0 for byte-only downloads.
        done_units: u64,
        /// Total units; 0 where there is no unit count.
        total_units: u64,
        /// Throughput over the recent past, in bytes per second.
        speed_bps: u64,
    },
    Converting,
}

/// A single progress point; a total of 0 is an unknown total.
pub open spec fn progress_point(done: u64, total: u64) -> JobEvent {
    JobEvent::Progress {
        downloaded_bytes: done,
        total_bytes: if total > 0 {
            Some(total)
        } else {
            None
        },
        done_units: 0,
        total_units: 0,
        speed_bps: 0,
    }
}

/// The event for a single progress point; a total of 0 is an unknown total.
pub fn report_progress(done: u64, total: u64) -> (r: JobEvent)
    ensures
        r == progress_point(done, total),
{
    let total_bytes = if total > 0 {
        Some(total)
    } else {
        None
    };
    JobEvent::Progress {
        downloaded_bytes: done,
        total_bytes,
        done_units: 0,
        total_units: 0,
        speed_bps: 0,
    }
}

/// The event for the start of a conversion.
pub fn report_converting() -> (r: JobEvent)
    ensures
        r == JobEvent::Converting,
{
    JobEvent::Converting
}

/// The account of a streaming download. Times are nanoseconds on one clock.
#[derive(Debug)]
pub struct ProgressTracker {
    emit_interval: u64,
    downloaded_bytes: u64,
    total_bytes: Option<u64>,
    done_units: u64,
    total_units: u64,
    samples: Vec<(u64, u64)>,
    last_emit: Option<u64>,
}

/// The model of [`ProgressTracker`].
#[verifier::ext_equal]
pub struct TrackerView {
    pub emit_interval: u64,
    pub downloaded_bytes: u64,
    pub total_bytes: Option<u64>,
    pub done_units: u64,
    pub total_units: u64,
    /// Times, each with the bytes transferred up to then, oldest first.
    pub samples: Seq<(u64, u64)>,
    pub last_emit: Option<u64>,
}

/// The time from `then` to `now`, 0 where the clock went back.
pub open spec fn elapsed(now: u64, earlier: u64) -> int {
    if now >= earlier {
        now - earlier
    } else {
        0
    }
}

/// The samples without those that are older than the window, the last one always
/// staying.
pub open spec fn recent(samples: Seq<(u64, u64)>, now: u64) -> Seq<(u64, u64)>
    decreases samples.len(),
{
    if samples.len() > 1 && elapsed(now, samples[0].0) > SPEED_WINDOW {
        recent(samples.skip(1), now)
    } else {
        samples
    }
}

/// Bytes per second from the first to the last sample, rounded down; 0 where no
/// time passed or nothing came.
pub open spec fn speed(samples: Seq<(u64, u64)>) -> int {
    if samples.len() == 0 {
        0
    } else {
        let (t0, b0) = samples[0];
        let (t1, b1) = samples.last();
        if t1 > t0 && b1 > b0 {
            let v = (b1 - b0) * 1_000_000_000 / (t1 - t0);
            if v <= u64::MAX {
                v
            } else {
                u64::MAX as int
            }
        } else {
            0
        }
    }
}

impl TrackerView {
    /// Whether an event is due at a time.
    pub open spec fn due(self, now: u64) -> bool {
        match self.last_emit {
            Some(last) => elapsed(now, last) >= self.emit_interval,
            None => true,
        }
    }

    /// The event that tells where the download stands.
    pub open spec fn event(self) -> JobEvent {
        JobEvent::Progress {
            downloaded_bytes: self.downloaded_bytes,
            total_bytes: self.total_bytes,
            done_units: self.done_units,
            total_units: self.total_units,
            speed_bps: speed(self.samples) as u64,
        }
    }

    /// Whether the counters can take more units and bytes.
    pub open spec fn has_room(self, units: u64, bytes: u64) -> bool {
        &&& self.done_units + units <= u64::MAX
        &&& self.downloaded_bytes + bytes <= u64::MAX
    }

    /// The account after more units and bytes, with the event that goes out: one
    /// that is forced, or due.
    pub open spec fn recorded(self, units: u64, bytes: u64, force: bool, now: u64) -> (
        TrackerView,
        Option<JobEvent>,
    ) {
        let downloaded = (self.downloaded_bytes + bytes) as u64;
        let counted = TrackerView {
            done_units: (self.done_units + units) as u64,
            downloaded_bytes: downloaded,
            samples: recent(self.samples.push((now, downloaded)), now),
            ..self
        };
        if force || self.due(now) {
            let told = TrackerView { last_emit: Some(now), ..counted };
            (told, Some(told.event()))
        } else {
            (counted, None)
        }
    }

    /// The account with every counter that has a total brought up to it.
    pub open spec fn completed(self) -> TrackerView {
        TrackerView {
            downloaded_bytes: match self.total_bytes {
                Some(t) => if self.downloaded_bytes < t {
                    t
                } else {
                    self.downloaded_bytes
                },
                None => self.downloaded_bytes,
            },
            done_units: if self.total_units > 0 {
                self.total_units
            } else {
                self.done_units
            },
            ..self
        }
    }
}

impl View for ProgressTracker {
    type V = TrackerView;

    closed spec fn view(&self) -> TrackerView {
        TrackerView {
            emit_interval: self.emit_interval,
            downloaded_bytes: self.downloaded_bytes,
            total_bytes: self.total_bytes,
            done_units: self.done_units,
            total_units: self.total_units,
            samples: self.samples@,
            last_emit: self.last_emit,
        }
    }
}

fn since(now: u64, earlier: u64) -> (r: u64)
    ensures
        r == elapsed(now, earlier),
{
    if now >= earlier {
        now - earlier
    } else {
        0
    }
}

fn speed_of(samples: &Vec<(u64, u64)>) -> (r: u64)
    ensures
        r == speed(samples@),
{
    if samples.len() == 0 {
        return 0;
    }
    let (t0, b0) = samples[0];
    let (t1, b1) = samples[samples.len() - 1];
    if t1 > t0 && b1 > b0 {
        let bytes: u128 = (b1 - b0) as u128;
        let time: u128 = (t1 - t0) as u128;
        let v: u128 = bytes * 1_000_000_000 / time;
        assert(v == (b1 - b0) * 1_000_000_000 / (t1 - t0));
        if v <= u64::MAX as u128 {
            v as u64
        } else {
            u64::MAX
        }
    } else {
        0
    }
}

impl ProgressTracker {
    /// The account of a download that has not begun.
    pub fn new(total_bytes: Option<u64>, total_units: u64) -> (r: Self)
        ensures
            r@ == (TrackerView {
                emit_interval: EMIT_INTERVAL,
                downloaded_bytes: 0,
                total_bytes,
                done_units: 0,
                total_units,
                samples: Seq::empty(),
                last_emit: None,
            }),
    {
        Self::with_emit_interval(total_bytes, total_units, EMIT_INTERVAL)
    }

    /// The account of a download that has not begun, with another least time
    /// between two events.
    pub fn with_emit_interval(total_bytes: Option<u64>, total_units: u64, emit_interval: u64) -> (r:
        Self)
        ensures
            r@ == (TrackerView {
                emit_interval,
                downloaded_bytes: 0,
                total_bytes,
                done_units: 0,
                total_units,
                samples: Seq::empty(),
                last_emit: None,
            }),
    {
        ProgressTracker {
            emit_interval,
            downloaded_bytes: 0,
            total_bytes,
            done_units: 0,
            total_units,
            samples: Vec::new(),
            last_emit: None,
        }
    }

    /// Counts bytes, with no unit completed.
    pub fn add_bytes(&mut self, delta: u64, now: u64) -> (r: Option<JobEvent>)
        requires
            old(self)@.has_room(0, delta),
        ensures
            (final(self)@, r) == old(self)@.recorded(0, delta, false, now),
    {
        self.record(0, delta, false, now)
    }

    /// Counts a completed unit and its bytes.
    pub fn add_unit(&mut self, bytes: u64, now: u64) -> (r: Option<JobEvent>)
        requires
            old(self)@.has_room(1, bytes),
        ensures
            (final(self)@, r) == old(self)@.recorded(1, bytes, false, now),
    {
        self.record(1, bytes, false, now)
    }

    /// Brings the counters up to their totals and gives the last event.
    pub fn finish(&mut self, now: u64) -> (r: Option<JobEvent>)
        ensures
            (final(self)@, r) == old(self)@.completed().recorded(0, 0, true, now),
            r == Some(final(self)@.event()),
    {
        match self.total_bytes {
            Some(t) => {
                if self.downloaded_bytes < t {
                    self.downloaded_bytes = t;
                }
            },
            None => {},
        }
        if self.total_units > 0 {
            self.done_units = self.total_units;
        }
        self.record(0, 0, true, now)
    }

    fn record(&mut self, units: u64, bytes: u64, force: bool, now: u64) -> (r: Option<JobEvent>)
        requires
            old(self)@.has_room(units, bytes),
        ensures
            (final(self)@, r) == old(self)@.recorded(units, bytes, force, now),
    {
        let ghost was = self@;
        self.done_units = self.done_units + units;
        self.downloaded_bytes = self.downloaded_bytes + bytes;
        self.samples.push((now, self.downloaded_bytes));
        let ghost counted = self@;
        while self.samples.len() > 1 && since(now, self.samples[0].0) > SPEED_WINDOW
            invariant
                recent(self.samples@, now) == recent(counted.samples, now),
                self@ == (TrackerView { samples: self.samples@, ..counted }),
            decreases self.samples.len(),
        {
            let ghost before = self.samples@;
            self.samples.remove(0);
            assert(self.samples@ =~= before.skip(1));
        }
        let due = force || (match self.last_emit {
            Some(last) => since(now, last) >= self.emit_interval,
            None => true,
        });
        assert(due == (force || was.due(now)));
        if !due {
            return None;
        }
        self.last_emit = Some(now);
        Some(
            JobEvent::Progress {
                downloaded_bytes: self.downloaded_bytes,
                total_bytes: self.total_bytes,
                done_units: self.done_units,
                total_units: self.total_units,
                speed_bps: speed_of(&self.samples),
            },
        )
    }
}

/// Two events of one account that nobody forced are never closer than the least
/// time between events, whatever is counted between them.
pub proof fn events_keep_their_distance(
    t: TrackerView,
    units: u64,
    bytes: u64,
    first: u64,
    more_units: u64,
    more_bytes: u64,
    second: u64,
)
    requires
        t.recorded(units, bytes, false, first).1 is Some,
        t.recorded(units, bytes, false, first).0.recorded(
            more_units,
            more_bytes,
            false,
            second,
        ).1 is Some,
    ensures
        elapsed(second, first) >= t.emit_interval,
{
}

/// The counters never fall.
pub proof fn counters_only_grow(t: TrackerView, units: u64, bytes: u64, force: bool, now: u64)
    requires
        t.has_room(units, bytes),
    ensures
        t.recorded(units, bytes, force, now).0.done_units == t.done_units + units,
        t.recorded(units, bytes, force, now).0.downloaded_bytes == t.downloaded_bytes + bytes,
        t.completed().downloaded_bytes >= t.downloaded_bytes,
        t.total_units > 0 ==> t.completed().done_units == t.total_units,
        t.total_bytes matches Some(total) ==> t.completed().downloaded_bytes >= total,
{
}

// ---------------------------------------------------------------------------
// Trying again
// ---------------------------------------------------------------------------

/// The tries of one request.
#[derive(Clone, Copy, Debug)]
pub struct Retry {
    /// How often the request may be tried; 0 counts as once.
    pub attempts: usize,
    /// How often it has failed.
    pub failed: usize,
    /// The wait before the next try, in milliseconds.
    pub delay_ms: u64,
}

/// Twice a wait, up to a limit.
pub open spec fn doubled(ms: u64) -> u64 {
    if 2 * ms < MAX_RETRY_DELAY_MS {
        (2 * ms) as u64
    } else {
        MAX_RETRY_DELAY_MS
    }
}

/// The wait behind failure number `n`, counted from 0: it doubles, up to a limit.
pub open spec fn delay_after(initial_ms: u64, n: nat) -> u64
    decreases n,
{
    if n == 0 {
        initial_ms
    } else {
        doubled(delay_after(initial_ms, (n - 1) as nat))
    }
}

/// Waits grow from try to try and never go beyond the limit, unless the first one does.
pub proof fn waits_double_up_to_a_limit(initial_ms: u64, n: nat)
    ensures
        n > 0 ==> delay_after(initial_ms, n) <= MAX_RETRY_DELAY_MS,
        initial_ms <= MAX_RETRY_DELAY_MS ==> {
            &&& delay_after(initial_ms, n) <= MAX_RETRY_DELAY_MS
            &&& delay_after(initial_ms, n) <= delay_after(initial_ms, n + 1)
        },
    decreases n,
{
    if n > 0 {
        waits_double_up_to_a_limit(initial_ms, (n - 1) as nat);
    }
}

impl Retry {
    /// Whether the record is that of a request which started with a wait of
    /// `initial_ms`.
    pub open spec fn after(self, initial_ms: u64) -> bool {
        &&& self.delay_ms == delay_after(initial_ms, self.failed as nat)
        &&& self.failed <= self.attempts
    }

    /// A request that has not been tried.
    pub fn new(attempts: usize, initial_ms: u64) -> (r: Self)
        ensures
            r.attempts == attempts,
            r.failed == 0,
            r.after(initial_ms),
    {
        Retry { attempts, failed: 0, delay_ms: initial_ms }
    }

    /// Notes a failure: the wait in milliseconds before the next try, or `None`
    /// where that was the last one.
    pub fn failure(&mut self) -> (r: Option<u64>)
        ensures
            r == (if old(self).failed + 1 < old(self).attempts {
                Some(old(self).delay_ms)
            } else {
                None
            }),
            r is Some ==> final(self).failed == old(self).failed + 1 && final(self).delay_ms
                == doubled(old(self).delay_ms),
            r is None ==> *final(self) == *old(self),
            final(self).attempts == old(self).attempts,
            forall|initial_ms: u64|
                old(self).after(initial_ms) ==> #[trigger] final(self).after(initial_ms),
    {
        if self.failed < self.attempts && self.attempts - self.failed > 1 {
            let wait: u64 = self.delay_ms;
            self.failed = self.failed + 1;
            self.delay_ms = if wait < MAX_RETRY_DELAY_MS / 2 {
                2 * wait
            } else {
                MAX_RETRY_DELAY_MS
            };
            Some(wait)
        } else {
            None
        }
    }
}

// ---------------------------------------------------------------------------
// Headers
// ---------------------------------------------------------------------------

/// What a server says of a file before it is fetched.
#[derive(Debug)]
pub struct ProbeInfo {
    pub content_length: Option<u64>,
    pub accept_ranges: bool,
    pub content_type: Option<String>,
}

impl Default for ProbeInfo {
    fn default() -> (r: Self)
        ensures
            r.content_length is None,
            !r.accept_ranges,
            r.content_type is None,
    {
        ProbeInfo { content_length: None, accept_ranges: false, content_type: None }
    }
}

/// Reads the answer to a probe from its headers: the length where it is a number,
/// ranges where the server names bytes, in any case.
pub fn probe_info(
    content_length: Option<&str>,
    accept_ranges: Option<&str>,
    content_type: Option<&str>,
) -> (r: ProbeInfo)
    ensures
        r.content_length == (match content_length {
            Some(v) => match number::parsed_nat(v@, u64::MAX as nat) {
                Some(n) => Some(n as u64),
                None => None,
            },
            None => None,
        }),
        r.accept_ranges == (match accept_ranges {
            Some(v) => text::lower(v@) == text::lower("bytes"@),
            None => false,
        }),
        text::opt(r.content_type) == text::opt_str(content_type),
{
    let content_length = match content_length {
        Some(v) => parse_u64(chars_of(v).as_slice()),
        None => None,
    };
    let accept_ranges = match accept_ranges {
        Some(v) => same_ignoring_case(chars_of(v).as_slice(), "bytes"),
        None => false,
    };
    let content_type = match content_type {
        Some(v) => Some(v.to_string()),
        None => None,
    };
    ProbeInfo { content_length, accept_ranges, content_type }
}

/// One request, as far as the library decides it.
#[derive(Debug)]
pub struct RequestOptions {
    pub headers: StrMap<String>,
    pub cookies: Option<String>,
    /// Offset and length of the bytes that are asked for.
    pub byte_range: Option<(u64, u64)>,
}

impl Default for RequestOptions {
    fn default() -> (r: Self)
        ensures
            r.headers@ == Map::<Seq<char>, String>::empty(),
            r.headers.list() == Seq::<(String, String)>::empty(),
            r.cookies is None,
            r.byte_range is None,
    {
        RequestOptions { headers: StrMap::new(), cookies: None, byte_range: None }
    }
}

/// What a browser sent when it made a request.
#[derive(Debug)]
pub struct RequestContext {
    pub headers: StrMap<String>,
    pub cookie: Option<String>,
}

impl Default for RequestContext {
    fn default() -> (r: Self)
        ensures
            r.headers@ == Map::<Seq<char>, String>::empty(),
            r.headers.list() == Seq::<(String, String)>::empty(),
            r.cookie is None,
    {
        RequestContext { headers: StrMap::new(), cookie: None }
    }
}

impl RequestContext {
    /// A request in this context.
    pub fn to_options(&self, byte_range: Option<(u64, u64)>) -> (r: RequestOptions)
        ensures
            r.headers@ == self.headers@,
            r.headers.list() == self.headers.list(),
            r.cookies == self.cookie,
            r.byte_range == byte_range,
    {
        RequestOptions { headers: self.headers.copy(), cookies: copy_opt(&self.cookie), byte_range }
    }
}

/// Headers, in lower case, that belong to one connection or to the browser that
/// made it, and are not sent again.
pub open spec fn excluded_headers() -> Seq<Seq<char>> {
    seq![
        "accept-encoding"@, "host"@, "content-length"@, "connection"@, "cookie"@,
        "sec-fetch-dest"@, "sec-fetch-mode"@, "sec-fetch-site"@, "sec-fetch-user"@, "sec-gpc"@,
        "origin"@
    ]
}

/// Whether a header is left out when a request is replayed.
pub open spec fn is_excluded(name: Seq<char>) -> bool {
    excluded_headers().contains(text::lower(name))
}

fn excluded(name: &str) -> (r: bool)
    ensures
        r == is_excluded(name@),
{
    let list: Vec<&str> = vec![
        "accept-encoding", "host", "content-length", "connection", "cookie",
        "sec-fetch-dest", "sec-fetch-mode", "sec-fetch-site", "sec-fetch-user", "sec-gpc",
        "origin"
    ];
    assert(text::str_texts(list@) =~= excluded_headers());
    let low = to_lower(chars_of(name).as_slice());
    one_of(low.as_slice(), &list)
}

/// A header line as a pair of texts.
pub open spec fn pair_view(p: (String, String)) -> (Seq<char>, Seq<char>) {
    (p.0@, p.1@)
}

/// Header lines as pairs of texts.
pub open spec fn pairs_view(p: Seq<(String, String)>) -> Seq<(Seq<char>, Seq<char>)> {
    p.map_values(|q: (String, String)| pair_view(q))
}

/// The headers that are sent again, in their order.
pub open spec fn replayed(p: Seq<(Seq<char>, Seq<char>)>) -> Seq<(Seq<char>, Seq<char>)>
    decreases p.len(),
{
    if p.len() == 0 {
        p
    } else {
        let rest = replayed(p.drop_last());
        if is_excluded(p.last().0) {
            rest
        } else {
            rest.push(p.last())
        }
    }
}

/// The headers of a request: those that are sent again, and the cookies, which go
/// out once.
pub open spec fn sent_headers(
    headers: Seq<(Seq<char>, Seq<char>)>,
    cookies: Option<Seq<char>>,
) -> Seq<(Seq<char>, Seq<char>)> {
    match cookies {
        Some(c) => replayed(headers).push(("Cookie"@, c)),
        None => replayed(headers),
    }
}

fn replayed_pairs(headers: &StrMap<String>) -> (r: Vec<(String, String)>)
    ensures
        pairs_view(r@) == replayed(pairs_view(headers.list())),
{
    let ghost all = pairs_view(headers.list());
    let mut out: Vec<(String, String)> = Vec::new();
    let n: usize = headers.len();
    let mut i: usize = 0;
    assert(all.take(0) =~= Seq::empty());
    while i < n
        invariant
            i <= n,
            n == headers.list().len(),
            all == pairs_view(headers.list()),
            pairs_view(out@) == replayed(all.take(i as int)),
        decreases n - i,
    {
        let ghost rest = pairs_view(out@);
        proof {
            let next = all.take(i + 1);
            assert(next.drop_last() =~= all.take(i as int));
            assert(next.last() == pair_view(headers.list()[i as int]));
        }
        if !excluded(headers.key_at(i).as_str()) {
            let line = (headers.key_at(i).clone(), headers.value_at(i).clone());
            let ghost shown = pair_view(line);
            out.push(line);
            assert(pairs_view(out@) =~= rest.push(shown));
        }
        i += 1;
    }
    assert(all.take(n as int) =~= all);
    out
}

/// The headers that a request sends.
pub fn apply_headers(opts: &RequestOptions) -> (r: Vec<(String, String)>)
    ensures
        pairs_view(r@) == sent_headers(pairs_view(opts.headers.list()), text::opt(opts.cookies)),
{
    let mut out = replayed_pairs(&opts.headers);
    match &opts.cookies {
        Some(c) => {
            let ghost rest = pairs_view(out@);
            let line = ("Cookie".to_string(), c.clone());
            let ghost shown = pair_view(line);
            out.push(line);
            assert(pairs_view(out@) =~= rest.push(shown));
        },
        None => {},
    }
    out
}

/// The value of a range header: first and last byte, the first one alone for an
/// empty range.
pub open spec fn range_text(offset: u64, length: u64) -> Seq<char> {
    let last = offset + (if length > 0 {
        length - 1
    } else {
        0
    });
    "bytes="@ + number::dec(offset as nat) + "-"@ + number::dec(last as nat)
}

/// Writes the value of a range header.
pub fn range_header(offset: u64, length: u64) -> (r: String)
    requires
        offset + length <= u64::MAX + 1,
    ensures
        r@ == range_text(offset, length),
{
    let last: u64 = if length > 0 {
        offset + (length - 1)
    } else {
        offset
    };
    let a = cat3("bytes=", dec_string(offset).as_str(), "-");
    cat2(a.as_str(), dec_string(last).as_str())
}

/// Whether a text is a name up to the case of its letters.
pub open spec fn is_named(s: Seq<char>, name: Seq<char>) -> bool {
    text::lower(s) == text::lower(name)
}

/// Whether a name of a list is the given one up to case.
pub open spec fn has_name(names: Seq<Seq<char>>, name: Seq<char>) -> bool {
    exists|i: int| 0 <= i < names.len() && is_named(#[trigger] names[i], name)
}

/// The names of the headers of a request, in order.
pub open spec fn sent_names(
    headers: Seq<(Seq<char>, Seq<char>)>,
    with_cookies: bool,
) -> Seq<Seq<char>> {
    let names = replayed(headers).map_values(|p: (Seq<char>, Seq<char>)| p.0);
    sorting::sorted(
        if with_cookies && !has_name(names, "cookie"@) {
            names.push("Cookie"@)
        } else {
            names
        },
    )
}

/// What a failed request tells of the headers that were sent: their names, never
/// their values.
pub open spec fn sent_headers_text(
    headers: Seq<(Seq<char>, Seq<char>)>,
    with_cookies: bool,
) -> Seq<char> {
    let names = sent_names(headers, with_cookies);
    let listed = text::join(names, ", "@);
    if has_name(names, "referer"@) || has_name(names, "cookie"@) {
        "sent headers: "@ + listed
    } else {
        "sent headers: "@ + (if names.len() == 0 {
            "none captured"@
        } else {
            listed
        })
            + " (no Referer/Cookie were captured for this download; a Chrome-emulation default User-Agent still applies)"@
    }
}

fn any_named(names: &Vec<String>, name: &str) -> (r: bool)
    ensures
        r == has_name(text::texts(names@), name@),
{
    let ghost all = text::texts(names@);
    let mut i: usize = 0;
    while i < names.len()
        invariant
            i <= names.len(),
            all == text::texts(names@),
            forall|j: int| 0 <= j < i ==> !is_named(#[trigger] all[j], name@),
        decreases names.len() - i,
    {
        assert(all[i as int] == names@[i as int]@);
        if same_ignoring_case(chars_of(names[i].as_str()).as_slice(), name) {
            return true;
        }
        i += 1;
    }
    false
}

/// Tells which headers a request sent, by name.
pub fn describe_sent_headers(opts: &RequestOptions) -> (r: String)
    ensures
        r@ == sent_headers_text(pairs_view(opts.headers.list()), opts.cookies is Some),
{
    let lines = replayed_pairs(&opts.headers);
    let ghost all = replayed(pairs_view(opts.headers.list()));
    let ghost names_all = all.map_values(|p: (Seq<char>, Seq<char>)| p.0);
    let mut names: Vec<String> = Vec::new();
    let mut i: usize = 0;
    while i < lines.len()
        invariant
            i <= lines.len(),
            all == pairs_view(lines@),
            names_all == all.map_values(|p: (Seq<char>, Seq<char>)| p.0),
            text::texts(names@) == names_all.take(i as int),
        decreases lines.len() - i,
    {
        let ghost rest = text::texts(names@);
        names.push(lines[i].0.clone());
        assert(all[i as int] == pair_view(lines@[i as int]));
        assert(text::texts(names@) =~= rest.push(lines@[i as int].0@));
        i += 1;
        assert(text::texts(names@) =~= names_all.take(i as int));
    }
    assert(text::texts(names@) =~= names_all);
    if opts.cookies.is_some() && !any_named(&names, "cookie") {
        let ghost rest = text::texts(names@);
        names.push("Cookie".to_string());
        assert(text::texts(names@) =~= rest.push("Cookie"@));
    }
    let names = sort_strings(&names);
    let listed = join_strings(&names, ", ");
    if any_named(&names, "referer") || any_named(&names, "cookie") {
        cat2("sent headers: ", listed.as_str())
    } else {
        let shown = if names.len() == 0 {
            "none captured".to_string()
        } else {
            listed
        };
        cat3(
            "sent headers: ",
            shown.as_str(),
            " (no Referer/Cookie were captured for this download; a Chrome-emulation default User-Agent still applies)",
        )
    }
}

proof fn lemma_replayed_names(list: Seq<(String, String)>)
    requires
        strmap::distinct_keys(list),
    ensures
        ({
            let names = replayed(pairs_view(list)).map_values(|p: (Seq<char>, Seq<char>)| p.0);
            &&& names.no_duplicates()
            &&& forall|n: Seq<char>| #[trigger]
                names.contains(n) == (strmap::has_key(list, n) && !is_excluded(n))
        }),
    decreases list.len(),
{
    let name = |p: (Seq<char>, Seq<char>)| p.0;
    let names = replayed(pairs_view(list)).map_values(name);
    if list.len() > 0 {
        let d = list.drop_last();
        let rest = replayed(pairs_view(d)).map_values(name);
        assert forall|i: int, j: int| 0 <= i < j < d.len() implies (#[trigger] d[i]).0@ != (
        #[trigger] d[j]).0@ by {
            assert(list[i].0@ != list[j].0@);
        }
        lemma_replayed_names(d);
        let last = list.last().0@;
        assert(pairs_view(list).drop_last() =~= pairs_view(d));
        assert(pairs_view(list).last() == pair_view(list.last()));
        assert(!strmap::has_key(d, last)) by {
            assert forall|i: int| 0 <= i < d.len() implies (#[trigger] d[i]).0@ != last by {
                assert(list[i].0@ != list[list.len() - 1].0@);
            }
        }
        assert(names =~= if is_excluded(last) {
            rest
        } else {
            rest.push(last)
        });
        assert(!rest.contains(last));
        assert forall|n: Seq<char>| strmap::has_key(list, n) == (strmap::has_key(d, n) || n
            == last) by {
            if strmap::has_key(d, n) {
                let i = choose|i: int| 0 <= i < d.len() && (#[trigger] d[i]).0@ == n;
                assert(list[i].0@ == n);
            }
            if n == last {
                assert(list[list.len() - 1].0@ == n);
            }
            if strmap::has_key(list, n) && n != last {
                let i = choose|i: int| 0 <= i < list.len() && (#[trigger] list[i]).0@ == n;
                assert(d[i].0@ == n);
            }
        }
        assert forall|n: Seq<char>| #[trigger]
            names.contains(n) == (strmap::has_key(list, n) && !is_excluded(n)) by {
            assert(rest.contains(n) == (strmap::has_key(d, n) && !is_excluded(n)));
            if rest.contains(n) {
                let i = rest.index_of(n);
                assert(names[i] == n);
            }
            if n == last && !is_excluded(n) {
                assert(names[rest.len() as int] == n);
            }
            if names.contains(n) {
                let i = names.index_of(n);
                if i < rest.len() {
                    assert(rest[i] == n);
                }
            }
        }
        assert forall|i: int, j: int|
            0 <= i < names.len() && 0 <= j < names.len() && i != j implies names[i] != names[j] by {
            if i < rest.len() && j < rest.len() {
                assert(rest[i] != rest[j]);
            } else if i < rest.len() {
                assert(rest.contains(rest[i]));
            } else {
                assert(rest.contains(rest[j]));
            }
        }
    } else {
        assert(pairs_view(list) =~= Seq::empty());
        assert(names =~= Seq::empty());
    }
}

proof fn lemma_has_name(a: Seq<Seq<char>>, b: Seq<Seq<char>>, name: Seq<char>)
    requires
        forall|n: Seq<char>| a.contains(n) ==> b.contains(n),
        has_name(a, name),
    ensures
        has_name(b, name),
{
    let i = choose|i: int| 0 <= i < a.len() && is_named(#[trigger] a[i], name);
    assert(a.contains(a[i]));
    let j = b.index_of(a[i]);
    assert(is_named(b[j], name));
}

/// What is told of the headers of a request depends on their names and on whether it has
/// cookies: no value of a header, no cookie and no range has a part in it.
pub proof fn no_value_is_told(a: RequestOptions, b: RequestOptions)
    requires
        strmap::distinct_keys(a.headers.list()),
        strmap::distinct_keys(b.headers.list()),
        forall|k: Seq<char>| #[trigger]
            strmap::has_key(a.headers.list(), k) == strmap::has_key(b.headers.list(), k),
        a.cookies is Some == b.cookies is Some,
    ensures
        sent_headers_text(pairs_view(a.headers.list()), a.cookies is Some) == sent_headers_text(
            pairs_view(b.headers.list()),
            b.cookies is Some,
        ),
{
    let name = |p: (Seq<char>, Seq<char>)| p.0;
    let x = replayed(pairs_view(a.headers.list())).map_values(name);
    let y = replayed(pairs_view(b.headers.list())).map_values(name);
    lemma_replayed_names(a.headers.list());
    lemma_replayed_names(b.headers.list());
    assert forall|n: Seq<char>| x.contains(n) == y.contains(n) by {
        assert(strmap::has_key(a.headers.list(), n) == strmap::has_key(b.headers.list(), n));
    }
    assert(has_name(x, "cookie"@) == has_name(y, "cookie"@)) by {
        if has_name(x, "cookie"@) {
            lemma_has_name(x, y, "cookie"@);
        }
        if has_name(y, "cookie"@) {
            lemma_has_name(y, x, "cookie"@);
        }
    }
    x.to_multiset_ensures();
    y.to_multiset_ensures();
    x.lemma_multiset_has_no_duplicates();
    y.lemma_multiset_has_no_duplicates();
    assert(x.to_multiset() =~= y.to_multiset()) by {
        assert forall|n: Seq<char>| x.to_multiset().count(n) == y.to_multiset().count(n) by {
            assert(x.contains(n) == y.contains(n));
        }
    }
    sorting::sorting_forgets_the_order(x, y);
    sorting::sorting_forgets_the_order(x.push("Cookie"@), y.push("Cookie"@));
}

proof fn lemma_replayed(p: Seq<(Seq<char>, Seq<char>)>)
    ensures
        forall|i: int| 0 <= i < replayed(p).len() ==> !is_excluded((#[trigger] replayed(p)[i]).0),
        forall|i: int| 0 <= i < replayed(p).len() ==> p.contains(#[trigger] replayed(p)[i]),
        forall|i: int|
            0 <= i < p.len() && !is_excluded((#[trigger] p[i]).0) ==> replayed(p).contains(p[i]),
    decreases p.len(),
{
    if p.len() > 0 {
        let q = p.drop_last();
        lemma_replayed(q);
        let r = replayed(p);
        let s = replayed(q);
        assert forall|i: int| 0 <= i < r.len() implies !is_excluded((#[trigger] r[i]).0)
            && p.contains(r[i]) by {
            if i < s.len() {
                assert(r[i] == s[i]);
                assert(q.contains(s[i]));
                let k = choose|k: int| 0 <= k < q.len() && q[k] == s[i];
                assert(p[k] == s[i]);
            } else {
                assert(r[i] == p.last());
                assert(p[p.len() - 1] == p.last());
            }
        }
        assert forall|i: int| 0 <= i < p.len() && !is_excluded((#[trigger] p[i]).0) implies r.contains(
            p[i],
        ) by {
            if i < q.len() {
                assert(q[i] == p[i]);
                assert(s.contains(q[i]));
                let k = choose|k: int| 0 <= k < s.len() && s[k] == q[i];
                assert(r[k] == s[k]);
            } else {
                assert(r[r.len() - 1] == p.last());
            }
        }
    }
}

/// A request replays exactly the captured headers that are not excluded, and adds
/// the cookies once, which no captured header brings.
pub proof fn requests_replay_what_they_may(
    headers: Seq<(Seq<char>, Seq<char>)>,
    cookies: Option<Seq<char>>,
    line: (Seq<char>, Seq<char>),
)
    ensures
        !is_named(line.0, "cookie"@) ==> (sent_headers(headers, cookies).contains(line) <==> (
        headers.contains(line) && !is_excluded(line.0))),
        is_named(line.0, "cookie"@) ==> (sent_headers(headers, cookies).contains(line) <==> (
        cookies is Some && line == ("Cookie"@, cookies->0))),
{
    let all = sent_headers(headers, cookies);
    let kept = replayed(headers);
    lemma_replayed(headers);
    reveal_strlit("cookie");
    reveal_strlit("Cookie");
    assert(text::lower("Cookie"@) =~= "cookie"@);
    assert(text::lower("cookie"@) =~= "cookie"@);
    assert(excluded_headers()[4] == "cookie"@);
    if is_named(line.0, "cookie"@) {
        assert(is_excluded(line.0));
    }
    if all.contains(line) {
        let i = choose|i: int| 0 <= i < all.len() && all[i] == line;
        if i < kept.len() {
            assert(all[i] == kept[i]);
        }
    }
    if headers.contains(line) && !is_excluded(line.0) {
        let i = choose|i: int| 0 <= i < headers.len() && headers[i] == line;
        assert(kept.contains(headers[i]));
        let k = choose|k: int| 0 <= k < kept.len() && kept[k] == line;
        assert(all[k] == line);
    }
    if cookies is Some {
        assert(all[all.len() - 1] == ("Cookie"@, cookies->0));
    }
}

} // verus!

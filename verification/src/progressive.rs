//! Downloads in several pieces at once: how a file is divided, which piece is
//! fetched next, and what is left of it.

use vstd::prelude::*;

use crate::number;
use crate::number::{dec_string, dec_u64};
use crate::text::{cat2, cat3, push_chars, push_str, str_eq, string_of};

verus! {

/// A contiguous range of the file and how much of it has been written.
#[derive(Clone, Copy, Debug, PartialEq, Eq, Structural)]
pub struct Piece {
    pub offset: u64,
    pub length: u64,
    pub downloaded: u64,
}

impl Piece {
    pub open spec fn finished(self) -> bool {
        self.downloaded >= self.length
    }

    pub fn is_finished(&self) -> (r: bool)
        ensures
            r == self.finished(),
    {
        self.downloaded >= self.length
    }
}

/// What is kept on disk of a download in pieces.
#[derive(Debug)]
pub struct DownloadState {
    pub url: String,
    pub total_size: u64,
    pub pieces: Vec<Piece>,
}

/// The file beside a destination that holds the state of its download.
pub fn state_path(dest: &str) -> (r: String)
    ensures
        r@ == dest@ + ".tidm-state.json"@,
{
    cat2(dest, ".tidm-state.json")
}

// ---------------------------------------------------------------------------
// Dividing
// ---------------------------------------------------------------------------

/// A file of `total` bytes in `count` pieces of one length, the last of which also
/// takes what is left over. A file with fewer bytes than pieces is one piece, an
/// empty one none.
pub open spec fn pieces_of(total: nat, count: nat) -> Seq<Piece>
    recommends
        count > 0,
{
    let base = total / count;
    if total == 0 {
        Seq::empty()
    } else if base == 0 {
        seq![Piece { offset: 0, length: total as u64, downloaded: 0 }]
    } else {
        Seq::new(
            count,
            |i: int|
                Piece {
                    offset: (i * base) as u64,
                    length: if i == count - 1 {
                        (total - (count - 1) * base) as u64
                    } else {
                        base as u64
                    },
                    downloaded: 0,
                },
        )
    }
}

/// Divides a file into pieces.
pub fn split_into_pieces(total_size: u64, count: u64) -> (r: Vec<Piece>)
    requires
        count > 0,
    ensures
        r@ == pieces_of(total_size as nat, count as nat),
{
    let base: u64 = total_size / count;
    let mut pieces: Vec<Piece> = Vec::new();
    if total_size == 0 {
        return pieces;
    }
    if base == 0 {
        pieces.push(Piece { offset: 0, length: total_size, downloaded: 0 });
        assert(pieces@ =~= pieces_of(total_size as nat, count as nat));
        return pieces;
    }
    proof {
        vstd::arithmetic::div_mod::lemma_fundamental_div_mod(total_size as int, count as int);
        assert(count * base <= total_size);
    }
    let mut offset: u64 = 0;
    let mut i: u64 = 0;
    let ghost want = pieces_of(total_size as nat, count as nat);
    assert(0 * base == 0) by (nonlinear_arith);
    while i < count
        invariant
            0 <= i <= count,
            base == total_size / count,
            base > 0,
            count * base <= total_size,
            want == pieces_of(total_size as nat, count as nat),
            want.len() == count,
            i < count ==> offset == i * base,
            pieces@ == want.take(i as int),
        decreases count - i,
    {
        proof {
            assert((i + 1) * base == i * base + base) by (nonlinear_arith);
            assert((i + 1) * base <= count * base) by (nonlinear_arith)
                requires
                    i + 1 <= count,
                    base > 0,
            ;
            assert(i == count - 1 ==> i * base == (count - 1) * base) by (nonlinear_arith);
        }
        let length: u64 = if i == count - 1 {
            total_size - offset
        } else {
            base
        };
        pieces.push(Piece { offset, length, downloaded: 0 });
        proof {
            assert(want[i as int] == pieces@[i as int]);
            assert(want.take(i + 1) =~= want.take(i as int).push(pieces@[i as int]));
        }
        if i + 1 < count {
            offset = offset + length;
        }
        i += 1;
    }
    assert(want.take(i as int) =~= want);
    pieces
}

/// The pieces cover the file from its first byte to its last without gap or
/// overlap: the first begins at 0, each begins where the one before it ends, the
/// last ends at the end of the file, and none is empty.
pub proof fn pieces_cover_the_file(total: u64, count: u64)
    requires
        count > 0,
    ensures
        total == 0 ==> pieces_of(total as nat, count as nat).len() == 0,
        total > 0 ==> {
            let p = pieces_of(total as nat, count as nat);
            &&& 1 <= p.len() <= count
            &&& p[0].offset == 0
            &&& p.last().offset + p.last().length == total
            &&& forall|i: int|
                0 <= i < p.len() - 1 ==> (#[trigger] p[i]).offset + p[i].length == p[i + 1].offset
            &&& forall|i: int|
                0 <= i < p.len() ==> (#[trigger] p[i]).length > 0 && p[i].downloaded == 0
        },
{
    let p = pieces_of(total as nat, count as nat);
    let base = total as int / count as int;
    vstd::arithmetic::div_mod::lemma_fundamental_div_mod(total as int, count as int);
    if total > 0 && base > 0 {
        assert(0 * base == 0) by (nonlinear_arith);
        assert((count - 1) * base == count * base - base) by (nonlinear_arith);
        assert(0 <= (count - 1) * base) by (nonlinear_arith)
            requires
                count >= 1,
                base > 0,
        ;
        assert forall|i: int| 0 <= i < p.len() implies (#[trigger] p[i]).length > 0
            && p[i].downloaded == 0 && p[i].offset == i * base by {
            assert(0 <= i * base <= (count - 1) * base) by (nonlinear_arith)
                requires
                    0 <= i <= count - 1,
                    base > 0,
            ;
        }
        assert forall|i: int| 0 <= i < p.len() - 1 implies (#[trigger] p[i]).offset + p[i].length
            == p[i + 1].offset by {
            assert((i + 1) * base == i * base + base) by (nonlinear_arith);
            assert(p[i].offset == i * base);
            assert(p[i + 1].offset == (i + 1) * base);
        }
        assert(p.last() == p[count - 1]);
    }
}

// ---------------------------------------------------------------------------
// Choosing
// ---------------------------------------------------------------------------

/// Whether piece `i` is neither finished nor being fetched.
pub open spec fn claimable(pieces: Seq<Piece>, claimed: Seq<bool>, i: int) -> bool {
    0 <= i < pieces.len() && !pieces[i].finished() && !claimed[i]
}

/// The first piece that is neither finished nor being fetched.
pub fn find_next_claimable_piece(pieces: &[Piece], claimed: &[bool]) -> (r: Option<usize>)
    requires
        forall|i: int|
            claimed@.len() <= i < pieces@.len() ==> (#[trigger] pieces@[i]).finished() || exists|
                j: int,
            |
                0 <= j < claimed@.len() && #[trigger] claimable(pieces@, claimed@, j),
    ensures
        match r {
            Some(i) => claimable(pieces@, claimed@, i as int) && i < claimed@.len() && forall|
                j: int,
            |
                0 <= j < i ==> !#[trigger] claimable(pieces@, claimed@, j),
            None => forall|j: int|
                0 <= j < claimed@.len() ==> !#[trigger] claimable(pieces@, claimed@, j),
        },
{
    let mut i: usize = 0;
    while i < pieces.len()
        invariant
            i <= pieces.len(),
            forall|i: int|
                claimed@.len() <= i < pieces@.len() ==> (#[trigger] pieces@[i]).finished()
                    || exists|j: int|
                    0 <= j < claimed@.len() && #[trigger] claimable(pieces@, claimed@, j),
            forall|j: int|
                0 <= j < i && j < claimed@.len() ==> !#[trigger] claimable(pieces@, claimed@, j),
        decreases pieces.len() - i,
    {
        if !pieces[i].is_finished() {
            if i >= claimed.len() {
                assert(pieces@[i as int].finished() || exists|j: int|
                    0 <= j < claimed@.len() && #[trigger] claimable(pieces@, claimed@, j));
                return None;
            }
            if !claimed[i] {
                assert(claimable(pieces@, claimed@, i as int));
                return Some(i);
            }
        }
        i += 1;
    }
    assert forall|j: int| 0 <= j < claimed@.len() implies !#[trigger] claimable(
        pieces@,
        claimed@,
        j,
    ) by {
        if j >= pieces@.len() {
        }
    }
    None
}

// ---------------------------------------------------------------------------
// A download under way
// ---------------------------------------------------------------------------

/// What a probe of the server leads to.
#[derive(Debug)]
pub enum DownloadPlan {
    /// Ranges can be asked for: the file is fetched in these pieces.
    Pieces(DownloadState),
    /// The file is fetched in one stream.
    SingleStream,
}

/// Whether a server's answer allows pieces: it takes ranges and says how long the
/// file is, and the file is not empty.
pub open spec fn divisible(accept_ranges: bool, content_length: Option<u64>) -> bool {
    accept_ranges && (content_length matches Some(n) && n > 0)
}

/// Plans a new download with up to `concurrency` pieces, at least one.
pub fn plan_download(
    url: &str,
    accept_ranges: bool,
    content_length: Option<u64>,
    concurrency: usize,
) -> (r: DownloadPlan)
    ensures
        r is Pieces <==> divisible(accept_ranges, content_length),
        r matches DownloadPlan::Pieces(s) ==> {
            &&& s.url@ == url@
            &&& s.total_size == content_length->0
            &&& s.pieces@ == pieces_of(
                content_length->0 as nat,
                if concurrency > 0 {
                    concurrency as nat
                } else {
                    1
                },
            )
        },
{
    match content_length {
        Some(total_size) if accept_ranges && total_size > 0 => {
            let count: u64 = if concurrency > 0 {
                concurrency as u64
            } else {
                1
            };
            DownloadPlan::Pieces(
                DownloadState {
                    url: url.to_string(),
                    total_size,
                    pieces: split_into_pieces(total_size, count),
                },
            )
        },
        _ => DownloadPlan::SingleStream,
    }
}

/// The state that was found on disk, where it is of the same URL.
pub fn resumable(found: Option<DownloadState>, url: &str) -> (r: Option<DownloadState>)
    ensures
        r == (match found {
            Some(s) if s.url@ == url@ => Some(s),
            _ => None,
        }),
{
    match found {
        Some(s) => if str_eq(s.url.as_str(), url) {
            Some(s)
        } else {
            None
        },
        None => None,
    }
}

/// A download whose pieces are being fetched by several workers.
#[derive(Debug)]
pub struct Transfer {
    pub state: DownloadState,
    /// The pieces that a worker has taken on.
    pub claimed: Vec<bool>,
}

/// The sum of the bytes that have been written of the pieces.
pub open spec fn written_bytes(p: Seq<Piece>) -> nat
    decreases p.len(),
{
    if p.len() == 0 {
        0
    } else {
        written_bytes(p.drop_last()) + p.last().downloaded as nat
    }
}

/// How many of the pieces are not finished.
pub open spec fn unfinished_count(p: Seq<Piece>) -> nat
    decreases p.len(),
{
    if p.len() == 0 {
        0
    } else {
        unfinished_count(p.drop_last()) + if p.last().finished() {
            0nat
        } else {
            1nat
        }
    }
}

impl Transfer {
    /// Every piece has its mark, and ends within 64 bits.
    pub open spec fn valid(&self) -> bool {
        &&& self.claimed@.len() == self.state.pieces@.len()
        &&& forall|i: int|
            0 <= i < self.state.pieces@.len() ==> (#[trigger] self.state.pieces@[i]).offset
                + self.state.pieces@[i].length <= u64::MAX
    }

    /// Whether a state can be gone on with.
    pub fn can_start(state: &DownloadState) -> (r: bool)
        ensures
            r == forall|i: int|
                0 <= i < state.pieces@.len() ==> (#[trigger] state.pieces@[i]).offset
                    + state.pieces@[i].length <= u64::MAX,
    {
        let mut i: usize = 0;
        while i < state.pieces.len()
            invariant
                i <= state.pieces.len(),
                forall|j: int|
                    0 <= j < i ==> (#[trigger] state.pieces@[j]).offset + state.pieces@[j].length
                        <= u64::MAX,
            decreases state.pieces.len() - i,
        {
            let p = state.pieces[i];
            if p.length > u64::MAX - p.offset {
                assert(state.pieces@[i as int].offset + state.pieces@[i as int].length > u64::MAX);
                return false;
            }
            i += 1;
        }
        true
    }

    /// Begins, or goes on with, a download: no piece is taken on yet.
    pub fn start(state: DownloadState) -> (r: Self)
        requires
            forall|i: int|
                0 <= i < state.pieces@.len() ==> (#[trigger] state.pieces@[i]).offset
                    + state.pieces@[i].length <= u64::MAX,
        ensures
            r.valid(),
            r.state == state,
            forall|i: int| 0 <= i < r.claimed@.len() ==> !#[trigger] r.claimed@[i],
    {
        let mut claimed: Vec<bool> = Vec::new();
        let n: usize = state.pieces.len();
        while claimed.len() < n
            invariant
                claimed@.len() <= n,
                forall|i: int| 0 <= i < claimed@.len() ==> !#[trigger] claimed@[i],
            decreases n - claimed@.len(),
        {
            claimed.push(false);
        }
        Transfer { state, claimed }
    }

    /// Takes on the first piece that is neither finished nor taken on.
    pub fn claim(&mut self) -> (r: Option<usize>)
        requires
            old(self).valid(),
        ensures
            final(self).valid(),
            final(self).state == old(self).state,
            match r {
                Some(i) => {
                    &&& claimable(old(self).state.pieces@, old(self).claimed@, i as int)
                    &&& forall|j: int|
                        0 <= j < i ==> !#[trigger] claimable(
                            old(self).state.pieces@,
                            old(self).claimed@,
                            j,
                        )
                    &&& final(self).claimed@ == old(self).claimed@.update(i as int, true)
                },
                None => {
                    &&& final(self).claimed@ == old(self).claimed@
                    &&& forall|j: int|
                        !#[trigger] claimable(old(self).state.pieces@, old(self).claimed@, j)
                },
            },
    {
        let found = find_next_claimable_piece(self.state.pieces.as_slice(), self.claimed.as_slice());
        match found {
            Some(i) => {
                self.claimed.set(i, true);
            },
            None => {},
        }
        found
    }

    /// The range of a piece that is still to be fetched, as offset and length; none
    /// where the piece is finished.
    pub fn remaining(&self, i: usize) -> (r: Option<(u64, u64)>)
        requires
            self.valid(),
            i < self.state.pieces@.len(),
        ensures
            r == (if self.state.pieces@[i as int].finished() {
                None
            } else {
                let p = self.state.pieces@[i as int];
                Some(((p.offset + p.downloaded) as u64, (p.length - p.downloaded) as u64))
            }),
    {
        let p = self.state.pieces[i];
        if p.downloaded >= p.length {
            None
        } else {
            Some((p.offset + p.downloaded, p.length - p.downloaded))
        }
    }

    /// Notes that `n` more bytes of a piece have been written.
    pub fn received(&mut self, i: usize, n: u64)
        requires
            old(self).valid(),
            i < old(self).state.pieces@.len(),
            old(self).state.pieces@[i as int].downloaded + n <= u64::MAX,
        ensures
            final(self).valid(),
            final(self).claimed@ == old(self).claimed@,
            final(self).state.url == old(self).state.url,
            final(self).state.total_size == old(self).state.total_size,
            final(self).state.pieces@ == old(self).state.pieces@.update(
                i as int,
                Piece {
                    downloaded: (old(self).state.pieces@[i as int].downloaded + n) as u64,
                    ..old(self).state.pieces@[i as int]
                },
            ),
    {
        let p = self.state.pieces[i];
        let q = Piece { offset: p.offset, length: p.length, downloaded: p.downloaded + n };
        self.state.pieces.set(i, q);
        assert forall|j: int| 0 <= j < self.state.pieces@.len() implies (
        #[trigger] self.state.pieces@[j]).offset + self.state.pieces@[j].length <= u64::MAX by {
            assert(old(self).state.pieces@[j].offset + old(self).state.pieces@[j].length
                <= u64::MAX);
        }
    }

    /// How many bytes have been written in all.
    pub fn downloaded(&self) -> (r: u64)
        requires
            written_bytes(self.state.pieces@) <= u64::MAX,
        ensures
            r == written_bytes(self.state.pieces@),
    {
        let ghost p = self.state.pieces@;
        let mut sum: u64 = 0;
        let mut i: usize = 0;
        assert(p.take(0) =~= Seq::empty());
        while i < self.state.pieces.len()
            invariant
                i <= self.state.pieces.len(),
                p == self.state.pieces@,
                written_bytes(p) <= u64::MAX,
                sum == written_bytes(p.take(i as int)),
            decreases self.state.pieces.len() - i,
        {
            proof {
                assert(p.take(i + 1).drop_last() =~= p.take(i as int));
                lemma_written_grows(p, i + 1);
            }
            sum = sum + self.state.pieces[i].downloaded;
            i += 1;
        }
        assert(p.take(i as int) =~= p);
        sum
    }

    /// How many pieces are not finished.
    pub fn unfinished(&self) -> (r: usize)
        ensures
            r == unfinished_count(self.state.pieces@),
    {
        let ghost p = self.state.pieces@;
        let mut n: usize = 0;
        let mut i: usize = 0;
        assert(p.take(0) =~= Seq::empty());
        while i < self.state.pieces.len()
            invariant
                i <= self.state.pieces.len(),
                n <= i,
                p == self.state.pieces@,
                n == unfinished_count(p.take(i as int)),
            decreases self.state.pieces.len() - i,
        {
            assert(p.take(i + 1).drop_last() =~= p.take(i as int));
            if !self.state.pieces[i].is_finished() {
                n += 1;
            }
            i += 1;
        }
        assert(p.take(i as int) =~= p);
        n
    }
}

/// How long a download may run between two saves of its state, in milliseconds.
pub const STATE_SAVE_INTERVAL_MS: u64 = 2_000;

/// Tells whether the state is saved again, so long after it was saved last.
pub fn should_save(elapsed_ms: u64) -> (r: bool)
    ensures
        r == (elapsed_ms >= STATE_SAVE_INTERVAL_MS),
{
    elapsed_ms >= STATE_SAVE_INTERVAL_MS
}

/// What is told of a download that has unfinished pieces once no worker is left.
pub open spec fn incomplete_message(unfinished: nat) -> Seq<char> {
    "download incomplete: "@ + number::dec(unfinished)
        + " piece(s) unfinished after all workers exited"@
}

impl Transfer {
    /// Concludes a download once no worker is left: it is complete, or the message tells
    /// what is missing.
    pub fn conclude(&self) -> (r: Result<(), String>)
        ensures
            match r {
                Ok(_) => unfinished_count(self.state.pieces@) == 0,
                Err(e) => unfinished_count(self.state.pieces@) > 0 && e@ == incomplete_message(
                    unfinished_count(self.state.pieces@),
                ),
            },
    {
        let n: usize = self.unfinished();
        if n == 0 {
            return Ok(());
        }
        Err(
            cat3(
                "download incomplete: ",
                dec_string(n as u64).as_str(),
                " piece(s) unfinished after all workers exited",
            ),
        )
    }
}

/// What was asked of a server for a piece, and how much of it came.
#[derive(Clone, Copy, Debug)]
pub struct PieceFetch {
    /// Which piece.
    pub index: usize,
    /// How many bytes were asked for.
    pub wanted: u64,
    pub came: u64,
}

/// What is told of a piece whose bytes end too soon.
pub open spec fn early_end_message(index: nat, came: nat, wanted: nat) -> Seq<char> {
    "piece "@ + number::dec(index) + " ended early: got "@ + number::dec(came) + " of "@
        + number::dec(wanted) + " expected bytes"@
}

impl PieceFetch {
    pub fn new(index: usize, wanted: u64) -> (r: Self)
        ensures
            r == (PieceFetch { index, wanted, came: 0 }),
    {
        PieceFetch { index, wanted, came: 0 }
    }

    /// Notes that bytes came; tells whether those that were asked for are all there, and
    /// no more are read.
    pub fn took(&mut self, n: u64) -> (r: bool)
        requires
            old(self).came + n <= u64::MAX,
        ensures
            *final(self) == (PieceFetch { came: (old(self).came + n) as u64, ..*old(self) }),
            r == (final(self).came >= final(self).wanted),
    {
        self.came = self.came + n;
        self.came >= self.wanted
    }

    /// Concludes once no more bytes come.
    pub fn ended(&self) -> (r: Result<(), String>)
        ensures
            match r {
                Ok(_) => self.came >= self.wanted,
                Err(e) => self.came < self.wanted && e@ == early_end_message(
                    self.index as nat,
                    self.came as nat,
                    self.wanted as nat,
                ),
            },
    {
        if self.came >= self.wanted {
            return Ok(());
        }
        let mut v: Vec<char> = Vec::new();
        push_str(&mut v, "piece ");
        push_chars(&mut v, dec_u64(self.index as u64).as_slice());
        push_str(&mut v, " ended early: got ");
        push_chars(&mut v, dec_u64(self.came).as_slice());
        push_str(&mut v, " of ");
        push_chars(&mut v, dec_u64(self.wanted).as_slice());
        push_str(&mut v, " expected bytes");
        assert(v@ =~= early_end_message(self.index as nat, self.came as nat, self.wanted as nat));
        Err(string_of(v.as_slice()))
    }
}

/// A piece whose range came completely is finished.
pub proof fn whole_ranges_finish_their_piece(p: Piece, came: nat)
    requires
        !p.finished(),
        came >= p.length - p.downloaded,
        p.downloaded + came <= u64::MAX,
    ensures
        (Piece { downloaded: (p.downloaded + came) as u64, ..p }).finished(),
{
}

proof fn lemma_written_grows(p: Seq<Piece>, n: int)
    requires
        0 <= n <= p.len(),
    ensures
        written_bytes(p.take(n)) <= written_bytes(p),
    decreases p.len() - n,
{
    if n < p.len() {
        assert(p.take(n + 1).drop_last() =~= p.take(n));
        lemma_written_grows(p, n + 1);
    } else {
        assert(p.take(n) =~= p);
    }
}

/// The marks after the first claimable piece `i` was taken on.
pub open spec fn after_claim(claimed: Seq<bool>, i: int) -> Seq<bool> {
    claimed.update(i, true)
}

/// No two workers take on one piece: a piece that was taken on is not claimable
/// any more, and no other piece becomes claimable by it.
pub proof fn claims_do_not_repeat(pieces: Seq<Piece>, claimed: Seq<bool>, i: int, j: int)
    requires
        claimed.len() == pieces.len(),
        claimable(pieces, claimed, i),
        claimable(pieces, after_claim(claimed, i), j),
    ensures
        j != i,
        claimable(pieces, claimed, j),
{
}

/// A file is complete when no piece is unfinished: then at least as many bytes
/// have been written as the file has.
pub proof fn nothing_unfinished_means_complete(total: u64, count: u64, p: Seq<Piece>)
    requires
        count > 0,
        p.len() == pieces_of(total as nat, count as nat).len(),
        forall|i: int|
            0 <= i < p.len() ==> (#[trigger] p[i]).length == pieces_of(total as nat, count as nat)[i].length,
        unfinished_count(p) == 0,
    ensures
        written_bytes(p) >= total,
{
    let q = pieces_of(total as nat, count as nat);
    pieces_cover_the_file(total, count);
    if total > 0 {
        lemma_written_covers(p, q, p.len() as int);
        assert(p.take(p.len() as int) =~= p);
    }
}

proof fn lemma_written_covers(p: Seq<Piece>, q: Seq<Piece>, n: int)
    requires
        0 <= n <= p.len(),
        p.len() == q.len(),
        q.len() > 0,
        q[0].offset == 0,
        forall|i: int| 0 <= i < p.len() ==> (#[trigger] p[i]).length == q[i].length,
        forall|i: int|
            0 <= i < q.len() - 1 ==> (#[trigger] q[i]).offset + q[i].length == q[i + 1].offset,
        unfinished_count(p) == 0,
    ensures
        unfinished_count(p.take(n)) == 0,
        n > 0 ==> written_bytes(p.take(n)) >= q[n - 1].offset + q[n - 1].length,
    decreases n,
{
    lemma_unfinished_prefix(p, n);
    if n > 0 {
        lemma_written_covers(p, q, n - 1);
        assert(p.take(n).drop_last() =~= p.take(n - 1));
        assert(p.take(n).last() == p[n - 1]);
        assert(p[n - 1].length == q[n - 1].length);
        if n > 1 {
            assert(q[n - 2].offset + q[n - 2].length == q[n - 2 + 1].offset);
        }
    }
}

proof fn lemma_unfinished_prefix(p: Seq<Piece>, n: int)
    requires
        0 <= n <= p.len(),
    ensures
        unfinished_count(p.take(n)) <= unfinished_count(p),
    decreases p.len() - n,
{
    if n < p.len() {
        assert(p.take(n + 1).drop_last() =~= p.take(n));
        lemma_unfinished_prefix(p, n + 1);
    } else {
        assert(p.take(n) =~= p);
    }
}

} // verus!

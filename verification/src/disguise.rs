//! Transport streams hidden behind the header of another file type.

use vstd::prelude::*;
use vstd::slice::slice_subrange;

verus! {

/// The byte that begins every packet of a transport stream.
pub const SYNC_BYTE: u8 = 0x47;

pub const PACKET_LEN: usize = 188;

/// How many bytes are searched for the beginning of a stream.
pub const SCAN_WINDOW: usize = 4096;

/// How many packets in a row make a stream.
pub const DEFAULT_STREAK: usize = 8;

/// How many bytes of a buffer of length `len` are searched.
pub open spec fn window(len: nat) -> nat {
    if len < SCAN_WINDOW {
        len
    } else {
        SCAN_WINDOW as nat
    }
}

/// Whether the position at which packet `k` of a stream at `offset` should begin
/// holds the sync byte.
pub open spec fn sync_at(buf: Seq<u8>, offset: int, k: int, packet: int) -> bool {
    0 <= offset + k * packet < buf.len() && buf[offset + k * packet] == SYNC_BYTE
}

/// Whether `streak` packets of length `packet` begin at `offset`: each position at
/// which one should begin holds the sync byte.
pub open spec fn stream_at(buf: Seq<u8>, offset: int, streak: int, packet: int) -> bool {
    &&& 0 <= offset < buf.len()
    &&& buf[offset] == SYNC_BYTE
    &&& forall|k: int| 0 <= k < streak ==> #[trigger] sync_at(buf, offset, k, packet)
}

/// Whether a stream begins at `offset` within the window: its packets fit in it.
pub open spec fn found_at(buf: Seq<u8>, offset: int, streak: int, packet: int) -> bool {
    offset + streak * packet <= window(buf.len()) && stream_at(buf, offset, streak, packet)
}

fn streak_at(buf: &[u8], offset: usize, need_streak: usize, packet_len: usize) -> (r: bool)
    requires
        offset < buf.len(),
        buf@[offset as int] == SYNC_BYTE,
    ensures
        r == stream_at(buf@, offset as int, need_streak as int, packet_len as int),
{
    let mut streak: usize = 0;
    let mut pos: usize = offset;
    assert(offset + 0 * packet_len == offset) by (nonlinear_arith);
    while streak < need_streak
        invariant
            streak <= need_streak,
            offset < buf.len(),
            pos == if offset + streak * packet_len < usize::MAX {
                offset + streak * packet_len
            } else {
                usize::MAX as int
            },
            buf@[offset as int] == SYNC_BYTE,
            forall|k: int|
                0 <= k < streak ==> #[trigger] sync_at(
                    buf@,
                    offset as int,
                    k,
                    packet_len as int,
                ),
        decreases need_streak - streak,
    {
        if pos >= buf.len() || buf[pos] != SYNC_BYTE {
            proof {
                assert(!sync_at(buf@, offset as int, streak as int, packet_len as int));
            }
            return false;
        }
        proof {
            assert((streak + 1) * packet_len == streak * packet_len + packet_len)
                by (nonlinear_arith);
            assert(sync_at(buf@, offset as int, streak as int, packet_len as int));
        }
        streak += 1;
        pos = pos.saturating_add(packet_len);
    }
    true
}

/// The first position, within the window, at which a stream of `need_streak`
/// packets of length `packet_len` begins.
pub fn find_hidden_ts_offset(buf: &[u8], need_streak: usize, packet_len: usize) -> (r: Option<usize>)
    requires
        need_streak * packet_len <= usize::MAX,
        need_streak * packet_len > 0 || buf.len() > SCAN_WINDOW || exists|i: int|
            0 <= i < buf@.len() && buf@[i] == SYNC_BYTE,
    ensures
        match r {
            Some(o) => found_at(buf@, o as int, need_streak as int, packet_len as int) && forall|
                j: int,
            |
                0 <= j < o ==> !found_at(buf@, j, need_streak as int, packet_len as int),
            None => forall|j: int| !found_at(buf@, j, need_streak as int, packet_len as int),
        },
{
    let cap: usize = if buf.len() < SCAN_WINDOW {
        buf.len()
    } else {
        SCAN_WINDOW
    };
    let size: usize = need_streak * packet_len;
    if cap < size {
        return None;
    }
    proof {
        assert(need_streak as int * packet_len as int == size);
    }
    let limit: usize = cap - size;
    let mut offset: usize = 0;
    while offset <= limit
        invariant
            offset <= limit + 1,
            limit == cap - size,
            cap <= SCAN_WINDOW,
            cap == window(buf@.len()),
            size == need_streak * packet_len,
            size <= cap,
            size > 0 || buf.len() > SCAN_WINDOW || exists|i: int|
                0 <= i < buf@.len() && buf@[i] == SYNC_BYTE,
            forall|j: int|
                0 <= j < offset ==> !found_at(buf@, j, need_streak as int, packet_len as int),
        decreases limit + 1 - offset,
    {
        if offset == buf.len() {
            proof {
                let i = choose|i: int| 0 <= i < buf@.len() && buf@[i] == SYNC_BYTE;
                assert(!found_at(buf@, i, need_streak as int, packet_len as int));
                assert(need_streak * packet_len == 0);
                assert forall|k: int| 0 <= k < need_streak implies #[trigger] sync_at(
                    buf@,
                    i,
                    k,
                    packet_len as int,
                ) by {
                    assert(k * packet_len == 0) by (nonlinear_arith)
                        requires
                            need_streak * packet_len == 0,
                            0 <= k < need_streak,
                    ;
                }
                assert(stream_at(buf@, i, need_streak as int, packet_len as int));
                assert(false);
            }
        }
        if buf[offset] == SYNC_BYTE && streak_at(buf, offset, need_streak, packet_len) {
            return Some(offset);
        }
        offset += 1;
    }
    None
}

/// [`find_hidden_ts_offset`] for eight packets of 188 bytes.
pub fn find_hidden_ts_offset_default(buf: &[u8]) -> (r: Option<usize>)
    ensures
        match r {
            Some(o) => found_at(buf@, o as int, 8, 188) && forall|j: int|
                0 <= j < o ==> !found_at(buf@, j, 8, 188),
            None => forall|j: int| !found_at(buf@, j, 8, 188),
        },
{
    find_hidden_ts_offset(buf, DEFAULT_STREAK, PACKET_LEN)
}

/// The stream hidden in a buffer from its beginning on; the whole buffer where
/// there is none.
pub fn extract_ts_payload(buf: &[u8]) -> (r: &[u8])
    ensures
        (exists|o: int|
            {
                &&& found_at(buf@, o, 8, 188)
                &&& forall|j: int| 0 <= j < o ==> !found_at(buf@, j, 8, 188)
                &&& r@ == buf@.skip(o)
            }) || (r@ == buf@ && forall|j: int| !found_at(buf@, j, 8, 188)),
{
    match find_hidden_ts_offset_default(buf) {
        Some(offset) => {
            let r = slice_subrange(buf, offset, buf.len());
            assert(r@ == buf@.skip(offset as int));
            r
        },
        None => buf,
    }
}

/// A stream is found behind any header in which no stream begins and which leaves its
/// packets in the window, and what is extracted is the stream.
pub proof fn streams_are_found_behind_headers(header: Seq<u8>, stream: Seq<u8>)
    requires
        forall|i: int| 0 <= i < header.len() ==> !stream_at(header + stream, i, 8, 188),
        header.len() + 8 * 188 <= SCAN_WINDOW,
        found_at(stream, 0, 8, 188),
    ensures
        found_at(header + stream, header.len() as int, 8, 188),
        forall|j: int| 0 <= j < header.len() ==> !found_at(header + stream, j, 8, 188),
        (header + stream).skip(header.len() as int) == stream,
{
    let buf = header + stream;
    let n = header.len() as int;
    assert(stream_at(buf, n, 8, 188)) by {
        assert forall|k: int| 0 <= k < 8 implies #[trigger] sync_at(buf, n, k, 188) by {
            assert(sync_at(stream, 0, k, 188));
        }
        assert(stream[0] == SYNC_BYTE);
    }
    assert(buf.skip(n) =~= stream);
}

} // verus!

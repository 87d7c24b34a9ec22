//! The frames of native messaging: four bytes of length, lowest first, and that
//! many bytes of message.

use vstd::prelude::*;
use vstd::slice::slice_subrange;

verus! {

/// Longer messages are refused.
pub const MAX_MESSAGE_LEN: u32 = 67_108_864;

/// Why a frame was refused.
#[derive(Debug)]
pub enum WireError {
    /// The message is longer than [`MAX_MESSAGE_LEN`].
    TooLarge(u32),
    /// The input ends within the length or within the message.
    Truncated,
}

/// The four bytes of a number, lowest first.
pub open spec fn le_bytes(n: u32) -> Seq<u8> {
    seq![
        (n % 256) as u8,
        (n / 256 % 256) as u8,
        (n / 65536 % 256) as u8,
        (n / 16777216) as u8,
    ]
}

/// The number that the first four bytes write, lowest first.
pub open spec fn le_value(s: Seq<u8>) -> nat {
    (s[0] + s[1] * 256 + s[2] * 65536 + s[3] * 16777216) as nat
}

/// The frame of a message.
pub open spec fn frame(message: Seq<u8>) -> Seq<u8> {
    le_bytes(message.len() as u32) + message
}

/// The length that the first four bytes of a frame announce, where it is allowed.
pub fn announced_length(prefix: &[u8]) -> (r: Result<u32, WireError>)
    requires
        prefix@.len() >= 4,
    ensures
        match r {
            Ok(n) => n == le_value(prefix@) && n <= MAX_MESSAGE_LEN,
            Err(WireError::TooLarge(n)) => n == le_value(prefix@) && n > MAX_MESSAGE_LEN,
            Err(WireError::Truncated) => false,
        },
{
    let n: u32 = prefix[0] as u32 + prefix[1] as u32 * 256 + prefix[2] as u32 * 65536 + prefix[3]
        as u32 * 16777216;
    if n > MAX_MESSAGE_LEN {
        Err(WireError::TooLarge(n))
    } else {
        Ok(n)
    }
}

/// Reads one message from the beginning of `input`: the message and how many
/// bytes its frame takes. None where the input ends before any byte of the length.
pub fn read_message(input: &[u8]) -> (r: Result<Option<(Vec<u8>, usize)>, WireError>)
    ensures
        match r {
            Ok(None) => input@.len() == 0,
            Ok(Some((message, used))) => {
                &&& input@.len() >= 4
                &&& le_value(input@) <= MAX_MESSAGE_LEN
                &&& used == 4 + le_value(input@) <= input@.len()
                &&& message@ == input@.subrange(4, used as int)
            },
            Err(WireError::TooLarge(n)) => input@.len() >= 4 && n == le_value(input@) && n
                > MAX_MESSAGE_LEN,
            Err(WireError::Truncated) => 0 < input@.len() < 4 || (input@.len() >= 4 && le_value(
                input@,
            ) <= MAX_MESSAGE_LEN && input@.len() < 4 + le_value(input@)),
        },
{
    if input.len() == 0 {
        return Ok(None);
    }
    if input.len() < 4 {
        return Err(WireError::Truncated);
    }
    match announced_length(input) {
        Err(e) => Err(e),
        Ok(n) => {
            let n: usize = n as usize;
            if input.len() - 4 < n {
                return Err(WireError::Truncated);
            }
            let message = vstd::slice::slice_to_vec(slice_subrange(input, 4, 4 + n));
            Ok(Some((message, 4 + n)))
        },
    }
}

/// The length that an error gives of an overlong message: its lowest 32 bits.
pub open spec fn low32(n: nat) -> u32 {
    (n % 0x1_0000_0000) as u32
}

/// Writes the frame of a message.
pub fn write_message(message: &[u8]) -> (r: Result<Vec<u8>, WireError>)
    ensures
        match r {
            Ok(f) => message@.len() <= MAX_MESSAGE_LEN && f@ == frame(message@),
            Err(WireError::TooLarge(n)) => message@.len() > MAX_MESSAGE_LEN && n == low32(
                message@.len(),
            ),
            Err(WireError::Truncated) => false,
        },
{
    let len: u64 = message.len() as u64;
    if len > MAX_MESSAGE_LEN as u64 {
        return Err(WireError::TooLarge((len % 0x1_0000_0000) as u32));
    }
    let n: u32 = len as u32;
    let mut out: Vec<u8> = Vec::new();
    out.push((n % 256) as u8);
    out.push((n / 256 % 256) as u8);
    out.push((n / 65536 % 256) as u8);
    out.push((n / 16777216) as u8);
    assert(out@ =~= le_bytes(n));
    out.extend_from_slice(message);
    assert(out@ =~= frame(message@));
    Ok(out)
}

/// Reading gives back what writing wrote: the bytes of a frame, whatever follows
/// them, announce the message's length, hold the message right after it, and end
/// where the message ends.
pub proof fn written_messages_read_back(message: Seq<u8>, rest: Seq<u8>)
    requires
        message.len() <= MAX_MESSAGE_LEN,
    ensures
        le_value(frame(message) + rest) == message.len(),
        (frame(message) + rest).subrange(4, 4 + message.len() as int) == message,
        (frame(message) + rest).skip(4 + message.len() as int) == rest,
{
    let input = frame(message) + rest;
    let n = message.len() as u32;
    assert(input[0] == le_bytes(n)[0]);
    assert(input[1] == le_bytes(n)[1]);
    assert(input[2] == le_bytes(n)[2]);
    assert(input[3] == le_bytes(n)[3]);
    assert(input.subrange(4, 4 + message.len() as int) =~= message);
    assert(input.skip(4 + message.len() as int) =~= rest);
}

} // verus!

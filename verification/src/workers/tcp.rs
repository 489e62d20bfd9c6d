//! The stream transports: messages framed by their length, and what the
//! outcome of a read or a write on a socket means for the worker.

use crate::runner::cache::framed;
use vstd::prelude::*;

verus! {

/// The kinds of failure of a read or write that the worker tells apart.
#[derive(Clone, Copy, Debug, PartialEq, Eq, Structural)]
pub enum IoFailure {
    /// The socket is not ready; the operation can be tried again later.
    WouldBlock,
    /// The operation was interrupted and can be tried again at once.
    Interrupted,
    /// The peer has reset the connection.
    ConnectionReset,
    /// Any other failure.
    Other,
}

/// What a read or a write on a socket came to.
#[derive(Clone, Copy, Debug, PartialEq, Eq, Structural)]
pub enum SocketStatus {
    /// The connection is gone.
    Close,
    /// The operation was done in full.
    Success,
    /// The socket was not ready.
    WouldBlock,
    /// The operation is to be tried again at once.
    Retry,
    /// The operation failed.
    Failed,
}

/// Whether a failure only says that the socket is not ready.
pub fn would_block(err: &IoFailure) -> (r: bool)
    ensures
        r == (*err == IoFailure::WouldBlock),
{
    match err {
        IoFailure::WouldBlock => true,
        _ => false,
    }
}

/// Whether a failure only says that the operation was interrupted.
pub fn interrupted(err: &IoFailure) -> (r: bool)
    ensures
        r == (*err == IoFailure::Interrupted),
{
    match err {
        IoFailure::Interrupted => true,
        _ => false,
    }
}

/// What the outcome of writing a packet of `len` bytes means: a write of
/// fewer bytes is a failure, an interrupted write is tried again.
pub open spec fn write_status(outcome: Result<usize, IoFailure>, len: nat) -> SocketStatus {
    match outcome {
        Ok(n) => if n < len {
            SocketStatus::Failed
        } else {
            SocketStatus::Success
        },
        Err(IoFailure::WouldBlock) => SocketStatus::WouldBlock,
        Err(IoFailure::Interrupted) => SocketStatus::Retry,
        Err(_) => SocketStatus::Failed,
    }
}

/// What the outcome of a read means: a read of nothing and a reset say that
/// the connection is gone, an interrupted read is tried again.
pub open spec fn read_status(outcome: Result<usize, IoFailure>) -> SocketStatus {
    match outcome {
        Ok(n) => if n == 0 {
            SocketStatus::Close
        } else {
            SocketStatus::Success
        },
        Err(IoFailure::WouldBlock) => SocketStatus::WouldBlock,
        Err(IoFailure::Interrupted) => SocketStatus::Retry,
        Err(IoFailure::ConnectionReset) => SocketStatus::Close,
        Err(_) => SocketStatus::Failed,
    }
}

/// What the outcome of writing a packet of `len` bytes means.
pub fn write_data(outcome: Result<usize, IoFailure>, len: usize) -> (r: SocketStatus)
    ensures
        r == write_status(outcome, len as nat),
{
    match outcome {
        Ok(n) => if n < len {
            SocketStatus::Failed
        } else {
            SocketStatus::Success
        },
        Err(err) => if would_block(&err) {
            SocketStatus::WouldBlock
        } else if interrupted(&err) {
            SocketStatus::Retry
        } else {
            SocketStatus::Failed
        },
    }
}

/// What the outcome of a read means.
pub fn read_data(outcome: Result<usize, IoFailure>) -> (r: SocketStatus)
    ensures
        r == read_status(outcome),
{
    match outcome {
        Ok(n) => if n == 0 {
            SocketStatus::Close
        } else {
            SocketStatus::Success
        },
        Err(err) => if would_block(&err) {
            SocketStatus::WouldBlock
        } else if interrupted(&err) {
            SocketStatus::Retry
        } else {
            match err {
                IoFailure::ConnectionReset => SocketStatus::Close,
                _ => SocketStatus::Failed,
            }
        },
    }
}

/// The length that the first two bytes of a stream announce, most
/// significant byte first.
pub open spec fn announced_len(stream: Seq<u8>) -> nat {
    (stream[0] as nat) * 256 + stream[1] as nat
}

/// The first message of a stream and what follows it, once the stream
/// holds the two bytes of the length and as many bytes as they announce.
pub open spec fn first_frame(stream: Seq<u8>) -> Option<(Seq<u8>, Seq<u8>)> {
    if stream.len() >= 2 && stream.len() >= 2 + announced_len(stream) {
        Some(
            (
                stream.subrange(2, 2 + announced_len(stream) as int),
                stream.subrange(2 + announced_len(stream) as int, stream.len() as int),
            ),
        )
    } else {
        None
    }
}

/// A message that was framed is read back as it was, and what follows it
/// is left.
pub proof fn lemma_frame_round_trip(message: Seq<u8>, rest: Seq<u8>)
    requires
        message.len() <= 0xffff,
    ensures
        first_frame(framed(message) + rest) == Some((message, rest)),
{
    let stream = framed(message) + rest;
    let n = message.len() as int;
    assert(stream[0] == (n / 256) as u8);
    assert(stream[1] == (n % 256) as u8);
    assert(announced_len(stream) == n);
    assert(stream.subrange(2, 2 + n) =~= message);
    assert(stream.subrange(2 + n, stream.len() as int) =~= rest);
}

/// Takes the first message off the bytes read from a stream, once it is
/// there in full; until then the bytes stay as they are.
pub fn take_frame(buffer: &mut Vec<u8>) -> (r: Option<Vec<u8>>)
    ensures
        match first_frame(old(buffer)@) {
            Some((message, rest)) => r matches Some(m) && m@ == message && final(buffer)@ == rest,
            None => r is None && final(buffer)@ == old(buffer)@,
        },
{
    let total = buffer.len();
    if total < 2 {
        return None;
    }
    let len: usize = (buffer[0] as usize) * 256 + (buffer[1] as usize);
    if total - 2 < len {
        return None;
    }
    let ghost stream = buffer@;
    let mut message: Vec<u8> = Vec::new();
    let mut rest: Vec<u8> = Vec::new();
    let mut i: usize = 2;
    while i < 2 + len
        invariant
            2 <= i <= 2 + len <= total,
            total == buffer@.len(),
            buffer@ == stream,
            message@ == stream.subrange(2, i as int),
        decreases 2 + len - i,
    {
        message.push(buffer[i]);
        proof {
            assert(stream.subrange(2, i + 1) =~= stream.subrange(2, i as int).push(
                stream[i as int],
            ));
        }
        i = i + 1;
    }
    while i < total
        invariant
            2 + len <= i <= total,
            total == buffer@.len(),
            buffer@ == stream,
            rest@ == stream.subrange(2 + len, i as int),
        decreases total - i,
    {
        rest.push(buffer[i]);
        proof {
            assert(stream.subrange(2 + len, i + 1) =~= stream.subrange(2 + len, i as int).push(
                stream[i as int],
            ));
        }
        i = i + 1;
    }
    *buffer = rest;
    Some(message)
}

} // verus!

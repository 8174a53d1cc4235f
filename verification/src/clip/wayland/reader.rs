//! Reading a selection's flavour from the pipe the source writes it to,
//! in bounded bursts that never block and never exceed a size limit.

use std::io::{ErrorKind, PipeReader, Read};

use vstd::prelude::*;

verus! {

/// The most bytes asked of the pipe at once.
pub const CHUNK: usize = 64 * 1024;

/// The most bytes read in one turn before other work gets its chance.
pub const BURST: usize = 4 * 1024 * 1024;

#[verifier::external_type_specification]
#[verifier::external_body]
pub struct ExPipeReader(PipeReader);

#[verifier::external_type_specification]
#[verifier::external_body]
pub struct ExIoError(std::io::Error);

/// Where a transfer stands after a turn of reading.
#[derive(Debug)]
pub enum Progress {
    /// More may come; read again when the pipe is ready.
    Reading,
    /// The source closed the pipe: the buffer holds the whole flavour.
    Finished,
    /// The flavour is larger than the limit.
    Overflowed,
    /// The pipe failed.
    Failed(std::io::Error),
}

/// What one read of the pipe gave.
pub enum Chunk {
    /// The bytes read; none at the end of the stream.
    Data(Vec<u8>),
    /// A signal interrupted the read before anything was read.
    Interrupted,
    /// Nothing is there to read yet.
    WouldBlock,
    /// The read failed.
    Failed(std::io::Error),
}

/// One `Read::read` into a buffer of `wanted` bytes: the bytes read (at
/// most `wanted`, as `read` documents; none at the end of the stream), an
/// interruption, an empty pipe, or the error. What bytes arrive is up to
/// the writer.
#[verifier::external_body]
fn read_chunk(reader: &PipeReader, wanted: usize) -> (r: Chunk)
    ensures
        r matches Chunk::Data(d) ==> d@.len() <= wanted,
{
    let mut chunk = vec![0u8; wanted];
    match (&mut &*reader).read(&mut chunk) {
        Ok(read) => {
            chunk.truncate(read);
            Chunk::Data(chunk)
        },
        Err(error) if error.kind() == ErrorKind::Interrupted => Chunk::Interrupted,
        Err(error) if error.kind() == ErrorKind::WouldBlock => Chunk::WouldBlock,
        Err(error) => Chunk::Failed(error),
    }
}

/// How many interruptions in a row one turn tries again at once before it
/// leaves the rest to the next turn.
pub const INTERRUPTIONS: u32 = 1024;

/// How many bytes the next read asks for: a chunk, or the room left under
/// the limit where that is less.
pub fn wanted(held: usize, limit: usize) -> (r: usize)
    requires
        held < limit,
    ensures
        r == if CHUNK < limit - held {
            CHUNK as int
        } else {
            limit - held
        },
        0 < r <= CHUNK,
{
    let room = limit - held;
    if CHUNK < room {
        CHUNK
    } else {
        room
    }
}

/// What follows from one read.
#[derive(Debug)]
pub enum Step {
    /// Bytes arrived: read on.
    More,
    /// The read was interrupted: try it again.
    Again,
    /// The turn ends with this outcome.
    Done(Progress),
}

/// What a read's outcome does: bytes are appended to `buffer` and reading
/// goes on; an empty read is the end of the stream and finishes the
/// flavour; an interruption is tried again; an empty pipe leaves the rest
/// for the next turn; an error fails the transfer. Only bytes change the
/// buffer.
pub fn take(buffer: &mut Vec<u8>, chunk: Chunk) -> (r: Step)
    ensures
        match chunk {
            Chunk::Data(d) => if d@.len() == 0 {
                (r matches Step::Done(Progress::Finished)) && final(buffer)@ == old(buffer)@
            } else {
                r is More && final(buffer)@ == old(buffer)@ + d@
            },
            Chunk::Interrupted => r is Again && final(buffer)@ == old(buffer)@,
            Chunk::WouldBlock => (r matches Step::Done(Progress::Reading))
                && final(buffer)@ == old(buffer)@,
            Chunk::Failed(e) => (r matches Step::Done(Progress::Failed(f)) && f == e)
                && final(buffer)@ == old(buffer)@,
        },
{
    match chunk {
        Chunk::Data(data) => {
            if data.len() == 0 {
                return Step::Done(Progress::Finished);
            }
            buffer.extend_from_slice(data.as_slice());
            Step::More
        },
        Chunk::Interrupted => Step::Again,
        Chunk::WouldBlock => Step::Done(Progress::Reading),
        Chunk::Failed(error) => Step::Done(Progress::Failed(error)),
    }
}

/// Reads what the pipe holds into `buffer`, up to `BURST` bytes in one
/// turn, never letting `buffer` grow past `limit`; each read asks for what
/// `wanted` says, and what follows from it is what `take` says. The buffer
/// keeps what it held and gains only what was read, less than
/// `BURST + CHUNK` bytes in one turn; a buffer that is full, or would have
/// to grow past the limit, reports `Overflowed`; every other outcome leaves
/// it shorter than the limit.
pub fn pump(reader: &PipeReader, buffer: &mut Vec<u8>, limit: usize) -> (r: Progress)
    ensures
        final(buffer)@.len() >= old(buffer)@.len(),
        final(buffer)@.subrange(0, old(buffer)@.len() as int) == old(buffer)@,
        final(buffer)@.len() < old(buffer)@.len() + BURST + CHUNK,
        old(buffer)@.len() >= limit ==> r is Overflowed && final(buffer)@ == old(buffer)@,
        old(buffer)@.len() < limit ==> final(buffer)@.len() <= limit,
        r is Overflowed <==> final(buffer)@.len() >= limit,
{
    let ghost original = buffer@;
    let mut taken: usize = 0;
    let mut retries: u32 = 0;
    loop
        invariant
            original == old(buffer)@,
            buffer@.len() >= original.len(),
            buffer@.subrange(0, original.len() as int) == original,
            buffer@.len() == original.len() + taken,
            original.len() < limit ==> buffer@.len() <= limit,
            original.len() >= limit ==> buffer@ == original,
            taken < BURST + CHUNK,
            retries <= INTERRUPTIONS,
        decreases BURST + CHUNK - taken, INTERRUPTIONS - retries,
    {
        let room = limit.saturating_sub(buffer.len());
        if room == 0 {
            return Progress::Overflowed;
        }
        if taken >= BURST {
            return Progress::Reading;
        }
        let ask = wanted(buffer.len(), limit);
        let ghost before = buffer@;
        let held = buffer.len();
        match take(buffer, read_chunk(reader, ask)) {
            Step::More => {
                assert(buffer@.subrange(0, original.len() as int) =~= before.subrange(
                    0,
                    original.len() as int,
                ));
                taken = taken + (buffer.len() - held);
                retries = 0;
            },
            Step::Again => {
                if retries >= INTERRUPTIONS {
                    return Progress::Reading;
                }
                retries = retries + 1;
            },
            Step::Done(progress) => return progress,
        }
    }
}

} // verus!

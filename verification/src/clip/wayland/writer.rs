//! Serving a flavour of the clipboard to a destination through its pipe,
//! in bounded bursts that never block.

use std::io::{ErrorKind, PipeWriter, Write};
use std::sync::Arc;

use vstd::prelude::*;

verus! {

/// The most bytes handed to the pipe at once.
pub const CHUNK: usize = 64 * 1024;

/// The most bytes written in one turn before other work gets its chance.
pub const BURST: usize = 4 * 1024 * 1024;

#[verifier::external_type_specification]
#[verifier::external_body]
pub struct ExPipeWriter(PipeWriter);

/// A body on its way out, and how much of it has gone.
pub struct Outgoing {
    body: Arc<[u8]>,
    offset: usize,
}

/// Where a transfer stands after a turn of writing.
#[derive(Debug, PartialEq, Eq, Structural)]
pub enum Progress {
    /// More is to go; write again when the pipe is ready.
    Writing,
    /// All of the body went out.
    Finished,
    /// The destination went away; that is no error of ours.
    Abandoned,
}

/// What one write to the pipe did.
pub enum Sent {
    /// This many bytes went out.
    Wrote(usize),
    /// A signal interrupted the write before anything went out.
    Interrupted,
    /// The pipe is full for now.
    WouldBlock,
    /// The write failed: the destination went away.
    Gone,
}

/// One `Write::write` of `body[from..to]` to the pipe: how many bytes went
/// (at most `to - from`, as `write` documents), an interruption, a full
/// pipe, or a failure. How much goes is up to the reader.
#[verifier::external_body]
fn write_chunk(writer: &PipeWriter, body: &[u8], from: usize, to: usize) -> (r: Sent)
    requires
        from < to <= body@.len(),
    ensures
        r matches Sent::Wrote(n) ==> n <= to - from,
{
    match (&mut &*writer).write(&body[from..to]) {
        Ok(written) => Sent::Wrote(written),
        Err(error) if error.kind() == ErrorKind::Interrupted => Sent::Interrupted,
        Err(error) if error.kind() == ErrorKind::WouldBlock => Sent::WouldBlock,
        Err(_) => Sent::Gone,
    }
}

/// How many interruptions in a row one turn tries again at once before it
/// leaves the rest to the next turn.
pub const INTERRUPTIONS: u32 = 1024;

/// What follows from one write.
#[derive(Debug, PartialEq, Eq, Structural)]
pub enum Step {
    /// Bytes went out: write on.
    More,
    /// The write was interrupted: try it again.
    Again,
    /// The turn ends with this outcome.
    Done(Progress),
}

/// The part of a body of `len` bytes the next write hands to the pipe once
/// `sent` of them have gone: from there, at most `CHUNK` bytes.
pub open spec fn chunk_of(sent: nat, len: nat) -> (nat, nat) {
    (sent, if sent + CHUNK < len {
        (sent + CHUNK) as nat
    } else {
        len
    })
}

impl Outgoing {
    /// The body being served.
    pub closed spec fn body(self) -> Seq<u8> {
        self.body@
    }

    /// How many bytes of it have gone.
    pub closed spec fn sent(self) -> nat {
        self.offset as nat
    }

    #[verifier::type_invariant]
    spec fn inv(self) -> bool {
        self.offset <= self.body@.len()
    }

    pub fn new(body: Arc<[u8]>) -> (r: Self)
        ensures
            r.body() == body@,
            r.sent() == 0,
    {
        Self { body, offset: 0 }
    }

    /// How many bytes are still to go.
    pub fn remaining(&self) -> (r: usize)
        ensures
            r == self.body().len() - self.sent(),
    {
        proof {
            use_type_invariant(self);
        }
        self.body.len() - self.offset
    }

    /// Where the part the next write hands to the pipe starts and ends in
    /// the body; see `chunk_of`.
    pub fn next_chunk(&self) -> (r: (usize, usize))
        requires
            self.sent() < self.body().len(),
        ensures
            (r.0 as nat, r.1 as nat) == chunk_of(self.sent(), self.body().len()),
    {
        proof {
            use_type_invariant(self);
        }
        let len = self.body.len();
        let end = if len - self.offset > CHUNK {
            self.offset + CHUNK
        } else {
            len
        };
        (self.offset, end)
    }

    /// What the outcome of handing `body[handed.0..handed.1]` (the next
    /// chunk) to the pipe does: bytes that went out count as sent and
    /// writing goes on; a write that took nothing, or failed, means the
    /// destination went away; an interruption is tried again; a full pipe
    /// leaves the rest for the next turn. Only bytes that went out change
    /// what has gone.
    pub fn advance(&mut self, handed: (usize, usize), outcome: Sent) -> (r: Step)
        requires
            old(self).sent() < old(self).body().len(),
            (handed.0 as nat, handed.1 as nat) == chunk_of(old(self).sent(), old(self).body().len()),
            outcome matches Sent::Wrote(n) ==> n <= handed.1 - handed.0,
        ensures
            final(self).body() == old(self).body(),
            match outcome {
                Sent::Wrote(n) => if n == 0 {
                    r == Step::Done(Progress::Abandoned) && final(self).sent() == old(self).sent()
                } else {
                    r == Step::More && final(self).sent() == old(self).sent() + n
                },
                Sent::Interrupted => r == Step::Again && final(self).sent() == old(self).sent(),
                Sent::WouldBlock => r == Step::Done(Progress::Writing)
                    && final(self).sent() == old(self).sent(),
                Sent::Gone => r == Step::Done(Progress::Abandoned)
                    && final(self).sent() == old(self).sent(),
            },
    {
        proof {
            use_type_invariant(&*self);
        }
        match outcome {
            Sent::Wrote(written) => {
                if written == 0 {
                    return Step::Done(Progress::Abandoned);
                }
                self.offset = self.offset + written;
                Step::More
            },
            Sent::Interrupted => Step::Again,
            Sent::WouldBlock => Step::Done(Progress::Writing),
            Sent::Gone => Step::Done(Progress::Abandoned),
        }
    }

    /// Writes as much of the rest of the body as the pipe takes, up to
    /// `BURST` bytes: each write hands the pipe the part `next_chunk`
    /// says, and what follows from it is what `advance` says. The body is
    /// unchanged and what has gone only grows, by less than
    /// `BURST + CHUNK` bytes in one turn; `Finished` exactly when all of it
    /// has gone.
    pub fn pump(&mut self, writer: &PipeWriter) -> (r: Progress)
        ensures
            final(self).body() == old(self).body(),
            old(self).sent() <= final(self).sent() <= final(self).body().len(),
            final(self).sent() < old(self).sent() + BURST + CHUNK,
            r is Finished <==> final(self).sent() == final(self).body().len(),
    {
        proof {
            use_type_invariant(&*self);
        }
        let ghost start = self.offset;
        let mut sent: usize = 0;
        let mut retries: u32 = 0;
        let len = self.body.len();
        while self.offset < len && sent < BURST
            invariant
                len == self.body@.len(),
                self.body@ == old(self).body(),
                old(self).sent() <= self.offset <= len,
                self.offset == start + sent,
                start == old(self).sent(),
                sent < BURST + CHUNK,
                retries <= INTERRUPTIONS,
            decreases len - self.offset, INTERRUPTIONS - retries,
        {
            let handed = self.next_chunk();
            let outcome = write_chunk(writer, &self.body, handed.0, handed.1);
            let before = self.offset;
            match self.advance(handed, outcome) {
                Step::More => {
                    sent = sent + (self.offset - before);
                    retries = 0;
                },
                Step::Again => {
                    if retries >= INTERRUPTIONS {
                        return Progress::Writing;
                    }
                    retries = retries + 1;
                },
                Step::Done(progress) => return progress,
            }
        }
        if self.offset >= len {
            Progress::Finished
        } else {
            Progress::Writing
        }
    }
}

} // verus!

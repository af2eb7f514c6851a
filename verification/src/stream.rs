//! The duplex relay engine.
//!
//! Each side of an established connection pair is a `StreamWithBuffer`:
//! the bytes read from one socket wait in a buffer region `[pos, cap)`
//! until written to the other socket.  A side normally borrows a large
//! per-worker scratch buffer; if a write would block mid-flight, the
//! unflushed remainder moves into a private, connection-owned buffer so
//! the scratch buffer can serve other connections.
//!
//! The surrounding application performs the socket reads and writes and
//! reports each outcome here; the state machine decides what to do next
//! and accounts for every byte.  Two ghost logs — all bytes read in, all
//! bytes written out — carry the conservation invariant: what was read
//! is exactly what was written followed by the unflushed buffer content,
//! so bytes are forwarded without duplication, gap, or reordering,
//! whether or not a shared-to-private handoff happened mid-stream.
//!
//! `BiPipe` pairs the two sides and settles completion: both sides done
//! means success; exactly one side done arms a half-close deadline, and
//! the deadline firing forces completion, treated as success.

use vstd::prelude::*;

use crate::error::{Error, ErrorKind};

verus! {

/// Size of the per-worker shared scratch buffer.
pub const SHARED_BUF_SIZE: usize = 65536;

/// Floor for a connection-owned private buffer.
pub const PRIVATE_BUF_SIZE: usize = 8192;

/// The half-close deadline, in milliseconds.
pub const HALF_CLOSE_TIMEOUT_MS: u64 = 60000;

/// One side of the relay: its buffer region and flags, plus the ghost
/// accounting of every byte that passed through.
pub struct StreamWithBuffer {
    /// The private buffer, once a blocked write forced the handoff;
    /// `None` while the side still uses the shared scratch buffer.
    pub buf: Option<Vec<u8>>,
    /// Start of the unflushed region.
    pub pos: usize,
    /// End of the unflushed region.
    pub cap: usize,
    /// The peer sent EOF.
    pub read_eof: bool,
    /// This side is finished and its writer has been shut down.
    pub done: bool,
    /// Every byte read from this side's socket, in order.
    pub read_log: Ghost<Seq<u8>>,
    /// Every byte delivered to the peer socket, in order.
    pub written_log: Ghost<Seq<u8>>,
}

impl StreamWithBuffer {
    /// The unflushed bytes, read but not yet written: the region
    /// `[pos, cap)` of whichever buffer the side is using.
    pub open spec fn content(self, shared: Seq<u8>) -> Seq<u8> {
        match self.buf {
            Some(b) => b@.subrange(self.pos as int, self.cap as int),
            None => shared.subrange(self.pos as int, self.cap as int),
        }
    }

    /// Well-formedness against the shared scratch buffer currently in
    /// use: the region is in bounds, and the bytes read are exactly the
    /// bytes written followed by the unflushed content.
    pub open spec fn wf(self, shared: Seq<u8>) -> bool {
        &&& self.pos <= self.cap
        &&& (match self.buf {
            Some(b) => self.cap <= b@.len(),
            None => self.cap <= shared.len(),
        })
        &&& self.read_log@ == self.written_log@ + self.content(shared)
    }

    /// Well-formedness of a side that owns a private buffer; such a side
    /// no longer depends on any shared buffer.
    pub open spec fn wf_private(self) -> bool {
        self.buf is Some && self.wf(Seq::empty())
    }

    /// A fresh side: empty region, no private buffer, nothing logged.
    pub fn new() -> (s: StreamWithBuffer)
        ensures
            s.buf is None,
            s.pos == 0 && s.cap == 0,
            !s.read_eof && !s.done,
            s.read_log@ == Seq::<u8>::empty(),
            s.written_log@ == Seq::<u8>::empty(),
            forall|shared: Seq<u8>| s.wf(shared),
    {
        let s = StreamWithBuffer {
            buf: None,
            pos: 0,
            cap: 0,
            read_eof: false,
            done: false,
            read_log: Ghost(Seq::empty()),
            written_log: Ghost(Seq::empty()),
        };
        proof {
            assert forall|shared: Seq<u8>| s.wf(shared) by {
                assert(s.content(shared) =~= Seq::<u8>::empty());
                assert(s.read_log@ =~= s.written_log@ + s.content(shared));
            }
        }
        s
    }

    /// The buffer holds nothing to flush; a new read may be issued.
    pub fn is_empty(&self) -> (r: bool)
        ensures
            r == (self.pos == self.cap),
    {
        self.pos == self.cap
    }

    /// Records the outcome of one socket read into the shared scratch
    /// buffer: `n` bytes now sit at its start.  Zero bytes is EOF.
    pub fn note_shared_read(&mut self, shared: &Vec<u8>, n: usize)
        requires
            old(self).buf is None,
            old(self).pos == old(self).cap,
            !old(self).read_eof,
            n <= shared@.len(),
            old(self).read_log@ == old(self).written_log@,
        ensures
            final(self).wf(shared@),
            final(self).buf is None,
            final(self).done == old(self).done,
            final(self).written_log == old(self).written_log,
            n == 0 ==> final(self).read_eof && final(self).read_log == old(self).read_log
                && final(self).pos == final(self).cap,
            n > 0 ==> !final(self).read_eof && final(self).pos == 0 && final(self).cap == n
                && final(self).read_log@ == old(self).read_log@ + shared@.subrange(0, n as int),
    {
        if n == 0 {
            self.read_eof = true;
            self.pos = 0;
            self.cap = 0;
            proof {
                assert(self.content(shared@) =~= Seq::<u8>::empty());
                assert(self.read_log@ =~= self.written_log@ + self.content(shared@));
            }
        } else {
            self.pos = 0;
            self.cap = n;
            self.read_log = Ghost(self.read_log@ + shared@.subrange(0, n as int));
            proof {
                assert(self.content(shared@) =~= shared@.subrange(0, n as int));
            }
        }
    }

    /// Takes the private buffer out so the application can read into it;
    /// the side must be drained first.
    pub fn begin_private_read(&mut self) -> (b: Vec<u8>)
        requires
            old(self).buf is Some,
            old(self).pos == old(self).cap,
        ensures
            old(self).buf == Some(b),
            final(self).buf is None,
            final(self).pos == old(self).pos && final(self).cap == old(self).cap,
            final(self).read_eof == old(self).read_eof,
            final(self).done == old(self).done,
            final(self).read_log == old(self).read_log,
            final(self).written_log == old(self).written_log,
    {
        let b = self.buf.take();
        match b {
            Some(v) => v,
            None => {
                proof {
                    assert(false);
                }
                Vec::new()
            }
        }
    }

    /// Records the outcome of one socket read into the private buffer
    /// taken with `begin_private_read`, and puts the buffer back.
    pub fn note_private_read(&mut self, b: Vec<u8>, n: usize)
        requires
            old(self).buf is None,
            old(self).pos == old(self).cap,
            !old(self).read_eof,
            n <= b@.len(),
            old(self).read_log@ == old(self).written_log@,
        ensures
            final(self).wf_private(),
            final(self).buf == Some(b),
            final(self).done == old(self).done,
            final(self).written_log == old(self).written_log,
            n == 0 ==> final(self).read_eof && final(self).read_log == old(self).read_log
                && final(self).pos == final(self).cap,
            n > 0 ==> !final(self).read_eof && final(self).pos == 0 && final(self).cap == n
                && final(self).read_log@ == old(self).read_log@ + b@.subrange(0, n as int),
    {
        if n == 0 {
            self.read_eof = true;
            self.pos = 0;
            self.cap = 0;
            self.buf = Some(b);
            proof {
                assert(self.content(Seq::empty()) =~= Seq::<u8>::empty());
                assert(self.read_log@ =~= self.written_log@ + self.content(Seq::empty()));
            }
        } else {
            self.pos = 0;
            self.cap = n;
            self.read_log = Ghost(self.read_log@ + b@.subrange(0, n as int));
            self.buf = Some(b);
            proof {
                assert(self.content(Seq::empty()) =~= b@.subrange(0, n as int));
            }
        }
    }

    /// The unflushed bytes of a side that owns a private buffer, for the
    /// application to write to the peer socket.
    pub fn private_chunk(&self) -> (r: &[u8])
        requires
            self.wf_private(),
        ensures
            r@ == self.content(Seq::empty()),
    {
        match &self.buf {
            Some(b) => vstd::slice::slice_subrange(b.as_slice(), self.pos, self.cap),
            None => {
                proof {
                    assert(false);
                }
                vstd::slice::slice_subrange(&[], 0, 0)
            }
        }
    }

    /// Records the outcome of one socket write taken from the shared
    /// scratch buffer.  A zero-byte write is a fatal `WriteZero` error —
    /// a broken pipe, never silently retried; otherwise the region
    /// advances by exactly the bytes written.
    pub fn note_shared_write(&mut self, shared: &Vec<u8>, n: usize) -> (r: Result<usize, Error>)
        requires
            old(self).wf(shared@),
            old(self).buf is None,
            n <= old(self).cap - old(self).pos,
        ensures
            final(self).wf(shared@),
            final(self).buf is None,
            final(self).cap == old(self).cap,
            final(self).read_eof == old(self).read_eof,
            final(self).done == old(self).done,
            final(self).read_log == old(self).read_log,
            (match r {
                Ok(m) => m == n && n > 0 && final(self).pos == old(self).pos + n && final(self).written_log@ == old(self).written_log@ + shared@.subrange(
                    old(self).pos as int,
                    old(self).pos + n,
                ),
                Err(e) => n == 0 && e.kind == ErrorKind::WriteZero && final(self).pos == old(self).pos && final(self).written_log == old(self).written_log,
            }),
    {
        if n == 0 {
            return Err(Error { kind: ErrorKind::WriteZero, message: "write zero bytes into writer" });
        }
        proof {
            assert(self.content(shared@) =~= shared@.subrange(
                self.pos as int,
                self.pos + n,
            ) + shared@.subrange(self.pos + n, self.cap as int));
        }
        self.written_log = Ghost(
            self.written_log@ + shared@.subrange(self.pos as int, self.pos + n),
        );
        self.pos = self.pos + n;
        proof {
            assert(self.read_log@ =~= self.written_log@ + self.content(shared@));
        }
        Ok(n)
    }

    /// Records the outcome of one socket write taken from the private
    /// buffer.  Zero bytes is the same fatal `WriteZero` error.
    pub fn note_private_write(&mut self, n: usize) -> (r: Result<usize, Error>)
        requires
            old(self).wf_private(),
            n <= old(self).cap - old(self).pos,
        ensures
            final(self).wf_private(),
            final(self).buf == old(self).buf,
            final(self).cap == old(self).cap,
            final(self).read_eof == old(self).read_eof,
            final(self).done == old(self).done,
            final(self).read_log == old(self).read_log,
            (match r {
                Ok(m) => m == n && n > 0 && final(self).pos == old(self).pos + n && final(self).written_log@ == old(self).written_log@ + old(self).content(Seq::empty()).take(
                    n as int,
                ),
                Err(e) => n == 0 && e.kind == ErrorKind::WriteZero && final(self).pos == old(self).pos && final(self).written_log == old(self).written_log,
            }),
    {
        if n == 0 {
            return Err(Error { kind: ErrorKind::WriteZero, message: "write zero bytes into writer" });
        }
        proof {
            let b = self.buf->Some_0;
            assert(self.content(Seq::empty()) =~= b@.subrange(self.pos as int, self.pos + n)
                + b@.subrange(self.pos + n, self.cap as int));
            assert(self.content(Seq::empty()).take(n as int) =~= b@.subrange(
                self.pos as int,
                self.pos + n,
            ));
        }
        let ghost b = self.buf->Some_0;
        self.written_log = Ghost(self.written_log@ + b@.subrange(self.pos as int, self.pos + n));
        self.pos = self.pos + n;
        proof {
            assert(self.read_log@ =~= self.written_log@ + self.content(Seq::empty()));
        }
        Ok(n)
    }

    /// Moves the unflushed remainder of the shared scratch buffer into a
    /// freshly allocated private buffer — sized to the private floor or
    /// the remainder, whichever is larger — so the scratch buffer can
    /// serve other connections while this side drains.  The content, and
    /// with it the conservation invariant, is preserved exactly.
    pub fn hand_off_to_private(&mut self, shared: &Vec<u8>)
        requires
            old(self).wf(shared@),
            old(self).buf is None,
        ensures
            final(self).wf_private(),
            final(self).content(Seq::empty()) == old(self).content(shared@),
            final(self).pos == 0,
            final(self).cap == old(self).cap - old(self).pos,
            (match final(self).buf {
                Some(b) => b@.len() == (if old(self).cap - old(self).pos > PRIVATE_BUF_SIZE {
                    old(self).cap - old(self).pos
                } else {
                    PRIVATE_BUF_SIZE as int
                }),
                None => false,
            }),
            final(self).read_eof == old(self).read_eof,
            final(self).done == old(self).done,
            final(self).read_log == old(self).read_log,
            final(self).written_log == old(self).written_log,
    {
        let rem = self.cap - self.pos;
        let size = if rem > PRIVATE_BUF_SIZE {
            rem
        } else {
            PRIVATE_BUF_SIZE
        };
        let mut b: Vec<u8> = Vec::new();
        let mut z: usize = 0;
        while z < size
            invariant
                b@.len() == z,
                z <= size,
            decreases size - z,
        {
            b.push(0);
            z = z + 1;
        }
        let mut k: usize = 0;
        while k < rem
            invariant
                k <= rem,
                rem == self.cap - self.pos,
                self.pos <= self.cap <= shared@.len(),
                b@.len() == size,
                rem <= size,
                b@.subrange(0, k as int) == shared@.subrange(self.pos as int, self.pos + k),
            decreases rem - k,
        {
            b.set(k, shared[self.pos + k]);
            proof {
                assert(b@.subrange(0, k + 1) =~= shared@.subrange(
                    self.pos as int,
                    self.pos + k + 1,
                ));
            }
            k = k + 1;
        }
        proof {
            assert(b@.subrange(0, rem as int) =~= shared@.subrange(
                self.pos as int,
                self.cap as int,
            ));
        }
        let ghost prior = *self;
        self.buf = Some(b);
        self.pos = 0;
        self.cap = rem;
        proof {
            assert(self.content(Seq::empty()) =~= prior.content(shared@));
            assert(self.read_log@ =~= self.written_log@ + self.content(Seq::empty()));
        }
    }
}

impl StreamWithBuffer {
    /// Decides what the relay loop owes this side next: flush waiting
    /// bytes, propagate EOF as a shutdown, issue a read, or nothing.
    pub fn next_task(&self) -> (t: SideTask)
        ensures
            t == spec_next_task(*self),
    {
        if self.done {
            SideTask::Finished
        } else if self.pos != self.cap {
            SideTask::Write
        } else if self.read_eof {
            SideTask::Shutdown
        } else {
            SideTask::Read
        }
    }
}

/// Conservation of the relay: the written log is always exactly the
/// prefix of the read log that has left the buffer, the unflushed
/// remainder being the buffer content; a drained side has written
/// exactly what it read — no byte duplicated, dropped, or reordered,
/// with or without a shared-to-private handoff along the way.
pub proof fn lemma_pipe_conservation(s: StreamWithBuffer, shared: Seq<u8>)
    requires
        s.wf(shared),
    ensures
        s.written_log@ == s.read_log@.take(s.written_log@.len() as int),
        s.read_log@ == s.written_log@ + s.content(shared),
        s.pos == s.cap ==> s.written_log@ == s.read_log@,
{
    assert(s.read_log@.take(s.written_log@.len() as int) =~= s.written_log@);
    if s.pos == s.cap {
        assert(s.content(shared) =~= Seq::<u8>::empty());
        assert(s.written_log@ + s.content(shared) =~= s.written_log@);
    }
}

/// One of the two directions of a pipe.
#[derive(Clone, Copy, PartialEq, Eq, Structural, Debug)]
pub enum Side {
    Left,
    Right,
}

/// What the relay loop owes a side next.
#[derive(Clone, Copy, PartialEq, Eq, Structural, Debug)]
pub enum SideTask {
    /// The side is finished; nothing to do.
    Finished,
    /// Unflushed bytes wait; write them to the peer socket.
    Write,
    /// EOF was read; shut down the peer's write half, then mark done.
    Shutdown,
    /// The buffer is empty and EOF has not been seen; issue a read.
    Read,
}

/// Whether the pipe as a whole is finished.
#[derive(Clone, Copy, PartialEq, Eq, Structural, Debug)]
pub enum PipeStatus {
    Pending,
    Ready,
}

/// The duplex pipe: two sides and the half-close deadline flag.
pub struct BiPipe {
    pub left: StreamWithBuffer,
    pub right: StreamWithBuffer,
    /// Whether the half-close deadline has been armed.
    pub timer_armed: bool,
}

/// Pairs two established sides into a pipe; the deadline is not armed.
pub fn pipe(left: StreamWithBuffer, right: StreamWithBuffer) -> (p: BiPipe)
    ensures
        p.left == left,
        p.right == right,
        !p.timer_armed,
{
    BiPipe { left, right, timer_armed: false }
}

/// The decision of the per-side relay loop, from the side's state alone.
pub open spec fn spec_next_task(r: StreamWithBuffer) -> SideTask {
    if r.done {
        SideTask::Finished
    } else if r.pos != r.cap {
        SideTask::Write
    } else if r.read_eof {
        SideTask::Shutdown
    } else {
        SideTask::Read
    }
}

/// One completion decision: both sides done is success; exactly one side
/// done arms the deadline, and the deadline firing forces completion,
/// treated as success, not an error.
pub open spec fn spec_completion(ld: bool, rd: bool, armed: bool, fired: bool) -> (bool,
    PipeStatus,
) {
    if ld && rd {
        (armed, PipeStatus::Ready)
    } else if !ld && !rd {
        (armed, PipeStatus::Pending)
    } else if !armed {
        (true, PipeStatus::Pending)
    } else if fired {
        (armed, PipeStatus::Ready)
    } else {
        (armed, PipeStatus::Pending)
    }
}

impl BiPipe {
    /// The chosen side's state.
    pub open spec fn side(self, s: Side) -> StreamWithBuffer {
        match s {
            Side::Left => self.left,
            Side::Right => self.right,
        }
    }

    /// Decides what the relay loop does next for one side.
    pub fn next_task(&self, side: Side) -> (t: SideTask)
        ensures
            t == spec_next_task(self.side(side)),
    {
        match side {
            Side::Left => self.left.next_task(),
            Side::Right => self.right.next_task(),
        }
    }

    /// After the peer's write half has been shut down — whether or not
    /// the shutdown call itself succeeded — the side is done.
    pub fn mark_done(&mut self, side: Side)
        ensures
            final(self).side(side).done,
            final(self).side(side) == (StreamWithBuffer { done: true, ..old(self).side(side) }),
            (match side {
                Side::Left => final(self).right == old(self).right,
                Side::Right => final(self).left == old(self).left,
            }),
            final(self).timer_armed == old(self).timer_armed,
    {
        match side {
            Side::Left => {
                self.left.done = true;
            }
            Side::Right => {
                self.right.done = true;
            }
        }
    }

    /// Settles completion after both sides were polled.  `timer_fired`
    /// reports whether the armed half-close deadline has elapsed.
    pub fn poll_completion(&mut self, timer_fired: bool) -> (st: PipeStatus)
        ensures
            final(self).left == old(self).left,
            final(self).right == old(self).right,
            (final(self).timer_armed, st) == spec_completion(
                old(self).left.done,
                old(self).right.done,
                old(self).timer_armed,
                timer_fired,
            ),
    {
        if self.left.done && self.right.done {
            PipeStatus::Ready
        } else if !self.left.done && !self.right.done {
            PipeStatus::Pending
        } else if !self.timer_armed {
            // First poll in the half-closed state: arm the deadline.
            self.timer_armed = true;
            PipeStatus::Pending
        } else if timer_fired {
            // The straggling side is abandoned; the pipe's job is done.
            PipeStatus::Ready
        } else {
            // Activity before the deadline: the application resets it.
            PipeStatus::Pending
        }
    }
}

/// The half-close window: once exactly one side is done, the pipe does
/// not complete while the deadline has not fired — each poll merely arms
/// or keeps the deadline — and the poll after the deadline fires
/// completes the pipe; it neither ends early nor runs on indefinitely.
pub proof fn lemma_half_close_window(ld: bool, rd: bool, armed: bool)
    requires
        ld != rd,
    ensures
        spec_completion(ld, rd, armed, false).1 == PipeStatus::Pending,
        spec_completion(ld, rd, armed, false).0,
        armed ==> spec_completion(ld, rd, armed, true).1 == PipeStatus::Ready,
{
}

/// Completion is exactly both sides being done, as long as no half-close
/// deadline has fired.
pub proof fn lemma_completion_exact(ld: bool, rd: bool, armed: bool)
    ensures
        (spec_completion(ld, rd, armed, false).1 == PipeStatus::Ready) <==> (ld && rd),
{
}

} // verus!

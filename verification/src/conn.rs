//! Connection state and the decisions around one non-blocking socket.
//!
//! The socket itself lives with the caller; every read and write outcome is
//! handed in as an event, and the connection decides what it means: which
//! events end a drain, which are retried, which are fatal, and how the bytes
//! that arrived become complete messages.

use vstd::prelude::*;

use crate::codec::simple_frame;
use crate::codec::MAX_FRAME_LEN;
use crate::reassembly::declared_len;
use crate::reassembly::frame_payload;
use crate::reassembly::frame_rest;
use crate::reassembly::pass_frame;
use crate::reassembly::pass_incomplete;
use crate::reassembly::pass_malformed;
use crate::reassembly::pass_oversize;
use crate::reassembly::HeaderShape;

verus! {

/// Why a connection failed, or why an attempt did not go through.
/// Every variant but `NotReady` is fatal: it leaves the connection closed.
#[derive(Clone, Copy, Debug, PartialEq, Eq, Structural)]
pub enum ConnError {
    /// A read returned zero bytes: the peer closed the stream.
    PeerClosed,
    /// The socket is not ready right now; try again later. Not fatal.
    NotReady,
    /// A write transmitted fewer bytes than requested.
    ShortWrite,
    /// A frame (or the backlog holding one) outgrew the 65535-byte ceiling
    /// of the two-byte length field.
    Oversize,
    /// A header declared a frame shorter than the header itself.
    Malformed,
    /// Any other I/O failure.
    Io,
}

/// What one reassembly pass hands back to the caller.
#[derive(Clone, Debug, PartialEq, Eq)]
pub enum Response {
    /// No complete frame yet: read more bytes before calling again.
    NeedMoreData,
    /// The backlog held exactly one complete frame: its payload.
    Complete(Vec<u8>),
    /// A complete frame, with more bytes already waiting behind it:
    /// call again before reading the socket.
    Pending(Vec<u8>),
    /// A fatal condition; the connection is closed.
    Error(ConnError),
}

/// What one raw socket read reported, as the caller saw it.
pub enum ReadEvent {
    /// The read returned these bytes (one or more).
    Data(Vec<u8>),
    /// The read returned zero bytes: the peer closed the stream.
    Closed,
    /// The socket has nothing more right now.
    WouldBlock,
    /// A transient interruption; the read should simply be repeated.
    Interrupted,
    /// Any other I/O failure.
    Fatal,
}

/// What the connection decides after one raw read.
#[derive(Clone, Debug, PartialEq, Eq)]
pub enum ReadStep {
    /// Keep reading; the bytes drained so far travel along.
    More(Vec<u8>),
    /// The drain is over: everything that arrived in this attempt.
    Done(Vec<u8>),
    /// Fatal; the connection is now closed.
    Fail(ConnError),
}

/// What one raw socket write reported, as the caller saw it.
pub enum WriteEvent {
    /// The write accepted this many bytes.
    Wrote(usize),
    /// The socket cannot take the bytes right now.
    WouldBlock,
    /// A transient interruption; the write should simply be repeated.
    Interrupted,
    /// Any other I/O failure.
    Fatal,
}

/// What the connection decides after one raw write.
#[derive(Clone, Debug, PartialEq, Eq)]
pub enum WriteStep {
    /// The whole buffer went out in one call.
    Done(usize),
    /// Repeat the same write.
    Retry,
    /// Nothing was sent; the connection stays open and the caller may try
    /// again later.
    NotReady,
    /// Fatal; the connection is now closed.
    Fail(ConnError),
}

/// One peer over one stream socket: an identity, the sticky closed flag, and
/// the backlog buffer of bytes received but not yet resolved into a frame.
pub struct Connection {
    /// Numeric identity given by the owner.
    pub id: usize,
    /// The header shape this connection speaks, fixed for its lifetime.
    pub header: HeaderShape,
    /// Sticky: once true, no further I/O is attempted on this connection.
    pub closed: bool,
    /// The backlog buffer: bytes received but not yet resolved into a frame.
    /// Mutated only by the connection itself.
    pub buffer: Vec<u8>,
}

impl Connection {
    /// The backlog buffer: bytes received but not yet part of a frame.
    pub open spec fn backlog(&self) -> Seq<u8> {
        self.buffer@
    }

    pub fn new(id: usize, header: HeaderShape) -> (conn: Connection)
        ensures
            conn.id == id,
            conn.header == header,
            !conn.closed,
            conn.backlog() == Seq::<u8>::empty(),
    {
        Connection { id, header, closed: false, buffer: Vec::new() }
    }

    /// Appends freshly read bytes to the backlog and runs one reassembly
    /// pass: at most one complete frame comes out, and `Pending` asks the
    /// caller to call again (with no new bytes) before reading the socket.
    ///
    /// With `b` the backlog joined with the new bytes, the pass returns
    /// `NeedMoreData` and keeps `b` while no complete frame can be cut from it;
    /// rejects `b` when it outgrows the length field's ceiling or its header
    /// declares a frame shorter than the header, closing the connection and
    /// discarding the backlog; and otherwise splits the leading frame off,
    /// as `Complete` when the frame was all of `b`, as `Pending` when bytes
    /// remain behind it.
    pub fn try_read_message(&mut self, received: Vec<u8>) -> (r: Response)
        requires
            !old(self).closed,
        ensures
            final(self).id == old(self).id,
            final(self).header == old(self).header,
            ({
                let b = old(self).backlog() + received@;
                let h = old(self).header;
                &&& pass_incomplete(b, h) && !pass_oversize(b) ==> {
                    &&& r is NeedMoreData
                    &&& !final(self).closed
                    &&& final(self).backlog() == b
                }
                &&& pass_oversize(b) ==> {
                    &&& (r matches Response::Error(e) && e == ConnError::Oversize)
                    &&& final(self).closed
                    &&& final(self).backlog() == Seq::<u8>::empty()
                }
                &&& pass_malformed(b, h) && !pass_oversize(b) ==> {
                    &&& (r matches Response::Error(e) && e == ConnError::Malformed)
                    &&& final(self).closed
                    &&& final(self).backlog() == Seq::<u8>::empty()
                }
                &&& pass_frame(b, h) && !pass_oversize(b) ==> {
                    &&& !final(self).closed
                    &&& final(self).backlog() == frame_rest(b, h)
                    &&& declared_len(b, h) == b.len() ==> (r matches Response::Complete(m)
                        && m@ == frame_payload(b, h))
                    &&& declared_len(b, h) < b.len() ==> (r matches Response::Pending(m)
                        && m@ == frame_payload(b, h))
                }
            }),
    {
        let ghost b = old(self).backlog() + received@;
        let ghost shape = old(self).header;
        let mut received = received;
        self.buffer.append(&mut received);

        let h = self.header.len();
        if self.buffer.len() < h {
            // Not even the header has arrived: no frame length to go by yet.
            return Response::NeedMoreData;
        }
        if self.buffer.len() > MAX_FRAME_LEN {
            // The length field could never declare a frame this long, so the
            // backlog can never resolve: a protocol violation.
            self.closed = true;
            self.buffer.clear();
            return Response::Error(ConnError::Oversize);
        }

        let size_hi = self.buffer[h - 2];
        let size_lo = self.buffer[h - 1];
        let size = (size_hi as usize) * 256 + (size_lo as usize);

        proof {
            assert(declared_len(b, shape) == (size_hi as usize) * 256 + (size_lo as usize));
        }

        if size == self.buffer.len() {
            // The backlog holds exactly one complete frame.
            let payload = self.buffer.split_off(h);
            self.buffer.clear();
            proof {
                assert(payload@ =~= frame_payload(b, shape));
                assert(self.buffer@ =~= frame_rest(b, shape));
            }
            Response::Complete(payload)
        } else if size < self.buffer.len() {
            if size < h {
                // The frame declares a length smaller than its own header.
                self.closed = true;
                self.buffer.clear();
                return Response::Error(ConnError::Malformed);
            }
            // More than one frame's worth of bytes: cut the first frame off
            // and keep the remainder for the next pass.
            let rest = self.buffer.split_off(size);
            let payload = self.buffer.split_off(h);
            self.buffer = rest;
            proof {
                assert(payload@ =~= frame_payload(b, shape));
                assert(self.buffer@ =~= frame_rest(b, shape));
            }
            Response::Pending(payload)
        } else {
            // The frame is longer than what has arrived: wait for more.
            Response::NeedMoreData
        }
    }

    /// Stamps the simple two-byte header onto an outbound payload and hands
    /// the framed bytes back for a single write call. A payload the length
    /// field cannot cover is rejected before anything is sent; the
    /// connection is left as it was either way.
    pub fn try_write_message(&mut self, data: Vec<u8>) -> (r: Result<Vec<u8>, ConnError>)
        requires
            !old(self).closed,
            old(self).header == HeaderShape::Simple,
        ensures
            *final(self) == *old(self),
            data@.len() + 2 <= MAX_FRAME_LEN ==> (r matches Ok(framed)
                && framed@ == simple_frame(data@)),
            data@.len() + 2 > MAX_FRAME_LEN ==> (r matches Err(e) && e == ConnError::Oversize),
    {
        if data.len() > MAX_FRAME_LEN - 2 {
            return Err(ConnError::Oversize);
        }
        let ghost payload = data@;
        let len = data.len() + 2;
        let mut framed = data;
        framed.insert(0, ((len / 256) % 256) as u8);
        framed.insert(1, (len % 256) as u8);
        proof {
            assert(framed@ =~= simple_frame(payload));
        }
        Ok(framed)
    }

    /// Decides what one raw read outcome means for the drain in progress:
    /// fresh bytes extend the accumulator and the drain goes on, an
    /// interruption is retried, "would block" ends the drain with whatever
    /// has accumulated, zero bytes read or any other failure closes the
    /// connection.
    pub fn try_read(&mut self, acc: Vec<u8>, event: ReadEvent) -> (step: ReadStep)
        requires
            !old(self).closed,
        ensures
            final(self).id == old(self).id,
            final(self).header == old(self).header,
            final(self).backlog() == old(self).backlog(),
            match event {
                ReadEvent::Data(bytes) => (step matches ReadStep::More(a) && a@ == acc@ + bytes@)
                    && !final(self).closed,
                ReadEvent::Interrupted => (step matches ReadStep::More(a) && a@ == acc@)
                    && !final(self).closed,
                ReadEvent::WouldBlock => (step matches ReadStep::Done(a) && a@ == acc@)
                    && !final(self).closed,
                ReadEvent::Closed => (step matches ReadStep::Fail(e) && e == ConnError::PeerClosed)
                    && final(self).closed,
                ReadEvent::Fatal => (step matches ReadStep::Fail(e) && e == ConnError::Io)
                    && final(self).closed,
            },
    {
        match event {
            ReadEvent::Data(bytes) => {
                let mut acc = acc;
                let mut bytes = bytes;
                acc.append(&mut bytes);
                ReadStep::More(acc)
            }
            ReadEvent::Interrupted => ReadStep::More(acc),
            ReadEvent::WouldBlock => ReadStep::Done(acc),
            ReadEvent::Closed => {
                self.closed = true;
                ReadStep::Fail(ConnError::PeerClosed)
            }
            ReadEvent::Fatal => {
                self.closed = true;
                ReadStep::Fail(ConnError::Io)
            }
        }
    }

    /// Decides what one raw write outcome means. The write is all-or-nothing:
    /// a full write succeeds, a short write is fatal, "would block" means
    /// nothing was sent and the connection stays open for a later retry, an
    /// interruption repeats the same write.
    pub fn try_write(&mut self, requested: usize, event: WriteEvent) -> (step: WriteStep)
        requires
            !old(self).closed,
        ensures
            final(self).id == old(self).id,
            final(self).header == old(self).header,
            final(self).backlog() == old(self).backlog(),
            match event {
                WriteEvent::Wrote(n) => if n == requested {
                    (step matches WriteStep::Done(m) && m == n) && !final(self).closed
                } else {
                    (step matches WriteStep::Fail(e) && e == ConnError::ShortWrite)
                        && final(self).closed
                },
                WriteEvent::WouldBlock => (step matches WriteStep::NotReady)
                    && !final(self).closed,
                WriteEvent::Interrupted => (step matches WriteStep::Retry)
                    && !final(self).closed,
                WriteEvent::Fatal => (step matches WriteStep::Fail(e) && e == ConnError::Io)
                    && final(self).closed,
            },
    {
        match event {
            WriteEvent::Wrote(n) => {
                if n == requested {
                    WriteStep::Done(n)
                } else {
                    self.closed = true;
                    WriteStep::Fail(ConnError::ShortWrite)
                }
            }
            WriteEvent::WouldBlock => WriteStep::NotReady,
            WriteEvent::Interrupted => WriteStep::Retry,
            WriteEvent::Fatal => {
                self.closed = true;
                WriteStep::Fail(ConnError::Io)
            }
        }
    }
}

} // verus!

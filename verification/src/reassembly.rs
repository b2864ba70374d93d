//! The reassembly model: what one pass over the backlog buffer yields, what
//! repeated passes drain out of it, and what a whole chopped delivery of a
//! byte stream produces. The connection's executable methods promise exactly
//! these outcomes; the lemmas at the bottom state the laws of the format.

use vstd::prelude::*;

use crate::codec::be16;
use crate::codec::simple_frame;
use crate::codec::MAX_FRAME_LEN;

verus! {

/// The header shape a connection is configured with for its lifetime: a
/// two-byte length header, or a six-byte header that also carries a sender
/// id and a message id in front of the length.
#[derive(Clone, Copy, Debug, PartialEq, Eq, Structural)]
pub enum HeaderShape {
    Simple,
    Addressed,
}

impl HeaderShape {
    /// Number of header bytes in front of the payload.
    pub open spec fn spec_len(self) -> int {
        match self {
            HeaderShape::Simple => 2,
            HeaderShape::Addressed => 6,
        }
    }

    /// Number of header bytes in front of the payload.
    pub fn len(&self) -> (n: usize)
        ensures
            n == self.spec_len(),
    {
        match self {
            HeaderShape::Simple => 2,
            HeaderShape::Addressed => 6,
        }
    }
}

/// Total frame length declared by the header at the front of the backlog:
/// the last two header bytes, big-endian. Meaningful once the backlog holds
/// the whole header.
pub open spec fn declared_len(b: Seq<u8>, h: HeaderShape) -> int {
    be16(b[h.spec_len() - 2], b[h.spec_len() - 1])
}

/// The backlog has outgrown what the two-byte length field can ever declare.
pub open spec fn pass_oversize(b: Seq<u8>) -> bool {
    b.len() > MAX_FRAME_LEN as int
}

/// No complete frame yet: the backlog does not hold a full header, or the
/// header declares more bytes than have arrived so far.
pub open spec fn pass_incomplete(b: Seq<u8>, h: HeaderShape) -> bool {
    b.len() < h.spec_len() || declared_len(b, h) > b.len()
}

/// The header declares a frame shorter than the header itself: a protocol
/// violation, since a frame's length field counts the header bytes.
pub open spec fn pass_malformed(b: Seq<u8>, h: HeaderShape) -> bool {
    b.len() >= h.spec_len() && declared_len(b, h) <= b.len() && declared_len(b, h) < h.spec_len()
}

/// A complete frame stands at the front of the backlog.
pub open spec fn pass_frame(b: Seq<u8>, h: HeaderShape) -> bool {
    b.len() >= h.spec_len() && h.spec_len() <= declared_len(b, h) <= b.len()
}

/// The payload of the complete frame at the front of the backlog.
pub open spec fn frame_payload(b: Seq<u8>, h: HeaderShape) -> Seq<u8> {
    b.subrange(h.spec_len(), declared_len(b, h))
}

/// What remains of the backlog once the frame at its front is taken out.
pub open spec fn frame_rest(b: Seq<u8>, h: HeaderShape) -> Seq<u8> {
    b.skip(declared_len(b, h))
}

/// Outcome of repeatedly extracting frames from a backlog: whether the bytes
/// were acceptable, the payloads taken out in order, and the incomplete tail
/// that waits for more data.
#[verifier::ext_equal]
pub struct DrainOutcome {
    pub ok: bool,
    pub frames: Seq<Seq<u8>>,
    pub rest: Seq<u8>,
}

/// Every complete frame that repeated reassembly passes extract from a
/// backlog, in order, together with the incomplete tail they leave behind.
/// An oversized backlog or a malformed length field stops the drain.
pub open spec fn drain(b: Seq<u8>, h: HeaderShape) -> DrainOutcome
    decreases b.len(),
{
    if pass_oversize(b) || pass_malformed(b, h) {
        DrainOutcome { ok: false, frames: seq![], rest: seq![] }
    } else if pass_frame(b, h) {
        let tail = drain(frame_rest(b, h), h);
        DrainOutcome { ok: tail.ok, frames: seq![frame_payload(b, h)] + tail.frames, rest: tail.rest }
    } else {
        DrainOutcome { ok: true, frames: seq![], rest: b }
    }
}

/// Delivers chunks to the reassembler one after the other, draining every
/// complete frame between deliveries, as a caller of the connection does.
pub open spec fn feed(backlog: Seq<u8>, chunks: Seq<Seq<u8>>, h: HeaderShape) -> DrainOutcome
    decreases chunks.len(),
{
    if chunks.len() == 0 {
        DrainOutcome { ok: true, frames: seq![], rest: backlog }
    } else {
        let first = drain(backlog + chunks.first(), h);
        if !first.ok {
            DrainOutcome { ok: false, frames: first.frames, rest: seq![] }
        } else {
            let tail = feed(first.rest, chunks.drop_first(), h);
            DrainOutcome { ok: tail.ok, frames: first.frames + tail.frames, rest: tail.rest }
        }
    }
}

/// No single delivery overflows the reassembler: the backlog carried over
/// from the previous delivery, joined with the next chunk, stays within what
/// the length field can declare. This is exactly the room the protocol has;
/// a delivery beyond it is rejected as oversized.
pub open spec fn deliveries_fit(backlog: Seq<u8>, chunks: Seq<Seq<u8>>, h: HeaderShape) -> bool
    decreases chunks.len(),
{
    chunks.len() == 0 || {
        &&& (backlog + chunks.first()).len() <= MAX_FRAME_LEN
        &&& deliveries_fit(drain(backlog + chunks.first(), h).rest, chunks.drop_first(), h)
    }
}

/// The byte stream of a sequence of payloads, each framed under the simple
/// two-byte header and written back-to-back.
pub open spec fn concat_frames(ps: Seq<Seq<u8>>) -> Seq<u8>
    decreases ps.len(),
{
    if ps.len() == 0 {
        Seq::empty()
    } else {
        simple_frame(ps.first()) + concat_frames(ps.drop_first())
    }
}

/// All chunk bytes, in delivery order.
pub open spec fn concat_chunks(cs: Seq<Seq<u8>>) -> Seq<u8>
    decreases cs.len(),
{
    if cs.len() == 0 {
        Seq::empty()
    } else {
        cs.first() + concat_chunks(cs.drop_first())
    }
}

} // verus!

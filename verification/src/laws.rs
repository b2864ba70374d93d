//! The laws of the wire format: encoding and reassembly are inverses, and
//! reassembly does not depend on how the stream was chopped into reads.

use vstd::prelude::*;

use crate::codec::addressed_frame;
use crate::codec::lemma_be16_of_bytes;
use crate::codec::lemma_simple_frame_header;
use crate::codec::simple_frame;
use crate::codec::MAX_FRAME_LEN;
use crate::reassembly::concat_chunks;
use crate::reassembly::concat_frames;
use crate::reassembly::declared_len;
use crate::reassembly::deliveries_fit;
use crate::reassembly::drain;
use crate::reassembly::feed;
use crate::reassembly::frame_payload;
use crate::reassembly::frame_rest;
use crate::reassembly::pass_frame;
use crate::reassembly::pass_incomplete;
use crate::reassembly::pass_malformed;
use crate::reassembly::pass_oversize;
use crate::reassembly::DrainOutcome;
use crate::reassembly::HeaderShape;

verus! {

/// Every payload in the sequence fits under a simple frame's length field.
pub open spec fn all_frames_fit(ps: Seq<Seq<u8>>) -> bool {
    forall|i: int| 0 <= i < ps.len() ==> (#[trigger] ps[i]).len() + 2 <= MAX_FRAME_LEN
}

/// Round-trip law: draining the simple-header encoding of one payload yields
/// exactly that payload — never nothing, never anything else — and leaves an
/// empty backlog behind.
pub proof fn lemma_frame_round_trip(p: Seq<u8>)
    requires
        p.len() + 2 <= MAX_FRAME_LEN,
    ensures
        drain(simple_frame(p), HeaderShape::Simple) == (DrainOutcome {
            ok: true,
            frames: seq![p],
            rest: Seq::<u8>::empty(),
        }),
{
    let h = HeaderShape::Simple;
    let f = simple_frame(p);
    lemma_simple_frame_header(p);
    assert(declared_len(f, h) == f.len());
    assert(pass_frame(f, h));
    assert(!pass_oversize(f) && !pass_malformed(f, h));
    assert(frame_payload(f, h) =~= p);
    assert(frame_rest(f, h) =~= Seq::<u8>::empty());
    assert(drain(Seq::<u8>::empty(), h) == (DrainOutcome {
        ok: true,
        frames: Seq::<Seq<u8>>::empty(),
        rest: Seq::<u8>::empty(),
    }));
    assert(drain(f, h) =~~= (DrainOutcome { ok: true, frames: seq![p], rest: Seq::<u8>::empty() }));
}

/// A zero-length payload round-trips to one empty message, not to "no
/// message": its frame drains to exactly one frame, the empty one.
pub proof fn lemma_empty_payload_round_trip()
    ensures
        drain(simple_frame(Seq::<u8>::empty()), HeaderShape::Simple) == (DrainOutcome {
            ok: true,
            frames: seq![Seq::<u8>::empty()],
            rest: Seq::<u8>::empty(),
        }),
{
    lemma_frame_round_trip(Seq::<u8>::empty());
}

/// The addressed six-byte header runs through the same reassembler: draining
/// one addressed frame yields exactly its payload, whatever the sender and
/// message ids were.
pub proof fn lemma_addressed_frame_round_trip(from: int, id: int, p: Seq<u8>)
    requires
        p.len() + 6 <= MAX_FRAME_LEN,
    ensures
        drain(addressed_frame(from, id, p), HeaderShape::Addressed) == (DrainOutcome {
            ok: true,
            frames: seq![p],
            rest: Seq::<u8>::empty(),
        }),
{
    let h = HeaderShape::Addressed;
    let f = addressed_frame(from, id, p);
    lemma_be16_of_bytes(p.len() + 6 as int);
    assert(declared_len(f, h) == f.len());
    assert(pass_frame(f, h));
    assert(frame_payload(f, h) =~= p);
    assert(frame_rest(f, h) =~= Seq::<u8>::empty());
    assert(drain(Seq::<u8>::empty(), h) == (DrainOutcome {
        ok: true,
        frames: Seq::<Seq<u8>>::empty(),
        rest: Seq::<u8>::empty(),
    }));
    assert(drain(f, h) =~~= (DrainOutcome { ok: true, frames: seq![p], rest: Seq::<u8>::empty() }));
}

/// Cutting a payload sequence anywhere cuts its byte stream accordingly.
proof fn lemma_concat_frames_split(ps: Seq<Seq<u8>>, k: int)
    requires
        0 <= k <= ps.len(),
    ensures
        concat_frames(ps) == concat_frames(ps.take(k)) + concat_frames(ps.skip(k)),
    decreases k,
{
    if k == 0 {
        assert(ps.take(0) =~= Seq::<Seq<u8>>::empty());
        assert(ps.skip(0) =~= ps);
        assert(concat_frames(ps.take(0)) + concat_frames(ps) =~= concat_frames(ps));
    } else {
        lemma_concat_frames_split(ps.drop_first(), k - 1);
        assert(ps.take(k).first() == ps.first());
        assert(ps.take(k).drop_first() =~= ps.drop_first().take(k - 1));
        assert(ps.skip(k) =~= ps.drop_first().skip(k - 1));
        assert(concat_frames(ps) == simple_frame(ps.first()) + concat_frames(ps.drop_first()));
        assert(concat_frames(ps.take(k)) == simple_frame(ps.first()) + concat_frames(
            ps.drop_first().take(k - 1),
        ));
        assert(concat_frames(ps.take(k)) + concat_frames(ps.skip(k)) =~= concat_frames(ps));
    }
}

/// Draining whole frames followed by an incomplete tail yields exactly those
/// frames, in order, and leaves exactly that tail.
proof fn lemma_drain_frames_then_tail(ps: Seq<Seq<u8>>, r: Seq<u8>)
    requires
        all_frames_fit(ps),
        concat_frames(ps).len() + r.len() <= MAX_FRAME_LEN,
        pass_incomplete(r, HeaderShape::Simple),
    ensures
        drain(concat_frames(ps) + r, HeaderShape::Simple) == (DrainOutcome {
            ok: true,
            frames: ps,
            rest: r,
        }),
    decreases ps.len(),
{
    let h = HeaderShape::Simple;
    let b = concat_frames(ps) + r;
    if ps.len() == 0 {
        assert(b =~= r);
        assert(!pass_oversize(b));
        assert(!pass_malformed(b, h));
        assert(!pass_frame(b, h));
        assert(drain(b, h) =~~= (DrainOutcome { ok: true, frames: ps, rest: r }));
    } else {
        let p0 = ps.first();
        let f0 = simple_frame(p0);
        let dp = ps.drop_first();
        let tail = concat_frames(dp) + r;
        assert(p0.len() + 2 <= MAX_FRAME_LEN);
        lemma_simple_frame_header(p0);
        assert(concat_frames(ps) == f0 + concat_frames(dp));
        assert(b =~= f0 + tail);
        assert(b[0] == f0[0] && b[1] == f0[1]);
        assert(declared_len(b, h) == p0.len() + 2);
        assert(!pass_oversize(b));
        assert(pass_frame(b, h));
        assert(!pass_malformed(b, h));
        assert(frame_payload(b, h) =~= p0);
        assert(frame_rest(b, h) =~= tail);
        assert forall|i: int| 0 <= i < dp.len() implies (#[trigger] dp[i]).len() + 2
            <= MAX_FRAME_LEN by {
            assert(dp[i] == ps[i + 1]);
        }
        lemma_drain_frames_then_tail(dp, r);
        assert(drain(b, h).frames =~= ps);
        assert(drain(b, h) =~~= (DrainOutcome { ok: true, frames: ps, rest: r }));
    }
}

/// A prefix of a stream of whole frames splits into some leading whole
/// frames and an incomplete front of the next frame.
proof fn lemma_stream_prefix_split(ps: Seq<Seq<u8>>, b: Seq<u8>) -> (k: int)
    requires
        all_frames_fit(ps),
        b.len() <= concat_frames(ps).len(),
        b == concat_frames(ps).take(b.len() as int),
    ensures
        0 <= k <= ps.len(),
        concat_frames(ps.take(k)).len() <= b.len(),
        b == concat_frames(ps.take(k)) + b.skip(concat_frames(ps.take(k)).len() as int),
        pass_incomplete(b.skip(concat_frames(ps.take(k)).len() as int), HeaderShape::Simple),
    decreases ps.len(),
{
    let h = HeaderShape::Simple;
    if ps.len() == 0 {
        assert(concat_frames(ps).len() == 0);
        assert(b =~= Seq::<u8>::empty());
        assert(ps.take(0) =~= ps);
        assert(b.skip(0) =~= b);
        assert(b =~= concat_frames(ps.take(0)) + b.skip(0));
        0
    } else {
        let p0 = ps.first();
        let f0 = simple_frame(p0);
        let dp = ps.drop_first();
        assert(p0.len() + 2 <= MAX_FRAME_LEN);
        lemma_simple_frame_header(p0);
        assert(concat_frames(ps) == f0 + concat_frames(dp));
        let n0 = f0.len() as int;
        if b.len() < n0 {
            assert(ps.take(0) =~= Seq::<Seq<u8>>::empty());
            assert(concat_frames(ps.take(0)).len() == 0);
            if b.len() >= 2 {
                assert(b[0] == f0[0] && b[1] == f0[1]);
                assert(declared_len(b, h) == p0.len() + 2);
            }
            assert(pass_incomplete(b, h));
            assert(b.skip(0) =~= b);
            assert(b =~= concat_frames(ps.take(0)) + b.skip(0));
            0
        } else {
            let brest = b.skip(n0);
            assert forall|i: int| 0 <= i < dp.len() implies (#[trigger] dp[i]).len() + 2
                <= MAX_FRAME_LEN by {
                assert(dp[i] == ps[i + 1]);
            }
            assert(brest =~= concat_frames(dp).take(brest.len() as int));
            let k1 = lemma_stream_prefix_split(dp, brest);
            let k = k1 + 1;
            assert(ps.take(k).first() == p0);
            assert(ps.take(k).drop_first() =~= dp.take(k1));
            assert(concat_frames(ps.take(k)) == f0 + concat_frames(dp.take(k1)));
            let m = concat_frames(dp.take(k1)).len() as int;
            assert(b.take(n0) =~= f0);
            assert(b =~= f0 + brest);
            assert(b.skip(n0 + m) =~= brest.skip(m));
            assert(b =~= concat_frames(ps.take(k)) + b.skip(n0 + m));
            k
        }
    }
}

/// Feeding chunks that spell out a stream of whole frames, starting from an
/// incomplete leftover, extracts exactly the remaining payloads.
proof fn lemma_feed_stream(ps: Seq<Seq<u8>>, r: Seq<u8>, chunks: Seq<Seq<u8>>)
    requires
        all_frames_fit(ps),
        r + concat_chunks(chunks) == concat_frames(ps),
        deliveries_fit(r, chunks, HeaderShape::Simple),
        pass_incomplete(r, HeaderShape::Simple),
    ensures
        feed(r, chunks, HeaderShape::Simple) == (DrainOutcome {
            ok: true,
            frames: ps,
            rest: Seq::<u8>::empty(),
        }),
    decreases chunks.len(),
{
    let h = HeaderShape::Simple;
    if chunks.len() == 0 {
        assert(r =~= concat_frames(ps));
        if ps.len() > 0 {
            let p0 = ps.first();
            let f0 = simple_frame(p0);
            lemma_simple_frame_header(p0);
            assert(concat_frames(ps) == f0 + concat_frames(ps.drop_first()));
            assert(r.len() >= f0.len() >= 2);
            assert(r[0] == f0[0] && r[1] == f0[1]);
            assert(declared_len(r, h) == f0.len());
            assert(!pass_incomplete(r, h));
        }
        assert(ps.len() == 0);
        assert(concat_frames(ps).len() == 0);
        assert(r =~= Seq::<u8>::empty());
        assert(feed(r, chunks, h) =~~= (DrainOutcome {
            ok: true,
            frames: ps,
            rest: Seq::<u8>::empty(),
        }));
    } else {
        let b = r + chunks.first();
        let rest_chunks = chunks.drop_first();
        assert(b.len() <= MAX_FRAME_LEN);
        assert(concat_chunks(chunks) == chunks.first() + concat_chunks(rest_chunks));
        assert(b + concat_chunks(rest_chunks) =~= concat_frames(ps));
        assert(b.len() <= concat_frames(ps).len());
        assert(b =~= concat_frames(ps).take(b.len() as int));
        let k = lemma_stream_prefix_split(ps, b);
        let taken = ps.take(k);
        let m = concat_frames(taken).len() as int;
        let tail_backlog = b.skip(m);
        assert forall|i: int| 0 <= i < taken.len() implies (#[trigger] taken[i]).len() + 2
            <= MAX_FRAME_LEN by {
            assert(taken[i] == ps[i]);
        }
        assert(concat_frames(taken).len() + tail_backlog.len() == b.len() <= MAX_FRAME_LEN);
        lemma_drain_frames_then_tail(taken, tail_backlog);
        assert(concat_frames(taken) + tail_backlog =~= b);
        assert(drain(b, h) == (DrainOutcome { ok: true, frames: taken, rest: tail_backlog }));

        // What is still owed after this delivery: the payloads past `k`.
        let left = ps.skip(k);
        lemma_concat_frames_split(ps, k);
        assert forall|i: int| 0 <= i < left.len() implies (#[trigger] left[i]).len() + 2
            <= MAX_FRAME_LEN by {
            assert(left[i] == ps[i + k]);
        }
        assert((concat_frames(taken) + tail_backlog) + concat_chunks(rest_chunks) =~= concat_frames(
            taken,
        ) + concat_frames(left));
        assert(tail_backlog + concat_chunks(rest_chunks) =~= (b + concat_chunks(
            rest_chunks,
        )).skip(m));
        assert((concat_frames(taken) + concat_frames(left)).skip(m) =~= concat_frames(left));
        assert(tail_backlog + concat_chunks(rest_chunks) == concat_frames(left));
        assert(deliveries_fit(tail_backlog, rest_chunks, h));
        lemma_feed_stream(left, tail_backlog, rest_chunks);
        assert(taken + left =~= ps);
        assert(feed(r, chunks, h) =~~= (DrainOutcome {
            ok: true,
            frames: ps,
            rest: Seq::<u8>::empty(),
        }));
    }
}

/// Reassembly is chunk-boundary-independent: frames written back-to-back and
/// delivered in chunks chopped any way at all — byte by byte, all in one
/// piece, or anything between — come back out as exactly the original
/// payload sequence, in order, with nothing left over. The one condition is
/// the protocol's own ceiling: no single delivery may stretch the backlog
/// past what the length field can declare.
pub proof fn lemma_reassembly_chunk_independent(ps: Seq<Seq<u8>>, chunks: Seq<Seq<u8>>)
    requires
        all_frames_fit(ps),
        concat_chunks(chunks) == concat_frames(ps),
        deliveries_fit(Seq::<u8>::empty(), chunks, HeaderShape::Simple),
    ensures
        feed(Seq::<u8>::empty(), chunks, HeaderShape::Simple) == (DrainOutcome {
            ok: true,
            frames: ps,
            rest: Seq::<u8>::empty(),
        }),
{
    assert(Seq::<u8>::empty() + concat_chunks(chunks) =~= concat_frames(ps));
    lemma_feed_stream(ps, Seq::<u8>::empty(), chunks);
}

/// A stream that fits under the ceiling as a whole can be chopped any way at
/// all: every delivery then fits as well.
proof fn lemma_deliveries_fit_under_cap(ps: Seq<Seq<u8>>, r: Seq<u8>, chunks: Seq<Seq<u8>>)
    requires
        all_frames_fit(ps),
        r + concat_chunks(chunks) == concat_frames(ps),
        concat_frames(ps).len() <= MAX_FRAME_LEN,
        pass_incomplete(r, HeaderShape::Simple),
    ensures
        deliveries_fit(r, chunks, HeaderShape::Simple),
    decreases chunks.len(),
{
    let h = HeaderShape::Simple;
    if chunks.len() > 0 {
        let b = r + chunks.first();
        let rest_chunks = chunks.drop_first();
        assert(concat_chunks(chunks) == chunks.first() + concat_chunks(rest_chunks));
        assert(b + concat_chunks(rest_chunks) =~= concat_frames(ps));
        assert(b.len() <= concat_frames(ps).len());
        assert(b =~= concat_frames(ps).take(b.len() as int));
        let k = lemma_stream_prefix_split(ps, b);
        let taken = ps.take(k);
        let m = concat_frames(taken).len() as int;
        let tail_backlog = b.skip(m);
        assert forall|i: int| 0 <= i < taken.len() implies (#[trigger] taken[i]).len() + 2
            <= MAX_FRAME_LEN by {
            assert(taken[i] == ps[i]);
        }
        lemma_drain_frames_then_tail(taken, tail_backlog);
        assert(concat_frames(taken) + tail_backlog =~= b);

        let left = ps.skip(k);
        lemma_concat_frames_split(ps, k);
        assert forall|i: int| 0 <= i < left.len() implies (#[trigger] left[i]).len() + 2
            <= MAX_FRAME_LEN by {
            assert(left[i] == ps[i + k]);
        }
        assert((concat_frames(taken) + tail_backlog) + concat_chunks(rest_chunks) =~= concat_frames(
            taken,
        ) + concat_frames(left));
        assert(tail_backlog + concat_chunks(rest_chunks) =~= (b + concat_chunks(
            rest_chunks,
        )).skip(m));
        assert((concat_frames(taken) + concat_frames(left)).skip(m) =~= concat_frames(left));
        assert(tail_backlog + concat_chunks(rest_chunks) == concat_frames(left));
        lemma_deliveries_fit_under_cap(left, tail_backlog, rest_chunks);
    }
}

/// Chunk-boundary independence under the simplest headroom condition: when
/// the whole stream fits under the 65535-byte ceiling, any chopping of it
/// reassembles to exactly the original payloads.
pub proof fn lemma_reassembly_under_cap(ps: Seq<Seq<u8>>, chunks: Seq<Seq<u8>>)
    requires
        all_frames_fit(ps),
        concat_chunks(chunks) == concat_frames(ps),
        concat_frames(ps).len() <= MAX_FRAME_LEN,
    ensures
        feed(Seq::<u8>::empty(), chunks, HeaderShape::Simple) == (DrainOutcome {
            ok: true,
            frames: ps,
            rest: Seq::<u8>::empty(),
        }),
{
    assert(Seq::<u8>::empty() + concat_chunks(chunks) =~= concat_frames(ps));
    lemma_deliveries_fit_under_cap(ps, Seq::<u8>::empty(), chunks);
    lemma_reassembly_chunk_independent(ps, chunks);
}

/// A pause in the middle of a frame loses nothing: a frame delivered as two
/// pieces, cut anywhere, still comes out whole once both have arrived.
pub proof fn lemma_split_frame_still_delivered(p: Seq<u8>, cut: int)
    requires
        p.len() + 2 <= MAX_FRAME_LEN,
        0 <= cut <= simple_frame(p).len(),
    ensures
        feed(
            Seq::<u8>::empty(),
            seq![simple_frame(p).take(cut), simple_frame(p).skip(cut)],
            HeaderShape::Simple,
        ) == (DrainOutcome { ok: true, frames: seq![p], rest: Seq::<u8>::empty() }),
{
    let f = simple_frame(p);
    let chunks = seq![f.take(cut), f.skip(cut)];
    let c2 = seq![f.skip(cut)];
    assert(chunks.drop_first() =~= c2);
    assert(c2.drop_first() =~= Seq::<Seq<u8>>::empty());
    assert(concat_chunks(c2.drop_first()) =~= Seq::<u8>::empty());
    assert(concat_chunks(c2) =~= f.skip(cut));
    assert(concat_chunks(chunks) =~= f.take(cut) + f.skip(cut));
    assert(concat_chunks(chunks) =~= f);
    let ps1 = seq![p];
    assert(ps1.drop_first() =~= Seq::<Seq<u8>>::empty());
    assert(concat_frames(ps1.drop_first()) =~= Seq::<u8>::empty());
    assert(concat_frames(ps1) =~= f);
    assert(all_frames_fit(ps1));
    lemma_reassembly_under_cap(ps1, chunks);
}

} // verus!

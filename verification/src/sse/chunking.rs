//! Transport chunk boundaries do not change what a streamed body decodes to, as long as the
//! undecoded residue stays within its bound.
use vstd::prelude::*;
use crate::canonical::Event;
use crate::errors::{GatewayError, spec_stream_truncated_error, spec_upstream_protocol_error};
use crate::sse::decoder::{DecoderView, chunk_at, decode_body, decode_chunks, drain_all, initial_model, lemma_next_frame_shorter};
use crate::sse::frame::{
    MAX_SSE_FRAME_BYTES, delimiter_at, first_delimiter_from, lemma_first_delimiter_bounds,
    lemma_first_delimiter_skip, next_frame,
};
use crate::usage::P12ResponseUsageProjection;

verus! {

/// A complete frame of a residue stays its first frame whatever bytes arrive after it.
pub proof fn lemma_next_frame_extends(r: Seq<u8>, c: Seq<u8>)
    ensures
        match next_frame(r) {
            Some((f, rest)) => next_frame(r + c) == Some((f, rest + c)),
            None => true,
        },
{
    lemma_first_delimiter_bounds(r, 0);
    let q = first_delimiter_from(r, 0);
    if q < r.len() {
        let rc = r + c;
        let d = delimiter_at(r, q);
        assert(q + d <= r.len());
        assert forall|k: int| 0 <= k < q implies delimiter_at(rc, k) == 0 by {
            assert(delimiter_at(r, k) == 0);
            assert(rc[k] == r[k]);
            assert(rc[k + 1] == r[k + 1]);
            if k + 3 < r.len() {
                assert(rc[k + 2] == r[k + 2]);
                assert(rc[k + 3] == r[k + 3]);
            } else {
                assert(k == q - 1 && d == 2);
                assert(rc[q + 1] == r[q + 1]);
            }
        }
        assert(rc[q] == r[q]);
        assert(rc[q + 1] == r[q + 1]);
        if d == 4 {
            assert(rc[q + 2] == r[q + 2]);
            assert(rc[q + 3] == r[q + 3]);
        }
        assert(delimiter_at(rc, q) == d);
        lemma_first_delimiter_skip(rc, q);
        assert(first_delimiter_from(rc, 0) == q);
        assert(rc.take(q) =~= r.take(q));
        assert(rc.skip(q + d) =~= r.skip(q + d) + c);
    }
}

/// Draining a residue extended by `c` drains the residue, then the rest with `c`.
pub proof fn lemma_drain_all_extends(m: DecoderView, r: Seq<u8>, c: Seq<u8>)
    ensures
        drain_all(m, r + c) == match drain_all(m, r) {
            None => None,
            Some((m1, r1)) => drain_all(m1, r1 + c),
        },
    decreases r.len(),
{
    if !(m.life is Finished) {
        lemma_next_frame_extends(r, c);
        match next_frame(r) {
            Some((f, rest)) => {
                lemma_next_frame_shorter(r);
                match crate::sse::decoder::frame_step(DecoderView { p: Seq::empty(), ..m }, f) {
                    None => {},
                    Some(m2) => {
                        lemma_drain_all_extends(DecoderView { p: m.p + m2.p, ..m2 }, rest, c);
                    },
                }
            },
            None => {},
        }
    }
}

/// Whether the decoder stopped draining: the response finished or no complete frame is left.
pub open spec fn drained(m: DecoderView, r: Seq<u8>) -> bool {
    m.life is Finished || next_frame(r) is None
}

/// What draining leaves is drained.
pub proof fn lemma_drain_all_drained(m: DecoderView, r: Seq<u8>)
    ensures
        drain_all(m, r) matches Some((m1, r1)) ==> drained(m1, r1),
    decreases r.len(),
{
    if !(m.life is Finished) {
        match next_frame(r) {
            Some((f, rest)) => {
                lemma_next_frame_shorter(r);
                match crate::sse::decoder::frame_step(DecoderView { p: Seq::empty(), ..m }, f) {
                    None => {},
                    Some(m2) => {
                        lemma_drain_all_drained(DecoderView { p: m.p + m2.p, ..m2 }, rest);
                    },
                }
            },
            None => {},
        }
    }
}

/// Whether pushing `body[pos..]` in chunks of `size` bytes after state `m` and residue `r`
/// never grows the undecoded residue past [`MAX_SSE_FRAME_BYTES`] before decoding ends.
pub open spec fn chunks_within_budget(m: DecoderView, r: Seq<u8>, body: Seq<u8>, pos: int, size: int) -> bool
    decreases body.len() - pos,
{
    if pos < 0 || pos >= body.len() || size <= 0 {
        true
    } else {
        let chunk = chunk_at(body, pos, size);
        r.len() + chunk.len() <= MAX_SSE_FRAME_BYTES && match drain_all(m, r + chunk) {
            None => true,
            Some((m2, r2)) => {
                proof {
                    assert(chunk.len() >= 1);
                }
                chunks_within_budget(m2, r2, body, pos + chunk.len(), size)
            },
        }
    }
}

/// Whether decoding `body` in chunks of `size` bytes keeps the residue within its bound.
pub open spec fn within_frame_budget(body: Seq<u8>, size: int, projection: P12ResponseUsageProjection) -> bool {
    chunks_within_budget(initial_model(projection), Seq::empty(), body, 0, if size < 1 {
        1
    } else {
        size
    })
}

/// What decoding the bytes `r` after state `m` yields when they arrive at once and with no
/// bound on the residue.
pub open spec fn decode_whole(m: DecoderView, r: Seq<u8>) -> Result<Seq<Event>, GatewayError> {
    match drain_all(m, r) {
        None => Err(spec_upstream_protocol_error()),
        Some((m1, r1)) => if m1.life is Finished {
            Ok(m1.p)
        } else {
            Err(spec_stream_truncated_error())
        },
    }
}

proof fn lemma_chunks_decode_whole(m: DecoderView, r: Seq<u8>, body: Seq<u8>, pos: int, size: int)
    requires
        0 <= pos <= body.len(),
        size >= 1,
        drained(m, r),
        chunks_within_budget(m, r, body, pos, size),
    ensures
        decode_chunks(m, r, body, pos, size) == decode_whole(m, r + body.skip(pos)),
    decreases body.len() - pos,
{
    if pos >= body.len() {
        assert(r + body.skip(pos) =~= r);
        lemma_next_frame_shorter(r);
    } else {
        let chunk = chunk_at(body, pos, size);
        let rest = body.skip(pos + chunk.len());
        assert(chunk.len() >= 1);
        assert(r + body.skip(pos) =~= (r + chunk) + rest);
        lemma_drain_all_extends(m, r + chunk, rest);
        match drain_all(m, r + chunk) {
            None => {},
            Some((m2, r2)) => {
                lemma_drain_all_drained(m, r + chunk);
                lemma_chunks_decode_whole(m2, r2, body, pos + chunk.len(), size);
            },
        }
    }
}

/// Within the frame budget, decoding a body in chunks of `size` bytes yields what decoding it
/// at once yields.
pub proof fn lemma_chunked_decoding_is_whole_decoding(
    body: Seq<u8>,
    size: int,
    projection: P12ResponseUsageProjection,
)
    requires
        within_frame_budget(body, size, projection),
    ensures
        decode_body(body, size, projection) == decode_whole(initial_model(projection), body),
{
    let s = if size < 1 {
        1
    } else {
        size
    };
    let m = initial_model(projection);
    lemma_next_frame_shorter(Seq::<u8>::empty());
    lemma_first_delimiter_bounds(Seq::<u8>::empty(), 0);
    lemma_chunks_decode_whole(m, Seq::empty(), body, 0, s);
    assert(Seq::<u8>::empty() + body.skip(0) =~= body);
}

/// Transport chunk boundaries never change what a streamed body decodes to: any two chunk
/// sizes under which the undecoded residue stays within its bound decode the same events, or
/// the same failure.
pub proof fn lemma_decoding_is_independent_of_chunk_boundaries(
    body: Seq<u8>,
    first: int,
    second: int,
    projection: P12ResponseUsageProjection,
)
    requires
        within_frame_budget(body, first, projection),
        within_frame_budget(body, second, projection),
    ensures
        decode_body(body, first, projection) == decode_body(body, second, projection),
{
    lemma_chunked_decoding_is_whole_decoding(body, first, projection);
    lemma_chunked_decoding_is_whole_decoding(body, second, projection);
}

/// Draining never leaves more undecoded bytes than it was given.
pub proof fn lemma_drain_all_residue_shrinks(m: DecoderView, r: Seq<u8>)
    ensures
        drain_all(m, r) matches Some((m2, r2)) ==> r2.len() <= r.len(),
    decreases r.len(),
{
    if !(m.life is Finished) {
        match next_frame(r) {
            None => {},
            Some((f, rest)) => {
                lemma_next_frame_shorter(r);
                match crate::sse::decoder::frame_step(DecoderView { p: Seq::empty(), ..m }, f) {
                    None => {},
                    Some(m2) => {
                        lemma_drain_all_residue_shrinks(DecoderView { p: m.p + m2.p, ..m2 }, rest);
                    },
                }
            },
        }
    }
}

proof fn lemma_small_bodies_stay_within_budget(m: DecoderView, r: Seq<u8>, body: Seq<u8>, pos: int, size: int)
    requires
        0 <= pos <= body.len(),
        size >= 1,
        r.len() + (body.len() - pos) <= MAX_SSE_FRAME_BYTES,
    ensures
        chunks_within_budget(m, r, body, pos, size),
    decreases body.len() - pos,
{
    if pos < body.len() {
        let chunk = chunk_at(body, pos, size);
        assert(chunk.len() >= 1 && chunk.len() <= body.len() - pos);
        lemma_drain_all_residue_shrinks(m, r + chunk);
        match drain_all(m, r + chunk) {
            None => {},
            Some((m2, r2)) => {
                lemma_small_bodies_stay_within_budget(m2, r2, body, pos + chunk.len(), size);
            },
        }
    }
}

/// A body no longer than [`MAX_SSE_FRAME_BYTES`] stays within the frame budget under every
/// chunk size, so its decoding never depends on where the transport cut it.
pub proof fn lemma_bounded_bodies_decode_independently_of_chunking(
    body: Seq<u8>,
    first: int,
    second: int,
    projection: P12ResponseUsageProjection,
)
    requires
        body.len() <= MAX_SSE_FRAME_BYTES,
    ensures
        within_frame_budget(body, first, projection),
        within_frame_budget(body, second, projection),
        decode_body(body, first, projection) == decode_body(body, second, projection),
{
    let s1 = if first < 1 {
        1
    } else {
        first
    };
    let s2 = if second < 1 {
        1
    } else {
        second
    };
    lemma_small_bodies_stay_within_budget(initial_model(projection), Seq::empty(), body, 0, s1);
    lemma_small_bodies_stay_within_budget(initial_model(projection), Seq::empty(), body, 0, s2);
    lemma_decoding_is_independent_of_chunk_boundaries(body, first, second, projection);
}

} // verus!

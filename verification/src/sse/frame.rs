//! SSE frame reassembly under a bounded undecoded residue.
use vstd::prelude::*;
use vstd::slice::{slice_subrange, slice_to_vec};
use crate::errors::{upstream_protocol_error, spec_upstream_protocol_error, GatewayError};

verus! {

/// The largest complete non-streaming body the runtime buffers.
pub const MAX_UPSTREAM_RESPONSE_BYTES: usize = 8 * 1024 * 1024;

/// The largest undelivered SSE residue buffered between two canonical events. A single
/// frame may repeat the whole accumulated output, so this matches the complete-body bound.
pub const MAX_SSE_FRAME_BYTES: usize = MAX_UPSTREAM_RESPONSE_BYTES;

/// The length of the frame delimiter (`\n\n` or `\r\n\r\n`) that starts at `q`, or 0.
pub open spec fn delimiter_at(r: Seq<u8>, q: int) -> int {
    if 0 <= q && q + 1 < r.len() && r[q] == 10 && r[q + 1] == 10 {
        2
    } else if 0 <= q && q + 3 < r.len() && r[q] == 13 && r[q + 1] == 10 && r[q + 2] == 13 && r[q
        + 3] == 10 {
        4
    } else {
        0
    }
}

/// The first position at or after `i` where a delimiter starts, or the length.
pub open spec fn first_delimiter_from(r: Seq<u8>, i: int) -> int
    decreases r.len() - i,
{
    if i < 0 || i >= r.len() {
        r.len() as int
    } else if delimiter_at(r, i) > 0 {
        i
    } else {
        first_delimiter_from(r, i + 1)
    }
}

/// The first complete frame of the residue `r` and the residue after it and its delimiter.
pub open spec fn next_frame(r: Seq<u8>) -> Option<(Seq<u8>, Seq<u8>)> {
    let q = first_delimiter_from(r, 0);
    if q >= r.len() {
        None
    } else {
        Some((r.take(q), r.skip(q + delimiter_at(r, q))))
    }
}

pub proof fn lemma_first_delimiter_bounds(r: Seq<u8>, i: int)
    requires
        0 <= i <= r.len(),
    ensures
        i <= first_delimiter_from(r, i) <= r.len(),
        first_delimiter_from(r, i) < r.len() ==> delimiter_at(r, first_delimiter_from(r, i)) > 0,
        forall|k: int| i <= k < first_delimiter_from(r, i) ==> delimiter_at(r, k) == 0,
    decreases r.len() - i,
{
    if i < r.len() && delimiter_at(r, i) == 0 {
        lemma_first_delimiter_bounds(r, i + 1);
    }
}

/// The first delimiter of `r` is the first position past a delimiter-free prefix `[0, j)`.
pub proof fn lemma_first_delimiter_skip(r: Seq<u8>, j: int)
    requires
        0 <= j <= r.len(),
        forall|k: int| 0 <= k < j ==> delimiter_at(r, k) == 0,
    ensures
        first_delimiter_from(r, 0) == first_delimiter_from(r, j),
    decreases j,
{
    if j > 0 {
        lemma_first_delimiter_skip_from(r, 0, j);
    }
}

proof fn lemma_first_delimiter_skip_from(r: Seq<u8>, i: int, j: int)
    requires
        0 <= i <= j <= r.len(),
        forall|k: int| i <= k < j ==> delimiter_at(r, k) == 0,
    ensures
        first_delimiter_from(r, i) == first_delimiter_from(r, j),
    decreases j - i,
{
    if i < j {
        lemma_first_delimiter_skip_from(r, i + 1, j);
    }
}

/// Reassembles SSE frames from transport chunks of arbitrary size.
///
/// Only the undecoded residue counts against [`MAX_SSE_FRAME_BYTES`]; decoded bytes are
/// compacted away once they outweigh it, so the buffer never exceeds twice that bound, and the
/// delimiter scan resumes where it stopped so every byte is examined a bounded number of times.
pub struct SseFrameBuffer {
    buffer: Vec<u8>,
    consumed: usize,
    scanned: usize,
}

impl SseFrameBuffer {
    /// The undecoded residue: bytes received and not yet returned in a frame.
    pub closed spec fn residue(&self) -> Seq<u8> {
        self.buffer@.subrange(self.consumed as int, self.buffer@.len() as int)
    }

    /// The number of bytes the buffer currently holds, decoded prefix included.
    pub closed spec fn held(&self) -> nat {
        self.buffer@.len()
    }

    pub closed spec fn wf(&self) -> bool {
        &&& self.consumed <= self.scanned <= self.buffer@.len()
        &&& self.buffer@.len() <= 2 * MAX_SSE_FRAME_BYTES
        &&& self.buffer@.len() - self.consumed <= MAX_SSE_FRAME_BYTES
        &&& (self.scanned == self.consumed || self.scanned + 3 <= self.buffer@.len())
        &&& forall|q: int|
            self.consumed <= q < self.scanned ==> delimiter_at(self.buffer@, q) == 0
    }

    pub proof fn lemma_wf_bounds(&self)
        requires
            self.wf(),
        ensures
            self.residue().len() <= MAX_SSE_FRAME_BYTES,
            self.held() <= 2 * MAX_SSE_FRAME_BYTES,
    {
    }

    pub fn new() -> (b: Self)
        ensures
            b.wf(),
            b.residue() == Seq::<u8>::empty(),
    {
        SseFrameBuffer { buffer: Vec::new(), consumed: 0, scanned: 0 }
    }

    /// The number of bytes held, decoded prefix included.
    pub fn held_len(&self) -> (n: usize)
        ensures
            n == self.held(),
    {
        self.buffer.len()
    }

    /// The number of bytes received and not yet decoded into a frame.
    pub fn residue_len(&self) -> (n: usize)
        requires
            self.wf(),
        ensures
            n == self.residue().len(),
    {
        self.buffer.len() - self.consumed
    }

    /// Appends one transport chunk without interpreting it, or rejects it when the residue
    /// would exceed [`MAX_SSE_FRAME_BYTES`].
    pub fn push_chunk(&mut self, chunk: &[u8]) -> (r: Result<(), GatewayError>)
        requires
            old(self).wf(),
        ensures
            final(self).wf(),
            old(self).residue().len() + chunk@.len() > MAX_SSE_FRAME_BYTES ==> r == Err::<
                (),
                GatewayError,
            >(spec_upstream_protocol_error()) && final(self).residue() == old(self).residue()
                && final(self).held() <= old(self).held(),
            old(self).residue().len() + chunk@.len() <= MAX_SSE_FRAME_BYTES ==> r is Ok
                && final(self).residue() == old(self).residue() + chunk@,
    {
        let ghost r0 = self.residue();
        if self.consumed >= self.buffer.len() - self.consumed {
            let ghost old_buffer = self.buffer@;
            let ghost old_consumed = self.consumed as int;
            let tail = self.buffer.split_off(self.consumed);
            self.buffer = tail;
            self.scanned = self.scanned - self.consumed;
            self.consumed = 0;
            assert(self.buffer@ == r0);
            assert(self.buffer@.subrange(0, self.buffer@.len() as int) == self.buffer@);
            assert forall|q: int| 0 <= q < self.scanned implies delimiter_at(self.buffer@, q)
                == 0 by {
                assert(delimiter_at(old_buffer, q + old_consumed) == 0);
                assert(delimiter_at(self.buffer@, q) == delimiter_at(old_buffer, q + old_consumed));
            }
        }
        let live = self.buffer.len() - self.consumed;
        if chunk.len() > MAX_SSE_FRAME_BYTES - live {
            return Err(upstream_protocol_error());
        }
        let ghost before = self.buffer@;
        self.buffer.extend_from_slice(chunk);
        assert(self.buffer@ == before + chunk@) by {
            assert forall|i: int| 0 <= i < self.buffer@.len() implies self.buffer@[i] == (before
                + chunk@)[i] by {
                if i >= before.len() {
                    assert(cloned::<u8>(chunk@[i - before.len()], self.buffer@[i]));
                }
            }
        }
        assert(self.residue() == r0 + chunk@);
        assert forall|q: int| self.consumed <= q < self.scanned implies delimiter_at(
            self.buffer@,
            q,
        ) == 0 by {
            assert(delimiter_at(self.buffer@, q) == delimiter_at(before, q));
        }
        Ok(())
    }

    /// Extracts the next complete frame from the residue, resuming the delimiter scan where
    /// it last stopped. When no delimiter is found the resume point holds back the last three
    /// bytes, since a delimiter completed by a later chunk can begin no earlier than that.
    pub fn take_frame(&mut self) -> (r: Option<Vec<u8>>)
        requires
            old(self).wf(),
        ensures
            final(self).wf(),
            final(self).held() == old(self).held(),
            match next_frame(old(self).residue()) {
                None => r is None && final(self).residue() == old(self).residue(),
                Some((frame, rest)) => r matches Some(f) && f@ == frame && final(self).residue()
                    == rest,
            },
    {
        let ghost r0 = self.residue();
        let ghost c0 = self.consumed as int;
        let mut position = self.scanned;
        let len = self.buffer.len();
        while position < len
            invariant
                self.wf(),
                r0 == self.residue(),
                r0 == old(self).residue(),
                self.buffer@ == old(self).buffer@,
                c0 == self.consumed,
                len == self.buffer@.len(),
                self.scanned <= position <= len,
                forall|q: int| self.consumed <= q < position ==> delimiter_at(self.buffer@, q) == 0,
            decreases len - position,
        {
            let found: usize = if position + 1 < len && self.buffer[position] == 10
                && self.buffer[position + 1] == 10 {
                2
            } else if position + 3 < len && self.buffer[position] == 13 && self.buffer[position
                + 1] == 10 && self.buffer[position + 2] == 13 && self.buffer[position + 3] == 10 {
                4
            } else {
                0
            };
            assert(found == delimiter_at(self.buffer@, position as int));
            if found > 0 {
                let frame = slice_to_vec(
                    slice_subrange(self.buffer.as_slice(), self.consumed, position),
                );
                proof {
                    let q = position - c0;
                    assert forall|k: int| 0 <= k < q implies delimiter_at(r0, k) == 0 by {
                        assert(delimiter_at(r0, k) == delimiter_at(self.buffer@, k + c0));
                    }
                    assert(delimiter_at(r0, q) == found);
                    lemma_first_delimiter_skip(r0, q);
                    assert(first_delimiter_from(r0, 0) == q);
                    assert(frame@ == r0.take(q));
                }
                self.consumed = position + found;
                self.scanned = self.consumed;
                assert(self.residue() == r0.skip(position - c0 + found));
                return Some(frame);
            }
            position = position + 1;
        }
        proof {
            let n = r0.len() as int;
            assert forall|k: int| 0 <= k < n implies delimiter_at(r0, k) == 0 by {
                assert(delimiter_at(r0, k) == delimiter_at(self.buffer@, k + c0));
            }
            lemma_first_delimiter_skip(r0, n);
        }
        let held_back = if len >= 3 {
            len - 3
        } else {
            0
        };
        self.scanned = if held_back > self.consumed {
            held_back
        } else {
            self.consumed
        };
        None
    }
}

} // verus!

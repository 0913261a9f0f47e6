//! One streamed tool call: its assembled argument text and the part already delivered.
use vstd::prelude::*;
use vstd::utf8::*;
use vstd::string::StringSliceAdditionalSpecFns;
use crate::canonical::{CanonicalEvent, Event, EventQueue, GrammarState, grammar_step};
use crate::errors::{GatewayError, spec_upstream_protocol_error, upstream_protocol_error};
use crate::json::{json_parse, parse_json};

verus! {

broadcast use {encode_utf8_valid_utf8, encode_utf8_decode_utf8, is_char_boundary_start_end_of_seq};

/// The JSON whitespace bytes: space, tab, line feed and carriage return.
pub open spec fn is_json_space(b: u8) -> bool {
    b == 32 || b == 9 || b == 10 || b == 13
}

/// The first byte at or after `i` that is not JSON whitespace (or the length).
pub open spec fn value_start_from(b: Seq<u8>, i: int) -> int
    decreases b.len() - i,
{
    if 0 <= i < b.len() && is_json_space(b[i]) {
        value_start_from(b, i + 1)
    } else {
        i
    }
}

/// The end of `b[..j]` once trailing JSON whitespace is dropped.
pub open spec fn value_end_before(b: Seq<u8>, j: int) -> int
    decreases j,
{
    if 0 < j <= b.len() && is_json_space(b[j - 1]) {
        value_end_before(b, j - 1)
    } else {
        j
    }
}

/// The byte offset where the JSON value inside `b` starts.
pub open spec fn value_start(b: Seq<u8>) -> int {
    value_start_from(b, 0)
}

/// The byte offset where the JSON value inside `b` ends.
pub open spec fn value_end(b: Seq<u8>) -> int {
    value_end_before(b, b.len() as int)
}

/// The characters of `b[from..to)`.
pub open spec fn text_between(b: Seq<u8>, from: int, to: int) -> Seq<char> {
    decode_utf8(b.subrange(from, to))
}

/// A tool call as the decoder models it.
pub struct ToolView {
    pub call_id: Seq<char>,
    pub assembled: Seq<char>,
    pub released: nat,
    pub ended: bool,
}

impl ToolView {
    /// The UTF-8 bytes of the assembled argument text.
    pub open spec fn bytes(self) -> Seq<u8> {
        encode_utf8(self.assembled)
    }

    /// Whether no JSON value has been assembled yet.
    pub open spec fn no_value(self) -> bool {
        value_end(self.bytes()) <= value_start(self.bytes())
    }

    /// The arguments a completed call reports: the assembled value, or `{}` when none.
    pub open spec fn completed_text(self) -> Seq<char> {
        if self.no_value() {
            "{}"@
        } else {
            text_between(self.bytes(), value_start(self.bytes()), value_end(self.bytes()))
        }
    }

    /// Where the next argument delivery starts.
    pub open spec fn release_from(self) -> int {
        if self.released >= value_start(self.bytes()) {
            self.released as int
        } else {
            value_start(self.bytes())
        }
    }

    /// Whether part of the assembled value has not been delivered yet.
    pub open spec fn has_release(self) -> bool {
        value_end(self.bytes()) > self.release_from()
    }

    /// The delivery of the undelivered part of the assembled value.
    pub open spec fn release_event(self) -> Event {
        Event::ToolCallArgumentsDelta {
            call_id: self.call_id,
            delta: text_between(self.bytes(), self.release_from(), value_end(self.bytes())),
        }
    }

    /// Well-formedness: the delivered prefix ends on a character boundary.
    pub open spec fn wf(self) -> bool {
        is_char_boundary(self.bytes(), self.released as int)
    }
}

/// One streamed tool call correlated to its upstream output item.
pub struct SseToolCall {
    pub call_id: String,
    pub assembled: String,
    pub released: usize,
    pub ended: bool,
}

impl View for SseToolCall {
    type V = ToolView;

    open spec fn view(&self) -> ToolView {
        ToolView {
            call_id: self.call_id@,
            assembled: self.assembled@,
            released: self.released as nat,
            ended: self.ended,
        }
    }
}

/// `encode_utf8` distributes over concatenation.
pub proof fn lemma_encode_concat(a: Seq<char>, d: Seq<char>)
    ensures
        encode_utf8(a + d) == encode_utf8(a) + encode_utf8(d),
    decreases a.len(),
{
    if a.len() == 0 {
        assert(a + d =~= d);
    } else {
        assert((a + d).drop_first() =~= a.drop_first() + d);
        lemma_encode_concat(a.drop_first(), d);
        assert(encode_utf8(a + d) =~= encode_scalar(a[0] as u32) + encode_utf8(a.drop_first() + d));
    }
}

/// A character boundary stays one when more valid text is appended.
pub proof fn lemma_boundary_concat(b1: Seq<u8>, b2: Seq<u8>, p: int)
    requires
        valid_utf8(b1),
        valid_utf8(b2),
        is_char_boundary(b1, p),
    ensures
        is_char_boundary(b1 + b2, p),
    decreases b1.len(),
{
    valid_utf8_concat(b1, b2);
    if p != 0 {
        let k = length_of_first_scalar(b1);
        assert((b1 + b2)[0] == b1[0]);
        assert(b1.len() > 0);
        if k >= 2 {
            assert((b1 + b2)[1] == b1[1]);
        }
        if k >= 3 {
            assert((b1 + b2)[2] == b1[2]);
        }
        if k >= 4 {
            assert((b1 + b2)[3] == b1[3]);
        }
        assert(length_of_first_scalar(b1 + b2) == k);
        assert(pop_first_scalar(b1 + b2) =~= pop_first_scalar(b1) + b2);
        lemma_boundary_concat(pop_first_scalar(b1), b2, p - k);
    }
}

/// The position right after an ASCII byte that starts a character is a character boundary.
pub proof fn lemma_boundary_after_ascii(b: Seq<u8>, i: int)
    requires
        valid_utf8(b),
        0 <= i < b.len(),
        is_char_boundary(b, i),
        b[i] < 0x80,
    ensures
        is_char_boundary(b, i + 1),
    decreases b.len(),
{
    let k = length_of_first_scalar(b);
    let rest = pop_first_scalar(b);
    if i == 0 {
        assert(k == 1);
        assert(is_char_boundary(rest, 0));
    } else {
        assert(is_char_boundary(rest, i - k));
        assert(rest[i - k] == b[i]);
        lemma_boundary_after_ascii(rest, i - k);
    }
}

/// A position preceded by an ASCII byte is a character boundary.
pub proof fn lemma_boundary_ascii_before(b: Seq<u8>, p: int)
    requires
        valid_utf8(b),
        0 < p <= b.len(),
        b[p - 1] < 0x80,
    ensures
        is_char_boundary(b, p),
{
    is_char_boundary_iff_not_is_continuation_byte(b, p - 1);
    lemma_boundary_after_ascii(b, p - 1);
}

proof fn lemma_value_start_bounds(b: Seq<u8>, i: int)
    requires
        0 <= i <= b.len(),
    ensures
        i <= value_start_from(b, i) <= b.len(),
        value_start_from(b, i) < b.len() ==> !is_json_space(b[value_start_from(b, i)]),
        value_start_from(b, i) > i ==> is_json_space(b[value_start_from(b, i) - 1]),
    decreases b.len() - i,
{
    if i < b.len() && is_json_space(b[i]) {
        lemma_value_start_bounds(b, i + 1);
    }
}

proof fn lemma_value_end_bounds(b: Seq<u8>, j: int)
    requires
        0 <= j <= b.len(),
    ensures
        0 <= value_end_before(b, j) <= j,
        value_end_before(b, j) < j ==> is_json_space(b[value_end_before(b, j) as int]),
    decreases j,
{
    if j > 0 && is_json_space(b[j - 1]) {
        lemma_value_end_bounds(b, j - 1);
    }
}

/// The value bounds are character boundaries.
proof fn lemma_value_bounds_are_boundaries(b: Seq<u8>)
    requires
        valid_utf8(b),
    ensures
        is_char_boundary(b, value_start(b)),
        is_char_boundary(b, value_end(b)),
        0 <= value_start(b) <= b.len(),
        0 <= value_end(b) <= b.len(),
{
    lemma_value_start_bounds(b, 0);
    lemma_value_end_bounds(b, b.len() as int);
    let s = value_start(b);
    if s > 0 {
        lemma_boundary_ascii_before(b, s);
    }
    let e = value_end(b);
    if e < b.len() {
        is_char_boundary_iff_not_is_continuation_byte(b, e);
    }
}

/// The characters of `s.bytes[from..to)`, for two character boundaries.
fn substring_between(s: &str, from: usize, to: usize) -> (r: String)
    requires
        from <= to,
        is_char_boundary(s.spec_bytes(), from as int),
        is_char_boundary(s.spec_bytes(), to as int),
    ensures
        r@ == text_between(s.spec_bytes(), from as int, to as int),
        encode_utf8(r@) == s.spec_bytes().subrange(from as int, to as int),
{
    let ghost b = s.spec_bytes();
    proof {
        valid_utf8_split(b, from as int);
        decode_utf8_split(b, from as int);
    }
    let (_head, tail) = s.split_at(from);
    proof {
        let t = b.subrange(from as int, b.len() as int);
        assert(tail.spec_bytes() == t);
        assert(is_char_boundary(t, to - from)) by {
            lemma_boundary_suffix(b, from as int, to as int);
        }
    }
    let (mid, _rest) = tail.split_at(to - from);
    proof {
        assert(mid.spec_bytes() =~= b.subrange(from as int, to as int));
        assert(decode_utf8(encode_utf8(mid@)) == mid@);
    }
    mid.to_owned()
}

/// A boundary after a boundary `f` is one of the suffix from `f`.
proof fn lemma_boundary_suffix(b: Seq<u8>, f: int, t: int)
    requires
        valid_utf8(b),
        is_char_boundary(b, f),
        is_char_boundary(b, t),
        f <= t,
    ensures
        is_char_boundary(b.subrange(f, b.len() as int), t - f),
    decreases f,
{
    if f == 0 {
        assert(b.subrange(0, b.len() as int) =~= b);
    } else {
        let k = length_of_first_scalar(b);
        let rest = pop_first_scalar(b);
        assert(is_char_boundary(rest, f - k));
        assert(is_char_boundary(rest, t - k));
        lemma_boundary_suffix(rest, f - k, t - k);
        assert(rest.subrange(f - k, rest.len() as int) =~= b.subrange(f, b.len() as int));
    }
}

impl SseToolCall {
    /// A declared tool call with nothing assembled.
    pub fn new(call_id: String) -> (t: SseToolCall)
        ensures
            t@ == (ToolView { call_id: call_id@, assembled: Seq::empty(), released: 0, ended: false }),
            t@.wf(),
    {
        SseToolCall { call_id, assembled: String::new(), released: 0, ended: false }
    }

    /// Returns the byte range of the assembled JSON value without its surrounding whitespace.
    pub fn value_bounds(&self) -> (r: (usize, usize))
        ensures
            r.0 == value_start(self@.bytes()),
            r.1 == value_end(self@.bytes()),
    {
        let bytes = self.assembled.as_str().as_bytes();
        let ghost b = self@.bytes();
        let mut start: usize = 0;
        while start < bytes.len() && (bytes[start] == 32 || bytes[start] == 9 || bytes[start]
            == 10 || bytes[start] == 13)
            invariant
                b == bytes@,
                0 <= start <= bytes@.len(),
                value_start_from(b, 0) == value_start_from(b, start as int),
            decreases bytes.len() - start,
        {
            start = start + 1;
        }
        let mut end: usize = bytes.len();
        while end > 0 && (bytes[end - 1] == 32 || bytes[end - 1] == 9 || bytes[end - 1] == 10
            || bytes[end - 1] == 13)
            invariant
                b == bytes@,
                0 <= end <= bytes@.len(),
                value_end_before(b, b.len() as int) == value_end_before(b, end as int),
            decreases end,
        {
            end = end - 1;
        }
        (start, end)
    }

    /// Returns whether no JSON value has been assembled yet.
    pub fn has_no_value(&self) -> (r: bool)
        ensures
            r == self@.no_value(),
    {
        let (start, end) = self.value_bounds();
        end <= start
    }

    /// Appends one reported argument fragment.
    pub fn append(&mut self, fragment: &str)
        requires
            old(self)@.wf(),
        ensures
            final(self)@ == (ToolView { assembled: old(self)@.assembled + fragment@, ..old(self)@ }),
            final(self)@.wf(),
            final(self)@.bytes() == old(self)@.bytes() + fragment.spec_bytes(),
    {
        let ghost a = self.assembled@;
        self.assembled.append(fragment);
        proof {
            lemma_encode_concat(a, fragment@);
            lemma_boundary_concat(encode_utf8(a), encode_utf8(fragment@), self.released as int);
        }
    }

    /// Delivers every assembled argument byte that the JSON value already frames.
    ///
    /// Whitespace outside the value is held back, so the delivered fragments always spell a
    /// prefix of the completed arguments.
    pub fn release_arguments(
        &mut self,
        events: &mut EventQueue,
    ) -> (r: Result<(), GatewayError>)
        requires
            old(events).valid(),
            old(self)@.wf(),
        ensures
            final(self)@.wf(),
            final(events).valid(),
            final(events).taken() == old(events).taken(),
            !old(self)@.has_release() ==> r is Ok && final(self)@ == old(self)@
                && final(events).grammar() == old(events).grammar() && final(events).pending()
                == old(events).pending(),
            old(self)@.has_release() ==> final(self)@ == (ToolView {
                released: value_end(old(self)@.bytes()) as nat,
                ..old(self)@
            }) && match grammar_step(old(events).grammar(), old(self)@.release_event()) {
                Some(g) => r is Ok && final(events).grammar() == g && final(events).pending()
                    == old(events).pending().push(old(self)@.release_event()),
                None => r == Err::<(), GatewayError>(spec_upstream_protocol_error())
                    && final(events).grammar() == old(events).grammar() && final(events).pending()
                    == old(events).pending(),
            },
    {
        let ghost b = self@.bytes();
        proof {
            lemma_value_bounds_are_boundaries(b);
        }
        let (start, end) = self.value_bounds();
        let from = if self.released >= start {
            self.released
        } else {
            start
        };
        if end <= from {
            return Ok(());
        }
        let delta = substring_between(self.assembled.as_str(), from, end);
        self.released = end;
        events.queue(CanonicalEvent::ToolCallArgumentsDelta { call_id: self.call_id.clone(), delta })
    }

    /// Returns the complete assembled arguments, normalizing an absent value to `{}`; arguments
    /// that are not one JSON text are refused.
    pub fn completed_arguments(&self) -> (r: Result<String, GatewayError>)
        ensures
            match r {
                Ok(s) => s@ == self@.completed_text() && json_parse(encode_utf8(s@)) is Some,
                Err(e) => e == spec_upstream_protocol_error() && json_parse(
                    encode_utf8(self@.completed_text()),
                ) is None,
            },
    {
        let ghost b = self@.bytes();
        proof {
            lemma_value_bounds_are_boundaries(b);
        }
        let (start, end) = self.value_bounds();
        let arguments = if end <= start {
            String::from_str("{}")
        } else {
            substring_between(self.assembled.as_str(), start, end)
        };
        if parse_json(arguments.as_str().as_bytes()).is_some() {
            Ok(arguments)
        } else {
            Err(upstream_protocol_error())
        }
    }
}

} // verus!

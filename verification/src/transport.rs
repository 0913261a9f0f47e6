//! Transport rules of one upstream attempt: deadlines, the outbound header set, the expected
//! response media type, status classification and the bounded body buffers.
use vstd::prelude::*;
use crate::errors::{
    GatewayError, credential_unavailable_error, egress_rejected_error, internal_error,
    provider_permanent_error, spec_upstream_protocol_error, upstream_protocol_error,
};
use crate::json::str_eq;
use crate::sse::frame::MAX_UPSTREAM_RESPONSE_BYTES;
use crate::text::{chars_of, parse_u64, parse_u64_range};

verus! {

/// The largest provider error body read for classification; a longer one is dropped whole.
pub const MAX_PROVIDER_ERROR_BODY_BYTES: usize = 65536;

/// The one verified, non-secret compatibility `User-Agent` of the isolated
/// `OpenAI`-compatible endpoint.
pub const P12_KRILL_COMPATIBILITY_USER_AGENT: &'static str = "codex_cli_rs/0.139.0";

/// The `User-Agent` of the official Codex OAuth route.
pub const P12_CODEX_OAUTH_USER_AGENT: &'static str = "codex_cli_rs/0.144.1 (Linux; arm64)";

/// The `originator` of the official Codex OAuth route.
pub const P12_CODEX_OAUTH_ORIGINATOR: &'static str = "codex_cli_rs";

/// The `version` of the official Codex OAuth route.
pub const P12_CODEX_OAUTH_VERSION: &'static str = "0.144.1";

/// The largest route bootstrap deadline the composition admits.
pub const P12_BOOTSTRAP_TIMEOUT_MILLISECONDS: i64 = 15000;

/// Nanoseconds in one second.
pub const NANOS_PER_SEC: u32 = 1000000000;

/// A span of time as whole seconds and the nanoseconds within the last second, the shape of
/// `std::time::Duration`.
#[derive(Clone, Copy, Debug, PartialEq, Eq, Structural)]
pub struct Span {
    pub secs: u64,
    pub nanos: u32,
}

impl Span {
    /// The span in nanoseconds.
    pub open spec fn total(self) -> int {
        self.secs * 1000000000 + self.nanos
    }

    /// Whether the nanoseconds stay below one second.
    pub open spec fn wf(self) -> bool {
        self.nanos < NANOS_PER_SEC
    }

    pub fn from_secs(secs: u64) -> (s: Span)
        ensures
            s.wf(),
            s.total() == secs * 1000000000,
    {
        Span { secs, nanos: 0 }
    }

    pub fn from_millis(millis: u64) -> (s: Span)
        ensures
            s.wf(),
            s.total() == millis * 1000000,
    {
        let secs = millis / 1000;
        let rest = millis % 1000;
        assert(rest * 1000000 < 1000000000) by (nonlinear_arith)
            requires
                rest < 1000,
        ;
        let s = Span { secs, nanos: (rest * 1000000) as u32 };
        assert(s.total() == millis * 1000000) by (nonlinear_arith)
            requires
                secs == millis / 1000,
                rest == millis % 1000,
                s.secs == secs,
                s.nanos == rest * 1000000,
                s.total() == s.secs * 1000000000 + s.nanos,
        ;
        s
    }

    /// The largest span.
    pub open spec fn spec_max() -> Span {
        Span { secs: u64::MAX, nanos: (NANOS_PER_SEC - 1) as u32 }
    }

    /// The sum of two spans, or the largest span when it does not fit.
    pub fn saturating_add(self, other: Span) -> (r: Span)
        requires
            self.wf(),
            other.wf(),
        ensures
            r.wf(),
            self.total() + other.total() <= Span::spec_max().total() ==> r.total() == self.total()
                + other.total(),
            self.total() + other.total() > Span::spec_max().total() ==> r == Span::spec_max(),
    {
        let nanos = self.nanos + other.nanos;
        let (carry, nanos) = if nanos >= NANOS_PER_SEC {
            (1u64, nanos - NANOS_PER_SEC)
        } else {
            (0u64, nanos)
        };
        match self.secs.checked_add(other.secs) {
            Some(secs) => match secs.checked_add(carry) {
                Some(secs) => Span { secs, nanos },
                None => Span { secs: u64::MAX, nanos: NANOS_PER_SEC - 1 },
            },
            None => Span { secs: u64::MAX, nanos: NANOS_PER_SEC - 1 },
        }
    }
}

/// The TCP/TLS connect bound shared by both response modes.
pub fn p12_connect_timeout() -> (s: Span)
    ensures
        s.wf(),
        s.total() == 8 * 1000000000,
{
    Span::from_secs(8)
}

/// The streaming first-byte bound: an SSE upstream emits `response.created` immediately.
pub fn p12_streaming_ttfb_timeout() -> (s: Span)
    ensures
        s.wf(),
        s.total() == 30 * 1000000000,
{
    Span::from_secs(30)
}

/// The streaming byte-liveness bound between two upstream body reads.
pub fn p12_streaming_idle_timeout() -> (s: Span)
    ensures
        s.wf(),
        s.total() == 120 * 1000000000,
{
    Span::from_secs(120)
}

/// The streaming semantic-liveness bound between two frames that prove generation advances.
pub fn p12_streaming_progress_timeout() -> (s: Span)
    ensures
        s.wf(),
        s.total() == 900 * 1000000000,
{
    Span::from_secs(900)
}

/// The streaming absolute ceiling, far past any plausible single completion.
pub fn p12_streaming_total_timeout() -> (s: Span)
    ensures
        s.wf(),
        s.total() == 3600 * 1000000000,
{
    Span::from_secs(3600)
}

/// The one bounded wait for a complete non-streaming body.
pub fn p12_non_streaming_total_timeout() -> (s: Span)
    ensures
        s.wf(),
        s.total() == 600 * 1000000000,
{
    Span::from_secs(600)
}

/// Whether the client asked for one buffered body or a stream.
#[derive(Clone, Copy, Debug, PartialEq, Eq, Structural)]
pub enum ResponsesResponseMode {
    NonStreaming,
    Streaming,
}

/// The deadlines of one response mode's transport profile.
#[derive(Clone, Copy, Debug, PartialEq, Eq, Structural)]
pub struct TransportTimeouts {
    pub connect: Span,
    pub ttfb: Span,
    pub idle: Span,
    pub total: Span,
}

/// The deadlines the transport applies in `mode`: a stream keeps short first-byte and idle
/// bounds under a far ceiling, while a buffered body, which sends nothing until it is
/// complete, waits its one total for the first byte and every read.
pub fn p12_transport_timeouts(mode: ResponsesResponseMode) -> (t: TransportTimeouts)
    ensures
        t.connect.total() == 8 * 1000000000,
        mode is Streaming ==> t.ttfb.total() == 30 * 1000000000 && t.idle.total() == 120
            * 1000000000 && t.total.total() == 3600 * 1000000000,
        mode is NonStreaming ==> t.ttfb == t.total && t.idle == t.total && t.total.total() == 600
            * 1000000000,
{
    match mode {
        ResponsesResponseMode::Streaming => TransportTimeouts {
            connect: p12_connect_timeout(),
            ttfb: p12_streaming_ttfb_timeout(),
            idle: p12_streaming_idle_timeout(),
            total: p12_streaming_total_timeout(),
        },
        ResponsesResponseMode::NonStreaming => {
            let total = p12_non_streaming_total_timeout();
            TransportTimeouts { connect: p12_connect_timeout(), ttfb: total, idle: total, total }
        },
    }
}

/// The ceiling of one attempt's start: a stream keeps the route's remaining bootstrap budget,
/// a buffered body gets the transport's total on top of it.
pub fn p12_attempt_start_timeout(mode: ResponsesResponseMode, remaining_bootstrap: Span) -> (r: Span)
    requires
        remaining_bootstrap.wf(),
    ensures
        r.wf(),
        mode is Streaming ==> r == remaining_bootstrap,
        mode is NonStreaming && remaining_bootstrap.total() + 600 * 1000000000
            <= Span::spec_max().total() ==> r.total() == remaining_bootstrap.total() + 600
            * 1000000000,
        mode is NonStreaming && remaining_bootstrap.total() + 600 * 1000000000
            > Span::spec_max().total() ==> r == Span::spec_max(),
{
    match mode {
        ResponsesResponseMode::Streaming => remaining_bootstrap,
        ResponsesResponseMode::NonStreaming => remaining_bootstrap.saturating_add(
            p12_non_streaming_total_timeout(),
        ),
    }
}

/// The media type a successful reply must declare in `mode`.
pub open spec fn expected_media_type(mode: ResponsesResponseMode) -> Seq<char> {
    match mode {
        ResponsesResponseMode::NonStreaming => "application/json"@,
        ResponsesResponseMode::Streaming => "text/event-stream"@,
    }
}

/// Whether a reply's `content-type` fits `mode`: it starts with the expected media type, and a
/// missing header passes only where the route allows it.
pub fn expected_content_type_matches(
    content_type: Option<&str>,
    mode: ResponsesResponseMode,
    allow_missing: bool,
) -> (r: bool)
    ensures
        r == match content_type {
            None => allow_missing,
            Some(c) => c@.len() >= expected_media_type(mode).len() && c@.subrange(
                0,
                expected_media_type(mode).len() as int,
            ) == expected_media_type(mode),
        },
{
    let expected = match mode {
        ResponsesResponseMode::NonStreaming => "application/json",
        ResponsesResponseMode::Streaming => "text/event-stream",
    };
    match content_type {
        None => allow_missing,
        Some(c) => starts_with(c, expected),
    }
}

/// Whether `s` starts with `prefix`.
fn starts_with(s: &str, prefix: &str) -> (r: bool)
    ensures
        r == (s@.len() >= prefix@.len() && s@.subrange(0, prefix@.len() as int) == prefix@),
{
    let a = chars_of(s);
    let b = chars_of(prefix);
    if a.len() < b.len() {
        return false;
    }
    let mut i: usize = 0;
    while i < b.len()
        invariant
            a@ == s@,
            b@ == prefix@,
            b@.len() <= a@.len(),
            0 <= i <= b@.len(),
            forall|k: int| 0 <= k < i ==> a@[k] == b@[k],
        decreases b.len() - i,
    {
        if a[i] != b[i] {
            assert(s@.subrange(0, prefix@.len() as int)[i as int] != prefix@[i as int]);
            return false;
        }
        i = i + 1;
    }
    assert(s@.subrange(0, prefix@.len() as int) =~= prefix@);
    true
}

/// A header as the library models it: its name and value.
pub open spec fn header_view(h: (String, String)) -> (Seq<char>, Seq<char>) {
    (h.0@, h.1@)
}

/// Builds the four headers the isolated `OpenAI`-compatible endpoint receives: the three
/// standard ones unchanged, and only the verified compatibility `User-Agent` added.
pub fn p12_transport_headers(
    accept: &str,
    authorization: &str,
    content_type: &str,
) -> (r: [(String, String); 4])
    ensures
        r@.map_values(|h: (String, String)| header_view(h)) == seq![
            ("accept"@, accept@),
            ("authorization"@, authorization@),
            ("content-type"@, content_type@),
            ("user-agent"@, P12_KRILL_COMPATIBILITY_USER_AGENT@),
        ],
{
    let r = [
        ("accept".to_owned(), accept.to_owned()),
        ("authorization".to_owned(), authorization.to_owned()),
        ("content-type".to_owned(), content_type.to_owned()),
        ("user-agent".to_owned(), P12_KRILL_COMPATIBILITY_USER_AGENT.to_owned()),
    ];
    assert(r@.map_values(|h: (String, String)| header_view(h)) =~= seq![
        ("accept"@, accept@),
        ("authorization"@, authorization@),
        ("content-type"@, content_type@),
        ("user-agent"@, P12_KRILL_COMPATIBILITY_USER_AGENT@),
    ]);
    r
}

/// Appends one raw non-streaming body chunk under the bounded complete-response limit; a
/// chunk that would exceed it is refused and the body left as it was.
pub fn append_response_chunk(body: &mut Vec<u8>, chunk: &[u8]) -> (r: Result<(), GatewayError>)
    ensures
        old(body)@.len() + chunk@.len() > MAX_UPSTREAM_RESPONSE_BYTES ==> r == Err::<
            (),
            GatewayError,
        >(spec_upstream_protocol_error()) && final(body)@ == old(body)@,
        old(body)@.len() + chunk@.len() <= MAX_UPSTREAM_RESPONSE_BYTES ==> r is Ok
            && final(body)@ == old(body)@ + chunk@,
{
    if body.len().saturating_add(chunk.len()) > MAX_UPSTREAM_RESPONSE_BYTES {
        return Err(upstream_protocol_error());
    }
    extend_bytes(body, chunk);
    Ok(())
}

/// Appends `chunk` to `body`.
pub(crate) fn extend_bytes(body: &mut Vec<u8>, chunk: &[u8])
    ensures
        final(body)@ == old(body)@ + chunk@,
{
    let mut i: usize = 0;
    while i < chunk.len()
        invariant
            0 <= i <= chunk@.len(),
            body@ == old(body)@ + chunk@.subrange(0, i as int),
        decreases chunk.len() - i,
    {
        body.push(chunk[i]);
        assert(chunk@.subrange(0, i + 1) == chunk@.subrange(0, i as int).push(chunk@[i as int]));
        i = i + 1;
    }
    assert(chunk@.subrange(0, chunk@.len() as int) == chunk@);
}

/// Appends one provider error body chunk under [`MAX_PROVIDER_ERROR_BODY_BYTES`]. A chunk
/// that would exceed the bound empties the body and reports `false`: an oversized error body
/// is classified as if it were empty, and reading stops.
pub fn append_error_body_chunk(body: &mut Vec<u8>, chunk: &[u8]) -> (r: bool)
    ensures
        r == (old(body)@.len() + chunk@.len() <= MAX_PROVIDER_ERROR_BODY_BYTES),
        r ==> final(body)@ == old(body)@ + chunk@,
        !r ==> final(body)@ == Seq::<u8>::empty(),
{
    if body.len().saturating_add(chunk.len()) > MAX_PROVIDER_ERROR_BODY_BYTES {
        body.clear();
        return false;
    }
    extend_bytes(body, chunk);
    true
}

/// The ASCII lowercase of one byte.
pub open spec fn ascii_lower(b: u8) -> u8 {
    if 65 <= b && b <= 90 {
        (b + 32) as u8
    } else {
        b
    }
}

/// Whether `pattern` occurs in the ASCII lowercase of `text` at position `i`.
pub open spec fn occurs_at(text: Seq<u8>, pattern: Seq<u8>, i: int) -> bool {
    0 <= i && i + pattern.len() <= text.len() && forall|k: int|
        0 <= k < pattern.len() ==> ascii_lower(#[trigger] text[i + k]) == pattern[k]
}

/// Whether `pattern` occurs anywhere in the ASCII lowercase of `text`.
pub open spec fn occurs(text: Seq<u8>, pattern: Seq<u8>) -> bool {
    exists|i: int| occurs_at(text, pattern, i)
}

/// Whether the lowercase ASCII `pattern` occurs in `text`, letters compared case-insensitively.
fn contains_ascii_ci(text: &[u8], pattern: &[u8]) -> (r: bool)
    ensures
        r == occurs(text@, pattern@),
{
    let n = text.len();
    let m = pattern.len();
    if m > n {
        assert forall|i: int| !occurs_at(text@, pattern@, i) by {}
        return false;
    }
    if m == 0 {
        assert(occurs_at(text@, pattern@, 0));
        return true;
    }
    let last = n - m;
    let mut i: usize = 0;
    while i <= last
        invariant
            n == text@.len(),
            m == pattern@.len(),
            1 <= m <= n,
            last == n - m,
            0 <= i <= last + 1,
            forall|j: int| 0 <= j < i ==> !occurs_at(text@, pattern@, j),
        decreases last + 1 - i,
    {
        let mut k: usize = 0;
        while k < m && ascii_lower_byte(text[i + k]) == pattern[k]
            invariant
                n == text@.len(),
                m == pattern@.len(),
                i <= last,
                last == n - m,
                0 <= k <= m,
                forall|q: int| 0 <= q < k ==> ascii_lower(#[trigger] text@[i + q]) == pattern@[q],
            decreases m - k,
        {
            k = k + 1;
        }
        if k == m {
            assert(occurs_at(text@, pattern@, i as int));
            return true;
        }
        assert(!occurs_at(text@, pattern@, i as int)) by {
            if occurs_at(text@, pattern@, i as int) {
                assert(ascii_lower(text@[i + k as int]) == pattern@[k as int]);
            }
        }
        i = i + 1;
    }
    assert forall|j: int| !occurs_at(text@, pattern@, j) by {
        if j >= i {
            assert(!(j + pattern@.len() <= text@.len()));
        }
    }
    false
}

/// The ASCII lowercase of one byte.
fn ascii_lower_byte(b: u8) -> (r: u8)
    ensures
        r == ascii_lower(b),
{
    if 65 <= b && b <= 90 {
        b + 32
    } else {
        b
    }
}

/// Recognizes the bounded field-rejection signal of the official Codex endpoint: the body
/// names `unknown` or `unsupported` together with `max_output_tokens`, case-insensitively.
pub fn p12_openai_rejects_max_output_tokens(body: &[u8]) -> (r: bool)
    ensures
        r == ((occurs(body@, "unknown"@.map_values(|c: char| c as u8)) || occurs(
            body@,
            "unsupported"@.map_values(|c: char| c as u8),
        )) && occurs(body@, "max_output_tokens"@.map_values(|c: char| c as u8))),
{
    let unknown = "unknown".as_bytes();
    let unsupported = "unsupported".as_bytes();
    let field = "max_output_tokens".as_bytes();
    proof {
        reveal_strlit("unknown");
        reveal_strlit("unsupported");
        reveal_strlit("max_output_tokens");
        vstd::string::is_ascii_spec_bytes("unknown");
        vstd::string::is_ascii_spec_bytes("unsupported");
        vstd::string::is_ascii_spec_bytes("max_output_tokens");
        assert(unknown@ =~= "unknown"@.map_values(|c: char| c as u8));
        assert(unsupported@ =~= "unsupported"@.map_values(|c: char| c as u8));
        assert(field@ =~= "max_output_tokens"@.map_values(|c: char| c as u8));
    }
    (contains_ascii_ci(body, unknown) || contains_ascii_ci(body, unsupported))
        && contains_ascii_ci(body, field)
}

/// The `retry-after` seconds of a reply, when its header reads as a `u64`.
pub fn retry_after_seconds(header: Option<&str>) -> (r: Option<u64>)
    ensures
        r == match header {
            Some(h) => parse_u64(h@),
            None => None,
        },
{
    match header {
        Some(h) => {
            let chars = chars_of(h);
            let r = parse_u64_range(&chars, 0, chars.len());
            assert(chars@.subrange(0, chars@.len() as int) =~= h@);
            r
        },
        None => None,
    }
}

/// How a provider's error replies are classified.
#[derive(Clone, Copy, Debug, PartialEq, Eq, Structural)]
pub enum HttpFailureProfile {
    OpenAiCompatible,
    AnthropicCompatible,
}

/// What one reply status decides before its body is read.
#[derive(Clone, Copy, Debug, PartialEq, Eq, Structural)]
pub enum StatusDisposition {
    /// A success: the reply proceeds to the media-type check.
    Proceed,
    /// The provider's error body decides, under the `OpenAI`-compatible classifier.
    ClassifyOpenAiBody,
    /// The provider's error body decides, under the Anthropic-compatible classifier.
    ClassifyAnthropicBody,
    /// Too many requests: retryable after a cooldown.
    RateLimited,
    /// A server failure: retryable.
    ServerError,
    /// Any other status: a permanent provider failure.
    Permanent(GatewayError),
}

/// Classifies one reply status: 2xx proceeds, a profiled provider classifies its own error
/// body, and otherwise 429 is rate limiting, 5xx a server error and anything else permanent.
pub fn classify_http_status(status: u16, profile: Option<HttpFailureProfile>) -> (r: StatusDisposition)
    ensures
        200 <= status <= 299 ==> r is Proceed,
        !(200 <= status <= 299) && profile == Some(HttpFailureProfile::OpenAiCompatible) ==> r
            is ClassifyOpenAiBody,
        !(200 <= status <= 299) && profile == Some(HttpFailureProfile::AnthropicCompatible) ==> r
            is ClassifyAnthropicBody,
        !(200 <= status <= 299) && profile is None && status == 429 ==> r is RateLimited,
        !(200 <= status <= 299) && profile is None && 500 <= status <= 599 ==> r is ServerError,
        !(200 <= status <= 299) && profile is None && status != 429 && !(500 <= status <= 599)
            ==> r == StatusDisposition::Permanent(
            GatewayError {
                code: crate::errors::GatewayErrorCode::ProviderPermanent,
                scope: crate::errors::ErrorScope::Provider,
            },
        ),
{
    if 200 <= status && status <= 299 {
        StatusDisposition::Proceed
    } else {
        match profile {
            Some(HttpFailureProfile::OpenAiCompatible) => StatusDisposition::ClassifyOpenAiBody,
            Some(HttpFailureProfile::AnthropicCompatible) => StatusDisposition::ClassifyAnthropicBody,
            None => if status == 429 {
                StatusDisposition::RateLimited
            } else if 500 <= status && status <= 599 {
                StatusDisposition::ServerError
            } else {
                StatusDisposition::Permanent(provider_permanent_error())
            },
        }
    }
}

/// Whether the official Codex route should replay the request once without its root
/// `max_output_tokens` field: only a 400 whose body names that field as unknown or
/// unsupported, and only where the route asked for the check.
pub fn should_retry_without_max_output_tokens(detect: bool, status: u16, body: &[u8]) -> (r: bool)
    ensures
        r == (detect && status == 400 && ((occurs(body@, "unknown"@.map_values(|c: char| c as u8))
            || occurs(body@, "unsupported"@.map_values(|c: char| c as u8))) && occurs(
            body@,
            "max_output_tokens"@.map_values(|c: char| c as u8),
        ))),
{
    detect && status == 400 && p12_openai_rejects_max_output_tokens(body)
}

} // verus!

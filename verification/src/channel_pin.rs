//! The management Channel Pin: its bounded admission, its request identifiers, and the
//! decisions that turn one pinned attempt into a receipt.
use vstd::prelude::*;
use crate::canonical::{
    CanonicalEvent, CanonicalEventState, Event, GrammarState, ResponsePhase, grammar_step,
};
use crate::errors::GatewayError;
use crate::stage_ledger::ManagementRequestAttemptStage;

verus! {

/// Concurrent management pins admitted at once.
pub const P13_CHANNEL_PIN_MAX_IN_FLIGHT: usize = 2;

/// Events one pinned source may yield before the drain gives up.
pub const P13_CHANNEL_PIN_MAX_EVENTS: usize = 4096;

/// Why a Channel Pin could not be served.
#[derive(Clone, Copy, Debug, PartialEq, Eq, Structural)]
pub enum ManagementChannelPinError {
    SnapshotConflict,
    InvalidTarget,
    Unavailable,
}

/// How a Channel Pin ended.
#[derive(Clone, Copy, Debug, PartialEq, Eq, Structural)]
pub enum ManagementChannelPinOutcome {
    Succeeded,
    Failed,
    Rejected,
}

/// The in-flight count after admitting one more pin, or `None` when the budget is spent.
pub fn next_in_flight(current: usize) -> (r: Option<usize>)
    ensures
        r == if current < P13_CHANNEL_PIN_MAX_IN_FLIGHT {
            Some((current + 1) as usize)
        } else {
            None::<usize>
        },
{
    if current < P13_CHANNEL_PIN_MAX_IN_FLIGHT {
        Some(current + 1)
    } else {
        None
    }
}

/// The bounded admission budget of concurrent pins.
pub struct ChannelPinAdmission {
    in_flight: usize,
}

impl ChannelPinAdmission {
    /// At most [`P13_CHANNEL_PIN_MAX_IN_FLIGHT`] pins are ever admitted.
    #[verifier::type_invariant]
    spec fn within_budget(self) -> bool {
        self.in_flight <= P13_CHANNEL_PIN_MAX_IN_FLIGHT
    }

    /// The pins currently admitted.
    pub closed spec fn count(&self) -> nat {
        self.in_flight as nat
    }

    pub fn new() -> (a: Self)
        ensures
            a.count() == 0,
    {
        ChannelPinAdmission { in_flight: 0 }
    }

    /// The pins currently admitted.
    pub fn in_flight(&self) -> (n: usize)
        ensures
            n == self.count(),
    {
        self.in_flight
    }

    /// Admits one more pin while fewer than [`P13_CHANNEL_PIN_MAX_IN_FLIGHT`] are in flight.
    pub fn try_acquire(&mut self) -> (r: Result<(), ManagementChannelPinError>)
        ensures
            old(self).count() <= P13_CHANNEL_PIN_MAX_IN_FLIGHT,
            final(self).count() <= P13_CHANNEL_PIN_MAX_IN_FLIGHT,
            old(self).count() < P13_CHANNEL_PIN_MAX_IN_FLIGHT ==> r is Ok && final(self).count()
                == old(self).count() + 1,
            old(self).count() == P13_CHANNEL_PIN_MAX_IN_FLIGHT ==> r == Err::<
                (),
                ManagementChannelPinError,
            >(ManagementChannelPinError::Unavailable) && final(self).count() == old(self).count(),
    {
        proof {
            use_type_invariant(&*self);
        }
        match next_in_flight(self.in_flight) {
            Some(n) => {
                self.in_flight = n;
                Ok(())
            },
            None => Err(ManagementChannelPinError::Unavailable),
        }
    }

    /// Releases one admitted pin.
    pub fn release(&mut self)
        requires
            old(self).count() > 0,
        ensures
            final(self).count() == old(self).count() - 1,
    {
        proof {
            use_type_invariant(&*self);
        }
        self.in_flight = self.in_flight - 1;
    }
}

/// Admission never exceeds the budget, and a release frees exactly the slot an admission took.
pub proof fn lemma_admission_is_bounded_and_release_restores(count: nat)
    requires
        count <= P13_CHANNEL_PIN_MAX_IN_FLIGHT,
    ensures
        count < P13_CHANNEL_PIN_MAX_IN_FLIGHT ==> count + 1 <= P13_CHANNEL_PIN_MAX_IN_FLIGHT
            && (count + 1) - 1 == count,
        next_in_flight_spec(count) is None <==> count == P13_CHANNEL_PIN_MAX_IN_FLIGHT,
{
}

/// The count after admitting one more pin, or `None` when the budget is spent.
pub open spec fn next_in_flight_spec(count: nat) -> Option<nat> {
    if count < P13_CHANNEL_PIN_MAX_IN_FLIGHT {
        Some(count + 1)
    } else {
        None
    }
}

/// What one pinned attempt observed: whether it was attempted and whether a request left for
/// the upstream. Both only ever become true.
pub struct P13ChannelPinObservation {
    attempted: bool,
    upstream_sent: bool,
}

impl P13ChannelPinObservation {
    pub closed spec fn was_attempted(&self) -> bool {
        self.attempted
    }

    pub closed spec fn was_sent(&self) -> bool {
        self.upstream_sent
    }

    pub fn new() -> (o: Self)
        ensures
            !o.was_attempted(),
            !o.was_sent(),
    {
        P13ChannelPinObservation { attempted: false, upstream_sent: false }
    }

    pub fn mark_attempted(&mut self)
        ensures
            final(self).was_attempted(),
            final(self).was_sent() == old(self).was_sent(),
    {
        self.attempted = true;
    }

    pub fn mark_upstream_sent(&mut self)
        ensures
            final(self).was_sent(),
            final(self).was_attempted() == old(self).was_attempted(),
    {
        self.upstream_sent = true;
    }

    pub fn attempted(&self) -> (r: bool)
        ensures
            r == self.was_attempted(),
    {
        self.attempted
    }

    pub fn upstream_sent(&self) -> (r: bool)
        ensures
            r == self.was_sent(),
    {
        self.upstream_sent
    }
}

/// The lowercase hexadecimal digit of `d`.
pub open spec fn hex_digit(d: int) -> char {
    if d < 10 {
        (48 + d) as char
    } else {
        (87 + d) as char
    }
}

/// Two lowercase hexadecimal digits per byte.
pub open spec fn hex_of(bytes: Seq<u8>) -> Seq<char>
    decreases bytes.len(),
{
    if bytes.len() == 0 {
        Seq::empty()
    } else {
        hex_of(bytes.drop_last()) + seq![
            hex_digit(bytes.last() as int / 16),
            hex_digit(bytes.last() as int % 16),
        ]
    }
}

/// The decimal digits of `n`, most significant first.
pub open spec fn decimal(n: nat) -> Seq<char>
    decreases n,
{
    if n < 10 {
        seq![(48 + n) as char]
    } else {
        decimal(n / 10) + seq![(48 + n % 10) as char]
    }
}

/// The prefix every Channel Pin request identifier starts with.
pub open spec fn pin_prefix(nonce: Seq<char>) -> Seq<char> {
    "channel-pin-"@ + nonce + "-"@
}

/// The request identifier of pin `counter` under boot nonce `nonce`.
pub open spec fn pin_request_id(nonce: Seq<char>, counter: u64) -> Seq<char> {
    pin_prefix(nonce) + decimal(counter as nat)
}

/// The one-character string of digit `d` in base 16.
fn digit_str(d: u8) -> (s: &'static str)
    requires
        d < 16,
    ensures
        s@ == seq![hex_digit(d as int)],
{
    proof {
        reveal_strlit("0");
        reveal_strlit("1");
        reveal_strlit("2");
        reveal_strlit("3");
        reveal_strlit("4");
        reveal_strlit("5");
        reveal_strlit("6");
        reveal_strlit("7");
        reveal_strlit("8");
        reveal_strlit("9");
        reveal_strlit("a");
        reveal_strlit("b");
        reveal_strlit("c");
        reveal_strlit("d");
        reveal_strlit("e");
        reveal_strlit("f");
    }
    let s = match d {
        0 => "0",
        1 => "1",
        2 => "2",
        3 => "3",
        4 => "4",
        5 => "5",
        6 => "6",
        7 => "7",
        8 => "8",
        9 => "9",
        10 => "a",
        11 => "b",
        12 => "c",
        13 => "d",
        14 => "e",
        _ => "f",
    };
    assert(s@ =~= seq![hex_digit(d as int)]);
    s
}

/// Renders `bytes` as lowercase hexadecimal, two digits per byte.
pub fn render_hex(bytes: &[u8]) -> (s: String)
    ensures
        s@ == hex_of(bytes@),
{
    let mut s = String::new();
    let mut i: usize = 0;
    while i < bytes.len()
        invariant
            0 <= i <= bytes@.len(),
            s@ == hex_of(bytes@.take(i as int)),
        decreases bytes.len() - i,
    {
        let b = bytes[i];
        let ghost before = s@;
        s.append(digit_str(b / 16));
        s.append(digit_str(b % 16));
        proof {
            let t = bytes@.take(i + 1);
            assert(t.drop_last() =~= bytes@.take(i as int));
            assert(t.last() == b);
            assert(s@ =~= before + seq![hex_digit(b as int / 16), hex_digit(b as int % 16)]);
        }
        i = i + 1;
    }
    assert(bytes@.take(i as int) =~= bytes@);
    s
}

/// Appends the decimal digits of `n`.
fn append_decimal(out: &mut String, n: u64)
    ensures
        final(out)@ == old(out)@ + decimal(n as nat),
    decreases n,
{
    if n >= 10 {
        append_decimal(out, n / 10);
    }
    let d = (n % 10) as u8;
    let ghost before = out@;
    out.append(digit_str(d));
    proof {
        assert(hex_digit(d as int) == (48 + n % 10) as char);
        if n >= 10 {
            assert(out@ =~= old(out)@ + decimal(n as nat));
        } else {
            assert(out@ =~= old(out)@ + decimal(n as nat));
        }
    }
}

/// The request identifier of pin `counter` under the process's boot nonce.
pub fn channel_pin_request_id(nonce: &str, counter: u64) -> (id: String)
    ensures
        id@ == pin_request_id(nonce@, counter),
{
    let mut id = String::from_str("channel-pin-");
    id.append(nonce);
    id.append("-");
    append_decimal(&mut id, counter);
    proof {
        assert(id@ =~= pin_request_id(nonce@, counter));
    }
    id
}

/// The decimal rendering reads back as its number.
pub proof fn lemma_decimal_value(n: nat)
    ensures
        decimal(n).len() > 0,
        crate::text::all_digits(decimal(n)),
        crate::text::digits_value(decimal(n)) == n,
    decreases n,
{
    if n >= 10 {
        lemma_decimal_value(n / 10);
        let s = decimal(n);
        assert(s.drop_last() =~= decimal(n / 10));
        assert(s.last() == (48 + n % 10) as char);
        assert((((48 + n % 10) as char) as u32) == 48 + n % 10);
        vstd::arithmetic::div_mod::lemma_fundamental_div_mod(n as int, 10);
        assert(crate::text::digits_value(s) == crate::text::digits_value(s.drop_last()) * 10 + (
        s.last() as u32 - 48));
        assert(crate::text::digits_value(s) == (n / 10) * 10 + n % 10);
        assert(crate::text::all_digits(s)) by {
            assert forall|i: int| 0 <= i < s.len() implies crate::text::is_ascii_digit(#[trigger] s[i]) by {
                if i < s.len() - 1 {
                    assert(s[i] == decimal(n / 10)[i]);
                }
            }
        }
    } else {
        assert(decimal(n).drop_last() =~= Seq::<char>::empty());
        assert((((48 + n) as char) as u32) == 48 + n);
        let s = decimal(n);
        assert(s.last() == (48 + n) as char);
        assert(crate::text::digits_value(s) == crate::text::digits_value(s.drop_last()) * 10 + (
        s.last() as u32 - 48));
    }
}

/// Different counters render different identifiers under one boot nonce.
pub proof fn lemma_pin_request_ids_are_unique(nonce: Seq<char>, a: u64, b: u64)
    requires
        a != b,
    ensures
        pin_request_id(nonce, a) != pin_request_id(nonce, b),
{
    lemma_decimal_value(a as nat);
    lemma_decimal_value(b as nat);
    let p = pin_prefix(nonce);
    if pin_request_id(nonce, a) == pin_request_id(nonce, b) {
        assert(pin_request_id(nonce, a).skip(p.len() as int) =~= decimal(a as nat));
        assert(pin_request_id(nonce, b).skip(p.len() as int) =~= decimal(b as nat));
    }
}

/// Fills `bytes` with random bytes from the operating system with `getrandom::fill`,
/// reporting whether it succeeded.
///
/// Trusted: the bytes are the operating system's; nothing is claimed of them or of the
/// result.
#[verifier::external_body]
fn fill_random(bytes: &mut [u8; 8]) -> bool {
    getrandom::fill(bytes).is_ok()
}

/// Draws the process's boot nonce: eight random bytes in lowercase hexadecimal, so that
/// request identifiers stay unique across restarts.
pub fn draw_boot_nonce() -> (r: Result<String, ManagementChannelPinError>)
    ensures
        r matches Ok(s) ==> s@.len() == 16 && exists|b: Seq<u8>| b.len() == 8 && s@ == hex_of(b),
        r matches Err(e) ==> e == ManagementChannelPinError::Unavailable,
{
    let mut bytes = [0u8; 8];
    if !fill_random(&mut bytes) {
        return Err(ManagementChannelPinError::Unavailable);
    }
    let s = render_hex(&bytes);
    proof {
        lemma_hex_len(bytes@);
        assert(bytes@.len() == 8);
    }
    Ok(s)
}

proof fn lemma_hex_len(bytes: Seq<u8>)
    ensures
        hex_of(bytes).len() == 2 * bytes.len(),
    decreases bytes.len(),
{
    if bytes.len() > 0 {
        lemma_hex_len(bytes.drop_last());
    }
}

/// Issues the request identifiers of one process: its boot nonce and a counter.
pub struct ChannelPinIds {
    nonce: String,
    next: u64,
}

impl ChannelPinIds {
    pub closed spec fn nonce(&self) -> Seq<char> {
        self.nonce@
    }

    pub closed spec fn next_counter(&self) -> u64 {
        self.next
    }

    /// Identifiers under `nonce`, counting from 1.
    pub fn new(nonce: String) -> (ids: Self)
        ensures
            ids.nonce() == nonce@,
            ids.next_counter() == 1,
    {
        ChannelPinIds { nonce, next: 1 }
    }

    /// The next identifier; the counter wraps as an atomic `fetch_add` does.
    pub fn next_id(&mut self) -> (id: String)
        ensures
            id@ == pin_request_id(old(self).nonce(), old(self).next_counter()),
            final(self).nonce() == old(self).nonce(),
            final(self).next_counter() == old(self).next_counter().wrapping_add(1),
    {
        let id = channel_pin_request_id(self.nonce.as_str(), self.next);
        self.next = self.next.wrapping_add(1);
        id
    }
}

/// Whether a stage proves a request left for the upstream: every stage past the request's
/// conversion and its egress admission.
pub open spec fn is_upstream_stage(stage: ManagementRequestAttemptStage) -> bool {
    !(stage is RequestConversion) && !(stage is EgressAdmission)
}

/// Whether the pinned attempt reached the upstream: the observation says so, or the ledger
/// recorded an upstream stage for it.
pub fn channel_pin_upstream_sent(
    observed_sent: bool,
    stage: Option<ManagementRequestAttemptStage>,
) -> (r: bool)
    ensures
        r == (observed_sent || (stage matches Some(s) && is_upstream_stage(s))),
{
    let upstream_stage = match stage {
        Some(ManagementRequestAttemptStage::RequestConversion) => false,
        Some(ManagementRequestAttemptStage::EgressAdmission) => false,
        Some(_) => true,
        None => false,
    };
    observed_sent || upstream_stage
}

/// The outcome of a pin whose attempt could not start: rejected when nothing was attempted.
pub fn channel_pin_start_failure_outcome(attempt_count: u8) -> (r: ManagementChannelPinOutcome)
    ensures
        r == if attempt_count == 0 {
            ManagementChannelPinOutcome::Rejected
        } else {
            ManagementChannelPinOutcome::Failed
        },
{
    if attempt_count == 0 {
        ManagementChannelPinOutcome::Rejected
    } else {
        ManagementChannelPinOutcome::Failed
    }
}

/// Whether a pin request still targets the published snapshot it was issued against.
pub fn channel_pin_snapshot_matches(
    requested_version: &str,
    requested_revision: i64,
    snapshot_version: &str,
    config_revision: i64,
    snapshot_is_current: bool,
) -> (r: bool)
    ensures
        r == (requested_version@ == snapshot_version@ && requested_revision == config_revision
            && snapshot_is_current),
{
    crate::json::str_eq(requested_version, snapshot_version) && requested_revision
        == config_revision && snapshot_is_current
}

/// What the drain of one pinned source decided after one step.
#[derive(Clone, Copy, Debug, PartialEq, Eq, Structural)]
pub enum DrainStep {
    /// Keep draining.
    Continue,
    /// The response completed.
    Succeeded,
    /// The pin failed, attributing the failure to this stage.
    Failed(ManagementRequestAttemptStage),
}

/// The drain state of one pinned source: events seen, whether the response started, and the
/// grammar validator of the events.
pub struct ChannelPinDrain {
    event_count: usize,
    response_started: bool,
    events: CanonicalEventState,
}

/// The drain as a model.
pub struct DrainView {
    pub event_count: nat,
    pub response_started: bool,
    pub g: GrammarState,
}

impl View for ChannelPinDrain {
    type V = DrainView;

    closed spec fn view(&self) -> DrainView {
        DrainView {
            event_count: self.event_count as nat,
            response_started: self.response_started,
            g: self.events@,
        }
    }
}

/// The decision on one drained event: more than [`P13_CHANNEL_PIN_MAX_EVENTS`] events, a
/// stream error or an event outside the grammar fail the pin; a closed response succeeds it.
pub open spec fn drain_event_step(d: DrainView, e: Event) -> (DrainView, DrainStep) {
    let count = d.event_count + 1;
    if count > P13_CHANNEL_PIN_MAX_EVENTS {
        (DrainView { event_count: count, ..d }, DrainStep::Failed(ManagementRequestAttemptStage::BodyRead))
    } else if e is StreamError {
        (DrainView { event_count: count, ..d }, DrainStep::Failed(ManagementRequestAttemptStage::Decoder))
    } else {
        match grammar_step(d.g, e) {
            None => (DrainView { event_count: count, ..d }, DrainStep::Failed(ManagementRequestAttemptStage::Decoder)),
            Some(g) => {
                let d2 = DrainView {
                    event_count: count,
                    response_started: d.response_started || e is ResponseStart,
                    g,
                };
                if g.phase is Closed {
                    (d2, DrainStep::Succeeded)
                } else {
                    (d2, DrainStep::Continue)
                }
            },
        }
    }
}

impl ChannelPinDrain {
    pub fn new() -> (d: Self)
        ensures
            d@.event_count == 0,
            !d@.response_started,
            d@.g == crate::canonical::grammar_start(),
    {
        ChannelPinDrain { event_count: 0, response_started: false, events: CanonicalEventState::new() }
    }

    /// Whether the drained response started.
    pub fn response_started(&self) -> (r: bool)
        ensures
            r == self@.response_started,
    {
        self.response_started
    }

    /// Decides on one drained event.
    pub fn on_event(&mut self, event: &CanonicalEvent) -> (r: DrainStep)
        requires
            old(self)@.event_count <= P13_CHANNEL_PIN_MAX_EVENTS,
        ensures
            (final(self)@, r) == drain_event_step(old(self)@, event@),
    {
        self.event_count = self.event_count + 1;
        if self.event_count > P13_CHANNEL_PIN_MAX_EVENTS {
            return DrainStep::Failed(ManagementRequestAttemptStage::BodyRead);
        }
        if let CanonicalEvent::StreamError { .. } = event {
            return DrainStep::Failed(ManagementRequestAttemptStage::Decoder);
        }
        if self.events.apply(event).is_err() {
            return DrainStep::Failed(ManagementRequestAttemptStage::Decoder);
        }
        if let CanonicalEvent::ResponseStart { .. } = event {
            self.response_started = true;
        }
        if self.events.phase == ResponsePhase::Closed {
            DrainStep::Succeeded
        } else {
            DrainStep::Continue
        }
    }

    /// Decides when the source ends: the pin succeeded only if the response closed.
    pub fn on_end(&self) -> (r: DrainStep)
        ensures
            r == if self@.g.phase is Closed {
                DrainStep::Succeeded
            } else {
                DrainStep::Failed(ManagementRequestAttemptStage::BodyRead)
            },
    {
        if self.events.phase == ResponsePhase::Closed {
            DrainStep::Succeeded
        } else {
            DrainStep::Failed(ManagementRequestAttemptStage::BodyRead)
        }
    }
}

/// The decision when the source fails or its idle wait expires: a decoder failure.
pub fn channel_pin_source_failure() -> (r: DrainStep)
    ensures
        r == DrainStep::Failed(ManagementRequestAttemptStage::Decoder),
{
    DrainStep::Failed(ManagementRequestAttemptStage::Decoder)
}

/// The decision when the drain's total deadline passes: a body-read failure.
pub fn channel_pin_deadline_expired() -> (r: DrainStep)
    ensures
        r == DrainStep::Failed(ManagementRequestAttemptStage::BodyRead),
{
    DrainStep::Failed(ManagementRequestAttemptStage::BodyRead)
}

/// The client protocol a management request names.
#[derive(Clone, Copy, Debug, PartialEq, Eq, Structural)]
pub enum ManagementRequestProtocol {
    OpenAiChatCompletions,
    OpenAiResponses,
    AnthropicMessages,
}

/// How a Channel Pin reads its reply.
#[derive(Clone, Copy, Debug, PartialEq, Eq, Structural)]
pub enum ManagementChannelPinMode {
    Json,
    Sse,
}

/// The response mode a pin runs in: a JSON pin reads one buffered body, an SSE pin a stream.
pub fn channel_pin_response_mode(mode: ManagementChannelPinMode) -> (r: crate::transport::ResponsesResponseMode)
    ensures
        r == match mode {
            ManagementChannelPinMode::Json => crate::transport::ResponsesResponseMode::NonStreaming,
            ManagementChannelPinMode::Sse => crate::transport::ResponsesResponseMode::Streaming,
        },
{
    match mode {
        ManagementChannelPinMode::Json => crate::transport::ResponsesResponseMode::NonStreaming,
        ManagementChannelPinMode::Sse => crate::transport::ResponsesResponseMode::Streaming,
    }
}

/// The usage a pin's reply is projected onto: an Anthropic client's, or the Responses one.
pub fn channel_pin_usage_projection(protocol: ManagementRequestProtocol) -> (r: crate::usage::P12ResponseUsageProjection)
    ensures
        r == if protocol == ManagementRequestProtocol::AnthropicMessages {
            crate::usage::P12ResponseUsageProjection::AnthropicMessages
        } else {
            crate::usage::P12ResponseUsageProjection::OpenAiResponses
        },
{
    match protocol {
        ManagementRequestProtocol::AnthropicMessages => crate::usage::P12ResponseUsageProjection::AnthropicMessages,
        _ => crate::usage::P12ResponseUsageProjection::OpenAiResponses,
    }
}

/// One route candidate as a pin selects it: its endpoint and its provider.
#[derive(Clone, Debug)]
pub struct PinCandidate {
    pub endpoint_id: String,
    pub provider_id: String,
}

/// The indices of the candidates on channel `channel` of provider `provider`.
pub open spec fn pin_matches(cs: Seq<PinCandidate>, channel: Seq<char>, provider: Seq<char>) -> Seq<int>
    decreases cs.len(),
{
    if cs.len() == 0 {
        Seq::empty()
    } else {
        let m = pin_matches(cs.drop_last(), channel, provider);
        if cs.last().endpoint_id@ == channel && cs.last().provider_id@ == provider {
            m.push(cs.len() - 1)
        } else {
            m
        }
    }
}

/// Selects the one candidate a pin targets: exactly one candidate of the route may sit on the
/// pinned channel under the pinned provider, else the target is invalid.
pub fn select_pinned_candidate(
    candidates: &Vec<PinCandidate>,
    channel: &str,
    provider: &str,
) -> (r: Result<usize, ManagementChannelPinError>)
    ensures
        pin_matches(candidates@, channel@, provider@).len() == 1 ==> r == Ok::<usize, ManagementChannelPinError>(
            pin_matches(candidates@, channel@, provider@)[0] as usize,
        ),
        pin_matches(candidates@, channel@, provider@).len() != 1 ==> r == Err::<usize, ManagementChannelPinError>(
            ManagementChannelPinError::InvalidTarget,
        ),
{
    let mut found: Option<usize> = None;
    let mut i: usize = 0;
    while i < candidates.len()
        invariant
            0 <= i <= candidates@.len(),
            pin_matches(candidates@.take(i as int), channel@, provider@).len() <= 1,
            match found {
                Some(k) => pin_matches(candidates@.take(i as int), channel@, provider@) == seq![k as int],
                None => pin_matches(candidates@.take(i as int), channel@, provider@).len() == 0,
            },
        decreases candidates.len() - i,
    {
        proof {
            assert(candidates@.take(i + 1).drop_last() =~= candidates@.take(i as int));
            assert(candidates@.take(i + 1).last() == candidates@[i as int]);
        }
        let c = &candidates[i];
        if crate::json::str_eq(c.endpoint_id.as_str(), channel) && crate::json::str_eq(c.provider_id.as_str(), provider) {
            if found.is_some() {
                proof {
                    lemma_pin_matches_grow(candidates@, channel@, provider@, i + 1);
                }
                return Err(ManagementChannelPinError::InvalidTarget);
            }
            found = Some(i);
            proof {
                assert(pin_matches(candidates@.take(i + 1), channel@, provider@) =~= seq![i as int]);
            }
        }
        i = i + 1;
    }
    proof {
        assert(candidates@.take(i as int) =~= candidates@);
    }
    match found {
        Some(k) => Ok(k),
        None => Err(ManagementChannelPinError::InvalidTarget),
    }
}

/// A longer prefix never has fewer matches.
proof fn lemma_pin_matches_grow(cs: Seq<PinCandidate>, channel: Seq<char>, provider: Seq<char>, n: int)
    requires
        0 <= n <= cs.len(),
    ensures
        pin_matches(cs, channel, provider).len() >= pin_matches(cs.take(n), channel, provider).len(),
    decreases cs.len() - n,
{
    if n < cs.len() {
        lemma_pin_matches_grow(cs, channel, provider, n + 1);
        assert(cs.take(n + 1).drop_last() =~= cs.take(n));
    } else {
        assert(cs.take(n) =~= cs);
    }
}

} // verus!

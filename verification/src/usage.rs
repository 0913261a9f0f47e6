//! Usage reports: decoding the upstream `usage` object and projecting it onto what the
//! client's protocol can encode.
use vstd::prelude::*;
use crate::canonical::{CanonicalEvent, Event, Usage, events_view};
use crate::errors::{GatewayError, spec_upstream_protocol_error, upstream_protocol_error};
use crate::json::{JsonNumber, JsonValue, json_get, json_u64};

verus! {

/// The protocol a request arrived on, which decides the usage counters it can encode.
#[derive(Clone, Copy, Debug, PartialEq, Eq, Structural)]
pub enum P12ResponseUsageProjection {
    AnthropicMessages,
    OpenAiResponses,
}

/// A usage report with no counter.
pub open spec fn empty_usage() -> Usage {
    Usage {
        input_tokens: None,
        output_tokens: None,
        reasoning_tokens: None,
        cached_tokens: None,
        cache_read_tokens: None,
        cache_creation_tokens: None,
    }
}

/// An optional counter: absent stays absent, a present one must be a `u64`.
pub open spec fn optional_counter(value: Option<JsonValue>) -> Option<Option<u64>> {
    match value {
        None => Some(None),
        Some(v) => match json_u64(Some(v)) {
            Some(n) => Some(Some(n)),
            None => None,
        },
    }
}

/// The reasoning counter, read only when `output_tokens_details` is an object.
pub open spec fn reasoning_counter(object: JsonValue) -> Option<Option<u64>> {
    match json_get(object, "output_tokens_details"@) {
        Some(details) => if details is Object {
            optional_counter(json_get(details, "reasoning_tokens"@))
        } else {
            Some(None)
        },
        None => Some(None),
    }
}

/// The decoded `usage` member: `Some(None)` when absent or `null`, `None` when malformed.
pub open spec fn decode_usage_spec(value: Option<JsonValue>) -> Option<Option<Usage>> {
    match value {
        None => Some(None),
        Some(JsonValue::Null) => Some(None),
        Some(v) => if !(v is Object) {
            None
        } else {
            match (
                reasoning_counter(v),
                optional_counter(json_get(v, "input_tokens"@)),
                optional_counter(json_get(v, "output_tokens"@)),
            ) {
                (Some(reasoning), Some(input), Some(output)) => Some(
                    Some(
                        Usage {
                            input_tokens: input,
                            output_tokens: output,
                            reasoning_tokens: reasoning,
                            ..empty_usage()
                        },
                    ),
                ),
                _ => None,
            }
        },
    }
}

/// The usage the client's protocol can encode: Anthropic has no reasoning or cached
/// sub-counters, and the Responses encoder has no cache-input counters.
pub open spec fn project_usage(usage: Usage, projection: P12ResponseUsageProjection) -> Usage {
    match projection {
        P12ResponseUsageProjection::AnthropicMessages => Usage {
            reasoning_tokens: None,
            cached_tokens: None,
            ..usage
        },
        P12ResponseUsageProjection::OpenAiResponses => Usage {
            cache_read_tokens: None,
            cache_creation_tokens: None,
            ..usage
        },
    }
}

/// The input-side counters reported before the message opens.
pub open spec fn initial_snapshot(usage: Usage) -> Usage {
    Usage {
        input_tokens: usage.input_tokens,
        cache_read_tokens: usage.cache_read_tokens,
        cache_creation_tokens: usage.cache_creation_tokens,
        cached_tokens: usage.cached_tokens,
        ..empty_usage()
    }
}

/// Narrows a decoded usage report to what the client's protocol can encode.
pub fn project_usage_for_response(
    usage: Option<Usage>,
    usage_projection: P12ResponseUsageProjection,
) -> (r: Option<Usage>)
    ensures
        r == match usage {
            Some(u) => Some(project_usage(u, usage_projection)),
            None => None,
        },
{
    match usage {
        Some(u) => {
            let mut u = u;
            match usage_projection {
                P12ResponseUsageProjection::AnthropicMessages => {
                    u.reasoning_tokens = None;
                    u.cached_tokens = None;
                },
                P12ResponseUsageProjection::OpenAiResponses => {
                    u.cache_read_tokens = None;
                    u.cache_creation_tokens = None;
                },
            }
            Some(u)
        },
        None => None,
    }
}

/// The input-side counters of a usage report, every output counter cleared.
pub fn initial_usage_snapshot(usage: &Usage) -> (r: Usage)
    ensures
        r == initial_snapshot(*usage),
{
    Usage {
        input_tokens: usage.input_tokens,
        output_tokens: None,
        reasoning_tokens: None,
        cached_tokens: usage.cached_tokens,
        cache_read_tokens: usage.cache_read_tokens,
        cache_creation_tokens: usage.cache_creation_tokens,
    }
}

/// A counter that must be a non-negative integer that fits in `u64`.
pub fn required_u64(value: &JsonValue) -> (r: Result<u64, GatewayError>)
    ensures
        match json_u64(Some(*value)) {
            Some(n) => r == Ok::<u64, GatewayError>(n),
            None => r == Err::<u64, GatewayError>(spec_upstream_protocol_error()),
        },
{
    match value.as_u64() {
        Some(n) => Ok(n),
        None => Err(upstream_protocol_error()),
    }
}

fn optional_u64(value: Option<&JsonValue>) -> (r: Result<Option<u64>, GatewayError>)
    ensures
        match optional_counter(
            match value {
                Some(v) => Some(*v),
                None => None,
            },
        ) {
            Some(n) => r == Ok::<Option<u64>, GatewayError>(n),
            None => r == Err::<Option<u64>, GatewayError>(spec_upstream_protocol_error()),
        },
{
    match value {
        None => Ok(None),
        Some(v) => match required_u64(v) {
            Ok(n) => Ok(Some(n)),
            Err(e) => Err(e),
        },
    }
}

/// Decodes the `usage` member of a response object.
pub fn decode_usage(value: Option<&JsonValue>) -> (r: Result<Option<Usage>, GatewayError>)
    ensures
        match decode_usage_spec(
            match value {
                Some(v) => Some(*v),
                None => None,
            },
        ) {
            Some(u) => r == Ok::<Option<Usage>, GatewayError>(u),
            None => r == Err::<Option<Usage>, GatewayError>(spec_upstream_protocol_error()),
        },
{
    let v = match value {
        None => return Ok(None),
        Some(v) => v,
    };
    if v.is_null() {
        return Ok(None);
    }
    if !v.is_object() {
        return Err(upstream_protocol_error());
    }
    let reasoning_tokens = match v.get("output_tokens_details") {
        Some(details) => if details.is_object() {
            match optional_u64(details.get("reasoning_tokens")) {
                Ok(n) => n,
                Err(e) => return Err(e),
            }
        } else {
            None
        },
        None => None,
    };
    let input_tokens = match optional_u64(v.get("input_tokens")) {
        Ok(n) => n,
        Err(e) => return Err(e),
    };
    let output_tokens = match optional_u64(v.get("output_tokens")) {
        Ok(n) => n,
        Err(e) => return Err(e),
    };
    Ok(
        Some(
            Usage {
                input_tokens,
                output_tokens,
                reasoning_tokens,
                cached_tokens: None,
                cache_read_tokens: None,
                cache_creation_tokens: None,
            },
        ),
    )
}

/// An event with its usage narrowed to what the client's protocol can encode.
pub open spec fn project_event(e: Event, projection: P12ResponseUsageProjection) -> Event {
    match e {
        Event::UsageDelta { usage, is_final } => Event::UsageDelta { usage: project_usage(usage, projection), is_final },
        _ => e,
    }
}

/// Narrows one decoded event's usage to what the client's protocol can encode.
pub fn project_usage_event(event: CanonicalEvent, usage_projection: P12ResponseUsageProjection) -> (r: CanonicalEvent)
    ensures
        r@ == project_event(event@, usage_projection),
{
    match event {
        CanonicalEvent::UsageDelta { usage, is_final } => {
            let projected = match project_usage_for_response(Some(usage), usage_projection) {
                Some(u) => u,
                None => usage,
            };
            CanonicalEvent::UsageDelta { usage: projected, is_final }
        },
        other => other,
    }
}

/// Narrows every decoded event's usage to what the client's protocol can encode, keeping the
/// events and their order.
pub fn project_usage_events(events: Vec<CanonicalEvent>, usage_projection: P12ResponseUsageProjection) -> (r: Vec<CanonicalEvent>)
    ensures
        events_view(r@) == events_view(events@).map_values(|e: Event| project_event(e, usage_projection)),
{
    let ghost input = events_view(events@);
    let mut events = events;
    let mut reversed: Vec<CanonicalEvent> = Vec::new();
    while events.len() > 0
        invariant
            input == events_view(events@) + events_view(reversed@).reverse(),
        decreases events.len(),
    {
        let ghost eb = events@;
        let ghost rb = reversed@;
        let e = events.pop().unwrap();
        reversed.push(e);
        proof {
            assert(events_view(eb) =~= events_view(events@).push(e@));
            assert(events_view(reversed@) =~= events_view(rb).push(e@));
            assert(events_view(reversed@).reverse() =~= seq![e@] + events_view(rb).reverse());
            assert(input =~= events_view(events@) + events_view(reversed@).reverse());
        }
    }
    let mut out: Vec<CanonicalEvent> = Vec::new();
    proof {
        assert(input =~= events_view(reversed@).reverse());
    }
    while reversed.len() > 0
        invariant
            input.map_values(|e: Event| project_event(e, usage_projection)) == events_view(out@)
                + events_view(reversed@).reverse().map_values(|e: Event| project_event(e, usage_projection)),
        decreases reversed.len(),
    {
        let ghost rb = reversed@;
        let ghost ob = out@;
        let e = reversed.pop().unwrap();
        let ghost ev = e@;
        let p = project_usage_event(e, usage_projection);
        out.push(p);
        proof {
            assert(events_view(rb) =~= events_view(reversed@).push(ev));
            assert(events_view(rb).reverse() =~= seq![ev] + events_view(reversed@).reverse());
            assert(events_view(out@) =~= events_view(ob).push(p@));
            assert(events_view(rb).reverse().map_values(|e: Event| project_event(e, usage_projection)) =~= seq![
                project_event(ev, usage_projection),
            ] + events_view(reversed@).reverse().map_values(|e: Event| project_event(e, usage_projection)));
            assert(input.map_values(|e: Event| project_event(e, usage_projection)) =~= events_view(out@)
                + events_view(reversed@).reverse().map_values(|e: Event| project_event(e, usage_projection)));
        }
    }
    proof {
        assert(events_view(out@) + events_view(reversed@).reverse().map_values(|e: Event| project_event(e, usage_projection))
            =~= events_view(out@));
    }
    out
}

} // verus!

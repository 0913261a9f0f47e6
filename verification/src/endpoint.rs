//! Endpoint rows: the shape admission of one stored endpoint, the adapter it binds, and the
//! Kiro host derivation.
use vstd::prelude::*;
use crate::composition::{
    ApiFormat, RuntimeCompositionError, adapter_format, format_named, trim_trailing_slashes,
};
use crate::json::str_eq;
use crate::text::chars_of;

verus! {

/// The extension that carries the Chat Completions output limit.
pub const P12_OPENAI_CHAT_MAX_TOKENS_EXTENSION: &'static str = "openai.chat.max_tokens";

/// The extension that carries the Responses output limit.
pub const P12_OPENAI_MAX_OUTPUT_TOKENS_EXTENSION: &'static str = "openai.responses.max_output_tokens";

/// The extension that carries the Anthropic Messages output limit.
pub const P12_ANTHROPIC_MAX_TOKENS_EXTENSION: &'static str = "anthropic.messages.max_tokens";

/// The URL prefix of the official Codex OAuth Responses endpoint.
pub const CODEX_OAUTH_URL_PREFIX: &'static str = "https://chatgpt.com/backend-api/codex/";

/// One stored endpoint row, as far as admission reads it.
#[derive(Clone, Debug)]
pub struct EndpointConfig {
    pub id: String,
    pub upstream_id: String,
    pub adapter_id: String,
    pub api_format: String,
    pub base_url: String,
    pub inference_path: String,
    /// Whether the endpoint's transport is plain HTTP request/response.
    pub http_transport: bool,
    pub enabled: bool,
}

/// Whether `s` starts with `p`.
pub open spec fn has_prefix(s: Seq<char>, p: Seq<char>) -> bool {
    s.len() >= p.len() && s.take(p.len() as int) == p
}

/// Whether `s` ends with `p`.
pub open spec fn has_suffix(s: Seq<char>, p: Seq<char>) -> bool {
    s.len() >= p.len() && s.skip(s.len() - p.len()) == p
}

/// The characters of `s` before its first `/`, or all of it.
pub open spec fn before_slash(s: Seq<char>) -> Seq<char> {
    s.take(slash_index_from(s, 0))
}

pub open spec fn slash_index_from(s: Seq<char>, i: int) -> int
    decreases s.len() - i,
{
    if i < 0 || i >= s.len() {
        s.len() as int
    } else if s[i] == '/' {
        i
    } else {
        slash_index_from(s, i + 1)
    }
}

/// How a Kiro endpoint is reached.
#[derive(Clone, Copy, Debug, PartialEq, Eq, Structural)]
pub enum KiroEndpointKind {
    Ide,
    Cli,
}

/// The kind and API region a Kiro endpoint row names: the kind from its path, the region from
/// the host its HTTPS base URL derives.
pub open spec fn kiro_shape(base_url: Seq<char>, path: Seq<char>) -> Option<(KiroEndpointKind, Seq<char>)> {
    let kind = if path == "/generateAssistantResponse"@ {
        Some(KiroEndpointKind::Ide)
    } else if path == "/"@ {
        Some(KiroEndpointKind::Cli)
    } else {
        None
    };
    match kind {
        None => None,
        Some(k) => if !has_prefix(base_url, "https://"@) {
            None
        } else {
            let host = before_slash(base_url.skip(8));
            let (pre, suf) = match k {
                KiroEndpointKind::Ide => ("q."@, ".amazonaws.com"@),
                KiroEndpointKind::Cli => ("runtime."@, ".kiro.dev"@),
            };
            if has_prefix(host, pre) && has_suffix(host.skip(pre.len() as int), suf) {
                let region = host.skip(pre.len() as int).take(
                    host.len() - pre.len() - suf.len(),
                );
                if region.len() > 0 {
                    Some((k, region))
                } else {
                    None
                }
            } else {
                None
            }
        },
    }
}

/// The URL Kiro derives for a kind and region.
pub open spec fn kiro_url(kind: KiroEndpointKind, region: Seq<char>) -> Seq<char> {
    match kind {
        KiroEndpointKind::Ide => "https://q."@ + region + ".amazonaws.com/generateAssistantResponse"@,
        KiroEndpointKind::Cli => "https://runtime."@ + region + ".kiro.dev"@,
    }
}

/// Whether `s[i..]` starts with `p`.
fn starts_at(s: &Vec<char>, i: usize, p: &Vec<char>) -> (r: bool)
    requires
        i <= s@.len(),
    ensures
        r == has_prefix(s@.skip(i as int), p@),
{
    if s.len() - i < p.len() {
        return false;
    }
    let mut k: usize = 0;
    while k < p.len()
        invariant
            i + p@.len() <= s@.len(),
            s@.len() == s.len(),
            0 <= k <= p@.len(),
            forall|q: int| 0 <= q < k ==> s@[i + q] == p@[q],
        decreases p.len() - k,
    {
        if s[i + k] != p[k] {
            assert(s@.skip(i as int).take(p@.len() as int)[k as int] != p@[k as int]);
            return false;
        }
        k = k + 1;
    }
    assert(s@.skip(i as int).take(p@.len() as int) =~= p@);
    true
}

/// Reads the Kiro endpoint kind and API region out of one endpoint row.
pub fn p12_kiro_endpoint_shape(endpoint: &EndpointConfig) -> (r: Result<(KiroEndpointKind, String), RuntimeCompositionError>)
    ensures
        match kiro_shape(endpoint.base_url@, endpoint.inference_path@) {
            Some((k, region)) => r matches Ok((k2, s)) && k2 == k && s@ == region,
            None => r == Err::<(KiroEndpointKind, String), RuntimeCompositionError>(RuntimeCompositionError::Unavailable),
        },
{
    kiro_shape_of(endpoint.base_url.as_str(), endpoint.inference_path.as_str())
}

/// The Kiro kind and region of a base URL and inference path.
fn kiro_shape_of(base_url: &str, inference_path: &str) -> (r: Result<(KiroEndpointKind, String), RuntimeCompositionError>)
    ensures
        match kiro_shape(base_url@, inference_path@) {
            Some((k, region)) => r matches Ok((k2, s)) && k2 == k && s@ == region,
            None => r == Err::<(KiroEndpointKind, String), RuntimeCompositionError>(RuntimeCompositionError::Unavailable),
        },
{
    let kind = if str_eq(inference_path, "/generateAssistantResponse") {
        KiroEndpointKind::Ide
    } else if str_eq(inference_path, "/") {
        KiroEndpointKind::Cli
    } else {
        return Err(RuntimeCompositionError::Unavailable);
    };
    let url = chars_of(base_url);
    let scheme = chars_of("https://");
    proof {
        reveal_strlit("https://");
    }
    if !starts_at(&url, 0, &scheme) {
        assert(url@.skip(0) =~= url@);
        return Err(RuntimeCompositionError::Unavailable);
    }
    assert(url@.skip(0) =~= url@);
    let ghost rest = url@.skip(8);
    let mut end: usize = 8;
    while end < url.len() && url[end] != '/'
        invariant
            8 <= end <= url@.len(),
            rest == url@.skip(8),
            slash_index_from(rest, 0) == slash_index_from(rest, end - 8),
        decreases url.len() - end,
    {
        end = end + 1;
    }
    let ghost host = url@.subrange(8, end as int);
    assert(host =~= before_slash(rest));
    let (pre, suf) = match kind {
        KiroEndpointKind::Ide => (chars_of("q."), chars_of(".amazonaws.com")),
        KiroEndpointKind::Cli => (chars_of("runtime."), chars_of(".kiro.dev")),
    };
    let host_len = end - 8;
    if host_len < pre.len() || !starts_at(&url, 8, &pre) {
        proof {
            if host_len >= pre@.len() {
                assert(url@.skip(8).take(pre@.len() as int) =~= host.take(pre@.len() as int));
            }
        }
        return Err(RuntimeCompositionError::Unavailable);
    }
    assert(url@.skip(8).take(pre@.len() as int) =~= host.take(pre@.len() as int));
    let after = 8 + pre.len();
    let ghost tail = host.skip(pre@.len() as int);
    if end - after < suf.len() || !starts_at(&url, end - suf.len(), &suf) {
        proof {
            if end - after >= suf@.len() {
                assert(url@.skip(end - suf@.len()).take(suf@.len() as int) =~= tail.skip(tail.len() - suf@.len()));
            }
        }
        return Err(RuntimeCompositionError::Unavailable);
    }
    assert(url@.skip(end - suf@.len()).take(suf@.len() as int) =~= tail.skip(tail.len() - suf@.len()));
    let stop = end - suf.len();
    if stop == after {
        return Err(RuntimeCompositionError::Unavailable);
    }
    let region = crate::composition::string_of_range(&url, after, stop);
    assert(region@ =~= tail.take(host.len() - pre@.len() - suf@.len()));
    Ok((kind, region))
}

/// The URL Kiro derives for a kind and region.
pub fn kiro_policy_url(kind: KiroEndpointKind, region: &str) -> (r: String)
    ensures
        r@ == kiro_url(kind, region@),
{
    match kind {
        KiroEndpointKind::Ide => {
            let mut r = String::from_str("https://q.");
            r.append(region);
            r.append(".amazonaws.com/generateAssistantResponse");
            r
        },
        KiroEndpointKind::Cli => {
            let mut r = String::from_str("https://runtime.");
            r.append(region);
            r.append(".kiro.dev");
            r
        },
    }
}

/// Whether `a` and `b` agree once trailing `/` are dropped.
fn same_without_trailing_slashes(a: &str, b: &str) -> (r: bool)
    ensures
        r == (trim_trailing_slashes(a@) == trim_trailing_slashes(b@)),
{
    let x = crate::composition::composed_endpoint_url(a, "");
    let y = crate::composition::composed_endpoint_url(b, "");
    proof {
        reveal_strlit("");
        assert(x@ =~= trim_trailing_slashes(a@));
        assert(y@ =~= trim_trailing_slashes(b@));
    }
    str_eq(x.as_str(), y.as_str())
}

/// The binding one endpoint's declared format selects.
#[derive(Clone, Debug)]
pub enum EndpointAdapter {
    OpenAiChatCompletions { url: String },
    OpenAiResponses { url: String },
    GrokBuildResponses,
    GrokConsoleResponses,
    GrokWebResponses,
    GrokOfficialResponses,
    AnthropicMessages { url: String },
    KiroMessages { kind: KiroEndpointKind, region: String },
}

/// The format each binding serves.
pub open spec fn binding_format(a: EndpointAdapter) -> ApiFormat {
    match a {
        EndpointAdapter::OpenAiChatCompletions { .. } => ApiFormat::OpenAiChatCompletions,
        EndpointAdapter::AnthropicMessages { .. } | EndpointAdapter::KiroMessages { .. } => ApiFormat::AnthropicMessages,
        _ => ApiFormat::OpenAiResponses,
    }
}

impl EndpointAdapter {
    /// Returns the exact API format this binding serves.
    pub fn api_format(&self) -> (f: ApiFormat)
        ensures
            f == binding_format(*self),
    {
        match self {
            EndpointAdapter::OpenAiChatCompletions { .. } => ApiFormat::OpenAiChatCompletions,
            EndpointAdapter::OpenAiResponses { .. }
            | EndpointAdapter::GrokBuildResponses
            | EndpointAdapter::GrokConsoleResponses
            | EndpointAdapter::GrokWebResponses
            | EndpointAdapter::GrokOfficialResponses => ApiFormat::OpenAiResponses,
            EndpointAdapter::AnthropicMessages { .. } | EndpointAdapter::KiroMessages { .. } => ApiFormat::AnthropicMessages,
        }
    }
}

/// Whether a Channel Pin may use this binding: only the generic adapters, which send exactly
/// one upstream request per attempt.
pub fn channel_pin_single_transport_adapter(adapter: &EndpointAdapter) -> (r: bool)
    ensures
        r == (adapter is OpenAiChatCompletions || adapter is OpenAiResponses || adapter is AnthropicMessages),
{
    match adapter {
        EndpointAdapter::OpenAiChatCompletions { .. }
        | EndpointAdapter::OpenAiResponses { .. }
        | EndpointAdapter::AnthropicMessages { .. } => true,
        _ => false,
    }
}

/// The extension that bounds a Channel Pin probe's output on this binding: none for the
/// official Codex endpoint, which rejects the field, nor for native bindings.
pub fn probe_limit_extension(adapter: &EndpointAdapter) -> (r: Option<&'static str>)
    ensures
        match *adapter {
            EndpointAdapter::OpenAiChatCompletions { .. } => r matches Some(x) && x@ == P12_OPENAI_CHAT_MAX_TOKENS_EXTENSION@,
            EndpointAdapter::OpenAiResponses { url } => if has_prefix(url@, CODEX_OAUTH_URL_PREFIX@) {
                r is None
            } else {
                r matches Some(x) && x@ == P12_OPENAI_MAX_OUTPUT_TOKENS_EXTENSION@
            },
            EndpointAdapter::AnthropicMessages { .. } => r matches Some(x) && x@ == P12_ANTHROPIC_MAX_TOKENS_EXTENSION@,
            _ => r is None,
        },
{
    match adapter {
        EndpointAdapter::OpenAiChatCompletions { .. } => Some(P12_OPENAI_CHAT_MAX_TOKENS_EXTENSION),
        EndpointAdapter::OpenAiResponses { url } => {
            let u = chars_of(url.as_str());
            let p = chars_of(CODEX_OAUTH_URL_PREFIX);
            let codex = starts_at(&u, 0, &p);
            assert(u@.skip(0) =~= u@);
            if codex {
                None
            } else {
                Some(P12_OPENAI_MAX_OUTPUT_TOKENS_EXTENSION)
            }
        },
        EndpointAdapter::AnthropicMessages { .. } => Some(P12_ANTHROPIC_MAX_TOKENS_EXTENSION),
        _ => None,
    }
}

/// Admits one endpoint row: its `api_format` names a served format, its adapter implements
/// that format, it is enabled and its transport is plain HTTP.
pub fn validate_endpoint_shape(endpoint: &EndpointConfig) -> (r: Result<ApiFormat, RuntimeCompositionError>)
    ensures
        match format_named(endpoint.api_format@) {
            Some(f) => if endpoint.enabled && adapter_format(endpoint.adapter_id@) == Some(f)
                && endpoint.http_transport {
                r == Ok::<ApiFormat, RuntimeCompositionError>(f)
            } else {
                r == Err::<ApiFormat, RuntimeCompositionError>(RuntimeCompositionError::Unavailable)
            },
            None => r == Err::<ApiFormat, RuntimeCompositionError>(RuntimeCompositionError::Unavailable),
        },
{
    let format = match ApiFormat::parse(endpoint.api_format.as_str()) {
        Some(f) => f,
        None => return Err(RuntimeCompositionError::Unavailable),
    };
    if !endpoint.enabled || !format.serves(endpoint.adapter_id.as_str()) || !endpoint.http_transport {
        return Err(RuntimeCompositionError::Unavailable);
    }
    Ok(format)
}

/// Builds the Kiro binding of one endpoint row: its shape must parse, and the URL the row
/// stores must be exactly the one Kiro derives, trailing slashes aside.
pub fn build_kiro_messages_adapter(endpoint: &EndpointConfig) -> (r: Result<EndpointAdapter, RuntimeCompositionError>)
    ensures
        match kiro_shape(endpoint.base_url@, endpoint.inference_path@) {
            Some((k, region)) => if trim_trailing_slashes(trim_trailing_slashes(endpoint.base_url@)
                + endpoint.inference_path@) == trim_trailing_slashes(kiro_url(k, region)) {
                r matches Ok(EndpointAdapter::KiroMessages { kind, region: s }) && kind == k && s@ == region
            } else {
                r == Err::<EndpointAdapter, RuntimeCompositionError>(RuntimeCompositionError::Unavailable)
            },
            None => r == Err::<EndpointAdapter, RuntimeCompositionError>(RuntimeCompositionError::Unavailable),
        },
{
    let (kind, region) = match p12_kiro_endpoint_shape(endpoint) {
        Ok(shape) => shape,
        Err(e) => return Err(e),
    };
    let derived = kiro_policy_url(kind, region.as_str());
    let stored = crate::composition::composed_endpoint_url(endpoint.base_url.as_str(), endpoint.inference_path.as_str());
    if !same_without_trailing_slashes(stored.as_str(), derived.as_str()) {
        return Err(RuntimeCompositionError::Unavailable);
    }
    Ok(EndpointAdapter::KiroMessages { kind, region })
}

} // verus!

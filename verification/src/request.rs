//! The outbound side of one attempt: the request-extension projections each provider boundary
//! applies, and the exact transport request handed to the shared HTTP client.
use vstd::prelude::*;
use vstd::string::StringSliceAdditionalSpecFns;
use vstd::utf8::*;
use crate::endpoint::{P12_ANTHROPIC_MAX_TOKENS_EXTENSION, P12_OPENAI_MAX_OUTPUT_TOKENS_EXTENSION};
use crate::errors::{
    GatewayError, credential_unavailable_error, egress_rejected_error, internal_error,
    upstream_protocol_error,
};
use crate::json::{JsonNumber, JsonValue, json_parse, parse_json, str_eq};
use crate::transport::{
    P12_CODEX_OAUTH_ORIGINATOR, P12_CODEX_OAUTH_USER_AGENT, P12_CODEX_OAUTH_VERSION,
    P12_KRILL_COMPATIBILITY_USER_AGENT, header_view,
};
use crate::usage::P12ResponseUsageProjection;

verus! {

/// The namespaced extensions of one canonical request: each name with its raw JSON text.
pub type Extensions = Vec<(String, String)>;

/// The extensions as names and texts.
pub open spec fn ext_view(e: Seq<(String, String)>) -> Seq<(Seq<char>, Seq<char>)> {
    e.map_values(|p: (String, String)| (p.0@, p.1@))
}

/// The text of extension `name`, when some extension has it.
pub open spec fn ext_get(e: Seq<(Seq<char>, Seq<char>)>, name: Seq<char>) -> Option<Seq<char>>
    decreases e.len(),
{
    if e.len() == 0 {
        None
    } else if e[0].0 == name {
        Some(e[0].1)
    } else {
        ext_get(e.drop_first(), name)
    }
}

/// The extensions other than `name`, in order.
pub open spec fn ext_without(e: Seq<(Seq<char>, Seq<char>)>, name: Seq<char>) -> Seq<(Seq<char>, Seq<char>)>
    decreases e.len(),
{
    if e.len() == 0 {
        e
    } else {
        let rest = ext_without(e.drop_last(), name);
        if e.last().0 == name {
            rest
        } else {
            rest.push(e.last())
        }
    }
}

fn find_extension<'a>(extensions: &'a Extensions, name: &str) -> (r: Option<&'a String>)
    ensures
        (match r {
            Some(s) => Some(s@),
            None => None,
        }) == ext_get(ext_view(extensions@), name@),
{
    let ghost v = ext_view(extensions@);
    let mut i: usize = 0;
    assert(v.skip(0) =~= v);
    while i < extensions.len()
        invariant
            0 <= i <= extensions@.len(),
            v == ext_view(extensions@),
            ext_get(v, name@) == ext_get(v.skip(i as int), name@),
        decreases extensions.len() - i,
    {
        assert(v.skip(i as int).drop_first() =~= v.skip(i + 1));
        assert(v.skip(i as int)[0] == v[i as int]);
        if str_eq(extensions[i].0.as_str(), name) {
            return Some(&extensions[i].1);
        }
        i = i + 1;
    }
    None
}

fn extensions_without(extensions: &Extensions, name: &str) -> (r: Extensions)
    ensures
        ext_view(r@) == ext_without(ext_view(extensions@), name@),
{
    let ghost v = ext_view(extensions@);
    let mut out: Extensions = Vec::new();
    let mut i: usize = 0;
    while i < extensions.len()
        invariant
            0 <= i <= extensions@.len(),
            v == ext_view(extensions@),
            ext_view(out@) == ext_without(v.take(i as int), name@),
        decreases extensions.len() - i,
    {
        let ghost before = out@;
        assert(v.take(i + 1).drop_last() =~= v.take(i as int));
        assert(v.take(i + 1).last() == v[i as int]);
        if !str_eq(extensions[i].0.as_str(), name) {
            out.push((extensions[i].0.clone(), extensions[i].1.clone()));
            assert(ext_view(out@) =~= ext_view(before).push(v[i as int]));
        }
        i = i + 1;
    }
    assert(v.take(i as int) =~= v);
    out
}

/// Whether `text` is one JSON number that is a positive `u64`.
pub open spec fn is_positive_count(text: Seq<char>) -> bool {
    json_parse(encode_utf8(text)) matches Some(JsonValue::Number(JsonNumber::PosInt(n))) && n > 0
}

/// The extensions an `OpenAI`-compatible upstream receives: unchanged without the Anthropic
/// output limit; otherwise that limit, which must be a positive integer and must not meet an
/// existing Responses limit, moves to the Responses name, every other extension kept.
pub open spec fn openai_compatible_extensions(e: Seq<(Seq<char>, Seq<char>)>) -> Option<Seq<(Seq<char>, Seq<char>)>> {
    match ext_get(e, P12_ANTHROPIC_MAX_TOKENS_EXTENSION@) {
        None => Some(e),
        Some(max_tokens) => if ext_get(e, P12_OPENAI_MAX_OUTPUT_TOKENS_EXTENSION@) is Some
            || !is_positive_count(max_tokens) {
            None
        } else {
            Some(
                ext_without(e, P12_ANTHROPIC_MAX_TOKENS_EXTENSION@).push(
                    (P12_OPENAI_MAX_OUTPUT_TOKENS_EXTENSION@, max_tokens),
                ),
            )
        },
    }
}

/// Translates the one admitted Anthropic output limit before generic Responses encoding.
pub fn p12_openai_compatible_request(extensions: &Extensions) -> (r: Result<Extensions, GatewayError>)
    ensures
        match openai_compatible_extensions(ext_view(extensions@)) {
            Some(e) => r matches Ok(x) && ext_view(x@) == e,
            None => r == Err::<Extensions, GatewayError>(crate::errors::spec_upstream_protocol_error()),
        },
{
    let max_tokens = match find_extension(extensions, P12_ANTHROPIC_MAX_TOKENS_EXTENSION) {
        None => {
            let mut copy: Extensions = Vec::new();
            let mut i: usize = 0;
            while i < extensions.len()
                invariant
                    0 <= i <= extensions@.len(),
                    ext_view(copy@) == ext_view(extensions@).take(i as int),
                decreases extensions.len() - i,
            {
                let ghost before = copy@;
                copy.push((extensions[i].0.clone(), extensions[i].1.clone()));
                assert(ext_view(copy@) =~= ext_view(before).push(ext_view(extensions@)[i as int]));
                assert(ext_view(extensions@).take(i + 1) =~= ext_view(extensions@).take(i as int).push(
                    ext_view(extensions@)[i as int],
                ));
                i = i + 1;
            }
            assert(ext_view(extensions@).take(i as int) =~= ext_view(extensions@));
            return Ok(copy);
        },
        Some(v) => v,
    };
    if find_extension(extensions, P12_OPENAI_MAX_OUTPUT_TOKENS_EXTENSION).is_some() {
        return Err(upstream_protocol_error());
    }
    let positive = match parse_json(max_tokens.as_str().as_bytes()) {
        Some(JsonValue::Number(JsonNumber::PosInt(n))) => n > 0,
        _ => false,
    };
    if !positive {
        return Err(upstream_protocol_error());
    }
    let mut out = extensions_without(extensions, P12_ANTHROPIC_MAX_TOKENS_EXTENSION);
    let ghost before = out@;
    out.push((String::from_str(P12_OPENAI_MAX_OUTPUT_TOKENS_EXTENSION), max_tokens.clone()));
    assert(ext_view(out@) =~= ext_view(before).push((P12_OPENAI_MAX_OUTPUT_TOKENS_EXTENSION@, max_tokens@)));
    Ok(out)
}

/// The usage projection a request selects: the Anthropic one exactly when its Messages output
/// limit is present.
pub fn p12_response_usage_projection(extensions: &Extensions) -> (r: P12ResponseUsageProjection)
    ensures
        r == if ext_get(ext_view(extensions@), P12_ANTHROPIC_MAX_TOKENS_EXTENSION@) is Some {
            P12ResponseUsageProjection::AnthropicMessages
        } else {
            P12ResponseUsageProjection::OpenAiResponses
        },
{
    if find_extension(extensions, P12_ANTHROPIC_MAX_TOKENS_EXTENSION).is_some() {
        P12ResponseUsageProjection::AnthropicMessages
    } else {
        P12ResponseUsageProjection::OpenAiResponses
    }
}

/// The extensions a Kiro request keeps: every one but the Anthropic output limit, which Kiro
/// cannot express.
pub fn p12_kiro_request_projection(extensions: &Extensions) -> (r: Extensions)
    ensures
        ext_view(r@) == ext_without(ext_view(extensions@), P12_ANTHROPIC_MAX_TOKENS_EXTENSION@),
{
    extensions_without(extensions, P12_ANTHROPIC_MAX_TOKENS_EXTENSION)
}

/// One encoded `OpenAI` Responses request, as the transport boundary reads it.
#[derive(Clone, Debug)]
pub struct OutboundRequest {
    pub url: String,
    pub accept: Option<String>,
    pub authorization: Option<String>,
    pub content_type: Option<String>,
    pub body: Vec<u8>,
}

/// One transport request: the admitted URL, a `POST`, the exact header list and the body.
#[derive(Clone, Debug, PartialEq, Eq)]
pub struct TransportRequest {
    pub url: String,
    pub headers: Vec<(String, String)>,
    pub body: Vec<u8>,
}

/// The headers of one transport request: the three standard ones, the route's `User-Agent`,
/// and on the Codex OAuth route the account binding and the Codex protocol headers.
pub open spec fn transport_headers(
    accept: Seq<char>,
    authorization: Seq<char>,
    content_type: Seq<char>,
    codex: Option<Seq<char>>,
) -> Seq<(Seq<char>, Seq<char>)> {
    let base = seq![
        ("accept"@, accept),
        ("authorization"@, authorization),
        ("content-type"@, content_type),
        ("user-agent"@, if codex is Some {
            P12_CODEX_OAUTH_USER_AGENT@
        } else {
            P12_KRILL_COMPATIBILITY_USER_AGENT@
        }),
    ];
    match codex {
        Some(account) => base + seq![
            ("chatgpt-account-id"@, account),
            ("openai-beta"@, "responses=experimental"@),
            ("originator"@, P12_CODEX_OAUTH_ORIGINATOR@),
            ("version"@, P12_CODEX_OAUTH_VERSION@),
        ],
        None => base,
    }
}

/// Hands one encoded Responses request to the transport: the admitted URL must be the
/// request's own, the three standard headers must be present, and the Codex OAuth route
/// needs the credential's account binding.
pub fn p12_transport_request(
    outbound: &OutboundRequest,
    admitted_url: &str,
    codex_oauth: bool,
    account_id: Option<&str>,
) -> (r: Result<TransportRequest, GatewayError>)
    ensures
        admitted_url@ != outbound.url@ ==> r == Err::<TransportRequest, GatewayError>(
            crate::errors::spec_egress_rejected_error(),
        ),
        admitted_url@ == outbound.url@ && (outbound.accept is None || outbound.authorization is None
            || outbound.content_type is None) ==> r == Err::<TransportRequest, GatewayError>(
            crate::errors::spec_internal_error(),
        ),
        admitted_url@ == outbound.url@ && outbound.accept is Some && outbound.authorization is Some
            && outbound.content_type is Some && codex_oauth && account_id is None ==> r == Err::<
            TransportRequest,
            GatewayError,
        >(crate::errors::spec_credential_unavailable_error()),
        admitted_url@ == outbound.url@ && outbound.accept is Some && outbound.authorization is Some
            && outbound.content_type is Some && (!codex_oauth || account_id is Some) ==> (r matches Ok(
            t,
        ) && t.url@ == admitted_url@ && t.body@ == outbound.body@ && t.headers@.map_values(
            |h: (String, String)| header_view(h),
        ) == transport_headers(
            outbound.accept->0@,
            outbound.authorization->0@,
            outbound.content_type->0@,
            if codex_oauth {
                Some(account_id->0@)
            } else {
                None
            },
        )),
{
    if !str_eq(admitted_url, outbound.url.as_str()) {
        return Err(egress_rejected_error());
    }
    let accept = match &outbound.accept {
        Some(v) => v.clone(),
        None => return Err(internal_error()),
    };
    let authorization = match &outbound.authorization {
        Some(v) => v.clone(),
        None => return Err(internal_error()),
    };
    let content_type = match &outbound.content_type {
        Some(v) => v.clone(),
        None => return Err(internal_error()),
    };
    let user_agent = if codex_oauth {
        P12_CODEX_OAUTH_USER_AGENT
    } else {
        P12_KRILL_COMPATIBILITY_USER_AGENT
    };
    let mut headers: Vec<(String, String)> = Vec::new();
    headers.push((String::from_str("accept"), accept));
    headers.push((String::from_str("authorization"), authorization));
    headers.push((String::from_str("content-type"), content_type));
    headers.push((String::from_str("user-agent"), String::from_str(user_agent)));
    if codex_oauth {
        let account = match account_id {
            Some(a) => a,
            None => return Err(credential_unavailable_error()),
        };
        headers.push((String::from_str("chatgpt-account-id"), String::from_str(account)));
        headers.push((String::from_str("openai-beta"), String::from_str("responses=experimental")));
        headers.push((String::from_str("originator"), String::from_str(P12_CODEX_OAUTH_ORIGINATOR)));
        headers.push((String::from_str("version"), String::from_str(P12_CODEX_OAUTH_VERSION)));
    }
    proof {
        let want = transport_headers(
            outbound.accept->0@,
            outbound.authorization->0@,
            outbound.content_type->0@,
            if codex_oauth {
                Some(account_id->0@)
            } else {
                None
            },
        );
        assert(headers@.map_values(|h: (String, String)| header_view(h)) =~= want);
    }
    Ok(TransportRequest { url: String::from_str(admitted_url), headers, body: outbound.body.clone() })
}

} // verus!

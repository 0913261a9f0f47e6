//! Value-free composition failures and the fixed adapter tables the runtime composes from.
use vstd::prelude::*;
use crate::endpoint::EndpointConfig;
use crate::json::str_eq;

verus! {

/// A bounded, value-free classification used at the deployment boundary.
#[derive(Clone, Copy, Debug, PartialEq, Eq, Structural)]
pub enum RuntimeCompositionStage {
    ControlPlane,
    RequiredResources,
    NetworkShape,
    CredentialBindings,
    RouteAccess,
    Snapshot,
    Egress,
    CredentialPool,
    NativeAccountPool,
    ProviderAccountPool,
    RoutingPricePolicy,
    AdapterRegistry,
    EndpointRuntime,
    EventStore,
    StoredResponse,
}

/// The stable label each composition stage renders as.
pub open spec fn stage_label(stage: RuntimeCompositionStage) -> Seq<char> {
    match stage {
        RuntimeCompositionStage::ControlPlane => "control_plane"@,
        RuntimeCompositionStage::RequiredResources => "required_resources"@,
        RuntimeCompositionStage::NetworkShape => "network_shape"@,
        RuntimeCompositionStage::CredentialBindings => "credential_bindings"@,
        RuntimeCompositionStage::RouteAccess => "route_access"@,
        RuntimeCompositionStage::Snapshot => "snapshot"@,
        RuntimeCompositionStage::Egress => "egress"@,
        RuntimeCompositionStage::CredentialPool => "credential_pool"@,
        RuntimeCompositionStage::NativeAccountPool => "native_account_pool"@,
        RuntimeCompositionStage::ProviderAccountPool => "provider_account_pool"@,
        RuntimeCompositionStage::RoutingPricePolicy => "routing_price_policy"@,
        RuntimeCompositionStage::AdapterRegistry => "adapter_registry"@,
        RuntimeCompositionStage::EndpointRuntime => "endpoint_runtime"@,
        RuntimeCompositionStage::EventStore => "event_store"@,
        RuntimeCompositionStage::StoredResponse => "stored_response"@,
    }
}

impl RuntimeCompositionStage {
    /// Returns the stable label of this stage.
    pub fn label(self) -> (label: &'static str)
        ensures
            label@ == stage_label(self),
    {
        match self {
            RuntimeCompositionStage::ControlPlane => "control_plane",
            RuntimeCompositionStage::RequiredResources => "required_resources",
            RuntimeCompositionStage::NetworkShape => "network_shape",
            RuntimeCompositionStage::CredentialBindings => "credential_bindings",
            RuntimeCompositionStage::RouteAccess => "route_access",
            RuntimeCompositionStage::Snapshot => "snapshot",
            RuntimeCompositionStage::Egress => "egress",
            RuntimeCompositionStage::CredentialPool => "credential_pool",
            RuntimeCompositionStage::NativeAccountPool => "native_account_pool",
            RuntimeCompositionStage::ProviderAccountPool => "provider_account_pool",
            RuntimeCompositionStage::RoutingPricePolicy => "routing_price_policy",
            RuntimeCompositionStage::AdapterRegistry => "adapter_registry",
            RuntimeCompositionStage::EndpointRuntime => "endpoint_runtime",
            RuntimeCompositionStage::EventStore => "event_store",
            RuntimeCompositionStage::StoredResponse => "stored_response",
        }
    }
}

/// Safe, target-free runtime-composition failure.
#[derive(Clone, Copy, Debug, PartialEq, Eq, Structural)]
pub enum RuntimeCompositionError {
    /// A control-plane, snapshot, credential or bounded transport invariant failed.
    Unavailable,
    /// A bounded, value-free classification used at the deployment boundary.
    Stage(RuntimeCompositionStage),
}

/// The message a composition failure renders as.
pub open spec fn composition_message(e: RuntimeCompositionError) -> Seq<char> {
    match e {
        RuntimeCompositionError::Unavailable => "P12 Staging runtime is unavailable"@,
        RuntimeCompositionError::Stage(stage) => "P12 Staging runtime is unavailable (stage="@
            + stage_label(stage) + ")"@,
    }
}

impl RuntimeCompositionError {
    /// The message this failure renders as; it names at most the stage.
    pub fn message(&self) -> (m: String)
        ensures
            m@ == composition_message(*self),
    {
        match self {
            RuntimeCompositionError::Unavailable => String::from_str(
                "P12 Staging runtime is unavailable",
            ),
            RuntimeCompositionError::Stage(stage) => {
                let mut m = String::from_str("P12 Staging runtime is unavailable (stage=");
                m.append(stage.label());
                m.append(")");
                m
            },
        }
    }
}

/// Milliseconds since the Unix epoch by the system clock, with `std::time::SystemTime`;
/// `None` when the clock reads before the epoch.
///
/// Trusted: nothing is claimed of the value, which is the machine's clock.
#[verifier::external_body]
pub(crate) fn clock_millis_since_epoch() -> Option<u128> {
    std::time::SystemTime::now()
        .duration_since(std::time::UNIX_EPOCH)
        .ok()
        .map(|elapsed| elapsed.as_millis())
}

/// The current time in epoch milliseconds, or `Unavailable` when the clock reads before the
/// epoch or past what an `i64` holds.
pub fn system_now_ms_runtime() -> (r: Result<i64, RuntimeCompositionError>)
    ensures
        r matches Ok(ms) ==> ms >= 0,
        r matches Err(e) ==> e == RuntimeCompositionError::Unavailable,
{
    epoch_millis_as_i64(clock_millis_since_epoch())
}

/// A clock reading in epoch milliseconds as an `i64`.
pub fn epoch_millis_as_i64(reading: Option<u128>) -> (r: Result<i64, RuntimeCompositionError>)
    ensures
        r == match reading {
            Some(ms) => if ms <= i64::MAX {
                Ok::<i64, RuntimeCompositionError>(ms as i64)
            } else {
                Err(RuntimeCompositionError::Unavailable)
            },
            None => Err(RuntimeCompositionError::Unavailable),
        },
{
    match reading {
        Some(ms) => if ms <= 9223372036854775807u128 {
            Ok(ms as i64)
        } else {
            Err(RuntimeCompositionError::Unavailable)
        },
        None => Err(RuntimeCompositionError::Unavailable),
    }
}

/// The wire protocols this build serves.
#[derive(Clone, Copy, Debug, PartialEq, Eq, Structural)]
pub enum ApiFormat {
    OpenAiChatCompletions,
    OpenAiResponses,
    AnthropicMessages,
}

/// The format a stored `api_format` names.
pub open spec fn format_named(name: Seq<char>) -> Option<ApiFormat> {
    if name == "openai/chat-completions"@ {
        Some(ApiFormat::OpenAiChatCompletions)
    } else if name == "openai/responses"@ {
        Some(ApiFormat::OpenAiResponses)
    } else if name == "anthropic/messages"@ {
        Some(ApiFormat::AnthropicMessages)
    } else {
        None
    }
}

/// The format an adapter implements, for the adapters this build binds.
pub open spec fn adapter_format(adapter_id: Seq<char>) -> Option<ApiFormat> {
    if adapter_id == "openai-compatible.chat-completions"@ {
        Some(ApiFormat::OpenAiChatCompletions)
    } else if adapter_id == "openai-compatible.responses"@ || adapter_id == "grok.build.responses"@
        || adapter_id == "grok.console.responses"@ || adapter_id == "grok.official.responses"@
        || adapter_id == "grok.web.responses"@ {
        Some(ApiFormat::OpenAiResponses)
    } else if adapter_id == "anthropic-compatible.messages"@ || adapter_id == "kiro.messages"@ {
        Some(ApiFormat::AnthropicMessages)
    } else {
        None
    }
}

impl ApiFormat {
    /// The format a stored `api_format` names.
    pub fn parse(name: &str) -> (r: Option<ApiFormat>)
        ensures
            r == format_named(name@),
    {
        if str_eq(name, "openai/chat-completions") {
            Some(ApiFormat::OpenAiChatCompletions)
        } else if str_eq(name, "openai/responses") {
            Some(ApiFormat::OpenAiResponses)
        } else if str_eq(name, "anthropic/messages") {
            Some(ApiFormat::AnthropicMessages)
        } else {
            None
        }
    }

    /// Whether adapter `adapter_id` implements this format.
    pub fn serves(self, adapter_id: &str) -> (r: bool)
        ensures
            r == (adapter_format(adapter_id@) == Some(self)),
    {
        match implemented_format(adapter_id) {
            Some(f) => f == self,
            None => false,
        }
    }
}

/// The format an adapter implements, for the adapters this build binds.
pub fn implemented_format(adapter_id: &str) -> (r: Option<ApiFormat>)
    ensures
        r == adapter_format(adapter_id@),
{
    if str_eq(adapter_id, "openai-compatible.chat-completions") {
        Some(ApiFormat::OpenAiChatCompletions)
    } else if str_eq(adapter_id, "openai-compatible.responses") || str_eq(
        adapter_id,
        "grok.build.responses",
    ) || str_eq(adapter_id, "grok.console.responses") || str_eq(
        adapter_id,
        "grok.official.responses",
    ) || str_eq(adapter_id, "grok.web.responses") {
        Some(ApiFormat::OpenAiResponses)
    } else if str_eq(adapter_id, "anthropic-compatible.messages") || str_eq(
        adapter_id,
        "kiro.messages",
    ) {
        Some(ApiFormat::AnthropicMessages)
    } else {
        None
    }
}

/// Whether `adapter_id` may serve `format` in this composition.
pub fn p12_adapter_id_serves(format: ApiFormat, adapter_id: &str) -> (r: bool)
    ensures
        r == (adapter_format(adapter_id@) == Some(format)),
{
    format.serves(adapter_id)
}

/// Resolves a stored `(api_format, adapter_id)` pair to the format it serves, when this build
/// binds that adapter for that format.
pub fn resolve_adapter(api_format: &str, adapter_id: &str) -> (r: Option<ApiFormat>)
    ensures
        r == match format_named(api_format@) {
            Some(f) => if adapter_format(adapter_id@) == Some(f) {
                Some(f)
            } else {
                None
            },
            None => None,
        },
{
    match ApiFormat::parse(api_format) {
        Some(f) => if f.serves(adapter_id) {
            Some(f)
        } else {
            None
        },
        None => None,
    }
}

/// Whether `adapter_id` names one of the three generic compatible adapters.
pub fn is_generic_compatible_adapter(adapter_id: &str) -> (r: bool)
    ensures
        r == (adapter_id@ == "openai-compatible.chat-completions"@ || adapter_id@
            == "openai-compatible.responses"@ || adapter_id@ == "anthropic-compatible.messages"@),
{
    str_eq(adapter_id, "openai-compatible.chat-completions") || str_eq(
        adapter_id,
        "openai-compatible.responses",
    ) || str_eq(adapter_id, "anthropic-compatible.messages")
}

/// The semantic capabilities a route may rely on.
#[derive(Clone, Copy, Debug, PartialEq, Eq, Structural)]
pub enum SemanticCapability {
    Tools,
    ParallelTools,
    Reasoning,
    JsonSchema,
    Vision,
    Streaming,
    ResponsesWebSocket,
    StoredResponses,
    ResponseCompaction,
}

/// A set of semantic capabilities.
#[derive(Clone, Copy, Debug, PartialEq, Eq, Structural)]
pub struct CapabilitySet {
    pub tools: bool,
    pub parallel_tools: bool,
    pub reasoning: bool,
    pub json_schema: bool,
    pub vision: bool,
    pub streaming: bool,
    pub responses_websocket: bool,
    pub stored_responses: bool,
    pub response_compaction: bool,
}

/// Whether `set` holds capability `c`.
pub open spec fn holds(set: CapabilitySet, c: SemanticCapability) -> bool {
    match c {
        SemanticCapability::Tools => set.tools,
        SemanticCapability::ParallelTools => set.parallel_tools,
        SemanticCapability::Reasoning => set.reasoning,
        SemanticCapability::JsonSchema => set.json_schema,
        SemanticCapability::Vision => set.vision,
        SemanticCapability::Streaming => set.streaming,
        SemanticCapability::ResponsesWebSocket => set.responses_websocket,
        SemanticCapability::StoredResponses => set.stored_responses,
        SemanticCapability::ResponseCompaction => set.response_compaction,
    }
}

impl CapabilitySet {
    /// The set holding no capability.
    pub fn empty() -> (s: CapabilitySet)
        ensures
            forall|c: SemanticCapability| !holds(s, c),
            !s.tools && !s.parallel_tools && !s.reasoning && !s.json_schema && !s.vision
                && !s.streaming && !s.responses_websocket && !s.stored_responses
                && !s.response_compaction,
    {
        CapabilitySet {
            tools: false,
            parallel_tools: false,
            reasoning: false,
            json_schema: false,
            vision: false,
            streaming: false,
            responses_websocket: false,
            stored_responses: false,
            response_compaction: false,
        }
    }

    /// Whether this set holds capability `c`.
    pub fn supports(&self, c: SemanticCapability) -> (r: bool)
        ensures
            r == holds(*self, c),
    {
        match c {
            SemanticCapability::Tools => self.tools,
            SemanticCapability::ParallelTools => self.parallel_tools,
            SemanticCapability::Reasoning => self.reasoning,
            SemanticCapability::JsonSchema => self.json_schema,
            SemanticCapability::Vision => self.vision,
            SemanticCapability::Streaming => self.streaming,
            SemanticCapability::ResponsesWebSocket => self.responses_websocket,
            SemanticCapability::StoredResponses => self.stored_responses,
            SemanticCapability::ResponseCompaction => self.response_compaction,
        }
    }
}

/// The capabilities this build proves for each adapter it binds; no adapter claims Vision.
pub open spec fn adapter_capability_table(adapter_id: Seq<char>) -> Option<CapabilitySet> {
    let none = CapabilitySet {
        tools: false,
        parallel_tools: false,
        reasoning: false,
        json_schema: false,
        vision: false,
        streaming: false,
        responses_websocket: false,
        stored_responses: false,
        response_compaction: false,
    };
    if adapter_id == "openai-compatible.chat-completions"@ {
        Some(CapabilitySet { tools: true, parallel_tools: true, json_schema: true, streaming: true, responses_websocket: true, ..none })
    } else if adapter_id == "openai-compatible.responses"@ || adapter_id
        == "anthropic-compatible.messages"@ || adapter_id == "grok.official.responses"@ {
        Some(CapabilitySet { tools: true, parallel_tools: true, reasoning: true, json_schema: true, streaming: true, responses_websocket: true, ..none })
    } else if adapter_id == "grok.build.responses"@ {
        Some(CapabilitySet { tools: true, reasoning: true, json_schema: true, streaming: true, responses_websocket: true, stored_responses: true, response_compaction: true, ..none })
    } else if adapter_id == "grok.console.responses"@ || adapter_id == "kiro.messages"@ {
        Some(CapabilitySet { tools: true, reasoning: true, json_schema: true, streaming: true, responses_websocket: true, ..none })
    } else if adapter_id == "grok.web.responses"@ {
        Some(CapabilitySet { streaming: true, responses_websocket: true, stored_responses: true, ..none })
    } else {
        None
    }
}

/// Returns the conservative semantic capabilities proved by this build for one adapter;
/// unknown adapters fail.
pub fn p12_adapter_capabilities(adapter_id: &str) -> (r: Result<CapabilitySet, RuntimeCompositionError>)
    ensures
        r == match adapter_capability_table(adapter_id@) {
            Some(c) => Ok::<CapabilitySet, RuntimeCompositionError>(c),
            None => Err(RuntimeCompositionError::Unavailable),
        },
{
    let none = CapabilitySet::empty();
    if str_eq(adapter_id, "openai-compatible.chat-completions") {
        Ok(CapabilitySet { tools: true, parallel_tools: true, json_schema: true, streaming: true, responses_websocket: true, ..none })
    } else if str_eq(adapter_id, "openai-compatible.responses") || str_eq(
        adapter_id,
        "anthropic-compatible.messages",
    ) || str_eq(adapter_id, "grok.official.responses") {
        Ok(CapabilitySet { tools: true, parallel_tools: true, reasoning: true, json_schema: true, streaming: true, responses_websocket: true, ..none })
    } else if str_eq(adapter_id, "grok.build.responses") {
        Ok(CapabilitySet { tools: true, reasoning: true, json_schema: true, streaming: true, responses_websocket: true, stored_responses: true, response_compaction: true, ..none })
    } else if str_eq(adapter_id, "grok.console.responses") || str_eq(adapter_id, "kiro.messages") {
        Ok(CapabilitySet { tools: true, reasoning: true, json_schema: true, streaming: true, responses_websocket: true, ..none })
    } else if str_eq(adapter_id, "grok.web.responses") {
        Ok(CapabilitySet { streaming: true, responses_websocket: true, stored_responses: true, ..none })
    } else {
        Err(RuntimeCompositionError::Unavailable)
    }
}

/// Every adapter the build binds implements a served format and proves at least one
/// capability, and none claims Vision.
pub proof fn lemma_bound_adapters_have_capabilities(adapter_id: Seq<char>)
    requires
        adapter_format(adapter_id) is Some,
    ensures
        adapter_capability_table(adapter_id) matches Some(c) && !c.vision && c.streaming,
{
}

/// The Grok account families served natively.
#[derive(Clone, Copy, Debug, PartialEq, Eq, Structural)]
pub enum GrokAccountProvider {
    Build,
    Web,
    Console,
}

/// The stored account kind of a native Grok family.
pub fn grok_account_kind(provider: GrokAccountProvider) -> (r: &'static str)
    ensures
        r@ == match provider {
            GrokAccountProvider::Build => "grok_build_oauth"@,
            GrokAccountProvider::Web => "grok_web_sso"@,
            GrokAccountProvider::Console => "grok_console_sso"@,
        },
{
    match provider {
        GrokAccountProvider::Build => "grok_build_oauth",
        GrokAccountProvider::Web => "grok_web_sso",
        GrokAccountProvider::Console => "grok_console_sso",
    }
}

/// The native Grok family an endpoint's adapter serves, if any.
pub fn native_grok_provider_for_adapter(adapter_id: &str) -> (r: Option<GrokAccountProvider>)
    ensures
        r == if adapter_id@ == "grok.build.responses"@ {
            Some(GrokAccountProvider::Build)
        } else if adapter_id@ == "grok.console.responses"@ {
            Some(GrokAccountProvider::Console)
        } else if adapter_id@ == "grok.web.responses"@ {
            Some(GrokAccountProvider::Web)
        } else {
            None
        },
{
    if str_eq(adapter_id, "grok.build.responses") {
        Some(GrokAccountProvider::Build)
    } else if str_eq(adapter_id, "grok.console.responses") {
        Some(GrokAccountProvider::Console)
    } else if str_eq(adapter_id, "grok.web.responses") {
        Some(GrokAccountProvider::Web)
    } else {
        None
    }
}

/// The native Grok family a stored endpoint serves, if any.
pub fn native_grok_provider_for_endpoint(endpoint: &EndpointConfig) -> (r: Option<GrokAccountProvider>)
    ensures
        r == if endpoint.adapter_id@ == "grok.build.responses"@ {
            Some(GrokAccountProvider::Build)
        } else if endpoint.adapter_id@ == "grok.console.responses"@ {
            Some(GrokAccountProvider::Console)
        } else if endpoint.adapter_id@ == "grok.web.responses"@ {
            Some(GrokAccountProvider::Web)
        } else {
            None
        },
{
    native_grok_provider_for_adapter(endpoint.adapter_id.as_str())
}

/// `s` without its trailing `/` characters.
pub open spec fn trim_trailing_slashes(s: Seq<char>) -> Seq<char>
    decreases s.len(),
{
    if s.len() > 0 && s.last() == '/' {
        trim_trailing_slashes(s.drop_last())
    } else {
        s
    }
}

/// The number of characters `s` keeps once trailing `/` are dropped.
fn trimmed_len(s: &Vec<char>) -> (n: usize)
    ensures
        n <= s@.len(),
        trim_trailing_slashes(s@) == s@.take(n as int),
{
    let mut n = s.len();
    assert(s@.take(n as int) =~= s@);
    while n > 0 && s[n - 1] == '/'
        invariant
            0 <= n <= s@.len(),
            trim_trailing_slashes(s@) == trim_trailing_slashes(s@.take(n as int)),
        decreases n,
    {
        assert(s@.take(n as int).drop_last() =~= s@.take(n - 1));
        n = n - 1;
    }
    assert(trim_trailing_slashes(s@.take(n as int)) == s@.take(n as int));
    n
}

/// The characters `s[a..b)` as a string.
pub(crate) fn string_of_range(s: &Vec<char>, a: usize, b: usize) -> (r: String)
    requires
        a <= b <= s@.len(),
    ensures
        r@ == s@.subrange(a as int, b as int),
{
    let mut r = String::new();
    let mut i = a;
    while i < b
        invariant
            a <= i <= b <= s@.len(),
            r@ == s@.subrange(a as int, i as int),
        decreases b - i,
    {
        crate::json::push_char(&mut r, s[i]);
        assert(s@.subrange(a as int, i + 1) =~= s@.subrange(a as int, i as int).push(s@[i as int]));
        i = i + 1;
    }
    r
}

/// The URL an endpoint row denotes: its base URL without trailing slashes, then its path.
pub fn composed_endpoint_url(base_url: &str, inference_path: &str) -> (r: String)
    ensures
        r@ == trim_trailing_slashes(base_url@) + inference_path@,
{
    let chars = crate::text::chars_of(base_url);
    let n = trimmed_len(&chars);
    let mut r = string_of_range(&chars, 0, n);
    r.append(inference_path);
    proof {
        assert(chars@.subrange(0, n as int) =~= chars@.take(n as int));
    }
    r
}


} // verus!

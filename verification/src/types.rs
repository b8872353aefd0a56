//! What passes between an agent and the model that answers for it.

use crate::copied::{copied_all, views, Copied};
use crate::json::{Json, JsonView};
use vstd::prelude::*;
use vstd::string::StringExecFns;

verus! {

/// How much a model can do, or how much a request asks for.
#[derive(Debug, Clone, Copy, PartialEq, Eq, Structural)]
pub enum ModelTier {
    Heavy,
    Light,
    Micro,
}

/// A tool that a model may call.
#[derive(Debug, PartialEq)]
pub struct ToolDef {
    pub name: String,
    pub description: String,
    /// JSON Schema for the tool's arguments object.
    pub parameters: Json,
}

/// A tool, by its contents.
pub struct ToolDefView {
    pub name: Seq<char>,
    pub description: Seq<char>,
    pub parameters: JsonView,
}

impl View for ToolDef {
    type V = ToolDefView;

    open spec fn view(&self) -> ToolDefView {
        ToolDefView {
            name: self.name@,
            description: self.description@,
            parameters: self.parameters@,
        }
    }
}

impl Copied for ToolDef {
    fn copied(&self) -> (r: Self) {
        ToolDef {
            name: self.name.clone(),
            description: self.description.clone(),
            parameters: self.parameters.copied(),
        }
    }
}

/// One call of a tool that the model asked for. The `id` is the model's own and comes back
/// in the matching `ToolResult`.
#[derive(Debug, PartialEq)]
pub struct ToolCall {
    pub id: String,
    pub name: String,
    pub arguments: Json,
}

/// A tool call, by its contents.
pub struct ToolCallView {
    pub id: Seq<char>,
    pub name: Seq<char>,
    pub arguments: JsonView,
}

impl View for ToolCall {
    type V = ToolCallView;

    open spec fn view(&self) -> ToolCallView {
        ToolCallView { id: self.id@, name: self.name@, arguments: self.arguments@ }
    }
}

impl Copied for ToolCall {
    fn copied(&self) -> (r: Self) {
        ToolCall {
            id: self.id.clone(),
            name: self.name.clone(),
            arguments: self.arguments.copied(),
        }
    }
}

/// The answer to one tool call, under the call's `id`.
#[derive(Debug, PartialEq)]
pub struct ToolResult {
    pub id: String,
    pub content: String,
}

/// A tool's answer, by its contents.
pub struct ToolResultView {
    pub id: Seq<char>,
    pub content: Seq<char>,
}

impl View for ToolResult {
    type V = ToolResultView;

    open spec fn view(&self) -> ToolResultView {
        ToolResultView { id: self.id@, content: self.content@ }
    }
}

impl Copied for ToolResult {
    fn copied(&self) -> (r: Self) {
        ToolResult { id: self.id.clone(), content: self.content.clone() }
    }
}

/// One earlier turn of a conversation with tools.
#[derive(Debug, PartialEq)]
pub enum Turn {
    /// What the model said, with the tools that it called.
    Assistant { text: String, tool_calls: Vec<ToolCall> },
    /// What the tools answered.
    ToolResults(Vec<ToolResult>),
}

/// A turn, by its contents.
pub enum TurnView {
    Assistant { text: Seq<char>, tool_calls: Seq<ToolCallView> },
    ToolResults(Seq<ToolResultView>),
}

impl View for Turn {
    type V = TurnView;

    open spec fn view(&self) -> TurnView {
        match self {
            Turn::Assistant { text, tool_calls } => TurnView::Assistant {
                text: text@,
                tool_calls: views(tool_calls@),
            },
            Turn::ToolResults(results) => TurnView::ToolResults(views(results@)),
        }
    }
}

impl Copied for Turn {
    fn copied(&self) -> (r: Self) {
        match self {
            Turn::Assistant { text, tool_calls } => Turn::Assistant {
                text: text.clone(),
                tool_calls: copied_all(tool_calls.as_slice()),
            },
            Turn::ToolResults(results) => Turn::ToolResults(copied_all(results.as_slice())),
        }
    }
}

/// What is asked of a model.
#[derive(Debug, PartialEq)]
pub struct InferenceRequest {
    pub system: String,
    pub user: String,
    pub max_tokens: u32,
    pub tier: ModelTier,
    /// How much depends on the answer: 0 for an atomic task, 3 for the root of a pipeline.
    pub hora_depth: u8,
    /// The candidate to try first, for work that runs side by side.
    pub slot_hint: Option<usize>,
    /// Tools offered for this call.
    pub tools: Vec<ToolDef>,
    /// Earlier turns of the conversation, oldest first.
    pub history: Vec<Turn>,
}

/// A request, by its contents.
pub struct RequestView {
    pub system: Seq<char>,
    pub user: Seq<char>,
    pub max_tokens: u32,
    pub tier: ModelTier,
    pub hora_depth: u8,
    pub slot_hint: Option<usize>,
    pub tools: Seq<ToolDefView>,
    pub history: Seq<TurnView>,
}

impl View for InferenceRequest {
    type V = RequestView;

    open spec fn view(&self) -> RequestView {
        RequestView {
            system: self.system@,
            user: self.user@,
            max_tokens: self.max_tokens,
            tier: self.tier,
            hora_depth: self.hora_depth,
            slot_hint: self.slot_hint,
            tools: views(self.tools@),
            history: views(self.history@),
        }
    }
}

impl InferenceRequest {
    /// A single question, without tools, history or a preferred slot.
    pub fn new(
        system: String,
        user: String,
        max_tokens: u32,
        tier: ModelTier,
        hora_depth: u8,
    ) -> (r: Self)
        ensures
            r@ == (RequestView {
                system: system@,
                user: user@,
                max_tokens,
                tier,
                hora_depth,
                slot_hint: None,
                tools: Seq::empty(),
                history: Seq::empty(),
            }),
    {
        let r = InferenceRequest {
            system,
            user,
            max_tokens,
            tier,
            hora_depth,
            slot_hint: None,
            tools: Vec::new(),
            history: Vec::new(),
        };
        assert(r@.tools =~= Seq::<ToolDefView>::empty());
        assert(r@.history =~= Seq::<TurnView>::empty());
        r
    }
}

/// What a model answered.
#[derive(Debug, PartialEq)]
pub struct InferenceResponse {
    pub text: String,
    /// The tools that the model called instead of, or beside, answering.
    pub tool_calls: Vec<ToolCall>,
    pub input_tokens: u32,
    pub output_tokens: u32,
    pub provider: String,
    pub model: String,
    pub latency_ms: u64,
}

/// A response, by its contents.
pub struct ResponseView {
    pub text: Seq<char>,
    pub tool_calls: Seq<ToolCallView>,
    pub input_tokens: u32,
    pub output_tokens: u32,
    pub provider: Seq<char>,
    pub model: Seq<char>,
    pub latency_ms: u64,
}

impl View for InferenceResponse {
    type V = ResponseView;

    open spec fn view(&self) -> ResponseView {
        ResponseView {
            text: self.text@,
            tool_calls: views(self.tool_calls@),
            input_tokens: self.input_tokens,
            output_tokens: self.output_tokens,
            provider: self.provider@,
            model: self.model@,
            latency_ms: self.latency_ms,
        }
    }
}

impl Copied for InferenceResponse {
    fn copied(&self) -> (r: Self) {
        InferenceResponse {
            text: self.text.clone(),
            tool_calls: copied_all(self.tool_calls.as_slice()),
            input_tokens: self.input_tokens,
            output_tokens: self.output_tokens,
            provider: self.provider.clone(),
            model: self.model.clone(),
            latency_ms: self.latency_ms,
        }
    }
}

/// A model that a provider serves. Prices are in hundredths of a dollar per million tokens.
#[derive(Debug, PartialEq)]
pub struct ModelInfo {
    pub provider: String,
    pub model: String,
    pub tier: ModelTier,
    pub input_cents_per_million: u32,
    pub output_cents_per_million: u32,
    /// The most input tokens that the model handles reliably.
    pub context_limit: u32,
}

/// A model, by its contents.
pub struct ModelInfoView {
    pub provider: Seq<char>,
    pub model: Seq<char>,
    pub tier: ModelTier,
    pub input_cents_per_million: u32,
    pub output_cents_per_million: u32,
    pub context_limit: u32,
}

impl View for ModelInfo {
    type V = ModelInfoView;

    open spec fn view(&self) -> ModelInfoView {
        ModelInfoView {
            provider: self.provider@,
            model: self.model@,
            tier: self.tier,
            input_cents_per_million: self.input_cents_per_million,
            output_cents_per_million: self.output_cents_per_million,
            context_limit: self.context_limit,
        }
    }
}

/// Why a provider gave no answer.
#[derive(Debug, PartialEq)]
pub enum ProviderError {
    RateLimit,
    Unavailable(String),
    BadResponse(String),
}

/// A provider's failure, by its contents.
pub enum ProviderErrorView {
    RateLimit,
    Unavailable(Seq<char>),
    BadResponse(Seq<char>),
}

impl View for ProviderError {
    type V = ProviderErrorView;

    open spec fn view(&self) -> ProviderErrorView {
        match self {
            ProviderError::RateLimit => ProviderErrorView::RateLimit,
            ProviderError::Unavailable(s) => ProviderErrorView::Unavailable(s@),
            ProviderError::BadResponse(s) => ProviderErrorView::BadResponse(s@),
        }
    }
}

/// How a provider's failure reads.
pub open spec fn provider_error_text(e: ProviderErrorView) -> Seq<char> {
    match e {
        ProviderErrorView::RateLimit => "rate limit"@,
        ProviderErrorView::Unavailable(s) => "unavailable: "@ + s,
        ProviderErrorView::BadResponse(s) => "bad response: "@ + s,
    }
}

impl ProviderError {
    /// How this failure reads.
    pub fn text(&self) -> (r: String)
        ensures
            r@ == provider_error_text(self@),
    {
        match self {
            ProviderError::RateLimit => "rate limit".to_owned(),
            ProviderError::Unavailable(s) => "unavailable: ".to_owned().concat(s.as_str()),
            ProviderError::BadResponse(s) => "bad response: ".to_owned().concat(s.as_str()),
        }
    }
}

impl Copied for ProviderError {
    fn copied(&self) -> (r: Self) {
        match self {
            ProviderError::RateLimit => ProviderError::RateLimit,
            ProviderError::Unavailable(s) => ProviderError::Unavailable(s.clone()),
            ProviderError::BadResponse(s) => ProviderError::BadResponse(s.clone()),
        }
    }
}

} // verus!

//! The providers of models: what is sent to each, and what its answers mean.

use crate::copied::{views, Copied};
use crate::estimation::low_bits;
use crate::glyphs::{lowercase, to_lowercase};
use crate::json::{
    as_text, as_whole, field, item, json_printed, json_read, json_text, lemma_list_is_ordered,
    lemma_object_is_ordered, list, number_of, object, ordered, pairs, parse_json, text, Json, JsonView,
};
use crate::models::{
    anthropic_info, anthropic_model, bundled_model_info, cli_info, cli_model, compatible_model,
    gemini_info, gemini_model, ollama_info, ollama_model,
};
use crate::names::{kin, kin_name};
use crate::numbers::{decimal, decimal_text};
use crate::order::lemma_before_at;
use crate::paths::{bare, bare_url, join_path, path_join};
use crate::text::{byte_len, bytes, contains, has, pieces, same, split, texts, trim, trimmed};
use crate::types::{
    InferenceRequest, InferenceResponse, ModelInfo, ModelInfoView, ProviderError,
    ProviderErrorView, RequestView, ResponseView, ToolCallView,
};
use vstd::prelude::*;
use vstd::string::StringExecFns;

verus! {

/// What is sent over the wire.
#[derive(Debug, PartialEq)]
pub struct HttpRequest {
    pub url: String,
    pub headers: Vec<(String, String)>,
    pub body: Json,
}

/// What is sent over the wire, by its contents.
pub struct HttpRequestView {
    pub url: Seq<char>,
    pub headers: Seq<(Seq<char>, Seq<char>)>,
    pub body: JsonView,
}

impl View for HttpRequest {
    type V = HttpRequestView;

    open spec fn view(&self) -> HttpRequestView {
        HttpRequestView {
            url: self.url@,
            headers: self.headers@.map_values(|h: (String, String)| (h.0@, h.1@)),
            body: self.body@,
        }
    }
}

/// What comes back over the wire.
#[derive(Debug)]
pub enum HttpReply {
    /// A success, with its body.
    Success(String),
    /// A failure that the other side reports, with its body.
    Status(u16, String),
    /// Nothing came back, for the reason given.
    Failed(String),
    /// It succeeded, but its body could not be read, for the reason given.
    Unread(String),
}

/// What comes back over the wire, by its contents.
pub enum HttpReplyView {
    Success(Seq<char>),
    Status(u16, Seq<char>),
    Failed(Seq<char>),
    Unread(Seq<char>),
}

impl View for HttpReply {
    type V = HttpReplyView;

    open spec fn view(&self) -> HttpReplyView {
        match self {
            HttpReply::Success(body) => HttpReplyView::Success(body@),
            HttpReply::Status(code, body) => HttpReplyView::Status(*code, body@),
            HttpReply::Failed(reason) => HttpReplyView::Failed(reason@),
            HttpReply::Unread(reason) => HttpReplyView::Unread(reason@),
        }
    }
}

/// A provider's answer, by its contents.
pub type AnswerView = Result<ResponseView, ProviderErrorView>;

/// The view of a provider's answer.
pub open spec fn answer_view(r: Result<InferenceResponse, ProviderError>) -> AnswerView {
    match r {
        Ok(response) => Ok(response@),
        Err(e) => Err(e@),
    }
}

/// A provider's answer to a request.
#[derive(Debug, PartialEq)]
pub struct Answer {
    pub result: Result<InferenceResponse, ProviderError>,
}

impl View for Answer {
    type V = AnswerView;

    open spec fn view(&self) -> AnswerView {
        answer_view(self.result)
    }
}

impl Copied for Answer {
    fn copied(&self) -> (r: Answer) {
        Answer {
            result: match &self.result {
                Ok(response) => Ok(response.copied()),
                Err(e) => Err(e.copied()),
            },
        }
    }
}

/// A failure that is reported with a status.
pub open spec fn status_failure(code: u16, body: Seq<char>) -> ProviderErrorView {
    ProviderErrorView::Unavailable("HTTP "@ + decimal(code as nat) + ": "@ + body)
}

fn status_error(code: u16, body: &str) -> (r: ProviderError)
    ensures
        r@ == status_failure(code, body@),
{
    ProviderError::Unavailable(
        "HTTP ".to_owned().concat(decimal_text(code as u64).as_str()).concat(": ").concat(body),
    )
}

/// A count of tokens: what is left of it in 32 bits, and nothing where there is none.
pub open spec fn token_count(j: JsonView) -> u32 {
    match as_whole(j) {
        Some(n) => low_bits(n, u32::MAX as nat) as u32,
        None => 0,
    }
}

fn tokens(j: &Json) -> (r: u32)
    ensures
        r == token_count(j@),
{
    match j.as_whole() {
        Some(n) => (n % 0x1_0000_0000) as u32,
        None => 0,
    }
}

/// Where the text and the counts of tokens stand in an answer.
pub open spec fn response_from(
    answer: JsonView,
    said: JsonView,
    input: JsonView,
    output: JsonView,
    provider: Seq<char>,
    model: Seq<char>,
    latency_ms: u64,
) -> AnswerView {
    match as_text(said) {
        Some(text) => Ok(
            ResponseView {
                text,
                tool_calls: Seq::empty(),
                input_tokens: token_count(input),
                output_tokens: token_count(output),
                provider,
                model,
                latency_ms,
            },
        ),
        None => Err(ProviderErrorView::BadResponse("unexpected: "@ + json_printed(answer))),
    }
}

fn respond(
    answer: &Json,
    said: &Json,
    input: &Json,
    output: &Json,
    provider: &str,
    model: &str,
    latency_ms: u64,
) -> (r: Result<InferenceResponse, ProviderError>)
    requires
        ordered(answer@),
    ensures
        answer_view(r) == response_from(
            answer@,
            said@,
            input@,
            output@,
            provider@,
            model@,
            latency_ms,
        ),
{
    match said.as_text() {
        Some(text) => {
            let r = InferenceResponse {
                text: text.clone(),
                tool_calls: Vec::new(),
                input_tokens: tokens(input),
                output_tokens: tokens(output),
                provider: provider.to_owned(),
                model: model.to_owned(),
                latency_ms,
            };
            assert(r@.tool_calls =~= Seq::<ToolCallView>::empty());
            Ok(r)
        },
        None => Err(
            ProviderError::BadResponse(
                "unexpected: ".to_owned().concat(json_text(answer).as_str()),
            ),
        ),
    }
}

/// What is said of a body that is no JSON, or could not be read.
pub open spec fn unreadable(e: Seq<char>) -> ProviderErrorView {
    ProviderErrorView::BadResponse("Failed to read JSON: "@ + e)
}

fn unread(e: &str) -> (r: ProviderError)
    ensures
        r@ == unreadable(e@),
{
    ProviderError::BadResponse("Failed to read JSON: ".to_owned().concat(e))
}

fn read_body(body: &str) -> (r: Result<Json, ProviderError>)
    ensures
        match r {
            Ok(j) => json_read(body@) == Ok::<JsonView, Seq<char>>(j@) && ordered(j@),
            Err(e) => json_read(body@) is Err && e@ == unreadable(json_read(body@)->Err_0),
        },
{
    match parse_json(body) {
        Ok(j) => Ok(j),
        Err(e) => Err(unread(e.as_str())),
    }
}

/// The model that is asked for: the first of a provider's, or its usual one.
pub open spec fn first_model(models: Seq<ModelInfoView>, usual: Seq<char>) -> Seq<char> {
    if models.len() > 0 {
        models[0].model
    } else {
        usual
    }
}

fn first_of(models: &[ModelInfo], usual: &str) -> (r: String)
    ensures
        r@ == first_model(views(models@), usual@),
{
    if models.len() > 0 {
        models[0].model.clone()
    } else {
        usual.to_owned()
    }
}

/// A message of a conversation.
pub open spec fn message(role: Seq<char>, content: Seq<char>) -> JsonView {
    JsonView::Object(seq![("content"@, JsonView::Text(content)), ("role"@, JsonView::Text(role))])
}

fn make_message(role: &str, content: &str) -> (r: Json)
    ensures
        r@ == message(role@, content@),
{
    let members = vec![("content", text(content)), ("role", text(role))];
    assert(pairs(members@) =~= message(role@, content@)->Object_0);
    object(members)
}

proof fn lemma_message_is_ordered(role: Seq<char>, content: Seq<char>)
    ensures
        ordered(message(role, content)),
{
    reveal_strlit("content");
    reveal_strlit("role");
    lemma_before_at("content"@, "role"@, 0);
    lemma_object_is_ordered(message(role, content)->Object_0);
}

/// The views of headers whose parts are borrowed.
pub open spec fn header_views(list: Seq<(&str, &str)>) -> Seq<(Seq<char>, Seq<char>)> {
    list.map_values(|h: (&str, &str)| (h.0@, h.1@))
}

fn headers(list: Vec<(&str, &str)>) -> (r: Vec<(String, String)>)
    ensures
        r@.map_values(|h: (String, String)| (h.0@, h.1@)) == header_views(list@),
{
    let mut out: Vec<(String, String)> = Vec::new();
    let mut i: usize = 0;
    while i < list.len()
        invariant
            i <= list@.len(),
            out@.len() == i,
            forall|j: int|
                0 <= j < i ==> (#[trigger] out@[j]).0@ == list@[j].0@ && out@[j].1@ == list@[j].1@,
        decreases list@.len() - i,
    {
        out.push((list[i].0.to_owned(), list[i].1.to_owned()));
        i += 1;
    }
    assert(out@.map_values(|h: (String, String)| (h.0@, h.1@)) =~= header_views(list@));
    out
}

/// Anthropic's own service.
#[derive(Debug)]
pub struct AnthropicProvider {
    /// The name of the family of its models.
    pub family: String,
    pub api_key: String,
    pub models: Vec<ModelInfo>,
}

/// What is sent to Anthropic.
pub open spec fn anthropic_request(
    family: Seq<char>,
    api_key: Seq<char>,
    models: Seq<ModelInfoView>,
    req: RequestView,
) -> HttpRequestView {
    HttpRequestView {
        url: "https://api.anthropic.com/v1/messages"@,
        headers: seq![
            ("x-api-key"@, api_key),
            ("anthropic-version"@, "2023-06-01"@),
            ("content-type"@, "application/json"@),
        ],
        body: JsonView::Object(
            seq![
                ("max_tokens"@, JsonView::Number(number_of(req.max_tokens as u64))),
                ("messages"@, JsonView::List(seq![message("user"@, req.user)])),
                ("model"@, JsonView::Text(first_model(models, kin(family, "-sonnet-4-6"@)))),
                ("system"@, JsonView::Text(req.system)),
            ],
        ),
    }
}

/// What Anthropic's answer means.
pub open spec fn anthropic_answer(
    family: Seq<char>,
    models: Seq<ModelInfoView>,
    reply: HttpReplyView,
    latency_ms: u64,
) -> AnswerView {
    match reply {
        HttpReplyView::Status(code, body) => if code == 429 {
            Err(ProviderErrorView::RateLimit)
        } else {
            Err(status_failure(code, body))
        },
        HttpReplyView::Failed(reason) => Err(ProviderErrorView::Unavailable(reason)),
        HttpReplyView::Unread(reason) => Err(unreadable(reason)),
        HttpReplyView::Success(body) => match json_read(body) {
            Err(e) => Err(unreadable(e)),
            Ok(j) => response_from(
                j,
                field(item(field(j, "content"@), 0), "text"@),
                field(field(j, "usage"@), "input_tokens"@),
                field(field(j, "usage"@), "output_tokens"@),
                "anthropic"@,
                first_model(models, kin(family, "-sonnet-4-6"@)),
                latency_ms,
            ),
        },
    }
}

impl AnthropicProvider {
    /// The service, with the models that are asked for.
    pub fn new(family: String, api_key: String, model_ids: Vec<String>) -> (r: AnthropicProvider)
        ensures
            r.family@ == family@,
            r.api_key@ == api_key@,
            views(r.models@) == texts(model_ids@).map_values(|m: Seq<char>| anthropic_model(family@, m)),
    {
        let mut models: Vec<ModelInfo> = Vec::new();
        let mut i: usize = 0;
        while i < model_ids.len()
            invariant
                i <= model_ids@.len(),
                models@.len() == i,
                forall|j: int|
                    0 <= j < i ==> (#[trigger] models@[j])@ == anthropic_model(
                        family@,
                        model_ids@[j]@,
                    ),
            decreases model_ids@.len() - i,
        {
            models.push(anthropic_info(family.as_str(), model_ids[i].as_str()));
            i += 1;
        }
        assert(views(models@) =~= texts(model_ids@).map_values(
            |m: Seq<char>| anthropic_model(family@, m),
        ));
        AnthropicProvider { family, api_key, models }
    }

    /// Whether it can be asked at all: it needs a key.
    pub fn is_available(&self) -> (r: bool)
        ensures
            r == (self.api_key@.len() > 0),
    {
        !self.api_key.as_str().is_empty()
    }

    /// What is sent for a request.
    pub fn request(&self, req: &InferenceRequest) -> (r: HttpRequest)
        ensures
            r@ == anthropic_request(self.family@, self.api_key@, views(self.models@), req@),
            ordered(r.body@),
    {
        let model = first_of(self.models.as_slice(), kin_name(self.family.as_str(), "-sonnet-4-6").as_str());
        let one = vec![make_message("user", req.user.as_str())];
        assert(views(one@) =~= seq![message("user"@, req.user@)]);
        let members = vec![
            ("max_tokens", Json::number(req.max_tokens as u64)),
            ("messages", list(one)),
            ("model", text(model.as_str())),
            ("system", text(req.system.as_str())),
        ];
        let ghost expected = anthropic_request(self.family@, self.api_key@, views(self.models@), req@);
        let ghost keys = expected.body->Object_0;
        assert(pairs(members@) =~= keys);
        proof {
            reveal_strlit("max_tokens");
            reveal_strlit("messages");
            reveal_strlit("model");
            reveal_strlit("system");
            lemma_before_at("max_tokens"@, "messages"@, 1);
            lemma_before_at("messages"@, "model"@, 1);
            lemma_before_at("model"@, "system"@, 0);
            lemma_message_is_ordered("user"@, req.user@);
            lemma_list_is_ordered(seq![message("user"@, req.user@)]);
            lemma_object_is_ordered(keys);
        }
        let pairs_of = vec![
            ("x-api-key", self.api_key.as_str()),
            ("anthropic-version", "2023-06-01"),
            ("content-type", "application/json"),
        ];
        assert(header_views(pairs_of@) =~= expected.headers);
        HttpRequest {
            url: "https://api.anthropic.com/v1/messages".to_owned(),
            headers: headers(pairs_of),
            body: object(members),
        }
    }

    /// What an answer means.
    pub fn interpret(&self, reply: &HttpReply, latency_ms: u64) -> (r: Result<
        InferenceResponse,
        ProviderError,
    >)
        ensures
            answer_view(r) == anthropic_answer(self.family@, views(self.models@), reply@, latency_ms),
    {
        match reply {
            HttpReply::Status(code, body) => if *code == 429 {
                Err(ProviderError::RateLimit)
            } else {
                Err(status_error(*code, body.as_str()))
            },
            HttpReply::Failed(reason) => Err(ProviderError::Unavailable(reason.clone())),
            HttpReply::Unread(reason) => Err(unread(reason.as_str())),
            HttpReply::Success(body) => {
                let j = match read_body(body.as_str()) {
                    Ok(j) => j,
                    Err(e) => {
                        return Err(e);
                    },
                };
                respond(
                    &j,
                    j.field("content").item(0).field("text"),
                    j.field("usage").field("input_tokens"),
                    j.field("usage").field("output_tokens"),
                    "anthropic",
                    first_of(self.models.as_slice(), kin_name(self.family.as_str(), "-sonnet-4-6").as_str()).as_str(),
                    latency_ms,
                )
            },
        }
    }
}

/// Any service that is asked in the way of OpenAI: OpenAI, Groq, LM Studio, llama.cpp, vLLM.
#[derive(Debug)]
pub struct OpenAiCompatProvider {
    pub name: String,
    pub base_url: String,
    pub api_key: String,
    pub models: Vec<ModelInfo>,
}

/// A system message and a user message.
pub open spec fn two_messages(req: RequestView) -> JsonView {
    JsonView::List(seq![message("system"@, req.system), message("user"@, req.user)])
}

fn make_two_messages(req: &InferenceRequest) -> (r: Json)
    ensures
        r@ == two_messages(req@),
        ordered(r@),
{
    let two = vec![
        make_message("system", req.system.as_str()),
        make_message("user", req.user.as_str()),
    ];
    proof {
        let items = seq![message("system"@, req.system@), message("user"@, req.user@)];
        assert(views(two@) =~= items);
        lemma_message_is_ordered("system"@, req.system@);
        lemma_message_is_ordered("user"@, req.user@);
        lemma_list_is_ordered(items);
    }
    list(two)
}

/// What is sent to a service in the way of OpenAI. A service without a key gets none.
pub open spec fn compatible_request(
    base_url: Seq<char>,
    api_key: Seq<char>,
    models: Seq<ModelInfoView>,
    req: RequestView,
) -> HttpRequestView {
    let content_type = ("content-type"@, "application/json"@);
    HttpRequestView {
        url: bare(base_url) + "/chat/completions"@,
        headers: if api_key.len() == 0 {
            seq![content_type]
        } else {
            seq![content_type, ("authorization"@, "Bearer "@ + api_key)]
        },
        body: JsonView::Object(
            seq![
                ("max_tokens"@, JsonView::Number(number_of(req.max_tokens as u64))),
                ("messages"@, two_messages(req)),
                ("model"@, JsonView::Text(first_model(models, "gpt-4o"@))),
            ],
        ),
    }
}

/// What the answer of a service in the way of OpenAI means. A request that is too large counts
/// as one too many.
pub open spec fn compatible_answer(
    name: Seq<char>,
    models: Seq<ModelInfoView>,
    reply: HttpReplyView,
    latency_ms: u64,
) -> AnswerView {
    match reply {
        HttpReplyView::Status(code, body) => if code == 429 || code == 413 {
            Err(ProviderErrorView::RateLimit)
        } else {
            Err(status_failure(code, body))
        },
        HttpReplyView::Failed(reason) => Err(ProviderErrorView::Unavailable(reason)),
        HttpReplyView::Unread(reason) => Err(unreadable(reason)),
        HttpReplyView::Success(body) => match json_read(body) {
            Err(e) => Err(unreadable(e)),
            Ok(j) => response_from(
                j,
                field(field(item(field(j, "choices"@), 0), "message"@), "content"@),
                field(field(j, "usage"@), "prompt_tokens"@),
                field(field(j, "usage"@), "completion_tokens"@),
                name,
                first_model(models, "gpt-4o"@),
                latency_ms,
            ),
        },
    }
}

impl OpenAiCompatProvider {
    /// The service, with the models that are asked for.
    pub fn new(name: String, base_url: String, api_key: String, model_ids: Vec<String>) -> (r:
        OpenAiCompatProvider)
        ensures
            r.name@ == name@,
            r.base_url@ == base_url@,
            r.api_key@ == api_key@,
            views(r.models@) == texts(model_ids@).map_values(
                |m: Seq<char>| compatible_model(name@, m),
            ),
    {
        let mut models: Vec<ModelInfo> = Vec::new();
        let mut i: usize = 0;
        while i < model_ids.len()
            invariant
                i <= model_ids@.len(),
                models@.len() == i,
                forall|j: int|
                    0 <= j < i ==> (#[trigger] models@[j])@ == compatible_model(
                        name@,
                        model_ids@[j]@,
                    ),
            decreases model_ids@.len() - i,
        {
            models.push(bundled_model_info(name.as_str(), model_ids[i].as_str()));
            i += 1;
        }
        assert(views(models@) =~= texts(model_ids@).map_values(
            |m: Seq<char>| compatible_model(name@, m),
        ));
        OpenAiCompatProvider { name, base_url, api_key, models }
    }

    /// Whether it can be asked at all: its place must be known.
    pub fn is_available(&self) -> (r: bool)
        ensures
            r == (self.base_url@.len() > 0),
    {
        !self.base_url.as_str().is_empty()
    }

    /// What is sent for a request.
    pub fn request(&self, req: &InferenceRequest) -> (r: HttpRequest)
        ensures
            r@ == compatible_request(self.base_url@, self.api_key@, views(self.models@), req@),
            ordered(r.body@),
    {
        let model = first_of(self.models.as_slice(), "gpt-4o");
        let members = vec![
            ("max_tokens", Json::number(req.max_tokens as u64)),
            ("messages", make_two_messages(req)),
            ("model", text(model.as_str())),
        ];
        let ghost expected = compatible_request(
            self.base_url@,
            self.api_key@,
            views(self.models@),
            req@,
        );
        let ghost keys = expected.body->Object_0;
        assert(pairs(members@) =~= keys);
        proof {
            reveal_strlit("max_tokens");
            reveal_strlit("messages");
            reveal_strlit("model");
            lemma_before_at("max_tokens"@, "messages"@, 1);
            lemma_before_at("messages"@, "model"@, 1);
            lemma_object_is_ordered(keys);
        }
        let bearer = "Bearer ".to_owned().concat(self.api_key.as_str());
        let sent = if self.api_key.as_str().is_empty() {
            vec![("content-type", "application/json")]
        } else {
            vec![("content-type", "application/json"), ("authorization", bearer.as_str())]
        };
        assert(header_views(sent@) =~= expected.headers);
        HttpRequest {
            url: bare_url(self.base_url.as_str()).concat("/chat/completions"),
            headers: headers(sent),
            body: object(members),
        }
    }

    /// What an answer means.
    pub fn interpret(&self, reply: &HttpReply, latency_ms: u64) -> (r: Result<
        InferenceResponse,
        ProviderError,
    >)
        ensures
            answer_view(r) == compatible_answer(self.name@, views(self.models@), reply@, latency_ms),
    {
        match reply {
            HttpReply::Status(code, body) => if *code == 429 || *code == 413 {
                Err(ProviderError::RateLimit)
            } else {
                Err(status_error(*code, body.as_str()))
            },
            HttpReply::Failed(reason) => Err(ProviderError::Unavailable(reason.clone())),
            HttpReply::Unread(reason) => Err(unread(reason.as_str())),
            HttpReply::Success(body) => {
                let j = match read_body(body.as_str()) {
                    Ok(j) => j,
                    Err(e) => {
                        return Err(e);
                    },
                };
                respond(
                    &j,
                    j.field("choices").item(0).field("message").field("content"),
                    j.field("usage").field("prompt_tokens"),
                    j.field("usage").field("completion_tokens"),
                    self.name.as_str(),
                    first_of(self.models.as_slice(), "gpt-4o").as_str(),
                    latency_ms,
                )
            },
        }
    }
}

/// An Ollama server.
#[derive(Debug)]
pub struct OllamaProvider {
    pub base_url: String,
    pub models: Vec<ModelInfo>,
}

/// What is sent to Ollama.
pub open spec fn ollama_request(
    base_url: Seq<char>,
    models: Seq<ModelInfoView>,
    req: RequestView,
) -> HttpRequestView {
    HttpRequestView {
        url: base_url + "/api/chat"@,
        headers: seq![("content-type"@, "application/json"@)],
        body: JsonView::Object(
            seq![
                ("messages"@, two_messages(req)),
                ("model"@, JsonView::Text(first_model(models, "mistral"@))),
                ("stream"@, JsonView::Flag(false)),
            ],
        ),
    }
}

/// What Ollama's answer means.
pub open spec fn ollama_answer(
    models: Seq<ModelInfoView>,
    reply: HttpReplyView,
    latency_ms: u64,
) -> AnswerView {
    match reply {
        HttpReplyView::Status(code, body) => Err(status_failure(code, body)),
        HttpReplyView::Failed(reason) => Err(ProviderErrorView::Unavailable(reason)),
        HttpReplyView::Unread(reason) => Err(unreadable(reason)),
        HttpReplyView::Success(body) => match json_read(body) {
            Err(e) => Err(unreadable(e)),
            Ok(j) => response_from(
                j,
                field(field(j, "message"@), "content"@),
                field(j, "prompt_eval_count"@),
                field(j, "eval_count"@),
                "ollama"@,
                first_model(models, "mistral"@),
                latency_ms,
            ),
        },
    }
}

/// A model whose context has been tried, if it is the one named.
pub open spec fn with_context(m: ModelInfoView, model: Seq<char>, ok: bool) -> ModelInfoView {
    if m.model == model {
        ModelInfoView {
            context_limit: if ok {
                128_000
            } else {
                3_500
            },
            ..m
        }
    } else {
        m
    }
}

impl OllamaProvider {
    /// The server, with the models that are asked for.
    pub fn new(base_url: String, model_ids: Vec<String>) -> (r: OllamaProvider)
        ensures
            r.base_url@ == base_url@,
            views(r.models@) == texts(model_ids@).map_values(|m: Seq<char>| ollama_model(m)),
    {
        let mut models: Vec<ModelInfo> = Vec::new();
        let mut i: usize = 0;
        while i < model_ids.len()
            invariant
                i <= model_ids@.len(),
                models@.len() == i,
                forall|j: int|
                    0 <= j < i ==> (#[trigger] models@[j])@ == ollama_model(model_ids@[j]@),
            decreases model_ids@.len() - i,
        {
            models.push(ollama_info(model_ids[i].as_str()));
            i += 1;
        }
        assert(views(models@) =~= texts(model_ids@).map_values(|m: Seq<char>| ollama_model(m)));
        OllamaProvider { base_url, models }
    }

    /// Notes down whether a model takes a long context.
    pub fn set_context_ok(&mut self, model: &str, ok: bool)
        ensures
            final(self).base_url@ == old(self).base_url@,
            views(final(self).models@) == views(old(self).models@).map_values(
                |m: ModelInfoView| with_context(m, model@, ok),
            ),
    {
        let mut done: Vec<ModelInfo> = Vec::new();
        let mut i: usize = 0;
        while i < self.models.len()
            invariant
                i <= self.models@.len(),
                *self == *old(self),
                done@.len() == i,
                forall|j: int|
                    0 <= j < i ==> (#[trigger] done@[j])@ == with_context(
                        old(self).models@[j]@,
                        model@,
                        ok,
                    ),
            decreases self.models@.len() - i,
        {
            let m = &self.models[i];
            let limit: u32 = if same(m.model.as_str(), model) {
                if ok {
                    128_000
                } else {
                    3_500
                }
            } else {
                m.context_limit
            };
            done.push(
                ModelInfo {
                    provider: m.provider.clone(),
                    model: m.model.clone(),
                    tier: m.tier,
                    input_cents_per_million: m.input_cents_per_million,
                    output_cents_per_million: m.output_cents_per_million,
                    context_limit: limit,
                },
            );
            i += 1;
        }
        assert(views(done@) =~= views(old(self).models@).map_values(
            |m: ModelInfoView| with_context(m, model@, ok),
        ));
        self.models = done;
    }

    /// Where to ask whether the server is up.
    pub fn health_url(&self) -> (r: String)
        ensures
            r@ == self.base_url@ + "/api/tags"@,
    {
        self.base_url.clone().concat("/api/tags")
    }

    /// What is sent for a request.
    pub fn request(&self, req: &InferenceRequest) -> (r: HttpRequest)
        ensures
            r@ == ollama_request(self.base_url@, views(self.models@), req@),
            ordered(r.body@),
    {
        let model = first_of(self.models.as_slice(), "mistral");
        let members = vec![
            ("messages", make_two_messages(req)),
            ("model", text(model.as_str())),
            ("stream", Json::Flag(false)),
        ];
        let ghost expected = ollama_request(self.base_url@, views(self.models@), req@);
        let ghost keys = expected.body->Object_0;
        assert(pairs(members@) =~= keys);
        proof {
            reveal_strlit("messages");
            reveal_strlit("model");
            reveal_strlit("stream");
            lemma_before_at("messages"@, "model"@, 1);
            lemma_before_at("model"@, "stream"@, 0);
            lemma_object_is_ordered(keys);
        }
        let sent = vec![("content-type", "application/json")];
        assert(header_views(sent@) =~= expected.headers);
        HttpRequest {
            url: self.base_url.clone().concat("/api/chat"),
            headers: headers(sent),
            body: object(members),
        }
    }

    /// What an answer means.
    pub fn interpret(&self, reply: &HttpReply, latency_ms: u64) -> (r: Result<
        InferenceResponse,
        ProviderError,
    >)
        ensures
            answer_view(r) == ollama_answer(views(self.models@), reply@, latency_ms),
    {
        match reply {
            HttpReply::Status(code, body) => Err(status_error(*code, body.as_str())),
            HttpReply::Failed(reason) => Err(ProviderError::Unavailable(reason.clone())),
            HttpReply::Unread(reason) => Err(unread(reason.as_str())),
            HttpReply::Success(body) => {
                let j = match read_body(body.as_str()) {
                    Ok(j) => j,
                    Err(e) => {
                        return Err(e);
                    },
                };
                respond(
                    &j,
                    j.field("message").field("content"),
                    j.field("prompt_eval_count"),
                    j.field("eval_count"),
                    "ollama",
                    first_of(self.models.as_slice(), "mistral").as_str(),
                    latency_ms,
                )
            },
        }
    }
}

/// Google's own service.
#[derive(Debug)]
pub struct GeminiProvider {
    pub api_key: String,
    pub models: Vec<ModelInfo>,
}

/// A text as Gemini takes it.
pub open spec fn gemini_parts(said: Seq<char>) -> JsonView {
    JsonView::List(seq![JsonView::Object(seq![("text"@, JsonView::Text(said))])])
}

/// What is sent to Gemini. Where there is nothing to tell it beforehand, nothing is told.
pub open spec fn gemini_request(
    api_key: Seq<char>,
    models: Seq<ModelInfoView>,
    req: RequestView,
) -> HttpRequestView {
    let contents = (
        "contents"@,
        JsonView::List(
            seq![
                JsonView::Object(
                    seq![("parts"@, gemini_parts(req.user)), ("role"@, JsonView::Text("user"@))],
                ),
            ],
        ),
    );
    let config = (
        "generationConfig"@,
        JsonView::Object(
            seq![("maxOutputTokens"@, JsonView::Number(number_of(req.max_tokens as u64)))],
        ),
    );
    let system = (
        "system_instruction"@,
        JsonView::Object(seq![("parts"@, gemini_parts(req.system))]),
    );
    HttpRequestView {
        url: "https://generativelanguage.googleapis.com/v1beta/models/"@ + first_model(
            models,
            "gemini-2.0-flash"@,
        ) + ":generateContent"@,
        headers: seq![("X-goog-api-key"@, api_key), ("Content-Type"@, "application/json"@)],
        body: JsonView::Object(
            if req.system.len() == 0 {
                seq![contents, config]
            } else {
                seq![contents, config, system]
            },
        ),
    }
}

/// What Gemini's answer means. A quota that is used up may be reported in the body of any
/// answer.
pub open spec fn gemini_answer(
    models: Seq<ModelInfoView>,
    reply: HttpReplyView,
    latency_ms: u64,
) -> AnswerView {
    match reply {
        HttpReplyView::Status(code, body) => if code == 429 || has(body, "RESOURCE_EXHAUSTED"@) {
            Err(ProviderErrorView::RateLimit)
        } else {
            Err(status_failure(code, body))
        },
        HttpReplyView::Failed(reason) => Err(ProviderErrorView::Unavailable(reason)),
        HttpReplyView::Unread(reason) => Err(unreadable(reason)),
        HttpReplyView::Success(body) => match json_read(body) {
            Err(e) => Err(unreadable(e)),
            Ok(j) => match as_text(field(field(j, "error"@), "status"@)) {
                Some(status) => if status == "RESOURCE_EXHAUSTED"@ {
                    Err(ProviderErrorView::RateLimit)
                } else {
                    Err(
                        ProviderErrorView::Unavailable(
                            match as_text(field(field(j, "error"@), "message"@)) {
                                Some(message) => message,
                                None => status,
                            },
                        ),
                    )
                },
                None => response_from(
                    j,
                    field(
                        item(
                            field(field(item(field(j, "candidates"@), 0), "content"@), "parts"@),
                            0,
                        ),
                        "text"@,
                    ),
                    field(field(j, "usageMetadata"@), "promptTokenCount"@),
                    field(field(j, "usageMetadata"@), "candidatesTokenCount"@),
                    "gemini"@,
                    first_model(models, "gemini-2.0-flash"@),
                    latency_ms,
                ),
            },
        },
    }
}

fn make_parts(said: &str) -> (r: Json)
    ensures
        r@ == gemini_parts(said@),
        ordered(r@),
{
    let members = vec![("text", text(said))];
    let ghost one = ("text"@, JsonView::Text(said@));
    assert(pairs(members@) =~= seq![one]);
    let items = vec![object(members)];
    proof {
        lemma_object_is_ordered(seq![one]);
        assert(views(items@) =~= seq![JsonView::Object(seq![one])]);
        lemma_list_is_ordered(seq![JsonView::Object(seq![one])]);
    }
    list(items)
}

impl GeminiProvider {
    /// The service, with the models that are asked for.
    pub fn new(api_key: String, model_ids: Vec<String>) -> (r: GeminiProvider)
        ensures
            r.api_key@ == api_key@,
            views(r.models@) == texts(model_ids@).map_values(|m: Seq<char>| gemini_model(m)),
    {
        let mut models: Vec<ModelInfo> = Vec::new();
        let mut i: usize = 0;
        while i < model_ids.len()
            invariant
                i <= model_ids@.len(),
                models@.len() == i,
                forall|j: int|
                    0 <= j < i ==> (#[trigger] models@[j])@ == gemini_model(model_ids@[j]@),
            decreases model_ids@.len() - i,
        {
            models.push(gemini_info(model_ids[i].as_str()));
            i += 1;
        }
        assert(views(models@) =~= texts(model_ids@).map_values(|m: Seq<char>| gemini_model(m)));
        GeminiProvider { api_key, models }
    }

    /// Whether it can be asked at all: it needs a key.
    pub fn is_available(&self) -> (r: bool)
        ensures
            r == (self.api_key@.len() > 0),
    {
        !self.api_key.as_str().is_empty()
    }

    /// What is sent for a request.
    pub fn request(&self, req: &InferenceRequest) -> (r: HttpRequest)
        ensures
            r@ == gemini_request(self.api_key@, views(self.models@), req@),
            ordered(r.body@),
    {
        let ghost expected = gemini_request(self.api_key@, views(self.models@), req@);
        let ghost keys = expected.body->Object_0;
        let model = first_of(self.models.as_slice(), "gemini-2.0-flash");
        let turn = vec![("parts", make_parts(req.user.as_str())), ("role", text("user"))];
        let ghost said = seq![
            ("parts"@, gemini_parts(req.user@)),
            ("role"@, JsonView::Text("user"@)),
        ];
        assert(pairs(turn@) =~= said);
        let turns = vec![object(turn)];
        assert(views(turns@) =~= seq![JsonView::Object(said)]);
        let limit = vec![("maxOutputTokens", Json::number(req.max_tokens as u64))];
        assert(pairs(limit@) =~= keys[1].1->Object_0);
        proof {
            reveal_strlit("parts");
            reveal_strlit("role");
            reveal_strlit("contents");
            reveal_strlit("generationConfig");
            reveal_strlit("system_instruction");
            lemma_before_at("parts"@, "role"@, 0);
            lemma_object_is_ordered(said);
            lemma_list_is_ordered(seq![JsonView::Object(said)]);
            lemma_object_is_ordered(keys[1].1->Object_0);
            lemma_before_at("contents"@, "generationConfig"@, 0);
            lemma_before_at("generationConfig"@, "system_instruction"@, 0);
        }
        let mut members = vec![("contents", list(turns)), ("generationConfig", object(limit))];
        if req.system.as_str().is_empty() {
            proof {
                lemma_object_is_ordered(keys);
            }
        } else {
            let beforehand = vec![("parts", make_parts(req.system.as_str()))];
            assert(pairs(beforehand@) =~= keys[2].1->Object_0);
            members.push(("system_instruction", object(beforehand)));
            proof {
                lemma_object_is_ordered(keys[2].1->Object_0);
                lemma_object_is_ordered(keys);
            }
        }
        assert(pairs(members@) =~= keys);
        let sent = vec![
            ("X-goog-api-key", self.api_key.as_str()),
            ("Content-Type", "application/json"),
        ];
        assert(header_views(sent@) =~= expected.headers);
        HttpRequest {
            url: "https://generativelanguage.googleapis.com/v1beta/models/".to_owned().concat(
                model.as_str(),
            ).concat(":generateContent"),
            headers: headers(sent),
            body: object(members),
        }
    }

    /// What an answer means.
    pub fn interpret(&self, reply: &HttpReply, latency_ms: u64) -> (r: Result<
        InferenceResponse,
        ProviderError,
    >)
        ensures
            answer_view(r) == gemini_answer(views(self.models@), reply@, latency_ms),
    {
        match reply {
            HttpReply::Status(code, body) => if *code == 429 || contains(
                body.as_str(),
                "RESOURCE_EXHAUSTED",
            ) {
                Err(ProviderError::RateLimit)
            } else {
                Err(status_error(*code, body.as_str()))
            },
            HttpReply::Failed(reason) => Err(ProviderError::Unavailable(reason.clone())),
            HttpReply::Unread(reason) => Err(unread(reason.as_str())),
            HttpReply::Success(body) => {
                let j = match read_body(body.as_str()) {
                    Ok(j) => j,
                    Err(e) => {
                        return Err(e);
                    },
                };
                if let Some(status) = j.field("error").field("status").as_text() {
                    if same(status.as_str(), "RESOURCE_EXHAUSTED") {
                        return Err(ProviderError::RateLimit);
                    }
                    let reason = match j.field("error").field("message").as_text() {
                        Some(message) => message.clone(),
                        None => status.clone(),
                    };
                    return Err(ProviderError::Unavailable(reason));
                }
                respond(
                    &j,
                    j.field("candidates").item(0).field("content").field("parts").item(0).field(
                        "text",
                    ),
                    j.field("usageMetadata").field("promptTokenCount"),
                    j.field("usageMetadata").field("candidatesTokenCount"),
                    "gemini",
                    first_of(self.models.as_slice(), "gemini-2.0-flash").as_str(),
                    latency_ms,
                )
            },
        }
    }
}

/// Anthropic's command-line program, asked without a terminal. It uses a subscription rather than a key.
#[derive(Debug)]
pub struct ClaudeCliProvider {
    /// The name of the program, which is that of the family of its models.
    pub family: String,
    pub model: String,
    pub models: Vec<ModelInfo>,
}

/// How a run of the command-line program went.
#[derive(Debug)]
pub enum CliRun {
    /// There is no such program.
    Missing,
    /// It could not be started, for the reason given.
    NotStarted(String),
    /// It was lost, for the reason given.
    Lost(String),
    /// It ended, with what it wrote.
    Ended { success: bool, status: String, stdout: String, stderr: String },
}

/// A fourth of a number of bytes, in 32 bits.
pub open spec fn estimated_tokens(n: nat) -> u32 {
    ((n / 4) % 0x1_0000_0000) as u32
}

fn estimate_tokens(a: usize, b: usize) -> (r: u32)
    ensures
        r == estimated_tokens(a as nat + b as nat),
{
    ((a as u128 + b as u128) / 4 % 0x1_0000_0000) as u32
}

/// What a run of the command-line program means. It does not count tokens, so they are
/// estimated; what it says of rates is taken for a limit.
pub open spec fn cli_answer(
    family: Seq<char>,
    model: Seq<char>,
    req: RequestView,
    run: CliRun,
    latency_ms: u64,
) -> AnswerView {
    match run {
        CliRun::Missing => Err(ProviderErrorView::Unavailable(kin(family, " not found on PATH"@))),
        CliRun::NotStarted(e) => Err(ProviderErrorView::Unavailable("spawn "@ + kin(family, ": "@) + e@)),
        CliRun::Lost(e) => Err(ProviderErrorView::Unavailable("wait "@ + kin(family, ": "@) + e@)),
        CliRun::Ended { success, status, stdout, stderr } => if !success {
            if has(lowercase(stderr@), "rate"@) {
                Err(ProviderErrorView::RateLimit)
            } else {
                Err(
                    ProviderErrorView::Unavailable(
                        kin(family, " exited "@) + status@ + ": "@ + stderr@,
                    ),
                )
            }
        } else if trimmed(stdout@).len() == 0 {
            Err(ProviderErrorView::BadResponse(kin(family, " returned empty output"@)))
        } else {
            Ok(
                ResponseView {
                    text: trimmed(stdout@),
                    tool_calls: Seq::empty(),
                    input_tokens: estimated_tokens(byte_len(req.system) + byte_len(req.user)),
                    output_tokens: estimated_tokens(byte_len(trimmed(stdout@))),
                    provider: kin(family, "-cli"@),
                    model,
                    latency_ms,
                },
            )
        },
    }
}

impl ClaudeCliProvider {
    /// The program, with the model that it is to use.
    pub fn new(family: String, model: String) -> (r: ClaudeCliProvider)
        ensures
            r.family@ == family@,
            r.model@ == model@,
            views(r.models@) == seq![cli_model(family@, model@)],
    {
        let models = vec![cli_info(family.as_str(), model.as_str())];
        assert(views(models@) =~= seq![cli_model(family@, model@)]);
        ClaudeCliProvider { family, model, models }
    }

    /// Where the program may be, by the search path, in the order in which it is looked for.
    pub fn candidates(&self, path: &str) -> (r: Vec<String>)
        ensures
            texts(r@) == pieces(path@, ':').map_values(|dir: Seq<char>| path_join(dir, self.family@)),
    {
        let dirs = split(path, ':');
        let ghost all = pieces(path@, ':');
        let mut out: Vec<String> = Vec::new();
        let mut i: usize = 0;
        while i < dirs.len()
            invariant
                i <= dirs@.len(),
                texts(dirs@) == all,
                out@.len() == i,
                forall|j: int|
                    0 <= j < i ==> (#[trigger] out@[j])@ == path_join(all[j], self.family@),
            decreases dirs@.len() - i,
        {
            assert(all[i as int] == dirs@[i as int]@);
            out.push(join_path(dirs[i].as_str(), self.family.as_str()));
            i += 1;
        }
        assert(texts(out@) =~= all.map_values(|dir: Seq<char>| path_join(dir, self.family@)));
        out
    }

    /// The arguments of the program for a request. It has no place for what is told beforehand,
    /// so that goes before the question.
    pub fn arguments(&self, req: &InferenceRequest) -> (r: Vec<String>)
        ensures
            texts(r@) == seq!["--model"@, self.model@, "-p"@, req.system@ + "\n\n"@ + req.user@],
    {
        let args = vec![
            "--model".to_owned(),
            self.model.clone(),
            "-p".to_owned(),
            req.system.clone().concat("\n\n").concat(req.user.as_str()),
        ];
        assert(texts(args@) =~= seq![
            "--model"@,
            self.model@,
            "-p"@,
            req.system@ + "\n\n"@ + req.user@,
        ]);
        args
    }

    /// What a run of the program means.
    pub fn interpret(&self, req: &InferenceRequest, run: &CliRun, latency_ms: u64) -> (r: Result<
        InferenceResponse,
        ProviderError,
    >)
        ensures
            answer_view(r) == cli_answer(self.family@, self.model@, req@, *run, latency_ms),
    {
        match run {
            CliRun::Missing => Err(
                ProviderError::Unavailable(kin_name(self.family.as_str(), " not found on PATH")),
            ),
            CliRun::NotStarted(e) => Err(
                ProviderError::Unavailable("spawn ".to_owned().concat(kin_name(self.family.as_str(), ": ").as_str()).concat(e.as_str())),
            ),
            CliRun::Lost(e) => Err(
                ProviderError::Unavailable("wait ".to_owned().concat(kin_name(self.family.as_str(), ": ").as_str()).concat(e.as_str())),
            ),
            CliRun::Ended { success, status, stdout, stderr } => {
                if !*success {
                    if contains(to_lowercase(stderr.as_str()).as_str(), "rate") {
                        return Err(ProviderError::RateLimit);
                    }
                    return Err(
                        ProviderError::Unavailable(
                            kin_name(self.family.as_str(), " exited ").concat(status.as_str()).concat(
                                ": ",
                            ).concat(stderr.as_str()),
                        ),
                    );
                }
                let said = trim(stdout.as_str());
                if said.as_str().is_empty() {
                    return Err(
                        ProviderError::BadResponse(kin_name(self.family.as_str(), " returned empty output")),
                    );
                }
                let input: u32 = estimate_tokens(
                    bytes(req.system.as_str()),
                    bytes(req.user.as_str()),
                );
                let output: u32 = estimate_tokens(bytes(said.as_str()), 0);
                let r = InferenceResponse {
                    text: said,
                    tool_calls: Vec::new(),
                    input_tokens: input,
                    output_tokens: output,
                    provider: kin_name(self.family.as_str(), "-cli"),
                    model: self.model.clone(),
                    latency_ms,
                };
                assert(r@.tool_calls =~= Seq::<ToolCallView>::empty());
                Ok(r)
            },
        }
    }
}

/// A provider of models.
#[derive(Debug)]
pub enum Backend {
    Anthropic(AnthropicProvider),
    OpenAiCompat(OpenAiCompatProvider),
    Ollama(OllamaProvider),
    ClaudeCli(ClaudeCliProvider),
    Gemini(GeminiProvider),
}

/// A provider of models, by its contents.
pub enum BackendView {
    Anthropic { family: Seq<char>, api_key: Seq<char>, models: Seq<ModelInfoView> },
    OpenAiCompat {
        name: Seq<char>,
        base_url: Seq<char>,
        api_key: Seq<char>,
        models: Seq<ModelInfoView>,
    },
    Ollama { base_url: Seq<char>, models: Seq<ModelInfoView> },
    ClaudeCli { family: Seq<char>, model: Seq<char>, models: Seq<ModelInfoView> },
    Gemini { api_key: Seq<char>, models: Seq<ModelInfoView> },
}

impl View for Backend {
    type V = BackendView;

    open spec fn view(&self) -> BackendView {
        match self {
            Backend::Anthropic(p) => BackendView::Anthropic {
                family: p.family@,
                api_key: p.api_key@,
                models: views(p.models@),
            },
            Backend::OpenAiCompat(p) => BackendView::OpenAiCompat {
                name: p.name@,
                base_url: p.base_url@,
                api_key: p.api_key@,
                models: views(p.models@),
            },
            Backend::Ollama(p) => BackendView::Ollama {
                base_url: p.base_url@,
                models: views(p.models@),
            },
            Backend::ClaudeCli(p) => BackendView::ClaudeCli {
                family: p.family@,
                model: p.model@,
                models: views(p.models@),
            },
            Backend::Gemini(p) => BackendView::Gemini {
                api_key: p.api_key@,
                models: views(p.models@),
            },
        }
    }
}

/// Anthropic with these models.
pub open spec fn anthropic_with(
    family: Seq<char>,
    api_key: Seq<char>,
    models: Seq<Seq<char>>,
) -> BackendView {
    BackendView::Anthropic {
        family,
        api_key,
        models: models.map_values(|m: Seq<char>| anthropic_model(family, m)),
    }
}

/// A service in the way of OpenAI with these models.
pub open spec fn compatible_with(
    name: Seq<char>,
    base_url: Seq<char>,
    api_key: Seq<char>,
    models: Seq<Seq<char>>,
) -> BackendView {
    BackendView::OpenAiCompat {
        name,
        base_url,
        api_key,
        models: models.map_values(|m: Seq<char>| compatible_model(name, m)),
    }
}

/// Ollama with these models.
pub open spec fn ollama_with(base_url: Seq<char>, models: Seq<Seq<char>>) -> BackendView {
    BackendView::Ollama { base_url, models: models.map_values(|m: Seq<char>| ollama_model(m)) }
}

/// The command-line program with this model.
pub open spec fn cli_with(family: Seq<char>, model: Seq<char>) -> BackendView {
    BackendView::ClaudeCli { family, model, models: seq![cli_model(family, model)] }
}

/// Gemini with these models.
pub open spec fn gemini_with(api_key: Seq<char>, models: Seq<Seq<char>>) -> BackendView {
    BackendView::Gemini { api_key, models: models.map_values(|m: Seq<char>| gemini_model(m)) }
}

impl Backend {
    /// The name that a provider goes by.
    pub open spec fn named(self) -> Seq<char> {
        match self {
            Backend::Anthropic(_) => "anthropic"@,
            Backend::OpenAiCompat(p) => p.name@,
            Backend::Ollama(_) => "ollama"@,
            Backend::ClaudeCli(p) => kin(p.family@, "-cli"@),
            Backend::Gemini(_) => "gemini"@,
        }
    }

    /// The models that a provider serves.
    pub open spec fn served(self) -> Seq<ModelInfo> {
        match self {
            Backend::Anthropic(p) => p.models@,
            Backend::OpenAiCompat(p) => p.models@,
            Backend::Ollama(p) => p.models@,
            Backend::ClaudeCli(p) => p.models@,
            Backend::Gemini(p) => p.models@,
        }
    }

    /// The name that this provider goes by.
    pub fn name(&self) -> (r: String)
        ensures
            r@ == self.named(),
    {
        match self {
            Backend::Anthropic(_) => "anthropic".to_owned(),
            Backend::OpenAiCompat(p) => p.name.clone(),
            Backend::Ollama(_) => "ollama".to_owned(),
            Backend::ClaudeCli(p) => kin_name(p.family.as_str(), "-cli"),
            Backend::Gemini(_) => "gemini".to_owned(),
        }
    }

    /// The models that this provider serves.
    pub fn models(&self) -> (r: &Vec<ModelInfo>)
        ensures
            r@ == self.served(),
    {
        match self {
            Backend::Anthropic(p) => &p.models,
            Backend::OpenAiCompat(p) => &p.models,
            Backend::Ollama(p) => &p.models,
            Backend::ClaudeCli(p) => &p.models,
            Backend::Gemini(p) => &p.models,
        }
    }

    /// Whether tools can be offered to this provider's models. None of the protocols that are
    /// spoken here carries them, and a model must never be asked as if it had been offered
    /// them.
    pub fn supports_tools(&self) -> (r: bool)
        ensures
            !r,
    {
        false
    }
}

/// Every service is sent all that a request says: what is said beforehand and what is asked, each in
/// its own place, how much may be answered, and, where a key is needed, the key.
pub proof fn law_requests_carry_everything(
    family: Seq<char>,
    base_url: Seq<char>,
    api_key: Seq<char>,
    models: Seq<ModelInfoView>,
    req: RequestView,
)
    ensures
        ({
            let a = anthropic_request(family, api_key, models, req);
            &&& a.headers.contains(("x-api-key"@, api_key))
            &&& a.body matches JsonView::Object(members) && members.contains(
                ("system"@, JsonView::Text(req.system)),
            ) && members.contains(
                (
                    "messages"@,
                    JsonView::List(
                        seq![
                            JsonView::Object(
                                seq![
                                    ("content"@, JsonView::Text(req.user)),
                                    ("role"@, JsonView::Text("user"@)),
                                ],
                            ),
                        ],
                    ),
                ),
            ) && members.contains(
                ("max_tokens"@, JsonView::Number(number_of(req.max_tokens as u64))),
            )
        }),
        ({
            let o = compatible_request(base_url, api_key, models, req);
            &&& api_key.len() > 0 ==> o.headers.contains(("authorization"@, "Bearer "@ + api_key))
            &&& o.body matches JsonView::Object(members) && members.contains(
                (
                    "messages"@,
                    JsonView::List(
                        seq![
                            JsonView::Object(
                                seq![
                                    ("content"@, JsonView::Text(req.system)),
                                    ("role"@, JsonView::Text("system"@)),
                                ],
                            ),
                            JsonView::Object(
                                seq![
                                    ("content"@, JsonView::Text(req.user)),
                                    ("role"@, JsonView::Text("user"@)),
                                ],
                            ),
                        ],
                    ),
                ),
            ) && members.contains(
                ("max_tokens"@, JsonView::Number(number_of(req.max_tokens as u64))),
            )
        }),
{
    let a = anthropic_request(family, api_key, models, req);
    let m = a.body->Object_0;
    assert(a.headers[0] == ("x-api-key"@, api_key));
    assert(m[0] == ("max_tokens"@, JsonView::Number(number_of(req.max_tokens as u64))));
    assert(m[1] == ("messages"@, JsonView::List(seq![message("user"@, req.user)])));
    assert(m[3] == ("system"@, JsonView::Text(req.system)));
    let o = compatible_request(base_url, api_key, models, req);
    let n = o.body->Object_0;
    assert(n[0] == ("max_tokens"@, JsonView::Number(number_of(req.max_tokens as u64))));
    assert(n[1] == ("messages"@, two_messages(req)));
    if api_key.len() > 0 {
        assert(o.headers[1] == ("authorization"@, "Bearer "@ + api_key));
    }
}

/// A service that says that it is asked too often is not taken for one that failed, whatever else it
/// says; and one that failed is not taken for one that answered.
pub proof fn law_limits_are_told_from_failures(
    family: Seq<char>,
    name: Seq<char>,
    models: Seq<ModelInfoView>,
    code: u16,
    body: Seq<char>,
    latency_ms: u64,
)
    ensures
        ({
            let reply = HttpReplyView::Status(code, body);
            let a = anthropic_answer(family, models, reply, latency_ms);
            let o = compatible_answer(name, models, reply, latency_ms);
            &&& a is Err && o is Err
            &&& a->Err_0 == ProviderErrorView::RateLimit <==> code == 429
            &&& o->Err_0 == ProviderErrorView::RateLimit <==> code == 429 || code == 413
        }),
{
}

} // verus!

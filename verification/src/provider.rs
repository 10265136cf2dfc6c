//! Messages between the agent and a model provider, and the identity of tool calls.
use vstd::prelude::*;
use vstd::utf8::*;

use crate::json::{Json, JsonView};
use crate::number::{decimal, decimal_text, lemma_parse_decimal, parse_number, parse_u64};
use crate::outside::{
    base64_url_bytes, base64_url_decode, base64_url_encode, base64_url_text, text_from_utf8,
};
use crate::text::{
    ascii_lower_text, chars_of, is_blank, lemma_run_len_is, lemma_trim_noop, opt_str, opt_text,
    run_len, same_text, slice_text, to_ascii_lowercase, trim, trimmed,
};

verus! {

/// Who speaks in a message.
#[derive(Clone, Copy, Debug, PartialEq, Eq, Structural)]
pub enum Role {
    System,
    User,
    Assistant,
    Tool,
}

/// A call of a tool that the model asks for.
#[derive(Clone, Debug, PartialEq, Eq)]
pub struct ToolCall {
    /// The agent's own execution identity. A provider turns it back into the wire
    /// id before it sends the call out; it is never sent as it stands.
    pub id: String,
    pub name: String,
    /// The arguments, as compact JSON text.
    pub arguments: String,
}

/// The mathematical value of a [`ToolCall`].
pub struct ToolCallView {
    pub id: Seq<char>,
    pub name: Seq<char>,
    pub arguments: Seq<char>,
}

impl View for ToolCall {
    type V = ToolCallView;

    open spec fn view(&self) -> ToolCallView {
        ToolCallView { id: self.id@, name: self.name@, arguments: self.arguments@ }
    }
}

/// A message of the conversation.
#[derive(Clone, Debug, PartialEq, Eq)]
pub struct Message {
    pub role: Role,
    pub content: Option<String>,
    pub tool_calls: Vec<ToolCall>,
    pub tool_call_id: Option<String>,
    pub name: Option<String>,
    pub image_urls: Vec<String>,
}

impl Message {
    /// A message of plain text.
    pub fn text(role: Role, content: &str) -> (message: Message)
        ensures
            message.role == role,
            opt_text(message.content) == Some(content@),
            message.tool_calls@.len() == 0,
            message.tool_call_id is None,
            message.name is None,
            message.image_urls@.len() == 0,
    {
        Message {
            role,
            content: Some(content.to_owned()),
            tool_calls: Vec::new(),
            tool_call_id: None,
            name: None,
            image_urls: Vec::new(),
        }
    }

    /// The assistant's message that asks for some tool calls.
    pub fn assistant_tool_calls(calls: Vec<ToolCall>) -> (message: Message)
        ensures
            message.role == Role::Assistant,
            message.content is None,
            message.tool_calls@ == calls@,
            message.tool_call_id is None,
            message.name is None,
            message.image_urls@.len() == 0,
    {
        Message {
            role: Role::Assistant,
            content: None,
            tool_calls: calls,
            tool_call_id: None,
            name: None,
            image_urls: Vec::new(),
        }
    }

    /// The result of a tool call, paired with the call by its id.
    pub fn tool_result(call: &ToolCall, content: &str) -> (message: Message)
        ensures
            message.role == Role::Tool,
            opt_text(message.content) == Some(content@),
            message.tool_calls@.len() == 0,
            opt_text(message.tool_call_id) == Some(call.id@),
            opt_text(message.name) == Some(call.name@),
            message.image_urls@.len() == 0,
    {
        Message {
            role: Role::Tool,
            content: Some(content.to_owned()),
            tool_calls: Vec::new(),
            tool_call_id: Some(call.id.clone()),
            name: Some(call.name.clone()),
            image_urls: Vec::new(),
        }
    }

    /// A message of the user with images.
    pub fn user_with_images(content: &str, image_urls: Vec<String>) -> (message: Message)
        ensures
            message.role == Role::User,
            opt_text(message.content) == Some(content@),
            message.tool_calls@.len() == 0,
            message.tool_call_id is None,
            message.name is None,
            message.image_urls@ == image_urls@,
    {
        Message {
            role: Role::User,
            content: Some(content.to_owned()),
            tool_calls: Vec::new(),
            tool_call_id: None,
            name: None,
            image_urls,
        }
    }
}

/// A tool as the model is told of it.
#[derive(Clone, Debug, PartialEq, Eq)]
pub struct ToolSpec {
    pub name: String,
    pub description: String,
    /// The schema of the arguments.
    pub parameters: Json,
}

/// The mathematical value of a [`ToolSpec`].
pub struct ToolSpecView {
    pub name: Seq<char>,
    pub description: Seq<char>,
    pub parameters: JsonView,
}

impl View for ToolSpec {
    type V = ToolSpecView;

    open spec fn view(&self) -> ToolSpecView {
        ToolSpecView {
            name: self.name@,
            description: self.description@,
            parameters: self.parameters@,
        }
    }
}

impl ToolSpec {
    /// A copy of the specification.
    pub fn copy(&self) -> (out: ToolSpec)
        ensures
            out@ == self@,
    {
        ToolSpec {
            name: self.name.clone(),
            description: self.description.clone(),
            parameters: self.parameters.copy(),
        }
    }
}

/// What a provider answers to a request that is not streamed.
#[derive(Clone, Debug, PartialEq, Eq)]
pub enum Response {
    Text(String),
    ToolCalls(Vec<ToolCall>),
    ToolAssemblyFailed(ToolCallStreamError),
}

/// The interface that a provider speaks.
#[derive(Clone, Copy, Debug, Hash, PartialEq, Eq, PartialOrd, Ord, Structural)]
pub enum ApiType {
    OpenaiChat,
    AnthropicMessages,
    Ollama,
}

/// The name of an interface.
pub open spec fn api_name(api: ApiType) -> Seq<char> {
    match api {
        ApiType::OpenaiChat => "openai-chat"@,
        ApiType::AnthropicMessages => "anthropic-messages"@,
        ApiType::Ollama => "ollama"@,
    }
}

/// The interface with a name. White space around it and the case of ASCII
/// letters do not matter.
pub open spec fn api_named(text: Seq<char>) -> Option<ApiType> {
    let name = ascii_lower_text(trim(text));
    if name == "openai-chat"@ {
        Some(ApiType::OpenaiChat)
    } else if name == "anthropic-messages"@ {
        Some(ApiType::AnthropicMessages)
    } else if name == "ollama"@ {
        Some(ApiType::Ollama)
    } else {
        None
    }
}

impl ApiType {
    /// The interface that a setting names; OpenAI chat where it is not set.
    pub fn from_env(value: &EnvValue) -> (api: Result<ApiType, String>)
        ensures
            match value {
                EnvValue::Missing => api == Ok::<ApiType, String>(ApiType::OpenaiChat),
                EnvValue::Unreadable(_) => api matches Err(message) && message@
                    == "读取环境变量 API_TYPE 失败"@,
                EnvValue::Present(text) => match api_named(text@) {
                    Some(named) => api == Ok::<ApiType, String>(named),
                    None => api matches Err(message) && message@
                        == "API_TYPE 必须是 openai-chat、anthropic-messages 或 ollama"@,
                },
            },
    {
        match value {
            EnvValue::Missing => Ok(ApiType::OpenaiChat),
            EnvValue::Unreadable(_) => Err("读取环境变量 API_TYPE 失败".to_owned()),
            EnvValue::Present(text) => match ApiType::parse(text.as_str()) {
                Some(api) => Ok(api),
                None => Err(
                    "API_TYPE 必须是 openai-chat、anthropic-messages 或 ollama".to_owned(),
                ),
            },
        }
    }

    /// The name of the interface.
    pub fn as_str(self) -> (name: &'static str)
        ensures
            name@ == api_name(self),
    {
        match self {
            ApiType::OpenaiChat => "openai-chat",
            ApiType::AnthropicMessages => "anthropic-messages",
            ApiType::Ollama => "ollama",
        }
    }

    /// The interface with a name.
    pub fn parse(text: &str) -> (api: Option<ApiType>)
        ensures
            api == api_named(text@),
    {
        let trimmed_text = trimmed(text);
        let name = to_ascii_lowercase(trimmed_text.as_str());
        if same_text(name.as_str(), "openai-chat") {
            Some(ApiType::OpenaiChat)
        } else if same_text(name.as_str(), "anthropic-messages") {
            Some(ApiType::AnthropicMessages)
        } else if same_text(name.as_str(), "ollama") {
            Some(ApiType::Ollama)
        } else {
            None
        }
    }
}

/// An interface is the one that its own name names.
pub proof fn law_api_name_is_read_back(api: ApiType)
    ensures
        api_named(api_name(api)) == Some(api),
{
    reveal_strlit("openai-chat");
    reveal_strlit("anthropic-messages");
    reveal_strlit("ollama");
    let name = api_name(api);
    lemma_trim_noop(name);
    assert(ascii_lower_text(name) =~= name);
    assert("openai-chat"@.len() == 11);
    assert("anthropic-messages"@.len() == 18);
    assert("ollama"@.len() == 6);
}

/// What a provider can take besides text.
#[derive(Clone, Copy, Debug, PartialEq, Eq, Structural)]
pub struct ProviderCapabilities {
    pub images: bool,
    pub tools: bool,
}

impl ProviderCapabilities {
    /// The capabilities given.
    pub fn new(images: bool, tools: bool) -> (out: ProviderCapabilities)
        ensures
            out == (ProviderCapabilities { images, tools }),
    {
        ProviderCapabilities { images, tools }
    }
}

/// Where the identity of a tool call comes from.
#[derive(Clone, Debug, Hash, PartialEq, Eq, PartialOrd, Ord)]
pub enum IdentitySource {
    /// The id that the provider gave the call.
    WireId(String),
    /// The position of the call in its batch.
    Position(u64),
}

/// The mathematical value of an [`IdentitySource`].
pub enum SourceView {
    WireId(Seq<char>),
    Position(u64),
}

/// The identity of a tool call, within the interface it came through.
#[derive(Clone, Debug, Hash, PartialEq, Eq, PartialOrd, Ord)]
pub struct ExecutionIdentity {
    pub domain: ApiType,
    pub source: IdentitySource,
}

/// The mathematical value of an [`ExecutionIdentity`].
pub struct IdentityView {
    pub domain: ApiType,
    pub source: SourceView,
}

impl View for ExecutionIdentity {
    type V = IdentityView;

    open spec fn view(&self) -> IdentityView {
        IdentityView {
            domain: self.domain,
            source: match self.source {
                IdentitySource::WireId(id) => SourceView::WireId(id@),
                IdentitySource::Position(position) => SourceView::Position(position),
            },
        }
    }
}

/// The view of an optional identity.
pub open spec fn opt_identity(identity: Option<ExecutionIdentity>) -> Option<IdentityView> {
    match identity {
        Some(identity) => Some(identity@),
        None => None,
    }
}

/// Every character but the colon.
pub open spec fn in_field() -> spec_fn(char) -> bool {
    |c: char| c != ':'
}

/// What stands before and after the first colon of a text.
pub open spec fn split_colon(s: Seq<char>) -> Option<(Seq<char>, Seq<char>)> {
    let n = run_len(s, in_field()) as int;
    if n < s.len() {
        Some((s.take(n), s.skip(n + 1)))
    } else {
        None
    }
}

/// The text that an identity is kept as.
pub open spec fn identity_text(identity: IdentityView) -> Seq<char> {
    match identity.source {
        SourceView::WireId(id) => "tc1:"@ + api_name(identity.domain) + ":id:"@ + base64_url_text(
            encode_utf8(id),
        ),
        SourceView::Position(position) => "tc1:"@ + api_name(identity.domain) + ":pos:"@ + decimal(
            position as nat,
        ),
    }
}

/// The source that the last two fields of an identity's text stand for.
pub open spec fn source_of(kind: Seq<char>, source: Seq<char>) -> Option<SourceView> {
    if kind == "id"@ {
        match base64_url_bytes(source) {
            Some(bytes) => if valid_utf8(bytes) {
                Some(SourceView::WireId(decode_utf8(bytes)))
            } else {
                None
            },
            None => None,
        }
    } else if kind == "pos"@ {
        match parse_number(source, u64::MAX as nat) {
            Some(position) => Some(SourceView::Position(position as u64)),
            None => None,
        }
    } else {
        None
    }
}

/// The identity that a text stands for: four fields with colons between them,
/// of which the last may hold further colons.
pub open spec fn identity_of(text: Seq<char>) -> Option<IdentityView> {
    match split_colon(text) {
        Some((version, rest)) => if version == "tc1"@ {
            match split_colon(rest) {
                Some((domain, rest)) => match api_named(domain) {
                    Some(domain) => match split_colon(rest) {
                        Some((kind, source)) => match source_of(kind, source) {
                            Some(source) => Some(IdentityView { domain, source }),
                            None => None,
                        },
                        None => None,
                    },
                    None => None,
                },
                None => None,
            }
        } else {
            None
        },
        None => None,
    }
}

fn split_at_colon(text: &str) -> (parts: Option<(String, String)>)
    ensures
        match parts {
            Some((front, rest)) => split_colon(text@) == Some((front@, rest@)),
            None => split_colon(text@) is None,
        },
{
    let chars = chars_of(text);
    let mut at: usize = 0;
    while at < chars.len() && chars[at] != ':'
        invariant
            at <= chars.len(),
            chars@ == text@,
            forall|i: int| 0 <= i < at ==> #[trigger] text@[i] != ':',
        decreases chars.len() - at,
    {
        at += 1;
    }
    proof {
        lemma_run_len_is(text@, in_field(), at as nat);
    }
    if at < chars.len() {
        let front = slice_text(&chars, 0, at);
        let rest = slice_text(&chars, at + 1, chars.len());
        assert(front@ =~= text@.take(at as int));
        assert(rest@ =~= text@.skip(at + 1));
        Some((front, rest))
    } else {
        None
    }
}

/// The first colon of `front`, a colon and `rest` stands behind `front`, where
/// `front` has none.
proof fn lemma_split_colon(text: Seq<char>, front: Seq<char>, rest: Seq<char>)
    requires
        text == front + seq![':'] + rest,
        forall|i: int| 0 <= i < front.len() ==> #[trigger] front[i] != ':',
    ensures
        split_colon(text) == Some((front, rest)),
{
    let n = front.len();
    assert forall|i: int| 0 <= i < n implies in_field()(#[trigger] text[i]) by {
        assert(text[i] == front[i]);
    }
    assert(text[n as int] == ':');
    lemma_run_len_is(text, in_field(), n);
    assert(text.take(n as int) =~= front);
    assert(text.skip(n as int + 1) =~= rest);
}

proof fn lemma_split_identity(domain: ApiType, kind: Seq<char>, source: Seq<char>, text: Seq<char>)
    requires
        kind == "id"@ || kind == "pos"@,
        text == "tc1:"@ + api_name(domain) + (seq![':'] + kind + seq![':']) + source,
    ensures
        identity_of(text) == (match source_of(kind, source) {
            Some(source) => Some(IdentityView { domain, source }),
            None => None,
        }),
{
    reveal_strlit("tc1:");
    reveal_strlit("tc1");
    reveal_strlit("openai-chat");
    reveal_strlit("anthropic-messages");
    reveal_strlit("ollama");
    reveal_strlit("id");
    reveal_strlit("pos");
    let tail = kind + seq![':'] + source;
    let middle = api_name(domain) + seq![':'] + tail;
    assert(text =~= "tc1"@ + seq![':'] + middle);
    lemma_split_colon(text, "tc1"@, middle);
    lemma_split_colon(middle, api_name(domain), tail);
    lemma_split_colon(tail, kind, source);
    law_api_name_is_read_back(domain);
}

impl ExecutionIdentity {
    /// The identity of a call with an id of the provider's.
    pub fn wire(domain: ApiType, id: &str) -> (identity: ExecutionIdentity)
        ensures
            identity@ == (IdentityView { domain, source: SourceView::WireId(id@) }),
    {
        ExecutionIdentity { domain, source: IdentitySource::WireId(id.to_owned()) }
    }

    /// The identity of a call that only its position tells apart.
    pub fn position(domain: ApiType, position: u64) -> (identity: ExecutionIdentity)
        ensures
            identity@ == (IdentityView { domain, source: SourceView::Position(position) }),
    {
        ExecutionIdentity { domain, source: IdentitySource::Position(position) }
    }

    /// A copy of the identity.
    pub fn copy(&self) -> (out: ExecutionIdentity)
        ensures
            out@ == self@,
    {
        match &self.source {
            IdentitySource::WireId(id) => ExecutionIdentity::wire(self.domain, id.as_str()),
            IdentitySource::Position(position) => ExecutionIdentity::position(self.domain, *position),
        }
    }

    /// The provider's id of the call. A position is none.
    pub fn wire_id(&self) -> (id: Option<&str>)
        ensures
            opt_str(id) == (match self@.source {
                SourceView::WireId(id) => Some(id),
                SourceView::Position(_) => None,
            }),
    {
        match &self.source {
            IdentitySource::WireId(id) => Some(id.as_str()),
            IdentitySource::Position(_) => None,
        }
    }

    /// The text that the identity is kept as. Decoding it gives the identity back.
    pub fn encode(&self) -> (text: String)
        ensures
            text@ == identity_text(self@),
            identity_of(text@) == Some(self@),
    {
        let mut text = "tc1:".to_owned();
        text.append(self.domain.as_str());
        match &self.source {
            IdentitySource::WireId(id) => {
                text.append(":id:");
                let encoded = base64_url_encode(id.as_str().as_bytes());
                text.append(encoded.as_str());
                proof {
                    reveal_strlit(":id:");
                    reveal_strlit("id");
                    assert(":id:"@ =~= seq![':'] + "id"@ + seq![':']);
                    encode_utf8_valid_utf8(id@);
                    encode_utf8_decode_utf8(id@);
                    lemma_split_identity(self.domain, "id"@, encoded@, text@);
                }
            },
            IdentitySource::Position(position) => {
                text.append(":pos:");
                let digits = decimal_text(*position as u128);
                text.append(digits.as_str());
                proof {
                    reveal_strlit(":pos:");
                    reveal_strlit("pos");
                    reveal_strlit("id");
                    assert(":pos:"@ =~= seq![':'] + "pos"@ + seq![':']);
                    assert("pos"@.len() != "id"@.len());
                    lemma_parse_decimal(*position as nat, u64::MAX as nat);
                    lemma_split_identity(self.domain, "pos"@, digits@, text@);
                }
            },
        }
        text
    }

    /// The identity that a text stands for.
    pub fn decode(value: &str) -> (identity: Option<ExecutionIdentity>)
        ensures
            opt_identity(identity) == identity_of(value@),
    {
        let (version, rest) = match split_at_colon(value) {
            Some(parts) => parts,
            None => return None,
        };
        if !same_text(version.as_str(), "tc1") {
            return None;
        }
        let (domain, rest) = match split_at_colon(rest.as_str()) {
            Some(parts) => parts,
            None => return None,
        };
        let domain = match ApiType::parse(domain.as_str()) {
            Some(domain) => domain,
            None => return None,
        };
        let (kind, source) = match split_at_colon(rest.as_str()) {
            Some(parts) => parts,
            None => return None,
        };
        if same_text(kind.as_str(), "id") {
            let bytes = match base64_url_decode(source.as_str()) {
                Some(bytes) => bytes,
                None => return None,
            };
            match text_from_utf8(bytes) {
                Some(id) => Some(ExecutionIdentity::wire(domain, id.as_str())),
                None => None,
            }
        } else if same_text(kind.as_str(), "pos") {
            match parse_u64(source.as_str()) {
                Some(position) => Some(ExecutionIdentity::position(domain, position)),
                None => None,
            }
        } else {
            None
        }
    }
}

/// Texts that stand for different identities differ: an id of one interface is
/// never taken for the same id of another, nor an id for a position.
pub proof fn law_identities_have_texts_of_their_own(
    a: IdentityView,
    b: IdentityView,
    text_a: Seq<char>,
    text_b: Seq<char>,
)
    requires
        identity_of(text_a) == Some(a),
        identity_of(text_b) == Some(b),
        a != b,
    ensures
        text_a != text_b,
{
}

/// A piece of a tool call's arguments.
#[derive(Clone, Debug, PartialEq, Eq)]
pub enum ToolArgumentsFragment {
    Append(String),
    AuthoritativeSnapshot(String),
}

/// Why a streamed tool call could not be put together.
#[derive(Clone, Debug, PartialEq, Eq)]
pub struct ToolCallStreamError {
    pub code: String,
    pub message: String,
}

impl ToolCallStreamError {
    /// An error with a code and a message.
    pub fn new(code: &str, message: &str) -> (error: ToolCallStreamError)
        ensures
            error.code@ == code@,
            error.message@ == message@,
    {
        ToolCallStreamError { code: code.to_owned(), message: message.to_owned() }
    }
}

/// What a provider reports while it streams an answer.
#[derive(Clone, Debug, PartialEq, Eq)]
pub enum ProviderEvent {
    TextDelta(String),
    ToolCallStarted { exec_id: ExecutionIdentity, name: String },
    ToolCallDelta { exec_id: ExecutionIdentity, fragment: ToolArgumentsFragment },
    ToolCallCompleted { exec_id: ExecutionIdentity },
    ToolCallFailed(ToolCallStreamError),
}

/// The mathematical value of a [`ProviderEvent`].
pub enum ProviderEventView {
    TextDelta(Seq<char>),
    ToolCallStarted(IdentityView, Seq<char>),
    Appended(IdentityView, Seq<char>),
    Snapshot(IdentityView, Seq<char>),
    ToolCallCompleted(IdentityView),
    ToolCallFailed(Seq<char>, Seq<char>),
}

impl View for ProviderEvent {
    type V = ProviderEventView;

    open spec fn view(&self) -> ProviderEventView {
        match *self {
            ProviderEvent::TextDelta(text) => ProviderEventView::TextDelta(text@),
            ProviderEvent::ToolCallStarted { exec_id, name } => ProviderEventView::ToolCallStarted(
                exec_id@,
                name@,
            ),
            ProviderEvent::ToolCallDelta { exec_id, fragment } => match fragment {
                ToolArgumentsFragment::Append(text) => ProviderEventView::Appended(exec_id@, text@),
                ToolArgumentsFragment::AuthoritativeSnapshot(text) => ProviderEventView::Snapshot(
                    exec_id@,
                    text@,
                ),
            },
            ProviderEvent::ToolCallCompleted { exec_id } => ProviderEventView::ToolCallCompleted(
                exec_id@,
            ),
            ProviderEvent::ToolCallFailed(error) => ProviderEventView::ToolCallFailed(
                error.code@,
                error.message@,
            ),
        }
    }
}

/// The views of some events.
pub open spec fn event_views(events: Seq<ProviderEvent>) -> Seq<ProviderEventView> {
    Seq::new(events.len(), |i: int| events[i]@)
}

/// The views of some tool calls.
pub open spec fn call_views(calls: Seq<ToolCall>) -> Seq<ToolCallView> {
    Seq::new(calls.len(), |i: int| calls[i]@)
}

/// The identity of the call at a position of a batch: the one its id stands for,
/// or its id in the provider's own form, or its position where it has no id.
pub open spec fn call_identity(id: Seq<char>, domain: ApiType, position: u64) -> IdentityView {
    match identity_of(id) {
        Some(identity) => identity,
        None => if id.len() == 0 {
            IdentityView { domain, source: SourceView::Position(position) }
        } else {
            IdentityView { domain, source: SourceView::WireId(id) }
        },
    }
}

/// The events of one call: its start, its whole arguments, its end.
pub open spec fn call_events(call: ToolCallView, domain: ApiType, position: u64) -> Seq<
    ProviderEventView,
> {
    let identity = call_identity(call.id, domain, position);
    seq![
        ProviderEventView::ToolCallStarted(identity, call.name),
        ProviderEventView::Snapshot(identity, call.arguments),
        ProviderEventView::ToolCallCompleted(identity),
    ]
}

/// The events of some calls, in order.
pub open spec fn batch_events(calls: Seq<ToolCallView>, domain: ApiType) -> Seq<ProviderEventView>
    decreases calls.len(),
{
    if calls.len() == 0 {
        Seq::empty()
    } else {
        batch_events(calls.drop_last(), domain) + call_events(
            calls.last(),
            domain,
            (calls.len() - 1) as u64,
        )
    }
}

/// The events that an answer that is not streamed amounts to.
pub open spec fn response_events(response: Response, domain: ApiType) -> Seq<ProviderEventView> {
    match response {
        Response::Text(text) => seq![ProviderEventView::TextDelta(text@)],
        Response::ToolCalls(calls) => if calls@.len() == 0 {
            seq![
                ProviderEventView::ToolCallFailed(
                    "empty_tool_calls"@,
                    "provider 返回了空工具调用批次"@,
                ),
            ]
        } else {
            batch_events(call_views(calls@), domain)
        },
        Response::ToolAssemblyFailed(error) => seq![
            ProviderEventView::ToolCallFailed(error.code@, error.message@),
        ],
    }
}

/// The identity of the call at a position of a batch.
pub fn identify_call(id: &str, domain: ApiType, position: u64) -> (identity: ExecutionIdentity)
    ensures
        identity@ == call_identity(id@, domain, position),
{
    match ExecutionIdentity::decode(id) {
        Some(identity) => identity,
        None => {
            if same_text(id, "") {
                proof {
                    reveal_strlit("");
                }
                ExecutionIdentity::position(domain, position)
            } else {
                proof {
                    reveal_strlit("");
                    assert(id@.len() == 0 ==> id@ =~= ""@);
                }
                ExecutionIdentity::wire(domain, id)
            }
        },
    }
}

/// The events that an answer that is not streamed amounts to, in the order in
/// which they are sent.
pub fn emit_legacy_response(response: Response, domain: ApiType) -> (events: Vec<ProviderEvent>)
    ensures
        event_views(events@) == response_events(response, domain),
{
    let mut events: Vec<ProviderEvent> = Vec::new();
    match response {
        Response::Text(text) => {
            events.push(ProviderEvent::TextDelta(text));
            assert(event_views(events@) =~= response_events(response, domain));
        },
        Response::ToolCalls(calls) => {
            if calls.len() == 0 {
                let error = ToolCallStreamError::new(
                    "empty_tool_calls",
                    "provider 返回了空工具调用批次",
                );
                events.push(ProviderEvent::ToolCallFailed(error));
                assert(event_views(events@) =~= response_events(response, domain));
                return events;
            }
            let mut at: usize = 0;
            assert(event_views(events@) =~= batch_events(call_views(calls@).take(0), domain));
            while at < calls.len()
                invariant
                    at <= calls.len(),
                    event_views(events@) == batch_events(call_views(calls@).take(at as int), domain),
                decreases calls.len() - at,
            {
                let ghost before = events@;
                let identity = identify_call(calls[at].id.as_str(), domain, at as u64);
                events.push(
                    ProviderEvent::ToolCallStarted {
                        exec_id: identity.copy(),
                        name: calls[at].name.clone(),
                    },
                );
                events.push(
                    ProviderEvent::ToolCallDelta {
                        exec_id: identity.copy(),
                        fragment: ToolArgumentsFragment::AuthoritativeSnapshot(
                            calls[at].arguments.clone(),
                        ),
                    },
                );
                events.push(ProviderEvent::ToolCallCompleted { exec_id: identity });
                proof {
                    let taken = call_views(calls@).take(at + 1);
                    assert(taken.drop_last() =~= call_views(calls@).take(at as int));
                    assert(taken.last() == calls@[at as int]@);
                    assert(event_views(events@) =~= event_views(before) + call_events(
                        calls@[at as int]@,
                        domain,
                        at as u64,
                    ));
                }
                at += 1;
            }
            assert(call_views(calls@).take(at as int) =~= call_views(calls@));
        },
        Response::ToolAssemblyFailed(error) => {
            events.push(ProviderEvent::ToolCallFailed(error));
            assert(event_views(events@) =~= response_events(response, domain));
        },
    }
    events
}

/// The id under which a call goes out to the provider: its wire id. A position
/// stands for no wire id, and an id that is no execution identity goes out as it is.
pub open spec fn outbound_id(internal: Seq<char>) -> Option<Seq<char>> {
    match identity_of(internal) {
        Some(identity) => match identity.source {
            SourceView::WireId(id) => Some(id),
            SourceView::Position(_) => None,
        },
        None => if internal.len() == 0 {
            None
        } else {
            Some(internal)
        },
    }
}

/// The id under which a call goes out to the provider.
pub fn outbound_wire_id(internal_id: &str) -> (id: Option<String>)
    ensures
        opt_text(id) == outbound_id(internal_id@),
{
    match ExecutionIdentity::decode(internal_id) {
        Some(identity) => match identity.wire_id() {
            Some(id) => Some(id.to_owned()),
            None => None,
        },
        None => {
            proof {
                reveal_strlit("");
                assert(internal_id@.len() == 0 ==> internal_id@ =~= ""@);
            }
            if same_text(internal_id, "") {
                None
            } else {
                Some(internal_id.to_owned())
            }
        },
    }
}

/// What goes out for an identity's own text is its wire id, and nothing where it
/// has none: the agent's form never reaches the provider.
pub proof fn law_outbound_id_is_the_wire_id(identity: IdentityView, text: Seq<char>)
    requires
        identity_of(text) == Some(identity),
    ensures
        outbound_id(text) == (match identity.source {
            SourceView::WireId(id) => Some(id),
            SourceView::Position(_) => None,
        }),
{
}

/// The truth value that a setting stands for.
pub open spec fn bool_setting(text: Seq<char>) -> Option<bool> {
    let word = ascii_lower_text(trim(text));
    if word == "1"@ || word == "true"@ || word == "yes"@ || word == "on"@ {
        Some(true)
    } else if word == "0"@ || word == "false"@ || word == "no"@ || word == "off"@ {
        Some(false)
    } else {
        None
    }
}

/// The value of an environment variable, as far as it can be read.
#[derive(Clone, Debug, PartialEq, Eq)]
pub enum EnvValue {
    /// The variable is not set.
    Missing,
    /// The variable is set to something that is no text; why, in words.
    Unreadable(String),
    /// The variable's text.
    Present(String),
}

/// The text of a variable that has to be set to something.
pub fn required_env(name: &str, value: &EnvValue) -> (out: Result<String, String>)
    ensures
        match out {
            Ok(text) => value matches EnvValue::Present(present) && text@ == present@
                && !crate::text::is_blank_text(present@),
            Err(message) => match value {
                EnvValue::Present(present) => crate::text::is_blank_text(present@) && message@
                    == "环境变量 "@ + name@ + " 不能为空"@,
                _ => message@ == "缺少环境变量 "@ + name@,
            },
        },
{
    match value {
        EnvValue::Present(text) => {
            if is_blank(text.as_str()) {
                let mut message = "环境变量 ".to_owned();
                message.append(name);
                message.append(" 不能为空");
                Err(message)
            } else {
                Ok(text.clone())
            }
        },
        _ => {
            let mut message = "缺少环境变量 ".to_owned();
            message.append(name);
            Err(message)
        },
    }
}

/// The truth value of a variable that may be left out.
pub fn optional_bool_env(name: &str, value: &EnvValue, default: bool) -> (out: Result<bool, String>)
    ensures
        match value {
            EnvValue::Missing => out == Ok::<bool, String>(default),
            EnvValue::Unreadable(_) => out matches Err(message) && message@ == "读取环境变量 "@ + name@
                + " 失败"@,
            EnvValue::Present(text) => match bool_setting(text@) {
                Some(truth) => out == Ok::<bool, String>(truth),
                None => out matches Err(message) && message@ == "环境变量 "@ + name@
                    + " 必须是 true/false、1/0、yes/no 或 on/off"@,
            },
        },
{
    match value {
        EnvValue::Missing => Ok(default),
        EnvValue::Unreadable(_) => {
            let mut message = "读取环境变量 ".to_owned();
            message.append(name);
            message.append(" 失败");
            Err(message)
        },
        EnvValue::Present(text) => {
            let trimmed_text = trimmed(text.as_str());
            let lower = to_ascii_lowercase(trimmed_text.as_str());
            let word = lower.as_str();
            if same_text(word, "1") || same_text(word, "true") || same_text(word, "yes") || same_text(
                word,
                "on",
            ) {
                Ok(true)
            } else if same_text(word, "0") || same_text(word, "false") || same_text(word, "no")
                || same_text(word, "off") {
                Ok(false)
            } else {
                let mut message = "环境变量 ".to_owned();
                message.append(name);
                message.append(" 必须是 true/false、1/0、yes/no 或 on/off");
                Err(message)
            }
        },
    }
}

/// The text of an identity is read as that identity, where the encoding of its id is read
/// back.
pub proof fn law_identity_is_read_back(identity: IdentityView)
    requires
        identity.source matches SourceView::WireId(id) ==> base64_url_bytes(
            base64_url_text(encode_utf8(id)),
        ) == Some(encode_utf8(id)),
    ensures
        identity_of(identity_text(identity)) == Some(identity),
{
    reveal_strlit(":id:");
    reveal_strlit(":pos:");
    reveal_strlit("id");
    reveal_strlit("pos");
    assert(":id:"@ =~= seq![':'] + "id"@ + seq![':']);
    assert(":pos:"@ =~= seq![':'] + "pos"@ + seq![':']);
    let text = identity_text(identity);
    match identity.source {
        SourceView::WireId(id) => {
            encode_utf8_valid_utf8(id);
            encode_utf8_decode_utf8(id);
            lemma_split_identity(
                identity.domain,
                "id"@,
                base64_url_text(encode_utf8(id)),
                text,
            );
        },
        SourceView::Position(position) => {
            assert("pos"@.len() != "id"@.len());
            lemma_parse_decimal(position as nat, u64::MAX as nat);
            lemma_split_identity(identity.domain, "pos"@, decimal(position as nat), text);
        },
    }
}

/// An interface is named by its name in any case of letters, white space aside, and by
/// nothing else.
pub proof fn law_interfaces_are_named_in_any_case(text: Seq<char>, api: ApiType)
    ensures
        api_named(text) == Some(api) <==> ascii_lower_text(trim(text)) == (match api {
            ApiType::OpenaiChat => "openai-chat"@,
            ApiType::AnthropicMessages => "anthropic-messages"@,
            ApiType::Ollama => "ollama"@,
        }),
{
    reveal_strlit("openai-chat");
    reveal_strlit("anthropic-messages");
    reveal_strlit("ollama");
    assert("openai-chat"@.len() == 11);
    assert("anthropic-messages"@.len() == 18);
    assert("ollama"@.len() == 6);
}

/// A call keeps the identity that its id spells; else it is known by its id where it has
/// one, and by its position where it has none.
pub proof fn law_calls_keep_their_identity(id: Seq<char>, domain: ApiType, position: u64)
    ensures
        identity_of(id) is Some ==> Some(call_identity(id, domain, position)) == identity_of(id),
        identity_of(id) is None ==> call_identity(id, domain, position).domain == domain,
        identity_of(id) is None && id.len() > 0 ==> call_identity(id, domain, position).source
            == SourceView::WireId(id),
        identity_of(id) is None && id.len() == 0 ==> call_identity(id, domain, position).source
            == SourceView::Position(position),
{
}

/// The id that a provider gave a call goes back to the provider as it came.
pub proof fn law_provider_gets_its_own_id_back(id: Seq<char>, domain: ApiType, position: u64)
    requires
        id.len() > 0,
        identity_of(id) is None,
        base64_url_bytes(base64_url_text(encode_utf8(id))) == Some(encode_utf8(id)),
    ensures
        outbound_id(identity_text(call_identity(id, domain, position))) == Some(id),
        outbound_id(id) == Some(id),
        outbound_id(Seq::empty()) is None || identity_of(Seq::empty()) is Some,
{
    law_identity_is_read_back(call_identity(id, domain, position));
}

/// A batch of calls is told call by call, in its order: that the call starts, under its
/// name, its arguments whole, and that it is complete, all under one identity.
pub proof fn law_every_call_is_told_whole(calls: Seq<ToolCallView>, domain: ApiType, i: int)
    requires
        0 <= i < calls.len() <= u64::MAX,
    ensures
        ({
            let events = batch_events(calls, domain);
            let identity = call_identity(calls[i].id, domain, i as u64);
            &&& events.len() == 3 * calls.len()
            &&& events[3 * i] == ProviderEventView::ToolCallStarted(identity, calls[i].name)
            &&& events[3 * i + 1] == ProviderEventView::Snapshot(identity, calls[i].arguments)
            &&& events[3 * i + 2] == ProviderEventView::ToolCallCompleted(identity)
        }),
    decreases calls.len(),
{
    let front = calls.drop_last();
    if calls.len() == 1 {
        assert(batch_events(front, domain) =~= Seq::empty());
    } else if i < calls.len() - 1 {
        law_every_call_is_told_whole(front, domain, i);
    } else {
        law_every_call_is_told_whole(front, domain, i - 1);
    }
}

/// An answer in text is told as that text, and a failure as that failure; a batch of calls
/// without a call is a failure.
pub proof fn law_answers_are_told_as_they_are(response: Response, domain: ApiType)
    ensures
        response matches Response::Text(text) ==> response_events(response, domain) == seq![
            ProviderEventView::TextDelta(text@),
        ],
        response matches Response::ToolAssemblyFailed(error) ==> response_events(response, domain)
            == seq![ProviderEventView::ToolCallFailed(error.code@, error.message@)],
        response matches Response::ToolCalls(calls) ==> (calls@.len() == 0 ==> response_events(
            response,
            domain,
        ).len() == 1 && response_events(response, domain)[0] is ToolCallFailed),
        response matches Response::ToolCalls(calls) ==> (calls@.len() > 0 ==> response_events(
            response,
            domain,
        ) == batch_events(call_views(calls@), domain)),
{
}

/// A switch is on or off by one of four words each, in any case of letters, white space
/// aside; no other text is a switch.
pub proof fn law_switches_are_read_in_any_case(text: Seq<char>)
    ensures
        ({
            let word = ascii_lower_text(trim(text));
            &&& bool_setting(text) == Some(true) <==> word == "1"@ || word == "true"@ || word
                == "yes"@ || word == "on"@
            &&& bool_setting(text) == Some(false) <==> word == "0"@ || word == "false"@ || word
                == "no"@ || word == "off"@
        }),
{
    reveal_strlit("1");
    reveal_strlit("true");
    reveal_strlit("yes");
    reveal_strlit("on");
    reveal_strlit("0");
    reveal_strlit("false");
    reveal_strlit("no");
    reveal_strlit("off");
    assert("1"@.len() == 1 && "0"@.len() == 1 && "1"@[0] == '1' && "0"@[0] == '0');
    assert("true"@.len() == 4 && "yes"@.len() == 3 && "on"@.len() == 2 && "on"@[1] == 'n');
    assert("false"@.len() == 5 && "no"@.len() == 2 && "no"@[1] == 'o' && "off"@.len() == 3);
    assert("yes"@[0] == 'y' && "off"@[0] == 'o');
}

/// A setting that has to be there is given as it is set, and refused where it is missing or
/// blank; a switch that need not be there has its default where it is missing.
pub proof fn law_settings_are_given_as_they_are_set(
    name: &str,
    value: &EnvValue,
    default: bool,
    needed: Result<String, String>,
    switch: Result<bool, String>,
)
    requires
        call_ensures(required_env, (name, value), needed),
        call_ensures(optional_bool_env, (name, value, default), switch),
    ensures
        needed is Ok <==> (value matches EnvValue::Present(text) && trim(text@).len() > 0),
        needed matches Ok(kept) ==> (value matches EnvValue::Present(text) && kept@ == text@),
        value is Missing ==> switch == Ok::<bool, String>(default),
        value is Unreadable ==> switch is Err,
        value matches EnvValue::Present(text) ==> (switch is Ok <==> bool_setting(text@) is Some)
            && (bool_setting(text@) matches Some(truth) ==> switch == Ok::<bool, String>(truth)),
{
    if let EnvValue::Present(text) = value {
        crate::text::lemma_trim_empty_iff_blank(text@);
    }
}

/// The interface is the usual one where nothing is said of it, and else the one that is
/// named.
pub proof fn law_interface_is_the_one_that_is_named(
    value: &EnvValue,
    api: Result<ApiType, String>,
)
    requires
        call_ensures(ApiType::from_env, (value,), api),
    ensures
        value is Missing ==> api == Ok::<ApiType, String>(ApiType::OpenaiChat),
        value is Unreadable ==> api is Err,
        value matches EnvValue::Present(text) ==> (api is Ok <==> api_named(text@) is Some) && (
        api matches Ok(named) ==> api_named(text@) == Some(named)),
{
}

/// An identity is written with its mark, the name of the interface and either the id in
/// letters that need no escape, or the position.
pub proof fn law_identities_are_written_in_one_form(domain: ApiType, id: Seq<char>, position: u64)
    ensures
        identity_text(IdentityView { domain, source: SourceView::WireId(id) }) == "tc1:"@ + api_name(
            domain,
        ) + ":id:"@ + base64_url_text(encode_utf8(id)),
        identity_text(IdentityView { domain, source: SourceView::Position(position) }) == "tc1:"@
            + api_name(domain) + ":pos:"@ + decimal(position as nat),
{
}

} // verus!

//! The HTTP server: who may use it, what is taken from a request, and what is answered.
use vstd::prelude::*;

use super::cli::rpc_failure;
use super::recovery::approval_params;
use crate::daemon::protocol::{
    request_id_label, request_id_label_text, EventKind, FrameView, RequestId, ServerFrame,
};
use crate::json::{
    json_views, law_objects_give_the_first_entry_of_a_key, lemma_json_views, no_entries, signed_json, signed_value, text_value, Entries, Json,
    JsonView,
};
use crate::number::signed_text;
use crate::text::{
    after_prefix, is_blank, is_blank_text, join, join_with, opt_str, same_text, strip_prefix, texts,
};

verus! {

/// The status of an answer to a request without the right token.
pub const UNAUTHORIZED: u16 = 401;

/// The status of an answer to a request that cannot be met.
pub const BAD_REQUEST: u16 = 400;

/// The status of an answer where the daemon fails.
pub const BAD_GATEWAY: u16 = 502;

/// The status of an answer where the daemon is not there.
pub const SERVICE_UNAVAILABLE: u16 = 503;

/// An answer: its status and its body.
#[derive(Debug, PartialEq, Eq)]
pub struct HttpReply {
    pub status: u16,
    pub body: Json,
}

/// Whether an answer has a status and a body.
pub open spec fn is_reply(reply: HttpReply, status: u16, body: JsonView) -> bool {
    reply.status == status && reply.body@ == body
}

/// The body of an answer that tells of an error.
pub open spec fn error_body(message: Seq<char>) -> JsonView {
    JsonView::Object(
        no_entries().push(
            (
                "error"@,
                JsonView::Object(
                    no_entries().push(("message"@, JsonView::Text(message))).push(
                        ("type"@, JsonView::Text("my_agent_error"@)),
                    ),
                ),
            ),
        ),
    )
}

/// An answer that tells of an error.
pub fn api_error(status: u16, message: &str) -> (reply: HttpReply)
    ensures
        is_reply(reply, status, error_body(message@)),
{
    let error = Entries::new().with_text("message", message).with_text("type", "my_agent_error").object();
    HttpReply { status, body: Entries::new().with("error", error).object() }
}

/// Whether a request may be served: no token is asked for, or its header brings it.
pub open spec fn authorized(header: Option<Seq<char>>, required: Option<Seq<char>>) -> bool {
    match required {
        None => true,
        Some(token) => header matches Some(value) && after_prefix(value, "Bearer "@) == Some(token),
    }
}

/// Whether a request may be served, by the text of its `Authorization` header.
pub fn is_authorized(header: Option<&str>, required_token: Option<&str>) -> (allowed: bool)
    ensures
        allowed == authorized(opt_str(header), opt_str(required_token)),
{
    let token = match required_token {
        Some(token) => token,
        None => return true,
    };
    match header {
        Some(value) => match strip_prefix(value, "Bearer ") {
            Some(provided) => same_text(provided.as_str(), token),
            None => false,
        },
        None => false,
    }
}

/// Whether a request may be asked how the server is; if not, the answer.
pub fn health_refusal(header: Option<&str>, required_token: Option<&str>) -> (reply: Option<
    HttpReply,
>)
    ensures
        match reply {
            None => authorized(opt_str(header), opt_str(required_token)),
            Some(reply) => !authorized(opt_str(header), opt_str(required_token)) && is_reply(
                reply,
                UNAUTHORIZED,
                error_body("Bearer Token 无效或缺失"@),
            ),
        },
{
    if is_authorized(header, required_token) {
        None
    } else {
        Some(api_error(UNAUTHORIZED, "Bearer Token 无效或缺失"))
    }
}

/// The answer to the question how the server is, by whether the daemon has answered.
pub fn health(loaded: Result<(), String>) -> (reply: HttpReply)
    ensures
        match loaded {
            Ok(_) => is_reply(
                reply,
                200,
                JsonView::Object(
                    no_entries().push(("status"@, JsonView::Text("ok"@))).push(
                        ("daemon"@, JsonView::Text("ready"@)),
                    ),
                ),
            ),
            Err(error) => is_reply(
                reply,
                SERVICE_UNAVAILABLE,
                JsonView::Object(
                    no_entries().push(("status"@, JsonView::Text("error"@))).push(
                        ("error"@, JsonView::Text(error@)),
                    ),
                ),
            ),
        },
{
    match loaded {
        Ok(_) => HttpReply {
            status: 200,
            body: Entries::new().with_text("status", "ok").with_text("daemon", "ready").object(),
        },
        Err(error) => HttpReply {
            status: SERVICE_UNAVAILABLE,
            body: Entries::new().with_text("status", "error").with_text(
                "error",
                error.as_str(),
            ).object(),
        },
    }
}

/// A message of a request.
#[derive(Debug, PartialEq, Eq)]
pub struct OpenAiMessage {
    pub role: String,
    pub content: Json,
}

/// A request for an answer.
#[derive(Debug, PartialEq, Eq)]
pub struct ChatCompletionRequest {
    pub model: Option<String>,
    pub messages: Vec<OpenAiMessage>,
    pub stream: bool,
}

/// The texts among the parts of a message.
pub open spec fn part_texts(parts: Seq<JsonView>) -> Seq<Seq<char>>
    decreases parts.len(),
{
    if parts.len() == 0 {
        Seq::empty()
    } else {
        let front = part_texts(parts.drop_last());
        let part = parts.last();
        if part.field("type"@) == JsonView::Text("text"@) {
            match part.field("text"@).text() {
                Some(text) => front.push(text),
                None => front,
            }
        } else {
            front
        }
    }
}

/// The text of a message.
pub open spec fn message_text(content: JsonView) -> Seq<char> {
    match content {
        JsonView::Text(text) => text,
        JsonView::List(parts) => join_with(part_texts(parts), "\n"@),
        _ => Seq::empty(),
    }
}

/// The last message of the user that says something.
pub open spec fn latest_prompt(messages: Seq<OpenAiMessage>) -> Option<Seq<char>>
    decreases messages.len(),
{
    if messages.len() == 0 {
        None
    } else {
        let last = messages.last();
        let text = message_text(last.content@);
        if last.role@ == "user"@ && !is_blank_text(text) {
            Some(text)
        } else {
            latest_prompt(messages.drop_last())
        }
    }
}

fn is_text_part(part: &Json) -> (out: bool)
    ensures
        out == (part@.field("type"@) == JsonView::Text("text"@)),
{
    match part.get("type") {
        Some(value) => match value.as_text() {
            Some(text) => same_text(text, "text"),
            None => false,
        },
        None => false,
    }
}

fn content_text(content: &Json) -> (text: String)
    ensures
        text@ == message_text(content@),
{
    match content {
        Json::Text(text) => text.clone(),
        Json::List(parts) => {
            let mut list: Vec<String> = Vec::new();
            let mut at: usize = 0;
            proof {
                lemma_json_views(parts@);
            }
            let ghost all = json_views(parts@);
            assert(texts(list@) =~= part_texts(all.take(0)));
            while at < parts.len()
                invariant
                    at <= parts.len(),
                    all == json_views(parts@),
                    all.len() == parts@.len(),
                    forall|i: int| 0 <= i < parts@.len() ==> #[trigger] all[i] == parts@[i]@,
                    texts(list@) == part_texts(all.take(at as int)),
                decreases parts.len() - at,
            {
                let ghost before = list@;
                assert(all.take(at + 1).drop_last() =~= all.take(at as int));
                assert(all.take(at + 1).last() == parts@[at as int]@);
                if is_text_part(&parts[at]) {
                    if let Some(text) = parts[at].get_text("text") {
                        list.push(text.to_owned());
                        assert(texts(list@) =~= texts(before).push(text@));
                    }
                }
                at += 1;
            }
            assert(all.take(at as int) =~= all);
            join(&list, "\n")
        },
        _ => {
            let none = String::new();
            assert(none@ =~= Seq::empty());
            none
        },
    }
}

/// The last message of the user that says something.
pub fn extract_latest_user_prompt(messages: &Vec<OpenAiMessage>) -> (prompt: Option<String>)
    ensures
        match prompt {
            Some(text) => latest_prompt(messages@) == Some(text@),
            None => latest_prompt(messages@) is None,
        },
{
    let mut end = messages.len();
    assert(messages@.take(end as int) =~= messages@);
    while end > 0
        invariant
            end <= messages.len(),
            latest_prompt(messages@.take(end as int)) == latest_prompt(messages@),
        decreases end,
    {
        let ghost here = messages@.take(end as int);
        assert(here.last() == messages@[end - 1]);
        assert(here.drop_last() =~= messages@.take(end - 1));
        let message = &messages[end - 1];
        if same_text(message.role.as_str(), "user") {
            let text = content_text(&message.content);
            if !is_blank(text.as_str()) {
                return Some(text);
            }
        }
        end -= 1;
    }
    None
}

/// What is taken from messages is said in the last message of the user that says
/// something: whatever follows it is not of the user, or says nothing.
pub proof fn law_latest_prompt_is_the_last_one(messages: Seq<OpenAiMessage>, prompt: Seq<char>)
    requires
        latest_prompt(messages) == Some(prompt),
    ensures
        !is_blank_text(prompt),
        exists|i: int|
            0 <= i < messages.len() && (#[trigger] messages[i]).role@ == "user"@ && message_text(
                messages[i].content@,
            ) == prompt && forall|j: int|
                i < j < messages.len() ==> (#[trigger] messages[j]).role@ != "user"@
                    || is_blank_text(message_text(messages[j].content@)),
    decreases messages.len(),
{
    let n = messages.len() - 1;
    let last = messages[n];
    if last.role@ == "user"@ && !is_blank_text(message_text(last.content@)) {
        assert(messages[n].role@ == "user"@);
    } else {
        let front = messages.drop_last();
        law_latest_prompt_is_the_last_one(front, prompt);
        let i = choose|i: int|
            0 <= i < front.len() && (#[trigger] front[i]).role@ == "user"@ && message_text(
                front[i].content@,
            ) == prompt && forall|j: int|
                i < j < front.len() ==> (#[trigger] front[j]).role@ != "user"@ || is_blank_text(
                    message_text(front[j].content@),
                );
        assert(messages[i] == front[i]);
        assert forall|j: int| i < j < messages.len() implies (#[trigger] messages[j]).role@
            != "user"@ || is_blank_text(message_text(messages[j].content@)) by {
            if j < n {
                assert(front[j] == messages[j]);
            }
        }
    }
}

/// Whether a request for an answer is taken up, and if not, what is answered: the token
/// has to be right, the model has to be this one, and the user has to have said something.
pub open spec fn completion_refusal(
    header: Option<Seq<char>>,
    required: Option<Seq<char>>,
    model: Seq<char>,
    request: ChatCompletionRequest,
) -> Option<(u16, Seq<char>)> {
    if !authorized(header, required) {
        Some((UNAUTHORIZED, "Bearer Token 无效或缺失"@))
    } else if request.model matches Some(requested) && requested@ != model {
        Some(
            (
                BAD_REQUEST,
                "当前 daemon 模型为 "@ + model + "，不支持请求模型 "@ + request.model->0@,
            ),
        )
    } else if latest_prompt(request.messages@) is None {
        Some((BAD_REQUEST, "messages 中缺少非空 user 消息"@))
    } else {
        None
    }
}

/// What the agent is asked by a request for an answer, or what is answered at once.
pub fn chat_completions(
    header: Option<&str>,
    required_token: Option<&str>,
    model: &str,
    request: &ChatCompletionRequest,
) -> (out: Result<String, HttpReply>)
    ensures
        match completion_refusal(opt_str(header), opt_str(required_token), model@, *request) {
            Some((status, message)) => out matches Err(reply) && is_reply(
                reply,
                status,
                error_body(message),
            ),
            None => out matches Ok(prompt) && latest_prompt(request.messages@) == Some(prompt@),
        },
{
    if !is_authorized(header, required_token) {
        return Err(api_error(UNAUTHORIZED, "Bearer Token 无效或缺失"));
    }
    if let Some(requested) = &request.model {
        if !same_text(requested.as_str(), model) {
            let mut message = "当前 daemon 模型为 ".to_owned();
            message.append(model);
            message.append("，不支持请求模型 ");
            message.append(requested.as_str());
            return Err(api_error(BAD_REQUEST, message.as_str()));
        }
    }
    match extract_latest_user_prompt(&request.messages) {
        Some(prompt) => Ok(prompt),
        None => Err(api_error(BAD_REQUEST, "messages 中缺少非空 user 消息")),
    }
}

/// A request without the token that is asked for gets no answer of the agent, whatever
/// else it holds.
pub proof fn law_token_comes_first(
    header: Option<Seq<char>>,
    token: Seq<char>,
    model: Seq<char>,
    request: ChatCompletionRequest,
)
    requires
        header != Some("Bearer "@ + token),
    ensures
        completion_refusal(header, Some(token), model, request) == Some(
            (UNAUTHORIZED, "Bearer Token 无效或缺失"@),
        ),
{
    if let Some(value) = header {
        if after_prefix(value, "Bearer "@) == Some(token) {
            assert(value =~= "Bearer "@ + token);
        }
    }
}

/// The id of an answer.
pub fn completion_id(id: &RequestId) -> (text: String)
    ensures
        text@ == "chatcmpl-"@ + request_id_label_text(id@),
{
    let mut text = "chatcmpl-".to_owned();
    text.append(request_id_label(id).as_str());
    text
}

/// The head that answers and their pieces share.
pub open spec fn completion_head(
    id: Seq<char>,
    object: Seq<char>,
    created: u64,
    model: Seq<char>,
) -> Seq<(Seq<char>, JsonView)> {
    no_entries().push(("id"@, JsonView::Text(id))).push(("object"@, JsonView::Text(object))).push(
        ("created"@, JsonView::Unsigned(created)),
    ).push(("model"@, JsonView::Text(model)))
}

/// An answer with one choice.
pub open spec fn completion_with(
    head: Seq<(Seq<char>, JsonView)>,
    part: Seq<char>,
    value: JsonView,
    finish_reason: JsonView,
) -> JsonView {
    JsonView::Object(
        head.push(
            (
                "choices"@,
                JsonView::List(
                    seq![
                        JsonView::Object(
                            no_entries().push(("index"@, JsonView::Unsigned(0))).push(
                                (part, value),
                            ).push(("finish_reason"@, finish_reason)),
                        ),
                    ],
                ),
            ),
        ),
    )
}

fn head_entries(id: &str, object: &str, created: u64, model: &str) -> (entries: Entries)
    ensures
        entries@ == completion_head(id@, object@, created, model@),
{
    Entries::new().with_text("id", id).with_text("object", object).with_number(
        "created",
        created,
    ).with_text("model", model)
}

fn with_choice(head: Entries, part: &str, value: Json, finish_reason: Json) -> (out: Json)
    ensures
        out@ == completion_with(head@, part@, value@, finish_reason@),
{
    let choice = Entries::new().with_number("index", 0).with(part, value).with(
        "finish_reason",
        finish_reason,
    ).object();
    let ghost choice_view = choice@;
    let mut choices: Vec<Json> = Vec::new();
    choices.push(choice);
    proof {
        lemma_json_views(choices@);
        assert(json_views(choices@) =~= seq![choice_view]);
    }
    head.with("choices", Json::List(choices)).object()
}

/// A piece of an answer.
pub open spec fn chunk_json(
    id: Seq<char>,
    created: u64,
    model: Seq<char>,
    delta: JsonView,
    finish_reason: JsonView,
) -> JsonView {
    completion_with(
        completion_head(id, "chat.completion.chunk"@, created, model),
        "delta"@,
        delta,
        finish_reason,
    )
}

/// A piece of an answer.
pub fn completion_chunk(id: &str, created: u64, model: &str, delta: Json, finish_reason: Json) -> (
    out: Json)
    ensures
        out@ == chunk_json(id@, created, model@, delta@, finish_reason@),
{
    with_choice(
        head_entries(id, "chat.completion.chunk", created, model),
        "delta",
        delta,
        finish_reason,
    )
}

/// A whole answer, or what is answered where there is none.
pub fn completion_reply(id: &str, created: u64, model: &str, answer: Result<String, String>) -> (
    reply: HttpReply)
    ensures
        match answer {
            Ok(content) => is_reply(
                reply,
                200,
                completion_with(
                    completion_head(id@, "chat.completion"@, created, model@),
                    "message"@,
                    JsonView::Object(
                        no_entries().push(("role"@, JsonView::Text("assistant"@))).push(
                            ("content"@, JsonView::Text(content@)),
                        ),
                    ),
                    JsonView::Text("stop"@),
                ),
            ),
            Err(error) => is_reply(reply, BAD_GATEWAY, error_body(error@)),
        },
{
    match answer {
        Ok(content) => {
            let message = Entries::new().with_text("role", "assistant").with_text(
                "content",
                content.as_str(),
            ).object();
            let body = with_choice(
                head_entries(id, "chat.completion", created, model),
                "message",
                message,
                text_value("stop"),
            );
            HttpReply { status: 200, body }
        },
        Err(error) => api_error(BAD_GATEWAY, error.as_str()),
    }
}

/// The id of the approval that an event asks for.
pub open spec fn asked_approval(data: JsonView) -> Option<Seq<char>> {
    data.field("approval"@).field("id"@).text()
}

/// The id of the approval that an event asks for, which is to be refused; nobody is
/// there to ask.
pub fn deny_approval(data: &Json) -> (out: Result<String, String>)
    ensures
        match asked_approval(data@) {
            Some(id) => out matches Ok(found) && found@ == id,
            None => out matches Err(message) && message@ == "审批事件缺少 id"@,
        },
{
    match data.get("approval") {
        Some(approval) => match approval.get_text("id") {
            Some(id) => Ok(id.to_owned()),
            None => Err("审批事件缺少 id".to_owned()),
        },
        None => Err("审批事件缺少 id".to_owned()),
    }
}

/// The parameters with which an approval is refused.
pub fn denial_params(approval_id: &str) -> (params: Json)
    ensures
        params@ == JsonView::Object(
            no_entries().push(("approval_id"@, JsonView::Text(approval_id@))).push(
                ("approved"@, JsonView::Bool(false)),
            ),
        ),
{
    approval_params(approval_id, false)
}

/// What is said where an approval could not be refused.
pub open spec fn denial_failure(error: Seq<char>) -> Seq<char> {
    "自动拒绝 HTTP 审批失败: "@ + error
}

fn denial_failure_text(error: &str) -> (text: String)
    ensures
        text@ == denial_failure(error@),
{
    let mut text = "自动拒绝 HTTP 审批失败: ".to_owned();
    text.append(error);
    text
}

/// What has to be done for a frame where an answer is waited for.
#[derive(Debug, PartialEq, Eq)]
pub enum CollectStep {
    Wait,
    /// To refuse the approval with this id.
    Deny(String),
    Answer(Result<String, String>),
}

/// Whether a step is what a frame asks for; no frame means that the daemon is gone.
pub open spec fn is_collect_step(step: CollectStep, frame: Option<FrameView>) -> bool {
    match frame {
        None => step matches CollectStep::Answer(Err(message)) && message@
            == "daemon 在终态响应前断开"@,
        Some(FrameView::Event { event, data, .. }) => if event == EventKind::ApprovalRequired {
            match asked_approval(data) {
                Some(id) => step matches CollectStep::Deny(asked) && asked@ == id,
                None => step matches CollectStep::Answer(Err(message)) && message@
                    == "审批事件缺少 id"@,
            }
        } else {
            step is Wait
        },
        Some(FrameView::Response { result, error, .. }) => match error {
            Some((code, message)) => step matches CollectStep::Answer(Err(said)) && said@
                == rpc_failure(code, message),
            None => match result {
                Some(value) => match value.field("content"@).text() {
                    Some(content) => step matches CollectStep::Answer(Ok(answer)) && answer@
                        == content,
                    None => step matches CollectStep::Answer(Err(message)) && message@
                        == "daemon 响应缺少 content"@,
                },
                None => step matches CollectStep::Answer(Err(message)) && message@
                    == "daemon 响应缺少 content"@,
            },
        },
    }
}

/// The view of a frame that may be missing.
pub open spec fn frame_view(frame: Option<&ServerFrame>) -> Option<FrameView> {
    match frame {
        Some(frame) => Some(frame@),
        None => None,
    }
}

/// What has to be done for a frame where an answer is waited for.
pub fn collect_answer(frame: Option<&ServerFrame>) -> (step: CollectStep)
    ensures
        is_collect_step(step, frame_view(frame)),
{
    let frame = match frame {
        Some(frame) => frame,
        None => return CollectStep::Answer(Err("daemon 在终态响应前断开".to_owned())),
    };
    match frame {
        ServerFrame::Event(event) => {
            if event.event == EventKind::ApprovalRequired {
                match deny_approval(&event.data) {
                    Ok(id) => CollectStep::Deny(id),
                    Err(message) => CollectStep::Answer(Err(message)),
                }
            } else {
                CollectStep::Wait
            }
        },
        ServerFrame::Response(response) => match &response.error {
            Some(error) => {
                let mut message = "daemon RPC ".to_owned();
                message.append(signed_text(error.code).as_str());
                message.append(": ");
                message.append(error.message.as_str());
                CollectStep::Answer(Err(message))
            },
            None => match &response.result {
                Some(value) => match value.get_text("content") {
                    Some(content) => CollectStep::Answer(Ok(content.to_owned())),
                    None => CollectStep::Answer(Err("daemon 响应缺少 content".to_owned())),
                },
                None => CollectStep::Answer(Err("daemon 响应缺少 content".to_owned())),
            },
        },
    }
}

/// What has to be done after an approval was refused, or could not be.
pub fn collect_after_denial(denied: Result<(), String>) -> (step: CollectStep)
    ensures
        match denied {
            Ok(_) => step is Wait,
            Err(error) => step matches CollectStep::Answer(Err(message)) && message@
                == denial_failure(error@),
        },
{
    match denied {
        Ok(_) => CollectStep::Wait,
        Err(error) => CollectStep::Answer(Err(denial_failure_text(error.as_str()))),
    }
}

/// An answer that is sent in pieces.
#[derive(Debug, PartialEq, Eq)]
pub struct CompletionStream {
    pub completion_id: String,
    pub created: u64,
    pub model: String,
    /// Only the mark of the end is still to be sent.
    pub done_pending: bool,
    pub finished: bool,
}

/// What is to be done for the next piece.
#[derive(Clone, Copy, Debug, PartialEq, Eq, Structural)]
pub enum StreamPoll {
    /// Nothing more comes.
    Over,
    /// To send the mark of the end.
    Done,
    /// To read the next frame of the daemon.
    Read,
}

/// What has to be done for a frame.
#[derive(Debug, PartialEq, Eq)]
pub enum StreamStep {
    /// To read the next frame.
    Skip,
    /// To send a piece.
    Send(Json),
    /// To refuse the approval with this id, and then to go on.
    Deny(String),
}

/// A piece that tells of an error.
pub open spec fn error_chunk(message: Seq<char>) -> JsonView {
    JsonView::Object(
        no_entries().push(
            (
                "error"@,
                JsonView::Object(no_entries().push(("message"@, JsonView::Text(message)))),
            ),
        ),
    )
}

fn error_chunk_value(message: &str) -> (out: Json)
    ensures
        out@ == error_chunk(message@),
{
    let error = Entries::new().with_text("message", message).object();
    Entries::new().with("error", error).object()
}

/// A piece that tells of an error of the daemon.
pub open spec fn rpc_error_chunk(code: i64, message: Seq<char>) -> JsonView {
    JsonView::Object(
        no_entries().push(
            (
                "error"@,
                JsonView::Object(
                    no_entries().push(("code"@, signed_json(code))).push(
                        ("message"@, JsonView::Text(message)),
                    ),
                ),
            ),
        ),
    )
}

impl CompletionStream {
    /// An answer of which nothing has been sent.
    pub fn new(completion_id: String, created: u64, model: String) -> (stream: CompletionStream)
        ensures
            stream.completion_id == completion_id,
            stream.created == created,
            stream.model == model,
            !stream.done_pending,
            !stream.finished,
    {
        CompletionStream { completion_id, created, model, done_pending: false, finished: false }
    }

    /// Whether only what is said of how far it is has changed.
    pub open spec fn same_answer(&self, other: CompletionStream) -> bool {
        self.completion_id == other.completion_id && self.created == other.created && self.model
            == other.model
    }

    /// A piece of this answer.
    pub open spec fn chunk(&self, delta: JsonView, finish_reason: JsonView) -> JsonView {
        chunk_json(self.completion_id@, self.created, self.model@, delta, finish_reason)
    }

    /// What is to be done for the next piece.
    pub fn poll(&mut self) -> (out: StreamPoll)
        ensures
            final(self).same_answer(*old(self)),
            final(self).done_pending == old(self).done_pending,
            if old(self).finished {
                out == StreamPoll::Over && final(self).finished
            } else if old(self).done_pending {
                out == StreamPoll::Done && final(self).finished
            } else {
                out == StreamPoll::Read && !final(self).finished
            },
    {
        if self.finished {
            return StreamPoll::Over;
        }
        if self.done_pending {
            self.finished = true;
            return StreamPoll::Done;
        }
        StreamPoll::Read
    }

    /// Whether a step is what a frame asks for; no frame means that the daemon is gone.
    pub open spec fn is_step(&self, step: StreamStep, frame: Option<FrameView>) -> bool {
        match frame {
            None => step matches StreamStep::Send(piece) && piece@ == error_chunk(
                "daemon 在终态响应前断开"@,
            ),
            Some(FrameView::Event { event, data, .. }) => match event {
                EventKind::TextDelta => step matches StreamStep::Send(piece) && piece@
                    == self.chunk(
                    JsonView::Object(
                        no_entries().push(
                            (
                                "content"@,
                                JsonView::Text(
                                    match data.field("delta"@).text() {
                                        Some(delta) => delta,
                                        None => Seq::empty(),
                                    },
                                ),
                            ),
                        ),
                    ),
                    JsonView::Null,
                ),
                EventKind::ApprovalRequired => match asked_approval(data) {
                    Some(id) => step matches StreamStep::Deny(asked) && asked@ == id,
                    None => step matches StreamStep::Send(piece) && piece@ == error_chunk(
                        "审批事件缺少 id"@,
                    ),
                },
                _ => step is Skip,
            },
            Some(FrameView::Response { error, .. }) => step matches StreamStep::Send(piece)
                && piece@ == (match error {
                Some((code, message)) => rpc_error_chunk(code, message),
                None => self.chunk(JsonView::Object(no_entries()), JsonView::Text("stop"@)),
            }),
        }
    }

    /// Whether a frame is the last one that is sent on.
    pub open spec fn ends(frame: Option<FrameView>) -> bool {
        match frame {
            None => true,
            Some(FrameView::Event { event, data, .. }) => event == EventKind::ApprovalRequired
                && asked_approval(data) is None,
            Some(FrameView::Response { .. }) => true,
        }
    }

    /// What has to be done for a frame.
    pub fn completion_stream(&mut self, frame: Option<&ServerFrame>) -> (step: StreamStep)
        requires
            !old(self).done_pending,
        ensures
            final(self).same_answer(*old(self)),
            final(self).finished == old(self).finished,
            old(self).is_step(step, frame_view(frame)),
            final(self).done_pending == CompletionStream::ends(frame_view(frame)),
    {
        let frame = match frame {
            Some(frame) => frame,
            None => {
                self.done_pending = true;
                return StreamStep::Send(error_chunk_value("daemon 在终态响应前断开"));
            },
        };
        match frame {
            ServerFrame::Event(event) => match event.event {
                EventKind::TextDelta => {
                    proof {
                        reveal_strlit("");
                    }
                    let delta = match event.data.get_text("delta") {
                        Some(delta) => delta,
                        None => "",
                    };
                    assert(event.data@.field("delta"@).text() is None ==> delta@ =~= Seq::empty());
                    let content = Entries::new().with_text("content", delta).object();
                    StreamStep::Send(
                        completion_chunk(
                            self.completion_id.as_str(),
                            self.created,
                            self.model.as_str(),
                            content,
                            Json::Null,
                        ),
                    )
                },
                EventKind::ApprovalRequired => match deny_approval(&event.data) {
                    Ok(id) => StreamStep::Deny(id),
                    Err(message) => {
                        self.done_pending = true;
                        StreamStep::Send(error_chunk_value(message.as_str()))
                    },
                },
                _ => StreamStep::Skip,
            },
            ServerFrame::Response(response) => {
                self.done_pending = true;
                match &response.error {
                    Some(error) => {
                        let inner = Entries::new().with("code", signed_value(error.code)).with_text(
                            "message",
                            error.message.as_str(),
                        ).object();
                        StreamStep::Send(Entries::new().with("error", inner).object())
                    },
                    None => StreamStep::Send(
                        completion_chunk(
                            self.completion_id.as_str(),
                            self.created,
                            self.model.as_str(),
                            Entries::new().object(),
                            text_value("stop"),
                        ),
                    ),
                }
            },
        }
    }

    /// What has to be done after an approval was refused, or could not be.
    pub fn after_denial(&mut self, denied: Result<(), String>) -> (step: StreamStep)
        requires
            !old(self).done_pending,
        ensures
            final(self).same_answer(*old(self)),
            final(self).finished == old(self).finished,
            final(self).done_pending == (denied is Err),
            match denied {
                Ok(_) => step is Skip,
                Err(error) => step matches StreamStep::Send(piece) && piece@ == error_chunk(
                    denial_failure(error@),
                ),
            },
    {
        match denied {
            Ok(_) => StreamStep::Skip,
            Err(error) => {
                self.done_pending = true;
                StreamStep::Send(error_chunk_value(denial_failure_text(error.as_str()).as_str()))
            },
        }
    }
}

/// Nobody is there to approve anything over HTTP: the answer to an event that asks for
/// an approval is to refuse it, or to end with an error.
pub proof fn law_http_approves_nothing(
    stream: CompletionStream,
    stream_step: StreamStep,
    collect_step: CollectStep,
    frame: FrameView,
)
    requires
        frame matches FrameView::Event { event, .. } && event == EventKind::ApprovalRequired,
        stream.is_step(stream_step, Some(frame)),
        is_collect_step(collect_step, Some(frame)),
    ensures
        stream_step is Deny || (stream_step is Send && CompletionStream::ends(Some(frame))),
        collect_step is Deny || collect_step matches CollectStep::Answer(Err(_)),
{
}

/// A message of the user that says something is what is taken, word for word, whatever came
/// before it; a message of anybody else, or a blank one, changes nothing.
pub proof fn law_prompt_is_what_the_user_said_last(
    messages: Seq<OpenAiMessage>,
    message: OpenAiMessage,
)
    ensures
        latest_prompt(Seq::empty()) is None,
        message.role@ == "user"@ && message.content@ is Text && !is_blank_text(
            message.content@->Text_0,
        ) ==> latest_prompt(messages.push(message)) == Some(message.content@->Text_0),
        message.role@ == "user"@ && message.content@ is Text && is_blank_text(
            message.content@->Text_0,
        ) ==> latest_prompt(messages.push(message)) == latest_prompt(messages),
        message.role@ != "user"@ ==> latest_prompt(messages.push(message)) == latest_prompt(
            messages,
        ),
        message.role@ == "user"@ && !(message.content@ is Text) && !(message.content@ is List)
            ==> latest_prompt(messages.push(message)) == latest_prompt(messages),
{
    assert(messages.push(message).drop_last() =~= messages);
}

/// A message in parts says the texts of its parts of type `text`, a line each and in their
/// order: parts one behind the other say what each side says.
pub proof fn law_parts_say_their_texts(a: Seq<JsonView>, b: Seq<JsonView>, part: JsonView)
    ensures
        part_texts(a + b) == part_texts(a) + part_texts(b),
        part.field("type"@) == JsonView::Text("text"@) && part.field("text"@) is Text
            ==> part_texts(seq![part]) == seq![part.field("text"@)->Text_0],
        !(part.field("type"@) == JsonView::Text("text"@) && part.field("text"@) is Text)
            ==> part_texts(seq![part]) == Seq::<Seq<char>>::empty(),
        message_text(JsonView::List(a)) == join_with(part_texts(a), "\n"@),
        part.field("type"@) == JsonView::Text("text"@) && part.field("text"@) is Text
            ==> message_text(JsonView::List(seq![part])) == part.field("text"@)->Text_0,
    decreases b.len(),
{
    let one = seq![part];
    assert(one.drop_last() =~= Seq::empty());
    assert(part_texts(one.drop_last()) =~= Seq::empty());
    assert(one.last() == part);
    if part.field("type"@) == JsonView::Text("text"@) && part.field("text"@) is Text {
        assert(part_texts(one) =~= seq![part.field("text"@)->Text_0]);
    } else {
        assert(part_texts(one) =~= Seq::empty());
    }
    if b.len() == 0 {
        assert(a + b =~= a);
        assert(part_texts(a) + part_texts(b) =~= part_texts(a));
    } else {
        law_parts_say_their_texts(a, b.drop_last(), part);
        assert((a + b).drop_last() =~= a + b.drop_last());
        assert((a + b).last() == b.last());
        assert(part_texts(a + b) =~= part_texts(a) + part_texts(b));
    }
}

/// Without a token everybody may use the server; with one, exactly who sends it.
pub proof fn law_only_the_token_opens_the_server(header: Option<Seq<char>>, token: Seq<char>)
    ensures
        authorized(header, None),
        authorized(header, Some(token)) <==> header == Some("Bearer "@ + token),
{
    if let Some(value) = header {
        crate::text::law_prefix_and_rest_make_the_text(value, "Bearer "@, token);
    }
}

/// A request is served exactly where it is authorized, asks for no other model, and holds
/// something that the user said; else it is told why not.
pub proof fn law_only_wrong_requests_are_refused(
    header: Option<Seq<char>>,
    required: Option<Seq<char>>,
    model: Seq<char>,
    request: ChatCompletionRequest,
)
    ensures
        completion_refusal(header, required, model, request) is None <==> authorized(
            header,
            required,
        ) && (request.model is None || request.model->0@ == model) && exists|i: int|
            0 <= i < request.messages@.len() && (#[trigger] request.messages@[i]).role@ == "user"@
                && !is_blank_text(message_text(request.messages@[i].content@)),
        completion_refusal(header, required, model, request) matches Some((code, _)) ==> code == (
        if authorized(header, required) {
            400u16
        } else {
            401u16
        }),
{
    lemma_prompt_exists(request.messages@);
}

proof fn lemma_prompt_exists(messages: Seq<OpenAiMessage>)
    ensures
        latest_prompt(messages) is Some <==> exists|i: int|
            0 <= i < messages.len() && (#[trigger] messages[i]).role@ == "user"@ && !is_blank_text(
                message_text(messages[i].content@),
            ),
    decreases messages.len(),
{
    if messages.len() > 0 {
        let front = messages.drop_last();
        lemma_prompt_exists(front);
        if latest_prompt(front) is Some {
            let i = choose|i: int|
                0 <= i < front.len() && (#[trigger] front[i]).role@ == "user"@ && !is_blank_text(
                    message_text(front[i].content@),
                );
            assert(messages[i] == front[i]);
        }
        if exists|i: int|
            0 <= i < messages.len() && (#[trigger] messages[i]).role@ == "user"@ && !is_blank_text(
                message_text(messages[i].content@),
            ) {
            let i = choose|i: int|
                0 <= i < messages.len() && (#[trigger] messages[i]).role@ == "user"@
                    && !is_blank_text(message_text(messages[i].content@));
            if i < front.len() {
                assert(front[i] == messages[i]);
            }
        }
        assert(messages[messages.len() - 1] == messages.last());
    }
}

/// Every piece of an answer names the answer, when it was made and the model, and carries
/// its one choice with what is said and how it ends.
pub proof fn law_pieces_carry_what_is_said(
    id: Seq<char>,
    object: Seq<char>,
    created: u64,
    model: Seq<char>,
    part: Seq<char>,
    value: JsonView,
    finish_reason: JsonView,
)
    requires
        part == "delta"@ || part == "message"@,
    ensures
        ({
            let piece = completion_with(
                completion_head(id, object, created, model),
                part,
                value,
                finish_reason,
            );
            &&& piece.field("id"@) == JsonView::Text(id)
            &&& piece.field("object"@) == JsonView::Text(object)
            &&& piece.field("created"@) == JsonView::Unsigned(created)
            &&& piece.field("model"@) == JsonView::Text(model)
            &&& piece.field("choices"@) matches JsonView::List(choices) && choices.len() == 1
                && choices[0].field("index"@) == JsonView::Unsigned(0) && choices[0].field(part)
                == value && choices[0].field("finish_reason"@) == finish_reason
        }),
{
    reveal_strlit("id");
    reveal_strlit("object");
    reveal_strlit("created");
    reveal_strlit("model");
    reveal_strlit("choices");
    reveal_strlit("index");
    reveal_strlit("delta");
    reveal_strlit("message");
    reveal_strlit("finish_reason");
    assert("id"@.len() == 2 && "object"@.len() == 6 && "created"@.len() == 7 && "model"@.len() == 5
        && "choices"@.len() == 7);
    assert("created"@[1] == 'r' && "choices"@[1] == 'h');
    assert("index"@.len() == 5 && "delta"@.len() == 5 && "message"@.len() == 7
        && "finish_reason"@.len() == 13);
    assert("index"@[0] == 'i' && "delta"@[0] == 'd');
    let piece = completion_with(
        completion_head(id, object, created, model),
        part,
        value,
        finish_reason,
    );
    if let JsonView::Object(entries) = piece {
        law_objects_give_the_first_entry_of_a_key(entries, "id"@, 0);
        law_objects_give_the_first_entry_of_a_key(entries, "object"@, 1);
        law_objects_give_the_first_entry_of_a_key(entries, "created"@, 2);
        law_objects_give_the_first_entry_of_a_key(entries, "model"@, 3);
        law_objects_give_the_first_entry_of_a_key(entries, "choices"@, 4);
        if let JsonView::List(choices) = entries[4].1 {
            if let JsonView::Object(choice) = choices[0] {
                law_objects_give_the_first_entry_of_a_key(choice, "index"@, 0);
                law_objects_give_the_first_entry_of_a_key(choice, part, 1);
                law_objects_give_the_first_entry_of_a_key(choice, "finish_reason"@, 2);
            }
        }
    }
}

/// The answer is the content that the daemon ends with; an error of the daemon is the error;
/// what comes before the end is waited through.
pub proof fn law_answer_is_what_the_daemon_ends_with(step: CollectStep, frame: FrameView)
    requires
        is_collect_step(step, Some(frame)),
    ensures
        frame matches FrameView::Response { result: Some(value), error: None, .. } ==> (
        value.field("content"@) is Text ==> step is Answer && step->Answer_0 is Ok && (
        step->Answer_0->Ok_0)@ == value.field("content"@)->Text_0),
        frame matches FrameView::Response { error: Some((code, message)), .. }
            ==> step is Answer && step->Answer_0 is Err && (step->Answer_0->Err_0)@
            == rpc_failure(code, message),
        frame matches FrameView::Event { event, .. } ==> (event != EventKind::ApprovalRequired
            ==> step is Wait),
        frame matches FrameView::Event { event, data, .. } ==> (event
            == EventKind::ApprovalRequired && data.field("approval"@).field("id"@) is Text
            ==> step is Deny && (step->Deny_0)@ == data.field("approval"@).field("id"@)->Text_0),
{
}

/// A stream sends every piece of text on as it comes, and at the end that it has stopped.
pub proof fn law_stream_sends_every_piece_of_text(
    stream: CompletionStream,
    step: StreamStep,
    frame: FrameView,
)
    requires
        stream.is_step(step, Some(frame)),
    ensures
        frame matches FrameView::Event { event, data, .. } ==> (event == EventKind::TextDelta
            && data.field("delta"@) is Text ==> step is Send && ((
        step->Send_0)@.field("choices"@) matches JsonView::List(choices) && choices.len() == 1
            && choices[0].field("delta"@).field("content"@) == data.field("delta"@)
            && choices[0].field("finish_reason"@) == JsonView::Null)),
        frame matches FrameView::Event { event, .. } ==> (event != EventKind::TextDelta && event
            != EventKind::ApprovalRequired ==> step is Skip),
        frame matches FrameView::Response { error: None, .. } ==> step is Send && ((
        step->Send_0)@.field("choices"@) matches JsonView::List(choices) && choices.len() == 1
            && choices[0].field("finish_reason"@) == JsonView::Text("stop"@)),
        frame matches FrameView::Response { error: Some((_, message)), .. } ==> step is Send && (
        step->Send_0)@.field("error"@).field("message"@) == JsonView::Text(message),
        CompletionStream::ends(Some(frame)) <==> frame is Response || (
        frame matches FrameView::Event { event, data, .. } && event == EventKind::ApprovalRequired
            && !(data.field("approval"@).field("id"@) is Text)),
{
    let head = completion_head(
        stream.completion_id@,
        "chat.completion.chunk"@,
        stream.created,
        stream.model@,
    );
    match frame {
        FrameView::Event { event, data, .. } => {
            if event == EventKind::TextDelta && data.field("delta"@) is Text {
                let said = no_entries().push(
                    ("content"@, JsonView::Text(data.field("delta"@)->Text_0)),
                );
                law_objects_give_the_first_entry_of_a_key(said, "content"@, 0);
                law_pieces_carry_what_is_said(
                    stream.completion_id@,
                    "chat.completion.chunk"@,
                    stream.created,
                    stream.model@,
                    "delta"@,
                    JsonView::Object(said),
                    JsonView::Null,
                );
            }
        },
        FrameView::Response { error, .. } => match error {
            Some((code, message)) => {
                reveal_strlit("code");
                reveal_strlit("message");
                assert("code"@.len() != "message"@.len());
                let inner = no_entries().push(("code"@, signed_json(code))).push(
                    ("message"@, JsonView::Text(message)),
                );
                law_objects_give_the_first_entry_of_a_key(inner, "message"@, 1);
                let outer = no_entries().push(("error"@, JsonView::Object(inner)));
                law_objects_give_the_first_entry_of_a_key(outer, "error"@, 0);
            },
            None => {
                law_pieces_carry_what_is_said(
                    stream.completion_id@,
                    "chat.completion.chunk"@,
                    stream.created,
                    stream.model@,
                    "delta"@,
                    JsonView::Object(no_entries()),
                    JsonView::Text("stop"@),
                );
            },
        },
    }
}

/// An error is told under its message.
pub proof fn law_errors_are_told_in_words(message: Seq<char>)
    ensures
        error_body(message).field("error"@).field("message"@) == JsonView::Text(message),
        error_chunk(message).field("error"@).field("message"@) == JsonView::Text(message),
{
    let inner = no_entries().push(("message"@, JsonView::Text(message)));
    law_objects_give_the_first_entry_of_a_key(inner, "message"@, 0);
    let outer = no_entries().push(("error"@, JsonView::Object(inner)));
    law_objects_give_the_first_entry_of_a_key(outer, "error"@, 0);
    let typed = inner.push(("type"@, JsonView::Text("my_agent_error"@)));
    law_objects_give_the_first_entry_of_a_key(typed, "message"@, 0);
    let body = no_entries().push(("error"@, JsonView::Object(typed)));
    law_objects_give_the_first_entry_of_a_key(body, "error"@, 0);
}

/// What the user said last is taken as the prompt, as it was said.
pub proof fn law_prompt_is_taken_from_the_last_user_message(
    messages: &Vec<OpenAiMessage>,
    prompt: Option<String>,
    i: int,
    text: Seq<char>,
)
    requires
        call_ensures(extract_latest_user_prompt, (messages,), prompt),
        0 <= i < messages@.len(),
        messages@[i].role@ == "user"@,
        messages@[i].content@ == JsonView::Text(text),
        !is_blank_text(text),
        forall|j: int| i < j < messages@.len() ==> (#[trigger] messages@[j]).role@ != "user"@,
    ensures
        prompt is Some && (prompt->0)@ == text,
{
    lemma_prompt_is(messages@, i, text);
}

proof fn lemma_prompt_is(messages: Seq<OpenAiMessage>, i: int, text: Seq<char>)
    requires
        0 <= i < messages.len(),
        messages[i].role@ == "user"@,
        messages[i].content@ == JsonView::Text(text),
        !is_blank_text(text),
        forall|j: int| i < j < messages.len() ==> (#[trigger] messages[j]).role@ != "user"@,
    ensures
        latest_prompt(messages) == Some(text),
    decreases messages.len(),
{
    let front = messages.drop_last();
    let last = messages.last();
    assert(front.push(last) =~= messages);
    law_prompt_is_what_the_user_said_last(front, last);
    if i < front.len() {
        assert(messages[messages.len() - 1].role@ != "user"@);
        assert forall|j: int| i < j < front.len() implies (#[trigger] front[j]).role@
            != "user"@ by {
            assert(messages[j].role@ != "user"@);
        }
        lemma_prompt_is(front, i, text);
    }
}

/// An answer that came is sent whole; one that did not is an error of the gateway.
pub proof fn law_answer_is_sent_whole(
    id: &str,
    created: u64,
    model: &str,
    answer: Result<String, String>,
    reply: HttpReply,
)
    requires
        call_ensures(completion_reply, (id, created, model, answer), reply),
    ensures
        answer matches Ok(content) ==> reply.status == 200 && (reply.body@.field(
            "choices"@,
        ) matches JsonView::List(choices) && choices.len() == 1 && choices[0].field(
            "message"@,
        ).field("content"@) == JsonView::Text(content@) && choices[0].field(
            "finish_reason"@,
        ) == JsonView::Text("stop"@)),
        answer matches Err(error) ==> reply.status == 502 && reply.body@.field("error"@).field(
            "message"@,
        ) == JsonView::Text(error@),
{
    match answer {
        Ok(content) => {
            reveal_strlit("role");
            reveal_strlit("content");
            assert("role"@.len() != "content"@.len());
            let said = no_entries().push(("role"@, JsonView::Text("assistant"@))).push(
                ("content"@, JsonView::Text(content@)),
            );
            law_objects_give_the_first_entry_of_a_key(said, "content"@, 1);
            law_pieces_carry_what_is_said(
                id@,
                "chat.completion"@,
                created,
                model@,
                "message"@,
                JsonView::Object(said),
                JsonView::Text("stop"@),
            );
        },
        Err(error) => {
            law_errors_are_told_in_words(error@);
        },
    }
}

/// The server is well exactly where the daemon answered; who has no token is not told.
pub proof fn law_health_is_that_of_the_daemon(
    loaded: Result<(), String>,
    reply: HttpReply,
    header: Option<&str>,
    required: Option<&str>,
    refusal: Option<HttpReply>,
)
    requires
        call_ensures(health, (loaded,), reply),
        call_ensures(health_refusal, (header, required), refusal),
    ensures
        loaded is Ok ==> reply.status == 200,
        loaded is Err ==> reply.status == 503,
        refusal is None <==> authorized(opt_str(header), opt_str(required)),
        refusal matches Some(refused) ==> refused.status == 401,
{
}

/// An approval that was refused is passed over; one that could not be refused ends the
/// answer with the error. The answer stays the one that it is.
pub proof fn law_failed_denials_end_the_answer(
    stream: &mut CompletionStream,
    denied: Result<(), String>,
    step: StreamStep,
)
    requires
        call_ensures(CompletionStream::after_denial, (stream, denied), step),
    ensures
        denied is Ok <==> step is Skip,
        final(stream).done_pending <==> denied is Err,
        denied matches Err(error) ==> (step matches StreamStep::Send(piece) && piece@.field(
            "error"@,
        ).field("message"@) == JsonView::Text("自动拒绝 HTTP 审批失败: "@ + error@)),
        final(stream).completion_id == old(stream).completion_id,
        final(stream).created == old(stream).created,
        final(stream).model == old(stream).model,
{
    if denied is Err {
        let message = "自动拒绝 HTTP 审批失败: "@ + denied->Err_0@;
        let inner = no_entries().push(("message"@, JsonView::Text(message)));
        law_objects_give_the_first_entry_of_a_key(inner, "message"@, 0);
        law_objects_give_the_first_entry_of_a_key(
            no_entries().push(("error"@, JsonView::Object(inner))),
            "error"@,
            0,
        );
    }
}

} // verus!

//! What the daemon does with each request.
use vstd::prelude::*;

use super::protocol::{
    failure_frame, frame_request, frame_views, outcome_view, request_id_json, send_result, success_frame,
    EventKind, FrameView, JsonRpcResponse, RequestId, RequestIdView, ServerFrame,
};
use super::{
    holds_text, lemma_without_published, update_views, without_key, ActiveKey, ActiveRequestUpdate,
    ActiveView, DaemonState, DaemonView, KeyView, Rendered, UpdateView,
};
use crate::json::{
    entry, json_views, law_object_has_the_keys_of_its_entries,
    law_objects_give_the_first_entry_of_a_key, lemma_json_views, no_entries, optional_text, optional_text_value, Entries, Json,
    JsonView,
};
use crate::number::{decimal, decimal_text};
use crate::order::{ranked, stable_sort};
use crate::session::{info_views, lemma_ranked_infos, SessionInfo, SessionInfoView, SessionStatus};
use crate::text::{
    contains, contains_text, is_blank, is_blank_text, opt_str, opt_text, same_text, texts,
};

verus! {

/// The code of an answer to a request whose parameters are wrong.
pub const INVALID_PARAMS: i64 = -32602;

/// The code of an answer to a request for a method that there is not.
pub const METHOD_NOT_FOUND: i64 = -32601;

/// The code of an answer to a request that failed inside the daemon.
pub const INTERNAL_ERROR: i64 = -32603;

/// The code of an answer to a request that was cancelled.
pub const REQUEST_CANCELLED: i64 = -32800;

/// The code of an answer to a request whose id is running already.
pub const REQUEST_CONFLICT: i64 = -32001;

/// The parameters of `chat.send`.
#[derive(Clone, Debug, PartialEq, Eq)]
pub struct ChatSendParams {
    pub message: String,
    pub session_id: Option<String>,
}

/// The parameters of `approval.respond`.
#[derive(Clone, Debug, PartialEq, Eq)]
pub struct ApprovalRespondParams {
    pub approval_id: String,
    pub approved: bool,
}

/// The parameters of `agent.cancel` and of `agent.subscribe`.
#[derive(Clone, Debug, PartialEq, Eq)]
pub struct CancelParams {
    pub request_id: RequestId,
    pub session_id: Option<String>,
}

/// The parameters of `session.resume` and of `session.trace`.
#[derive(Clone, Debug, PartialEq, Eq)]
pub struct SessionResumeParams {
    pub session_id: String,
}

/// The parameters of `session.load`.
#[derive(Clone, Debug, PartialEq, Eq)]
pub struct SessionSelectorParams {
    pub session_id: Option<String>,
}

/// The parameters of `slash.execute`.
#[derive(Clone, Debug, PartialEq, Eq)]
pub struct SlashExecuteParams {
    pub line: String,
    pub session_id: Option<String>,
}

/// A method that a request may ask for.
#[derive(Clone, Copy, Debug, PartialEq, Eq, Structural)]
pub enum Method {
    ChatSend,
    SessionLoad,
    SessionList,
    SessionNew,
    SessionResume,
    SessionTrace,
    ApprovalRespond,
    AgentCancel,
    AgentSubscribe,
    SlashExecute,
    DaemonStop,
}

/// The method with a name.
pub open spec fn method_named(name: Seq<char>) -> Option<Method> {
    if name == "chat.send"@ {
        Some(Method::ChatSend)
    } else if name == "session.load"@ {
        Some(Method::SessionLoad)
    } else if name == "session.list"@ {
        Some(Method::SessionList)
    } else if name == "session.new"@ {
        Some(Method::SessionNew)
    } else if name == "session.resume"@ {
        Some(Method::SessionResume)
    } else if name == "session.trace"@ {
        Some(Method::SessionTrace)
    } else if name == "approval.respond"@ {
        Some(Method::ApprovalRespond)
    } else if name == "agent.cancel"@ {
        Some(Method::AgentCancel)
    } else if name == "agent.subscribe"@ {
        Some(Method::AgentSubscribe)
    } else if name == "slash.execute"@ {
        Some(Method::SlashExecute)
    } else if name == "daemon.stop"@ {
        Some(Method::DaemonStop)
    } else {
        None
    }
}

impl Method {
    /// The method with a name.
    pub fn named(name: &str) -> (method: Option<Method>)
        ensures
            method == method_named(name@),
    {
        if same_text(name, "chat.send") {
            Some(Method::ChatSend)
        } else if same_text(name, "session.load") {
            Some(Method::SessionLoad)
        } else if same_text(name, "session.list") {
            Some(Method::SessionList)
        } else if same_text(name, "session.new") {
            Some(Method::SessionNew)
        } else if same_text(name, "session.resume") {
            Some(Method::SessionResume)
        } else if same_text(name, "session.trace") {
            Some(Method::SessionTrace)
        } else if same_text(name, "approval.respond") {
            Some(Method::ApprovalRespond)
        } else if same_text(name, "agent.cancel") {
            Some(Method::AgentCancel)
        } else if same_text(name, "agent.subscribe") {
            Some(Method::AgentSubscribe)
        } else if same_text(name, "slash.execute") {
            Some(Method::SlashExecute)
        } else if same_text(name, "daemon.stop") {
            Some(Method::DaemonStop)
        } else {
            None
        }
    }
}

/// A request with its parameters, as far as they could be read; what is wrong
/// with them, where they could not.
#[derive(Debug)]
pub enum Call {
    ChatSend(Result<ChatSendParams, String>),
    SessionLoad(Result<SessionSelectorParams, String>),
    SessionList,
    SessionNew,
    SessionResume(Result<SessionResumeParams, String>),
    SessionTrace(Result<SessionResumeParams, String>),
    ApprovalRespond(Result<ApprovalRespondParams, String>),
    AgentCancel(Result<CancelParams, String>),
    AgentSubscribe(Result<CancelParams, String>),
    SlashExecute(Result<SlashExecuteParams, String>),
    DaemonStop,
    /// A method that there is not, by its name.
    Unknown(String),
}

/// What has to be done for a request.
#[derive(Debug)]
pub enum RequestStep {
    /// Nothing but to answer.
    Reply(ServerFrame),
    RunTurn(ChatSendParams),
    LoadSession(SessionSelectorParams),
    ListSessions,
    NewSession,
    ResumeSession(SessionResumeParams),
    TraceSession(SessionResumeParams),
    RespondToApproval(ApprovalRespondParams),
    Cancel(CancelParams),
    Subscribe(CancelParams),
    ExecuteSlash(SlashExecuteParams),
    /// To answer, and to shut down a little later.
    Stop(ServerFrame),
}

/// What is wrong with a request, where it is refused before anything is done for it.
pub open spec fn refusal(call: Call) -> Option<(i64, Seq<char>)> {
    match call {
        Call::ChatSend(Err(error)) => Some((INVALID_PARAMS, "参数无效: "@ + error@)),
        Call::ChatSend(Ok(params)) => if is_blank_text(params.message@) {
            Some((INVALID_PARAMS, "message 不能为空"@))
        } else {
            None
        },
        Call::SessionLoad(Err(error)) => Some((INVALID_PARAMS, "参数无效: "@ + error@)),
        Call::SessionResume(Err(error)) => Some((INVALID_PARAMS, "参数无效: "@ + error@)),
        Call::SessionTrace(Err(error)) => Some((INVALID_PARAMS, "参数无效: "@ + error@)),
        Call::ApprovalRespond(Err(error)) => Some((INVALID_PARAMS, "参数无效: "@ + error@)),
        Call::AgentCancel(Err(error)) => Some((INVALID_PARAMS, "参数无效: "@ + error@)),
        Call::AgentSubscribe(Err(error)) => Some((INVALID_PARAMS, "参数无效: "@ + error@)),
        Call::SlashExecute(Err(error)) => Some((INVALID_PARAMS, "参数无效: "@ + error@)),
        Call::Unknown(method) => Some((METHOD_NOT_FOUND, "未知 RPC 方法: "@ + method@)),
        _ => None,
    }
}

/// The answer to a request to stop.
pub open spec fn stopping() -> JsonView {
    JsonView::Object(
        seq![
            ("stopping"@, JsonView::Bool(true)),
            ("active_turns_finish_gracefully"@, JsonView::Bool(true)),
        ],
    )
}

fn reject(id: RequestId, code: i64, front: &str, detail: &str) -> (step: RequestStep)
    ensures
        step matches RequestStep::Reply(frame) && frame@ == failure_frame(
            id@,
            code,
            front@ + detail@,
        ),
{
    let mut message = front.to_owned();
    message.append(detail);
    RequestStep::Reply(send_result(id, Err((code, message))))
}

impl DaemonState {
    /// What has to be done for a request.
    pub fn handle_request(&self, id: RequestId, call: Call) -> (step: RequestStep)
        ensures
            match refusal(call) {
                Some((code, message)) => step matches RequestStep::Reply(frame) && frame@
                    == failure_frame(id@, code, message),
                None => match call {
                    Call::ChatSend(Ok(params)) => step == RequestStep::RunTurn(params),
                    Call::SessionLoad(Ok(params)) => step == RequestStep::LoadSession(params),
                    Call::SessionList => step == RequestStep::ListSessions,
                    Call::SessionNew => step == RequestStep::NewSession,
                    Call::SessionResume(Ok(params)) => step == RequestStep::ResumeSession(params),
                    Call::SessionTrace(Ok(params)) => step == RequestStep::TraceSession(params),
                    Call::ApprovalRespond(Ok(params)) => step == RequestStep::RespondToApproval(params),
                    Call::AgentCancel(Ok(params)) => step == RequestStep::Cancel(params),
                    Call::AgentSubscribe(Ok(params)) => step == RequestStep::Subscribe(params),
                    Call::SlashExecute(Ok(params)) => step == RequestStep::ExecuteSlash(params),
                    _ => step matches RequestStep::Stop(frame) && frame@ == success_frame(
                        id@,
                        stopping(),
                    ),
                },
            },
    {
        match call {
            Call::ChatSend(Ok(params)) => {
                if is_blank(params.message.as_str()) {
                    RequestStep::Reply(
                        send_result(id, Err((INVALID_PARAMS, "message 不能为空".to_owned()))),
                    )
                } else {
                    RequestStep::RunTurn(params)
                }
            },
            Call::ChatSend(Err(error)) => reject(id, INVALID_PARAMS, "参数无效: ", error.as_str()),
            Call::SessionLoad(Ok(params)) => RequestStep::LoadSession(params),
            Call::SessionLoad(Err(error)) => reject(id, INVALID_PARAMS, "参数无效: ", error.as_str()),
            Call::SessionList => RequestStep::ListSessions,
            Call::SessionNew => RequestStep::NewSession,
            Call::SessionResume(Ok(params)) => RequestStep::ResumeSession(params),
            Call::SessionResume(Err(error)) => reject(id, INVALID_PARAMS, "参数无效: ", error.as_str()),
            Call::SessionTrace(Ok(params)) => RequestStep::TraceSession(params),
            Call::SessionTrace(Err(error)) => reject(id, INVALID_PARAMS, "参数无效: ", error.as_str()),
            Call::ApprovalRespond(Ok(params)) => RequestStep::RespondToApproval(params),
            Call::ApprovalRespond(Err(error)) => reject(id, INVALID_PARAMS, "参数无效: ", error.as_str()),
            Call::AgentCancel(Ok(params)) => RequestStep::Cancel(params),
            Call::AgentCancel(Err(error)) => reject(id, INVALID_PARAMS, "参数无效: ", error.as_str()),
            Call::AgentSubscribe(Ok(params)) => RequestStep::Subscribe(params),
            Call::AgentSubscribe(Err(error)) => reject(id, INVALID_PARAMS, "参数无效: ", error.as_str()),
            Call::SlashExecute(Ok(params)) => RequestStep::ExecuteSlash(params),
            Call::SlashExecute(Err(error)) => reject(id, INVALID_PARAMS, "参数无效: ", error.as_str()),
            Call::DaemonStop => {
                let value = Entries::new().with_bool("stopping", true).with_bool(
                    "active_turns_finish_gracefully",
                    true,
                ).object();
                assert(value@->Object_0 =~= stopping()->Object_0);
                RequestStep::Stop(send_result(id, Ok(value)))
            },
            Call::Unknown(method) => reject(id, METHOD_NOT_FOUND, "未知 RPC 方法: ", method.as_str()),
        }
    }
}

/// What an approval that was answered is reported with.
pub fn approval_outcome(result: Result<(), String>) -> (out: Result<Json, (i64, String)>)
    ensures
        outcome_view(out) == (match result {
            Ok(_) => Ok(JsonView::Object(seq![("accepted"@, JsonView::Bool(true))])),
            Err(error) => Err((INVALID_PARAMS, error@)),
        }),
{
    match result {
        Ok(_) => {
            let value = Entries::new().with_bool("accepted", true).object();
            assert(value@ == JsonView::Object(seq![("accepted"@, JsonView::Bool(true))]));
            Ok(value)
        },
        Err(error) => Err((INVALID_PARAMS, error)),
    }
}

/// Why a turn failed.
#[derive(Clone, Debug, PartialEq, Eq)]
pub struct TurnError {
    /// The error itself.
    pub display: String,
    /// The error with all its causes.
    pub full: String,
}

/// What the client is told of a turn that has ended.
pub open spec fn turn_outcome(result: Result<String, TurnError>) -> Result<
    JsonView,
    (i64, Seq<char>),
> {
    match result {
        Ok(content) => Ok(JsonView::Object(seq![("content"@, JsonView::Text(content@))])),
        Err(error) => if contains_text(error.display@, "请求已取消"@) {
            Err((REQUEST_CANCELLED, "请求已取消"@))
        } else {
            Err((INTERNAL_ERROR, error.full@))
        },
    }
}

/// What the client is told of a turn that has ended.
pub fn chat_outcome(result: Result<String, TurnError>) -> (out: Result<Json, (i64, String)>)
    ensures
        outcome_view(out) == turn_outcome(result),
{
    match result {
        Ok(content) => {
            let value = Entries::new().with_text("content", content.as_str()).object();
            assert(value@ == JsonView::Object(seq![("content"@, JsonView::Text(content@))]));
            Ok(value)
        },
        Err(error) => {
            if contains(error.display.as_str(), "请求已取消") {
                Err((REQUEST_CANCELLED, "请求已取消".to_owned()))
            } else {
                Err((INTERNAL_ERROR, error.full))
            }
        },
    }
}

/// Something that the engine reports of a turn.
#[derive(Clone, Debug, PartialEq, Eq)]
pub enum AgentEvent {
    TurnStarted,
    TextDelta(String),
    ToolStarted { call_id: String, name: String, round: u64 },
    ToolFinished {
        call_id: String,
        name: String,
        output: String,
        round: u64,
        duration_ms: u64,
        success: bool,
        error: Option<String>,
    },
    TurnCompleted { content: String },
}

/// The kind of an event that the engine reports, for the client.
pub open spec fn event_kind(event: AgentEvent) -> EventKind {
    match event {
        AgentEvent::TurnStarted => EventKind::TurnStarted,
        AgentEvent::TextDelta(_) => EventKind::TextDelta,
        AgentEvent::ToolStarted { .. } => EventKind::ToolStarted,
        AgentEvent::ToolFinished { .. } => EventKind::ToolFinished,
        AgentEvent::TurnCompleted { .. } => EventKind::TurnCompleted,
    }
}

/// What goes with an event that the engine reports, for the client.
pub open spec fn event_data(event: AgentEvent) -> JsonView {
    JsonView::Object(
        match event {
            AgentEvent::TurnStarted => no_entries(),
            AgentEvent::TextDelta(delta) => seq![("delta"@, JsonView::Text(delta@))],
            AgentEvent::ToolStarted { call_id, name, round } => seq![
                ("tool_call_id"@, JsonView::Text(call_id@)),
                ("name"@, JsonView::Text(name@)),
                ("round"@, JsonView::Unsigned(round)),
            ],
            AgentEvent::ToolFinished {
                call_id,
                name,
                output,
                round,
                duration_ms,
                success,
                error,
            } => seq![
                ("tool_call_id"@, JsonView::Text(call_id@)),
                ("name"@, JsonView::Text(name@)),
                ("output"@, JsonView::Text(output@)),
                ("round"@, JsonView::Unsigned(round)),
                ("duration_ms"@, JsonView::Unsigned(duration_ms)),
                ("success"@, JsonView::Bool(success)),
                ("error"@, optional_text(opt_text(error))),
            ],
            AgentEvent::TurnCompleted { content } => seq![("content"@, JsonView::Text(content@))],
        },
    )
}

/// The event that a client gets for one that the engine reports.
pub fn agent_event_update(event: &AgentEvent) -> (out: (EventKind, Json))
    ensures
        out.0 == event_kind(*event),
        out.1@ == event_data(*event),
{
    match event {
        AgentEvent::TurnStarted => {
            let data = Entries::new().object();
            assert(data@->Object_0 =~= event_data(*event)->Object_0);
            (EventKind::TurnStarted, data)
        },
        AgentEvent::TextDelta(delta) => {
            let data = Entries::new().with_text("delta", delta.as_str()).object();
            assert(data@->Object_0 =~= event_data(*event)->Object_0);
            (EventKind::TextDelta, data)
        },
        AgentEvent::ToolStarted { call_id, name, round } => {
            let data = Entries::new().with_text("tool_call_id", call_id.as_str()).with_text(
                "name",
                name.as_str(),
            ).with_number("round", *round).object();
            assert(data@->Object_0 =~= event_data(*event)->Object_0);
            (EventKind::ToolStarted, data)
        },
        AgentEvent::ToolFinished { call_id, name, output, round, duration_ms, success, error } => {
            let data = Entries::new().with_text("tool_call_id", call_id.as_str()).with_text(
                "name",
                name.as_str(),
            ).with_text("output", output.as_str()).with_number("round", *round).with_number(
                "duration_ms",
                *duration_ms,
            ).with_bool("success", *success).with("error", optional_text_value(error)).object();
            assert(data@->Object_0 =~= event_data(*event)->Object_0);
            (EventKind::ToolFinished, data)
        },
        AgentEvent::TurnCompleted { content } => {
            let data = Entries::new().with_text("content", content.as_str()).object();
            assert(data@->Object_0 =~= event_data(*event)->Object_0);
            (EventKind::TurnCompleted, data)
        },
    }
}

/// The id of the approval that an update asks for.
pub open spec fn asked_approval(update: UpdateView) -> Option<Seq<char>> {
    match update {
        UpdateView::Event { kind, data, text } => if kind == EventKind::ApprovalRequired {
            data.field("approval"@).field("id"@).text()
        } else {
            None
        },
        _ => None,
    }
}

/// Whether an update asks for an approval that has been answered since.
pub open spec fn is_resolved(update: UpdateView, pending: Seq<Seq<char>>) -> bool {
    asked_approval(update) is Some && !pending.contains(asked_approval(update)->0)
}

/// Whether an update asks for an approval that has been answered since.
pub fn is_resolved_approval(update: &ActiveRequestUpdate, pending_ids: &Vec<String>) -> (resolved: bool)
    ensures
        resolved == is_resolved(update@, texts(pending_ids@)),
{
    match update {
        ActiveRequestUpdate::Event { kind, data } => {
            if *kind != EventKind::ApprovalRequired {
                return false;
            }
            match data.value.get("approval") {
                Some(approval) => match approval.get_text("id") {
                    Some(id) => !holds_text(pending_ids, id),
                    None => false,
                },
                None => false,
            }
        },
        ActiveRequestUpdate::Terminal(_) => false,
    }
}

/// The updates that a late subscriber is sent of those that were kept: all that
/// are not settled, up to and with the one after which nothing more comes.
pub open spec fn replayed(updates: Seq<UpdateView>, pending: Seq<Seq<char>>) -> Seq<UpdateView>
    decreases updates.len(),
{
    if updates.len() == 0 {
        Seq::empty()
    } else if is_resolved(updates[0], pending) {
        replayed(updates.skip(1), pending)
    } else if updates[0].is_terminal() {
        seq![updates[0]]
    } else {
        seq![updates[0]] + replayed(updates.skip(1), pending)
    }
}

/// Whether nothing more comes after some updates that were kept.
pub open spec fn ends(updates: Seq<UpdateView>) -> bool {
    exists|i: int| 0 <= i < updates.len() && (#[trigger] updates[i]).is_terminal()
}

/// The frames of some updates under a request id.
pub open spec fn frames_of(updates: Seq<UpdateView>, id: RequestIdView) -> Seq<FrameView> {
    Seq::new(updates.len(), |i: int| updates[i].frame(id))
}

/// The frames that a late subscriber is sent of the updates that were kept, and
/// whether nothing more comes after them.
pub fn replay_frames(
    replay: &Vec<ActiveRequestUpdate>,
    pending_ids: &Vec<String>,
    id: &RequestId,
) -> (out: (Vec<ServerFrame>, bool))
    ensures
        frame_views(out.0@) == frames_of(
            replayed(update_views(replay@), texts(pending_ids@)),
            id@,
        ),
        out.1 == ends(update_views(replay@)),
{
    let ghost all = update_views(replay@);
    let ghost pending = texts(pending_ids@);
    let mut frames: Vec<ServerFrame> = Vec::new();
    let mut at: usize = 0;
    assert(all.skip(0) =~= all);
    assert(frame_views(frames@) + frames_of(replayed(all, pending), id@) =~= frames_of(
        replayed(all, pending),
        id@,
    ));
    while at < replay.len()
        invariant
            at <= replay.len(),
            all == update_views(replay@),
            pending == texts(pending_ids@),
            frame_views(frames@) + frames_of(replayed(all.skip(at as int), pending), id@)
                == frames_of(replayed(all, pending), id@),
            forall|i: int| 0 <= i < at ==> !(#[trigger] all[i]).is_terminal(),
        decreases replay.len() - at,
    {
        let update = &replay[at];
        let ghost rest = all.skip(at as int);
        let ghost before = frames@;
        assert(rest[0] == update@);
        assert(rest.skip(1) =~= all.skip(at + 1));
        assert(all[at as int] == update@);
        if is_resolved_approval(update, pending_ids) {
            assert(!update@.is_terminal());
        } else {
            let frame = update.to_frame(id.copy());
            frames.push(frame);
            assert(frame_views(frames@) =~= frame_views(before).push(update@.frame(id@)));
            if update.is_terminal() {
                proof {
                    assert(frames_of(replayed(rest, pending), id@) =~= seq![update@.frame(id@)]);
                    assert(frame_views(frames@) =~= frame_views(before) + seq![update@.frame(id@)]);
                }
                return (frames, true);
            }
            proof {
                assert(frames_of(replayed(rest, pending), id@) =~= seq![update@.frame(id@)]
                    + frames_of(replayed(rest.skip(1), pending), id@));
                assert(frame_views(frames@) + frames_of(replayed(rest.skip(1), pending), id@)
                    =~= frame_views(before) + frames_of(replayed(rest, pending), id@));
            }
        }
        at += 1;
    }
    assert(frames_of(replayed(all.skip(at as int), pending), id@) =~= Seq::empty());
    assert(frame_views(frames@) + Seq::empty() =~= frame_views(frames@));
    (frames, false)
}

/// An approval that is still pending is never kept from a late subscriber, and
/// neither is anything that asks for no approval; one that was answered is not
/// asked for again.
pub proof fn law_late_subscribers_see_pending_approvals(
    updates: Seq<UpdateView>,
    pending: Seq<Seq<char>>,
    update: UpdateView,
)
    requires
        updates.contains(update),
        !ends(updates),
    ensures
        replayed(updates, pending).contains(update) <==> !is_resolved(update, pending),
    decreases updates.len(),
{
    let rest = updates.skip(1);
    let out = replayed(updates, pending);
    assert(!updates[0].is_terminal());
    assert(!ends(rest)) by {
        if ends(rest) {
            let i = choose|i: int| 0 <= i < rest.len() && (#[trigger] rest[i]).is_terminal();
            assert(updates[i + 1].is_terminal());
        }
    }
    if rest.contains(update) {
        law_late_subscribers_see_pending_approvals(rest, pending, update);
        let tail = replayed(rest, pending);
        if tail.contains(update) {
            let i = choose|i: int| 0 <= i < tail.len() && tail[i] == update;
            if !is_resolved(updates[0], pending) {
                assert(out[i + 1] == update);
            } else {
                assert(out[i] == update);
            }
        } else if out.contains(update) {
            let i = choose|i: int| 0 <= i < out.len() && out[i] == update;
            if !is_resolved(updates[0], pending) && i > 0 {
                assert(tail[i - 1] == update);
            }
        }
    } else {
        let i = choose|i: int| 0 <= i < updates.len() && updates[i] == update;
        if i > 0 {
            assert(rest[i - 1] == update);
        }
        assert(updates[0] == update);
        if is_resolved(update, pending) {
            lemma_replayed_holds_no_resolved(rest, pending, update);
        } else {
            assert(out[0] == update);
        }
    }
}

proof fn lemma_replayed_holds_no_resolved(
    updates: Seq<UpdateView>,
    pending: Seq<Seq<char>>,
    update: UpdateView,
)
    requires
        is_resolved(update, pending),
    ensures
        !replayed(updates, pending).contains(update),
    decreases updates.len(),
{
    if updates.len() > 0 {
        let rest = updates.skip(1);
        lemma_replayed_holds_no_resolved(rest, pending, update);
        let out = replayed(updates, pending);
        if out.contains(update) {
            let i = choose|i: int| 0 <= i < out.len() && out[i] == update;
            if i > 0 && !updates[0].is_terminal() && !is_resolved(updates[0], pending) {
                assert(replayed(rest, pending)[i - 1] == update);
            }
        }
    }
}

/// Every frame that a subscriber is sent carries the id of the subscription itself, so
/// that it reaches the one who subscribed and no other; at most the last one is an answer.
pub proof fn law_subscribers_are_addressed_by_their_own_id(
    updates: Seq<UpdateView>,
    pending: Seq<Seq<char>>,
    id: RequestIdView,
    i: int,
)
    requires
        0 <= i < frames_of(replayed(updates, pending), id).len(),
    ensures
        frame_request(frames_of(replayed(updates, pending), id)[i]) == id,
        frames_of(replayed(updates, pending), id)[i] is Response ==> i == frames_of(
            replayed(updates, pending),
            id,
        ).len() - 1,
    decreases updates.len(),
{
    let rest = updates.skip(1);
    if is_resolved(updates[0], pending) {
        law_subscribers_are_addressed_by_their_own_id(rest, pending, id, i);
    } else if !updates[0].is_terminal() && i > 0 {
        law_subscribers_are_addressed_by_their_own_id(rest, pending, id, i - 1);
    }
}

/// What comes from a request that is subscribed to.
#[derive(Debug)]
pub enum LiveEvent {
    /// The request reports something.
    Update(ActiveRequestUpdate),
    /// The request is over.
    Closed,
    /// So many updates came too fast and are lost.
    Lagged(u64),
}

/// The answer that a request is not, or no longer, subscribed to.
pub open spec fn not_subscribed(request_id: RequestIdView, reason: Seq<char>) -> JsonView {
    JsonView::Object(
        seq![
            ("subscribed"@, JsonView::Bool(false)),
            ("request_id"@, request_id_json(request_id)),
            ("reason"@, JsonView::Text(reason)),
        ],
    )
}

fn not_subscribed_value(request_id: &RequestId, reason: &str) -> (value: Json)
    ensures
        value@ == not_subscribed(request_id@, reason@),
{
    let value = Entries::new().with_bool("subscribed", false).with(
        "request_id",
        request_id.json(),
    ).with_text("reason", reason).object();
    assert(value@->Object_0 =~= not_subscribed(request_id@, reason@)->Object_0);
    value
}

/// The frame that a subscriber is sent for what comes from the request.
pub open spec fn live_frame(id: RequestIdView, request_id: RequestIdView, event: LiveEvent) -> FrameView {
    match event {
        LiveEvent::Update(update) => update@.frame(id),
        LiveEvent::Closed => success_frame(id, not_subscribed(request_id, "请求已结束"@)),
        LiveEvent::Lagged(skipped) => failure_frame(
            id,
            INTERNAL_ERROR,
            "订阅落后 "@ + decimal(skipped as nat) + " 个事件，请重新连接恢复"@,
        ),
    }
}

/// The frame that a subscriber is sent for what comes from the request, and
/// whether the subscription ends with it.
pub fn subscription_step(id: &RequestId, request_id: &RequestId, event: &LiveEvent) -> (out: (
    ServerFrame,
    bool,
))
    ensures
        out.0@ == live_frame(id@, request_id@, *event),
        out.1 == (event matches LiveEvent::Update(update) ==> update@.is_terminal()),
{
    match event {
        LiveEvent::Update(update) => (update.to_frame(id.copy()), update.is_terminal()),
        LiveEvent::Closed => {
            let value = not_subscribed_value(request_id, "请求已结束");
            (send_result(id.copy(), Ok(value)), true)
        },
        LiveEvent::Lagged(skipped) => {
            let mut message = "订阅落后 ".to_owned();
            message.append(decimal_text(*skipped as u128).as_str());
            message.append(" 个事件，请重新连接恢复");
            (send_result(id.copy(), Err((INTERNAL_ERROR, message))), true)
        },
    }
}

/// Whether a running request is one that a client means: its id is the one given,
/// and its session too, where one is given.
pub open spec fn is_meant(
    key: KeyView,
    request_id: RequestIdView,
    session_id: Option<Seq<char>>,
) -> bool {
    key.request_id == request_id && (session_id matches Some(id) ==> key.session_id == id)
}

/// The first of the running requests that a client may mean.
pub open spec fn meant_at(
    active: Seq<ActiveView>,
    request_id: RequestIdView,
    session_id: Option<Seq<char>>,
    from: int,
) -> Option<int>
    decreases active.len() - from,
{
    if from >= active.len() {
        None
    } else if is_meant(active[from].key, request_id, session_id) {
        Some(from)
    } else {
        meant_at(active, request_id, session_id, from + 1)
    }
}

/// What a client is told that cancels a request.
pub open spec fn cancel_reply(found: bool) -> JsonView {
    if found {
        JsonView::Object(seq![("cancelled"@, JsonView::Bool(true))])
    } else {
        JsonView::Object(
            seq![("cancelled"@, JsonView::Bool(false)), ("reason"@, JsonView::Text("请求未在执行"@))],
        )
    }
}

/// What a session is doing, by whether an approval is pending in it and how many
/// of its requests are running.
pub open spec fn status_of(pending: bool, running: nat) -> SessionStatus {
    if pending {
        SessionStatus::Waiting
    } else if running > 0 {
        SessionStatus::Running
    } else {
        SessionStatus::Idle
    }
}

/// What a session is doing, in words.
pub open spec fn status_word(status: SessionStatus) -> Seq<char> {
    match status {
        SessionStatus::Idle => "idle"@,
        SessionStatus::Running => "running"@,
        SessionStatus::Waiting => "waiting"@,
    }
}

/// How many of some running requests belong to a session.
pub open spec fn running_in(active: Seq<ActiveView>, session_id: Seq<char>) -> nat
    decreases active.len(),
{
    if active.len() == 0 {
        0
    } else {
        running_in(active.drop_last(), session_id) + (if active.last().key.session_id == session_id {
            1nat
        } else {
            0nat
        })
    }
}

/// The ids of the running requests of a session, in the order in which they started.
pub open spec fn requests_in(active: Seq<ActiveView>, session_id: Seq<char>) -> Seq<RequestIdView>
    decreases active.len(),
{
    if active.len() == 0 {
        Seq::empty()
    } else if active.last().key.session_id == session_id {
        requests_in(active.drop_last(), session_id).push(active.last().key.request_id)
    } else {
        requests_in(active.drop_last(), session_id)
    }
}

/// An approval that somebody has to give.
#[derive(Clone, Debug, PartialEq, Eq)]
pub struct PendingApproval {
    /// The request that waits for it.
    pub request_id: RequestId,
    /// The approval as the client is shown it.
    pub value: Json,
}

/// The approvals among some that a running request waits for.
pub open spec fn awaited(
    approvals: Seq<PendingApproval>,
    requests: Seq<RequestIdView>,
) -> Seq<JsonView>
    decreases approvals.len(),
{
    if approvals.len() == 0 {
        Seq::empty()
    } else if requests.contains(approvals.last().request_id@) {
        awaited(approvals.drop_last(), requests).push(approvals.last().value@)
    } else {
        awaited(approvals.drop_last(), requests)
    }
}

/// The JSON forms of some request ids.
pub open spec fn request_id_list(ids: Seq<RequestIdView>) -> JsonView {
    JsonView::List(Seq::new(ids.len(), |i: int| request_id_json(ids[i])))
}

/// What a client is told of a session.
pub open spec fn snapshot(
    view: DaemonView,
    session_id: Seq<char>,
    messages: JsonView,
    approvals: Seq<PendingApproval>,
) -> JsonView {
    let requests = requests_in(view.active, session_id);
    let waiting = awaited(approvals, requests);
    JsonView::Object(
        seq![
            ("session_id"@, JsonView::Text(session_id)),
            ("messages"@, messages),
            ("pending_approvals"@, JsonView::List(waiting)),
            ("active_requests"@, request_id_list(requests)),
            (
                "status"@,
                JsonView::Text(status_word(status_of(waiting.len() > 0, requests.len()))),
            ),
        ],
    )
}

/// A session of the store as it is listed.
pub open spec fn listed_info(
    view: DaemonView,
    pending: Seq<Seq<char>>,
    info: SessionInfoView,
) -> SessionInfoView {
    let running = running_in(view.active, info.id);
    SessionInfoView {
        active: info.id == view.legacy_session_id,
        status: status_of(pending.contains(info.id), running),
        active_requests: running,
        updated_at: info.modified_at,
        ..info
    }
}

/// A session that nothing has been stored of yet as it is listed.
pub open spec fn fresh_info(
    view: DaemonView,
    pending: Seq<Seq<char>>,
    id: Seq<char>,
    path: Seq<char>,
) -> SessionInfoView {
    let running = running_in(view.active, id);
    SessionInfoView {
        id,
        path,
        active: id == view.legacy_session_id,
        message_count: 0,
        modified_at: None,
        preview: None,
        status: status_of(pending.contains(id), running),
        active_requests: running,
        updated_at: None,
    }
}

/// Whether a session with an id is among some.
pub open spec fn lists(infos: Seq<SessionInfoView>, id: Seq<char>) -> bool {
    exists|i: int| 0 <= i < infos.len() && (#[trigger] infos[i]).id == id
}

/// Some sessions, and those of the open ones among the first `n` that are not
/// among them.
pub open spec fn with_open(
    view: DaemonView,
    pending: Seq<Seq<char>>,
    infos: Seq<SessionInfoView>,
    paths: Seq<Seq<char>>,
    n: int,
) -> Seq<SessionInfoView>
    decreases n,
{
    if n <= 0 {
        infos
    } else {
        let front = with_open(view, pending, infos, paths, n - 1);
        if lists(front, view.sessions[n - 1]) {
            front
        } else {
            front.push(fresh_info(view, pending, view.sessions[n - 1], paths[n - 1]))
        }
    }
}

/// All sessions: those of the store, those that are open, and the one in use.
pub open spec fn all_sessions(
    view: DaemonView,
    pending: Seq<Seq<char>>,
    stored: Seq<SessionInfoView>,
    paths: Seq<Seq<char>>,
    current_path: Seq<char>,
) -> Seq<SessionInfoView> {
    let listed = Seq::new(stored.len(), |i: int| listed_info(view, pending, stored[i]));
    let open = with_open(view, pending, listed, paths, view.sessions.len() as int);
    if lists(open, view.legacy_session_id) {
        open
    } else {
        open.push(fresh_info(view, pending, view.legacy_session_id, current_path))
    }
}

fn holds_id(ids: &Vec<RequestId>, id: &RequestId) -> (found: bool)
    ensures
        found == request_id_views(ids@).contains(id@),
{
    let mut at: usize = 0;
    while at < ids.len()
        invariant
            at <= ids.len(),
            forall|i: int| 0 <= i < at ==> #[trigger] request_id_views(ids@)[i] != id@,
        decreases ids.len() - at,
    {
        if ids[at].same(id) {
            assert(request_id_views(ids@)[at as int] == id@);
            return true;
        }
        at += 1;
    }
    false
}

/// The views of some request ids.
pub open spec fn request_id_views(ids: Seq<RequestId>) -> Seq<RequestIdView> {
    Seq::new(ids.len(), |i: int| ids[i]@)
}

fn decide_status(pending: bool, running: usize) -> (status: SessionStatus)
    ensures
        status == status_of(pending, running as nat),
{
    if pending {
        SessionStatus::Waiting
    } else if running > 0 {
        SessionStatus::Running
    } else {
        SessionStatus::Idle
    }
}

fn lists_id(infos: &Vec<SessionInfo>, id: &str) -> (found: bool)
    ensures
        found == lists(info_views(infos@), id@),
{
    let mut at: usize = 0;
    while at < infos.len()
        invariant
            at <= infos.len(),
            forall|i: int| 0 <= i < at ==> (#[trigger] info_views(infos@)[i]).id != id@,
        decreases infos.len() - at,
    {
        if same_text(infos[at].id.as_str(), id) {
            assert(info_views(infos@)[at as int].id == id@);
            return true;
        }
        at += 1;
    }
    false
}

impl DaemonState {
    fn count_running(&self, session_id: &str) -> (count: usize)
        ensures
            count == running_in(self@.active, session_id@),
    {
        let mut count: usize = 0;
        let mut at: usize = 0;
        while at < self.active_len()
            invariant
                at <= self@.active.len(),
                count <= at,
                count == running_in(self@.active.take(at as int), session_id@),
            decreases self@.active.len() - at,
        {
            assert(self@.active.take(at + 1).drop_last() =~= self@.active.take(at as int));
            if same_text(self.active_key(at).session_id.as_str(), session_id) {
                count += 1;
            }
            at += 1;
        }
        assert(self@.active.take(at as int) =~= self@.active);
        count
    }

    fn running_requests(&self, session_id: &str) -> (ids: Vec<RequestId>)
        ensures
            request_id_views(ids@) == requests_in(self@.active, session_id@),
    {
        let mut ids: Vec<RequestId> = Vec::new();
        let mut at: usize = 0;
        assert(request_id_views(ids@) =~= requests_in(self@.active.take(0), session_id@));
        while at < self.active_len()
            invariant
                at <= self@.active.len(),
                request_id_views(ids@) == requests_in(self@.active.take(at as int), session_id@),
            decreases self@.active.len() - at,
        {
            let ghost before = ids@;
            assert(self@.active.take(at + 1).drop_last() =~= self@.active.take(at as int));
            if same_text(self.active_key(at).session_id.as_str(), session_id) {
                let id = self.active_key(at).request_id.copy();
                ids.push(id);
                assert(request_id_views(ids@) =~= request_id_views(before).push(id@));
            }
            at += 1;
        }
        assert(self@.active.take(at as int) =~= self@.active);
        ids
    }

    fn find_meant(&self, request_id: &RequestId, session_id: Option<&str>) -> (found: Option<usize>)
        ensures
            match found {
                Some(at) => meant_at(self@.active, request_id@, opt_str(session_id), 0) == Some(
                    at as int,
                ) && at < self@.active.len(),
                None => meant_at(self@.active, request_id@, opt_str(session_id), 0) is None,
            },
    {
        let mut at: usize = 0;
        while at < self.active_len()
            invariant
                at <= self@.active.len(),
                meant_at(self@.active, request_id@, opt_str(session_id), 0) == meant_at(
                    self@.active,
                    request_id@,
                    opt_str(session_id),
                    at as int,
                ),
            decreases self@.active.len() - at,
        {
            let key = self.active_key(at);
            let right_session = match session_id {
                Some(id) => same_text(key.session_id.as_str(), id),
                None => true,
            };
            if key.request_id.same(request_id) && right_session {
                return Some(at);
            }
            at += 1;
        }
        None
    }

    /// What a client is told that cancels a request, and the request that has to
    /// be cancelled.
    pub fn cancel(&self, request_id: &RequestId, session_id: Option<&str>) -> (out: (
        Option<ActiveKey>,
        Json,
    ))
        ensures
            match meant_at(self@.active, request_id@, opt_str(session_id), 0) {
                Some(at) => out.0 matches Some(key) && key@ == self@.active[at].key && out.1@
                    == cancel_reply(true),
                None => out.0 is None && out.1@ == cancel_reply(false),
            },
    {
        match self.find_meant(request_id, session_id) {
            Some(at) => {
                let value = Entries::new().with_bool("cancelled", true).object();
                assert(value@ == cancel_reply(true));
                (Some(self.active_key(at).copy()), value)
            },
            None => {
                let value = Entries::new().with_bool("cancelled", false).with_text(
                    "reason",
                    "请求未在执行",
                ).object();
                assert(value@->Object_0 =~= cancel_reply(false)->Object_0);
                (None, value)
            },
        }
    }

    /// What was kept of the request that a client subscribes to; the answer that
    /// it is not running, where it is not.
    pub fn subscribe(&self, params: &CancelParams) -> (out: Result<
        (ActiveKey, Vec<ActiveRequestUpdate>),
        Json,
    >)
        ensures
            match meant_at(self@.active, params.request_id@, opt_text(params.session_id), 0) {
                Some(at) => out matches Ok((key, replay)) && key@ == self@.active[at].key
                    && update_views(replay@) == self@.active[at].replay,
                None => out matches Err(value) && value@ == not_subscribed(
                    params.request_id@,
                    "请求未在执行"@,
                ),
            },
    {
        let session_id = match &params.session_id {
            Some(id) => Some(id.as_str()),
            None => None,
        };
        assert(opt_str(session_id) == opt_text(params.session_id));
        match self.find_meant(&params.request_id, session_id) {
            Some(at) => Ok((self.active_key(at).copy(), self.active_replay(at))),
            None => Err(not_subscribed_value(&params.request_id, "请求未在执行")),
        }
    }

    /// Takes up a request to the agent in a session: its key from now on, or the answer
    /// where a request with its id is running there already.
    pub fn handle_chat_send(&mut self, id: &RequestId, session_id: &str) -> (out: Result<
        ActiveKey,
        ServerFrame,
    >)
        requires
            old(self).wf(),
        ensures
            final(self).wf(),
            ({
                let key = KeyView { session_id: session_id@, request_id: id@ };
                if old(self)@.is_running(key) {
                    &&& final(self)@ == old(self)@
                    &&& out matches Err(frame) && frame@ == failure_frame(
                        id@,
                        REQUEST_CONFLICT,
                        "请求 id 正在执行"@,
                    )
                } else {
                    &&& final(self)@ == (DaemonView {
                        active: old(self)@.active.push(
                            ActiveView { key, replay: Seq::<UpdateView>::empty() },
                        ),
                        ..old(self)@
                    })
                    &&& out matches Ok(active) && active@ == key
                }
            }),
    {
        let key = ActiveKey { session_id: session_id.to_owned(), request_id: id.copy() };
        if self.begin_turn(&key) {
            Ok(key)
        } else {
            Err(
                ServerFrame::Response(
                    JsonRpcResponse::failure(
                        id.copy(),
                        REQUEST_CONFLICT,
                        "请求 id 正在执行".to_owned(),
                    ),
                ),
            )
        }
    }

    /// Ends a turn: the updates that are still to be told go out first, in their order,
    /// then the answer, and the request is no longer running.
    pub fn finish_chat_send(
        &mut self,
        key: &ActiveKey,
        leftovers: Vec<ActiveRequestUpdate>,
        terminal: Result<Rendered, (i64, String)>,
    ) -> (frames: Vec<ServerFrame>)
        requires
            old(self).wf(),
        ensures
            final(self).wf(),
            frame_views(frames@) == frames_of(
                update_views(leftovers@).push(ActiveRequestUpdate::Terminal(terminal)@),
                key@.request_id,
            ),
            final(self)@ == (DaemonView {
                active: without_key(old(self)@.active, key@),
                ..old(self)@
            }),
            !final(self)@.is_running(key@),
    {
        let mut frames: Vec<ServerFrame> = Vec::new();
        let mut at: usize = 0;
        while at < leftovers.len()
            invariant
                at <= leftovers.len(),
                frames.len() == at,
                self.wf(),
                forall|i: int|
                    0 <= i < at ==> (#[trigger] frames@[i])@ == leftovers@[i]@.frame(
                        key@.request_id,
                    ),
                self@.default_session == old(self)@.default_session,
                self@.legacy_session_id == old(self)@.legacy_session_id,
                self@.sessions == old(self)@.sessions,
                without_key(self@.active, key@) == without_key(old(self)@.active, key@),
            decreases leftovers.len() - at,
        {
            proof {
                lemma_without_published(self@.active, key@, leftovers@[at as int]@);
            }
            frames.push(self.publish_update(key, &leftovers[at]));
            at += 1;
        }
        frames.push(self.finish_turn(key, terminal));
        assert(frame_views(frames@) =~= frames_of(
            update_views(leftovers@).push(ActiveRequestUpdate::Terminal(terminal)@),
            key@.request_id,
        ));
        frames
    }

    /// The frames that a client gets at once that subscribes to a request, and whether
    /// nothing more comes: all that was kept of the request and is not settled, or the
    /// answer that it is not running.
    pub fn handle_subscribe(
        &self,
        id: &RequestId,
        params: &CancelParams,
        pending_ids: &Vec<String>,
    ) -> (out: (Vec<ServerFrame>, bool))
        ensures
            match meant_at(self@.active, params.request_id@, opt_text(params.session_id), 0) {
                Some(at) => frame_views(out.0@) == frames_of(
                    replayed(self@.active[at].replay, texts(pending_ids@)),
                    id@,
                ) && out.1 == ends(self@.active[at].replay),
                None => frame_views(out.0@) == seq![
                    success_frame(id@, not_subscribed(params.request_id@, "请求未在执行"@)),
                ] && out.1,
            },
    {
        match self.subscribe(params) {
            Ok((_, replay)) => replay_frames(&replay, pending_ids, id),
            Err(value) => {
                let mut frames: Vec<ServerFrame> = Vec::new();
                frames.push(ServerFrame::Response(JsonRpcResponse::success(id.copy(), value)));
                assert(frame_views(frames@) =~= seq![
                    success_frame(id@, not_subscribed(params.request_id@, "请求未在执行"@)),
                ]);
                (frames, true)
            },
        }
    }

    /// What a client is told of a session, from its stored messages and the
    /// approvals that are pending in it.
    pub fn session_snapshot(
        &self,
        session_id: &str,
        messages: &Json,
        approvals: &Vec<PendingApproval>,
    ) -> (value: Json)
        ensures
            value@ == snapshot(self@, session_id@, messages@, approvals@),
    {
        let requests = self.running_requests(session_id);
        let ghost ids = requests_in(self@.active, session_id@);
        let mut waiting: Vec<Json> = Vec::new();
        let mut at: usize = 0;
        assert(json_views(waiting@) =~= awaited(approvals@.take(0), ids));
        while at < approvals.len()
            invariant
                at <= approvals.len(),
                request_id_views(requests@) == ids,
                json_views(waiting@) == awaited(approvals@.take(at as int), ids),
            decreases approvals.len() - at,
        {
            assert(approvals@.take(at + 1).drop_last() =~= approvals@.take(at as int));
            if holds_id(&requests, &approvals[at].request_id) {
                let ghost before = waiting@;
                waiting.push(approvals[at].value.copy());
                assert(waiting@.drop_last() =~= before);
            }
            at += 1;
        }
        assert(approvals@.take(at as int) =~= approvals@);
        let mut list: Vec<Json> = Vec::new();
        at = 0;
        while at < requests.len()
            invariant
                at == list.len(),
                at <= requests.len(),
                request_id_views(requests@) == ids,
                forall|i: int| 0 <= i < at ==> (#[trigger] list@[i])@ == request_id_json(ids[i]),
            decreases requests.len() - at,
        {
            assert(ids[at as int] == requests@[at as int]@);
            list.push(requests[at].json());
            at += 1;
        }
        proof {
            lemma_json_views(list@);
            lemma_json_views(waiting@);
            assert(json_views(list@) =~= request_id_list(ids)->List_0);
        }
        let status = match decide_status(waiting.len() > 0, requests.len()) {
            SessionStatus::Idle => "idle",
            SessionStatus::Running => "running",
            SessionStatus::Waiting => "waiting",
        };
        let value = Entries::new().with_text("session_id", session_id).with(
            "messages",
            messages.copy(),
        ).with("pending_approvals", Json::List(waiting)).with("active_requests", Json::List(list)).with_text(
            "status",
            status,
        ).object();
        assert(Json::List(waiting)@ == JsonView::List(json_views(waiting@)));
        assert(Json::List(list)@ == JsonView::List(json_views(list@)));
        assert(value@->Object_0 =~= snapshot(self@, session_id@, messages@, approvals@)->Object_0);
        value
    }

    /// What a client is told of a new session.
    pub fn session_new(&mut self, session_id: &str) -> (value: Json)
        requires
            old(self).wf(),
        ensures
            final(self).wf(),
            final(self)@ == (DaemonView {
                legacy_session_id: session_id@,
                ..old(self)@.with_session(session_id@)
            }),
            value@ == new_session(session_id@),
    {
        self.use_session(session_id);
        let value = Entries::new().with_bool("created", true).with_text("session_id", session_id).with(
            "messages",
            Json::List(Vec::new()),
        ).with("pending_approvals", Json::List(Vec::new())).with(
            "active_requests",
            Json::List(Vec::new()),
        ).object();
        assert(value@->Object_0 =~= new_session(session_id@)->Object_0);
        value
    }

    /// All sessions, in the order in which they are listed. `paths` holds the files
    /// of the open sessions, `current_path` that of the session in use.
    pub fn session_infos(
        &self,
        stored: &Vec<SessionInfo>,
        pending_sessions: &Vec<String>,
        paths: &Vec<String>,
        current_path: &str,
    ) -> (out: Vec<SessionInfo>)
        requires
            paths@.len() == self@.sessions.len(),
        ensures
            info_views(out@) == ranked(
                all_sessions(
                    self@,
                    texts(pending_sessions@),
                    info_views(stored@),
                    texts(paths@),
                    current_path@,
                ),
            ),
    {
        let ghost pending = texts(pending_sessions@);
        let ghost listed = Seq::new(
            stored@.len(),
            |i: int| listed_info(self@, pending, info_views(stored@)[i]),
        );
        let current = self.legacy_session_id();
        let mut found: Vec<SessionInfo> = Vec::new();
        let mut at: usize = 0;
        while at < stored.len()
            invariant
                at == found.len(),
                at <= stored.len(),
                current@ == self@.legacy_session_id,
                pending == texts(pending_sessions@),
                listed == Seq::new(
                    stored@.len(),
                    |i: int| listed_info(self@, pending, info_views(stored@)[i]),
                ),
                forall|i: int| 0 <= i < at ==> (#[trigger] found@[i])@ == listed[i],
            decreases stored.len() - at,
        {
            let info = &stored[at];
            let running = self.count_running(info.id.as_str());
            let waiting = holds_text(pending_sessions, info.id.as_str());
            let next = SessionInfo {
                id: info.id.clone(),
                path: info.path.clone(),
                active: same_text(info.id.as_str(), current),
                message_count: info.message_count,
                modified_at: info.modified_at,
                preview: info.preview.clone(),
                status: decide_status(waiting, running),
                active_requests: running,
                updated_at: info.modified_at,
            };
            assert(next@ == listed_info(self@, pending, info_views(stored@)[at as int]));
            found.push(next);
            at += 1;
        }
        assert(info_views(found@) =~= listed);
        let open = self.sessions();
        at = 0;
        while at < open.len()
            invariant
                at <= open.len(),
                texts(open@) == self@.sessions,
                paths@.len() == open@.len(),
                pending == texts(pending_sessions@),
                info_views(found@) == with_open(self@, pending, listed, texts(paths@), at as int),
            decreases open.len() - at,
        {
            let ghost before = found@;
            assert(self@.sessions[at as int] == open@[at as int]@);
            assert(texts(paths@)[at as int] == paths@[at as int]@);
            if !lists_id(&found, open[at].as_str()) {
                let next = self.describe_fresh(
                    pending_sessions,
                    open[at].as_str(),
                    paths[at].as_str(),
                );
                found.push(next);
                assert(info_views(found@) =~= info_views(before).push(next@));
            }
            at += 1;
        }
        if !lists_id(&found, current) {
            let ghost before = found@;
            let next = self.describe_fresh(pending_sessions, current, current_path);
            found.push(next);
            assert(info_views(found@) =~= info_views(before).push(next@));
        }
        proof {
            lemma_ranked_infos(found@);
        }
        stable_sort(found)
    }

    fn describe_fresh(&self, pending_sessions: &Vec<String>, id: &str, path: &str) -> (info:
        SessionInfo)
        ensures
            info@ == fresh_info(self@, texts(pending_sessions@), id@, path@),
    {
        let running = self.count_running(id);
        let waiting = holds_text(pending_sessions, id);
        SessionInfo {
            id: id.to_owned(),
            path: path.to_owned(),
            active: same_text(id, self.legacy_session_id()),
            message_count: 0,
            modified_at: None,
            preview: None,
            status: decide_status(waiting, running),
            active_requests: running,
            updated_at: None,
        }
    }
}

/// What a client is told of a new session.
pub open spec fn new_session(session_id: Seq<char>) -> JsonView {
    JsonView::Object(
        seq![
            ("created"@, JsonView::Bool(true)),
            ("session_id"@, JsonView::Text(session_id)),
            ("messages"@, JsonView::List(Seq::empty())),
            ("pending_approvals"@, JsonView::List(Seq::empty())),
            ("active_requests"@, JsonView::List(Seq::empty())),
        ],
    )
}

/// A snapshot of a session that has been resumed: one entry more.
pub open spec fn resumed(value: JsonView) -> JsonView {
    match value {
        JsonView::Object(entries) => JsonView::Object(
            entries.push(("resumed"@, JsonView::Bool(true))),
        ),
        other => other,
    }
}

/// What a client is told of a session that has been resumed.
pub fn session_resume(value: Json) -> (out: Json)
    ensures
        out@ == resumed(value@),
{
    match value {
        Json::Object(entries) => {
            let ghost before = entries@;
            let mut entries = entries;
            entries.push(("resumed".to_owned(), crate::json::bool_value(true)));
            assert(entries@.drop_last() =~= before);
            Json::Object(entries)
        },
        other => other,
    }
}

/// The records of a session's trace.
pub fn session_trace(session_id: &str, records: Json) -> (value: Json)
    ensures
        value@ == JsonView::Object(
            seq![("session_id"@, JsonView::Text(session_id@)), ("records"@, records@)],
        ),
{
    let value = Entries::new().with_text("session_id", session_id).with("records", records).object();
    assert(value@->Object_0 =~= seq![
        ("session_id"@, JsonView::Text(session_id@)),
        ("records"@, records@),
    ]);
    value
}

/// Of the approvals that a snapshot shows, every one belongs to a running request
/// of the session.
pub proof fn law_snapshot_shows_awaited_approvals_only(
    approvals: Seq<PendingApproval>,
    requests: Seq<RequestIdView>,
    i: int,
)
    requires
        0 <= i < awaited(approvals, requests).len(),
    ensures
        exists|k: int|
            0 <= k < approvals.len() && requests.contains((#[trigger] approvals[k]).request_id@)
                && awaited(approvals, requests)[i] == approvals[k].value@,
    decreases approvals.len(),
{
    let front = approvals.drop_last();
    let before = awaited(front, requests);
    if i < before.len() {
        law_snapshot_shows_awaited_approvals_only(front, requests, i);
        let k = choose|k: int|
            0 <= k < front.len() && requests.contains((#[trigger] front[k]).request_id@)
                && before[i] == front[k].value@;
        assert(approvals[k] == front[k]);
    } else {
        let k = approvals.len() - 1;
        assert(approvals[k] == approvals.last());
    }
}

/// The session in use is always among the sessions that are listed.
pub proof fn law_session_in_use_is_listed(
    view: DaemonView,
    pending: Seq<Seq<char>>,
    stored: Seq<SessionInfoView>,
    paths: Seq<Seq<char>>,
    current_path: Seq<char>,
)
    ensures
        lists(
            all_sessions(view, pending, stored, paths, current_path),
            view.legacy_session_id,
        ),
{
    let listed = Seq::new(stored.len(), |i: int| listed_info(view, pending, stored[i]));
    let open = with_open(view, pending, listed, paths, view.sessions.len() as int);
    let all = all_sessions(view, pending, stored, paths, current_path);
    if !lists(open, view.legacy_session_id) {
        assert(all[all.len() - 1].id == view.legacy_session_id);
    }
}

/// Of the updates that were kept, up to the one after which nothing more comes, a late
/// subscriber is sent all in their order, but for those that ask for an approval with an
/// id that is no longer pending.
pub proof fn law_replay_leaves_out_settled_approvals_alone(
    updates: Seq<UpdateView>,
    pending: Seq<Seq<char>>,
    end: int,
)
    requires
        0 <= end <= updates.len(),
        forall|i: int| 0 <= i < end - 1 ==> (#[trigger] updates[i]) is Event,
        end < updates.len() ==> end > 0 && !(updates[end - 1] is Event),
    ensures
        replayed(updates, pending) == updates.take(end).filter(
            |update: UpdateView|
                !(update matches UpdateView::Event { kind, data, .. } && kind
                    == EventKind::ApprovalRequired && data.field("approval"@).field(
                    "id"@,
                ) is Text && !pending.contains(
                    data.field("approval"@).field("id"@)->Text_0,
                )),
        ),
    decreases end,
{
    let kept = |update: UpdateView|
        !(update matches UpdateView::Event { kind, data, .. } && kind == EventKind::ApprovalRequired
            && data.field("approval"@).field("id"@) is Text && !pending.contains(
            data.field("approval"@).field("id"@)->Text_0,
        ));
    let part = updates.take(end);
    if end == 0 {
        reveal(Seq::filter);
        assert(part =~= Seq::empty());
        assert(updates.len() == 0);
    } else {
        let rest = updates.skip(1);
        lemma_filter_front(part, kept);
        assert(part.skip(1) =~= rest.take(end - 1));
        assert(kept(updates[0]) == !is_resolved(updates[0], pending));
        assert(part[0] == updates[0]);
        if end > 1 || updates[0] is Event {
            assert(updates[0] is Event) by {
                if end > 1 {
                    assert(updates[0] is Event);
                }
            }
            assert forall|i: int| 0 <= i < end - 2 implies (#[trigger] rest[i]) is Event by {
                assert(updates[i + 1] is Event);
            }
            law_replay_leaves_out_settled_approvals_alone(rest, pending, end - 1);
            if !is_resolved(updates[0], pending) {
                assert(replayed(updates, pending) =~= part.filter(kept));
            }
        } else {
            reveal(Seq::filter);
            assert(part.skip(1) =~= Seq::empty());
            assert(part.skip(1).filter(kept) =~= Seq::empty());
            assert(replayed(updates, pending) =~= part.filter(kept));
        }
    }
}

proof fn lemma_filter_front<T>(list: Seq<T>, keep: spec_fn(T) -> bool)
    requires
        list.len() > 0,
    ensures
        list.filter(keep) == (if keep(list[0]) {
            seq![list[0]]
        } else {
            Seq::empty()
        }) + list.skip(1).filter(keep),
    decreases list.len(),
{
    reveal(Seq::filter);
    let rest = list.skip(1);
    if list.len() == 1 {
        assert(rest =~= Seq::empty());
        assert(list.drop_last() =~= Seq::empty());
        assert(list.last() == list[0]);
        assert(list.filter(keep) =~= (if keep(list[0]) {
            seq![list[0]]
        } else {
            Seq::empty()
        }) + rest.filter(keep));
    } else {
        let front = list.drop_last();
        lemma_filter_front(front, keep);
        assert(front.skip(1) =~= rest.drop_last());
        assert(rest.last() == list.last());
        assert(front[0] == list[0]);
        assert(list.filter(keep) =~= (if keep(list[0]) {
            seq![list[0]]
        } else {
            Seq::empty()
        }) + rest.filter(keep));
    }
}

/// Whatever a request reports besides asking for an approval reaches a late subscriber, as
/// a frame of the same kind with the same data under the id of the subscription.
pub proof fn law_late_subscribers_see_all_other_events(
    updates: Seq<UpdateView>,
    pending: Seq<Seq<char>>,
    id: RequestIdView,
    i: int,
)
    requires
        0 <= i < updates.len(),
        forall|j: int| 0 <= j < i ==> (#[trigger] updates[j]) is Event,
        updates[i] is Event ==> updates[i]->kind != EventKind::ApprovalRequired,
    ensures
        replayed(updates, pending).contains(updates[i]),
        updates[i] matches UpdateView::Event { kind, data, .. } ==> frames_of(
            replayed(updates, pending),
            id,
        ).contains(FrameView::Event { request_id: id, event: kind, data }),
        updates[i] matches UpdateView::Done { result, .. } ==> frames_of(
            replayed(updates, pending),
            id,
        ).last() == (FrameView::Response { id, result: Some(result), error: None }),
        updates[i] matches UpdateView::Failed { code, message } ==> frames_of(
            replayed(updates, pending),
            id,
        ).last() == (FrameView::Response { id, result: None, error: Some((code, message)) }),
    decreases updates.len(),
{
    let rest = updates.skip(1);
    let out = replayed(updates, pending);
    let frames = frames_of(out, id);
    if i == 0 {
        assert(out[0] == updates[0]);
        assert(frames[0] == updates[0].frame(id));
    } else {
        assert(updates[0] is Event);
        assert(rest[i - 1] == updates[i]);
        assert forall|j: int| 0 <= j < i - 1 implies (#[trigger] rest[j]) is Event by {
            assert(updates[j + 1] is Event);
        }
        law_late_subscribers_see_all_other_events(rest, pending, id, i - 1);
        let tail = replayed(rest, pending);
        let k = choose|k: int| 0 <= k < tail.len() && tail[k] == updates[i];
        let n = out.len() - tail.len();
        assert(out[k + n] == tail[k]);
        assert(frames[k + n] == updates[i].frame(id));
        assert(out.last() == tail.last());
        assert(frames.last() == frames_of(tail, id).last());
    }
}

/// An answer carries the text that the turn came to. A turn that failed is answered with the
/// error and all its causes, unless the error says that the request was cancelled.
pub proof fn law_failed_turns_are_told_in_full(result: Result<String, TurnError>)
    ensures
        result matches Ok(content) ==> turn_outcome(result) is Ok && turn_outcome(result)->Ok_0.field(
            "content"@,
        ) == JsonView::Text(content@),
        result matches Err(error) ==> turn_outcome(result) == (if contains_text(
            error.display@,
            "请求已取消"@,
        ) {
            Err::<JsonView, (i64, Seq<char>)>((-32800i64, "请求已取消"@))
        } else {
            Err::<JsonView, (i64, Seq<char>)>((-32603i64, error.full@))
        }),
{
    if let Ok(content) = result {
        law_objects_give_the_first_entry_of_a_key(
            seq![("content"@, JsonView::Text(content@))],
            "content"@,
            0,
        );
    }
}

/// What the agent reports is passed on whole: the piece of text, the call and its name and
/// round, what the tool gave and whether it succeeded, and the answer.
pub proof fn law_events_are_passed_on_whole(event: AgentEvent)
    ensures
        event is TurnStarted ==> event_kind(event) == EventKind::TurnStarted,
        event matches AgentEvent::TextDelta(delta) ==> event_kind(event) == EventKind::TextDelta
            && event_data(event).field("delta"@) == JsonView::Text(delta@),
        event matches AgentEvent::ToolStarted { call_id, name, round } ==> event_kind(event)
            == EventKind::ToolStarted && event_data(event).field("tool_call_id"@)
            == JsonView::Text(call_id@) && event_data(event).field("name"@) == JsonView::Text(
            name@,
        ) && event_data(event).field("round"@) == JsonView::Unsigned(round),
        event matches AgentEvent::ToolFinished {
            call_id,
            name,
            output,
            round,
            duration_ms,
            success,
            error,
        } ==> event_kind(event) == EventKind::ToolFinished && event_data(event).field(
            "tool_call_id"@,
        ) == JsonView::Text(call_id@) && event_data(event).field("name"@) == JsonView::Text(name@)
            && event_data(event).field("output"@) == JsonView::Text(output@) && event_data(
            event,
        ).field("round"@) == JsonView::Unsigned(round) && event_data(event).field("duration_ms"@)
            == JsonView::Unsigned(duration_ms) && event_data(event).field("success"@)
            == JsonView::Bool(success) && event_data(event).field("error"@) == (match error {
            Some(text) => JsonView::Text(text@),
            None => JsonView::Null,
        }),
        event matches AgentEvent::TurnCompleted { content } ==> event_kind(event)
            == EventKind::TurnCompleted && event_data(event).field("content"@) == JsonView::Text(
            content@,
        ),
{
    lemma_event_keys();
    if let JsonView::Object(entries) = event_data(event) {
        match event {
            AgentEvent::TurnStarted => {},
            AgentEvent::TextDelta(_) => {
                law_objects_give_the_first_entry_of_a_key(entries, "delta"@, 0);
            },
            AgentEvent::ToolStarted { .. } => {
                law_objects_give_the_first_entry_of_a_key(entries, "tool_call_id"@, 0);
                law_objects_give_the_first_entry_of_a_key(entries, "name"@, 1);
                law_objects_give_the_first_entry_of_a_key(entries, "round"@, 2);
            },
            AgentEvent::ToolFinished { .. } => {
                law_objects_give_the_first_entry_of_a_key(entries, "tool_call_id"@, 0);
                law_objects_give_the_first_entry_of_a_key(entries, "name"@, 1);
                law_objects_give_the_first_entry_of_a_key(entries, "output"@, 2);
                law_objects_give_the_first_entry_of_a_key(entries, "round"@, 3);
                law_objects_give_the_first_entry_of_a_key(entries, "duration_ms"@, 4);
                law_objects_give_the_first_entry_of_a_key(entries, "success"@, 5);
                law_objects_give_the_first_entry_of_a_key(entries, "error"@, 6);
            },
            AgentEvent::TurnCompleted { .. } => {
                law_objects_give_the_first_entry_of_a_key(entries, "content"@, 0);
            },
        }
    }
}

proof fn lemma_event_keys()
    ensures
        "tool_call_id"@.len() == 12,
        "name"@.len() == 4,
        "output"@.len() == 6,
        "round"@.len() == 5 && "round"@[0] == 'r',
        "duration_ms"@.len() == 11,
        "success"@.len() == 7,
        "error"@.len() == 5 && "error"@[0] == 'e',
{
    reveal_strlit("tool_call_id");
    reveal_strlit("name");
    reveal_strlit("output");
    reveal_strlit("round");
    reveal_strlit("duration_ms");
    reveal_strlit("success");
    reveal_strlit("error");
}

/// A request is found exactly where one with its name is running, in the session that was
/// given or, where none was, in any.
pub proof fn law_running_requests_are_found(
    active: Seq<ActiveView>,
    request_id: RequestIdView,
    session_id: Option<Seq<char>>,
)
    ensures
        match meant_at(active, request_id, session_id, 0) {
            Some(at) => {
                &&& 0 <= at < active.len()
                &&& active[at].key.request_id == request_id
                &&& session_id is Some ==> active[at].key.session_id == session_id->0
            },
            None => forall|i: int|
                0 <= i < active.len() && (#[trigger] active[i]).key.request_id == request_id
                    ==> session_id is Some && active[i].key.session_id != session_id->0,
        },
{
    lemma_found_from(active, request_id, session_id, 0);
}

proof fn lemma_found_from(
    active: Seq<ActiveView>,
    request_id: RequestIdView,
    session_id: Option<Seq<char>>,
    from: int,
)
    requires
        0 <= from,
    ensures
        match meant_at(active, request_id, session_id, from) {
            Some(at) => from <= at < active.len() && active[at].key.request_id == request_id && (
            session_id is Some ==> active[at].key.session_id == session_id->0),
            None => forall|i: int|
                from <= i < active.len() && (#[trigger] active[i]).key.request_id == request_id
                    ==> session_id is Some && active[i].key.session_id != session_id->0,
        },
    decreases active.len() - from,
{
    if from < active.len() && !is_meant(active[from].key, request_id, session_id) {
        lemma_found_from(active, request_id, session_id, from + 1);
    }
}

/// Whoever cancels a request is told whether it was running.
pub proof fn law_canceller_is_told_whether_it_ran(found: bool)
    ensures
        cancel_reply(found).field("cancelled"@) == JsonView::Bool(found),
{
    if let JsonView::Object(entries) = cancel_reply(found) {
        law_objects_give_the_first_entry_of_a_key(entries, "cancelled"@, 0);
    }
}

/// The requests of a session are those that run in it, in the order in which they started,
/// and they are counted as many as they are.
pub proof fn law_requests_of_a_session_are_those_that_run_in_it(
    active: Seq<ActiveView>,
    session_id: Seq<char>,
)
    ensures
        requests_in(active, session_id) == active.filter(
            |request: ActiveView| request.key.session_id == session_id,
        ).map_values(|request: ActiveView| request.key.request_id),
        running_in(active, session_id) == active.filter(
            |request: ActiveView| request.key.session_id == session_id,
        ).len(),
    decreases active.len(),
{
    reveal(Seq::filter);
    if active.len() > 0 {
        law_requests_of_a_session_are_those_that_run_in_it(active.drop_last(), session_id);
    }
    assert(requests_in(active, session_id) =~= active.filter(
        |request: ActiveView| request.key.session_id == session_id,
    ).map_values(|request: ActiveView| request.key.request_id));
}

/// The approvals that a session waits for are all those that one of its requests asked for,
/// in their order.
pub proof fn law_every_approval_of_a_request_is_shown(
    approvals: Seq<PendingApproval>,
    requests: Seq<RequestIdView>,
)
    ensures
        awaited(approvals, requests) == approvals.filter(
            |approval: PendingApproval| requests.contains(approval.request_id@),
        ).map_values(|approval: PendingApproval| approval.value@),
    decreases approvals.len(),
{
    reveal(Seq::filter);
    if approvals.len() > 0 {
        law_every_approval_of_a_request_is_shown(approvals.drop_last(), requests);
    }
    assert(awaited(approvals, requests) =~= approvals.filter(
        |approval: PendingApproval| requests.contains(approval.request_id@),
    ).map_values(|approval: PendingApproval| approval.value@));
}

/// A snapshot shows the session's messages as they are, all approvals that its requests
/// wait for, and its requests. The session waits where there is such an approval, it runs
/// where there is only a request, and is idle where there is none.
pub proof fn law_snapshot_shows_the_state_of_the_session(
    view: DaemonView,
    session_id: Seq<char>,
    messages: JsonView,
    approvals: Seq<PendingApproval>,
)
    ensures
        ({
            let shown = snapshot(view, session_id, messages, approvals);
            let requests = view.active.filter(
                |request: ActiveView| request.key.session_id == session_id,
            ).map_values(|request: ActiveView| request.key.request_id);
            let waiting = approvals.filter(
                |approval: PendingApproval| requests.contains(approval.request_id@),
            ).map_values(|approval: PendingApproval| approval.value@);
            &&& shown.field("session_id"@) == JsonView::Text(session_id)
            &&& shown.field("messages"@) == messages
            &&& shown.field("pending_approvals"@) == JsonView::List(waiting)
            &&& shown.field("active_requests"@) == JsonView::List(
                requests.map_values(
                    |id: RequestIdView|
                        match id {
                            RequestIdView::Number(n) => JsonView::Unsigned(n),
                            RequestIdView::String(text) => JsonView::Text(text),
                        },
                ),
            )
            &&& shown.field("status"@) == JsonView::Text(
                if waiting.len() > 0 {
                    "waiting"@
                } else if requests.len() > 0 {
                    "running"@
                } else {
                    "idle"@
                },
            )
        }),
{
    reveal_strlit("session_id");
    reveal_strlit("messages");
    reveal_strlit("pending_approvals");
    reveal_strlit("active_requests");
    reveal_strlit("status");
    assert("session_id"@.len() == 10 && "messages"@.len() == 8 && "pending_approvals"@.len() == 17
        && "active_requests"@.len() == 15 && "status"@.len() == 6);
    law_requests_of_a_session_are_those_that_run_in_it(view.active, session_id);
    let requests = requests_in(view.active, session_id);
    law_every_approval_of_a_request_is_shown(approvals, requests);
    if let JsonView::Object(entries) = snapshot(view, session_id, messages, approvals) {
        law_objects_give_the_first_entry_of_a_key(entries, "session_id"@, 0);
        law_objects_give_the_first_entry_of_a_key(entries, "messages"@, 1);
        law_objects_give_the_first_entry_of_a_key(entries, "pending_approvals"@, 2);
        law_objects_give_the_first_entry_of_a_key(entries, "active_requests"@, 3);
        law_objects_give_the_first_entry_of_a_key(entries, "status"@, 4);
    }
    assert(Seq::new(requests.len(), |i: int| request_id_json(requests[i])) =~= requests.map_values(
        |id: RequestIdView|
            match id {
                RequestIdView::Number(n) => JsonView::Unsigned(n),
                RequestIdView::String(text) => JsonView::Text(text),
            },
    ));
}

/// Every stored session stays in the list, in its place and with what is known of it. It
/// waits where it is among those that wait, else it runs where a request runs in it, and
/// only the session in use is marked as active.
pub proof fn law_stored_sessions_are_all_listed(
    view: DaemonView,
    pending: Seq<Seq<char>>,
    stored: Seq<SessionInfoView>,
    paths: Seq<Seq<char>>,
    current_path: Seq<char>,
    i: int,
)
    requires
        0 <= i < stored.len(),
    ensures
        ({
            let all = all_sessions(view, pending, stored, paths, current_path);
            let id = stored[i].id;
            let running = view.active.filter(
                |request: ActiveView| request.key.session_id == id,
            ).len();
            &&& stored.len() <= all.len()
            &&& all[i].id == stored[i].id
            &&& all[i].path == stored[i].path
            &&& all[i].message_count == stored[i].message_count
            &&& all[i].preview == stored[i].preview
            &&& all[i].modified_at == stored[i].modified_at
            &&& all[i].updated_at == stored[i].modified_at
            &&& all[i].active == (stored[i].id == view.legacy_session_id)
            &&& all[i].active_requests == running
            &&& all[i].status == (if pending.contains(stored[i].id) {
                SessionStatus::Waiting
            } else if running > 0 {
                SessionStatus::Running
            } else {
                SessionStatus::Idle
            })
        }),
{
    let listed = Seq::new(stored.len(), |i: int| listed_info(view, pending, stored[i]));
    lemma_open_behind(view, pending, listed, paths, view.sessions.len() as int);
    law_requests_of_a_session_are_those_that_run_in_it(view.active, stored[i].id);
    let open = with_open(view, pending, listed, paths, view.sessions.len() as int);
    assert(open.take(listed.len() as int)[i] == open[i]);
    assert(all_sessions(view, pending, stored, paths, current_path)[i] == listed[i]);
}

proof fn lemma_open_behind(
    view: DaemonView,
    pending: Seq<Seq<char>>,
    infos: Seq<SessionInfoView>,
    paths: Seq<Seq<char>>,
    n: int,
)
    requires
        n <= view.sessions.len(),
    ensures
        infos.len() <= with_open(view, pending, infos, paths, n).len(),
        with_open(view, pending, infos, paths, n).take(infos.len() as int) == infos,
        forall|k: int|
            0 <= k < n ==> #[trigger] lists(
                with_open(view, pending, infos, paths, n),
                view.sessions[k],
            ),
        forall|j: int|
            infos.len() <= j < with_open(view, pending, infos, paths, n).len()
                ==> view.sessions.contains(
                (#[trigger] with_open(view, pending, infos, paths, n)[j]).id,
            ),
        forall|i: int, j: int|
            0 <= i < j < with_open(view, pending, infos, paths, n).len() && infos.len() <= j ==> (
            #[trigger] with_open(view, pending, infos, paths, n)[i]).id != (
            #[trigger] with_open(view, pending, infos, paths, n)[j]).id,
    decreases n,
{
    if n <= 0 {
        assert(infos.take(infos.len() as int) =~= infos);
    } else {
        lemma_open_behind(view, pending, infos, paths, n - 1);
        let front = with_open(view, pending, infos, paths, n - 1);
        let whole = with_open(view, pending, infos, paths, n);
        assert(whole.take(infos.len() as int) =~= front.take(infos.len() as int));
        assert forall|k: int| 0 <= k < n implies #[trigger] lists(whole, view.sessions[k]) by {
            if k < n - 1 {
                assert(lists(front, view.sessions[k]));
                let i = choose|i: int|
                    0 <= i < front.len() && (#[trigger] front[i]).id == view.sessions[k];
                assert(whole[i].id == view.sessions[k]);
            } else if !lists(front, view.sessions[k]) {
                assert(whole[front.len() as int].id == view.sessions[k]);
            }
        }
        if !lists(front, view.sessions[n - 1]) {
            assert forall|i: int| 0 <= i < front.len() implies (#[trigger] whole[i]).id
                != whole.last().id by {
                assert(front[i].id != view.sessions[n - 1]);
            }
            assert forall|j: int| infos.len() <= j < whole.len() implies view.sessions.contains(
                (#[trigger] whole[j]).id,
            ) by {
                if j < front.len() {
                    assert(whole[j] == front[j]);
                }
            }
            assert forall|i: int, j: int|
                0 <= i < j < whole.len() && infos.len() <= j implies (#[trigger] whole[i]).id != (
            #[trigger] whole[j]).id by {
                if j < front.len() {
                    assert(whole[i] == front[i] && whole[j] == front[j]);
                }
            }
        }
    }
}

/// Besides the stored sessions the list holds every open session and the one in use, none
/// of them twice, and nothing else.
pub proof fn law_open_sessions_are_listed_once(
    view: DaemonView,
    pending: Seq<Seq<char>>,
    stored: Seq<SessionInfoView>,
    paths: Seq<Seq<char>>,
    current_path: Seq<char>,
    i: int,
    j: int,
)
    ensures
        ({
            let all = all_sessions(view, pending, stored, paths, current_path);
            &&& 0 <= i < view.sessions.len() ==> exists|k: int|
                0 <= k < all.len() && (#[trigger] all[k]).id == view.sessions[i]
            &&& stored.len() <= j < all.len() ==> (view.sessions.contains(all[j].id) || all[j].id
                == view.legacy_session_id) && all[j].active == (all[j].id
                == view.legacy_session_id)
            &&& stored.len() <= j < all.len() && 0 <= i < j ==> all[i].id != all[j].id
        }),
{
    let listed = Seq::new(stored.len(), |i: int| listed_info(view, pending, stored[i]));
    let n = view.sessions.len() as int;
    let open = with_open(view, pending, listed, paths, n);
    let all = all_sessions(view, pending, stored, paths, current_path);
    lemma_open_behind(view, pending, listed, paths, n);
    if stored.len() <= j {
        lemma_open_marks(view, pending, listed, paths, n, j);
    }
    if 0 <= i < view.sessions.len() {
        assert(lists(open, view.sessions[i]));
        let k = choose|k: int| 0 <= k < open.len() && (#[trigger] open[k]).id == view.sessions[i];
        assert(all[k] == open[k]);
    }
    if stored.len() <= j < all.len() {
        if j < open.len() {
            assert(all[j] == open[j]);
            if 0 <= i < j {
                assert(all[i] == open[i]);
                assert(open[i].id != open[j].id);
            }
        } else if 0 <= i < j {
            assert(all[i] == open[i]);
            assert(open[i].id != view.legacy_session_id);
        }
    }
}

proof fn lemma_open_marks(
    view: DaemonView,
    pending: Seq<Seq<char>>,
    infos: Seq<SessionInfoView>,
    paths: Seq<Seq<char>>,
    n: int,
    j: int,
)
    requires
        infos.len() <= j,
        n <= view.sessions.len(),
    ensures
        j < with_open(view, pending, infos, paths, n).len() ==> with_open(
            view,
            pending,
            infos,
            paths,
            n,
        )[j].active == (with_open(view, pending, infos, paths, n)[j].id == view.legacy_session_id),
    decreases n,
{
    if n > 0 {
        lemma_open_marks(view, pending, infos, paths, n - 1, j);
    }
}

/// A session that was resumed is shown as it was, and marked as resumed.
pub proof fn law_resuming_adds_a_mark(value: JsonView, key: Seq<char>)
    requires
        value is Object,
        value.get("resumed"@) is None,
    ensures
        resumed(value).field("resumed"@) == JsonView::Bool(true),
        key != "resumed"@ ==> resumed(value).get(key) == value.get(key),
{
    if let JsonView::Object(entries) = value {
        let marked = entries.push(("resumed"@, JsonView::Bool(true)));
        law_object_has_the_keys_of_its_entries(entries, "resumed"@);
        assert forall|k: int| 0 <= k < entries.len() implies (#[trigger] marked[k]).0
            != "resumed"@ by {
            assert(marked[k] == entries[k]);
        }
        law_objects_give_the_first_entry_of_a_key(marked, "resumed"@, entries.len() as int);
        if key != "resumed"@ {
            lemma_entry_before_mark(entries, ("resumed"@, JsonView::Bool(true)), key);
        }
    }
}

proof fn lemma_entry_before_mark(
    entries: Seq<(Seq<char>, JsonView)>,
    mark: (Seq<char>, JsonView),
    key: Seq<char>,
)
    requires
        mark.0 != key,
    ensures
        entry(entries.push(mark), key) == entry(entries, key),
    decreases entries.len(),
{
    let marked = entries.push(mark);
    if entries.len() == 0 {
        reveal_with_fuel(entry, 2);
        assert(marked.skip(1) =~= Seq::empty());
    } else {
        assert(marked[0] == entries[0]);
        assert(marked.skip(1) =~= entries.skip(1).push(mark));
        lemma_entry_before_mark(entries.skip(1), mark, key);
    }
}

/// No two names stand for one method.
pub proof fn law_methods_have_one_name(a: Seq<char>, b: Seq<char>)
    requires
        method_named(a) is Some,
        method_named(a) == method_named(b),
    ensures
        a == b,
{
}

/// A request is refused only for parameters that could not be read, for a message without
/// text, and for a method that there is not; and each is told so.
pub proof fn law_only_wrong_requests_are_refused(call: Call)
    ensures
        call matches Call::ChatSend(Ok(params)) ==> (refusal(call) is Some <==> is_blank_text(
            params.message@,
        )),
        call matches Call::SessionLoad(Ok(_)) ==> refusal(call) is None,
        call matches Call::SessionResume(Ok(_)) ==> refusal(call) is None,
        call matches Call::SessionTrace(Ok(_)) ==> refusal(call) is None,
        call matches Call::ApprovalRespond(Ok(_)) ==> refusal(call) is None,
        call matches Call::AgentCancel(Ok(_)) ==> refusal(call) is None,
        call matches Call::AgentSubscribe(Ok(_)) ==> refusal(call) is None,
        call matches Call::SlashExecute(Ok(_)) ==> refusal(call) is None,
        call is SessionList || call is SessionNew || call is DaemonStop ==> refusal(call) is None,
        call matches Call::Unknown(method) ==> refusal(call) matches Some((code, message)) && code
            == -32601 && message == "未知 RPC 方法: "@ + method@,
        refusal(call) matches Some((code, _)) ==> code == -32602 || call is Unknown,
{
}

/// An approval counts as settled only where it is asked for and no longer pending; nothing
/// else that a request reports is ever settled.
pub proof fn law_only_approvals_can_be_settled(
    update: &ActiveRequestUpdate,
    pending_ids: &Vec<String>,
    resolved: bool,
)
    requires
        call_ensures(is_resolved_approval, (update, pending_ids), resolved),
    ensures
        resolved <==> (update@ matches UpdateView::Event { kind, data, .. } && kind
            == EventKind::ApprovalRequired && data.field("approval"@).field("id"@) is Text
            && forall|i: int|
            0 <= i < pending_ids@.len() ==> (#[trigger] pending_ids@[i])@ != data.field(
                "approval"@,
            ).field("id"@)->Text_0),
{
    let pending = texts(pending_ids@);
    if let UpdateView::Event { kind, data, .. } = update@ {
        if kind == EventKind::ApprovalRequired && data.field("approval"@).field("id"@) is Text {
            let id = data.field("approval"@).field("id"@)->Text_0;
            if pending.contains(id) {
                let i = choose|i: int| 0 <= i < pending.len() && pending[i] == id;
                assert(pending_ids@[i]@ == id);
            } else {
                assert forall|i: int| 0 <= i < pending_ids@.len() implies (
                #[trigger] pending_ids@[i])@ != id by {
                    assert(pending[i] == pending_ids@[i]@);
                    assert(pending.contains(pending[i]));
                }
            }
        }
    }
}

/// Whoever subscribes late to a running request gets a frame for every update that is kept,
/// in their order, but for approvals that have been settled.
pub proof fn law_replayed_frames_are_those_of_the_updates(
    replay: &Vec<ActiveRequestUpdate>,
    pending_ids: &Vec<String>,
    id: &RequestId,
    out: (Vec<ServerFrame>, bool),
)
    requires
        call_ensures(replay_frames, (replay, pending_ids, id), out),
        forall|i: int| 0 <= i < replay@.len() ==> (#[trigger] replay@[i])@ is Event,
    ensures
        frame_views(out.0@) == update_views(replay@).filter(
            |update: UpdateView|
                !(update matches UpdateView::Event { kind, data, .. } && kind
                    == EventKind::ApprovalRequired && data.field("approval"@).field(
                    "id"@,
                ) is Text && !texts(pending_ids@).contains(
                    data.field("approval"@).field("id"@)->Text_0,
                )),
        ).map_values(|update: UpdateView| update.frame(id@)),
        !out.1,
{
    let updates = update_views(replay@);
    let pending = texts(pending_ids@);
    assert forall|i: int| 0 <= i < updates.len() implies (#[trigger] updates[i]) is Event by {
        assert(replay@[i]@ is Event);
    }
    law_replay_leaves_out_settled_approvals_alone(updates, pending, updates.len() as int);
    assert(updates.take(updates.len() as int) =~= updates);
    let kept = replayed(updates, pending);
    assert(frames_of(kept, id@) =~= kept.map_values(|update: UpdateView| update.frame(id@)));
}

/// A request is cancelled exactly where it runs, under its own session.
pub proof fn law_only_running_requests_are_cancelled(
    state: &DaemonState,
    request_id: &RequestId,
    session_id: Option<&str>,
    out: (Option<ActiveKey>, Json),
)
    requires
        call_ensures(DaemonState::cancel, (state, request_id, session_id), out),
    ensures
        out.1@.field("cancelled"@) == JsonView::Bool(out.0 is Some),
        out.0 is Some <==> exists|i: int|
            0 <= i < state@.active.len() && (#[trigger] state@.active[i]).key.request_id
                == request_id@ && (session_id is None || state@.active[i].key.session_id
                == session_id->0@),
        out.0 matches Some(key) ==> key@.request_id == request_id@ && (session_id is None
            || key@.session_id == session_id->0@) && state@.is_running(key@),
{
    law_running_requests_are_found(state@.active, request_id@, opt_str(session_id));
    law_canceller_is_told_whether_it_ran(true);
    law_canceller_is_told_whether_it_ran(false);
    if let Some(at) = meant_at(state@.active, request_id@, opt_str(session_id), 0) {
        assert(state@.active[at].key.request_id == request_id@);
    }
}

/// A request goes on to what its method stands for, with all its parameters, unless it is
/// refused; then it is answered under its own id.
pub proof fn law_requests_go_on_with_their_parameters(
    state: &DaemonState,
    id: RequestId,
    call: Call,
    step: RequestStep,
)
    requires
        call_ensures(DaemonState::handle_request, (state, id, call), step),
    ensures
        call matches Call::ChatSend(Ok(params)) ==> (!is_blank_text(params.message@) ==> step
            == RequestStep::RunTurn(params)),
        call matches Call::SessionLoad(Ok(params)) ==> step == RequestStep::LoadSession(params),
        call matches Call::SessionResume(Ok(params)) ==> step == RequestStep::ResumeSession(params),
        call matches Call::SessionTrace(Ok(params)) ==> step == RequestStep::TraceSession(params),
        call matches Call::ApprovalRespond(Ok(params)) ==> step == RequestStep::RespondToApproval(
            params,
        ),
        call matches Call::AgentCancel(Ok(params)) ==> step == RequestStep::Cancel(params),
        call matches Call::AgentSubscribe(Ok(params)) ==> step == RequestStep::Subscribe(params),
        call matches Call::SlashExecute(Ok(params)) ==> step == RequestStep::ExecuteSlash(params),
        call is SessionList ==> step is ListSessions,
        call is SessionNew ==> step is NewSession,
        call is DaemonStop ==> step is Stop,
        call is Unknown ==> (step matches RequestStep::Reply(frame) && frame_request(frame@)
            == id@),
{
}

/// A client is subscribed exactly to what runs, and gets all that is kept of it.
pub proof fn law_only_running_requests_are_subscribed_to(
    state: &DaemonState,
    params: &CancelParams,
    out: Result<(ActiveKey, Vec<ActiveRequestUpdate>), Json>,
)
    requires
        call_ensures(DaemonState::subscribe, (state, params), out),
    ensures
        out is Ok <==> exists|i: int|
            0 <= i < state@.active.len() && (#[trigger] state@.active[i]).key.request_id
                == params.request_id@ && (params.session_id is None
                || state@.active[i].key.session_id == (params.session_id->0)@),
        out matches Ok((key, replay)) ==> exists|i: int|
            0 <= i < state@.active.len() && (#[trigger] state@.active[i]).key == key@
                && key@.request_id == params.request_id@ && update_views(replay@)
                == state@.active[i].replay,
        out matches Err(value) ==> value@.field("subscribed"@) == JsonView::Bool(false),
{
    law_running_requests_are_found(
        state@.active,
        params.request_id@,
        opt_text(params.session_id),
    );
    if let Some(at) = meant_at(
        state@.active,
        params.request_id@,
        opt_text(params.session_id),
        0,
    ) {
        assert(state@.active[at].key.request_id == params.request_id@);
    }
    if let JsonView::Object(entries) = not_subscribed(params.request_id@, "请求未在执行"@) {
        law_objects_give_the_first_entry_of_a_key(entries, "subscribed"@, 0);
    }
}

/// What comes of a request that is subscribed to is sent on under the subscriber's id, and
/// the subscription ends with the request.
pub proof fn law_subscription_ends_with_the_request(
    id: &RequestId,
    request_id: &RequestId,
    event: &LiveEvent,
    out: (ServerFrame, bool),
)
    requires
        call_ensures(subscription_step, (id, request_id, event), out),
    ensures
        frame_request(out.0@) == id@,
        event matches LiveEvent::Update(update) ==> (update@ matches UpdateView::Event {
            kind,
            data,
            ..
        } ==> !out.1 && out.0@ == (FrameView::Event { request_id: id@, event: kind, data })),
        event matches LiveEvent::Update(update) ==> (update@ matches UpdateView::Done {
            result,
            ..
        } ==> out.1 && out.0@ == (FrameView::Response {
            id: id@,
            result: Some(result),
            error: None,
        })),
        event matches LiveEvent::Update(update) ==> (update@ matches UpdateView::Failed {
            code,
            message,
        } ==> out.1 && out.0@ == (FrameView::Response {
            id: id@,
            result: None,
            error: Some((code, message)),
        })),
        event is Closed || event is Lagged ==> out.1 && out.0@ is Response,
{
}

/// A session that is open but not stored yet is listed without messages, with as many
/// requests as run in it, and waiting or running as they are.
pub proof fn law_fresh_sessions_are_listed_as_they_are(
    view: DaemonView,
    pending: Seq<Seq<char>>,
    id: Seq<char>,
    path: Seq<char>,
)
    ensures
        ({
            let info = fresh_info(view, pending, id, path);
            let running = view.active.filter(
                |request: ActiveView| request.key.session_id == id,
            ).len();
            &&& info.id == id
            &&& info.path == path
            &&& info.message_count == 0
            &&& info.active == (id == view.legacy_session_id)
            &&& info.active_requests == running
            &&& info.status == (if pending.contains(id) {
                SessionStatus::Waiting
            } else if running > 0 {
                SessionStatus::Running
            } else {
                SessionStatus::Idle
            })
        }),
{
    law_requests_of_a_session_are_those_that_run_in_it(view.active, id);
}

/// A new session is told by its name and is empty; a daemon that stops says so.
pub proof fn law_new_session_is_empty(session_id: Seq<char>)
    ensures
        new_session(session_id).field("created"@) == JsonView::Bool(true),
        new_session(session_id).field("session_id"@) == JsonView::Text(session_id),
        new_session(session_id).field("messages"@).count() == 0,
        new_session(session_id).field("pending_approvals"@).count() == 0,
        new_session(session_id).field("active_requests"@).count() == 0,
        stopping().field("stopping"@) == JsonView::Bool(true),
{
    reveal_strlit("created");
    reveal_strlit("session_id");
    reveal_strlit("messages");
    reveal_strlit("pending_approvals");
    reveal_strlit("active_requests");
    assert("created"@.len() == 7 && "session_id"@.len() == 10 && "messages"@.len() == 8
        && "pending_approvals"@.len() == 17 && "active_requests"@.len() == 15);
    if let JsonView::Object(entries) = new_session(session_id) {
        law_objects_give_the_first_entry_of_a_key(entries, "created"@, 0);
        law_objects_give_the_first_entry_of_a_key(entries, "session_id"@, 1);
        law_objects_give_the_first_entry_of_a_key(entries, "messages"@, 2);
        law_objects_give_the_first_entry_of_a_key(entries, "pending_approvals"@, 3);
        law_objects_give_the_first_entry_of_a_key(entries, "active_requests"@, 4);
    }
    if let JsonView::Object(entries) = stopping() {
        law_objects_give_the_first_entry_of_a_key(entries, "stopping"@, 0);
    }
}

/// An answer to an approval is accepted or refused with the reason; the trace of a session
/// names it.
pub proof fn law_approvals_are_accepted_or_refused(
    result: Result<(), String>,
    out: Result<Json, (i64, String)>,
)
    requires
        call_ensures(approval_outcome, (result,), out),
    ensures
        out is Ok <==> result is Ok,
        out matches Ok(value) ==> value@.field("accepted"@) == JsonView::Bool(true),
        out matches Err((code, message)) ==> code == -32602 && (result matches Err(error)
            && message@ == error@),
{
    law_objects_give_the_first_entry_of_a_key(
        seq![("accepted"@, JsonView::Bool(true))],
        "accepted"@,
        0,
    );
}

/// The list of sessions holds every stored session, whatever else it holds.
pub proof fn law_list_of_sessions_misses_none(
    state: &DaemonState,
    stored: &Vec<SessionInfo>,
    pending_sessions: &Vec<String>,
    paths: &Vec<String>,
    current_path: &str,
    out: Vec<SessionInfo>,
    i: int,
)
    requires
        call_ensures(
            DaemonState::session_infos,
            (state, stored, pending_sessions, paths, current_path),
            out,
        ),
        0 <= i < stored@.len(),
    ensures
        exists|k: int|
            0 <= k < out@.len() && (#[trigger] out@[k]).id@ == stored@[i].id@ && out@[k].path@
                == stored@[i].path@ && out@[k].message_count == stored@[i].message_count,
{
    let all = all_sessions(
        state@,
        texts(pending_sessions@),
        info_views(stored@),
        texts(paths@),
        current_path@,
    );
    law_stored_sessions_are_all_listed(
        state@,
        texts(pending_sessions@),
        info_views(stored@),
        texts(paths@),
        current_path@,
        i,
    );
    let order = ranked(all);
    crate::order::lemma_ranked_permutes(all);
    let item = all[i];
    assert(order.contains(item)) by {
        broadcast use vstd::seq_lib::group_to_multiset_ensures;

        assert(all.contains(item));
        assert(all.to_multiset().count(item) > 0);
        assert(order.to_multiset().count(item) > 0);
    }
    let k = choose|k: int| 0 <= k < order.len() && order[k] == item;
    assert(info_views(out@)[k] == out@[k]@);
    assert(info_views(stored@)[i] == stored@[i]@);
}

/// When a request ends, what it still had to report goes out first and its answer last, all
/// under its id, and it alone stops running.
pub proof fn law_answer_goes_out_last(
    state: &mut DaemonState,
    key: &ActiveKey,
    leftovers: Vec<ActiveRequestUpdate>,
    terminal: Result<Rendered, (i64, String)>,
    frames: Vec<ServerFrame>,
    i: int,
)
    requires
        old(state).wf(),
        call_ensures(DaemonState::finish_chat_send, (state, key, leftovers, terminal), frames),
    ensures
        frames@.len() == leftovers@.len() + 1,
        0 <= i < leftovers@.len() ==> frames@[i]@ == leftovers@[i]@.frame(key@.request_id),
        frames@.last()@ is Response,
        frame_request(frames@.last()@) == key@.request_id,
        final(state)@.active == old(state)@.active.filter(
            |request: ActiveView| request.key != key@,
        ),
{
    super::law_other_requests_go_on(old(state)@.active, key@);
    let views = frame_views(frames@);
    let all = update_views(leftovers@).push(ActiveRequestUpdate::Terminal(terminal)@);
    assert(views.len() == frames@.len());
    assert(views[frames@.len() - 1] == frames@.last()@);
    if 0 <= i < leftovers@.len() {
        assert(views[i] == frames@[i]@);
        assert(all[i] == leftovers@[i]@);
    }
}

/// A subscriber is told under its own id when the request is over and when it has fallen
/// behind, and both end the subscription.
pub proof fn law_subscribers_are_told_why_it_ends(
    id: &RequestId,
    request_id: &RequestId,
    event: &LiveEvent,
    out: (ServerFrame, bool),
)
    requires
        call_ensures(subscription_step, (id, request_id, event), out),
        !(event is Update),
    ensures
        out.1,
        event is Closed ==> (out.0@ matches FrameView::Response {
            id: to,
            result: Some(value),
            error: None,
        } && to == id@ && value.field("subscribed"@) == JsonView::Bool(false) && value.field(
            "request_id"@,
        ) == request_id_json(request_id@) && value.field("reason"@) == JsonView::Text(
            "请求已结束"@,
        )),
        event matches LiveEvent::Lagged(skipped) ==> out.0@ == (FrameView::Response {
            id: id@,
            result: None,
            error: Some(
                (-32603i64, "订阅落后 "@ + decimal(skipped as nat) + " 个事件，请重新连接恢复"@),
            ),
        }),
{
    if event is Closed {
        lemma_not_subscribed_says(request_id@, "请求已结束"@);
    }
}

proof fn lemma_not_subscribed_says(request_id: RequestIdView, reason: Seq<char>)
    ensures
        ({
            let value = not_subscribed(request_id, reason);
            &&& value.field("subscribed"@) == JsonView::Bool(false)
            &&& value.field("request_id"@) == request_id_json(request_id)
            &&& value.field("reason"@) == JsonView::Text(reason)
        }),
{
    let entries = not_subscribed(request_id, reason)->Object_0;
    reveal_strlit("subscribed");
    reveal_strlit("request_id");
    reveal_strlit("reason");
    assert("subscribed"@[0] != "request_id"@[0]);
    assert("reason"@.len() != "request_id"@.len());
    assert("reason"@.len() != "subscribed"@.len());
    law_objects_give_the_first_entry_of_a_key(entries, "subscribed"@, 0);
    law_objects_give_the_first_entry_of_a_key(entries, "request_id"@, 1);
    law_objects_give_the_first_entry_of_a_key(entries, "reason"@, 2);
}

/// Who asks for a request that is not running is told that there is nothing to subscribe to.
pub proof fn law_nothing_to_subscribe_to(
    state: &DaemonState,
    params: &CancelParams,
    out: Result<(ActiveKey, Vec<ActiveRequestUpdate>), Json>,
)
    requires
        call_ensures(DaemonState::subscribe, (state, params), out),
        out is Err,
    ensures
        out matches Err(value) && value@.field("subscribed"@) == JsonView::Bool(false)
            && value@.field("request_id"@) == request_id_json(params.request_id@) && value@.field(
            "reason"@,
        ) == JsonView::Text("请求未在执行"@),
{
    lemma_not_subscribed_says(params.request_id@, "请求未在执行"@);
}

} // verus!

//! The frames that pass between the daemon and its clients.
use vstd::prelude::*;

use crate::json::{text_value, number_value, Json, JsonView};
use crate::number::{decimal, decimal_text};
use crate::text::same_text;

verus! {

/// The largest frame that either side sends, in bytes.
pub const MAX_FRAME_BYTES: usize = 4_194_304;

/// The number by which a request is told apart on its connection.
#[derive(Clone, Debug, Hash, PartialEq, Eq)]
pub enum RequestId {
    Number(u64),
    String(String),
}

/// The mathematical value of a [`RequestId`].
pub enum RequestIdView {
    Number(u64),
    String(Seq<char>),
}

impl View for RequestId {
    type V = RequestIdView;

    open spec fn view(&self) -> RequestIdView {
        match *self {
            RequestId::Number(n) => RequestIdView::Number(n),
            RequestId::String(text) => RequestIdView::String(text@),
        }
    }
}

/// The JSON form of a request id.
pub open spec fn request_id_json(id: RequestIdView) -> JsonView {
    match id {
        RequestIdView::Number(n) => JsonView::Unsigned(n),
        RequestIdView::String(text) => JsonView::Text(text),
    }
}

/// A request id in words.
pub open spec fn request_id_label_text(id: RequestIdView) -> Seq<char> {
    match id {
        RequestIdView::Number(n) => decimal(n as nat),
        RequestIdView::String(text) => text,
    }
}

impl RequestId {
    /// A copy of the id.
    pub fn copy(&self) -> (out: RequestId)
        ensures
            out@ == self@,
    {
        match self {
            RequestId::Number(n) => RequestId::Number(*n),
            RequestId::String(text) => RequestId::String(text.clone()),
        }
    }

    /// Whether two ids are the same.
    pub fn same(&self, other: &RequestId) -> (same: bool)
        ensures
            same == (self@ == other@),
    {
        match (self, other) {
            (RequestId::Number(a), RequestId::Number(b)) => *a == *b,
            (RequestId::String(a), RequestId::String(b)) => same_text(a.as_str(), b.as_str()),
            _ => false,
        }
    }

    /// The JSON form of the id.
    pub fn json(&self) -> (value: Json)
        ensures
            value@ == request_id_json(self@),
    {
        match self {
            RequestId::Number(n) => number_value(*n),
            RequestId::String(text) => text_value(text.as_str()),
        }
    }
}

/// A request id in words.
pub fn request_id_label(request_id: &RequestId) -> (text: String)
    ensures
        text@ == request_id_label_text(request_id@),
{
    match request_id {
        RequestId::Number(n) => decimal_text(*n as u128),
        RequestId::String(text) => text.clone(),
    }
}

/// What an event reports.
#[derive(Clone, Copy, Debug, PartialEq, Eq, Structural)]
pub enum EventKind {
    TurnStarted,
    TextDelta,
    ToolStarted,
    ToolFinished,
    ApprovalRequired,
    TurnCompleted,
}

/// Something that happened while a request ran.
#[derive(Clone, Debug, PartialEq, Eq)]
pub struct EventFrame {
    pub request_id: RequestId,
    pub event: EventKind,
    pub data: Json,
}

/// Why a request failed.
#[derive(Clone, Debug, PartialEq, Eq)]
pub struct RpcError {
    pub code: i64,
    pub message: String,
}

/// The answer to a request, after which nothing more comes for it.
#[derive(Clone, Debug, PartialEq, Eq)]
pub struct JsonRpcResponse {
    pub id: RequestId,
    pub result: Option<Json>,
    pub error: Option<RpcError>,
}

/// A frame that the daemon sends.
#[derive(Clone, Debug, PartialEq, Eq)]
pub enum ServerFrame {
    Event(EventFrame),
    Response(JsonRpcResponse),
}

/// The mathematical value of a [`ServerFrame`].
pub enum FrameView {
    Event { request_id: RequestIdView, event: EventKind, data: JsonView },
    Response { id: RequestIdView, result: Option<JsonView>, error: Option<(i64, Seq<char>)> },
}

impl View for JsonRpcResponse {
    type V = FrameView;

    open spec fn view(&self) -> FrameView {
        FrameView::Response {
            id: self.id@,
            result: match self.result {
                Some(value) => Some(value@),
                None => None,
            },
            error: match self.error {
                Some(error) => Some((error.code, error.message@)),
                None => None,
            },
        }
    }
}

impl View for EventFrame {
    type V = FrameView;

    open spec fn view(&self) -> FrameView {
        FrameView::Event { request_id: self.request_id@, event: self.event, data: self.data@ }
    }
}

impl View for ServerFrame {
    type V = FrameView;

    open spec fn view(&self) -> FrameView {
        match *self {
            ServerFrame::Event(event) => event@,
            ServerFrame::Response(response) => response@,
        }
    }
}

/// The views of some frames.
pub open spec fn frame_views(frames: Seq<ServerFrame>) -> Seq<FrameView> {
    Seq::new(frames.len(), |i: int| frames[i]@)
}

/// The answer that a request succeeded.
pub open spec fn success_frame(id: RequestIdView, result: JsonView) -> FrameView {
    FrameView::Response { id, result: Some(result), error: None }
}

/// The answer that a request failed.
pub open spec fn failure_frame(id: RequestIdView, code: i64, message: Seq<char>) -> FrameView {
    FrameView::Response { id, result: None, error: Some((code, message)) }
}

impl JsonRpcResponse {
    /// The answer that a request succeeded.
    pub fn success(id: RequestId, result: Json) -> (response: JsonRpcResponse)
        ensures
            response@ == success_frame(id@, result@),
    {
        JsonRpcResponse { id, result: Some(result), error: None }
    }

    /// The answer that a request failed.
    pub fn failure(id: RequestId, code: i64, message: String) -> (response: JsonRpcResponse)
        ensures
            response@ == failure_frame(id@, code, message@),
    {
        JsonRpcResponse { id, result: None, error: Some(RpcError { code, message }) }
    }
}

/// The view of the outcome of a request.
pub open spec fn outcome_view(result: Result<Json, (i64, String)>) -> Result<
    JsonView,
    (i64, Seq<char>),
> {
    match result {
        Ok(value) => Ok(value@),
        Err((code, message)) => Err((code, message@)),
    }
}

/// The answer to a request with an outcome.
pub open spec fn result_frame(
    id: RequestIdView,
    result: Result<JsonView, (i64, Seq<char>)>,
) -> FrameView {
    match result {
        Ok(value) => success_frame(id, value),
        Err((code, message)) => failure_frame(id, code, message),
    }
}

/// The answer to a request with an outcome.
pub fn send_result(id: RequestId, result: Result<Json, (i64, String)>) -> (frame: ServerFrame)
    ensures
        frame@ == result_frame(id@, outcome_view(result)),
{
    let response = match result {
        Ok(value) => JsonRpcResponse::success(id, value),
        Err((code, message)) => JsonRpcResponse::failure(id, code, message),
    };
    ServerFrame::Response(response)
}

/// The id of the request that a frame belongs to.
pub open spec fn frame_request(frame: FrameView) -> RequestIdView {
    match frame {
        FrameView::Event { request_id, event, data } => request_id,
        FrameView::Response { id, result, error } => id,
    }
}

/// An answer carries its outcome under the id of its request: a result where there is one,
/// else the code and the message of the error.
pub proof fn law_answers_carry_their_outcome(
    id: RequestId,
    result: Result<Json, (i64, String)>,
    frame: ServerFrame,
)
    requires
        call_ensures(send_result, (id, result), frame),
    ensures
        result matches Ok(value) ==> frame@ == (FrameView::Response {
            id: id@,
            result: Some(value@),
            error: None,
        }),
        result matches Err((code, message)) ==> frame@ == (FrameView::Response {
            id: id@,
            result: None,
            error: Some((code, message@)),
        }),
{
}

/// An id is told and sent as what it is: a number or a text.
pub proof fn law_ids_are_told_as_they_are(id: RequestIdView)
    ensures
        id matches RequestIdView::Number(n) ==> request_id_json(id) == JsonView::Unsigned(n)
            && request_id_label_text(id) == decimal(n as nat),
        id matches RequestIdView::String(text) ==> request_id_json(id) == JsonView::Text(text)
            && request_id_label_text(id) == text,
{
}

} // verus!

//! What a client asks the daemon for when it comes back to a session.
use vstd::prelude::*;

use crate::daemon::protocol::{request_id_json, RequestId};
use crate::json::{no_entries, Entries, Json, JsonView};
use crate::provider::Message;

verus! {

/// An approval that the user has to give, as a client is shown it.
#[derive(Clone, Debug, PartialEq, Eq)]
pub struct PendingApprovalInfo {
    pub id: String,
    pub request_id: RequestId,
    pub prompt: String,
}

/// What a client needs to go on with a session.
#[derive(Clone, Debug, PartialEq, Eq)]
pub struct RecoverySnapshot {
    pub session_id: String,
    pub messages: Vec<Message>,
    pub pending_approvals: Vec<PendingApprovalInfo>,
    pub active_requests: Vec<RequestId>,
}

/// What is said of a snapshot that cannot be read.
pub fn snapshot_complaint(method: &str) -> (text: String)
    ensures
        text@ == "daemon "@ + method@ + " 会话快照格式无效"@,
{
    let mut text = "daemon ".to_owned();
    text.append(method);
    text.append(" 会话快照格式无效");
    text
}

/// The parameters of a request to resume a session.
pub fn resume_params(session_id: &str) -> (params: Json)
    ensures
        params@ == JsonView::Object(
            no_entries().push(("session_id"@, JsonView::Text(session_id@))),
        ),
{
    Entries::new().with_text("session_id", session_id).object()
}

/// The parameters of an answer to an approval.
pub fn approval_params(approval_id: &str, approved: bool) -> (params: Json)
    ensures
        params@ == JsonView::Object(
            no_entries().push(("approval_id"@, JsonView::Text(approval_id@))).push(
                ("approved"@, JsonView::Bool(approved)),
            ),
        ),
{
    Entries::new().with_text("approval_id", approval_id).with_bool("approved", approved).object()
}

/// The parameters of a request that is about another request.
pub fn request_params(request_id: &RequestId) -> (params: Json)
    ensures
        params@ == JsonView::Object(
            no_entries().push(("request_id"@, request_id_json(request_id@))),
        ),
{
    Entries::new().with("request_id", request_id.json()).object()
}

/// The parameters of a request say what it is about.
pub proof fn law_parameters_say_what_is_meant(
    session_id: &str,
    resume: Json,
    approval_id: &str,
    approved: bool,
    respond: Json,
)
    requires
        call_ensures(resume_params, (session_id,), resume),
        call_ensures(approval_params, (approval_id, approved), respond),
    ensures
        resume@.field("session_id"@) == JsonView::Text(session_id@),
        respond@.field("approval_id"@) == JsonView::Text(approval_id@),
        respond@.field("approved"@) == JsonView::Bool(approved),
{
    reveal_strlit("approval_id");
    reveal_strlit("approved");
    assert("approval_id"@.len() != "approved"@.len());
    let first = no_entries().push(("session_id"@, JsonView::Text(session_id@)));
    crate::json::law_objects_give_the_first_entry_of_a_key(first, "session_id"@, 0);
    let second = no_entries().push(("approval_id"@, JsonView::Text(approval_id@))).push(
        ("approved"@, JsonView::Bool(approved)),
    );
    crate::json::law_objects_give_the_first_entry_of_a_key(second, "approval_id"@, 0);
    crate::json::law_objects_give_the_first_entry_of_a_key(second, "approved"@, 1);
}

} // verus!

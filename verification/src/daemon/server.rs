//! What the daemon does with its connections, and when it ends by itself.
use vstd::prelude::*;

use super::protocol::{
    failure_frame, frame_request, JsonRpcResponse, RequestId, RequestIdView, ServerFrame,
    MAX_FRAME_BYTES,
};
use crate::number::{decimal, decimal_text};

verus! {

/// The code of a frame that is too large.
pub const FRAME_TOO_LARGE: i64 = -32002;

/// The code of a line that is no request.
pub const PARSE_ERROR: i64 = -32700;

/// How long a daemon without clients stays, in milliseconds.
pub const IDLE_MILLIS: u64 = 2000;

/// The clients of a daemon: how many there are, whether there ever was one, and
/// since when there is none.
#[derive(Clone, Debug, PartialEq, Eq)]
pub struct ServerLoop {
    pub clients: usize,
    pub accepted_any: bool,
    pub idle_since: Option<u64>,
}

impl ServerLoop {
    /// A daemon that no client has come to yet.
    pub fn new() -> (out: ServerLoop)
        ensures
            out.clients == 0,
            !out.accepted_any,
            out.idle_since is None,
    {
        ServerLoop { clients: 0, accepted_any: false, idle_since: None }
    }

    /// The daemon with one client more.
    pub open spec fn with_client(self) -> ServerLoop {
        ServerLoop {
            clients: (if self.clients < usize::MAX {
                self.clients + 1
            } else {
                usize::MAX as int
            }) as usize,
            accepted_any: true,
            idle_since: None,
        }
    }

    /// The daemon with one client less.
    pub open spec fn without_client(self, now: u64) -> ServerLoop {
        let clients = (if self.clients > 0 {
            self.clients - 1
        } else {
            0
        }) as usize;
        ServerLoop {
            clients,
            accepted_any: self.accepted_any,
            idle_since: if clients == 0 {
                Some(now)
            } else {
                self.idle_since
            },
        }
    }

    /// A client has come.
    pub fn accepted(&mut self)
        ensures
            *final(self) == old(self).with_client(),
    {
        if self.clients < usize::MAX {
            self.clients = self.clients + 1;
        }
        self.accepted_any = true;
        self.idle_since = None;
    }

    /// A client has gone, at a time in milliseconds.
    pub fn closed(&mut self, now: u64)
        ensures
            *final(self) == old(self).without_client(now),
    {
        if self.clients > 0 {
            self.clients = self.clients - 1;
        }
        if self.clients == 0 {
            self.idle_since = Some(now);
        }
    }

    /// Whether it is time to end, at a time in milliseconds: there was a client, there
    /// is none now, no request runs, and it has been so for long enough.
    pub open spec fn idle_enough(&self, now: u64, active_turns: bool) -> bool {
        &&& self.accepted_any
        &&& self.clients == 0
        &&& !active_turns
        &&& self.idle_since matches Some(since) && now - since >= IDLE_MILLIS
    }

    /// Whether it is time to end.
    pub fn should_stop(&self, now: u64, active_turns: bool) -> (stop: bool)
        ensures
            stop == self.idle_enough(now, active_turns),
    {
        match self.idle_since {
            Some(since) => self.accepted_any && self.clients == 0 && !active_turns && now >= since
                && now - since >= IDLE_MILLIS,
            None => false,
        }
    }
}

/// What happens to a daemon's connections.
pub enum ServerEvent {
    Accepted,
    Closed(u64),
}

/// How many clients there are after some events, each of them counted.
pub open spec fn clients_after(events: Seq<ServerEvent>) -> int
    decreases events.len(),
{
    if events.len() == 0 {
        0
    } else {
        clients_after(events.drop_last()) + (match events.last() {
            ServerEvent::Accepted => 1int,
            ServerEvent::Closed(_) => -1int,
        })
    }
}

/// A daemon after some events, from its start on.
pub open spec fn server_after(events: Seq<ServerEvent>) -> ServerLoop
    decreases events.len(),
{
    if events.len() == 0 {
        ServerLoop { clients: 0, accepted_any: false, idle_since: None }
    } else {
        let before = server_after(events.drop_last());
        match events.last() {
            ServerEvent::Accepted => before.with_client(),
            ServerEvent::Closed(now) => before.without_client(now),
        }
    }
}

/// A daemon ends by itself only after its last client has gone: as many have gone as
/// have come, and there was one.
pub proof fn law_daemon_outlives_its_clients(
    events: Seq<ServerEvent>,
    now: u64,
    active_turns: bool,
)
    requires
        server_after(events).idle_enough(now, active_turns),
        forall|n: int|
            0 <= n <= events.len() ==> 0 <= #[trigger] clients_after(events.take(n)) <= usize::MAX,
    ensures
        clients_after(events) == 0,
        events.len() > 0,
        !active_turns,
{
    lemma_counted(events);
}

proof fn lemma_counted(events: Seq<ServerEvent>)
    requires
        forall|n: int|
            0 <= n <= events.len() ==> 0 <= #[trigger] clients_after(events.take(n)) <= usize::MAX,
    ensures
        server_after(events).clients == clients_after(events),
        server_after(events).accepted_any ==> events.len() > 0,
    decreases events.len(),
{
    if events.len() > 0 {
        let front = events.drop_last();
        assert forall|n: int| 0 <= n <= front.len() implies 0 <= #[trigger] clients_after(
            front.take(n),
        ) <= usize::MAX by {
            assert(front.take(n) =~= events.take(n));
        }
        lemma_counted(front);
        assert(events.take(events.len() as int) =~= events);
        assert(0 <= clients_after(events.take(events.len() as int)) <= usize::MAX);
    }
}

/// The id of answers that belong to no request.
pub open spec fn protocol_id() -> RequestIdView {
    RequestIdView::String("protocol"@)
}

fn protocol_failure(code: i64, message: String) -> (frame: ServerFrame)
    ensures
        frame@ == failure_frame(protocol_id(), code, message@),
{
    ServerFrame::Response(
        JsonRpcResponse::failure(RequestId::String("protocol".to_owned()), code, message),
    )
}

/// The answer to a line that is too long to be read, with its line feed counted.
pub fn refuse_long_line(length: usize) -> (frame: Option<ServerFrame>)
    ensures
        match frame {
            Some(frame) => length > MAX_FRAME_BYTES + 1 && frame@ == failure_frame(
                protocol_id(),
                FRAME_TOO_LARGE,
                "协议帧超过 "@ + decimal(MAX_FRAME_BYTES as nat) + " 字节限制"@,
            ),
            None => length <= MAX_FRAME_BYTES + 1,
        },
{
    if length > MAX_FRAME_BYTES + 1 {
        let mut message = "协议帧超过 ".to_owned();
        message.append(decimal_text(MAX_FRAME_BYTES as u128).as_str());
        message.append(" 字节限制");
        Some(protocol_failure(FRAME_TOO_LARGE, message))
    } else {
        None
    }
}

/// The answer to a line that is no request, for a reason.
pub fn refuse_broken_line(reason: String) -> (frame: ServerFrame)
    ensures
        frame@ == failure_frame(protocol_id(), PARSE_ERROR, reason@),
{
    protocol_failure(PARSE_ERROR, reason)
}

/// The id of the request that a frame belongs to.
pub fn server_frame_request_id(frame: &ServerFrame) -> (id: RequestId)
    ensures
        id@ == frame_request(frame@),
{
    match frame {
        ServerFrame::Event(event) => event.request_id.copy(),
        ServerFrame::Response(response) => response.id.copy(),
    }
}

/// What is sent in place of a frame that could not be encoded, for a reason.
pub fn replace_frame(frame: &ServerFrame, reason: String) -> (out: ServerFrame)
    ensures
        out@ == failure_frame(frame_request(frame@), FRAME_TOO_LARGE, reason@),
{
    ServerFrame::Response(
        JsonRpcResponse::failure(server_frame_request_id(frame), FRAME_TOO_LARGE, reason),
    )
}

/// A daemon that has had clients ends once the last one has been gone for two seconds and
/// nothing runs, and not before.
pub proof fn law_idle_daemon_ends_after_two_seconds(
    server: ServerLoop,
    gone: u64,
    now: u64,
    active_turns: bool,
)
    requires
        server.accepted_any,
        server.clients == 1,
        gone <= now,
    ensures
        server.without_client(gone).idle_enough(now, active_turns) <==> !active_turns && now - gone
            >= 2000,
        !server.with_client().idle_enough(now, active_turns),
        !server.idle_enough(now, active_turns),
{
}

/// As many clients are counted as have come and not gone.
pub proof fn law_clients_are_counted(events: Seq<ServerEvent>)
    requires
        forall|n: int|
            0 <= n <= events.len() ==> 0 <= #[trigger] clients_after(events.take(n)) <= usize::MAX,
    ensures
        server_after(events).clients == events.filter(|event: ServerEvent| event is Accepted).len()
            - events.filter(|event: ServerEvent| event is Closed).len(),
{
    lemma_counted(events);
    lemma_come_and_gone(events);
}

proof fn lemma_come_and_gone(events: Seq<ServerEvent>)
    ensures
        clients_after(events) == events.filter(|event: ServerEvent| event is Accepted).len()
            - events.filter(|event: ServerEvent| event is Closed).len(),
    decreases events.len(),
{
    reveal(Seq::filter);
    if events.len() > 0 {
        lemma_come_and_gone(events.drop_last());
    }
}

/// A line is refused exactly where it is longer than four megabytes and its line feed.
pub proof fn law_only_too_long_lines_are_refused(length: usize, frame: Option<ServerFrame>)
    requires
        call_ensures(refuse_long_line, (length,), frame),
    ensures
        frame is Some <==> length > 4194305,
        frame matches Some(refused) ==> (refused@ matches super::protocol::FrameView::Response {
            error: Some((code, _)),
            result: None,
            ..
        } && code == -32002),
{
}

/// A line that is no request is answered with the reason, under the id for lines that have
/// none.
pub proof fn law_broken_lines_are_answered_with_the_reason(reason: String, frame: ServerFrame)
    requires
        call_ensures(refuse_broken_line, (reason,), frame),
    ensures
        frame@ == (super::protocol::FrameView::Response {
            id: RequestIdView::String("protocol"@),
            result: None,
            error: Some((-32700i64, reason@)),
        }),
{
}

} // verus!

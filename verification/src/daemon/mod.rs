//! The daemon: its state and what it does with each request.
pub mod commands;
pub mod dogfood;
pub mod handlers;
pub mod lifecycle;
pub mod protocol;
pub mod server;

use vstd::prelude::*;
use vstd::utf8::*;

use std::collections::VecDeque;

use self::protocol::{
    failure_frame, success_frame, EventFrame, EventKind, FrameView, JsonRpcResponse, RequestId,
    RequestIdView, ServerFrame,
};
use crate::json::{Json, JsonView};
use crate::text::{opt_str, same_text, texts};

verus! {

/// How many bytes of updates are kept for clients that subscribe late.
pub const ACTIVE_REPLAY_BYTES: usize = 1_048_576;

/// A JSON value together with its compact text.
#[derive(Clone, Debug, PartialEq, Eq)]
pub struct Rendered {
    pub value: Json,
    pub text: String,
}

/// What names a running request: its session and its id.
#[derive(Clone, Debug, Hash, PartialEq, Eq)]
pub struct ActiveKey {
    pub session_id: String,
    pub request_id: RequestId,
}

/// The mathematical value of an [`ActiveKey`].
pub struct KeyView {
    pub session_id: Seq<char>,
    pub request_id: RequestIdView,
}

impl View for ActiveKey {
    type V = KeyView;

    open spec fn view(&self) -> KeyView {
        KeyView { session_id: self.session_id@, request_id: self.request_id@ }
    }
}

impl ActiveKey {
    /// A copy of the key.
    pub fn copy(&self) -> (out: ActiveKey)
        ensures
            out@ == self@,
    {
        ActiveKey { session_id: self.session_id.clone(), request_id: self.request_id.copy() }
    }

    /// Whether two keys are the same.
    pub fn same(&self, other: &ActiveKey) -> (same: bool)
        ensures
            same == (self@ == other@),
    {
        same_text(self.session_id.as_str(), other.session_id.as_str()) && self.request_id.same(
            &other.request_id,
        )
    }
}

/// Something that a running request reports: an event, or its end.
#[derive(Debug, PartialEq, Eq)]
pub enum ActiveRequestUpdate {
    Event { kind: EventKind, data: Rendered },
    Terminal(Result<Rendered, (i64, String)>),
}

/// The mathematical value of an [`ActiveRequestUpdate`]. `text` is the compact
/// text of the JSON value beside it.
pub enum UpdateView {
    Event { kind: EventKind, data: JsonView, text: Seq<char> },
    Done { result: JsonView, text: Seq<char> },
    Failed { code: i64, message: Seq<char> },
}

impl View for ActiveRequestUpdate {
    type V = UpdateView;

    open spec fn view(&self) -> UpdateView {
        match *self {
            ActiveRequestUpdate::Event { kind, data } => UpdateView::Event {
                kind,
                data: data.value@,
                text: data.text@,
            },
            ActiveRequestUpdate::Terminal(Ok(result)) => UpdateView::Done {
                result: result.value@,
                text: result.text@,
            },
            ActiveRequestUpdate::Terminal(Err((code, message))) => UpdateView::Failed {
                code,
                message: message@,
            },
        }
    }
}

impl UpdateView {
    /// How much of the replay an update takes: the bytes of its text and some more
    /// for what goes with it.
    pub open spec fn weight(self) -> nat {
        let bytes = match self {
            UpdateView::Event { kind, data, text } => encode_utf8(text).len(),
            UpdateView::Done { result, text } => encode_utf8(text).len(),
            UpdateView::Failed { code, message } => encode_utf8(message).len(),
        };
        if bytes + 64 <= usize::MAX {
            bytes + 64
        } else {
            usize::MAX as nat
        }
    }

    /// The frame that carries an update to a client under some request id.
    pub open spec fn frame(self, id: RequestIdView) -> FrameView {
        match self {
            UpdateView::Event { kind, data, text } => FrameView::Event {
                request_id: id,
                event: kind,
                data,
            },
            UpdateView::Done { result, text } => success_frame(id, result),
            UpdateView::Failed { code, message } => failure_frame(id, code, message),
        }
    }

    /// Whether nothing more comes after an update.
    pub open spec fn is_terminal(self) -> bool {
        !(self is Event)
    }
}

/// The views of some updates.
pub open spec fn update_views(updates: Seq<ActiveRequestUpdate>) -> Seq<UpdateView> {
    Seq::new(updates.len(), |i: int| updates[i]@)
}

/// How much of the replay some updates take.
pub open spec fn total_weight(updates: Seq<UpdateView>) -> nat
    decreases updates.len(),
{
    if updates.len() == 0 {
        0
    } else {
        updates[0].weight() + total_weight(updates.skip(1))
    }
}

/// The longest tail of some updates that the replay has room for.
pub open spec fn kept_tail(updates: Seq<UpdateView>) -> Seq<UpdateView>
    decreases updates.len(),
{
    if total_weight(updates) <= ACTIVE_REPLAY_BYTES || updates.len() == 0 {
        updates
    } else {
        kept_tail(updates.skip(1))
    }
}

proof fn lemma_total_push(updates: Seq<UpdateView>, update: UpdateView)
    ensures
        total_weight(updates.push(update)) == total_weight(updates) + update.weight(),
    decreases updates.len(),
{
    let all = updates.push(update);
    if updates.len() == 0 {
        assert(total_weight(all.skip(1)) == 0);
        assert(total_weight(updates) == 0);
    } else {
        assert(all.skip(1) =~= updates.skip(1).push(update));
        lemma_total_push(updates.skip(1), update);
    }
}

/// What is kept is a tail of what was there, fits the replay, and is no shorter
/// than it has to be.
pub proof fn law_replay_keeps_the_latest_updates(updates: Seq<UpdateView>)
    ensures
        total_weight(kept_tail(updates)) <= ACTIVE_REPLAY_BYTES,
        exists|n: int|
            0 <= n <= updates.len() && kept_tail(updates) == #[trigger] updates.skip(n) && (n > 0
                ==> total_weight(updates.skip(n - 1)) > ACTIVE_REPLAY_BYTES),
    decreases updates.len(),
{
    if total_weight(updates) <= ACTIVE_REPLAY_BYTES || updates.len() == 0 {
        assert(updates.skip(0) =~= updates);
    } else {
        let rest = updates.skip(1);
        law_replay_keeps_the_latest_updates(rest);
        let n = choose|n: int|
            0 <= n <= rest.len() && kept_tail(rest) == #[trigger] rest.skip(n) && (n > 0
                ==> total_weight(rest.skip(n - 1)) > ACTIVE_REPLAY_BYTES);
        assert(rest.skip(n) =~= updates.skip(n + 1));
        if n > 0 {
            assert(rest.skip(n - 1) =~= updates.skip(n));
        } else {
            assert(updates.skip(0) =~= updates);
        }
    }
}

impl Rendered {
    /// A copy of the value and its text.
    pub fn copy(&self) -> (out: Rendered)
        ensures
            out.value@ == self.value@,
            out.text@ == self.text@,
    {
        Rendered { value: self.value.copy(), text: self.text.clone() }
    }
}

impl ActiveRequestUpdate {
    /// A copy of the update.
    pub fn copy(&self) -> (out: ActiveRequestUpdate)
        ensures
            out@ == self@,
    {
        match self {
            ActiveRequestUpdate::Event { kind, data } => ActiveRequestUpdate::Event {
                kind: *kind,
                data: data.copy(),
            },
            ActiveRequestUpdate::Terminal(Ok(result)) => ActiveRequestUpdate::Terminal(
                Ok(result.copy()),
            ),
            ActiveRequestUpdate::Terminal(Err((code, message))) => ActiveRequestUpdate::Terminal(
                Err((*code, message.clone())),
            ),
        }
    }

    /// The frame that carries the update to a client under some request id.
    pub fn to_frame(&self, request_id: RequestId) -> (frame: ServerFrame)
        ensures
            frame@ == self@.frame(request_id@),
    {
        match self {
            ActiveRequestUpdate::Event { kind, data } => ServerFrame::Event(
                EventFrame { request_id, event: *kind, data: data.value.copy() },
            ),
            ActiveRequestUpdate::Terminal(Ok(result)) => ServerFrame::Response(
                JsonRpcResponse::success(request_id, result.value.copy()),
            ),
            ActiveRequestUpdate::Terminal(Err((code, message))) => ServerFrame::Response(
                JsonRpcResponse::failure(request_id, *code, message.clone()),
            ),
        }
    }

    /// Whether nothing more comes after the update.
    pub fn is_terminal(&self) -> (terminal: bool)
        ensures
            terminal == self@.is_terminal(),
    {
        match self {
            ActiveRequestUpdate::Event { kind, data } => false,
            ActiveRequestUpdate::Terminal(_) => true,
        }
    }

    /// How much of the replay the update takes.
    pub fn replay_bytes(&self) -> (bytes: usize)
        ensures
            bytes == self@.weight(),
    {
        match self {
            ActiveRequestUpdate::Event { kind, data } => data.text.as_str().as_bytes().len().saturating_add(64),
            ActiveRequestUpdate::Terminal(Ok(result)) => result.text.as_str().as_bytes().len().saturating_add(
                64,
            ),
            ActiveRequestUpdate::Terminal(Err((_, message))) => message.as_str().as_bytes().len().saturating_add(
                64,
            ),
        }
    }
}

impl Clone for ActiveRequestUpdate {
    fn clone(&self) -> (out: ActiveRequestUpdate)
        ensures
            out@ == self@,
    {
        self.copy()
    }
}

/// What a running request keeps for clients that subscribe late.
#[derive(Debug)]
pub struct ActiveRequest {
    replay: VecDeque<ActiveRequestUpdate>,
    replay_bytes: usize,
}

impl View for ActiveRequest {
    type V = Seq<UpdateView>;

    closed spec fn view(&self) -> Seq<UpdateView> {
        update_views(self.replay@)
    }
}

impl ActiveRequest {
    /// The bytes are counted right, and fit the replay.
    pub closed spec fn wf(&self) -> bool {
        &&& self.replay_bytes == total_weight(self@)
        &&& self.replay_bytes <= ACTIVE_REPLAY_BYTES
    }

    /// A request that has reported nothing yet.
    pub fn new() -> (out: ActiveRequest)
        ensures
            out.wf(),
            out@ == Seq::<UpdateView>::empty(),
    {
        let out = ActiveRequest { replay: VecDeque::new(), replay_bytes: 0 };
        assert(out@ =~= Seq::empty());
        out
    }

    /// Keeps an update, and lets go of the oldest ones that there is no room for.
    pub fn publish(&mut self, update: ActiveRequestUpdate)
        requires
            old(self).wf(),
        ensures
            final(self).wf(),
            final(self)@ == kept_tail(old(self)@.push(update@)),
    {
        let bytes = update.replay_bytes();
        let ghost was = self@;
        let ghost all = self@.push(update@);
        proof {
            lemma_total_push(self@, update@);
        }
        self.replay.push_back(update);
        assert(update_views(self.replay@) =~= all);
        let ghost before = self.replay_bytes as int;
        let ghost overflow = before + bytes - usize::MAX;
        self.replay_bytes = self.replay_bytes.saturating_add(bytes);
        while self.replay_bytes > ACTIVE_REPLAY_BYTES
            invariant
                kept_tail(self@) == kept_tail(all),
                overflow <= 0 ==> self.replay_bytes == total_weight(self@),
                overflow > 0 ==> self.replay_bytes == (if self@.len() > 0 {
                    total_weight(self@) - overflow
                } else {
                    0
                }),
                overflow > 0 && self@.len() > 0 ==> self@.last() == update@,
                update@.weight() == bytes,
                overflow == before + bytes - usize::MAX,
                0 <= before <= ACTIVE_REPLAY_BYTES,
                overflow > 0 && self@.len() > 0 ==> total_weight(self@) >= bytes,
            ensures
                self.replay_bytes <= ACTIVE_REPLAY_BYTES,
            decreases self.replay@.len(),
        {
            proof {
                if self@.len() == 0 {
                    assert(total_weight(self@) == 0);
                }
            }
            let ghost now = self@;
            let removed = match self.replay.pop_front() {
                Some(removed) => removed,
                None => {
                    break;
                },
            };
            proof {
                assert(update_views(self.replay@) =~= now.skip(1));
                assert(removed@ == now[0]);
                assert(total_weight(now) == now[0].weight() + total_weight(now.skip(1)));
                if now.len() > 1 {
                    assert(now.skip(1).last() == now.last());
                    lemma_total_push(now.skip(1).drop_last(), now.last());
                    assert(now.skip(1).drop_last().push(now.last()) =~= now.skip(1));
                } else {
                    assert(total_weight(now.skip(1)) == 0);
                }
            }
            self.replay_bytes = self.replay_bytes.saturating_sub(removed.replay_bytes());
        }
        proof {
            if overflow > 0 && self@.len() > 0 {
                assert(false);
            }
            if self@.len() == 0 {
                assert(total_weight(self@) == 0);
            }
        }
    }

    /// What has been kept, oldest first.
    pub fn replay(&self) -> (out: Vec<ActiveRequestUpdate>)
        ensures
            update_views(out@) == self@,
    {
        let mut out: Vec<ActiveRequestUpdate> = Vec::new();
        let mut at: usize = 0;
        while at < self.replay.len()
            invariant
                at == out.len(),
                at <= self.replay@.len(),
                forall|i: int| 0 <= i < at ==> (#[trigger] out@[i])@ == self.replay@[i]@,
            decreases self.replay@.len() - at,
        {
            out.push(self.replay[at].copy());
            at += 1;
        }
        assert(update_views(out@) =~= self@);
        out
    }
}

/// The mathematical value of a running request.
pub struct ActiveView {
    pub key: KeyView,
    pub replay: Seq<UpdateView>,
}

/// The mathematical value of a [`DaemonState`].
pub struct DaemonView {
    pub default_session: Seq<char>,
    pub legacy_session_id: Seq<char>,
    pub sessions: Seq<Seq<char>>,
    pub active: Seq<ActiveView>,
}

/// What the daemon knows: its sessions, and the requests that are running.
#[derive(Debug)]
pub struct DaemonState {
    default_session: String,
    legacy_session_id: String,
    sessions: Vec<String>,
    active: Vec<(ActiveKey, ActiveRequest)>,
}

spec fn active_views(active: Seq<(ActiveKey, ActiveRequest)>) -> Seq<ActiveView> {
    Seq::new(active.len(), |i: int| ActiveView { key: active[i].0@, replay: active[i].1@ })
}

impl View for DaemonState {
    type V = DaemonView;

    closed spec fn view(&self) -> DaemonView {
        DaemonView {
            default_session: self.default_session@,
            legacy_session_id: self.legacy_session_id@,
            sessions: texts(self.sessions@),
            active: active_views(self.active@),
        }
    }
}

impl DaemonView {
    /// No two running requests have one key, and no session is open twice.
    pub open spec fn consistent(self) -> bool {
        &&& forall|i: int, j: int|
            0 <= i < j < self.active.len() ==> (#[trigger] self.active[i]).key != (
            #[trigger] self.active[j]).key
        &&& self.sessions.no_duplicates()
    }

    /// Whether a request is running.
    pub open spec fn is_running(self, key: KeyView) -> bool {
        exists|i: int| 0 <= i < self.active.len() && (#[trigger] self.active[i]).key == key
    }
}

impl DaemonState {
    /// Every running request is in order, and the state is consistent.
    pub closed spec fn wf(&self) -> bool {
        &&& self@.consistent()
        &&& forall|i: int| 0 <= i < self.active@.len() ==> (#[trigger] self.active@[i]).1.wf()
    }

    /// The state of a daemon that has just started with a session.
    pub fn new_with_services(session_id: &str) -> (state: DaemonState)
        ensures
            state.wf(),
            state@.default_session == session_id@,
            state@.legacy_session_id == session_id@,
            state@.sessions == Seq::<Seq<char>>::empty(),
            state@.active == Seq::<ActiveView>::empty(),
    {
        let state = DaemonState {
            default_session: session_id.to_owned(),
            legacy_session_id: session_id.to_owned(),
            sessions: Vec::new(),
            active: Vec::new(),
        };
        assert(state@.sessions =~= Seq::empty());
        assert(state@.active =~= Seq::empty());
        state
    }

    /// Whether any request is running.
    pub fn has_active_turns(&self) -> (active: bool)
        ensures
            active == (self@.active.len() > 0),
    {
        self.active.len() > 0
    }

    fn find(&self, key: &ActiveKey) -> (found: Option<usize>)
        ensures
            match found {
                Some(at) => at < self.active@.len() && self@.active[at as int].key == key@,
                None => !self@.is_running(key@),
            },
    {
        let mut at: usize = 0;
        while at < self.active.len()
            invariant
                at <= self.active.len(),
                forall|i: int| 0 <= i < at ==> (#[trigger] self@.active[i]).key != key@,
            decreases self.active.len() - at,
        {
            if self.active[at].0.same(key) {
                return Some(at);
            }
            at += 1;
        }
        None
    }

    /// Starts a request. One that is running already is refused, and nothing changes.
    pub fn begin_turn(&mut self, key: &ActiveKey) -> (started: bool)
        requires
            old(self).wf(),
        ensures
            final(self).wf(),
            started == !old(self)@.is_running(key@),
            started ==> final(self)@ == (DaemonView {
                active: old(self)@.active.push(
                    ActiveView { key: key@, replay: Seq::<UpdateView>::empty() },
                ),
                ..old(self)@
            }),
            !started ==> final(self)@ == old(self)@,
    {
        if self.find(key).is_some() {
            return false;
        }
        let ghost before = self@;
        self.active.push((key.copy(), ActiveRequest::new()));
        assert(self@.active =~= before.active.push(
            ActiveView { key: key@, replay: Seq::<UpdateView>::empty() },
        ));
        true
    }

    /// Hands an update of a request on: to the replay of the request where it is
    /// still running, and to the client that sent it.
    pub fn publish_update(&mut self, key: &ActiveKey, update: &ActiveRequestUpdate) -> (frame:
        ServerFrame)
        requires
            old(self).wf(),
        ensures
            final(self).wf(),
            frame@ == update@.frame(key@.request_id),
            final(self)@.default_session == old(self)@.default_session,
            final(self)@.legacy_session_id == old(self)@.legacy_session_id,
            final(self)@.sessions == old(self)@.sessions,
            final(self)@.active == published(old(self)@.active, key@, update@),
    {
        if let Some(at) = self.find(key) {
            let ghost before = self@.active;
            let (found_key, mut request) = self.active.remove(at);
            request.publish(update.copy());
            self.active.insert(at, (found_key, request));
            assert(self@.active =~= published(before, key@, update@));
        } else {
            assert(self@.active =~= published(self@.active, key@, update@));
        }
        update.to_frame(key.request_id.copy())
    }

    /// Ends a request: its last update goes out, and it is no longer running.
    pub fn finish_turn(&mut self, key: &ActiveKey, terminal: Result<Rendered, (i64, String)>) -> (frame:
        ServerFrame)
        requires
            old(self).wf(),
        ensures
            final(self).wf(),
            frame@ == ActiveRequestUpdate::Terminal(terminal)@.frame(key@.request_id),
            final(self)@.default_session == old(self)@.default_session,
            final(self)@.legacy_session_id == old(self)@.legacy_session_id,
            final(self)@.sessions == old(self)@.sessions,
            final(self)@.active == without_key(old(self)@.active, key@),
            !final(self)@.is_running(key@),
    {
        let update = ActiveRequestUpdate::Terminal(terminal);
        let ghost before = self@.active;
        proof {
            lemma_without_key(before, key@);
        }
        if let Some(at) = self.find(key) {
            let removed = self.active.remove(at);
            proof {
                assert(self@.active =~= before.remove(at as int));
                lemma_without_key_at(before, key@, at as int);
            }
        } else {
            proof {
                lemma_without_absent(before, key@);
            }
        }
        update.to_frame(key.request_id.copy())
    }
}

/// Where a session is found.
#[derive(Clone, Debug, PartialEq, Eq)]
pub enum SessionRoute {
    /// It is the session that the daemon started with.
    Default(String),
    /// It has been opened before.
    Open(String),
    /// It has to be opened first.
    Unopened(String),
}

/// The mathematical value of a [`SessionRoute`].
pub enum RouteView {
    Default(Seq<char>),
    Open(Seq<char>),
    Unopened(Seq<char>),
}

impl View for SessionRoute {
    type V = RouteView;

    open spec fn view(&self) -> RouteView {
        match *self {
            SessionRoute::Default(id) => RouteView::Default(id@),
            SessionRoute::Open(id) => RouteView::Open(id@),
            SessionRoute::Unopened(id) => RouteView::Unopened(id@),
        }
    }
}

impl DaemonView {
    /// Where the session is found that a request asks for; one that asks for none
    /// means the session in use.
    pub open spec fn route(self, requested: Option<Seq<char>>) -> RouteView {
        let id = match requested {
            Some(id) => id,
            None => self.legacy_session_id,
        };
        if id == self.default_session {
            RouteView::Default(id)
        } else if self.sessions.contains(id) {
            RouteView::Open(id)
        } else {
            RouteView::Unopened(id)
        }
    }

    /// The state with one more open session.
    pub open spec fn with_session(self, id: Seq<char>) -> DaemonView {
        if self.sessions.contains(id) {
            self
        } else {
            DaemonView { sessions: self.sessions.push(id), ..self }
        }
    }
}

/// Whether some texts hold a text.
pub fn holds_text(list: &Vec<String>, text: &str) -> (found: bool)
    ensures
        found == texts(list@).contains(text@),
{
    let mut at: usize = 0;
    while at < list.len()
        invariant
            at <= list.len(),
            forall|i: int| 0 <= i < at ==> #[trigger] texts(list@)[i] != text@,
        decreases list.len() - at,
    {
        if same_text(list[at].as_str(), text) {
            assert(texts(list@)[at as int] == text@);
            return true;
        }
        at += 1;
    }
    false
}

impl DaemonState {
    /// Where the session is found that a request asks for.
    pub fn session_runtime(&self, requested: Option<&str>) -> (route: SessionRoute)
        ensures
            route@ == self@.route(opt_str(requested)),
    {
        let id = match requested {
            Some(id) => id.to_owned(),
            None => self.legacy_session_id.clone(),
        };
        if same_text(id.as_str(), self.default_session.as_str()) {
            SessionRoute::Default(id)
        } else if holds_text(&self.sessions, id.as_str()) {
            SessionRoute::Open(id)
        } else {
            SessionRoute::Unopened(id)
        }
    }

    /// Takes note of a session that has been opened.
    pub fn add_session(&mut self, id: &str)
        requires
            old(self).wf(),
        ensures
            final(self).wf(),
            final(self)@ == old(self)@.with_session(id@),
    {
        if !holds_text(&self.sessions, id) {
            let ghost before = self@;
            self.sessions.push(id.to_owned());
            assert(self@.sessions =~= before.sessions.push(id@));
        }
    }

    /// Takes note of a new session, which is from now on the one in use.
    pub fn use_session(&mut self, id: &str)
        requires
            old(self).wf(),
        ensures
            final(self).wf(),
            final(self)@ == (DaemonView {
                legacy_session_id: id@,
                ..old(self)@.with_session(id@)
            }),
    {
        self.add_session(id);
        self.legacy_session_id = id.to_owned();
    }

    /// The session in use.
    pub fn legacy_session_id(&self) -> (id: &str)
        ensures
            id@ == self@.legacy_session_id,
    {
        self.legacy_session_id.as_str()
    }

    /// The sessions that have been opened.
    pub fn sessions(&self) -> (ids: &Vec<String>)
        ensures
            texts(ids@) == self@.sessions,
    {
        &self.sessions
    }

    /// How many requests are running.
    pub fn active_len(&self) -> (count: usize)
        ensures
            count == self@.active.len(),
    {
        self.active.len()
    }

    /// The key of one of the running requests.
    pub fn active_key(&self, at: usize) -> (key: &ActiveKey)
        requires
            at < self@.active.len(),
        ensures
            key@ == self@.active[at as int].key,
    {
        &self.active[at].0
    }

    /// What one of the running requests has kept.
    pub fn active_replay(&self, at: usize) -> (out: Vec<ActiveRequestUpdate>)
        requires
            at < self@.active.len(),
        ensures
            update_views(out@) == self@.active[at as int].replay,
    {
        self.active[at].1.replay()
    }
}

/// Some running requests after one of them, if it is there, has published an update.
pub open spec fn published(active: Seq<ActiveView>, key: KeyView, update: UpdateView) -> Seq<
    ActiveView,
> {
    Seq::new(
        active.len(),
        |i: int|
            if active[i].key == key {
                ActiveView { key, replay: kept_tail(active[i].replay.push(update)) }
            } else {
                active[i]
            },
    )
}

/// Some running requests without the one with a key.
pub open spec fn without_key(active: Seq<ActiveView>, key: KeyView) -> Seq<ActiveView>
    decreases active.len(),
{
    if active.len() == 0 {
        Seq::empty()
    } else if active.last().key == key {
        without_key(active.drop_last(), key)
    } else {
        without_key(active.drop_last(), key).push(active.last())
    }
}

proof fn lemma_without_key(active: Seq<ActiveView>, key: KeyView)
    ensures
        forall|i: int|
            0 <= i < without_key(active, key).len() ==> (#[trigger] without_key(active, key)[i]).key
                != key,
    decreases active.len(),
{
    if active.len() > 0 {
        lemma_without_key(active.drop_last(), key);
    }
}

proof fn lemma_without_absent(active: Seq<ActiveView>, key: KeyView)
    requires
        forall|i: int| 0 <= i < active.len() ==> (#[trigger] active[i]).key != key,
    ensures
        without_key(active, key) == active,
    decreases active.len(),
{
    if active.len() > 0 {
        let front = active.drop_last();
        assert forall|i: int| 0 <= i < front.len() implies (#[trigger] front[i]).key != key by {
            assert(active[i].key != key);
        }
        assert(active[active.len() - 1].key != key);
        lemma_without_absent(front, key);
        assert(front.push(active.last()) =~= active);
    } else {
        assert(active =~= Seq::empty());
    }
}

proof fn lemma_without_key_at(active: Seq<ActiveView>, key: KeyView, at: int)
    requires
        0 <= at < active.len(),
        active[at].key == key,
        forall|i: int, j: int|
            0 <= i < j < active.len() ==> (#[trigger] active[i]).key != (#[trigger] active[j]).key,
    ensures
        without_key(active, key) == active.remove(at),
    decreases active.len(),
{
    let front = active.drop_last();
    if at == active.len() - 1 {
        assert forall|i: int| 0 <= i < front.len() implies (#[trigger] front[i]).key != key by {
            assert(active[i].key != active[at].key);
        }
        lemma_without_absent(front, key);
        assert(active.remove(at) =~= front);
    } else {
        assert(active[at].key != active[active.len() - 1].key);
        assert forall|i: int, j: int| 0 <= i < j < front.len() implies (#[trigger] front[i]).key != (
        #[trigger] front[j]).key by {
            assert(active[i].key != active[j].key);
        }
        lemma_without_key_at(front, key, at);
        assert(active.remove(at) =~= front.remove(at).push(active.last()));
    }
}

/// What a request publishes goes with it when it ends.
pub proof fn lemma_without_published(active: Seq<ActiveView>, key: KeyView, update: UpdateView)
    ensures
        without_key(published(active, key, update), key) == without_key(active, key),
    decreases active.len(),
{
    if active.len() > 0 {
        let after = published(active, key, update);
        assert(after.drop_last() =~= published(active.drop_last(), key, update));
        lemma_without_published(active.drop_last(), key, update);
    }
}

/// In no state of the daemon does a request of a session run twice, nor is a session
/// open twice.
pub proof fn law_nothing_runs_twice(state: &DaemonState)
    requires
        state.wf(),
    ensures
        state@.consistent(),
{
}

/// A request that has ended is no longer running: it may run again under the same
/// key.
pub proof fn law_finished_requests_may_start_again(view: DaemonView, key: KeyView)
    ensures
        !(DaemonView { active: without_key(view.active, key), ..view }).is_running(key),
{
    lemma_without_key(view.active, key);
}

/// Two sessions may run requests with one id: what one request publishes leaves
/// every other running request as it was.
pub proof fn law_requests_of_other_sessions_are_untouched(
    active: Seq<ActiveView>,
    key: KeyView,
    update: UpdateView,
    i: int,
)
    requires
        0 <= i < active.len(),
        active[i].key != key,
    ensures
        published(active, key, update)[i] == active[i],
{
}

/// What a request publishes is the last thing in its replay, behind as much of what it
/// published before as there is room for; nothing else changes.
pub proof fn law_published_update_is_the_last(
    active: Seq<ActiveView>,
    key: KeyView,
    update: UpdateView,
    i: int,
)
    requires
        0 <= i < active.len(),
        active[i].key == key,
    ensures
        ({
            let now = published(active, key, update);
            &&& now.len() == active.len()
            &&& now[i].key == key
            &&& total_weight(active[i].replay) + update.weight() <= 1048576 ==> now[i].replay
                == active[i].replay.push(update)
            &&& update.weight() <= 1048576 ==> now[i].replay.len() > 0 && now[i].replay.last()
                == update
            &&& exists|n: int|
                0 <= n <= active[i].replay.len() + 1 && now[i].replay == #[trigger] active[i].replay.push(
                    update,
                ).skip(n)
        }),
{
    let all = active[i].replay.push(update);
    lemma_total_push(active[i].replay, update);
    law_replay_keeps_the_latest_updates(all);
    let n = choose|n: int|
        0 <= n <= all.len() && kept_tail(all) == #[trigger] all.skip(n) && (n > 0
            ==> total_weight(all.skip(n - 1)) > ACTIVE_REPLAY_BYTES);
    if n == all.len() {
        let alone = all.skip(n - 1);
        assert(alone =~= seq![update]);
        assert(alone.skip(1) =~= Seq::empty());
        assert(total_weight(alone.skip(1)) == 0);
        assert(total_weight(alone) == update.weight());
    }
}

/// An update weighs as many bytes as its text has, and sixty-four more; updates weigh
/// together what they weigh each.
pub proof fn law_updates_weigh_their_bytes(a: Seq<UpdateView>, b: Seq<UpdateView>, update: UpdateView)
    ensures
        total_weight(a + b) == total_weight(a) + total_weight(b),
        update matches UpdateView::Event { text, .. } ==> (encode_utf8(text).len() + 64
            <= usize::MAX ==> update.weight() == encode_utf8(text).len() + 64),
        update matches UpdateView::Done { text, .. } ==> (encode_utf8(text).len() + 64
            <= usize::MAX ==> update.weight() == encode_utf8(text).len() + 64),
        update matches UpdateView::Failed { message, .. } ==> (encode_utf8(message).len() + 64
            <= usize::MAX ==> update.weight() == encode_utf8(message).len() + 64),
    decreases a.len(),
{
    if a.len() == 0 {
        assert(a + b =~= b);
    } else {
        law_updates_weigh_their_bytes(a.skip(1), b, update);
        assert((a + b).skip(1) =~= a.skip(1) + b);
        assert((a + b)[0] == a[0]);
    }
}

/// When a request ends, it alone stops running.
pub proof fn law_other_requests_go_on(active: Seq<ActiveView>, key: KeyView)
    ensures
        without_key(active, key) == active.filter(|request: ActiveView| request.key != key),
    decreases active.len(),
{
    reveal(Seq::filter);
    if active.len() > 0 {
        law_other_requests_go_on(active.drop_last(), key);
    }
    assert(without_key(active, key) =~= active.filter(|request: ActiveView| request.key != key));
}

/// A request goes to the session that it names, and to the one in use where it names none;
/// a session is opened only where it is not open yet.
pub proof fn law_requests_go_to_the_session_they_name(
    view: DaemonView,
    requested: Option<Seq<char>>,
    id: Seq<char>,
)
    requires
        id == (match requested {
            Some(name) => name,
            None => view.legacy_session_id,
        }),
    ensures
        id == view.default_session ==> view.route(requested) == RouteView::Default(id),
        id != view.default_session && view.sessions.contains(id) ==> view.route(requested)
            == RouteView::Open(id),
        id != view.default_session && !view.sessions.contains(id) ==> view.route(requested)
            == RouteView::Unopened(id),
{
}

/// A session that is opened is open, every other one stays so, none is open twice, and what
/// runs goes on.
pub proof fn law_opened_session_is_open(view: DaemonView, id: Seq<char>, other: Seq<char>)
    ensures
        view.with_session(id).sessions.contains(id),
        other != id ==> (view.with_session(id).sessions.contains(other)
            <==> view.sessions.contains(other)),
        view.consistent() ==> view.with_session(id).consistent(),
        view.with_session(id).active == view.active,
        view.with_session(id).default_session == view.default_session,
        view.with_session(id).legacy_session_id == view.legacy_session_id,
{
    let now = view.with_session(id).sessions;
    if !view.sessions.contains(id) {
        assert(now[view.sessions.len() as int] == id);
        if view.sessions.contains(other) {
            let k = choose|k: int| 0 <= k < view.sessions.len() && view.sessions[k] == other;
            assert(now[k] == other);
        }
        if now.contains(other) && other != id {
            let k = choose|k: int| 0 <= k < now.len() && now[k] == other;
            assert(view.sessions[k] == other);
        }
        if view.consistent() {
            assert forall|i: int, j: int|
                0 <= i < now.len() && 0 <= j < now.len() && i != j implies now[i] != now[j] by {
                if i < view.sessions.len() {
                    assert(view.sessions.contains(view.sessions[i]));
                }
                if j < view.sessions.len() {
                    assert(view.sessions.contains(view.sessions[j]));
                }
            }
        }
    }
}

/// A request that starts, reports something and ends leaves the daemon with what ran before
/// it, and all that it reported went out under its id.
pub proof fn law_finished_request_leaves_no_trace(
    starting: &mut DaemonState,
    reporting: &mut DaemonState,
    ending: &mut DaemonState,
    key: &ActiveKey,
    started: bool,
    update: &ActiveRequestUpdate,
    told: ServerFrame,
    terminal: Result<Rendered, (i64, String)>,
    answer: ServerFrame,
)
    requires
        old(starting).wf(),
        call_ensures(DaemonState::begin_turn, (starting, key), started),
        call_ensures(DaemonState::publish_update, (reporting, key, update), told),
        call_ensures(DaemonState::finish_turn, (ending, key, terminal), answer),
    ensures
        started <==> forall|i: int|
            0 <= i < old(starting)@.active.len() ==> (#[trigger] old(starting)@.active[i]).key
                != key@,
        started && old(reporting)@ == final(starting)@ && old(ending)@ == final(reporting)@
            ==> final(ending)@ == old(starting)@,
        started && old(reporting)@ == final(starting)@ && update@.weight() <= 1048576 ==> final(
            reporting)@.active.last().replay == seq![update@],
        told@ == update@.frame(key@.request_id),
        terminal matches Ok(result) ==> answer@ == (FrameView::Response {
            id: key@.request_id,
            result: Some(result.value@),
            error: None,
        }),
        terminal matches Err((code, message)) ==> answer@ == (FrameView::Response {
            id: key@.request_id,
            result: None,
            error: Some((code, message@)),
        }),
{
    let before = old(starting)@.active;
    let fresh = ActiveView { key: key@, replay: Seq::<UpdateView>::empty() };
    if started {
        assert forall|i: int| 0 <= i < before.len() implies (#[trigger] before[i]).key
            != key@ by {}
        lemma_without_absent(before, key@);
        lemma_without_published(before.push(fresh), key@, update@);
        assert(before.push(fresh).drop_last() =~= before);
        let one = Seq::<UpdateView>::empty().push(update@);
        assert(one =~= seq![update@]);
        lemma_total_push(Seq::empty(), update@);
        assert(total_weight(Seq::empty()) == 0);
    }
}

/// A session that is used is open and the one in use; nothing else changes.
pub proof fn law_used_session_is_the_one_in_use(state: &mut DaemonState, id: &str)
    requires
        old(state).wf(),
        call_ensures(DaemonState::use_session, (state, id), ()),
    ensures
        final(state)@.legacy_session_id == id@,
        final(state)@.sessions.contains(id@),
        final(state)@.active == old(state)@.active,
        final(state)@.default_session == old(state)@.default_session,
        forall|i: int|
            0 <= i < old(state)@.sessions.len() ==> final(state)@.sessions.contains(
                #[trigger] old(state)@.sessions[i],
            ),
{
    let before = old(state)@;
    law_opened_session_is_open(before, id@, id@);
    assert forall|i: int| 0 <= i < before.sessions.len() implies before.with_session(
        id@,
    ).sessions.contains(#[trigger] before.sessions[i]) by {
        assert(before.sessions.contains(before.sessions[i]));
        law_opened_session_is_open(before, id@, before.sessions[i]);
    }
}

} // verus!

use my_agent::client::DaemonClient;
use my_agent::daemon::handlers::{
    AgentEvent, Call, CancelParams, ChatSendParams, LiveEvent, Method, PendingApproval, RequestStep,
    SessionResumeParams, TurnError, agent_event_update, approval_outcome, chat_outcome,
    is_resolved_approval, session_resume, session_trace, subscription_step,
};
use my_agent::daemon::protocol::{
    EventKind, JsonRpcResponse, MAX_FRAME_BYTES, RequestId, ServerFrame, request_id_label, send_result,
};
use my_agent::daemon::server::{
    ServerLoop, refuse_broken_line, refuse_long_line, replace_frame, server_frame_request_id,
};
use my_agent::daemon::{
    ActiveKey, ActiveRequest, ActiveRequestUpdate, DaemonState, Rendered, SessionRoute,
};
use my_agent::json::{Json, JsonNumber};
use my_agent::session::{SessionInfo, SessionStatus};
use serde_json::Value;

fn json(text: &str) -> Json {
    from_value(&serde_json::from_str(text).unwrap())
}

fn from_value(value: &Value) -> Json {
    match value {
        Value::Null => Json::Null,
        Value::Bool(truth) => Json::Bool(*truth),
        Value::Number(number) => Json::Number(if let Some(n) = number.as_u64() {
            JsonNumber::Unsigned(n)
        } else if let Some(n) = number.as_i64() {
            JsonNumber::Negative(n)
        } else {
            JsonNumber::Other(number.to_string())
        }),
        Value::String(text) => Json::Text(text.clone()),
        Value::Array(list) => Json::List(list.iter().map(from_value).collect()),
        Value::Object(map) => {
            Json::Object(map.iter().map(|(key, value)| (key.clone(), from_value(value))).collect())
        }
    }
}

fn value(json: &Json) -> Value {
    match json {
        Json::Null => Value::Null,
        Json::Bool(truth) => Value::Bool(*truth),
        Json::Number(JsonNumber::Unsigned(n)) => Value::from(*n),
        Json::Number(JsonNumber::Negative(n)) => Value::from(*n),
        Json::Number(JsonNumber::Other(text)) => serde_json::from_str(text).unwrap(),
        Json::Text(text) => Value::String(text.clone()),
        Json::List(list) => Value::Array(list.iter().map(value).collect()),
        Json::Object(entries) => {
            Value::Object(entries.iter().map(|(key, item)| (key.clone(), value(item))).collect())
        }
    }
}

fn parsed(text: &str) -> Value {
    serde_json::from_str(text).unwrap()
}

fn rendered(json: Json) -> Rendered {
    let text = value(&json).to_string();
    Rendered { value: json, text }
}

fn response(frame: ServerFrame) -> JsonRpcResponse {
    match frame {
        ServerFrame::Response(response) => response,
        ServerFrame::Event(_) => panic!("预期响应"),
    }
}

fn error_of(frame: ServerFrame) -> (i64, String) {
    let error = response(frame).error.unwrap();
    (error.code, error.message)
}

fn result_of(frame: ServerFrame) -> Value {
    value(&response(frame).result.unwrap())
}

fn key(session_id: &str, request_id: RequestId) -> ActiveKey {
    ActiveKey { session_id: session_id.to_owned(), request_id }
}

fn event(kind: EventKind, text: &str) -> ActiveRequestUpdate {
    ActiveRequestUpdate::Event { kind, data: rendered(json(text)) }
}

#[test]
fn streams_chat_and_exposes_same_session() {
    let mut state = DaemonState::new_with_services("main");
    let id = RequestId::Number(1);
    let step = state.handle_request(
        id.copy(),
        Call::ChatSend(Ok(ChatSendParams { message: "你好".to_owned(), session_id: None })),
    );
    let RequestStep::RunTurn(params) = step else {
        panic!("预期执行一轮");
    };
    assert!(matches!(
        state.session_runtime(params.session_id.as_deref()),
        SessionRoute::Default(id) if id == "main"
    ));
    let active = state.handle_chat_send(&id, "main").unwrap();
    assert!(state.has_active_turns());
    let mut kinds = Vec::new();
    for said in [
        AgentEvent::TurnStarted,
        AgentEvent::TextDelta("回环回答".to_owned()),
        AgentEvent::TurnCompleted { content: "回环回答".to_owned() },
    ] {
        let (kind, data) = agent_event_update(&said);
        let update = ActiveRequestUpdate::Event { kind, data: rendered(data) };
        let ServerFrame::Event(frame) = state.publish_update(&active, &update) else {
            panic!("预期事件");
        };
        kinds.push(frame.event);
    }
    assert_eq!(kinds, [EventKind::TurnStarted, EventKind::TextDelta, EventKind::TurnCompleted]);
    let outcome = chat_outcome(Ok("回环回答".to_owned())).map(rendered);
    assert_eq!(result_of(state.finish_turn(&active, outcome))["content"], "回环回答");
    assert!(!state.has_active_turns());

    let snapshot = state.session_snapshot("main", &json("[{},{}]"), &Vec::new());
    assert_eq!(value(&snapshot)["messages"].as_array().unwrap().len(), 2);
    let stored = vec![info("main", 2, Some(5))];
    let listed = state.session_infos(&stored, &Vec::new(), &Vec::new(), "/w/main");
    assert!(listed[0].active);
    assert_eq!(listed[0].message_count, 2);
}

#[test]
fn cancels_an_active_turn_by_request_id() {
    let mut state = DaemonState::new_with_services("main");
    let turn_id = RequestId::String("slow-turn".to_owned());
    let active = state.handle_chat_send(&turn_id, "main").unwrap();
    let (kind, data) = agent_event_update(&AgentEvent::TurnStarted);
    let started = state
        .publish_update(&active, &ActiveRequestUpdate::Event { kind, data: rendered(data) });
    assert!(matches!(
        started,
        ServerFrame::Event(event) if event.event == EventKind::TurnStarted
    ));

    let (cancelled, reply) = state.cancel(&turn_id, None);
    assert!(cancelled.unwrap().same(&active));
    assert_eq!(value(&reply)["cancelled"], true);

    let outcome = chat_outcome(Err(TurnError {
        display: "请求已取消".to_owned(),
        full: "请求已取消: 由用户取消".to_owned(),
    }));
    let terminal = state.finish_turn(&active, outcome.map(rendered));
    assert_eq!(response(terminal).error.unwrap().code, -32800);
    let (cancelled, reply) = state.cancel(&turn_id, None);
    assert!(cancelled.is_none());
    assert_eq!(value(&reply), parsed("{\"cancelled\":false,\"reason\":\"请求未在执行\"}"));
}

#[test]
fn what_is_left_to_tell_comes_before_the_answer() {
    let mut state = DaemonState::new_with_services("main");
    let active = state.handle_chat_send(&RequestId::Number(1), "main").unwrap();
    let leftovers = vec![event(EventKind::TextDelta, "{}"), event(EventKind::TurnCompleted, "{}")];
    let frames = state.finish_chat_send(&active, leftovers, Ok(rendered(json("{\"content\":\"x\"}"))));
    assert_eq!(frames.len(), 3);
    assert!(matches!(&frames[0], ServerFrame::Event(said) if said.event == EventKind::TextDelta));
    assert!(matches!(&frames[1], ServerFrame::Event(said) if said.event == EventKind::TurnCompleted));
    assert!(matches!(&frames[2], ServerFrame::Response(_)));
    assert!(!state.has_active_turns());
}

#[test]
fn request_that_runs_already_is_refused() {
    let mut state = DaemonState::new_with_services("main");
    let id = RequestId::Number(4);
    state.handle_chat_send(&id, "main").unwrap();
    assert_eq!(
        error_of(state.handle_chat_send(&id, "main").unwrap_err()),
        (-32001, "请求 id 正在执行".to_owned())
    );
    let other = state.handle_chat_send(&id, "other").unwrap();
    assert_eq!(state.active_len(), 2);
    assert!(!state.begin_turn(&other));
    let (found, _) = state.cancel(&id, Some("other"));
    assert!(found.unwrap().same(&other));
    state.finish_turn(&other, Err((-1, "x".to_owned())));
    assert!(state.begin_turn(&other));
    assert_eq!(state.active_key(0).session_id, "main");
}

#[test]
fn requests_are_sorted_by_their_method() {
    let state = DaemonState::new_with_services("main");
    let reply = |call: Call| match state.handle_request(RequestId::Number(3), call) {
        RequestStep::Reply(frame) => error_of(frame),
        _ => panic!("预期拒绝"),
    };
    assert_eq!(
        reply(Call::ChatSend(Ok(ChatSendParams { message: " ".to_owned(), session_id: None }))),
        (-32602, "message 不能为空".to_owned())
    );
    assert_eq!(reply(Call::SessionLoad(Err("坏".to_owned()))), (-32602, "参数无效: 坏".to_owned()));
    assert_eq!(reply(Call::Unknown("x.y".to_owned())), (-32601, "未知 RPC 方法: x.y".to_owned()));
    let RequestStep::Stop(frame) = state.handle_request(RequestId::Number(3), Call::DaemonStop) else {
        panic!("预期停止");
    };
    assert_eq!(
        result_of(frame),
        parsed("{\"stopping\":true,\"active_turns_finish_gracefully\":true}")
    );
    let wanted = SessionResumeParams { session_id: "s".to_owned() };
    assert!(matches!(
        state.handle_request(RequestId::Number(3), Call::SessionResume(Ok(wanted))),
        RequestStep::ResumeSession(params) if params.session_id == "s"
    ));
    for (name, method) in [
        ("chat.send", Method::ChatSend),
        ("session.load", Method::SessionLoad),
        ("session.list", Method::SessionList),
        ("session.new", Method::SessionNew),
        ("session.resume", Method::SessionResume),
        ("session.trace", Method::SessionTrace),
        ("approval.respond", Method::ApprovalRespond),
        ("agent.cancel", Method::AgentCancel),
        ("agent.subscribe", Method::AgentSubscribe),
        ("slash.execute", Method::SlashExecute),
        ("daemon.stop", Method::DaemonStop),
    ] {
        assert_eq!(Method::named(name), Some(method));
    }
    assert_eq!(Method::named("Chat.Send"), None);
}

#[test]
fn failed_turns_answer_with_their_whole_error() {
    let said = |display: &str, full: &str| {
        chat_outcome(Err(TurnError { display: display.to_owned(), full: full.to_owned() }))
    };
    assert_eq!(said("坏", "坏: 原因").unwrap_err(), (-32603, "坏: 原因".to_owned()));
    assert_eq!(said("本轮请求已取消。", "x").unwrap_err(), (-32800, "请求已取消".to_owned()));
    assert_eq!(value(&approval_outcome(Ok(())).unwrap()), parsed("{\"accepted\":true}"));
    assert_eq!(approval_outcome(Err("没有".to_owned())).unwrap_err(), (-32602, "没有".to_owned()));
}

#[test]
fn late_subscribers_get_the_replay() {
    let mut state = DaemonState::new_with_services("main");
    let id = RequestId::Number(1);
    let active = state.handle_chat_send(&id, "main").unwrap();
    state.publish_update(&active, &event(EventKind::TurnStarted, "{}"));
    state.publish_update(&active, &event(EventKind::ApprovalRequired, "{\"approval\":{\"id\":\"a1\"}}"));
    state.publish_update(&active, &event(EventKind::ApprovalRequired, "{\"approval\":{\"id\":\"a2\"}}"));
    let params = CancelParams { request_id: id.copy(), session_id: None };
    let subscriber = RequestId::Number(9);
    let (frames, over) =
        state.handle_subscribe(&subscriber, &params, &vec!["a2".to_owned()]);
    assert_eq!(frames.len(), 2);
    assert!(!over);
    assert!(frames.iter().all(|frame| server_frame_request_id(frame).same(&subscriber)));
    let ServerFrame::Event(last) = &frames[1] else {
        panic!("预期审批事件");
    };
    assert_eq!(value(&last.data), parsed("{\"approval\":{\"id\":\"a2\"}}"));
    assert!(is_resolved_approval(
        &event(EventKind::ApprovalRequired, "{\"approval\":{\"id\":\"a1\"}}"),
        &vec!["a2".to_owned()]
    ));
    assert!(!is_resolved_approval(&event(EventKind::TextDelta, "{\"approval\":{\"id\":\"a1\"}}"), &Vec::new()));
    let unknown = CancelParams { request_id: RequestId::Number(7), session_id: None };
    let (frames, over) = state.handle_subscribe(&subscriber, &unknown, &Vec::new());
    assert!(over);
    assert_eq!(
        result_of(frames.into_iter().next().unwrap()),
        parsed("{\"subscribed\":false,\"request_id\":7,\"reason\":\"请求未在执行\"}")
    );
    let (_, replay) = state.subscribe(&params).unwrap();
    assert_eq!(replay.len(), 3);
    assert_eq!(state.active_replay(0).len(), 3);
}

#[test]
fn live_updates_end_with_the_answer() {
    let id = RequestId::Number(9);
    let request = RequestId::String("r".to_owned());
    let (frame, over) =
        subscription_step(&id, &request, &LiveEvent::Update(event(EventKind::TextDelta, "{}")));
    assert!(!over && matches!(frame, ServerFrame::Event(_)));
    let terminal = ActiveRequestUpdate::Terminal(Ok(rendered(json("{\"content\":\"x\"}"))));
    let (frame, over) = subscription_step(&id, &request, &LiveEvent::Update(terminal));
    assert!(over);
    assert_eq!(result_of(frame), parsed("{\"content\":\"x\"}"));
    let (frame, over) = subscription_step(&id, &request, &LiveEvent::Closed);
    assert!(over);
    assert_eq!(
        result_of(frame),
        parsed("{\"subscribed\":false,\"request_id\":\"r\",\"reason\":\"请求已结束\"}")
    );
    let (frame, over) = subscription_step(&id, &request, &LiveEvent::Lagged(12));
    assert!(over);
    assert_eq!(error_of(frame), (-32603, "订阅落后 12 个事件，请重新连接恢复".to_owned()));
}

#[test]
fn replay_forgets_the_oldest_updates_when_it_is_full() {
    let mut request = ActiveRequest::new();
    let big = |letter: &str| ActiveRequestUpdate::Terminal(Err((1, letter.repeat(400_000))));
    request.publish(big("a"));
    request.publish(big("b"));
    assert_eq!(request.replay().len(), 2);
    request.publish(big("c"));
    let kept = request.replay();
    assert_eq!(kept.len(), 2);
    assert!(matches!(&kept[0], ActiveRequestUpdate::Terminal(Err((_, text))) if text.starts_with('b')));
    assert_eq!(big("a").replay_bytes(), 400_064);
    assert_eq!(event(EventKind::TextDelta, "{\"a\":1}").replay_bytes(), 71);
    request.publish(ActiveRequestUpdate::Terminal(Err((1, "x".repeat(1024 * 1024)))));
    assert_eq!(request.replay().len(), 0);
}

#[test]
fn events_of_the_agent_become_frames() {
    let update = |event: AgentEvent| {
        let (kind, data) = agent_event_update(&event);
        (kind, value(&data))
    };
    assert_eq!(update(AgentEvent::TurnStarted).0, EventKind::TurnStarted);
    let (kind, data) = update(AgentEvent::ToolFinished {
        call_id: "c".to_owned(),
        name: "exec".to_owned(),
        output: "o".to_owned(),
        round: 2,
        duration_ms: 30,
        success: false,
        error: Some("e".to_owned()),
    });
    assert_eq!(kind, EventKind::ToolFinished);
    assert_eq!(data["tool_call_id"], "c");
    assert_eq!(data["name"], "exec");
    assert_eq!(data["round"], 2);
    assert_eq!(data["duration_ms"], 30);
    assert_eq!(data["success"], false);
    assert_eq!(data["error"], "e");
    let (kind, data) = update(AgentEvent::ToolStarted {
        call_id: "c".to_owned(),
        name: "exec".to_owned(),
        round: 1,
    });
    assert_eq!(kind, EventKind::ToolStarted);
    assert_eq!(data["name"], "exec");
}

fn info(id: &str, message_count: usize, modified_at: Option<u64>) -> SessionInfo {
    SessionInfo {
        id: id.to_owned(),
        path: format!("/w/{id}"),
        active: false,
        message_count,
        modified_at,
        preview: None,
        status: SessionStatus::Idle,
        active_requests: 0,
        updated_at: modified_at,
    }
}

#[test]
fn sessions_are_listed_with_what_they_are_doing() {
    let mut state = DaemonState::new_with_services("main");
    state.add_session("side");
    let created = state.session_new("fresh");
    assert_eq!(
        value(&created),
        parsed(
            "{\"created\":true,\"session_id\":\"fresh\",\"messages\":[],\"pending_approvals\":[],\"active_requests\":[]}"
        )
    );
    assert_eq!(state.legacy_session_id(), "fresh");
    assert_eq!(state.sessions(), &vec!["side".to_owned(), "fresh".to_owned()]);
    state.handle_chat_send(&RequestId::Number(1), "main").unwrap();
    state.handle_chat_send(&RequestId::Number(2), "side").unwrap();
    let stored = vec![info("old", 3, Some(5)), info("main", 2, Some(9))];
    let paths = vec!["/p/side".to_owned(), "/p/fresh".to_owned()];
    let listed = state.session_infos(&stored, &vec!["side".to_owned()], &paths, "/p/current");
    let ids: Vec<&str> = listed.iter().map(|info| info.id.as_str()).collect();
    assert_eq!(ids, ["fresh", "main", "old", "side"]);
    let statuses: Vec<SessionStatus> = listed.iter().map(|info| info.status).collect();
    assert_eq!(
        statuses,
        [SessionStatus::Idle, SessionStatus::Running, SessionStatus::Idle, SessionStatus::Waiting]
    );
    assert_eq!(listed[3].path, "/p/side");
    assert_eq!(listed[3].active_requests, 1);
    assert!(matches!(state.session_runtime(Some("side")), SessionRoute::Open(_)));
    assert!(matches!(state.session_runtime(Some("lost")), SessionRoute::Unopened(_)));
    state.use_session("main");
    assert!(matches!(state.session_runtime(None), SessionRoute::Default(_)));
}

#[test]
fn snapshot_shows_the_approvals_that_are_waited_for() {
    let mut state = DaemonState::new_with_services("main");
    let approvals = || {
        vec![
            PendingApproval { request_id: RequestId::Number(1), value: json("{\"id\":\"a\"}") },
            PendingApproval { request_id: RequestId::Number(2), value: json("{\"id\":\"b\"}") },
        ]
    };
    let snapshot = value(&state.session_snapshot("main", &json("[]"), &approvals()));
    assert_eq!(snapshot["status"], "idle");
    assert_eq!(snapshot["pending_approvals"], parsed("[]"));
    state.handle_chat_send(&RequestId::Number(2), "main").unwrap();
    let snapshot = value(&state.session_snapshot("main", &json("[1]"), &approvals()));
    assert_eq!(
        snapshot,
        parsed(
            "{\"session_id\":\"main\",\"messages\":[1],\"pending_approvals\":[{\"id\":\"b\"}],\"active_requests\":[2],\"status\":\"waiting\"}"
        )
    );
    let running = state.session_snapshot("main", &json("[1]"), &Vec::new());
    assert_eq!(value(&running)["status"], "running");
    assert_eq!(value(&session_resume(running))["resumed"], true);
    assert_eq!(
        value(&session_trace("main", json("[1]"))),
        parsed("{\"session_id\":\"main\",\"records\":[1]}")
    );
}

#[test]
fn lines_are_refused_when_too_long_or_broken() {
    assert!(refuse_long_line(1).is_none());
    assert!(refuse_long_line(MAX_FRAME_BYTES + 1).is_none());
    assert_eq!(
        error_of(refuse_long_line(MAX_FRAME_BYTES + 2).unwrap()),
        (-32002, format!("协议帧超过 {MAX_FRAME_BYTES} 字节限制"))
    );
    let frame = refuse_broken_line("坏".to_owned());
    assert!(server_frame_request_id(&frame).same(&RequestId::String("protocol".to_owned())));
    assert_eq!(error_of(frame), (-32700, "坏".to_owned()));
    let original = ServerFrame::Response(JsonRpcResponse::success(RequestId::Number(5), json("1")));
    let replaced = replace_frame(&original, "太大".to_owned());
    assert!(server_frame_request_id(&replaced).same(&RequestId::Number(5)));
    assert_eq!(response(replaced).error.unwrap().message, "太大");
}

#[test]
fn daemon_stops_some_time_after_its_last_client() {
    let mut server = ServerLoop::new();
    assert!(!server.should_stop(1_000_000, false));
    server.accepted();
    server.accepted();
    server.closed(10);
    assert!(!server.should_stop(1_000_000, false));
    server.closed(20);
    assert!(!server.should_stop(2019, false));
    assert!(!server.should_stop(1_000_000, true));
    assert!(server.should_stop(2020, false));
    server.accepted();
    assert!(!server.should_stop(1_000_000, false));
}

#[test]
fn request_ids_are_told_apart() {
    let number = RequestId::Number(7);
    let text = RequestId::String("7".to_owned());
    assert!(!number.same(&text));
    assert!(text.same(&text.copy()));
    assert_eq!(request_id_label(&number), "7");
    assert_eq!(request_id_label(&text), "7");
    assert_eq!(value(&number.json()), parsed("7"));
    assert_eq!(value(&text.json()), parsed("\"7\""));
    assert_eq!(error_of(send_result(number, Err((1, "e".to_owned())))), (1, "e".to_owned()));
    assert_eq!(result_of(send_result(text, Ok(json("{\"a\":1}")))), parsed("{\"a\":1}"));
}

#[test]
fn answers_find_the_client_that_waits() {
    let mut client: DaemonClient<&str> = DaemonClient::new();
    let first = client.request("one").unwrap();
    let second = client.request("two").unwrap();
    assert!(first.same(&RequestId::Number(1)));
    assert!(second.same(&RequestId::Number(2)));
    client.request_with_id(&RequestId::Number(3), "three").unwrap();
    assert!(client.request("taken").is_err());
    assert_eq!(client.forget(&RequestId::Number(3)), Some("three"));
    assert!(client.request_with_id(&first, "again").is_err());
    let (kind, data) = agent_event_update(&AgentEvent::TurnStarted);
    let update = ActiveRequestUpdate::Event { kind, data: rendered(data) };
    let event = update.to_frame(first.copy());
    assert_eq!(client.destination_of(&event), Some(&"one"));
    client.settle(&event);
    assert_eq!(client.destination_of(&event), Some(&"one"));
    let answer = ServerFrame::Response(JsonRpcResponse::success(first.copy(), json("1")));
    client.settle(&answer);
    assert_eq!(client.destination_of(&answer), None);
    let (to, frame) = client.fail_pending(&second, -32000, "断".to_owned()).unwrap();
    assert_eq!(to, "two");
    assert_eq!(error_of(frame), (-32000, "断".to_owned()));
    assert!(client.fail_pending(&second, -32000, "断".to_owned()).is_none());
    client.request_with_id(&first, "one").unwrap();
    assert_eq!(client.forget(&first), Some("one"));
    client.request_with_id(&second, "two").unwrap();
    let failed = client.fail_all_pending("连接已断开");
    assert_eq!(failed.len(), 1);
    assert!(client.fail_all_pending("x").is_empty());
}

#[test]
fn keys_belong_to_a_session_and_a_request() {
    let one = key("a", RequestId::Number(1));
    assert!(one.same(&one.copy()));
    assert!(!one.same(&key("b", RequestId::Number(1))));
    assert!(!one.same(&key("a", RequestId::Number(2))));
    let update = event(EventKind::TextDelta, "{}");
    assert!(!update.is_terminal());
    assert!(matches!(update.copy(), ActiveRequestUpdate::Event { .. }));
}

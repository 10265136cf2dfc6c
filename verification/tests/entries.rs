use my_agent::config::{
    ConfigIssue, Environment, check_environment, check_settings, refuse_issues, run_config_check,
    validate_environment,
};
use my_agent::daemon::lifecycle::DaemonStatus;
use my_agent::daemon::protocol::{
    EventFrame, EventKind, JsonRpcResponse, MAX_FRAME_BYTES, RequestId, ServerFrame,
};
use my_agent::entry::cli::{
    ChatStep, ReplStep, approval_prompt, ask_approval, create_session, print_help,
    print_session_status, print_sessions, require_result, run_chat, run_repl,
};
use my_agent::entry::editor::{
    AdapterStep, EditorRequest, FramePassage, refuse_request, run_stdio_adapter,
};
use my_agent::entry::recovery::{approval_params, request_params, resume_params, snapshot_complaint};
use my_agent::entry::serve::{
    ChatCompletionRequest, CollectStep, CompletionStream, HttpReply, OpenAiMessage, StreamPoll,
    StreamStep, api_error, chat_completions, collect_after_denial, collect_answer,
    completion_chunk, completion_id, completion_reply, denial_params, deny_approval,
    extract_latest_user_prompt, health, health_refusal, is_authorized,
};
use my_agent::entry::start::{
    StopAction, run_chat_command, run_daemon_command, run_serve_command, run_status_command,
    run_stop_command,
};
use my_agent::entry::web::{
    EnsureWeb, ProbeResult, WebAction, WebEvent, WebLaunch, api_token, configured_url, probe,
    web_arguments, web_log_path, workspace_url,
};
use my_agent::json::{Json, JsonNumber};
use my_agent::provider::EnvValue;
use serde_json::Value;

fn json(text: &str) -> Json {
    from_value(&serde_json::from_str(text).unwrap())
}

fn from_value(value: &Value) -> Json {
    match value {
        Value::Null => Json::Null,
        Value::Bool(truth) => Json::Bool(*truth),
        Value::Number(number) => Json::Number(if let Some(n) = number.as_u64() {
            JsonNumber::Unsigned(n)
        } else if let Some(n) = number.as_i64() {
            JsonNumber::Negative(n)
        } else {
            JsonNumber::Other(number.to_string())
        }),
        Value::String(text) => Json::Text(text.clone()),
        Value::Array(list) => Json::List(list.iter().map(from_value).collect()),
        Value::Object(map) => {
            Json::Object(map.iter().map(|(key, value)| (key.clone(), from_value(value))).collect())
        }
    }
}

fn value(json: &Json) -> Value {
    match json {
        Json::Null => Value::Null,
        Json::Bool(truth) => Value::Bool(*truth),
        Json::Number(JsonNumber::Unsigned(n)) => Value::from(*n),
        Json::Number(JsonNumber::Negative(n)) => Value::from(*n),
        Json::Number(JsonNumber::Other(text)) => serde_json::from_str(text).unwrap(),
        Json::Text(text) => Value::String(text.clone()),
        Json::List(list) => Value::Array(list.iter().map(value).collect()),
        Json::Object(entries) => {
            Value::Object(entries.iter().map(|(key, item)| (key.clone(), value(item))).collect())
        }
    }
}

fn parsed(text: &str) -> Value {
    serde_json::from_str(text).unwrap()
}

fn message(role: &str, content: Json) -> OpenAiMessage {
    OpenAiMessage { role: role.to_owned(), content }
}

fn event(kind: EventKind, data: &str) -> ServerFrame {
    ServerFrame::Event(EventFrame { request_id: RequestId::Number(1), event: kind, data: json(data) })
}

fn answer(result: &str) -> ServerFrame {
    ServerFrame::Response(JsonRpcResponse::success(RequestId::Number(1), json(result)))
}

fn failure() -> ServerFrame {
    ServerFrame::Response(JsonRpcResponse::failure(RequestId::Number(1), -32603, "坏".to_owned()))
}

#[test]
fn extracts_latest_string_or_content_parts() {
    let messages = vec![
        message("user", Json::Text("旧问题".to_owned())),
        message("assistant", Json::Text("旧回答".to_owned())),
        message(
            "user",
            json(
                "[{\"type\":\"text\",\"text\":\"第一段\"},{\"type\":\"image_url\",\"image_url\":{\"url\":\"ignored\"}},{\"type\":\"text\",\"text\":\"第二段\"}]",
            ),
        ),
    ];

    assert_eq!(extract_latest_user_prompt(&messages).as_deref(), Some("第一段\n第二段"));
}

#[test]
fn bearer_auth_is_only_enforced_when_configured() {
    assert!(is_authorized(None, None));
    assert!(!is_authorized(None, Some("secret")));
    assert!(is_authorized(Some("Bearer secret"), Some("secret")));
    assert!(!is_authorized(Some("Bearer other"), Some("secret")));
    assert!(!is_authorized(Some("secret"), Some("secret")));
}

#[test]
fn blank_prompts_are_passed_over() {
    let messages = vec![
        message("user", Json::Text("问".to_owned())),
        message("user", Json::Text(" \n".to_owned())),
        message("user", Json::Null),
        message("tool", Json::Text("工具".to_owned())),
    ];
    assert_eq!(extract_latest_user_prompt(&messages).as_deref(), Some("问"));
    assert_eq!(extract_latest_user_prompt(&Vec::new()), None);
}

fn error_reply(status: u16, message: &str) -> (u16, Value) {
    let mut body = parsed("{\"error\":{\"type\":\"my_agent_error\"}}");
    body["error"]["message"] = Value::from(message);
    (status, body)
}

fn seen(reply: HttpReply) -> (u16, Value) {
    (reply.status, value(&reply.body))
}

#[test]
fn requests_to_the_interface_are_checked() {
    let request = |model: Option<&str>, text: &str| ChatCompletionRequest {
        model: model.map(str::to_owned),
        messages: vec![message("user", Json::Text(text.to_owned()))],
        stream: false,
    };
    assert_eq!(
        chat_completions(None, None, "m", &request(Some("m"), "问")),
        Ok("问".to_owned())
    );
    assert_eq!(
        seen(chat_completions(None, Some("t"), "m", &request(Some("x"), "")).unwrap_err()),
        error_reply(401, "Bearer Token 无效或缺失")
    );
    assert_eq!(
        seen(chat_completions(None, None, "m", &request(Some("x"), "问")).unwrap_err()),
        error_reply(400, "当前 daemon 模型为 m，不支持请求模型 x")
    );
    assert_eq!(
        seen(chat_completions(None, None, "m", &request(None, " ")).unwrap_err()),
        error_reply(400, "messages 中缺少非空 user 消息")
    );
    assert_eq!(seen(api_error(502, "坏")), error_reply(502, "坏"));
    assert_eq!(seen(health_refusal(None, Some("t")).unwrap()).0, 401);
    assert!(health_refusal(None, None).is_none());
    assert_eq!(seen(health(Ok(()))), (200, parsed("{\"status\":\"ok\",\"daemon\":\"ready\"}")));
    assert_eq!(
        seen(health(Err("坏".to_owned()))),
        (503, parsed("{\"status\":\"error\",\"error\":\"坏\"}"))
    );
}

#[test]
fn answers_are_collected_and_approvals_denied() {
    assert_eq!(collect_answer(Some(&event(EventKind::TextDelta, "{}"))), CollectStep::Wait);
    assert_eq!(
        collect_answer(Some(&event(EventKind::ApprovalRequired, "{\"approval\":{\"id\":\"a\"}}"))),
        CollectStep::Deny("a".to_owned())
    );
    assert_eq!(
        collect_answer(Some(&event(EventKind::ApprovalRequired, "{}"))),
        CollectStep::Answer(Err("审批事件缺少 id".to_owned()))
    );
    assert_eq!(
        collect_answer(Some(&answer("{\"content\":\"好\"}"))),
        CollectStep::Answer(Ok("好".to_owned()))
    );
    assert_eq!(
        collect_answer(Some(&answer("{}"))),
        CollectStep::Answer(Err("daemon 响应缺少 content".to_owned()))
    );
    assert_eq!(
        collect_answer(Some(&failure())),
        CollectStep::Answer(Err("daemon RPC -32603: 坏".to_owned()))
    );
    assert_eq!(
        collect_answer(None),
        CollectStep::Answer(Err("daemon 在终态响应前断开".to_owned()))
    );
    assert_eq!(collect_after_denial(Ok(())), CollectStep::Wait);
    assert_eq!(
        collect_after_denial(Err("断".to_owned())),
        CollectStep::Answer(Err("自动拒绝 HTTP 审批失败: 断".to_owned()))
    );
    assert_eq!(deny_approval(&json("{\"approval\":{\"id\":\"a\"}}")), Ok("a".to_owned()));
    assert_eq!(value(&denial_params("a")), parsed("{\"approval_id\":\"a\",\"approved\":false}"));
}

#[test]
fn completions_have_the_form_of_the_interface() {
    assert_eq!(completion_id(&RequestId::Number(7)), "chatcmpl-7");
    assert_eq!(completion_id(&RequestId::String("x".to_owned())), "chatcmpl-x");
    assert_eq!(
        value(&completion_chunk("i", 5, "m", json("{\"content\":\"a\"}"), Json::Null)),
        parsed(
            "{\"id\":\"i\",\"object\":\"chat.completion.chunk\",\"created\":5,\"model\":\"m\",\"choices\":[{\"index\":0,\"delta\":{\"content\":\"a\"},\"finish_reason\":null}]}"
        )
    );
    assert_eq!(
        seen(completion_reply("i", 5, "m", Ok("好".to_owned()))),
        (
            200,
            parsed(
                "{\"id\":\"i\",\"object\":\"chat.completion\",\"created\":5,\"model\":\"m\",\"choices\":[{\"index\":0,\"message\":{\"role\":\"assistant\",\"content\":\"好\"},\"finish_reason\":\"stop\"}]}"
            )
        )
    );
    assert_eq!(seen(completion_reply("i", 5, "m", Err("坏".to_owned()))), error_reply(502, "坏"));
}

#[test]
fn streams_send_chunks_and_then_done() {
    let mut stream = CompletionStream::new("i".to_owned(), 5, "m".to_owned());
    assert_eq!(stream.poll(), StreamPoll::Read);
    let StreamStep::Send(chunk) =
        stream.completion_stream(Some(&event(EventKind::TextDelta, "{\"delta\":\"a\"}")))
    else {
        panic!("预期片段");
    };
    assert_eq!(value(&chunk)["choices"][0]["delta"]["content"], "a");
    assert_eq!(stream.completion_stream(Some(&event(EventKind::TurnStarted, "{}"))), StreamStep::Skip);
    assert_eq!(
        stream.completion_stream(Some(&event(
            EventKind::ApprovalRequired,
            "{\"approval\":{\"id\":\"a\"}}"
        ))),
        StreamStep::Deny("a".to_owned())
    );
    assert_eq!(stream.after_denial(Ok(())), StreamStep::Skip);
    let StreamStep::Send(chunk) = stream.completion_stream(Some(&answer("{}"))) else {
        panic!("预期结束片段");
    };
    assert_eq!(value(&chunk)["choices"][0]["finish_reason"], "stop");
    assert_eq!(stream.poll(), StreamPoll::Done);
    assert_eq!(stream.poll(), StreamPoll::Over);

    let mut broken = CompletionStream::new("i".to_owned(), 5, "m".to_owned());
    let StreamStep::Send(said) = broken.completion_stream(None) else {
        panic!("预期错误");
    };
    assert_eq!(value(&said), parsed("{\"error\":{\"message\":\"daemon 在终态响应前断开\"}}"));
    assert_eq!(broken.poll(), StreamPoll::Done);
    let mut failed = CompletionStream::new("i".to_owned(), 5, "m".to_owned());
    let StreamStep::Send(said) = failed.completion_stream(Some(&failure())) else {
        panic!("预期错误");
    };
    assert_eq!(value(&said), parsed("{\"error\":{\"code\":-32603,\"message\":\"坏\"}}"));
    let mut denied = CompletionStream::new("i".to_owned(), 5, "m".to_owned());
    let StreamStep::Send(said) = denied.after_denial(Err("断".to_owned())) else {
        panic!("预期错误");
    };
    assert_eq!(value(&said)["error"]["message"], "自动拒绝 HTTP 审批失败: 断");
}

#[test]
fn configured_url_has_http_scheme() {
    assert!(configured_url(None).starts_with("http://"));
    assert_eq!(configured_url(None), "http://127.0.0.1:8787");
    assert_eq!(configured_url(Some("127.0.0.1:9000")), "http://127.0.0.1:9000");
}

#[test]
fn workspace_url_carries_the_requested_directory() {
    let url = workspace_url("http://127.0.0.1:8787", "/workspace/one two")
        .expect("工作区 URL 应可生成");
    assert_eq!(url, "http://127.0.0.1:8787/?workspace=%2Fworkspace%2Fone+two");
}

#[test]
fn web_server_is_looked_for_before_it_is_started() {
    assert_eq!(probe("u", 200, "200 OK"), Ok(ProbeResult::Healthy));
    assert_eq!(probe("u", 204, "204 No Content"), Ok(ProbeResult::Healthy));
    assert_eq!(probe("u", 503, "503 Service Unavailable"), Ok(ProbeResult::Unhealthy));
    assert_eq!(
        probe("u", 404, "404 Not Found"),
        Err("u 已有服务响应，但健康检查返回 404 Not Found".to_owned())
    );
    assert_eq!(web_log_path("/w"), "/w/.my-agent/web.log");
    assert_eq!(api_token(Some(" t ")), Some(" t ".to_owned()));
    assert_eq!(api_token(Some(" ")), None);
    assert_eq!(api_token(None), None);
    assert_eq!(
        web_arguments("/w", "127.0.0.1:1"),
        ["--workspace", "/w", "serve", "--bind", "127.0.0.1:1"]
    );
    assert_eq!(
        EnsureWeb::start("0.0.0.0:1", false, "/w").unwrap_err(),
        "TUI /web 只允许自动启动回环地址，当前为 0.0.0.0:1"
    );
    let (mut web, action) = EnsureWeb::start("127.0.0.1:1", true, "/w").unwrap();
    assert!(matches!(action, WebAction::Probe));
    let launch = WebLaunch { url: "http://127.0.0.1:1/?workspace=%2Fw".to_owned(), started: false };
    assert!(matches!(
        web.ensure_running(WebEvent::Probed(Ok(ProbeResult::Healthy))),
        WebAction::Finish(done) if done == launch
    ));
}

fn run_web(answers: &[Result<ProbeResult, String>]) -> (usize, WebAction) {
    let (mut web, mut action) = EnsureWeb::start("127.0.0.1:1", true, "/w").unwrap();
    let mut starts = 0;
    let mut at = 0;
    loop {
        action = match action {
            WebAction::Probe => {
                let answer = answers[at.min(answers.len() - 1)].clone();
                at += 1;
                web.ensure_running(WebEvent::Probed(answer))
            }
            WebAction::Wait => web.ensure_running(WebEvent::Done),
            WebAction::Start => {
                starts += 1;
                web.ensure_running(WebEvent::Done)
            }
            last => return (starts, last),
        };
    }
}

#[test]
fn web_server_is_started_once_and_waited_for() {
    let (starts, last) = run_web(&[Ok(ProbeResult::Missing), Ok(ProbeResult::Missing), Ok(ProbeResult::Healthy)]);
    assert_eq!(starts, 1);
    assert!(matches!(last, WebAction::Finish(launch) if launch.started));
    let (starts, last) = run_web(&[Ok(ProbeResult::Unhealthy)]);
    assert_eq!(starts, 0);
    assert!(matches!(last, WebAction::Fail(said) if said == "旧 Web 服务仍在退出，请稍后重试 /web"));
    let (starts, last) = run_web(&[Ok(ProbeResult::Missing)]);
    assert_eq!(starts, 1);
    assert!(matches!(last, WebAction::Fail(said) if said == "Web 服务启动超时；请查看 /w/.my-agent/web.log"));
    let (starts, last) = run_web(&[Ok(ProbeResult::Missing), Err("坏".to_owned())]);
    assert_eq!(starts, 1);
    assert!(matches!(last, WebAction::Fail(said) if said.starts_with("Web 服务启动后健康检查失败")));
    let (starts, last) = run_web(&[Err("坏".to_owned())]);
    assert_eq!(starts, 0);
    assert!(matches!(last, WebAction::Fail(said) if said == "坏"));
}

#[test]
fn typed_lines_become_steps() {
    assert_eq!(run_repl("  \n"), ReplStep::Skip);
    assert_eq!(run_repl("/exit\n"), ReplStep::Quit);
    assert_eq!(run_repl(" /quit"), ReplStep::Quit);
    assert_eq!(run_repl("/help"), ReplStep::Help);
    assert_eq!(run_repl("/status"), ReplStep::Status);
    assert_eq!(run_repl("/sessions"), ReplStep::Sessions);
    assert_eq!(run_repl("/new"), ReplStep::New);
    assert_eq!(
        run_repl("/cancel"),
        ReplStep::Say("当前没有前台请求；运行中按 Ctrl-C 可取消本轮。".to_owned())
    );
    assert_eq!(
        run_repl("/what now "),
        ReplStep::Say("未知命令：/what now。输入 /help 查看命令。".to_owned())
    );
    assert_eq!(run_repl(" 你好 \n"), ReplStep::Chat("你好".to_owned()));
    assert!(print_help().starts_with("/help      查看命令\n"));
}

#[test]
fn frames_of_a_chat_are_printed() {
    let step = |frame: ServerFrame, printed: bool| run_chat(&frame, printed);
    assert_eq!(
        step(event(EventKind::TextDelta, "{\"delta\":\"a\"}"), false),
        ChatStep::Print("a".to_owned())
    );
    assert_eq!(step(event(EventKind::TextDelta, "{}"), false), ChatStep::Nothing);
    assert_eq!(step(event(EventKind::TurnStarted, "{}"), false), ChatStep::Nothing);
    assert_eq!(
        step(event(EventKind::ToolStarted, "{\"name\":\"exec\"}"), false),
        ChatStep::Note("\n[工具开始] exec".to_owned())
    );
    assert_eq!(
        step(event(EventKind::ToolFinished, "{}"), false),
        ChatStep::Note("[工具完成] unknown".to_owned())
    );
    assert_eq!(
        step(
            event(EventKind::ApprovalRequired, "{\"approval\":{\"id\":\"a\",\"prompt\":\"p\"}}"),
            false
        ),
        ChatStep::Approve { id: "a".to_owned(), prompt: "p".to_owned() }
    );
    for (data, said) in [
        ("{}", "审批事件缺少 approval"),
        ("{\"approval\":{}}", "审批事件缺少 id"),
        ("{\"approval\":{\"id\":\"a\"}}", "审批事件缺少 prompt"),
    ] {
        assert_eq!(
            step(event(EventKind::ApprovalRequired, data), true),
            ChatStep::Fail { end_line: false, message: said.to_owned() }
        );
    }
    assert_eq!(
        step(answer("{\"content\":\"好\"}"), false),
        ChatStep::Finish { end_line: false, content: Some("好".to_owned()) }
    );
    assert_eq!(
        step(answer("{\"content\":\"好\"}"), true),
        ChatStep::Finish { end_line: true, content: None }
    );
    assert_eq!(
        step(failure(), true),
        ChatStep::Fail { end_line: true, message: "daemon RPC -32603: 坏".to_owned() }
    );
}

#[test]
fn answers_are_shown_in_words() {
    let ok = |result: Option<Json>| JsonRpcResponse { id: RequestId::Number(1), result, error: None };
    assert_eq!(value(&require_result(&ok(Some(json("1")))).unwrap()), parsed("1"));
    assert_eq!(require_result(&ok(None)).unwrap_err(), "daemon 响应缺少 result");
    assert_eq!(
        print_sessions(&json(
            "{\"sessions\":[{\"id\":\"a\",\"message_count\":2,\"path\":\"/a\",\"active\":true},{}]}"
        )),
        Ok(vec![
            "* a · 2 条消息 · /a".to_owned(),
            "  unknown · 0 条消息 · unknown".to_owned()
        ])
    );
    assert_eq!(print_sessions(&json("{\"sessions\":[]}")), Ok(vec!["暂无会话记录。".to_owned()]));
    assert_eq!(print_sessions(&json("{}")), Err("会话列表格式无效".to_owned()));
    assert_eq!(
        print_session_status(&json("{\"messages\":[1],\"active_requests\":[1,2]}")),
        "历史 1 条，活动请求 2 个，待审批 0 个。"
    );
    assert_eq!(create_session(&json("{}")), "已新建会话。");
    assert_eq!(create_session(&json("{\"backup\":\"/b\"}")), "已新建会话；旧会话备份到 /b");
    assert_eq!(approval_prompt("写文件"), "\n需要审批：写文件\n允许执行？[y/N] ");
    assert!(ask_approval(" Y\n") && ask_approval("yes"));
    assert!(!ask_approval("") && !ask_approval("yep") && !ask_approval("n"));
}

#[test]
fn editor_lines_are_forwarded_or_refused() {
    let request = || EditorRequest {
        id: RequestId::Number(1),
        method: "chat.send".to_owned(),
        params: json("{}"),
    };
    assert!(matches!(
        run_stdio_adapter(10, Ok(request())),
        AdapterStep::Forward(forwarded) if forwarded.method == "chat.send"
    ));
    let code = |length: usize| match run_stdio_adapter(length, Err("坏".to_owned())) {
        AdapterStep::Answer(ServerFrame::Response(response)) => {
            let error = response.error.unwrap();
            assert_eq!(error.message, "坏");
            assert!(response.id.same(&RequestId::String("protocol".to_owned())));
            error.code
        }
        _ => panic!("预期拒绝"),
    };
    assert_eq!(code(MAX_FRAME_BYTES), -32700);
    assert_eq!(code(MAX_FRAME_BYTES + 1), -32002);
    let ServerFrame::Response(refused) = refuse_request(&RequestId::Number(4), "断".to_owned()) else {
        panic!("预期响应");
    };
    assert_eq!(refused.error.unwrap().code, -32000);
    let mut passage = FramePassage::new();
    assert!(passage.pass_on(&event(EventKind::TurnCompleted, "{}")));
    assert!(passage.open);
    assert!(passage.pass_on(&answer("1")));
    assert!(!passage.open);
    assert!(!passage.pass_on(&event(EventKind::TextDelta, "{}")));
    assert!(!passage.pass_on(&answer("2")));
    assert_eq!(snapshot_complaint("session.load"), "daemon session.load 会话快照格式无效");
    assert_eq!(value(&resume_params("s")), parsed("{\"session_id\":\"s\"}"));
    assert_eq!(
        value(&approval_params("a", true)),
        parsed("{\"approval_id\":\"a\",\"approved\":true}")
    );
    assert_eq!(value(&request_params(&RequestId::Number(3))), parsed("{\"request_id\":3}"));
}

#[test]
fn commands_say_what_the_daemon_does() {
    let ready = DaemonStatus::Ready { pid: 7 };
    let starting = DaemonStatus::Starting { pid: Some(7) };
    let stale = DaemonStatus::Stale { pid: None };
    assert_eq!(run_status_command(ready, "/s"), "ready · pid=7 · socket=/s");
    assert_eq!(run_status_command(starting, "/s"), "starting · pid=Some(7)");
    assert_eq!(
        run_status_command(stale, "/s"),
        "stale · pid=None · 可再次运行 `my-agent` 自动清理并重启"
    );
    assert_eq!(run_status_command(DaemonStatus::Stopped, "/s"), "stopped");
    assert_eq!(
        run_stop_command(ready),
        (
            StopAction::Request,
            "已请求 daemon 优雅停止；正在执行的 turn 不会被超时强杀。".to_owned()
        )
    );
    assert_eq!(
        run_stop_command(stale),
        (StopAction::CleanUp, "已清理失效的 daemon 运行标记。".to_owned())
    );
    assert_eq!(
        run_stop_command(starting),
        (StopAction::Nothing, "daemon 正在启动（pid=Some(7)），请稍后重试 stop。".to_owned())
    );
    assert_eq!(
        run_stop_command(DaemonStatus::Stopped),
        (StopAction::Nothing, "daemon 未运行。".to_owned())
    );
    assert_eq!(run_daemon_command(ready), Err("该工作区的 daemon 已在运行".to_owned()));
    assert_eq!(run_daemon_command(stale), Ok(()));
    assert_eq!(run_chat_command(&Vec::new()), None);
    assert_eq!(
        run_chat_command(&vec!["a".to_owned(), "b".to_owned()]),
        Some("a b".to_owned())
    );
    assert_eq!(run_serve_command("127.0.0.1:1", true, None), Ok(None));
    assert_eq!(run_serve_command("0.0.0.0:1", false, Some("t")), Ok(Some("t".to_owned())));
    assert_eq!(
        run_serve_command("0.0.0.0:1", false, Some(" ")),
        Err(
            "非回环地址 0.0.0.0:1 必须设置 MY_AGENT_API_TOKEN；建议默认使用 127.0.0.1:8787".to_owned()
        )
    );
}

fn present(text: &str) -> EnvValue {
    EnvValue::Present(text.to_owned())
}

fn environment() -> Environment {
    Environment {
        openai_api_key: present("k"),
        openai_base_url: present("https://api.example.com"),
        model_name: present("m"),
        context_token_budget: EnvValue::Missing,
        context_recent_messages: EnvValue::Missing,
        context_mild_percent: EnvValue::Missing,
        context_strong_percent: EnvValue::Missing,
        multimodal_enabled: EnvValue::Missing,
    }
}

fn issue(environment: &Environment) -> (&'static str, String) {
    let mut issues = check_environment(environment);
    assert_eq!(issues.len(), 1);
    let ConfigIssue { variable, message } = issues.remove(0);
    (variable, message)
}

#[test]
fn the_key_is_never_shown() {
    let mut env = environment();
    env.openai_api_key = present("one key");
    env.model_name = EnvValue::Missing;
    let mut other = env.clone();
    other.openai_api_key = present("another key");
    assert_eq!(check_environment(&env), check_environment(&other));
    let said = refuse_issues(&check_environment(&env)).unwrap_err();
    assert!(!said.contains("one key"));
    let (lines, _) = run_config_check(&check_environment(&env));
    assert!(lines.iter().all(|line| !line.contains("one key")));
}

#[test]
fn settings_are_checked_one_by_one() {
    assert!(check_environment(&environment()).is_empty());
    let mut env = environment();
    env.openai_api_key = present(" ");
    assert_eq!(issue(&env), ("OPENAI_API_KEY", "不能为空".to_owned()));
    let mut env = environment();
    env.model_name = EnvValue::Missing;
    assert_eq!(issue(&env), ("MODEL_NAME", "未设置".to_owned()));
    let mut env = environment();
    env.model_name = EnvValue::Unreadable("no text".to_owned());
    assert_eq!(issue(&env), ("MODEL_NAME", "无法读取：no text".to_owned()));
    let mut env = environment();
    env.openai_base_url = present("ftp://x");
    assert_eq!(issue(&env), ("OPENAI_BASE_URL", "必须使用 http:// 或 https://".to_owned()));
    env.openai_base_url = present("api.example.com");
    let (variable, message) = issue(&env);
    assert_eq!(variable, "OPENAI_BASE_URL");
    assert!(message.starts_with("不是合法 URL："));
    assert!(message.len() > "不是合法 URL：".len());
    env.openai_base_url = EnvValue::Missing;
    assert_eq!(issue(&env).1, "未设置");
    let mut env = environment();
    env.context_token_budget = present("255");
    assert_eq!(
        issue(&env),
        ("CONTEXT_TOKEN_BUDGET", format!("必须是 256..={} 的整数", usize::MAX))
    );
    let mut env = environment();
    env.context_mild_percent = present("85");
    assert_eq!(
        issue(&env),
        (
            "CONTEXT_MILD_PERCENT / CONTEXT_STRONG_PERCENT",
            "必须满足温和阈值小于强力阈值".to_owned()
        )
    );
    let mut env = environment();
    env.multimodal_enabled = present("maybe");
    assert_eq!(
        issue(&env),
        ("MULTIMODAL_ENABLED", "必须是 true/false、1/0、yes/no 或 on/off".to_owned())
    );
    assert_eq!(check_settings(&environment(), &Ok("gopher".to_owned())).len(), 1);
    assert_eq!(check_settings(&environment(), &Err("x".to_owned()))[0].message, "不是合法 URL：x");
}

#[test]
fn broken_settings_are_refused_together() {
    assert_eq!(validate_environment(&environment()), Ok(()));
    let mut env = environment();
    env.model_name = EnvValue::Missing;
    env.openai_api_key = EnvValue::Missing;
    let said = validate_environment(&env).unwrap_err();
    assert!(said.starts_with("配置校验失败：OPENAI_API_KEY：未设置；MODEL_NAME：未设置\n首次使用示例：\n"));
    assert_eq!(refuse_issues(&check_environment(&env)), Err(said));
    let (lines, result) = run_config_check(&check_environment(&env));
    assert_eq!(
        lines,
        ["配置检查发现 2 个问题：", "- OPENAI_API_KEY：未设置", "- MODEL_NAME：未设置"]
    );
    assert_eq!(result, Err("配置尚未就绪；请修正以上环境变量".to_owned()));
    let (lines, result) = run_config_check(&Vec::new());
    assert_eq!(lines, ["配置检查通过。API 密钥已设置（值不会显示）。"]);
    assert_eq!(result, Ok(()));
}

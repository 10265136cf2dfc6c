use my_agent::json::{Json, JsonNumber};
use my_agent::mcp::stdio::{
    FrameError, FrameStep, HandshakeStage, HandshakeStep, McpClient, call_outcome, call_params,
    continue_handshake, notify, read_frame, start_handshake, write_message,
};
use my_agent::mcp::{
    McpManager, RemoteTool, ServerOutcome, bridge_name, config_failure, expand_placeholders,
    invalid_server, load_config, parse_remote_tools, parse_server_config, sanitize_name, settle_cwd,
};
use my_agent::provider::EnvValue;
use serde_json::Value;

fn json(text: &str) -> Json {
    from_value(&serde_json::from_str(text).unwrap())
}

fn from_value(value: &Value) -> Json {
    match value {
        Value::Null => Json::Null,
        Value::Bool(truth) => Json::Bool(*truth),
        Value::Number(number) => Json::Number(if let Some(n) = number.as_u64() {
            JsonNumber::Unsigned(n)
        } else if let Some(n) = number.as_i64() {
            JsonNumber::Negative(n)
        } else {
            JsonNumber::Other(number.to_string())
        }),
        Value::String(text) => Json::Text(text.clone()),
        Value::Array(list) => Json::List(list.iter().map(from_value).collect()),
        Value::Object(map) => {
            Json::Object(map.iter().map(|(key, value)| (key.clone(), from_value(value))).collect())
        }
    }
}

fn value(json: &Json) -> Value {
    match json {
        Json::Null => Value::Null,
        Json::Bool(truth) => Value::Bool(*truth),
        Json::Number(JsonNumber::Unsigned(n)) => Value::from(*n),
        Json::Number(JsonNumber::Negative(n)) => Value::from(*n),
        Json::Number(JsonNumber::Other(text)) => serde_json::from_str(text).unwrap(),
        Json::Text(text) => Value::String(text.clone()),
        Json::List(list) => Value::Array(list.iter().map(value).collect()),
        Json::Object(entries) => {
            Value::Object(entries.iter().map(|(key, item)| (key.clone(), value(item))).collect())
        }
    }
}

fn parsed(text: &str) -> Value {
    serde_json::from_str(text).unwrap()
}

#[test]
fn reads_content_length_and_newline_frames() {
    let payload = b"{\"jsonrpc\":\"2.0\",\"id\":1,\"result\":{}}";
    let mut bytes = format!("Content-Length: {}\r\n\r\n", payload.len()).into_bytes();
    bytes.extend_from_slice(payload);
    bytes.extend_from_slice(b"{\"next\":true}\n");
    let FrameStep::Frame { body, used } = read_frame(&bytes, false) else {
        panic!("预期第一帧");
    };
    assert_eq!(body, payload);
    let rest = bytes[used..].to_vec();
    let FrameStep::Frame { body, used } = read_frame(&rest, false) else {
        panic!("预期第二帧");
    };
    assert_eq!(body, b"{\"next\":true}");
    assert_eq!(used, rest.len());
}

#[test]
fn frames_wait_end_or_fail() {
    let step = |text: &str, closed: bool| read_frame(&text.as_bytes().to_vec(), closed);
    assert_eq!(step("", false), FrameStep::Wait);
    assert_eq!(step("", true), FrameStep::End);
    assert_eq!(step("\r\n \n", true), FrameStep::End);
    assert_eq!(step("{\"a\":1}", false), FrameStep::Wait);
    assert_eq!(
        step("{\"a\":1} \r\n", false),
        FrameStep::Frame { body: b"{\"a\":1}".to_vec(), used: 10 }
    );
    assert_eq!(step("Content-Length: x\r\n", false), FrameStep::Fail(FrameError::BadLength("invalid digit found in string")));
    assert_eq!(step("Content-Length: 2\r\nOther: 1\r\n", true), FrameStep::Fail(FrameError::HeaderCut));
    assert_eq!(step("Content-Length: 5\r\n\r\nab", true), FrameStep::Fail(FrameError::BodyCut));
    assert_eq!(step("Content-Length: 5\r\n\r\nab", false), FrameStep::Wait);
    assert_eq!(read_frame(&vec![0xff, b'\n'], false), FrameStep::Fail(FrameError::NotUtf8));
    assert_eq!(
        step("Content-Length:2\nX: y\n\nabc", false),
        FrameStep::Frame { body: b"ab".to_vec(), used: 25 }
    );
}

#[test]
fn expands_only_allowed_config_values() {
    let workspace = "/tmp/workspace";
    let config = json(
        "{\"command\":\"${WORKSPACE_ROOT}/bin/server\",\"args\":[\"${WORKSPACE_ROOT}/data\"],\"env\":{\"KEY_${WORKSPACE_ROOT}\":\"${WORKSPACE_ROOT}\"},\"cwd\":\"${WORKSPACE_ROOT}\"}",
    );
    let parsed = parse_server_config("demo", &config, workspace, &Vec::new()).unwrap();
    assert_eq!(parsed.command, "${WORKSPACE_ROOT}/bin/server");
    assert!(parsed.args[0].starts_with(workspace));
    assert!(parsed.env.iter().any(|(key, _)| key == "KEY_${WORKSPACE_ROOT}"));
    assert_eq!(parsed.env[0].1, workspace);
    assert_eq!(parsed.cwd.as_deref(), Some(workspace));
}

#[test]
fn placeholders_come_from_the_environment() {
    let env = vec![
        ("HOME".to_owned(), EnvValue::Present("/root".to_owned())),
        ("BAD".to_owned(), EnvValue::Unreadable("no text".to_owned())),
    ];
    let expand = |text: &str| expand_placeholders(text, "/w", &env);
    assert_eq!(expand("a${HOME}b${WORKSPACE_ROOT}$"), Ok("a/rootb/w$".to_owned()));
    assert_eq!(expand("plain } text"), Ok("plain } text".to_owned()));
    assert_eq!(expand("${HOME"), Err("占位符缺少右花括号".to_owned()));
    assert_eq!(expand("${}"), Err("占位符名称不能为空".to_owned()));
    assert_eq!(
        expand("${OTHER}"),
        Err("占位符环境变量未设置：OTHER: environment variable not found".to_owned())
    );
    assert_eq!(expand("${BAD}"), Err("占位符环境变量未设置：BAD: no text".to_owned()));
}

#[test]
fn server_settings_are_checked() {
    let said = |text: &str| parse_server_config("s", &json(text), "/w", &Vec::new()).unwrap_err();
    assert_eq!(said("1"), "server 条目必须是对象");
    assert_eq!(said("{\"command\":42}"), "command 必须是非空字符串");
    assert_eq!(said("{\"command\":\" \"}"), "command 必须是非空字符串");
    assert_eq!(said("{\"command\":\"c\",\"args\":{}}"), "args 必须是字符串数组");
    assert_eq!(said("{\"command\":\"c\",\"args\":[1]}"), "args 必须是字符串数组");
    assert_eq!(said("{\"command\":\"c\",\"env\":[]}"), "env 必须是字符串 map");
    assert_eq!(said("{\"command\":\"c\",\"env\":{\"a\":1}}"), "env 值必须是字符串");
    assert_eq!(said("{\"command\":\"c\",\"cwd\":1}"), "cwd 必须是字符串");
    let plan = parse_server_config("s", &json("{\"command\":\"c\",\"cwd\":\"sub\"}"), "/w", &Vec::new());
    let plan = plan.unwrap();
    assert_eq!(plan.cwd.as_deref(), Some("/w/sub"));
    assert_eq!(settle_cwd(plan.clone(), Some("/w/sub"), "/w").unwrap().cwd, "/w/sub");
    assert_eq!(settle_cwd(plan.clone(), None, "/w").unwrap().cwd, "/w");
    assert_eq!(settle_cwd(plan, Some("/x"), "/w").unwrap_err(), "cwd 必须位于工作区内：/x");
}

#[test]
fn file_level_error_disables_mcp_without_failing_reload() {
    let mut manager = McpManager::new("/w");
    let error = config_failure("解析", "/w/.my-agent/mcp.json", "expected ident");
    assert_eq!(error, "解析 /w/.my-agent/mcp.json 失败：expected ident");
    manager.reload(Some(error), Vec::new(), &Vec::new());
    assert!(manager.status().file_error.is_some());
    assert!(manager.specs().is_empty());
    assert_eq!(
        load_config(&json("[]"), "/w", &Vec::new()).unwrap_err(),
        "mcp.json 顶层必须包含对象 mcpServers"
    );
}

fn remote(name: &str) -> RemoteTool {
    RemoteTool {
        name: name.to_owned(),
        description: "d".to_owned(),
        input_schema: json("{\"type\":\"object\"}"),
    }
}

#[test]
fn isolates_bad_server_and_bridges_tools() {
    let root = json(
        "{\"mcpServers\":{\"broken\":{\"command\":42},\"echo\":{\"command\":\"/bin/sh\",\"cwd\":\"${WORKSPACE_ROOT}\"}}}",
    );
    let load = load_config(&root, "/w", &Vec::new()).unwrap();
    assert_eq!(load.valid.len(), 1);
    assert_eq!(load.invalid.len(), 1);
    assert_eq!(load.invalid[0].error.as_deref(), Some("配置无效：command 必须是非空字符串"));
    let mut manager = McpManager::new("/w");
    let kept = manager.reload(
        None,
        load.invalid,
        &vec![ServerOutcome { name: "echo".to_owned(), result: Ok(vec![remote("echo")]) }],
    );
    assert_eq!(kept, vec![true]);
    assert_eq!(manager.workspace(), "/w");
    let status = manager.status();
    assert_eq!(status.servers.len(), 2);
    assert!(status.servers.iter().any(|server| {
        server.name == "broken" && !server.connected && server.error.is_some()
    }));
    assert!(status.servers.iter().any(|server| {
        server.name == "echo" && server.connected && server.tools == ["mcp__echo__echo"]
    }));
    let tool = manager.get("mcp__echo__echo").unwrap();
    assert_eq!(tool.approval_subject(), "echo / echo");
    assert_eq!(tool.spec().name, "mcp__echo__echo");
    assert_eq!(manager.specs().len(), 1);
    assert!(manager.get("mcp__echo__other").is_none());
    manager.shutdown();
    assert!(manager.specs().is_empty());
    assert!(manager.status().servers.iter().all(|server| !server.connected));
}

#[test]
fn servers_with_clashing_tools_are_left_out() {
    let mut manager = McpManager::new("/w");
    let kept = manager.reload(
        None,
        vec![invalid_server("z", "坏")],
        &vec![
            ServerOutcome { name: "B".to_owned(), result: Ok(vec![remote("x"), remote("y")]) },
            ServerOutcome { name: "b".to_owned(), result: Ok(vec![remote("w"), remote("Y")]) },
            ServerOutcome { name: "a".to_owned(), result: Err("没有启动".to_owned()) },
        ],
    );
    assert_eq!(kept, vec![true, false, false]);
    let names: Vec<&str> =
        manager.status().servers.iter().map(|server| server.name.as_str()).collect();
    assert_eq!(names, ["B", "a", "b", "z"]);
    assert_eq!(manager.status().servers[1].error.as_deref(), Some("没有启动"));
    assert_eq!(manager.status().servers[2].error.as_deref(), Some("MCP 工具名冲突：mcp__b__y"));
    assert_eq!(manager.status().servers[3].error.as_deref(), Some("配置无效：坏"));
    assert!(manager.get("mcp__b__x").is_some());
    assert!(manager.get("mcp__b__w").is_none());
    assert_eq!(sanitize_name("Ab-1.中"), "ab_1__");
    assert_eq!(bridge_name("My Server", "do-it"), "mcp__my_server__do_it");
}

#[test]
fn tools_of_a_server_are_read_from_its_list() {
    let tools = parse_remote_tools(&json(
        "{\"tools\":[{\"name\":\"a\"},{\"name\":\"b\",\"description\":\"说明\",\"inputSchema\":{\"type\":\"string\"}}]}",
    ))
    .unwrap();
    assert_eq!(tools[0].description, "外部 MCP 工具");
    assert_eq!(value(&tools[0].input_schema), parsed("{\"type\":\"object\"}"));
    assert_eq!(tools[1].description, "说明");
    assert_eq!(value(&tools[1].input_schema), parsed("{\"type\":\"string\"}"));
    let said = |text: &str| parse_remote_tools(&json(text)).unwrap_err();
    assert_eq!(said("{}"), "tools/list 响应缺少 tools 数组");
    assert_eq!(said("{\"tools\":[{\"name\":\" \"}]}"), "MCP tool 缺少 name");
    assert_eq!(
        said("{\"tools\":[{\"name\":\"a\",\"inputSchema\":[]}]}"),
        "MCP tool a 的 inputSchema 必须是对象"
    );
}

#[test]
fn handshake_asks_for_the_tools() {
    let (method, params) = start_handshake("0.1.0");
    assert_eq!(method, "initialize");
    assert_eq!(
        value(&params),
        parsed(
            "{\"protocolVersion\":\"2024-11-05\",\"capabilities\":{},\"clientInfo\":{\"name\":\"my-agent\",\"version\":\"0.1.0\"}}"
        )
    );
    let HandshakeStep::AskForTools { notification, method, params } = continue_handshake(
        HandshakeStage::Initializing,
        &Ok(json("{\"protocolVersion\":\"2024-11-05\"}")),
    ) else {
        panic!("预期继续握手");
    };
    assert_eq!(
        value(&notification),
        parsed("{\"jsonrpc\":\"2.0\",\"method\":\"notifications/initialized\",\"params\":{}}")
    );
    assert_eq!(method, "tools/list");
    assert_eq!(value(&params), parsed("{}"));
    assert!(matches!(
        continue_handshake(HandshakeStage::Listing, &Ok(json("{\"tools\":[{\"name\":\"a\"}]}"))),
        HandshakeStep::Connected(tools) if tools.len() == 1
    ));
    assert!(matches!(
        continue_handshake(HandshakeStage::Initializing, &Ok(json("{}"))),
        HandshakeStep::Fail(error) if error == "MCP initialize 响应缺少 protocolVersion"
    ));
    assert!(matches!(
        continue_handshake(HandshakeStage::Listing, &Err("断开".to_owned())),
        HandshakeStep::Fail(error) if error == "断开"
    ));
}

#[test]
fn answers_go_to_the_requests_that_wait_for_them() {
    let mut client = McpClient::new();
    let (first, message) = client.request("tools/list", json("{}"));
    assert_eq!(first, 1);
    assert_eq!(
        value(&message),
        parsed("{\"jsonrpc\":\"2.0\",\"id\":1,\"method\":\"tools/list\",\"params\":{}}")
    );
    let (second, _) = client.request("tools/call", call_params("t", json("{\"a\":1}")));
    assert!(client.dispatch(&json("{\"id\":9,\"result\":1}")).is_none());
    assert!(client.dispatch(&json("{\"method\":\"x\"}")).is_none());
    let (id, outcome) = client.dispatch(&json("{\"id\":1,\"result\":{\"ok\":true}}")).unwrap();
    assert_eq!(id, 1);
    assert_eq!(value(&outcome.unwrap()), parsed("{\"ok\":true}"));
    assert!(client.dispatch(&json("{\"id\":1,\"result\":1}")).is_none());
    let (id, outcome) = client.dispatch(&json("{\"id\":2}")).unwrap();
    assert_eq!(id, second);
    assert_eq!(value(&outcome.unwrap_err()), parsed("{\"message\":\"缺少 result/error\"}"));
    let (third, _) = client.request("a", json("{}"));
    let (fourth, _) = client.request("b", json("{}"));
    assert!(client.has_ids());
    client.forget(third);
    assert_eq!(client.fail_pending(), vec![fourth]);
    assert_eq!(write_message("{}"), "{}\n");
    assert_eq!(
        value(&notify("n", json("{}"))),
        parsed("{\"jsonrpc\":\"2.0\",\"method\":\"n\",\"params\":{}}")
    );
    assert_eq!(FrameError::BadLength("x").message(), "非法 MCP Content-Length: x");
}

#[test]
fn tool_answers_are_shown_line_by_line() {
    let result = json("{\"content\":[{\"text\":\"a\"},{\"type\":\"x\"}]}");
    let rendered = vec!["{\"text\":\"a\"}".to_owned(), "{\"type\":\"x\"}".to_owned()];
    assert_eq!(call_outcome(&result, &rendered, "?"), Ok("a\n{\"type\":\"x\"}".to_owned()));
    assert_eq!(call_outcome(&json("{\"x\":1}"), &Vec::new(), "{\"x\":1}"), Ok("{\"x\":1}".to_owned()));
    assert_eq!(
        call_outcome(&json("{\"isError\":true}"), &Vec::new(), "w"),
        Err("MCP 工具返回错误：w".to_owned())
    );
}

#[test]
fn written_messages_are_read_back() {
    let mut bytes = Vec::new();
    for text in ["{\"a\":\"中\"}", "{\"b\":[1,2]}"] {
        bytes.extend_from_slice(write_message(text).as_bytes());
    }
    let FrameStep::Frame { body, used } = read_frame(&bytes, false) else {
        panic!("no first message");
    };
    assert_eq!(body, "{\"a\":\"中\"}".as_bytes());
    assert_eq!(used, body.len() + 1);
    let rest = bytes[used..].to_vec();
    let FrameStep::Frame { body, used } = read_frame(&rest, true) else {
        panic!("no second message");
    };
    assert_eq!(body, b"{\"b\":[1,2]}");
    assert_eq!(used, rest.len());
}

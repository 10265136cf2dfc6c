use my_agent::json::{Json, JsonNumber};
use my_agent::provider::{ToolSpec, ToolSpecView};
use my_agent::sub_agent::{SubAgentTool, build_tools};
use my_agent::tools::exec::{ExecTool, limited_lossy};
use my_agent::tools::write::WriteFileTool;
use my_agent::tools::{Tool, ToolError, ToolOutput, ToolRegistry, validate_value};

fn json(text: &str) -> Json {
    from_value(&serde_json::from_str(text).unwrap())
}

fn from_value(value: &serde_json::Value) -> Json {
    match value {
        serde_json::Value::Null => Json::Null,
        serde_json::Value::Bool(truth) => Json::Bool(*truth),
        serde_json::Value::Number(number) => Json::Number(if let Some(n) = number.as_u64() {
            JsonNumber::Unsigned(n)
        } else if let Some(n) = number.as_i64() {
            JsonNumber::Negative(n)
        } else {
            JsonNumber::Other(number.to_string())
        }),
        serde_json::Value::String(text) => Json::Text(text.clone()),
        serde_json::Value::Array(list) => Json::List(list.iter().map(from_value).collect()),
        serde_json::Value::Object(map) => {
            Json::Object(map.iter().map(|(key, value)| (key.clone(), from_value(value))).collect())
        }
    }
}

#[test]
fn validator_is_permissive_unless_extra_fields_are_explicitly_forbidden() {
    let permissive = json(
        "{\"type\":\"object\",\"properties\":{\"path\":{\"type\":\"string\"}},\"required\":[\"path\"]}",
    );
    assert!(validate_value(&permissive, &json("{\"path\":\"a\",\"extra\":1}"), "$args").is_ok());

    let strict = json(
        "{\"type\":\"object\",\"properties\":{\"path\":{\"type\":\"string\"}},\"required\":[\"path\"],\"additionalProperties\":false}",
    );
    assert!(validate_value(&strict, &json("{\"path\":\"a\",\"extra\":1}"), "$args").is_err());
    assert!(validate_value(&strict, &json("{}"), "$args").is_err());
    assert!(validate_value(&strict, &json("{\"path\":42}"), "$args").is_err());
}

#[test]
fn complaints_name_the_place() {
    let schema = json(
        "{\"type\":\"object\",\"required\":[\"a\"],\"additionalProperties\":false,\"properties\":{\"a\":{\"type\":\"object\",\"properties\":{\"b\":{\"type\":\"integer\"}}}}}",
    );
    let said = |value: &str| validate_value(&schema, &json(value), "$args").unwrap_err().message();
    assert_eq!(said("1"), "工具参数校验失败: $args 应为 object");
    assert_eq!(said("{}"), "工具参数校验失败: $args 缺少必填字段 a");
    assert_eq!(said("{\"a\":{\"b\":1.5}}"), "工具参数校验失败: $args.a.b 应为 integer");
    assert_eq!(said("{\"a\":{},\"c\":1}"), "工具参数校验失败: $args 不允许额外字段 c");
    for (kind, value, fits) in [
        ("array", "[]", true),
        ("array", "{}", false),
        ("string", "\"x\"", true),
        ("number", "1.5", true),
        ("integer", "-3", true),
        ("integer", "3", true),
        ("boolean", "false", true),
        ("boolean", "0", false),
        ("null", "null", true),
        ("unheard", "1", true),
    ] {
        let schema = json(&format!("{{\"type\":\"{kind}\"}}"));
        assert_eq!(validate_value(&schema, &json(value), "$").is_ok(), fits, "{kind} {value}");
    }
    assert!(validate_value(&json("{}"), &json("[1]"), "$").is_ok());
}

struct NamedTool(&'static str);

impl Tool for NamedTool {
    fn described(&self) -> ToolSpecView {
        unreachable!()
    }

    fn harmless(&self) -> bool {
        unreachable!()
    }

    fn spec(&self) -> ToolSpec {
        ToolSpec {
            name: self.0.to_owned(),
            description: "测试工具".to_owned(),
            parameters: json("{\"type\":\"object\"}"),
        }
    }

    fn is_read_only(&self) -> bool {
        self.0 == "read_file"
    }
}

fn available_tools() -> ToolRegistry {
    let mut tools = ToolRegistry::new();
    for name in ["read_file", "exec", "recall_memory", "write_file", "edit_file"] {
        tools.register(&NamedTool(name));
    }
    tools
}

fn names(tools: &ToolRegistry) -> Vec<String> {
    tools.specs().into_iter().map(|spec| spec.name).collect()
}

#[test]
fn registry_finds_what_was_registered() {
    let tools = available_tools();
    assert_eq!(names(&tools), ["edit_file", "exec", "read_file", "recall_memory", "write_file"]);
    assert!(tools.is_read_only("read_file"));
    assert!(!tools.is_read_only("exec"));
    assert!(!tools.is_read_only("nothing"));
    assert_eq!(tools.execute("exec", &json("{}")), Ok(()));
    assert!(matches!(tools.execute("exec", &json("1")), Err(ToolError::InvalidArguments(_))));
    assert_eq!(
        tools.execute("nothing", &json("{}")).unwrap_err().message(),
        "未知工具: nothing"
    );
    let two = tools.subset(&vec!["exec".to_owned(), "read_file".to_owned(), "exec".to_owned()]);
    assert_eq!(names(&two.unwrap()), ["exec", "read_file"]);
    assert_eq!(
        tools.subset(&vec!["exec".to_owned(), "x".to_owned()]).unwrap_err().message(),
        "不可用的子 Agent 工具: x"
    );
    assert_eq!(names(&tools.copy()), names(&tools));
    let mut replaced = tools.copy();
    replaced.register(&ExecTool::new());
    assert_eq!(names(&replaced), names(&tools));
    assert!(replaced.execute("exec", &json("{}")).is_err());
    assert_eq!(ToolOutput::text("x").content, "x");
}

#[test]
fn uses_fresh_history_and_default_limited_tools() {
    let tool = SubAgentTool::new(available_tools());

    let run = tool.execute("只调查模块关系", None).unwrap();

    assert!(run.system_prompt.contains("全新且独立"));
    assert_eq!(run.task, "只调查模块关系");
    let names = names(&run.tools);
    assert_eq!(names, ["exec", "read_file", "recall_memory"]);
    assert!(!names.contains(&"write_file".to_owned()));
    assert!(!names.contains(&"sub_agent".to_owned()));
    assert_eq!(run.max_rounds, 15);
}

#[test]
fn sub_agents_are_refused_without_a_task_or_tools() {
    let tool = SubAgentTool::new(available_tools()).with_max_rounds(1);
    assert_eq!(tool.execute(" \n", None).unwrap_err(), "sub_agent.task 不能为空");
    assert_eq!(
        tool.execute("x", Some(Vec::new())).unwrap_err(),
        "sub_agent.tools 不能为空数组；若不需要工具请省略该字段"
    );
    assert_eq!(
        tool.execute("x", Some(vec!["sub_agent".to_owned()])).unwrap_err(),
        "不可用的子 Agent 工具: sub_agent"
    );
    let run = tool.execute("  x ", Some(vec!["write_file".to_owned()])).unwrap();
    assert_eq!(run.task, "x");
    assert_eq!(run.max_rounds, 1);
    assert_eq!(names(&run.tools), ["write_file"]);
}

#[test]
fn agent_has_the_sub_agent_tool_and_sub_agents_have_not() {
    let (tools, sub_agents) = build_tools(available_tools());
    assert!(names(&tools).contains(&"sub_agent".to_owned()));
    assert!(names(&tools).contains(&"remember".to_owned()));
    assert!(!names(&sub_agents.available_tools).contains(&"sub_agent".to_owned()));
}

#[test]
fn executes_shell_command() {
    let output = ExecTool::new().report(Some(0), &b"hello".to_vec(), &Vec::new());
    assert!(output.contains("exit_code: 0"));
    assert!(output.contains("hello"));
}

#[test]
fn command_reports_show_both_outputs() {
    assert_eq!(
        ExecTool::new().report(None, &b"a".to_vec(), &vec![0xff]),
        "exit_code: -1\nstdout:\na\nstderr:\n\u{fffd}"
    );
    let long = vec![b'a'; 65537];
    let shown = limited_lossy(&long);
    assert!(shown.ends_with("a\n...[输出已截断，原始大小 65537 字节]"));
    assert_eq!(shown.chars().filter(|c| *c == 'a').count(), 65536);
    assert_eq!(limited_lossy(&vec![b'a'; 65536]).len(), 65536);
    assert_eq!(WriteFileTool::new().report("/w/a"), "已写入 /w/a");
    let spec = WriteFileTool::new().spec();
    assert_eq!(spec.name, "write_file");
    assert_eq!(spec.parameters.count_at("required"), 2);
}

use my_agent::provider::{
    ApiType, EnvValue, ExecutionIdentity, IdentitySource, Message, ProviderCapabilities,
    ProviderEvent, Response, Role, ToolArgumentsFragment, ToolCall, ToolCallStreamError,
    emit_legacy_response, identify_call, optional_bool_env, outbound_wire_id, required_env,
};

#[test]
fn execution_identity_is_reversible_and_domain_scoped() {
    let openai = ExecutionIdentity::wire(ApiType::OpenaiChat, "same-id");
    let anthropic = ExecutionIdentity::wire(ApiType::AnthropicMessages, "same-id");

    assert_ne!(openai.encode(), anthropic.encode());
    assert_eq!(ExecutionIdentity::decode(&openai.encode()), Some(openai));
    assert_eq!(ExecutionIdentity::decode(&anthropic.encode()), Some(anthropic));
}

#[test]
fn positional_identity_has_no_wire_id() {
    let identity = ExecutionIdentity::position(ApiType::Ollama, 2);
    assert_eq!(identity.wire_id(), None);
    assert_eq!(ExecutionIdentity::decode(&identity.encode()), Some(identity));
}

#[test]
fn identities_are_kept_in_a_fixed_form() {
    assert_eq!(
        ExecutionIdentity::wire(ApiType::OpenaiChat, "same-id").encode(),
        "tc1:openai-chat:id:c2FtZS1pZA"
    );
    assert_eq!(ExecutionIdentity::wire(ApiType::Ollama, "你?>").encode(), "tc1:ollama:id:5L2gPz4");
    assert_eq!(
        ExecutionIdentity::position(ApiType::AnthropicMessages, 17).encode(),
        "tc1:anthropic-messages:pos:17"
    );
    let identity = ExecutionIdentity::wire(ApiType::Ollama, "a:b");
    assert_eq!(identity.copy(), identity);
    assert_eq!(identity.wire_id(), Some("a:b"));
    assert!(matches!(identity.source, IdentitySource::WireId(_)));
}

#[test]
fn other_texts_are_no_identities() {
    for text in [
        "", "call-1", "tc1", "tc1:ollama", "tc1:ollama:id", "tc2:ollama:pos:1", "tc1:other:pos:1",
        "tc1:ollama:key:1", "tc1:ollama:pos:-1", "tc1:ollama:pos:x", "tc1:ollama:id:a",
        "tc1:ollama:id:YQ==", "tc1:ollama:id:_w",
    ] {
        assert_eq!(ExecutionIdentity::decode(text), None, "{text}");
    }
}

#[test]
fn only_wire_ids_go_out_to_the_provider() {
    let wire = ExecutionIdentity::wire(ApiType::OpenaiChat, "call-7").encode();
    let position = ExecutionIdentity::position(ApiType::OpenaiChat, 0).encode();
    assert_eq!(outbound_wire_id(&wire).as_deref(), Some("call-7"));
    assert_eq!(outbound_wire_id(&position), None);
    assert_eq!(outbound_wire_id("legacy").as_deref(), Some("legacy"));
    assert_eq!(outbound_wire_id(""), None);
}

fn call(id: &str, name: &str, arguments: &str) -> ToolCall {
    ToolCall { id: id.to_owned(), name: name.to_owned(), arguments: arguments.to_owned() }
}

#[test]
fn whole_responses_become_events() {
    assert_eq!(
        emit_legacy_response(Response::Text("你好".to_owned()), ApiType::Ollama),
        vec![ProviderEvent::TextDelta("你好".to_owned())]
    );
    let error = ToolCallStreamError::new("empty_tool_calls", "provider 返回了空工具调用批次");
    assert_eq!(
        emit_legacy_response(Response::ToolCalls(Vec::new()), ApiType::Ollama),
        vec![ProviderEvent::ToolCallFailed(error.clone())]
    );
    assert_eq!(
        emit_legacy_response(Response::ToolAssemblyFailed(error.clone()), ApiType::Ollama),
        vec![ProviderEvent::ToolCallFailed(error)]
    );
    let known = ExecutionIdentity::position(ApiType::OpenaiChat, 9);
    let calls = vec![call("w", "exec", "{}"), call("", "exec", "[]"), call(&known.encode(), "plan", "1")];
    let mut expected = Vec::new();
    for (exec_id, name, arguments) in [
        (ExecutionIdentity::wire(ApiType::Ollama, "w"), "exec", "{}"),
        (ExecutionIdentity::position(ApiType::Ollama, 1), "exec", "[]"),
        (known, "plan", "1"),
    ] {
        expected.push(ProviderEvent::ToolCallStarted {
            exec_id: exec_id.copy(),
            name: name.to_owned(),
        });
        expected.push(ProviderEvent::ToolCallDelta {
            exec_id: exec_id.copy(),
            fragment: ToolArgumentsFragment::AuthoritativeSnapshot(arguments.to_owned()),
        });
        expected.push(ProviderEvent::ToolCallCompleted { exec_id });
    }
    assert_eq!(emit_legacy_response(Response::ToolCalls(calls), ApiType::Ollama), expected);
    assert_eq!(
        identify_call("", ApiType::Ollama, 3),
        ExecutionIdentity::position(ApiType::Ollama, 3)
    );
}

#[test]
fn interfaces_are_named_in_the_environment() {
    let present = |text: &str| EnvValue::Present(text.to_owned());
    assert_eq!(ApiType::from_env(&EnvValue::Missing), Ok(ApiType::OpenaiChat));
    assert_eq!(ApiType::from_env(&present(" OLLAMA\n")), Ok(ApiType::Ollama));
    assert_eq!(
        ApiType::from_env(&present("gpt")),
        Err("API_TYPE 必须是 openai-chat、anthropic-messages 或 ollama".to_owned())
    );
    assert_eq!(
        ApiType::from_env(&EnvValue::Unreadable("x".to_owned())),
        Err("读取环境变量 API_TYPE 失败".to_owned())
    );
    for api in [ApiType::OpenaiChat, ApiType::AnthropicMessages, ApiType::Ollama] {
        assert_eq!(ApiType::parse(api.as_str()), Some(api));
    }
    assert_eq!(ApiType::parse("openai"), None);
}

#[test]
fn settings_are_read_from_the_environment() {
    let present = |text: &str| EnvValue::Present(text.to_owned());
    assert_eq!(required_env("KEY", &present(" v ")), Ok(" v ".to_owned()));
    assert_eq!(required_env("KEY", &present(" \t")), Err("环境变量 KEY 不能为空".to_owned()));
    assert_eq!(required_env("KEY", &EnvValue::Missing), Err("缺少环境变量 KEY".to_owned()));
    assert_eq!(
        required_env("KEY", &EnvValue::Unreadable("x".to_owned())),
        Err("缺少环境变量 KEY".to_owned())
    );
    for text in ["1", "true", "YES", " on "] {
        assert_eq!(optional_bool_env("B", &present(text), false), Ok(true));
    }
    for text in ["0", "False", "no", "OFF"] {
        assert_eq!(optional_bool_env("B", &present(text), true), Ok(false));
    }
    assert_eq!(optional_bool_env("B", &EnvValue::Missing, true), Ok(true));
    assert_eq!(
        optional_bool_env("B", &present("maybe"), true),
        Err("环境变量 B 必须是 true/false、1/0、yes/no 或 on/off".to_owned())
    );
    assert_eq!(
        optional_bool_env("B", &EnvValue::Unreadable("x".to_owned()), true),
        Err("读取环境变量 B 失败".to_owned())
    );
}

#[test]
fn messages_hold_what_they_are_made_of() {
    let request = call("c1", "exec", "{}");
    let result = Message::tool_result(&request, "done");
    assert_eq!(result.role, Role::Tool);
    assert_eq!(result.tool_call_id.as_deref(), Some("c1"));
    assert_eq!(result.name.as_deref(), Some("exec"));
    assert_eq!(result.content.as_deref(), Some("done"));
    let calls = Message::assistant_tool_calls(vec![request.clone()]);
    assert_eq!(calls.role, Role::Assistant);
    assert_eq!(calls.content, None);
    assert_eq!(calls.tool_calls, vec![request]);
    let seen = Message::user_with_images("看", vec!["data:x".to_owned()]);
    assert_eq!(seen.role, Role::User);
    assert_eq!(seen.image_urls, vec!["data:x".to_owned()]);
    assert_eq!(
        ProviderCapabilities::new(true, false),
        ProviderCapabilities { images: true, tools: false }
    );
}

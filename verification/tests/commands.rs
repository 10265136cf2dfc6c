use my_agent::daemon::commands::{
    CronAdd, CronJob, CronRun, CronStep, McpStep, ScheduleSpec, SkillStep, SlashStep, cron_reply,
    dogfood_response, execute_cron_command, execute_mcp_command, execute_skill_command,
    execute_slash, format_mcp_status, job_added_text, job_list_text, job_removed_text,
    job_switched_text, new_response, outcome_list_text, parse_cron_add, resumable, resume_target,
    resumed_response, run_now_text, skill_list_text, skill_reply, status_response,
};
use my_agent::daemon::dogfood::{
    chain_logs, dogfood_failure, export_dogfood_file, strip_ansi_sequences,
};
use my_agent::json::{Json, JsonNumber};
use my_agent::mcp::{McpServerStatus, McpStatus};
use my_agent::session::{SessionInfo, SessionStatus};
use my_agent::skills::{InstallOutcome, SkillInfo, Version};
use my_agent::slash::{SlashRegistry, SlashResponse};

fn words(line: &str) -> Vec<String> {
    line.split_whitespace().map(str::to_owned).collect()
}

fn content(response: SlashResponse) -> String {
    match response {
        SlashResponse::Text { content } => content,
        _ => panic!("预期文本"),
    }
}

fn reply(line: &str) -> String {
    match execute_slash(line) {
        SlashStep::Reply(response) => content(response),
        _ => panic!("预期直接回答"),
    }
}

#[test]
fn plain_commands_are_answered_at_once() {
    assert_eq!(reply("hello"), "输入不是 slash 命令");
    assert_eq!(reply("/help"), SlashRegistry::builtin().help());
    assert_eq!(reply("/ping"), "pong");
    assert_eq!(reply("/cancel"), "当前没有前台请求；运行中按 Ctrl-C 可取消本轮。");
    assert_eq!(reply("/nope"), "未知命令：/nope。输入 /help 查看命令。");
    assert!(matches!(execute_slash("/exit"), SlashStep::Reply(SlashResponse::Exit)));
    assert!(matches!(execute_slash("/status"), SlashStep::Status));
    assert!(matches!(execute_slash("/sessions"), SlashStep::Sessions));
    assert!(matches!(execute_slash("/resume"), SlashStep::Choose));
    assert!(matches!(execute_slash("/resume 2"), SlashStep::Resume(target) if target == "2"));
    assert!(matches!(execute_slash("/new"), SlashStep::New));
    assert!(matches!(execute_slash("/skill list"), SlashStep::Skill(args) if args == ["list"]));
    assert!(matches!(execute_slash("/cron list"), SlashStep::Cron(args) if args == ["list"]));
    assert!(matches!(execute_slash("/mcp list"), SlashStep::Mcp(args) if args == ["list"]));
}

fn number(n: u64) -> Json {
    Json::Number(JsonNumber::Unsigned(n))
}

fn entry(key: &str, value: Json) -> (String, Json) {
    (key.to_owned(), value)
}

#[test]
fn status_counts_what_the_snapshot_holds() {
    let snapshot = Json::Object(vec![
        entry("session_id", Json::Text("s".to_owned())),
        entry("messages", Json::List(vec![number(1), number(2)])),
        entry("active_requests", Json::List(vec![number(1)])),
        entry("pending_approvals", Json::List(Vec::new())),
    ]);
    assert_eq!(
        content(status_response(&snapshot)),
        "会话 s · 历史 2 条 · 活动请求 1 个 · 待审批 0 个"
    );
    assert_eq!(
        content(status_response(&Json::Null)),
        "会话 unknown · 历史 0 条 · 活动请求 0 个 · 待审批 0 个"
    );
    let SlashResponse::SessionChanged { message, .. } = resumed_response("s", snapshot) else {
        panic!("预期会话切换");
    };
    assert_eq!(message, "已恢复会话 s，共 2 条消息。");
    let created = Json::Object(vec![entry("session_id", Json::Text("n".to_owned()))]);
    let SlashResponse::SessionChanged { message, snapshot } = new_response(created) else {
        panic!("预期会话切换");
    };
    assert_eq!(message, "已新建会话：n");
    assert_eq!(snapshot.get_text("session_id"), Some("n"));
    assert_eq!(content(dogfood_response("/w/d.log")), "dogfood 已生成：/w/d.log");
}

fn info(id: &str, message_count: usize) -> SessionInfo {
    SessionInfo {
        id: id.to_owned(),
        path: id.to_owned(),
        active: false,
        message_count,
        modified_at: None,
        preview: None,
        status: SessionStatus::Idle,
        active_requests: 0,
        updated_at: None,
    }
}

#[test]
fn sessions_are_resumed_by_number_or_id() {
    let sessions = resumable(vec![info("a", 1), info("b", 0), info("c", 3)]);
    assert_eq!(sessions.len(), 2);
    assert_eq!(resume_target(&sessions, "2"), Ok("c".to_owned()));
    assert_eq!(resume_target(&sessions, "b"), Ok("b".to_owned()));
    assert_eq!(resume_target(&sessions, "3"), Err((-32602, "会话编号超出范围：3".to_owned())));
    assert_eq!(resume_target(&sessions, "0"), Err((-32602, "会话编号从 1 开始".to_owned())));
}

#[test]
fn skill_commands_are_read() {
    let step = |line: &str| execute_skill_command(&words(line), true);
    assert_eq!(step("list"), SkillStep::List);
    assert_eq!(
        step("install my skill.md --force"),
        SkillStep::Install { path: "my skill.md".to_owned(), force: true }
    );
    assert_eq!(
        step("install --force"),
        SkillStep::Reply("Skill 命令失败：用法：/skill install <路径> [--force]".to_owned())
    );
    assert_eq!(
        step("update demo a b"),
        SkillStep::Update { name: "demo".to_owned(), path: "a b".to_owned() }
    );
    assert_eq!(
        step("remove demo --confirm"),
        SkillStep::Remove { name: "demo".to_owned(), confirmed: true }
    );
    assert_eq!(
        step("remove demo"),
        SkillStep::Remove { name: "demo".to_owned(), confirmed: false }
    );
    assert_eq!(
        step("remove demo --confirm x"),
        SkillStep::Reply("Skill 命令失败：用法：/skill remove <name> --confirm".to_owned())
    );
    assert_eq!(
        step("list all"),
        SkillStep::Reply(
            "Skill 命令失败：用法：/skill list | install <路径> [--force] | update <name> <路径> | remove <name> --confirm"
                .to_owned()
        )
    );
    assert_eq!(
        execute_skill_command(&words("list"), false),
        SkillStep::Reply("当前 daemon 未启用 skill 管理器。".to_owned())
    );
    assert_eq!(content(skill_reply(Err("坏".to_owned()))), "Skill 命令失败：坏");
    assert_eq!(content(skill_reply(Ok("好".to_owned()))), "好");
    assert_eq!(skill_list_text(&Vec::new()), "暂无已安装 skill。");
    let demo = || SkillInfo {
        name: "demo".to_owned(),
        version: Version::new(1, 2, 3),
        description: "说明".to_owned(),
    };
    assert_eq!(skill_list_text(&vec![demo(), demo()]), "demo@1.2.3：说明\ndemo@1.2.3：说明");
    let outcomes = vec![
        InstallOutcome::Installed { name: "a".to_owned(), version: Version::new(1, 0, 0) },
        InstallOutcome::Skipped {
            name: "b".to_owned(),
            version: Version::new(2, 0, 0),
            reason: "同版本已安装".to_owned(),
        },
    ];
    assert_eq!(outcome_list_text(&outcomes), "已安装 a@1.0.0\n已跳过 b@2.0.0：同版本已安装");
}

#[test]
fn tasks_are_read_from_their_command() {
    let add = |line: &str| parse_cron_add(&words(line));
    assert_eq!(
        add("add n interval=60 --retries=2 say --backoff=9 hello"),
        Ok(CronAdd {
            name: "n".to_owned(),
            schedule: ScheduleSpec::Interval { seconds: 60 },
            prompt: "say hello".to_owned(),
            retries: 2,
            backoff: 9,
        })
    );
    assert_eq!(
        add("add n cron=0,9,*,*,1-5 go").unwrap(),
        CronAdd {
            name: "n".to_owned(),
            schedule: ScheduleSpec::Cron { expression: "0 9 * * 1-5".to_owned() },
            prompt: "go".to_owned(),
            retries: 0,
            backoff: 5,
        }
    );
    for (line, said) in [
        ("add n interval=x go", "interval 必须是正整数秒: invalid digit found in string"),
        ("add n interval= go", "interval 必须是正整数秒: cannot parse integer from empty string"),
        ("add n every=1 go", "schedule 必须是 interval=<秒> 或 cron=<分,时,日,月,周>"),
        ("add n interval=1 --retries=-1 go", "--retries 必须是非负整数: invalid digit found in string"),
        (
            "add n interval=1 --retries=4294967296 go",
            "--retries 必须是非负整数: number too large to fit in target type",
        ),
        ("add n interval=1 --backoff=x go", "--backoff 必须是非负整数秒: invalid digit found in string"),
        ("add n interval=1 --backoff=3", "cron prompt 不能为空"),
    ] {
        assert_eq!(add(line), Err(said.to_owned()), "{line}");
    }
}

#[test]
fn task_commands_are_read() {
    let step = |line: &str| execute_cron_command(&words(line), true);
    assert_eq!(step("list"), CronStep::List);
    assert!(matches!(step("add n interval=60 go"), CronStep::Create(task) if task.name == "n"));
    assert_eq!(step("enable n"), CronStep::Enable { id: "n".to_owned(), enabled: true });
    assert_eq!(step("disable n"), CronStep::Enable { id: "n".to_owned(), enabled: false });
    assert_eq!(step("run-now n"), CronStep::RunNow { id: "n".to_owned() });
    assert_eq!(step("remove n --confirm"), CronStep::Remove { id: "n".to_owned() });
    assert_eq!(
        step("remove n"),
        CronStep::Reply("Cron 命令失败：删除需要显式确认：/cron remove n --confirm".to_owned())
    );
    assert!(matches!(step("remove n --yes"), CronStep::Reply(text) if text.starts_with("Cron 命令失败：用法")));
    assert!(matches!(step("add n interval=x go"), CronStep::Reply(_)));
    assert_eq!(
        execute_cron_command(&words("list"), false),
        CronStep::Reply("当前 daemon 未启用 cron 管理器。".to_owned())
    );
    assert_eq!(content(cron_reply(Err("坏".to_owned()))), "Cron 命令失败：坏");
}

#[test]
fn tasks_are_shown_with_their_last_run() {
    let run = |success: bool| CronRun {
        finished_at: 70,
        attempts: 2,
        success,
        result: "完成".to_owned(),
    };
    let job = |history: Vec<CronRun>| CronJob {
        id: "c1".to_owned(),
        name: "n".to_owned(),
        enabled: history.is_empty(),
        schedule: "每 60 秒".to_owned(),
        next_run_at: 99,
        history,
    };
    assert_eq!(job_list_text(&Vec::new()), "暂无 cron 任务。");
    assert_eq!(
        job_list_text(&vec![job(Vec::new()), job(vec![run(false), run(true)])]),
        "n [c1] 启用 · 每 60 秒 · next=99 · 尚未运行\nn [c1] 停用 · 每 60 秒 · next=99 · 上次=70，尝试=2，结果=成功"
    );
    let job = job(Vec::new());
    assert_eq!(job_added_text(&job), "已添加 n [c1]，下次运行 99");
    assert_eq!(job_switched_text(&job, true), "已启用 n");
    assert_eq!(job_switched_text(&job, false), "已停用 n");
    assert_eq!(job_removed_text(&job), "已删除 n");
    assert_eq!(run_now_text(&run(false)), "立即运行失败（尝试 2 次）：完成");
}

#[test]
fn outside_servers_are_shown() {
    assert_eq!(execute_mcp_command(&words("reload"), true), McpStep::Reload);
    assert_eq!(execute_mcp_command(&words("status"), true), McpStep::Show { errors: true });
    assert_eq!(execute_mcp_command(&words("list"), true), McpStep::Show { errors: false });
    assert_eq!(
        execute_mcp_command(&words("list x"), true),
        McpStep::Reply("MCP 命令失败：用法：/mcp list | status | reload".to_owned())
    );
    assert_eq!(
        execute_mcp_command(&words("list"), false),
        McpStep::Reply("当前 daemon 未启用 MCP 管理器。".to_owned())
    );
    let server = |name: &str, connected: bool, tools: &str, error: Option<&str>| McpServerStatus {
        name: name.to_owned(),
        connected,
        tools: words(tools),
        error: error.map(str::to_owned),
    };
    let mut status = McpStatus {
        file_error: None,
        servers: vec![server("a", true, "x y", None), server("b", false, "", Some("坏"))],
    };
    assert_eq!(format_mcp_status(&status, false), "a：已连接 · x、y\nb：不可用 · 无工具");
    assert_eq!(format_mcp_status(&status, true), "a：已连接 · x、y\nb：不可用 · 无工具 · 坏");
    status.servers.clear();
    assert_eq!(format_mcp_status(&status, true), "未配置 MCP server（期望 .my-agent/mcp.json）。");
    status.file_error = Some("e".to_owned());
    assert_eq!(format_mcp_status(&status, false), "配置错误：e");
}

#[test]
fn exports_full_conversation_and_only_current_session_chain_logs() {
    let session_id = "session-42.jsonl";
    let conversation = "{\"role\":\"user\",\"content\":\"检查项目\"}\n{\"role\":\"assistant\",\"tool_calls\":[{\"name\":\"exec\",\"arguments\":{\"command\":\"pwd\"}}]}\n{\"role\":\"tool\",\"content\":\"/workspace\",\"name\":\"exec\"}\n{\"role\":\"assistant\",\"content\":\"完成\"}\n";
    let log = "\x1b[32m INFO\x1b[0m agent_turn{\x1b[3msession_id\x1b[0m\x1b[2m=\x1b[0msession-42.jsonl request_id=Number(7)}: 开始 ReAct 轮次\nINFO agent_turn{session_id=other.jsonl request_id=Number(8)}: 其他会话\nINFO session_id=session-42.jsonl request_id=Number(7): chat 请求结束\n";

    let (exported, text) = export_dogfood_file(
        session_id,
        "/w/session-42.jsonl",
        "/w/daemon.log",
        &conversation.as_bytes().to_vec(),
        &log.as_bytes().to_vec(),
        12,
    );

    assert_eq!(exported, "/w/dogfood-session-42.log");
    assert!(text.contains("conversation_messages=4"));
    assert!(text.contains("chain_log_lines=2"));
    assert!(text.contains(conversation));
    assert!(text.contains("request_id=Number(7)"));
    assert!(!text.contains("其他会话"));
    assert!(!text.contains('\x1b'));
    assert!(text.starts_with(
        "# my-agent dogfood export\nschema_version=1\ngenerated_at_unix_ms=12\nsession_id=session-42.jsonl\nsession_file=/w/session-42.jsonl\ndaemon_log_file=/w/daemon.log\nconversation_messages=4\nchain_log_lines=2\n\n===== LLM / REACT CONVERSATION (RAW SESSION JSONL) =====\n"
    ));
}

#[test]
fn empty_exports_say_so() {
    let (path, text) = export_dogfood_file("s", "s.jsonl", "/l", &Vec::new(), &Vec::new(), 0);
    assert_eq!(path, "dogfood-s.log");
    assert!(text.ends_with(
        "=====\n(当前 session 尚无持久化消息)\n\n===== DAEMON CHAIN LOG (CURRENT SESSION ONLY) =====\n(未找到带当前 session_id 的 daemon 链路日志)\n"
    ));
    assert_eq!(chain_logs("a session_id=\"s\" b\nsession_id=t\n", "s"), ["a session_id=\"s\" b"]);
    assert_eq!(dogfood_failure("坏"), (-32603, "生成 dogfood 日志失败：坏".to_owned()));
}

#[test]
fn terminal_sequences_are_stripped() {
    assert_eq!(strip_ansi_sequences("a\x1b[31mb\x1b[0mc"), "abc");
    assert_eq!(strip_ansi_sequences("a\x1bb"), "a\x1bb");
    assert_eq!(strip_ansi_sequences("a\x1b[12"), "a");
    assert_eq!(strip_ansi_sequences("\x1b["), "");
    assert_eq!(strip_ansi_sequences("中\x1b[1;2H文"), "中文");
    assert_eq!(strip_ansi_sequences("\x1b[中m文"), "文");
}

use my_agent::memory::{
    MemoryEntry, MemoryError, MemoryStore, RecallMemoryTool, RememberTool, default_recall_limit,
};
use my_agent::plan::{
    PlanAction, PlanError, PlanStatus, PlanStep, PlanStore, PlanTool, temporary_path,
};
use my_agent::provider::{Message, Role};
use my_agent::session::{
    SessionError, SessionFile, SessionStore, count_filled_lines, split_records,
};
use my_agent::terms::{TermSet, is_cjk, terms, terms_of_skill};

#[test]
fn extracts_ascii_keywords_and_chinese_bigrams() {
    let found = terms("Rust 项目偏好 async-trait");
    assert!(found.contains("rust"));
    assert!(found.contains("项目"));
    assert!(found.contains("偏好"));
    assert!(found.contains("async-trait"));
}

#[test]
fn terms_are_words_and_neighbouring_characters() {
    let found = terms("Rust 项目偏好 async-trait");
    assert!(found.contains("目偏"));
    assert!(!found.contains("项"));
    assert!(!found.contains("Rust"));
    assert_eq!(found.len(), 5);
    let single = terms("爱 A_b");
    assert!(single.contains("爱"));
    assert!(single.contains("a_b"));
    assert_eq!(single.len(), 2);
    assert_eq!(found.overlap(&terms("rust ASYNC-TRAIT 目偏x")), 3);
    assert!(is_cjk('\u{4e00}') && is_cjk('\u{9fff}') && is_cjk('\u{3400}') && is_cjk('\u{fa00}'));
    assert!(!is_cjk('\u{a000}') && !is_cjk('a') && !is_cjk('\u{33ff}'));
    let mut set = TermSet::new();
    set.insert("x".to_owned());
    set.insert("x".to_owned());
    assert_eq!(set.len(), 1);
    assert!(terms_of_skill("数据库").contains("数据"));
}

fn entry(content: &str, created_at: u64, manual: bool) -> MemoryEntry {
    let mut entry = MemoryStore::save(content.to_owned(), None, created_at, 0);
    entry.manual = manual;
    entry
}

#[test]
fn saves_and_recalls_relevant_memory() {
    let entries = vec![
        MemoryStore::save("用户偏好使用 Rust 和中文注释".to_owned(), None, 10, 1),
        MemoryStore::save("数据库使用 SQLite".to_owned(), None, 11, 2),
    ];

    let recalled = MemoryStore::recall(entries, "Rust 编程偏好", 5, 12);

    assert_eq!(recalled.len(), 1);
    assert!(recalled[0].content.contains("Rust"));
}

#[test]
fn facts_are_noted_with_their_time() {
    let noted = MemoryStore::save("事实".to_owned(), Some(2), 100, 7);
    assert_eq!(
        noted,
        MemoryEntry {
            id: "mem-100-7".to_owned(),
            content: "事实".to_owned(),
            created_at: 100,
            expires_at: Some(172_900),
            manual: true,
        }
    );
    assert_eq!(
        MemoryStore::save("x".to_owned(), Some(u64::MAX), 100, 7).expires_at,
        Some(u64::MAX)
    );
}

#[test]
fn facts_are_forgotten_after_their_days() {
    let noted = MemoryStore::save("事实".to_owned(), Some(1), 0, 0);
    assert_eq!(MemoryStore::recall(vec![noted.clone()], "事实", 5, 86_399).len(), 1);
    assert_eq!(MemoryStore::recall(vec![noted], "事实", 5, 86_400).len(), 0);
}

#[test]
fn best_facts_come_first_and_their_number_is_limited() {
    let entries = vec![
        entry("alpha", 1, true),
        entry("alpha beta", 2, false),
        entry("alpha gamma", 3, true),
        entry("alpha delta", 4, true),
        entry("unrelated", 5, true),
    ];
    let found = MemoryStore::recall(entries.clone(), "alpha beta", 5, 9);
    let contents: Vec<&str> = found.iter().map(|entry| entry.content.as_str()).collect();
    // "alpha beta" shares two terms and is contained; "alpha" is contained in the query.
    assert_eq!(contents, ["alpha beta", "alpha", "alpha delta", "alpha gamma"]);
    assert_eq!(MemoryStore::recall(entries.clone(), "alpha", 0, 9).len(), 1);
    let many: Vec<MemoryEntry> = (0..30).map(|at| entry("alpha", at, true)).collect();
    assert_eq!(MemoryStore::recall(many.clone(), "ALPHA", 100, 99).len(), 20);
    assert_eq!(MemoryStore::recall(many, "alpha", 100, 99)[0].created_at, 29);
    assert_eq!(MemoryStore::recall(entries, "", 5, 9).len(), 0);
    assert_eq!(default_recall_limit(), 5);
}

#[test]
fn facts_noted_by_hand_come_before_others() {
    let entries = vec![entry("alpha", 9, false), entry("alpha", 1, true)];
    let found = MemoryStore::recall(entries, "alpha", 5, 10);
    assert!(found[0].manual);
    assert_eq!(found[0].created_at, 1);
}

#[test]
fn broken_facts_are_reported_with_their_line() {
    let lines = vec!["a".to_owned(), " ".to_owned(), "b".to_owned()];
    let parsed = vec![
        Ok(entry("x", 1, true)),
        Err("empty".to_owned()),
        Err("expected value".to_owned()),
    ];
    let error = MemoryStore::load(&lines, parsed).unwrap_err();
    assert_eq!(error.message(), "memory.jsonl 第 3 行损坏: expected value");
    assert_eq!(MemoryError::InvalidSystemTime.message(), "系统时间早于 UNIX_EPOCH");
    let whole = vec![Ok(entry("x", 1, true)), Err("empty".to_owned()), Ok(entry("y", 2, true))];
    assert_eq!(MemoryStore::load(&lines, whole).unwrap().len(), 2);
}

#[test]
fn memory_tools_tell_what_they_did() {
    let noted = entry("事实", 5, true);
    assert_eq!(RememberTool::new().report(&noted), "已保存长期记忆，id=mem-5-0");
    assert_eq!(RecallMemoryTool::new().report(&vec![noted], "[json]"), "[json]");
    assert_eq!(RecallMemoryTool::new().report(&Vec::new(), "[]"), "未找到相关长期记忆");
    assert_eq!(MemoryStore::from_env("/w", None).path(), "/w/.my-agent/memory.jsonl");
    assert_eq!(MemoryStore::from_env("/w", Some("m.jsonl")).path(), "/w/m.jsonl");
    assert_eq!(MemoryStore::from_env("/w", Some("/m.jsonl")).path(), "/m.jsonl");
    assert_eq!(MemoryStore::new("m").path(), "m");
}

fn step(id: &str, description: &str) -> PlanStep {
    PlanStep {
        id: id.to_owned(),
        description: description.to_owned(),
        status: PlanStatus::Pending,
    }
}

#[test]
fn set_update_add_and_restore_plan() {
    let mut store = PlanStore::memory_only();
    store.set(vec![step("1", "分析"), step("2", "实现")]).unwrap();
    store.update("1", PlanStatus::InProgress).unwrap();
    store.add(step("3", "验证")).unwrap();
    store.update("1", PlanStatus::Done).unwrap();

    let restored = PlanStore::new(store.steps().clone()).unwrap();
    let shown = restored.show();
    assert!(shown.contains("计划进度：1/3"));
    assert!(shown.contains("[x] 1 · 分析"));
    assert!(shown.contains("[ ] 3 · 验证"));
}

#[test]
fn rejects_duplicate_ids_without_changing_current_plan() {
    let mut store = PlanStore::memory_only();
    store.set(vec![step("1", "已有")]).unwrap();
    let error = store.set(vec![step("x", "甲"), step("x", "乙")]).unwrap_err();
    assert!(error.message().contains("重复"));
    assert!(store.show().contains("已有"));
}

#[test]
fn serializes_concurrent_mutations_without_losing_updates() {
    let mut store = PlanStore::memory_only();
    store.set(vec![step("1", "第一步"), step("2", "第二步")]).unwrap();
    let mut other = store.copy();

    store.update("1", PlanStatus::InProgress).unwrap();
    store.update("2", PlanStatus::Done).unwrap();
    other.update("2", PlanStatus::Done).unwrap();
    other.update("1", PlanStatus::InProgress).unwrap();

    let shown = store.show();
    assert!(shown.contains("[>] 1 · 第一步"));
    assert!(shown.contains("[x] 2 · 第二步"));
    assert_eq!(other.show(), shown);
}

#[test]
fn plan_errors_say_what_is_wrong() {
    let mut store = PlanStore::memory_only();
    assert_eq!(store.set(vec![step(" ", "x")]), Err(PlanError::EmptyId));
    assert_eq!(store.set(vec![step("1", "\t")]), Err(PlanError::EmptyDescription("1".to_owned())));
    assert_eq!(store.update("9", PlanStatus::Done), Err(PlanError::MissingStep("9".to_owned())));
    store.add(step("1", "a")).unwrap();
    assert_eq!(store.add(step("1", "b")), Err(PlanError::DuplicateId("1".to_owned())));
    assert_eq!(store.steps().len(), 1);
    assert!(PlanStore::new(vec![step("", "x")]).is_err());
}

#[test]
fn plans_reach_the_model_only_where_there_are_steps() {
    let mut store = PlanStore::memory_only();
    assert_eq!(store.context_block(), None);
    store.add(step("1", "a")).unwrap();
    assert!(store.context_block().unwrap().contains(&store.show()));
    let tool = PlanTool::new();
    let shown = tool.execute(&mut store, PlanAction::Show).unwrap();
    assert_eq!(shown, store.show());
    tool.execute(
        &mut store,
        PlanAction::Add { id: "2".to_owned(), description: "b".to_owned(), status: PlanStatus::Done },
    )
    .unwrap();
    tool.execute(&mut store, PlanAction::Update { id: "1".to_owned(), status: PlanStatus::Done })
        .unwrap();
    assert!(store.show().contains("计划进度：2/2"));
    tool.execute(&mut store, PlanAction::Replace { steps: Vec::new() }).unwrap();
    assert_eq!(store.steps().len(), 0);
    assert_eq!(PlanStatus::InProgress.word(), "in_progress");
    assert_eq!(PlanStatus::InProgress.mark(), "[>]");
}

#[test]
fn plan_files_are_found_through_the_environment() {
    assert_eq!(PlanStore::from_env("/w", None).as_deref(), Some("/w/.my-agent/plan.json"));
    assert_eq!(PlanStore::from_env("/w", Some("p.json")).as_deref(), Some("/w/p.json"));
    assert_eq!(PlanStore::from_env("/w", Some("off")), None);
    assert_eq!(PlanStore::from_env("/w", Some("")), None);
    assert_eq!(temporary_path("/w/plan.json", 42), "/w/.plan.json.tmp-42");
}

#[test]
fn appends_and_restores_messages() {
    let mut file = String::new();
    file.push_str(&SessionStore::append("{\"role\":\"user\",\"content\":\"问题\"}"));
    file.push_str(&SessionStore::append("{\"role\":\"assistant\",\"content\":\"回答\"}"));

    let (lines, complete) = split_records(&file.into_bytes());
    assert!(complete);
    let parsed = lines.iter().map(|line| parse_message(line)).collect();
    let restored = SessionStore::load(&lines, parsed, complete).unwrap();

    assert_eq!(restored.len(), 2);
    assert_eq!(restored[0].content.as_deref(), Some("问题"));
    assert_eq!(restored[1].content.as_deref(), Some("回答"));
}

fn parse_message(line: &str) -> Result<Message, String> {
    let value: serde_json::Value = serde_json::from_str(line).map_err(|error| error.to_string())?;
    let role = match value["role"].as_str() {
        Some("user") => Role::User,
        _ => Role::Assistant,
    };
    Ok(Message::text(role, value["content"].as_str().unwrap_or_default()))
}

#[test]
fn ignores_incomplete_final_line_after_crash() {
    let bytes = "{\"role\":\"user\",\"content\":\"已保存\"}\n{\"role\":\"assistant\"".as_bytes().to_vec();

    let (lines, complete) = split_records(&bytes);
    let parsed = lines.iter().map(|line| parse_message(line)).collect();
    let restored = SessionStore::load(&lines, parsed, complete).unwrap();

    assert_eq!(restored.len(), 1);
    assert_eq!(restored[0].content.as_deref(), Some("已保存"));
}

#[test]
fn broken_line_in_the_middle_is_an_error() {
    let (lines, complete) = split_records(&b"{\"role\":\"user\",\"content\":\"a\"}\n\nnope\n".to_vec());
    let parsed = lines.iter().map(|line| parse_message(line)).collect();
    let error = SessionStore::load(&lines, parsed, complete).unwrap_err();
    assert!(matches!(error, SessionError::CorruptLine { line: 3, .. }));
    assert!(error.message().starts_with("session.jsonl 第 3 行损坏: "));
    assert_eq!(SessionError::InvalidSystemTime.message(), "系统时间早于 UNIX_EPOCH");
    assert!(split_records(&Vec::new()).1);
}

#[test]
fn bytes_that_are_no_text_are_replaced() {
    let (lines, complete) = split_records(&vec![b'a', 0xff, b'\n', b'b']);
    assert_eq!(lines, vec!["a\u{fffd}".to_owned(), "b".to_owned()]);
    assert!(!complete);
    assert_eq!(count_filled_lines("a\n \n\r\nb"), 2);
}

#[test]
fn sessions_are_listed_with_the_active_one_first() {
    let store = SessionStore::new("/w/session.jsonl");
    assert_eq!(store.current_id(), "session.jsonl");
    let rotated = store.rotate_existing(77);
    assert_eq!(rotated, "session.jsonl.bak-77");
    let file = |name: &str, text: &str, modified_at: Option<u64>| SessionFile {
        name: name.to_owned(),
        path: format!("/w/{name}"),
        bytes: text.as_bytes().to_vec(),
        modified_at,
        preview: None,
    };
    let files = vec![
        file("session.jsonl.bak-1", "x\n", Some(1)),
        file(&rotated, "x\ny\n", Some(9)),
        file("other.jsonl", "x\n", Some(99)),
        file("session.jsonl.bak-2", "", None),
        file("session.jsonl", "x\n\ny\nz", Some(0)),
    ];
    let listed = store.list_sessions(&files);
    let ids: Vec<&str> = listed.iter().map(|info| info.id.as_str()).collect();
    assert_eq!(
        ids,
        ["session.jsonl", "session.jsonl.bak-77", "session.jsonl.bak-1", "session.jsonl.bak-2"]
    );
    let counts: Vec<usize> = listed.iter().map(|info| info.message_count).collect();
    assert_eq!(counts, [3, 2, 1, 0]);
    assert!(listed[0].active && !listed[1].active);
    assert_eq!(SessionStore::from_env("/w", None).path(), "/w/.my-agent/session.jsonl");
    assert_eq!(SessionStore::from_env("/w", Some("s.jsonl")).path(), "/w/s.jsonl");
    assert_eq!(SessionStore::new("/").current_id(), "session.jsonl");
}

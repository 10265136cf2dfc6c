use my_agent::daemon::protocol::{EventFrame, EventKind, JsonRpcResponse, RequestId, ServerFrame};
use my_agent::entry::recovery::{PendingApprovalInfo, RecoverySnapshot};
use my_agent::entry::tui::view::{
    Color, DrawOp, Line, Rect, Row, Span, Style, Theme, draw_ui, message_lines, wrap_lines,
};
use my_agent::entry::tui::{
    Key, KeyAction, KeyCode, SubmitAction, TuiState, TuiThemeMode, UiMessage, message_to_ui,
    resolve_session_selection,
};
use my_agent::json::Json;
use my_agent::provider::{Message, Role};
use my_agent::session::{SessionInfo, SessionStatus};
use ratatui::backend::TestBackend;
use ratatui::widgets::{Block, BorderType, Borders, Paragraph};
use ratatui::{Frame, Terminal};

fn snapshot(messages: Vec<Message>) -> RecoverySnapshot {
    RecoverySnapshot {
        session_id: "preview".to_owned(),
        messages,
        pending_approvals: Vec::new(),
        active_requests: Vec::new(),
    }
}

fn empty_state() -> TuiState {
    TuiState::from_snapshot(&snapshot(Vec::new()), "/w".to_owned(), TuiThemeMode::Terminal)
}

fn ui(role: Role, content: &str) -> UiMessage {
    UiMessage { role, content: content.to_owned() }
}

fn fixture() -> TuiState {
    let mut state = empty_state();
    state.workspace = "/Users/pilot/Documents/myproject/agent-rust".to_owned();
    state.messages = vec![
        ui(Role::User, "帮我了解这个项目，并给出下一步建议。"),
        ui(Role::Tool, "read_file · README.md\n原始工具输出默认收起"),
        ui(
            Role::Assistant,
            "## 一个专注个人开发的编码助手\n\n项目使用 **Rust**，由工作区 daemon 管理会话和工具执行。\n\n### 现在可以做什么\n- 读取与修改代码，运行测试\n- 用 `plan` 拆解任务，用子 Agent 调研\n- 在 CLI、ACP 和 WebSocket 之间恢复会话\n\n### 从这里开始\n```bash\nmyagent chat \"读取 README 并总结\"\n```\n\n建议先为配置模块补充测试，再逐步改进交互体验。",
        ),
    ];
    state
}

fn rect(area: Rect) -> ratatui::layout::Rect {
    ratatui::layout::Rect::new(area.x, area.y, area.width, area.height)
}

fn color(color: Color) -> ratatui::style::Color {
    match color {
        Color::Reset => ratatui::style::Color::Reset,
        Color::Rgb(r, g, b) => ratatui::style::Color::Rgb(r, g, b),
    }
}

fn style(from: Style) -> ratatui::style::Style {
    let mut style = ratatui::style::Style::default().fg(color(from.fg)).bg(color(from.bg));
    if from.bold {
        style = style.add_modifier(ratatui::style::Modifier::BOLD);
    }
    if from.dim {
        style = style.add_modifier(ratatui::style::Modifier::DIM);
    }
    style
}

fn line(from: &Line) -> ratatui::text::Line<'static> {
    let spans: Vec<ratatui::text::Span<'static>> = from
        .spans
        .iter()
        .map(|span| ratatui::text::Span::styled(span.content.clone(), style(span.style)))
        .collect();
    ratatui::text::Line::from(spans)
}

fn row(from: &Row) -> ratatui::text::Line<'static> {
    let spans: Vec<ratatui::text::Span<'static>> = from
        .glyphs
        .iter()
        .map(|(c, look)| ratatui::text::Span::styled(c.to_string(), style(*look)))
        .collect();
    ratatui::text::Line::from(spans)
}

fn render(frame: &mut Frame<'_>, state: &mut TuiState) {
    let area = frame.area();
    for op in draw_ui(state, Rect::new(area.x, area.y, area.width, area.height)) {
        match op {
            DrawOp::Fill { area, style: look } => {
                frame.render_widget(Block::default().style(style(look)), rect(area));
            }
            DrawOp::Lines { area, lines } => {
                let lines: Vec<ratatui::text::Line<'static>> = lines.iter().map(line).collect();
                frame.render_widget(Paragraph::new(lines), rect(area));
            }
            DrawOp::Rows { area, rows, style: look, frame: border } => {
                let rows: Vec<ratatui::text::Line<'static>> = rows.iter().map(row).collect();
                let mut text = Paragraph::new(rows).style(style(look));
                if let Some((title, border)) = border {
                    text = text.block(
                        Block::default()
                            .title(title)
                            .borders(Borders::ALL)
                            .border_type(BorderType::Rounded)
                            .border_style(style(border)),
                    );
                }
                frame.render_widget(text, rect(area));
            }
            DrawOp::Frame { area, title, border, style: look } => {
                frame.render_widget(
                    Block::default()
                        .title(title)
                        .borders(Borders::ALL)
                        .border_type(BorderType::Rounded)
                        .border_style(style(border))
                        .style(style(look)),
                    rect(area),
                );
            }
            DrawOp::Note { area, text, style: look } => {
                frame.render_widget(Paragraph::new(text).style(style(look)), rect(area));
            }
            DrawOp::Cursor { x, y } => frame.set_cursor_position((x, y)),
        }
    }
}

fn buffer_text(buffer: &ratatui::buffer::Buffer) -> String {
    buffer
        .content
        .chunks(usize::from(buffer.area.width))
        .map(|row| row.iter().map(|cell| cell.symbol()).collect::<String>())
        .collect::<Vec<_>>()
        .join("\n")
}

fn plain(text: &str) -> Line {
    let look = Style { fg: Color::Reset, bg: Color::Reset, bold: false, dim: false };
    Line { spans: vec![Span { content: text.to_owned(), style: look }] }
}

#[test]
fn wraps_chinese_by_display_width_and_scrolls_to_actual_last_line() {
    let lines = wrap_lines(&vec![plain("中文内容abcdef")], 6);
    assert!(lines.iter().all(|line| line.width() <= 6));
    let mut state = fixture();
    state.messages[2].content = "长文本".repeat(200) + "\n最后一行";
    let mut terminal = Terminal::new(TestBackend::new(40, 20)).unwrap();
    terminal.draw(|frame| render(frame, &mut state)).unwrap();
    let rendered = buffer_text(terminal.backend().buffer());
    assert!(rendered.replace(' ', "").contains("最后一行"));
    state.scroll = 8;
    terminal.draw(|frame| render(frame, &mut state)).unwrap();
    assert!(!buffer_text(terminal.backend().buffer()).replace(' ', "").contains("最后一行"));
}

#[test]
fn render_wide_narrow_and_approval_preview() {
    for (width, height) in [(110, 42), (44, 30), (24, 12), (16, 8)] {
        let mut state = fixture();
        state.theme_mode = TuiThemeMode::Dark;
        let mut terminal = Terminal::new(TestBackend::new(width, height)).unwrap();
        terminal.draw(|frame| render(frame, &mut state)).unwrap();
        for cell in &terminal.backend().buffer().content {
            if !cell.symbol().trim().is_empty() {
                assert_ne!(cell.fg, ratatui::style::Color::Reset);
                assert_ne!(cell.bg, ratatui::style::Color::Reset);
            }
        }
        if width == 110 {
            let content = buffer_text(terminal.backend().buffer());
            assert!(!content.contains("**Rust**"));
            assert!(!content.contains("原始工具输出"));
        }
        state.pending_approval = Some(PendingApprovalInfo {
            id: "a".to_owned(),
            request_id: RequestId::Number(1),
            prompt: "允许写入工作区外的文件 /tmp/demo.txt 吗？".to_owned(),
        });
        terminal.draw(|frame| render(frame, &mut state)).unwrap();
        if width == 110 {
            let content = buffer_text(terminal.backend().buffer()).replace(' ', "");
            assert!(content.contains("Y允许一次"));
            assert!(content.contains("/tmp/demo.txt"));
        }
    }
}

#[test]
fn terminal_theme_never_paints_a_fixed_background() {
    let mut state = fixture();
    state.theme_mode = TuiThemeMode::Terminal;
    let mut terminal = Terminal::new(TestBackend::new(110, 42)).unwrap();
    terminal.draw(|frame| render(frame, &mut state)).unwrap();
    assert!(
        terminal
            .backend()
            .buffer()
            .content
            .iter()
            .all(|cell| cell.bg == ratatui::style::Color::Reset)
    );
}

fn screen(width: u16, height: u16, state: &mut TuiState) -> String {
    let mut terminal = Terminal::new(TestBackend::new(width, height)).unwrap();
    terminal.draw(|frame| render(frame, state)).unwrap();
    buffer_text(terminal.backend().buffer()).replace(' ', "")
}

#[test]
fn screens_show_their_parts() {
    let mut state = fixture();
    let content = screen(110, 42, &mut state);
    for shown in [
        "✦my-agent/agent-rust",
        "你的终端编码助手·对话、规划、执行",
        "✓工具read_file·README.md",
        "•读取与修改代码，运行测试",
        "┌bash",
        "发送消息",
        "描述你想做什么…",
        "●就绪Enter发送·Alt↵换行·PgUp/Dn滚动·Ctrl+T工具·Esc退出",
    ] {
        assert!(content.contains(shown), "{shown}");
    }
    state.show_tools = true;
    state.active = true;
    state.input = "草稿".to_owned();
    let content = screen(110, 42, &mut state);
    assert!(content.contains("原始工具输出默认收起"));
    assert!(content.contains("正在工作·可以先起草下一条"));
    assert!(content.contains("草稿"));
    assert!(screen(20, 10, &mut state).contains("请放大终端"));
    assert!(screen(110, 42, &mut empty_state()).contains("从一个想法开始。"));
}

#[test]
fn scrolling_stops_at_the_first_line() {
    let mut state = fixture();
    state.scroll = 10_000;
    let content = screen(60, 20, &mut state);
    assert!(state.scroll < 10_000);
    assert!(content.contains("›你"));
    assert!(content.contains(&format!("↑历史·距底部{}行", state.scroll)));
}

fn row_text(row: &Row) -> String {
    row.glyphs.iter().map(|(c, _)| *c).collect()
}

#[test]
fn wrapping_breaks_lines_without_losing_text() {
    let rows = wrap_lines(&vec![plain("中文内容abcdef"), plain("x\ny\u{7}z"), plain("")], 6);
    let texts: Vec<String> = rows.iter().map(row_text).collect();
    assert_eq!(texts, ["中文内", "容abcd", "ef", "x", "yz", ""]);
    let narrow = wrap_lines(&vec![plain("中a")], 0);
    let texts: Vec<String> = narrow.iter().map(row_text).collect();
    assert_eq!(texts, ["中", "a"]);
}

fn line_text(line: &Line) -> String {
    line.spans.iter().map(|span| span.content.as_str()).collect()
}

#[test]
fn markdown_is_shown_in_a_small_way() {
    let theme = Theme::new(TuiThemeMode::Dark);
    let base = theme.style(theme.foreground);
    let shown = my_agent::entry::tui::view::inline(Line { spans: Vec::new() }, "a **b** `c` d", base, theme);
    assert_eq!(line_text(&shown), "a b c d");
    assert!(shown.spans[1].style.bold);
    assert_eq!(shown.spans[3].style.bg, theme.panel);
    assert_eq!(shown.spans[3].style.fg, theme.accent);
    let open = my_agent::entry::tui::view::inline(Line { spans: Vec::new() }, "a **b", base, theme);
    assert_eq!(line_text(&open), "a **b");
    let lines = message_lines(&ui(Role::Assistant, "# T\n- x\n```\n- y\n```"), false, theme);
    let texts: Vec<String> = lines.iter().map(line_text).collect();
    assert_eq!(texts, ["", "✦  Agent", "", "  T", "  • x", "  ┌ ", "  │ - y", "  └", ""]);
    let lines = message_lines(&ui(Role::Tool, "头\n尾"), true, theme);
    let texts: Vec<String> = lines.iter().map(line_text).collect();
    assert_eq!(texts, ["  ✓ 工具  头", "    尾"]);
    let lines = message_lines(&ui(Role::User, "# T"), true, theme);
    assert_eq!(line_text(&lines[3]), "  # T");
    assert!(Theme::new(TuiThemeMode::Terminal).muted_style().dim);
}

#[test]
fn converts_persisted_message_to_ui_message() {
    let message = Message::text(Role::User, "检查项目");
    let converted = message_to_ui(&message).expect("文本消息应可显示");
    assert_eq!(converted.role, Role::User);
    assert_eq!(converted.content, "检查项目");
    assert!(message_to_ui(&Message::assistant_tool_calls(Vec::new())).is_none());
}

fn session(id: &str, message_count: usize, preview: Option<&str>) -> SessionInfo {
    SessionInfo {
        id: id.to_owned(),
        path: id.to_owned(),
        active: false,
        message_count,
        modified_at: None,
        preview: preview.map(str::to_owned),
        status: SessionStatus::Idle,
        active_requests: 0,
        updated_at: None,
    }
}

#[test]
fn resolves_resume_number_or_stable_id() {
    let choices = vec![session("session-123.jsonl", 2, Some("旧问题"))];
    assert_eq!(resolve_session_selection(&choices, "1").unwrap(), "session-123.jsonl");
    assert_eq!(
        resolve_session_selection(&choices, "session-123.jsonl").unwrap(),
        "session-123.jsonl"
    );
    assert!(resolve_session_selection(&choices, "2").is_err());
}

#[test]
fn selections_are_refused_with_a_reason() {
    let choices = vec![session("a", 2, None)];
    assert_eq!(resolve_session_selection(&choices, "2").unwrap_err(), "会话编号超出范围：2");
    assert_eq!(resolve_session_selection(&choices, "0").unwrap_err(), "会话编号从 1 开始");
    assert_eq!(resolve_session_selection(&choices, "").unwrap_err(), "session ID 不能为空");
}

#[test]
fn resume_command_lists_and_restores_selected_session() {
    let mut state = empty_state();
    assert!(state.messages.is_empty());
    assert_eq!(state.submit_input("/resume".to_owned()), SubmitAction::ListSessions);
    state.show_resume_choices(vec![
        session("fresh", 0, None),
        session("old", 2, Some("需要恢复的旧问题")),
    ]);
    assert_eq!(state.resume_choices.len(), 1);
    assert!(state.messages[0].content.contains("需要恢复的旧问题"));
    assert_eq!(
        state.messages[0].content,
        "可恢复的历史会话：\n1. old · 2 条消息\n   需要恢复的旧问题\n输入编号，或使用 /resume <编号或 session ID>。"
    );

    assert_eq!(state.submit_input("1".to_owned()), SubmitAction::Resume("old".to_owned()));
    let messages = vec![
        Message::text(Role::User, "需要恢复的旧问题"),
        Message::text(Role::Assistant, "旧回答"),
    ];
    state.session_resumed("old", &snapshot(messages));
    assert_eq!(state.messages.len(), 2);
    assert_eq!(state.messages[0].content, "需要恢复的旧问题");
    assert_eq!(state.messages[1].content, "旧回答");
    assert_eq!(state.status, "已恢复 old · 2 条消息");
    assert!(state.resume_choices.is_empty());
}

#[test]
fn submitted_lines_become_actions() {
    let mut state = empty_state();
    assert_eq!(state.submit_input(" /new ".to_owned()), SubmitAction::NewSession);
    assert_eq!(state.submit_input("/status".to_owned()), SubmitAction::LoadStatus);
    assert_eq!(state.submit_input("/sessions".to_owned()), SubmitAction::ListSessions);
    assert_eq!(state.submit_input("/resume x".to_owned()), SubmitAction::Resume("x".to_owned()));
    assert_eq!(
        state.submit_input("/resume 5".to_owned()),
        SubmitAction::Fail("会话编号超出范围：5".to_owned())
    );
    assert_eq!(state.submit_input("/cancel".to_owned()), SubmitAction::Nothing);
    assert_eq!(state.status, "当前没有正在运行的请求");
    assert_eq!(state.submit_input("/what".to_owned()), SubmitAction::Nothing);
    assert_eq!(state.status, "未知命令：/what · 输入 /help 查看命令");
    assert_eq!(state.submit_input("/help".to_owned()), SubmitAction::Nothing);
    assert_eq!(state.messages[0].role, Role::System);
    assert_eq!(state.submit_input("12".to_owned()), SubmitAction::Chat("12".to_owned()));
    assert_eq!(state.messages[1], ui(Role::User, "12"));
    state.chat_started(RequestId::Number(3));
    assert!(state.active);
    assert_eq!(state.status, "Agent 正在工作");
    assert_eq!(state.submit_input("/exit".to_owned()), SubmitAction::Nothing);
    assert!(state.wants_exit());
    state.session_started(&snapshot(Vec::new()));
    assert_eq!(state.status, "已新建会话：preview");
    state.status_loaded(&snapshot(vec![Message::text(Role::User, "x")]));
    assert_eq!(state.status, "会话 preview · 1 条消息");
    state.started("s");
    assert_eq!(state.status, "新会话 s · /resume 恢复历史");
    state.show_resume_choices(Vec::new());
    assert_eq!(state.status, "暂无可恢复的历史会话");
}

fn key(code: KeyCode) -> Key {
    Key { code, control: false, alt: false }
}

fn control(c: char) -> Key {
    Key { code: KeyCode::Char(c), control: true, alt: false }
}

#[test]
fn keys_edit_scroll_and_leave() {
    let mut state = empty_state();
    for c in "你好x".chars() {
        assert_eq!(state.handle_key(key(KeyCode::Char(c))), KeyAction::Nothing);
    }
    state.handle_key(key(KeyCode::Backspace));
    assert_eq!(state.input, "你好");
    state.handle_key(Key { code: KeyCode::Enter, control: false, alt: true });
    assert_eq!(state.input, "你好\n");
    state.paste("a\r\nb");
    assert_eq!(state.input, "你好\na\nb");
    assert_eq!(
        state.handle_key(key(KeyCode::Enter)),
        KeyAction::Submit("你好\na\nb".to_owned())
    );
    assert_eq!(state.input, "");
    assert_eq!(state.handle_key(key(KeyCode::Enter)), KeyAction::Nothing);
    state.input = "x".to_owned();
    state.active = true;
    assert_eq!(state.handle_key(key(KeyCode::Enter)), KeyAction::Nothing);
    assert_eq!(state.input, "x");
    state.handle_key(control('u'));
    assert_eq!(state.input, "");
    state.handle_key(control('x'));
    assert_eq!(state.input, "");
    state.handle_key(control('t'));
    assert!(state.show_tools);
    state.handle_key(key(KeyCode::PageUp));
    state.handle_key(key(KeyCode::PageUp));
    state.handle_key(key(KeyCode::PageDown));
    assert_eq!(state.scroll, 8);
    assert_eq!(state.handle_key(control('c')), KeyAction::Nothing);
    state.active_request_id = Some(RequestId::Number(5));
    assert_eq!(state.handle_key(control('c')), KeyAction::Cancel(RequestId::Number(5)));
    state.cancel_sent();
    assert_eq!(state.status, "已发送取消请求");
    state.failed("坏");
    assert_eq!(state.status, "操作失败：坏");
    assert_eq!(state.handle_key(key(KeyCode::Other)), KeyAction::Nothing);
    assert!(!state.wants_exit());
    state.handle_key(key(KeyCode::Esc));
    assert!(state.wants_exit());
}

fn approval() -> PendingApprovalInfo {
    PendingApprovalInfo {
        id: "a".to_owned(),
        request_id: RequestId::Number(1),
        prompt: "写文件".to_owned(),
    }
}

#[test]
fn approvals_take_the_keyboard() {
    let mut state = empty_state();
    state.pending_approval = Some(approval());
    assert_eq!(state.handle_key(key(KeyCode::Char('x'))), KeyAction::Nothing);
    state.paste("text");
    assert_eq!(state.input, "");
    state.handle_key(key(KeyCode::PageDown));
    assert_eq!(state.approval_scroll, 4);
    state.handle_key(key(KeyCode::PageUp));
    assert_eq!(state.approval_scroll, 0);
    for (code, approved) in [
        (KeyCode::Char('y'), true),
        (KeyCode::Char('Y'), true),
        (KeyCode::Char('n'), false),
        (KeyCode::Char('N'), false),
        (KeyCode::Enter, false),
    ] {
        assert_eq!(
            state.handle_key(key(code)),
            KeyAction::Respond { id: "a".to_owned(), approved }
        );
    }
    state.responded(true);
    assert_eq!(state.pending_approval, None);
    assert_eq!(state.status, "审批已允许，继续执行");
    state.responded(false);
    assert_eq!(state.status, "审批已拒绝，继续执行");
}

fn event(kind: EventKind, entries: &[(&str, &str)]) -> ServerFrame {
    let entries = entries
        .iter()
        .map(|(key, text)| ((*key).to_owned(), Json::Text((*text).to_owned())))
        .collect();
    ServerFrame::Event(EventFrame {
        request_id: RequestId::Number(1),
        event: kind,
        data: Json::Object(entries),
    })
}

#[test]
fn frames_change_what_is_shown() {
    let mut state = empty_state();
    state.chat_started(RequestId::Number(1));
    let none = || Ok(None);
    state.handle_frame(&event(EventKind::TextDelta, &[("delta", "你")]), none()).unwrap();
    state.handle_frame(&event(EventKind::TextDelta, &[("delta", "好")]), none()).unwrap();
    assert_eq!(state.messages, [ui(Role::Assistant, "你好")]);
    state.handle_frame(&event(EventKind::ToolStarted, &[("name", "exec")]), none()).unwrap();
    assert_eq!(state.status, "工具执行中：exec");
    state
        .handle_frame(&event(EventKind::ToolFinished, &[("name", "exec"), ("output", "o")]), none())
        .unwrap();
    assert_eq!(state.status, "工具完成：exec");
    assert_eq!(state.messages[1], ui(Role::Tool, "exec\no"));
    let asked = event(EventKind::ApprovalRequired, &[]);
    assert_eq!(state.handle_frame(&asked, Err("坏".to_owned())).unwrap_err(), "审批事件格式无效: 坏");
    state.handle_frame(&asked, Ok(Some(approval()))).unwrap();
    assert_eq!(state.pending_approval, Some(approval()));
    assert_eq!(state.status, "等待审批：Y 允许 / N 拒绝");
    let failed = JsonRpcResponse::failure(RequestId::Number(1), -1, "坏".to_owned());
    state.handle_frame(&ServerFrame::Response(failed), none()).unwrap();
    assert_eq!(state.status, "请求失败（-1）：坏");
    assert!(!state.active);
    assert_eq!(state.pending_approval, None);
    assert_eq!(state.active_request_id, None);
    state.chat_started(RequestId::Number(2));
    state.disconnected();
    assert!(!state.active);
    assert_eq!(state.status, "连接中断 · 退出后重新运行 myagent 可恢复");
    state.append_assistant("x");
    assert_eq!(state.messages.len(), 3);
    state.push_user("u".to_owned());
    assert_eq!(state.messages[3], ui(Role::User, "u"));
}

#[test]
fn states_begin_with_the_snapshot() {
    let mut running = snapshot(vec![Message::text(Role::User, "x")]);
    running.active_requests = vec![RequestId::Number(4)];
    running.pending_approvals = vec![approval()];
    let state = TuiState::from_snapshot(&running, "/w".to_owned(), TuiThemeMode::Dark);
    assert_eq!(state.status, "正在恢复活动请求");
    assert_eq!(state.active_request_id, Some(RequestId::Number(4)));
    running.active_requests.clear();
    let mut state = TuiState::from_snapshot(&running, "/w".to_owned(), TuiThemeMode::Dark);
    assert_eq!(state.status, "等待审批");
    state.scroll = 5;
    state.replace_snapshot(&snapshot(Vec::new()));
    assert_eq!(state.scroll, 0);
    assert_eq!(state.pending_approval, None);
    assert!(state.messages.is_empty());
    assert_eq!(TuiThemeMode::from_env(Some(" DARK ")), TuiThemeMode::Dark);
    assert_eq!(TuiThemeMode::from_env(Some("truecolor")), TuiThemeMode::Dark);
    assert_eq!(TuiThemeMode::from_env(Some("light")), TuiThemeMode::Terminal);
    assert_eq!(TuiThemeMode::from_env(None), TuiThemeMode::Terminal);
}

fn area_of(op: &DrawOp) -> Option<Rect> {
    match op {
        DrawOp::Lines { area, .. } | DrawOp::Rows { area, .. } | DrawOp::Frame { area, .. } => {
            Some(*area)
        }
        _ => None,
    }
}

fn parts(state: &mut TuiState, width: u16, height: u16) -> Vec<(u16, u16)> {
    let ops = draw_ui(state, Rect { x: 0, y: 0, width, height });
    let mut parts = vec![area_of(&ops[1]).unwrap(), area_of(&ops[2]).unwrap()];
    let asked = state.pending_approval.is_some();
    if asked {
        parts.push(area_of(&ops[3]).unwrap());
    }
    parts.push(area_of(&ops[if asked { 4 } else { 3 }]).unwrap());
    let foot = ops.iter().rev().find(|op| matches!(op, DrawOp::Note { .. }));
    if let Some(DrawOp::Note { area, .. }) = foot {
        parts.push(*area);
    }
    for part in &parts {
        assert!(part.x == (width - (width - 4).min(108)) / 2 && part.width == (width - 4).min(108));
        assert!(part.y >= 1 && part.y + part.height <= height - 1);
    }
    parts.iter().map(|part| (part.y, part.height)).collect()
}

#[test]
fn parts_that_fit_stand_one_below_another() {
    let mut state = fixture();
    assert_eq!(parts(&mut state, 100, 40), [(1, 3), (4, 31), (35, 3), (38, 1)]);
    state.input = "一\n二\n三\n四\n五\n六".to_owned();
    assert_eq!(parts(&mut state, 100, 40), [(1, 3), (4, 28), (32, 6), (38, 1)]);
    assert_eq!(parts(&mut state, 24, 13), [(1, 3), (4, 1), (5, 6), (11, 1)]);
    state.input.clear();
    state.pending_approval = Some(PendingApprovalInfo {
        id: "a".to_owned(),
        request_id: RequestId::Number(1),
        prompt: "允许吗".to_owned(),
    });
    let first = parts(&mut state, 100, 40);
    assert_eq!(first.len(), 5);
    for height in 14..=60 {
        let found = parts(&mut state, 80, height);
        assert_eq!(found[0], (1, 3));
        assert!(found[1].1 >= 1);
        assert_eq!(found[3].1, 3);
        for pair in found.windows(2) {
            assert_eq!(pair[0].0 + pair[0].1, pair[1].0);
        }
        assert_eq!(found[4], (height - 2, 1));
    }
    state.input = "一\n二\n三\n四".to_owned();
    assert_eq!(parts(&mut state, 24, 12).len(), 5);
}

//! The terminal interface: what it holds, what keys and frames do to it, and what it
//! shows.
pub mod colors;
pub mod input_editor;
pub mod view;

use vstd::prelude::*;

use self::input_editor::without_returns;
use super::cli::text_or;
use super::recovery::{PendingApprovalInfo, RecoverySnapshot};
use crate::daemon::commands::filled_sessions;
use crate::daemon::commands::resumable;
use crate::daemon::protocol::{EventKind, FrameView, RequestId, RequestIdView, ServerFrame};
use crate::number::{
    all_digits, decimal, decimal_text, is_digit, parse_number, parse_usize, signed_decimal,
    signed_text,
};
use crate::provider::{Message, Role};
use crate::session::SessionInfo;
use crate::text::{
    after_prefix, ascii_lower_text, begins_with, chars_of, is_blank, is_blank_text, join, join_with,
    same_text, slice_text, starts_with, strip_prefix, texts, to_ascii_lowercase, trim, trimmed,
};

verus! {

/// A message as it is shown.
#[derive(Clone, Debug, PartialEq, Eq)]
pub struct UiMessage {
    pub role: Role,
    pub content: String,
}

/// The mathematical value of a [`UiMessage`].
pub struct MessageView {
    pub role: Role,
    pub content: Seq<char>,
}

impl View for UiMessage {
    type V = MessageView;

    open spec fn view(&self) -> MessageView {
        MessageView { role: self.role, content: self.content@ }
    }
}

/// The views of some messages.
pub open spec fn message_views(messages: Seq<UiMessage>) -> Seq<MessageView> {
    Seq::new(messages.len(), |i: int| messages[i]@)
}

/// The colors of the interface.
#[derive(Clone, Copy, Debug, PartialEq, Eq, Structural)]
pub enum TuiThemeMode {
    /// Those of the terminal.
    Terminal,
    Dark,
}

impl TuiThemeMode {
    /// The colors that are set. Those of the terminal are taken where nothing else is.
    pub fn from_env(value: Option<&str>) -> (mode: TuiThemeMode)
        ensures
            mode == (match value {
                Some(text) => {
                    let word = ascii_lower_text(trim(text@));
                    if word == "dark"@ || word == "truecolor"@ {
                        TuiThemeMode::Dark
                    } else {
                        TuiThemeMode::Terminal
                    }
                },
                None => TuiThemeMode::Terminal,
            }),
    {
        match value {
            Some(text) => {
                let word = to_ascii_lowercase(trimmed(text).as_str());
                if same_text(word.as_str(), "dark") || same_text(word.as_str(), "truecolor") {
                    TuiThemeMode::Dark
                } else {
                    TuiThemeMode::Terminal
                }
            },
            None => TuiThemeMode::Terminal,
        }
    }
}

/// What the interface holds.
#[derive(Debug)]
pub struct TuiState {
    pub messages: Vec<UiMessage>,
    pub input: String,
    /// Whether the frames of a request are being read.
    pub active: bool,
    pub active_request_id: Option<RequestId>,
    pub pending_approval: Option<PendingApprovalInfo>,
    pub approval_scroll: usize,
    pub status: String,
    pub scroll: usize,
    pub show_tools: bool,
    pub workspace: String,
    pub theme_mode: TuiThemeMode,
    pub resume_choices: Vec<SessionInfo>,
}

/// A stored message as it is shown. One without text is not shown.
pub open spec fn shown_message(message: Message) -> Option<MessageView> {
    match message.content {
        Some(content) => Some(MessageView { role: message.role, content: content@ }),
        None => None,
    }
}

/// Stored messages as they are shown.
pub open spec fn shown_messages(messages: Seq<Message>) -> Seq<MessageView>
    decreases messages.len(),
{
    if messages.len() == 0 {
        Seq::empty()
    } else {
        let front = shown_messages(messages.drop_last());
        match shown_message(messages.last()) {
            Some(message) => front.push(message),
            None => front,
        }
    }
}

/// A stored message as it is shown.
pub fn message_to_ui(message: &Message) -> (out: Option<UiMessage>)
    ensures
        match out {
            Some(shown) => shown_message(*message) == Some(shown@),
            None => shown_message(*message) is None,
        },
{
    match &message.content {
        Some(content) => Some(UiMessage { role: message.role, content: content.clone() }),
        None => None,
    }
}

fn messages_to_ui(messages: &Vec<Message>) -> (out: Vec<UiMessage>)
    ensures
        message_views(out@) == shown_messages(messages@),
{
    let mut out: Vec<UiMessage> = Vec::new();
    let mut at: usize = 0;
    assert(message_views(out@) =~= shown_messages(messages@.take(0)));
    while at < messages.len()
        invariant
            at <= messages.len(),
            message_views(out@) == shown_messages(messages@.take(at as int)),
        decreases messages.len() - at,
    {
        let ghost before = out@;
        assert(messages@.take(at + 1).drop_last() =~= messages@.take(at as int));
        assert(messages@.take(at + 1).last() == messages@[at as int]);
        if let Some(message) = message_to_ui(&messages[at]) {
            out.push(message);
            assert(message_views(out@) =~= message_views(before).push(message@));
        }
        at += 1;
    }
    assert(messages@.take(at as int) =~= messages@);
    out
}

/// The first of some request ids.
pub open spec fn first_id(ids: Seq<RequestId>) -> Option<RequestIdView> {
    if ids.len() > 0 {
        Some(ids[0]@)
    } else {
        None
    }
}

/// The view of a request id that may be missing.
pub open spec fn id_view(id: Option<RequestId>) -> Option<RequestIdView> {
    match id {
        Some(id) => Some(id@),
        None => None,
    }
}

/// Whether two approvals are the same.
pub open spec fn same_approval(a: PendingApprovalInfo, b: PendingApprovalInfo) -> bool {
    a.id@ == b.id@ && a.request_id@ == b.request_id@ && a.prompt@ == b.prompt@
}

/// Whether an approval is the first of some.
pub open spec fn is_first_approval(
    approval: Option<PendingApprovalInfo>,
    approvals: Seq<PendingApprovalInfo>,
) -> bool {
    match approval {
        Some(approval) => approvals.len() > 0 && same_approval(approval, approvals[0]),
        None => approvals.len() == 0,
    }
}

fn first_request(ids: &Vec<RequestId>) -> (out: Option<RequestId>)
    ensures
        id_view(out) == first_id(ids@),
{
    if ids.len() > 0 {
        Some(ids[0].copy())
    } else {
        None
    }
}

fn first_approval(approvals: &Vec<PendingApprovalInfo>) -> (out: Option<PendingApprovalInfo>)
    ensures
        is_first_approval(out, approvals@),
{
    if approvals.len() > 0 {
        Some(
            PendingApprovalInfo {
                id: approvals[0].id.clone(),
                request_id: approvals[0].request_id.copy(),
                prompt: approvals[0].prompt.clone(),
            },
        )
    } else {
        None
    }
}

/// A key without its modifiers.
#[derive(Clone, Copy, Debug, PartialEq, Eq, Structural)]
pub enum KeyCode {
    Esc,
    PageUp,
    PageDown,
    Backspace,
    Enter,
    Char(char),
    Other,
}

/// A key that has been pressed.
#[derive(Clone, Copy, Debug, PartialEq, Eq, Structural)]
pub struct Key {
    pub code: KeyCode,
    pub control: bool,
    pub alt: bool,
}

/// What has to be done for a key.
#[derive(Clone, Debug, PartialEq, Eq)]
pub enum KeyAction {
    Nothing,
    /// To ask the daemon to cancel a request.
    Cancel(RequestId),
    /// To give the daemon the answer to an approval.
    Respond { id: String, approved: bool },
    /// To take up what has been typed.
    Submit(String),
}

/// A number with more added, up to the largest there is.
pub open spec fn raised(n: usize, by: usize) -> usize {
    if n + by > usize::MAX {
        usize::MAX
    } else {
        (n + by) as usize
    }
}

/// A number with some taken away, down to zero.
pub open spec fn lowered(n: usize, by: usize) -> usize {
    if n < by {
        0
    } else {
        (n - by) as usize
    }
}

fn raise(n: usize, by: usize) -> (out: usize)
    ensures
        out == raised(n, by),
{
    if n > usize::MAX - by {
        usize::MAX
    } else {
        n + by
    }
}

fn lower(n: usize, by: usize) -> (out: usize)
    ensures
        out == lowered(n, by),
{
    if n < by {
        0
    } else {
        n - by
    }
}

/// Whether a key scrolls, however the interface is.
pub open spec fn is_page_key(key: Key) -> bool {
    key.code == KeyCode::PageUp || key.code == KeyCode::PageDown
}

/// Whether a key is a letter with the control key.
pub open spec fn is_control_key(key: Key, c: char) -> bool {
    key.control && key.code == KeyCode::Char(c)
}

/// The answer to an approval that a key gives.
pub open spec fn approval_answer(key: Key) -> Option<bool> {
    match key.code {
        KeyCode::Char(c) => if c == 'y' || c == 'Y' {
            Some(true)
        } else if c == 'n' || c == 'N' {
            Some(false)
        } else {
            None
        },
        KeyCode::Enter => Some(false),
        _ => None,
    }
}

/// Whether nothing of the interface has changed but what is named: the text that is
/// typed, the status, the scroll positions and whether tools are shown.
pub open spec fn same_but_input(before: TuiState, after: TuiState) -> bool {
    &&& after.messages == before.messages
    &&& after.active == before.active
    &&& after.active_request_id == before.active_request_id
    &&& after.pending_approval == before.pending_approval
    &&& after.workspace == before.workspace
    &&& after.theme_mode == before.theme_mode
    &&& after.resume_choices == before.resume_choices
}

/// What a key does to the text that is typed, where no approval is waited for.
pub open spec fn typed(input: Seq<char>, active: bool, key: Key) -> Seq<char> {
    match key.code {
        KeyCode::Backspace => if input.len() > 0 {
            input.drop_last()
        } else {
            input
        },
        KeyCode::Char(c) => if key.control {
            input
        } else {
            input.push(c)
        },
        KeyCode::Enter => if key.alt {
            input.push('\n')
        } else if !is_blank_text(input) && !active {
            Seq::empty()
        } else {
            input
        },
        _ => input,
    }
}

/// Whether a key does what it should: to the interface, and by what has to be done for
/// it.
pub open spec fn key_does(before: TuiState, key: Key, after: TuiState, action: KeyAction) -> bool {
    let waiting = before.pending_approval is Some;
    &&& same_but_input(before, after)
    &&& after.status@ == (if key.code == KeyCode::Esc {
        "退出"@
    } else {
        before.status@
    })
    &&& after.approval_scroll == (if waiting && key.code == KeyCode::PageUp {
        lowered(before.approval_scroll, 4)
    } else if waiting && key.code == KeyCode::PageDown {
        raised(before.approval_scroll, 4)
    } else {
        before.approval_scroll
    })
    &&& after.scroll == (if !waiting && key.code == KeyCode::PageUp {
        raised(before.scroll, 8)
    } else if !waiting && key.code == KeyCode::PageDown {
        lowered(before.scroll, 8)
    } else {
        before.scroll
    })
    &&& after.show_tools == (if is_control_key(key, 't') {
        !before.show_tools
    } else {
        before.show_tools
    })
    &&& after.input@ == (if is_control_key(key, 'u') {
        Seq::empty()
    } else if waiting || key.code == KeyCode::Esc || is_page_key(key) || is_control_key(key, 't')
        || is_control_key(key, 'c') {
        before.input@
    } else {
        typed(before.input@, before.active, key)
    })
    &&& if key.code == KeyCode::Esc || is_page_key(key) || is_control_key(key, 't')
        || is_control_key(key, 'u') {
        action is Nothing
    } else if is_control_key(key, 'c') {
        match before.active_request_id {
            Some(id) => action matches KeyAction::Cancel(cancelled) && cancelled@ == id@,
            None => action is Nothing,
        }
    } else if waiting {
        match approval_answer(key) {
            Some(answer) => action matches KeyAction::Respond { id, approved } && id@
                == before.pending_approval->0.id@ && approved == answer,
            None => action is Nothing,
        }
    } else if key.code == KeyCode::Enter && !key.alt && !is_blank_text(before.input@)
        && !before.active {
        action matches KeyAction::Submit(text) && text@ == before.input@
    } else {
        action is Nothing
    }
}

/// What has to be done for a text that has been taken up.
#[derive(Clone, Debug, PartialEq, Eq)]
pub enum SubmitAction {
    Nothing,
    ListSessions,
    NewSession,
    LoadStatus,
    /// To resume a session.
    Resume(String),
    /// It could not be done, for this reason.
    Fail(String),
    /// To send a message to the agent.
    Chat(String),
}

/// The session that a selection means: by its number from one on, or by its id.
pub open spec fn selection(choices: Seq<SessionInfo>, text: Seq<char>) -> Result<
    Seq<char>,
    Seq<char>,
> {
    match parse_number(text, usize::MAX as nat) {
        Some(n) => if n == 0 {
            Err("会话编号从 1 开始"@)
        } else if n <= choices.len() {
            Ok(choices[n - 1].id@)
        } else {
            Err("会话编号超出范围："@ + decimal(n))
        },
        None => if text.len() > 0 {
            Ok(text)
        } else {
            Err("session ID 不能为空"@)
        },
    }
}

/// The session that a selection means.
pub fn resolve_session_selection(choices: &Vec<SessionInfo>, text: &str) -> (out: Result<
    String,
    String,
>)
    ensures
        match out {
            Ok(id) => selection(choices@, text@) == Ok::<Seq<char>, Seq<char>>(id@),
            Err(message) => selection(choices@, text@) == Err::<Seq<char>, Seq<char>>(message@),
        },
{
    match parse_usize(text) {
        Some(n) => {
            if n == 0 {
                return Err("会话编号从 1 开始".to_owned());
            }
            if n <= choices.len() {
                return Ok(choices[n - 1].id.clone());
            }
            let mut message = "会话编号超出范围：".to_owned();
            message.append(decimal_text(n as u128).as_str());
            Err(message)
        },
        None => {
            proof {
                reveal_strlit("");
                assert(text@.len() == 0 ==> text@ =~= ""@);
            }
            if same_text(text, "") {
                Err("session ID 不能为空".to_owned())
            } else {
                Ok(text.to_owned())
            }
        },
    }
}

/// What a chosen session has to be done for.
pub open spec fn is_resume(action: SubmitAction, chosen: Result<Seq<char>, Seq<char>>) -> bool {
    match chosen {
        Ok(id) => action matches SubmitAction::Resume(text) && text@ == id,
        Err(message) => action matches SubmitAction::Fail(text) && text@ == message,
    }
}

/// What `/help` shows.
pub open spec fn help_text() -> Seq<char> {
    "/resume：列出历史会话\n/resume <编号或 ID>：恢复会话\n/new：新建空白会话\n/status：查看当前状态\n/exit：退出 TUI"@
}

/// Whether only messages, status, choices and the scroll position may have changed.
pub open spec fn same_but_talk(before: TuiState, after: TuiState) -> bool {
    &&& after.input == before.input
    &&& after.active == before.active
    &&& after.active_request_id == before.active_request_id
    &&& after.pending_approval == before.pending_approval
    &&& after.approval_scroll == before.approval_scroll
    &&& after.show_tools == before.show_tools
    &&& after.workspace == before.workspace
    &&& after.theme_mode == before.theme_mode
}

/// Whether also messages, choices and the scroll position are as they were.
pub open spec fn same_but_status(before: TuiState, after: TuiState) -> bool {
    &&& same_but_talk(before, after)
    &&& after.messages == before.messages
    &&& after.resume_choices == before.resume_choices
    &&& after.scroll == before.scroll
}

/// The kinds of text that can be taken up.
pub enum Submitted {
    Exit,
    Help,
    List,
    New,
    Status,
    Cancel,
    Select(Seq<char>),
    Unknown,
    Talk,
}

/// Of which kind a text is.
pub open spec fn submitted(text: Seq<char>, choosing: bool) -> Submitted {
    let input = trim(text);
    if input == "/exit"@ || input == "/quit"@ {
        Submitted::Exit
    } else if input == "/help"@ {
        Submitted::Help
    } else if input == "/resume"@ || input == "/sessions"@ {
        Submitted::List
    } else if input == "/new"@ {
        Submitted::New
    } else if input == "/status"@ {
        Submitted::Status
    } else if input == "/cancel"@ {
        Submitted::Cancel
    } else {
        match after_prefix(input, "/resume "@) {
            Some(rest) => Submitted::Select(trim(rest)),
            None => if begins_with(input, "/"@) {
                Submitted::Unknown
            } else if choosing && all_digits(input) {
                Submitted::Select(input)
            } else {
                Submitted::Talk
            },
        }
    }
}

/// Whether a text that is taken up does what it should.
pub open spec fn submit_does(
    before: TuiState,
    text: Seq<char>,
    after: TuiState,
    action: SubmitAction,
) -> bool {
    match submitted(text, before.resume_choices@.len() > 0) {
        Submitted::Exit => same_but_status(before, after) && after.status@ == "退出"@ && action
            is Nothing,
        Submitted::Help => {
            &&& same_but_talk(before, after)
            &&& message_views(after.messages@) == message_views(before.messages@).push(
                MessageView { role: Role::System, content: help_text() },
            )
            &&& after.resume_choices == before.resume_choices
            &&& after.scroll == before.scroll
            &&& after.status@ == "已显示命令帮助"@
            &&& action is Nothing
        },
        Submitted::List => same_but_status(before, after) && after.status == before.status && action
            is ListSessions,
        Submitted::New => same_but_status(before, after) && after.status == before.status && action
            is NewSession,
        Submitted::Status => same_but_status(before, after) && after.status == before.status
            && action is LoadStatus,
        Submitted::Cancel => same_but_status(before, after) && after.status@
            == "当前没有正在运行的请求"@ && action is Nothing,
        Submitted::Select(chosen) => same_but_status(before, after) && after.status == before.status
            && is_resume(action, selection(before.resume_choices@, chosen)),
        Submitted::Unknown => same_but_status(before, after) && after.status@ == "未知命令："@
            + trim(text) + " · 输入 /help 查看命令"@ && action is Nothing,
        Submitted::Talk => {
            &&& same_but_talk(before, after)
            &&& message_views(after.messages@) == message_views(before.messages@).push(
                MessageView { role: Role::User, content: text },
            )
            &&& after.resume_choices@.len() == 0
            &&& after.scroll == 0
            &&& after.status == before.status
            &&& action matches SubmitAction::Chat(message) && message@ == text
        },
    }
}

/// The line of a session among those that can be resumed, which has a number.
pub open spec fn choice_line(session: SessionInfo, number: nat) -> Seq<char> {
    decimal(number) + ". "@ + session.id@ + " · "@ + decimal(session.message_count as nat)
        + " 条消息"@ + (if session.active {
        " · 当前"@
    } else {
        ""@
    }) + "\n   "@ + (match session.preview {
        Some(preview) => preview@,
        None => "无摘要"@,
    })
}

/// The list of the sessions that can be resumed.
pub open spec fn choices_text(choices: Seq<SessionInfo>) -> Seq<char> {
    join_with(
        (seq!["可恢复的历史会话："@] + Seq::new(
            choices.len(),
            |i: int| choice_line(choices[i], (i + 1) as nat),
        )).push("输入编号，或使用 /resume <编号或 session ID>。"@),
        "\n"@,
    )
}

fn choices_message(choices: &Vec<SessionInfo>) -> (text: String)
    ensures
        text@ == choices_text(choices@),
{
    let ghost wanted = (seq!["可恢复的历史会话："@] + Seq::new(
        choices@.len(),
        |i: int| choice_line(choices@[i], (i + 1) as nat),
    )).push("输入编号，或使用 /resume <编号或 session ID>。"@);
    let mut lines: Vec<String> = Vec::new();
    lines.push("可恢复的历史会话：".to_owned());
    let total = choices.len();
    let mut at: usize = 0;
    while at < total
        invariant
            at <= total,
            total == choices@.len(),
            lines@.len() == at + 1,
            lines@[0]@ == "可恢复的历史会话："@,
            forall|i: int|
                1 <= i < at + 1 ==> (#[trigger] lines@[i])@ == choice_line(
                    choices@[i - 1],
                    i as nat,
                ),
        decreases total - at,
    {
        let session = &choices[at];
        let mut line = decimal_text(at as u128 + 1);
        line.append(". ");
        line.append(session.id.as_str());
        line.append(" · ");
        line.append(decimal_text(session.message_count as u128).as_str());
        line.append(" 条消息");
        if session.active {
            line.append(" · 当前");
        } else {
            line.append("");
        }
        line.append("\n   ");
        match &session.preview {
            Some(preview) => line.append(preview.as_str()),
            None => line.append("无摘要"),
        }
        assert(line@ == choice_line(*session, (at + 1) as nat));
        lines.push(line);
        at += 1;
    }
    lines.push("输入编号，或使用 /resume <编号或 session ID>。".to_owned());
    assert(texts(lines@) =~= wanted);
    join(&lines, "\n")
}

/// The messages with a piece of the agent's answer behind them.
pub open spec fn with_delta(messages: Seq<MessageView>, delta: Seq<char>) -> Seq<MessageView> {
    if messages.len() > 0 && messages.last().role == Role::Assistant {
        messages.update(
            messages.len() - 1,
            MessageView { role: Role::Assistant, content: messages.last().content + delta },
        )
    } else {
        messages.push(MessageView { role: Role::Assistant, content: delta })
    }
}

/// What is said of an approval event that cannot be read.
pub open spec fn approval_complaint(error: Seq<char>) -> Seq<char> {
    "审批事件格式无效: "@ + error
}

/// Whether a frame does what it should. `approval` is what the event says that an
/// approval is waited for, as it was read, or why it could not be read.
pub open spec fn frame_does(
    before: TuiState,
    frame: FrameView,
    approval: Result<Option<PendingApprovalInfo>, String>,
    after: TuiState,
    out: Result<(), String>,
) -> bool {
    let kept = {
        &&& after.input == before.input
        &&& after.scroll == before.scroll
        &&& after.show_tools == before.show_tools
        &&& after.workspace == before.workspace
        &&& after.theme_mode == before.theme_mode
        &&& after.resume_choices == before.resume_choices
    };
    let same_messages = message_views(after.messages@) == message_views(before.messages@);
    let same_request = after.active == before.active && after.active_request_id
        == before.active_request_id;
    let same_approval_state = after.pending_approval == before.pending_approval
        && after.approval_scroll == before.approval_scroll;
    kept && match frame {
        FrameView::Event { event, data, .. } => same_request && match event {
            EventKind::TextDelta => {
                &&& out is Ok
                &&& after.status == before.status
                &&& same_approval_state
                &&& message_views(after.messages@) == (match data.field("delta"@).text() {
                    Some(delta) => with_delta(message_views(before.messages@), delta),
                    None => message_views(before.messages@),
                })
            },
            EventKind::ToolStarted => {
                &&& out is Ok
                &&& same_messages
                &&& same_approval_state
                &&& after.status@ == "工具执行中："@ + text_or(data.field("name"@).text(), "unknown"@)
            },
            EventKind::ToolFinished => {
                &&& out is Ok
                &&& same_approval_state
                &&& after.status@ == "工具完成："@ + text_or(data.field("name"@).text(), "unknown"@)
                &&& message_views(after.messages@) == message_views(before.messages@).push(
                    MessageView {
                        role: Role::Tool,
                        content: text_or(data.field("name"@).text(), "工具"@) + "\n"@ + text_or(
                            data.field("output"@).text(),
                            ""@,
                        ),
                    },
                )
            },
            EventKind::ApprovalRequired => {
                &&& same_messages
                &&& after.approval_scroll == 0
                &&& match approval {
                    Ok(found) => out is Ok && after.pending_approval == found && after.status@
                        == "等待审批：Y 允许 / N 拒绝"@,
                    Err(error) => after.pending_approval == before.pending_approval && after.status
                        == before.status && (out matches Err(message) && message@
                        == approval_complaint(error@)),
                }
            },
            EventKind::TurnStarted | EventKind::TurnCompleted => out is Ok && same_messages
                && same_approval_state && after.status == before.status,
        },
        FrameView::Response { error, .. } => {
            &&& out is Ok
            &&& same_messages
            &&& !after.active
            &&& after.active_request_id is None
            &&& after.pending_approval is None
            &&& after.approval_scroll == before.approval_scroll
            &&& after.status@ == (match error {
                Some((code, message)) => "请求失败（"@ + signed_decimal(code as int) + "）："@
                    + message,
                None => "就绪"@,
            })
        },
    }
}

/// Whether the interface shows a session as a snapshot has it.
pub open spec fn shows_snapshot(state: TuiState, snapshot: RecoverySnapshot) -> bool {
    &&& message_views(state.messages@) == shown_messages(snapshot.messages@)
    &&& id_view(state.active_request_id) == first_id(snapshot.active_requests@)
    &&& is_first_approval(state.pending_approval, snapshot.pending_approvals@)
    &&& state.approval_scroll == 0
    &&& state.scroll == 0
    &&& state.resume_choices@.len() == 0
}

/// Whether a replaced session has left the rest of the interface as it was.
pub open spec fn same_but_session(before: TuiState, after: TuiState) -> bool {
    &&& after.input == before.input
    &&& after.active == before.active
    &&& after.show_tools == before.show_tools
    &&& after.workspace == before.workspace
    &&& after.theme_mode == before.theme_mode
}

impl TuiState {
    /// The interface for a session as a snapshot has it.
    pub fn from_snapshot(
        snapshot: &RecoverySnapshot,
        workspace: String,
        theme_mode: TuiThemeMode,
    ) -> (state: TuiState)
        ensures
            shows_snapshot(state, *snapshot),
            state.input@.len() == 0,
            !state.active,
            !state.show_tools,
            state.workspace == workspace,
            state.theme_mode == theme_mode,
            state.status@ == (if snapshot.active_requests@.len() > 0 {
                "正在恢复活动请求"@
            } else if snapshot.pending_approvals@.len() > 0 {
                "等待审批"@
            } else {
                "就绪"@
            }),
    {
        let status = if snapshot.active_requests.len() > 0 {
            "正在恢复活动请求"
        } else if snapshot.pending_approvals.len() > 0 {
            "等待审批"
        } else {
            "就绪"
        };
        TuiState {
            messages: messages_to_ui(&snapshot.messages),
            input: String::new(),
            active: false,
            active_request_id: first_request(&snapshot.active_requests),
            pending_approval: first_approval(&snapshot.pending_approvals),
            approval_scroll: 0,
            status: status.to_owned(),
            scroll: 0,
            show_tools: false,
            workspace,
            theme_mode,
            resume_choices: Vec::new(),
        }
    }

    /// The status with which the interface starts, in a new session.
    pub fn started(&mut self, session_id: &str)
        ensures
            same_but_status(*old(self), *final(self)),
            final(self).status@ == "新会话 "@ + session_id@ + " · /resume 恢复历史"@,
    {
        let mut status = "新会话 ".to_owned();
        status.append(session_id);
        status.append(" · /resume 恢复历史");
        self.status = status;
    }

    /// Shows another session.
    pub fn replace_snapshot(&mut self, snapshot: &RecoverySnapshot)
        ensures
            shows_snapshot(*final(self), *snapshot),
            same_but_session(*old(self), *final(self)),
            final(self).status == old(self).status,
    {
        self.messages = messages_to_ui(&snapshot.messages);
        self.active_request_id = first_request(&snapshot.active_requests);
        self.pending_approval = first_approval(&snapshot.pending_approvals);
        self.approval_scroll = 0;
        self.scroll = 0;
        self.resume_choices = Vec::new();
    }

    fn push_message(&mut self, role: Role, content: String)
        ensures
            message_views(final(self).messages@) == message_views(old(self).messages@).push(
                MessageView { role, content: content@ },
            ),
            same_but_talk(*old(self), *final(self)),
            final(self).resume_choices == old(self).resume_choices,
            final(self).scroll == old(self).scroll,
            final(self).status == old(self).status,
    {
        let ghost before = self.messages@;
        self.messages.push(UiMessage { role, content });
        assert(message_views(self.messages@) =~= message_views(before).push(
            MessageView { role, content: content@ },
        ));
    }

    /// Shows what the user has said, with the end of the conversation in sight.
    pub fn push_user(&mut self, content: String)
        ensures
            message_views(final(self).messages@) == message_views(old(self).messages@).push(
                MessageView { role: Role::User, content: content@ },
            ),
            same_but_talk(*old(self), *final(self)),
            final(self).resume_choices == old(self).resume_choices,
            final(self).scroll == 0,
            final(self).status == old(self).status,
    {
        self.push_message(Role::User, content);
        self.scroll = 0;
    }

    /// Shows a piece of the agent's answer.
    pub fn append_assistant(&mut self, delta: &str)
        ensures
            message_views(final(self).messages@) == with_delta(
                message_views(old(self).messages@),
                delta@,
            ),
            same_but_talk(*old(self), *final(self)),
            final(self).resume_choices == old(self).resume_choices,
            final(self).scroll == old(self).scroll,
            final(self).status == old(self).status,
    {
        let total = self.messages.len();
        let ghost before = self.messages@;
        if total > 0 && self.messages[total - 1].role == Role::Assistant {
            let last = self.messages.remove(total - 1);
            let mut content = last.content;
            content.append(delta);
            self.messages.push(UiMessage { role: Role::Assistant, content });
            assert(message_views(self.messages@) =~= with_delta(message_views(before), delta@));
        } else {
            self.push_message(Role::Assistant, delta.to_owned());
        }
    }

    /// Whether the interface is to be left.
    pub fn wants_exit(&self) -> (exit: bool)
        ensures
            exit == (self.status@ == "退出"@),
    {
        same_text(self.status.as_str(), "退出")
    }

    /// Takes a key.
    pub fn handle_key(&mut self, key: Key) -> (action: KeyAction)
        ensures
            key_does(*old(self), key, *final(self), action),
    {
        if key.code == KeyCode::Esc {
            self.status = "退出".to_owned();
            return KeyAction::Nothing;
        }
        if key.code == KeyCode::PageUp {
            if self.pending_approval.is_some() {
                self.approval_scroll = lower(self.approval_scroll, 4);
            } else {
                self.scroll = raise(self.scroll, 8);
            }
            return KeyAction::Nothing;
        }
        if key.code == KeyCode::PageDown {
            if self.pending_approval.is_some() {
                self.approval_scroll = raise(self.approval_scroll, 4);
            } else {
                self.scroll = lower(self.scroll, 8);
            }
            return KeyAction::Nothing;
        }
        if key.control && key.code == KeyCode::Char('t') {
            self.show_tools = !self.show_tools;
            return KeyAction::Nothing;
        }
        if key.control && key.code == KeyCode::Char('u') {
            self.input = String::new();
            return KeyAction::Nothing;
        }
        if key.control && key.code == KeyCode::Char('c') {
            return match &self.active_request_id {
                Some(id) => KeyAction::Cancel(id.copy()),
                None => KeyAction::Nothing,
            };
        }
        if let Some(approval) = &self.pending_approval {
            let answer = match key.code {
                KeyCode::Char(c) => if c == 'y' || c == 'Y' {
                    Some(true)
                } else if c == 'n' || c == 'N' {
                    Some(false)
                } else {
                    None
                },
                KeyCode::Enter => Some(false),
                _ => None,
            };
            return match answer {
                Some(approved) => KeyAction::Respond { id: approval.id.clone(), approved },
                None => KeyAction::Nothing,
            };
        }
        match key.code {
            KeyCode::Backspace => {
                let chars = chars_of(self.input.as_str());
                if chars.len() > 0 {
                    self.input = slice_text(&chars, 0, chars.len() - 1);
                    assert(self.input@ =~= old(self).input@.drop_last());
                }
                KeyAction::Nothing
            },
            KeyCode::Char(c) => {
                if !key.control {
                    self.input.push(c);
                }
                KeyAction::Nothing
            },
            KeyCode::Enter => {
                if key.alt {
                    self.input.push('\n');
                    KeyAction::Nothing
                } else if !is_blank(self.input.as_str()) && !self.active {
                    let text = self.input.clone();
                    self.input = String::new();
                    assert(self.input@ =~= Seq::empty());
                    KeyAction::Submit(text)
                } else {
                    KeyAction::Nothing
                }
            },
            _ => KeyAction::Nothing,
        }
    }

    /// The daemon has been asked to cancel a request.
    pub fn cancel_sent(&mut self)
        ensures
            same_but_status(*old(self), *final(self)),
            final(self).status@ == "已发送取消请求"@,
    {
        self.status = "已发送取消请求".to_owned();
    }

    /// The daemon has been given the answer to an approval.
    pub fn responded(&mut self, approved: bool)
        ensures
            final(self).pending_approval is None,
            final(self).status@ == (if approved {
                "审批已允许，继续执行"@
            } else {
                "审批已拒绝，继续执行"@
            }),
            final(self).messages == old(self).messages,
            final(self).input == old(self).input,
            final(self).active == old(self).active,
            final(self).active_request_id == old(self).active_request_id,
            final(self).approval_scroll == old(self).approval_scroll,
            final(self).scroll == old(self).scroll,
            final(self).show_tools == old(self).show_tools,
            final(self).workspace == old(self).workspace,
            final(self).theme_mode == old(self).theme_mode,
            final(self).resume_choices == old(self).resume_choices,
    {
        self.pending_approval = None;
        self.status = if approved {
            "审批已允许，继续执行".to_owned()
        } else {
            "审批已拒绝，继续执行".to_owned()
        };
    }

    /// What had to be done for a key could not be done.
    pub fn failed(&mut self, reason: &str)
        ensures
            same_but_status(*old(self), *final(self)),
            final(self).status@ == "操作失败："@ + reason@,
    {
        let mut status = "操作失败：".to_owned();
        status.append(reason);
        self.status = status;
    }

    /// Takes a text that is pasted. Nothing can be pasted while an approval is waited
    /// for.
    pub fn paste(&mut self, text: &str)
        ensures
            same_but_input(*old(self), *final(self)),
            final(self).status == old(self).status,
            final(self).scroll == old(self).scroll,
            final(self).approval_scroll == old(self).approval_scroll,
            final(self).show_tools == old(self).show_tools,
            final(self).input@ == (if old(self).pending_approval is Some {
                old(self).input@
            } else {
                old(self).input@ + without_returns(text@)
            }),
    {
        if self.pending_approval.is_some() {
            return ;
        }
        let ghost before = self.input@;
        let mut input = self.input.clone();
        assert(without_returns(text@.take(0)) =~= Seq::empty());
        assert(input@ =~= before + without_returns(text@.take(0)));
        for ch in iter: text.chars()
            invariant
                iter.seq() == text@,
                input@ == before + without_returns(text@.take(iter.index() as int)),
        {
            let ghost here = without_returns(text@.take(iter.index() as int));
            assert(text@.take(iter.index() + 1).drop_last() =~= text@.take(iter.index() as int));
            assert(text@.take(iter.index() + 1).last() == ch);
            if ch != '\r' {
                input.push(ch);
                assert(input@ =~= before + here.push(ch));
            }
        }
        assert(text@.take(text@.len() as int) =~= text@);
        self.input = input;
    }

    /// Takes a frame of the daemon, with the approval that it asks for as it was read.
    pub fn handle_frame(
        &mut self,
        frame: &ServerFrame,
        approval: Result<Option<PendingApprovalInfo>, String>,
    ) -> (out: Result<(), String>)
        ensures
            frame_does(*old(self), frame@, approval, *final(self), out),
    {
        match frame {
            ServerFrame::Event(event) => match event.event {
                EventKind::TextDelta => {
                    if let Some(delta) = event.data.get_text("delta") {
                        self.append_assistant(delta);
                    }
                },
                EventKind::ToolStarted => {
                    let mut status = "工具执行中：".to_owned();
                    match event.data.get_text("name") {
                        Some(name) => status.append(name),
                        None => status.append("unknown"),
                    }
                    self.status = status;
                },
                EventKind::ToolFinished => {
                    let mut status = "工具完成：".to_owned();
                    match event.data.get_text("name") {
                        Some(name) => status.append(name),
                        None => status.append("unknown"),
                    }
                    self.status = status;
                    let mut content = String::new();
                    match event.data.get_text("name") {
                        Some(name) => content.append(name),
                        None => content.append("工具"),
                    }
                    assert(content@ =~= text_or(event.data@.field("name"@).text(), "工具"@));
                    content.append("\n");
                    match event.data.get_text("output") {
                        Some(output) => content.append(output),
                        None => content.append(""),
                    }
                    self.push_message(Role::Tool, content);
                },
                EventKind::ApprovalRequired => {
                    self.approval_scroll = 0;
                    match approval {
                        Ok(found) => {
                            self.pending_approval = found;
                            self.status = "等待审批：Y 允许 / N 拒绝".to_owned();
                        },
                        Err(error) => {
                            let mut message = "审批事件格式无效: ".to_owned();
                            message.append(error.as_str());
                            return Err(message);
                        },
                    }
                },
                EventKind::TurnStarted => {},
                EventKind::TurnCompleted => {},
            },
            ServerFrame::Response(response) => {
                self.active = false;
                self.active_request_id = None;
                self.pending_approval = None;
                match &response.error {
                    Some(error) => {
                        let mut status = "请求失败（".to_owned();
                        status.append(signed_text(error.code).as_str());
                        status.append("）：");
                        status.append(error.message.as_str());
                        self.status = status;
                    },
                    None => {
                        self.status = "就绪".to_owned();
                    },
                }
            },
        }
        Ok(())
    }

    /// No more frames come though the request has not been answered.
    pub fn disconnected(&mut self)
        ensures
            !final(self).active,
            final(self).status@ == "连接中断 · 退出后重新运行 myagent 可恢复"@,
            final(self).messages == old(self).messages,
            final(self).input == old(self).input,
            final(self).active_request_id == old(self).active_request_id,
            final(self).pending_approval == old(self).pending_approval,
            final(self).approval_scroll == old(self).approval_scroll,
            final(self).scroll == old(self).scroll,
            final(self).show_tools == old(self).show_tools,
            final(self).workspace == old(self).workspace,
            final(self).theme_mode == old(self).theme_mode,
            final(self).resume_choices == old(self).resume_choices,
    {
        self.active = false;
        self.status = "连接中断 · 退出后重新运行 myagent 可恢复".to_owned();
    }

    /// Takes up a text that has been typed.
    pub fn submit_input(&mut self, message: String) -> (action: SubmitAction)
        ensures
            submit_does(*old(self), message@, *final(self), action),
    {
        let owned = trimmed(message.as_str());
        let input = owned.as_str();
        if same_text(input, "/exit") || same_text(input, "/quit") {
            self.status = "退出".to_owned();
            return SubmitAction::Nothing;
        }
        if same_text(input, "/help") {
            self.push_message(
                Role::System,
                "/resume：列出历史会话\n/resume <编号或 ID>：恢复会话\n/new：新建空白会话\n/status：查看当前状态\n/exit：退出 TUI".to_owned(),
            );
            self.status = "已显示命令帮助".to_owned();
            return SubmitAction::Nothing;
        }
        if same_text(input, "/resume") || same_text(input, "/sessions") {
            return SubmitAction::ListSessions;
        }
        if same_text(input, "/new") {
            return SubmitAction::NewSession;
        }
        if same_text(input, "/status") {
            return SubmitAction::LoadStatus;
        }
        if same_text(input, "/cancel") {
            self.status = "当前没有正在运行的请求".to_owned();
            return SubmitAction::Nothing;
        }
        if let Some(rest) = strip_prefix(input, "/resume ") {
            return self.resume_selection(trimmed(rest.as_str()).as_str());
        }
        if starts_with(input, "/") {
            let mut status = "未知命令：".to_owned();
            status.append(input);
            status.append(" · 输入 /help 查看命令");
            self.status = status;
            return SubmitAction::Nothing;
        }
        if self.resume_choices.len() > 0 && holds_digits_only(input) {
            return self.resume_selection(input);
        }
        self.resume_choices = Vec::new();
        self.push_user(message.clone());
        SubmitAction::Chat(message)
    }

    fn resume_selection(&self, text: &str) -> (action: SubmitAction)
        ensures
            is_resume(action, selection(self.resume_choices@, text@)),
    {
        match resolve_session_selection(&self.resume_choices, text) {
            Ok(id) => SubmitAction::Resume(id),
            Err(message) => SubmitAction::Fail(message),
        }
    }

    /// A message has been sent to the agent.
    pub fn chat_started(&mut self, request_id: RequestId)
        ensures
            final(self).active,
            final(self).active_request_id == Some(request_id),
            final(self).status@ == "Agent 正在工作"@,
            final(self).messages == old(self).messages,
            final(self).input == old(self).input,
            final(self).pending_approval == old(self).pending_approval,
            final(self).approval_scroll == old(self).approval_scroll,
            final(self).scroll == old(self).scroll,
            final(self).show_tools == old(self).show_tools,
            final(self).workspace == old(self).workspace,
            final(self).theme_mode == old(self).theme_mode,
            final(self).resume_choices == old(self).resume_choices,
    {
        self.active_request_id = Some(request_id);
        self.active = true;
        self.status = "Agent 正在工作".to_owned();
    }

    /// A new session has been started.
    pub fn session_started(&mut self, snapshot: &RecoverySnapshot)
        ensures
            shows_snapshot(*final(self), *snapshot),
            same_but_session(*old(self), *final(self)),
            final(self).status@ == "已新建会话："@ + snapshot.session_id@,
    {
        self.replace_snapshot(snapshot);
        let mut status = "已新建会话：".to_owned();
        status.append(snapshot.session_id.as_str());
        self.status = status;
    }

    /// The state of the session has been asked for.
    pub fn status_loaded(&mut self, snapshot: &RecoverySnapshot)
        ensures
            same_but_status(*old(self), *final(self)),
            final(self).status@ == "会话 "@ + snapshot.session_id@ + " · "@ + decimal(
                snapshot.messages@.len(),
            ) + " 条消息"@,
    {
        let mut status = "会话 ".to_owned();
        status.append(snapshot.session_id.as_str());
        status.append(" · ");
        status.append(decimal_text(snapshot.messages.len() as u128).as_str());
        status.append(" 条消息");
        self.status = status;
    }

    /// A session has been resumed.
    pub fn session_resumed(&mut self, session_id: &str, snapshot: &RecoverySnapshot)
        ensures
            shows_snapshot(*final(self), *snapshot),
            same_but_session(*old(self), *final(self)),
            final(self).status@ == "已恢复 "@ + session_id@ + " · "@ + decimal(
                snapshot.messages@.len(),
            ) + " 条消息"@,
    {
        self.replace_snapshot(snapshot);
        let mut status = "已恢复 ".to_owned();
        status.append(session_id);
        status.append(" · ");
        status.append(decimal_text(snapshot.messages.len() as u128).as_str());
        status.append(" 条消息");
        self.status = status;
    }

    /// Shows the sessions that can be resumed, to choose one of them.
    pub fn show_resume_choices(&mut self, sessions: Vec<SessionInfo>)
        ensures
            same_but_talk(*old(self), *final(self)),
            final(self).resume_choices@ == filled_sessions(sessions@),
            if filled_sessions(sessions@).len() == 0 {
                &&& final(self).messages == old(self).messages
                &&& final(self).scroll == old(self).scroll
                &&& final(self).status@ == "暂无可恢复的历史会话"@
            } else {
                &&& message_views(final(self).messages@) == message_views(old(self).messages@).push(
                    MessageView {
                        role: Role::System,
                        content: choices_text(filled_sessions(sessions@)),
                    },
                )
                &&& final(self).scroll == 0
                &&& final(self).status@ == "请选择要恢复的 session"@
            },
    {
        self.resume_choices = resumable(sessions);
        if self.resume_choices.len() == 0 {
            self.status = "暂无可恢复的历史会话".to_owned();
            return ;
        }
        let text = choices_message(&self.resume_choices);
        self.push_message(Role::System, text);
        self.scroll = 0;
        self.status = "请选择要恢复的 session".to_owned();
    }
}

fn holds_digits_only(text: &str) -> (out: bool)
    ensures
        out == all_digits(text@),
{
    let chars = chars_of(text);
    let mut at: usize = 0;
    while at < chars.len()
        invariant
            at <= chars.len(),
            chars@ == text@,
            forall|i: int| 0 <= i < at ==> is_digit(#[trigger] text@[i]),
        decreases chars.len() - at,
    {
        if !('0' <= chars[at] && chars[at] <= '9') {
            assert(!is_digit(text@[at as int]));
            return false;
        }
        at += 1;
    }
    true
}

/// Esc leaves the interface at any time, and does nothing else.
pub proof fn law_esc_leaves_at_any_time(
    before: TuiState,
    key: Key,
    after: TuiState,
    action: KeyAction,
)
    requires
        key.code == KeyCode::Esc,
        key_does(before, key, after, action),
    ensures
        after.status@ == "退出"@,
        action is Nothing,
        after.input@ == before.input@,
        after.pending_approval == before.pending_approval,
{
}

/// No letter but those with the control key does anything but to be typed, where no
/// approval is waited for.
pub proof fn law_letters_are_typed(
    before: TuiState,
    c: char,
    alt: bool,
    after: TuiState,
    action: KeyAction,
)
    requires
        before.pending_approval is None,
        key_does(before, Key { code: KeyCode::Char(c), control: false, alt }, after, action),
    ensures
        after.input@ == before.input@.push(c),
        after.status@ == before.status@,
        action is Nothing,
{
}

/// What is typed is never sent while the agent is at work, and never lost.
pub proof fn law_draft_is_kept_while_the_agent_works(
    before: TuiState,
    after: TuiState,
    action: KeyAction,
)
    requires
        before.active,
        before.pending_approval is None,
        key_does(
            before,
            Key { code: KeyCode::Enter, control: false, alt: false },
            after,
            action,
        ),
    ensures
        after.input@ == before.input@,
        action is Nothing,
{
}

/// An approval is given only by a key that says yes.
pub proof fn law_only_a_yes_approves(
    before: TuiState,
    key: Key,
    after: TuiState,
    id: String,
)
    requires
        key_does(before, key, after, KeyAction::Respond { id, approved: true }),
    ensures
        key.code == KeyCode::Char('y') || key.code == KeyCode::Char('Y'),
        before.pending_approval matches Some(approval) && approval.id@ == id@,
{
}

/// Every message with content is shown, in its order and with its role; one without is not.
pub proof fn law_every_message_with_content_is_shown(messages: Seq<Message>)
    ensures
        shown_messages(messages) == messages.filter(
            |message: Message| message.content is Some,
        ).map_values(
            |message: Message| MessageView { role: message.role, content: (message.content->0)@ },
        ),
    decreases messages.len(),
{
    reveal(Seq::filter);
    if messages.len() > 0 {
        law_every_message_with_content_is_shown(messages.drop_last());
    }
    assert(shown_messages(messages) =~= messages.filter(
        |message: Message| message.content is Some,
    ).map_values(
        |message: Message| MessageView { role: message.role, content: (message.content->0)@ },
    ));
}

/// A number picks the session that stands there in the list, counted from one; another text
/// picks the session of that name.
pub proof fn law_numbers_pick_from_the_choices(choices: Seq<SessionInfo>, n: nat, text: Seq<char>)
    requires
        n <= usize::MAX,
    ensures
        1 <= n <= choices.len() ==> selection(choices, decimal(n)) == Ok::<Seq<char>, Seq<char>>(
            choices[n - 1].id@,
        ),
        n == 0 || n > choices.len() ==> selection(choices, decimal(n)) is Err,
        parse_number(text, usize::MAX as nat) is None && text.len() > 0 ==> selection(choices, text)
            == Ok::<Seq<char>, Seq<char>>(text),
        text.len() == 0 ==> selection(choices, text) is Err,
{
    crate::number::lemma_parse_decimal(n, usize::MAX as nat);
}

/// Pieces of an answer are put together into one message; what was said before stays.
pub proof fn law_pieces_make_one_answer(
    messages: Seq<MessageView>,
    one: Seq<char>,
    two: Seq<char>,
    i: int,
)
    ensures
        with_delta(with_delta(messages, one), two) == with_delta(messages, one + two),
        with_delta(messages, one).last().role == Role::Assistant,
        messages.len() == 0 || messages.last().role != Role::Assistant ==> with_delta(messages, one)
            == messages.push(MessageView { role: Role::Assistant, content: one }),
        messages.len() > 0 && messages.last().role == Role::Assistant ==> with_delta(messages, one)
            == messages.drop_last().push(
            MessageView { role: Role::Assistant, content: messages.last().content + one },
        ),
        0 <= i < messages.len() - 1 ==> with_delta(messages, one)[i] == messages[i],
{
    let first = with_delta(messages, one);
    let both = with_delta(first, two);
    let whole = with_delta(messages, one + two);
    if messages.len() > 0 && messages.last().role == Role::Assistant {
        let content = messages.last().content;
        assert(content + one + two =~= content + (one + two));
        assert(first =~= messages.drop_last().push(
            MessageView { role: Role::Assistant, content: content + one },
        ));
    }
    assert(both =~= whole);
}

/// While an approval is waited for, Y allows it and N or Enter refuses it; nothing is typed.
pub proof fn law_approvals_are_answered_by_key(
    before: TuiState,
    key: Key,
    after: TuiState,
    action: KeyAction,
)
    requires
        key_does(before, key, after, action),
        before.pending_approval is Some,
        !key.control,
    ensures
        key.code == KeyCode::Char('y') || key.code == KeyCode::Char('Y') ==> (
        action matches KeyAction::Respond { id, approved } && approved && id@ == (
        before.pending_approval->0).id@),
        key.code == KeyCode::Char('n') || key.code == KeyCode::Char('N') || key.code
            == KeyCode::Enter ==> (action matches KeyAction::Respond { id, approved } && !approved
            && id@ == (before.pending_approval->0).id@),
        after.input@ == before.input@,
{
}

/// Enter hands on what has been typed and empties the line, where there is something and
/// the agent is free; with Alt it starts a new line. Backspace takes the last character.
pub proof fn law_enter_submits_what_was_typed(
    before: TuiState,
    key: Key,
    after: TuiState,
    action: KeyAction,
)
    requires
        key_does(before, key, after, action),
        before.pending_approval is None,
    ensures
        key.code == KeyCode::Enter && !key.alt && !before.active && !is_blank_text(before.input@)
            ==> (action matches KeyAction::Submit(text) && text@ == before.input@)
            && after.input@.len() == 0,
        key.code == KeyCode::Enter && !key.alt && is_blank_text(before.input@) ==> action is Nothing
            && after.input@ == before.input@,
        key.code == KeyCode::Enter && key.alt ==> action is Nothing && after.input@
            == before.input@.push('\n'),
        key.code == KeyCode::Backspace && before.input@.len() > 0 ==> after.input@
            == before.input@.drop_last(),
{
}

/// With Control, C cancels the request that runs, T shows or hides what tools gave, and U
/// empties the line.
pub proof fn law_control_keys(before: TuiState, key: Key, after: TuiState, action: KeyAction)
    requires
        key_does(before, key, after, action),
        key.control,
    ensures
        key.code == KeyCode::Char('c') ==> match before.active_request_id {
            Some(id) => action matches KeyAction::Cancel(cancelled) && cancelled@ == id@,
            None => action is Nothing,
        },
        key.code == KeyCode::Char('t') ==> after.show_tools == !before.show_tools,
        key.code == KeyCode::Char('u') ==> after.input@.len() == 0,
        key.code != KeyCode::Char('t') ==> after.show_tools == before.show_tools,
{
}

/// The page keys scroll: the question by four lines where one is asked, else the history by
/// eight; up and down undo each other within the bounds.
pub proof fn law_page_keys_scroll(
    before: TuiState,
    after: TuiState,
    action: KeyAction,
    control: bool,
    alt: bool,
    up: bool,
)
    requires
        key_does(
            before,
            Key {
                code: if up {
                    KeyCode::PageUp
                } else {
                    KeyCode::PageDown
                },
                control,
                alt,
            },
            after,
            action,
        ),
    ensures
        before.pending_approval is None && up && before.scroll <= usize::MAX - 8 ==> after.scroll
            == before.scroll + 8,
        before.pending_approval is None && !up && before.scroll >= 8 ==> after.scroll
            == before.scroll - 8,
        before.pending_approval is None && !up && before.scroll < 8 ==> after.scroll == 0,
        before.pending_approval is Some && !up && before.approval_scroll <= usize::MAX - 4
            ==> after.approval_scroll == before.approval_scroll + 4,
        before.pending_approval is Some && up && before.approval_scroll >= 4
            ==> after.approval_scroll == before.approval_scroll - 4,
        before.pending_approval is Some && up && before.approval_scroll < 4
            ==> after.approval_scroll == 0,
        before.pending_approval is Some ==> after.scroll == before.scroll,
        before.pending_approval is None ==> after.approval_scroll == before.approval_scroll,
{
}

/// What is submitted without a slash goes to the agent as it was typed, unless it is a
/// number while sessions are offered; then it picks one.
pub proof fn law_talk_goes_to_the_agent(
    before: TuiState,
    text: Seq<char>,
    after: TuiState,
    action: SubmitAction,
)
    requires
        submit_does(before, text, after, action),
    ensures
        trim(text).len() > 0 && trim(text)[0] != '/' && (before.resume_choices@.len() == 0
            || !all_digits(trim(text))) ==> {
            &&& action matches SubmitAction::Chat(message) && message@ == text
            &&& message_views(after.messages@) == message_views(before.messages@).push(
                MessageView { role: Role::User, content: text },
            )
            &&& after.resume_choices@.len() == 0
        },
        trim(text).len() > 0 && trim(text)[0] != '/' && before.resume_choices@.len() > 0
            && all_digits(trim(text)) ==> match selection(before.resume_choices@, trim(text)) {
            Ok(id) => action matches SubmitAction::Resume(chosen) && chosen@ == id,
            Err(_) => action is Fail,
        },
        trim(text).len() > 0 && trim(text)[0] == '/' ==> !(action is Chat),
{
    let input = trim(text);
    lemma_commands_start_with_a_slash();
    reveal_strlit("/");
    reveal_strlit("/resume ");
    if input.len() > 0 {
        assert(input.take(1)[0] == input[0]);
        assert("/"@[0] == '/');
        assert(input[0] == '/' ==> input.take(1) =~= "/"@);
        if begins_with(input, "/resume "@) {
            assert(input.take("/resume "@.len() as int)[0] == input[0]);
            assert("/resume "@[0] == '/');
        }
    }
}

proof fn lemma_commands_start_with_a_slash()
    ensures
        "/exit"@.len() == 5 && "/exit"@[0] == '/',
        "/quit"@.len() == 5 && "/quit"@[0] == '/',
        "/help"@.len() == 5 && "/help"@[0] == '/',
        "/resume"@.len() == 7 && "/resume"@[0] == '/',
        "/sessions"@.len() == 9 && "/sessions"@[0] == '/',
        "/new"@.len() == 4 && "/new"@[0] == '/',
        "/status"@.len() == 7 && "/status"@[0] == '/',
        "/cancel"@.len() == 7 && "/cancel"@[0] == '/',
{
    reveal_strlit("/exit");
    reveal_strlit("/quit");
    reveal_strlit("/help");
    reveal_strlit("/resume");
    reveal_strlit("/sessions");
    reveal_strlit("/new");
    reveal_strlit("/status");
    reveal_strlit("/cancel");
}

/// Every session that is offered is listed under its number, with its name, its messages
/// and what it begins with.
pub proof fn law_every_choice_is_listed(choices: Seq<SessionInfo>, i: int)
    requires
        0 <= i < choices.len(),
    ensures
        crate::text::contains_text(choices_text(choices), choice_line(choices[i], (i + 1) as nat)),
        choices[i].active && choices[i].preview is Some ==> choice_line(
            choices[i],
            (i + 1) as nat,
        ) == decimal((i + 1) as nat) + ". "@ + choices[i].id@ + " · "@ + decimal(
            choices[i].message_count as nat,
        ) + " 条消息"@ + " · 当前"@ + "\n   "@ + (choices[i].preview->0)@,
        !choices[i].active && choices[i].preview is Some ==> choice_line(
            choices[i],
            (i + 1) as nat,
        ) == decimal((i + 1) as nat) + ". "@ + choices[i].id@ + " · "@ + decimal(
            choices[i].message_count as nat,
        ) + " 条消息"@ + ""@ + "\n   "@ + (choices[i].preview->0)@,
{
    let list = (seq!["可恢复的历史会话："@] + Seq::new(
        choices.len(),
        |i: int| choice_line(choices[i], (i + 1) as nat),
    )).push("输入编号，或使用 /resume <编号或 session ID>。"@);
    assert(list[i + 1] == choice_line(choices[i], (i + 1) as nat));
    let at = crate::slash::lemma_join_contains(list, "\n"@, i + 1);
    assert(crate::text::occurs_at(choices_text(choices), list[i + 1], at));
}

/// A piece of text is put behind the answer, what a tool gave is shown whole, and the end of
/// the request frees the line for the next one.
pub proof fn law_frames_are_shown(
    before: TuiState,
    frame: FrameView,
    approval: Result<Option<PendingApprovalInfo>, String>,
    after: TuiState,
    out: Result<(), String>,
)
    requires
        frame_does(before, frame, approval, after, out),
    ensures
        frame matches FrameView::Event { event, data, .. } ==> (event == EventKind::TextDelta
            && data.field("delta"@) is Text ==> message_views(after.messages@) == with_delta(
            message_views(before.messages@),
            data.field("delta"@)->Text_0,
        )),
        frame matches FrameView::Event { event, data, .. } ==> (event == EventKind::ToolFinished
            && data.field("name"@) is Text && data.field("output"@) is Text ==> message_views(
            after.messages@,
        ) == message_views(before.messages@).push(
            MessageView {
                role: Role::Tool,
                content: data.field("name"@)->Text_0 + "\n"@ + data.field("output"@)->Text_0,
            },
        )),
        frame matches FrameView::Event { event, .. } ==> (event == EventKind::ApprovalRequired
            && approval is Ok ==> after.pending_approval == approval->Ok_0),
        frame is Event ==> after.active == before.active && after.active_request_id
            == before.active_request_id,
        frame is Response ==> !after.active && after.active_request_id is None
            && after.pending_approval is None,
        frame matches FrameView::Response { error: Some((code, message)), .. } ==> after.status@
            == "请求失败（"@ + signed_decimal(code as int) + "）："@ + message,
        frame matches FrameView::Response { error: None, .. } ==> after.status@ == "就绪"@,
        after.input == before.input,
{
}

/// A session that was loaded is shown with all its messages, and goes on with its first
/// request and its first approval.
pub proof fn law_loaded_session_is_shown(state: TuiState, snapshot: RecoverySnapshot)
    requires
        shows_snapshot(state, snapshot),
    ensures
        snapshot.active_requests@.len() == 0 ==> state.active_request_id is None,
        snapshot.active_requests@.len() > 0 ==> state.active_request_id is Some && (
        state.active_request_id->0)@ == snapshot.active_requests@[0]@,
        snapshot.pending_approvals@.len() == 0 ==> state.pending_approval is None,
        snapshot.pending_approvals@.len() > 0 ==> state.pending_approval is Some && (
        state.pending_approval->0).id@ == snapshot.pending_approvals@[0].id@ && (
        state.pending_approval->0).prompt@ == snapshot.pending_approvals@[0].prompt@,
        message_views(state.messages@) == snapshot.messages@.filter(
            |message: Message| message.content is Some,
        ).map_values(
            |message: Message| MessageView { role: message.role, content: (message.content->0)@ },
        ),
{
    law_every_message_with_content_is_shown(snapshot.messages@);
}

} // verus!

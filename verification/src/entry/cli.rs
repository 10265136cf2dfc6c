//! The command line: what is typed, and what is printed.
use vstd::prelude::*;

use crate::daemon::protocol::{
    EventKind, FrameView, JsonRpcResponse, RpcError, ServerFrame,
};
use crate::json::{json_views, lemma_json_views, Json, JsonView};
use crate::number::{decimal, decimal_text, signed_decimal, signed_text};
use crate::text::{
    begins_with, same_text, starts_with, to_ascii_lowercase, ascii_lower_text, trim, trimmed,
};

verus! {

/// What a line at the prompt asks for.
#[derive(Clone, Debug, PartialEq, Eq)]
pub enum ReplStep {
    Skip,
    Quit,
    Help,
    Status,
    Sessions,
    New,
    /// To print this.
    Say(String),
    /// To send this to the agent.
    Chat(String),
}

/// Whether a step is what a line at the prompt asks for.
pub open spec fn is_repl_step(step: ReplStep, input: Seq<char>) -> bool {
    if input == ""@ {
        step is Skip
    } else if input == "/exit"@ || input == "/quit"@ {
        step is Quit
    } else if input == "/help"@ {
        step is Help
    } else if input == "/status"@ {
        step is Status
    } else if input == "/sessions"@ {
        step is Sessions
    } else if input == "/new"@ {
        step is New
    } else if input == "/cancel"@ {
        step matches ReplStep::Say(text) && text@
            == "当前没有前台请求；运行中按 Ctrl-C 可取消本轮。"@
    } else if begins_with(input, "/"@) {
        step matches ReplStep::Say(text) && text@ == "未知命令："@ + input
            + "。输入 /help 查看命令。"@
    } else {
        step matches ReplStep::Chat(text) && text@ == input
    }
}

/// What a line at the prompt asks for.
pub fn run_repl(line: &str) -> (step: ReplStep)
    ensures
        is_repl_step(step, trim(line@)),
{
    let owned = trimmed(line);
    let input = owned.as_str();
    if same_text(input, "") {
        ReplStep::Skip
    } else if same_text(input, "/exit") || same_text(input, "/quit") {
        ReplStep::Quit
    } else if same_text(input, "/help") {
        ReplStep::Help
    } else if same_text(input, "/status") {
        ReplStep::Status
    } else if same_text(input, "/sessions") {
        ReplStep::Sessions
    } else if same_text(input, "/new") {
        ReplStep::New
    } else if same_text(input, "/cancel") {
        ReplStep::Say("当前没有前台请求；运行中按 Ctrl-C 可取消本轮。".to_owned())
    } else if starts_with(input, "/") {
        let mut text = "未知命令：".to_owned();
        text.append(input);
        text.append("。输入 /help 查看命令。");
        ReplStep::Say(text)
    } else {
        ReplStep::Chat(owned)
    }
}

/// What `/help` prints at the prompt.
pub fn print_help() -> (text: &'static str)
    ensures
        text@
            == "/help      查看命令\n/status    查看当前会话状态\n/sessions  列出会话文件\n/new       备份当前会话并新建会话\n/cancel    无前台请求时显示提示；运行中按 Ctrl-C 取消\n/exit      断开并退出"@,
{
    "/help      查看命令\n/status    查看当前会话状态\n/sessions  列出会话文件\n/new       备份当前会话并新建会话\n/cancel    无前台请求时显示提示；运行中按 Ctrl-C 取消\n/exit      断开并退出"
}

/// What has to be done for a frame while the agent answers.
#[derive(Clone, Debug, PartialEq, Eq)]
pub enum ChatStep {
    Nothing,
    /// To print a piece of the answer.
    Print(String),
    /// To tell of a tool, apart from the answer.
    Note(String),
    /// To ask the user whether a tool may be used.
    Approve { id: String, prompt: String },
    /// The answer is complete: to end its line, or to print it where nothing of it has
    /// been printed.
    Finish { end_line: bool, content: Option<String> },
    /// It failed: to end the line of the answer, and to say why.
    Fail { end_line: bool, message: String },
}

/// The mathematical value of a [`ChatStep`].
pub enum ChatStepView {
    Nothing,
    Print(Seq<char>),
    Note(Seq<char>),
    Approve { id: Seq<char>, prompt: Seq<char> },
    Finish { end_line: bool, content: Option<Seq<char>> },
    Fail { end_line: bool, message: Seq<char> },
}

impl View for ChatStep {
    type V = ChatStepView;

    open spec fn view(&self) -> ChatStepView {
        match *self {
            ChatStep::Nothing => ChatStepView::Nothing,
            ChatStep::Print(text) => ChatStepView::Print(text@),
            ChatStep::Note(text) => ChatStepView::Note(text@),
            ChatStep::Approve { id, prompt } => ChatStepView::Approve { id: id@, prompt: prompt@ },
            ChatStep::Finish { end_line, content } => ChatStepView::Finish {
                end_line,
                content: match content {
                    Some(text) => Some(text@),
                    None => None,
                },
            },
            ChatStep::Fail { end_line, message } => ChatStepView::Fail {
                end_line,
                message: message@,
            },
        }
    }
}

/// A text, or what is said where there is none.
pub open spec fn text_or(text: Option<Seq<char>>, default: Seq<char>) -> Seq<char> {
    match text {
        Some(text) => text,
        None => default,
    }
}

/// What an approval event asks the user.
pub open spec fn approval_step(data: JsonView) -> ChatStepView {
    match data.get("approval"@) {
        None => ChatStepView::Fail { end_line: false, message: "审批事件缺少 approval"@ },
        Some(approval) => match approval.field("id"@).text() {
            None => ChatStepView::Fail { end_line: false, message: "审批事件缺少 id"@ },
            Some(id) => match approval.field("prompt"@).text() {
                None => ChatStepView::Fail { end_line: false, message: "审批事件缺少 prompt"@ },
                Some(prompt) => ChatStepView::Approve { id, prompt },
            },
        },
    }
}

/// What has to be done for a frame, where some of the answer has been printed or none.
pub open spec fn chat_step(frame: FrameView, printed: bool) -> ChatStepView {
    match frame {
        FrameView::Event { event, data, .. } => match event {
            EventKind::TextDelta => match data.field("delta"@).text() {
                Some(delta) => ChatStepView::Print(delta),
                None => ChatStepView::Nothing,
            },
            EventKind::ToolStarted => ChatStepView::Note(
                "\n[工具开始] "@ + text_or(data.field("name"@).text(), "unknown"@),
            ),
            EventKind::ToolFinished => ChatStepView::Note(
                "[工具完成] "@ + text_or(data.field("name"@).text(), "unknown"@),
            ),
            EventKind::ApprovalRequired => approval_step(data),
            EventKind::TurnStarted | EventKind::TurnCompleted => ChatStepView::Nothing,
        },
        FrameView::Response { result, error, .. } => match error {
            Some((code, message)) => ChatStepView::Fail {
                end_line: printed,
                message: rpc_failure(code, message),
            },
            None => ChatStepView::Finish {
                end_line: printed,
                content: if printed {
                    None
                } else {
                    match result {
                        Some(value) => value.field("content"@).text(),
                        None => None,
                    }
                },
            },
        },
    }
}

/// What is said of a request that failed.
pub open spec fn rpc_failure(code: i64, message: Seq<char>) -> Seq<char> {
    "daemon RPC "@ + signed_decimal(code as int) + ": "@ + message
}

fn rpc_failure_text(error: &RpcError) -> (text: String)
    ensures
        text@ == rpc_failure(error.code, error.message@),
{
    let mut text = "daemon RPC ".to_owned();
    text.append(signed_text(error.code).as_str());
    text.append(": ");
    text.append(error.message.as_str());
    text
}

fn field_text(data: &Json, key: &str) -> (text: Option<String>)
    ensures
        match text {
            Some(text) => data@.field(key@).text() == Some(text@),
            None => data@.field(key@).text() is None,
        },
{
    match data.get_text(key) {
        Some(text) => Some(text.to_owned()),
        None => None,
    }
}

fn tool_note(lead: &str, data: &Json) -> (step: ChatStep)
    ensures
        step@ == ChatStepView::Note(lead@ + text_or(data@.field("name"@).text(), "unknown"@)),
{
    let mut text = lead.to_owned();
    match data.get_text("name") {
        Some(name) => text.append(name),
        None => text.append("unknown"),
    }
    ChatStep::Note(text)
}

fn fail(message: &str) -> (step: ChatStep)
    ensures
        step@ == (ChatStepView::Fail { end_line: false, message: message@ }),
{
    ChatStep::Fail { end_line: false, message: message.to_owned() }
}

fn ask(data: &Json) -> (step: ChatStep)
    ensures
        step@ == approval_step(data@),
{
    let approval = match data.get("approval") {
        Some(approval) => approval,
        None => return fail("审批事件缺少 approval"),
    };
    match field_text(approval, "id") {
        None => fail("审批事件缺少 id"),
        Some(id) => match field_text(approval, "prompt") {
            None => fail("审批事件缺少 prompt"),
            Some(prompt) => ChatStep::Approve { id, prompt },
        },
    }
}

/// What has to be done for a frame while the agent answers, where some of the answer
/// has been printed or none.
pub fn run_chat(frame: &ServerFrame, printed: bool) -> (step: ChatStep)
    ensures
        step@ == chat_step(frame@, printed),
{
    match frame {
        ServerFrame::Event(event) => match event.event {
            EventKind::TextDelta => match field_text(&event.data, "delta") {
                Some(delta) => ChatStep::Print(delta),
                None => ChatStep::Nothing,
            },
            EventKind::ToolStarted => tool_note("\n[工具开始] ", &event.data),
            EventKind::ToolFinished => tool_note("[工具完成] ", &event.data),
            EventKind::ApprovalRequired => ask(&event.data),
            EventKind::TurnStarted => ChatStep::Nothing,
            EventKind::TurnCompleted => ChatStep::Nothing,
        },
        ServerFrame::Response(response) => match &response.error {
            Some(error) => ChatStep::Fail { end_line: printed, message: rpc_failure_text(error) },
            None => {
                let content = if printed {
                    None
                } else {
                    match &response.result {
                        Some(value) => field_text(value, "content"),
                        None => None,
                    }
                };
                ChatStep::Finish { end_line: printed, content }
            },
        },
    }
}

/// An answer that came in pieces is not printed once more when it is complete.
pub proof fn law_streamed_answer_is_printed_once(frame: FrameView)
    ensures
        !(chat_step(frame, true) matches ChatStepView::Finish { content, .. } && content is Some),
{
}

/// What the daemon's answer to a request brings, or what is said of its failure.
pub fn require_result(response: &JsonRpcResponse) -> (out: Result<Json, String>)
    ensures
        match response.error {
            Some(error) => out matches Err(message) && message@ == rpc_failure(
                error.code,
                error.message@,
            ),
            None => match response.result {
                Some(value) => out matches Ok(result) && result@ == value@,
                None => out matches Err(message) && message@ == "daemon 响应缺少 result"@,
            },
        },
{
    match &response.error {
        Some(error) => Err(rpc_failure_text(error)),
        None => match &response.result {
            Some(value) => Ok(value.copy()),
            None => Err("daemon 响应缺少 result".to_owned()),
        },
    }
}

/// The line of a session in the list.
pub open spec fn session_line(session: JsonView) -> Seq<char> {
    (if session.field("active"@).truth() == Some(true) {
        "*"@
    } else {
        " "@
    }) + " "@ + text_or(session.field("id"@).text(), "unknown"@) + " · "@ + decimal(
        match session.field("message_count"@).unsigned() {
            Some(n) => n as nat,
            None => 0,
        },
    ) + " 条消息 · "@ + text_or(session.field("path"@).text(), "unknown"@)
}

fn session_line_text(session: &Json) -> (line: String)
    ensures
        line@ == session_line(session@),
{
    let active = match session.get("active") {
        Some(value) => match value.as_bool() {
            Some(truth) => truth,
            None => false,
        },
        None => false,
    };
    let count = match session.get("message_count") {
        Some(value) => match value.as_u64() {
            Some(n) => n,
            None => 0,
        },
        None => 0,
    };
    let mut line = if active {
        "*".to_owned()
    } else {
        " ".to_owned()
    };
    line.append(" ");
    match session.get_text("id") {
        Some(id) => line.append(id),
        None => line.append("unknown"),
    }
    line.append(" · ");
    line.append(decimal_text(count as u128).as_str());
    line.append(" 条消息 · ");
    match session.get_text("path") {
        Some(path) => line.append(path),
        None => line.append("unknown"),
    }
    line
}

/// The lines of the list of sessions, or why there is none.
pub fn print_sessions(result: &Json) -> (out: Result<Vec<String>, String>)
    ensures
        match result@.field("sessions"@).items() {
            None => out matches Err(message) && message@ == "会话列表格式无效"@,
            Some(sessions) => out matches Ok(lines) && if sessions.len() == 0 {
                lines@.len() == 1 && lines@[0]@ == "暂无会话记录。"@
            } else {
                lines@.len() == sessions.len() && forall|i: int|
                    0 <= i < lines@.len() ==> (#[trigger] lines@[i])@ == session_line(sessions[i])
            },
        },
{
    let sessions = match result.get("sessions") {
        Some(value) => match value {
            Json::List(sessions) => sessions,
            _ => return Err("会话列表格式无效".to_owned()),
        },
        None => return Err("会话列表格式无效".to_owned()),
    };
    let mut lines: Vec<String> = Vec::new();
    proof {
        lemma_json_views(sessions@);
    }
    if sessions.len() == 0 {
        lines.push("暂无会话记录。".to_owned());
        return Ok(lines);
    }
    let mut at: usize = 0;
    while at < sessions.len()
        invariant
            at == lines.len(),
            at <= sessions.len(),
            json_views(sessions@).len() == sessions@.len(),
            forall|i: int|
                0 <= i < sessions@.len() ==> #[trigger] json_views(sessions@)[i] == sessions@[i]@,
            forall|i: int|
                0 <= i < at ==> (#[trigger] lines@[i])@ == session_line(json_views(sessions@)[i]),
        decreases sessions.len() - at,
    {
        lines.push(session_line_text(&sessions[at]));
        at += 1;
    }
    Ok(lines)
}

/// How a session is, in words.
pub fn print_session_status(result: &Json) -> (text: String)
    ensures
        text@ == "历史 "@ + decimal(result@.field("messages"@).count()) + " 条，活动请求 "@ + decimal(
            result@.field("active_requests"@).count(),
        ) + " 个，待审批 "@ + decimal(result@.field("pending_approvals"@).count()) + " 个。"@,
{
    let mut text = "历史 ".to_owned();
    text.append(decimal_text(result.count_at("messages") as u128).as_str());
    text.append(" 条，活动请求 ");
    text.append(decimal_text(result.count_at("active_requests") as u128).as_str());
    text.append(" 个，待审批 ");
    text.append(decimal_text(result.count_at("pending_approvals") as u128).as_str());
    text.append(" 个。");
    text
}

/// What is said of a new session.
pub fn create_session(result: &Json) -> (text: String)
    ensures
        text@ == (match result@.field("backup"@).text() {
            Some(path) => "已新建会话；旧会话备份到 "@ + path,
            None => "已新建会话。"@,
        }),
{
    match result.get_text("backup") {
        Some(path) => {
            let mut text = "已新建会话；旧会话备份到 ".to_owned();
            text.append(path);
            text
        },
        None => "已新建会话。".to_owned(),
    }
}

/// What the user is asked before a tool is used.
pub fn approval_prompt(prompt: &str) -> (text: String)
    ensures
        text@ == "\n需要审批："@ + prompt@ + "\n允许执行？[y/N] "@,
{
    let mut text = "\n需要审批：".to_owned();
    text.append(prompt);
    text.append("\n允许执行？[y/N] ");
    text
}

/// Whether an answer to that question allows it. Anything but a yes does not.
pub fn ask_approval(answer: &str) -> (approved: bool)
    ensures
        approved <==> ascii_lower_text(trim(answer@)) == "y"@ || ascii_lower_text(trim(answer@))
            == "yes"@,
{
    let lower = to_ascii_lowercase(trimmed(answer).as_str());
    same_text(lower.as_str(), "y") || same_text(lower.as_str(), "yes")
}

/// What is typed without a slash goes to the agent as it is, whatever it is; with a slash it
/// never does.
pub proof fn law_only_commands_are_kept_from_the_agent(step: ReplStep, input: Seq<char>)
    requires
        is_repl_step(step, input),
    ensures
        input.len() > 0 && input[0] != '/' ==> (step matches ReplStep::Chat(text) && text@ == input),
        input.len() > 0 && input[0] == '/' ==> !(step is Chat),
        input.len() == 0 ==> step is Skip,
        input == "/exit"@ || input == "/quit"@ ==> step is Quit,
        input == "/new"@ ==> step is New,
        input == "/status"@ ==> step is Status,
        input == "/sessions"@ ==> step is Sessions,
        input == "/help"@ ==> step is Help,
{
    reveal_strlit("");
    reveal_strlit("/");
    reveal_strlit("/exit");
    reveal_strlit("/quit");
    reveal_strlit("/help");
    reveal_strlit("/status");
    reveal_strlit("/sessions");
    reveal_strlit("/new");
    reveal_strlit("/cancel");
    assert(input.len() == 0 ==> input =~= ""@);
    if input.len() > 0 {
        assert(input.take(1)[0] == input[0]);
        assert(input[0] == '/' ==> input.take(1) =~= "/"@);
        assert("/"@[0] == '/');
    }
    assert("/exit"@.len() == 5 && "/quit"@.len() == 5 && "/help"@.len() == 5 && "/status"@.len()
        == 7 && "/sessions"@.len() == 9 && "/new"@.len() == 4 && "/cancel"@.len() == 7);
    assert("/exit"@[0] == '/' && "/quit"@[0] == '/' && "/help"@[0] == '/' && "/status"@[0] == '/'
        && "/sessions"@[0] == '/' && "/new"@[0] == '/' && "/cancel"@[0] == '/');
    assert("/exit"@[1] == 'e' && "/quit"@[1] == 'q' && "/help"@[1] == 'h');
    assert("/status"@[1] == 's' && "/cancel"@[1] == 'c');
}

/// Every piece of the answer is printed as it comes; the whole answer only where no piece
/// has been; what fails is told with its code and its message.
pub proof fn law_answer_is_printed_as_it_comes(frame: FrameView, printed: bool)
    ensures
        frame matches FrameView::Event { event, data, .. } ==> (event == EventKind::TextDelta
            && data.field("delta"@) is Text ==> chat_step(frame, printed) == ChatStepView::Print(
            data.field("delta"@)->Text_0,
        )),
        frame matches FrameView::Response { result: Some(value), error: None, .. } ==> (
        value.field("content"@) is Text && !printed ==> chat_step(frame, printed)
            == (ChatStepView::Finish {
            end_line: false,
            content: Some(value.field("content"@)->Text_0),
        })),
        frame matches FrameView::Response { error: None, .. } ==> (printed ==> chat_step(
            frame,
            printed,
        ) == (ChatStepView::Finish { end_line: true, content: None })),
        frame matches FrameView::Response { error: Some((code, message)), .. } ==> chat_step(
            frame,
            printed,
        ) == (ChatStepView::Fail {
            end_line: printed,
            message: "daemon RPC "@ + signed_decimal(code as int) + ": "@ + message,
        }),
        frame matches FrameView::Event { event, data, .. } ==> (event
            == EventKind::ApprovalRequired && data.field("approval"@).field("id"@) is Text
            && data.field("approval"@).field("prompt"@) is Text ==> chat_step(frame, printed)
            == (ChatStepView::Approve {
            id: data.field("approval"@).field("id"@)->Text_0,
            prompt: data.field("approval"@).field("prompt"@)->Text_0,
        })),
        frame matches FrameView::Event { event, data, .. } ==> (event == EventKind::ToolStarted
            && data.field("name"@) is Text ==> chat_step(frame, printed) == ChatStepView::Note(
            "\n[工具开始] "@ + data.field("name"@)->Text_0,
        )),
        frame matches FrameView::Event { event, data, .. } ==> (event == EventKind::ToolFinished
            && data.field("name"@) is Text ==> chat_step(frame, printed) == ChatStepView::Note(
            "[工具完成] "@ + data.field("name"@)->Text_0,
        )),
{
    if let FrameView::Event { event, data, .. } = frame {
        if data.get("approval"@) is None {
            assert(data.field("approval"@) == JsonView::Null);
        }
    }
}

/// A session is listed with its mark, its name, its messages and its place.
pub proof fn law_session_line_shows_the_session(
    session: JsonView,
    id: Seq<char>,
    count: u64,
    path: Seq<char>,
)
    requires
        session.field("id"@) == JsonView::Text(id),
        session.field("message_count"@) == JsonView::Unsigned(count),
        session.field("path"@) == JsonView::Text(path),
    ensures
        session.field("active"@) == JsonView::Bool(true) ==> session_line(session) == "*"@ + " "@
            + id + " · "@ + decimal(count as nat) + " 条消息 · "@ + path,
        session.field("active"@) != JsonView::Bool(true) ==> session_line(session) == " "@ + " "@
            + id + " · "@ + decimal(count as nat) + " 条消息 · "@ + path,
{
}

/// Only a plain yes approves.
pub proof fn law_only_yes_approves(answer: &str, approved: bool)
    requires
        call_ensures(ask_approval, (answer,), approved),
    ensures
        approved <==> ascii_lower_text(trim(answer@)) == "y"@ || ascii_lower_text(trim(answer@))
            == "yes"@,
        trim(answer@).len() == 0 ==> !approved,
{
    reveal_strlit("y");
    reveal_strlit("yes");
    assert("y"@.len() == 1 && "yes"@.len() == 3);
}

/// A result is handed on as it is; an answer with an error is an error, and so is one
/// without a result.
pub proof fn law_results_are_handed_on(response: &JsonRpcResponse, out: Result<Json, String>)
    requires
        call_ensures(require_result, (response,), out),
    ensures
        out is Ok <==> response.error is None && response.result is Some,
        out matches Ok(value) ==> value@ == (response.result->0)@,
        response.error matches Some(error) ==> out is Err && (out->Err_0)@ == "daemon RPC "@
            + signed_decimal(error.code as int) + ": "@ + error.message@,
{
}

/// Every session of a list is printed on a line of its own.
pub proof fn law_every_session_is_printed(
    result: &Json,
    out: Result<Vec<String>, String>,
    sessions: Seq<JsonView>,
    i: int,
)
    requires
        call_ensures(print_sessions, (result,), out),
        result@.field("sessions"@) == JsonView::List(sessions),
        0 <= i < sessions.len(),
    ensures
        out is Ok && (out->Ok_0)@.len() == sessions.len() && ((out->Ok_0)@[i])@ == session_line(
            sessions[i],
        ),
{
}

} // verus!

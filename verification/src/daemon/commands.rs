//! The commands that the daemon carries out for a user.
use vstd::prelude::*;

use super::handlers::INVALID_PARAMS;
use crate::json::{Json, JsonView};
use crate::mcp::{server_views, McpServerStatus, McpStatus, ServerStatusView};
use crate::number::{
    decimal, decimal_text, number_trouble, number_trouble_text, parse_number, parse_u32, parse_u64,
    parse_usize,
};
use crate::session::SessionInfo;
use crate::skills::{label, InstallOutcome, SkillInfo};
use crate::slash::{
    builtin_commands, help_lines, parse_line, SlashAction, SlashParse, SlashParseView,
    SlashRegistry, SlashResponse,
};
use crate::text::{
    after_prefix, contains_text, join, join_with, occurs_at, opt_text, same_text, strip_prefix, texts,
};

verus! {

/// What has to be done for a command.
#[derive(Debug)]
pub enum SlashStep {
    /// Nothing but to answer.
    Reply(SlashResponse),
    /// To say how the session is.
    Status,
    /// To list all sessions.
    Sessions,
    /// To list the sessions that can be resumed.
    Choose,
    /// To resume the session that is named, or the one with a number.
    Resume(String),
    /// To start a new session.
    New,
    Skill(Vec<String>),
    Cron(Vec<String>),
    Mcp(Vec<String>),
    Dogfood,
}

/// Whether an answer is some text.
pub open spec fn is_text(response: SlashResponse, text: Seq<char>) -> bool {
    response matches SlashResponse::Text { content } && content@ == text
}

/// Whether a step is what a line of input asks for.
pub open spec fn is_step(step: SlashStep, parsed: SlashParseView) -> bool {
    match parsed {
        SlashParseView::NotCommand => step matches SlashStep::Reply(response) && is_text(
            response,
            "输入不是 slash 命令"@,
        ),
        SlashParseView::Error(text) => step matches SlashStep::Reply(response) && is_text(
            response,
            text,
        ),
        SlashParseView::Command(action, args) => match action {
            SlashAction::Help => step matches SlashStep::Reply(response) && is_text(
                response,
                join_with(help_lines(builtin_commands()), "\n"@),
            ),
            SlashAction::Status => step == SlashStep::Status,
            SlashAction::Sessions => step == SlashStep::Sessions,
            SlashAction::Resume => if args.len() == 0 {
                step == SlashStep::Choose
            } else {
                step matches SlashStep::Resume(selection) && selection@ == args[0]
            },
            SlashAction::New => step == SlashStep::New,
            SlashAction::Cancel => step matches SlashStep::Reply(response) && is_text(
                response,
                "当前没有前台请求；运行中按 Ctrl-C 可取消本轮。"@,
            ),
            SlashAction::Skill => step matches SlashStep::Skill(list) && texts(list@) == args,
            SlashAction::Cron => step matches SlashStep::Cron(list) && texts(list@) == args,
            SlashAction::Mcp => step matches SlashStep::Mcp(list) && texts(list@) == args,
            SlashAction::Ping => step matches SlashStep::Reply(response) && is_text(response, "pong"@),
            SlashAction::Dogfood => step == SlashStep::Dogfood,
            SlashAction::Web => step matches SlashStep::Reply(response) && is_text(
                response,
                "请在 TUI 中使用 /web，或运行 `my-agent serve`。"@,
            ),
            SlashAction::Exit => step == SlashStep::Reply(SlashResponse::Exit),
        },
    }
}

fn reply(text: &str) -> (step: SlashStep)
    ensures
        step matches SlashStep::Reply(response) && is_text(response, text@),
{
    SlashStep::Reply(SlashResponse::Text { content: text.to_owned() })
}

/// What has to be done for a line of input.
pub fn execute_slash(line: &str) -> (step: SlashStep)
    ensures
        is_step(step, parse_line(builtin_commands(), line@)),
{
    let registry = SlashRegistry::builtin();
    let invocation = match registry.parse(line) {
        SlashParse::NotCommand => return reply("输入不是 slash 命令"),
        SlashParse::Error(content) => {
            return SlashStep::Reply(SlashResponse::Text { content });
        },
        SlashParse::Command(invocation) => invocation,
    };
    let mut args = invocation.args;
    match invocation.action {
        SlashAction::Help => {
            SlashStep::Reply(SlashResponse::Text { content: registry.help() })
        },
        SlashAction::Status => SlashStep::Status,
        SlashAction::Sessions => SlashStep::Sessions,
        SlashAction::Resume => {
            if args.len() == 0 {
                SlashStep::Choose
            } else {
                assert(texts(args@)[0] == args@[0]@);
                SlashStep::Resume(args.remove(0))
            }
        },
        SlashAction::New => SlashStep::New,
        SlashAction::Cancel => reply("当前没有前台请求；运行中按 Ctrl-C 可取消本轮。"),
        SlashAction::Skill => SlashStep::Skill(args),
        SlashAction::Cron => SlashStep::Cron(args),
        SlashAction::Mcp => SlashStep::Mcp(args),
        SlashAction::Ping => reply("pong"),
        SlashAction::Dogfood => SlashStep::Dogfood,
        SlashAction::Web => reply("请在 TUI 中使用 /web，或运行 `my-agent serve`。"),
        SlashAction::Exit => SlashStep::Reply(SlashResponse::Exit),
    }
}

/// How a session is, in words.
pub open spec fn status_text(snapshot: JsonView) -> Seq<char> {
    "会话 "@ + (match snapshot.field("session_id"@).text() {
        Some(id) => id,
        None => "unknown"@,
    }) + " · 历史 "@ + decimal(snapshot.field("messages"@).count()) + " 条 · 活动请求 "@ + decimal(
        snapshot.field("active_requests"@).count(),
    ) + " 个 · 待审批 "@ + decimal(snapshot.field("pending_approvals"@).count()) + " 个"@
}

/// The answer to a question how a session is.
pub fn status_response(snapshot: &Json) -> (response: SlashResponse)
    ensures
        is_text(response, status_text(snapshot@)),
{
    let mut text = "会话 ".to_owned();
    text.append(
        match snapshot.get_text("session_id") {
            Some(id) => id,
            None => "unknown",
        },
    );
    text.append(" · 历史 ");
    text.append(decimal_text(snapshot.count_at("messages") as u128).as_str());
    text.append(" 条 · 活动请求 ");
    text.append(decimal_text(snapshot.count_at("active_requests") as u128).as_str());
    text.append(" 个 · 待审批 ");
    text.append(decimal_text(snapshot.count_at("pending_approvals") as u128).as_str());
    text.append(" 个");
    SlashResponse::Text { content: text }
}

/// The sessions that can be resumed: those that hold something.
pub open spec fn filled_sessions(sessions: Seq<SessionInfo>) -> Seq<SessionInfo>
    decreases sessions.len(),
{
    if sessions.len() == 0 {
        Seq::empty()
    } else if sessions.last().message_count > 0 {
        filled_sessions(sessions.drop_last()).push(sessions.last())
    } else {
        filled_sessions(sessions.drop_last())
    }
}

/// The sessions that can be resumed.
pub fn resumable(sessions: Vec<SessionInfo>) -> (out: Vec<SessionInfo>)
    ensures
        out@ == filled_sessions(sessions@),
{
    let ghost all = sessions@;
    let mut out: Vec<SessionInfo> = Vec::new();
    assert(out@ =~= filled_sessions(all.take(0)));
    for session in iter: sessions
        invariant
            iter.seq() == all,
            out@ == filled_sessions(all.take(iter.index() as int)),
    {
        assert(all.take(iter.index() + 1).drop_last() =~= all.take(iter.index() as int));
        assert(all.take(iter.index() + 1).last() == session);
        if session.message_count > 0 {
            out.push(session);
        }
    }
    assert(all.take(all.len() as int) =~= all);
    out
}

/// Nothing that is empty can be resumed.
pub proof fn law_only_filled_sessions_can_be_resumed(sessions: Seq<SessionInfo>, i: int)
    requires
        0 <= i < filled_sessions(sessions).len(),
    ensures
        filled_sessions(sessions)[i].message_count > 0,
        sessions.contains(filled_sessions(sessions)[i]),
    decreases sessions.len(),
{
    let front = sessions.drop_last();
    let before = filled_sessions(front);
    if i < before.len() {
        law_only_filled_sessions_can_be_resumed(front, i);
        let k = choose|k: int| 0 <= k < front.len() && front[k] == before[i];
        assert(sessions[k] == before[i]);
    } else {
        assert(sessions[sessions.len() - 1] == sessions.last());
    }
}

/// The session that a selection means: by its number from one on, or by its id.
pub open spec fn selected_session(sessions: Seq<SessionInfo>, selection: Seq<char>) -> Result<
    Seq<char>,
    (i64, Seq<char>),
> {
    match parse_number(selection, usize::MAX as nat) {
        Some(n) => if n == 0 {
            Err((INVALID_PARAMS, "会话编号从 1 开始"@))
        } else if n <= sessions.len() {
            Ok(sessions[n - 1].id@)
        } else {
            Err((INVALID_PARAMS, "会话编号超出范围："@ + decimal(n)))
        },
        None => Ok(selection),
    }
}

/// The session that a selection means.
pub fn resume_target(sessions: &Vec<SessionInfo>, selection: &str) -> (out: Result<
    String,
    (i64, String),
>)
    ensures
        match out {
            Ok(id) => selected_session(sessions@, selection@) == Ok::<
                Seq<char>,
                (i64, Seq<char>),
            >(id@),
            Err((code, message)) => selected_session(sessions@, selection@) == Err::<
                Seq<char>,
                (i64, Seq<char>),
            >((code, message@)),
        },
{
    match parse_usize(selection) {
        Some(n) => {
            if n == 0 {
                return Err((INVALID_PARAMS, "会话编号从 1 开始".to_owned()));
            }
            if n <= sessions.len() {
                return Ok(sessions[n - 1].id.clone());
            }
            let mut message = "会话编号超出范围：".to_owned();
            message.append(decimal_text(n as u128).as_str());
            Err((INVALID_PARAMS, message))
        },
        None => Ok(selection.to_owned()),
    }
}

/// The answer that a session has been resumed.
pub fn resumed_response(session_id: &str, snapshot: Json) -> (response: SlashResponse)
    ensures
        response matches SlashResponse::SessionChanged { message, snapshot: shown } && shown
            == snapshot && message@ == "已恢复会话 "@ + session_id@ + "，共 "@ + decimal(
            snapshot@.field("messages"@).count(),
        ) + " 条消息。"@,
{
    let mut message = "已恢复会话 ".to_owned();
    message.append(session_id);
    message.append("，共 ");
    message.append(decimal_text(snapshot.count_at("messages") as u128).as_str());
    message.append(" 条消息。");
    SlashResponse::SessionChanged { message, snapshot }
}

/// The answer that a session has been started.
pub fn new_response(snapshot: Json) -> (response: SlashResponse)
    ensures
        response matches SlashResponse::SessionChanged { message, snapshot: shown } && shown
            == snapshot && message@ == "已新建会话："@ + (match snapshot@.field("session_id"@).text() {
            Some(id) => id,
            None => "unknown"@,
        }),
{
    let mut message = "已新建会话：".to_owned();
    message.append(
        match snapshot.get_text("session_id") {
            Some(id) => id,
            None => "unknown",
        },
    );
    SlashResponse::SessionChanged { message, snapshot }
}

/// The answer that a report has been written.
pub fn dogfood_response(path: &str) -> (response: SlashResponse)
    ensures
        is_text(response, "dogfood 已生成："@ + path@),
{
    let mut content = "dogfood 已生成：".to_owned();
    content.append(path);
    SlashResponse::Text { content }
}

/// What has to be done for a command on skills.
#[derive(Debug, PartialEq, Eq)]
pub enum SkillStep {
    /// Nothing: this is the answer.
    Reply(String),
    List,
    Install { path: String, force: bool },
    Update { name: String, path: String },
    Remove { name: String, confirmed: bool },
}

/// The mathematical value of a [`SkillStep`].
pub enum SkillStepView {
    Reply(Seq<char>),
    List,
    Install { path: Seq<char>, force: bool },
    Update { name: Seq<char>, path: Seq<char> },
    Remove { name: Seq<char>, confirmed: bool },
}

impl View for SkillStep {
    type V = SkillStepView;

    open spec fn view(&self) -> SkillStepView {
        match *self {
            SkillStep::Reply(text) => SkillStepView::Reply(text@),
            SkillStep::List => SkillStepView::List,
            SkillStep::Install { path, force } => SkillStepView::Install { path: path@, force },
            SkillStep::Update { name, path } => SkillStepView::Update { name: name@, path: path@ },
            SkillStep::Remove { name, confirmed } => SkillStepView::Remove { name: name@, confirmed },
        }
    }
}

/// What has to be done for a command on skills.
pub open spec fn skill_step(args: Seq<Seq<char>>, enabled: bool) -> SkillStepView {
    let n = args.len() as int;
    if !enabled {
        SkillStepView::Reply("当前 daemon 未启用 skill 管理器。"@)
    } else if n == 1 && args[0] == "list"@ {
        SkillStepView::List
    } else if n >= 2 && args[0] == "install"@ {
        let force = args[n - 1] == "--force"@;
        let path = join_with(
            args.subrange(
                1,
                if force {
                    n - 1
                } else {
                    n
                },
            ),
            " "@,
        );
        if path.len() == 0 {
            SkillStepView::Reply("Skill 命令失败：用法：/skill install <路径> [--force]"@)
        } else {
            SkillStepView::Install { path, force }
        }
    } else if n >= 3 && args[0] == "update"@ {
        SkillStepView::Update { name: args[1], path: join_with(args.subrange(2, n), " "@) }
    } else if n >= 2 && args[0] == "remove"@ {
        if n > 3 {
            SkillStepView::Reply("Skill 命令失败：用法：/skill remove <name> --confirm"@)
        } else {
            SkillStepView::Remove { name: args[1], confirmed: n == 3 && args[2] == "--confirm"@ }
        }
    } else {
        SkillStepView::Reply(
            "Skill 命令失败：用法：/skill list | install <路径> [--force] | update <name> <路径> | remove <name> --confirm"@,
        )
    }
}

fn join_part(args: &Vec<String>, from: usize, to: usize) -> (out: String)
    requires
        from <= to <= args.len(),
    ensures
        out@ == join_with(texts(args@).subrange(from as int, to as int), " "@),
{
    let mut part: Vec<String> = Vec::new();
    let mut at = from;
    while at < to
        invariant
            from <= at <= to <= args.len(),
            part.len() == at - from,
            forall|i: int| 0 <= i < part@.len() ==> (#[trigger] part@[i])@ == args@[from + i]@,
        decreases to - at,
    {
        part.push(args[at].clone());
        at += 1;
    }
    assert(texts(part@) =~= texts(args@).subrange(from as int, to as int));
    join(&part, " ")
}

/// What has to be done for a command on skills.
pub fn execute_skill_command(args: &Vec<String>, enabled: bool) -> (step: SkillStep)
    ensures
        step@ == skill_step(texts(args@), enabled),
{
    let n = args.len();
    if !enabled {
        return SkillStep::Reply("当前 daemon 未启用 skill 管理器。".to_owned());
    }
    if n == 1 && same_text(args[0].as_str(), "list") {
        assert(texts(args@)[0] == args@[0]@);
        return SkillStep::List;
    }
    if n >= 2 && same_text(args[0].as_str(), "install") {
        assert(texts(args@)[0] == args@[0]@);
        let force = same_text(args[n - 1].as_str(), "--force");
        assert(texts(args@)[n - 1] == args@[n - 1]@);
        let path = if force {
            join_part(args, 1, n - 1)
        } else {
            join_part(args, 1, n)
        };
        proof {
            reveal_strlit("");
            assert(path@.len() == 0 ==> path@ =~= ""@);
        }
        if same_text(path.as_str(), "") {
            return SkillStep::Reply("Skill 命令失败：用法：/skill install <路径> [--force]".to_owned());
        }
        return SkillStep::Install { path, force };
    }
    if n >= 3 && same_text(args[0].as_str(), "update") {
        assert(texts(args@)[0] == args@[0]@);
        assert(texts(args@)[1] == args@[1]@);
        return SkillStep::Update { name: args[1].clone(), path: join_part(args, 2, n) };
    }
    if n >= 2 && same_text(args[0].as_str(), "remove") {
        assert(texts(args@)[0] == args@[0]@);
        assert(texts(args@)[1] == args@[1]@);
        if n > 3 {
            return SkillStep::Reply("Skill 命令失败：用法：/skill remove <name> --confirm".to_owned());
        }
        let confirmed = n == 3 && same_text(args[2].as_str(), "--confirm");
        assert(n == 3 ==> texts(args@)[2] == args@[2]@);
        return SkillStep::Remove { name: args[1].clone(), confirmed };
    }
    assert(n > 0 ==> texts(args@)[0] == args@[0]@);
    SkillStep::Reply(
        "Skill 命令失败：用法：/skill list | install <路径> [--force] | update <name> <路径> | remove <name> --confirm".to_owned(),
    )
}

/// The answer to a command of which something came, or why nothing did.
pub open spec fn command_reply(prefix: Seq<char>, result: Result<String, String>) -> Seq<char> {
    match result {
        Ok(content) => content@,
        Err(error) => prefix + error@,
    }
}

/// The answer to a command on skills.
pub fn skill_reply(result: Result<String, String>) -> (response: SlashResponse)
    ensures
        is_text(response, command_reply("Skill 命令失败："@, result)),
{
    match result {
        Ok(content) => SlashResponse::Text { content },
        Err(error) => {
            let mut content = "Skill 命令失败：".to_owned();
            content.append(error.as_str());
            SlashResponse::Text { content }
        },
    }
}

/// What is said of the skills that have been installed or passed over.
pub open spec fn outcome_list(outcomes: Seq<InstallOutcome>) -> Seq<char> {
    join_with(Seq::new(outcomes.len(), |i: int| outcomes[i].words()), "\n"@)
}

/// What is said of the skills that have been installed or passed over.
pub fn outcome_list_text(outcomes: &Vec<InstallOutcome>) -> (text: String)
    ensures
        text@ == outcome_list(outcomes@),
{
    let ghost lines = Seq::new(outcomes@.len(), |i: int| outcomes@[i].words());
    let mut list: Vec<String> = Vec::new();
    let mut at: usize = 0;
    while at < outcomes.len()
        invariant
            at == list.len(),
            at <= outcomes.len(),
            forall|i: int| 0 <= i < at ==> (#[trigger] list@[i])@ == outcomes@[i].words(),
        decreases outcomes.len() - at,
    {
        list.push(outcomes[at].text());
        at += 1;
    }
    assert(texts(list@) =~= lines);
    join(&list, "\n")
}

/// The line of a skill in the list.
pub open spec fn skill_line(info: SkillInfo) -> Seq<char> {
    label(info.name@, info.version@) + "："@ + info.description@
}

/// The list of the skills in words.
pub open spec fn skill_list(infos: Seq<SkillInfo>) -> Seq<char> {
    if infos.len() == 0 {
        "暂无已安装 skill。"@
    } else {
        join_with(Seq::new(infos.len(), |i: int| skill_line(infos[i])), "\n"@)
    }
}

/// The list of the skills in words.
pub fn skill_list_text(infos: &Vec<SkillInfo>) -> (text: String)
    ensures
        text@ == skill_list(infos@),
{
    if infos.len() == 0 {
        return "暂无已安装 skill。".to_owned();
    }
    let ghost lines = Seq::new(infos@.len(), |i: int| skill_line(infos@[i]));
    let mut list: Vec<String> = Vec::new();
    let mut at: usize = 0;
    while at < infos.len()
        invariant
            at == list.len(),
            at <= infos.len(),
            forall|i: int| 0 <= i < at ==> (#[trigger] list@[i])@ == skill_line(infos@[i]),
        decreases infos.len() - at,
    {
        let info = &infos[at];
        let mut line = info.name.clone();
        line.append("@");
        line.append(info.version.text().as_str());
        line.append("：");
        line.append(info.description.as_str());
        list.push(line);
        at += 1;
    }
    assert(texts(list@) =~= lines);
    join(&list, "\n")
}

/// When a task runs.
#[derive(Clone, Debug, PartialEq, Eq)]
pub enum ScheduleSpec {
    Interval { seconds: u64 },
    Cron { expression: String },
}

/// The mathematical value of a [`ScheduleSpec`].
pub enum ScheduleView {
    Interval(u64),
    Cron(Seq<char>),
}

impl View for ScheduleSpec {
    type V = ScheduleView;

    open spec fn view(&self) -> ScheduleView {
        match *self {
            ScheduleSpec::Interval { seconds } => ScheduleView::Interval(seconds),
            ScheduleSpec::Cron { expression } => ScheduleView::Cron(expression@),
        }
    }
}

/// A task to be added.
#[derive(Clone, Debug, PartialEq, Eq)]
pub struct CronAdd {
    pub name: String,
    pub schedule: ScheduleSpec,
    pub prompt: String,
    pub retries: u32,
    pub backoff: u64,
}

/// The mathematical value of a [`CronAdd`].
pub struct CronAddView {
    pub name: Seq<char>,
    pub schedule: ScheduleView,
    pub prompt: Seq<char>,
    pub retries: u32,
    pub backoff: u64,
}

impl View for CronAdd {
    type V = CronAddView;

    open spec fn view(&self) -> CronAddView {
        CronAddView {
            name: self.name@,
            schedule: self.schedule@,
            prompt: self.prompt@,
            retries: self.retries,
            backoff: self.backoff,
        }
    }
}

/// A text with spaces for its commas.
pub open spec fn spaced(s: Seq<char>) -> Seq<char> {
    Seq::new(
        s.len(),
        |i: int|
            if s[i] == ',' {
                ' '
            } else {
                s[i]
            },
    )
}

fn space_commas(text: &str) -> (out: String)
    ensures
        out@ == spaced(text@),
{
    let mut out = String::new();
    for ch in iter: text.chars()
        invariant
            iter.seq() == text@,
            out@ == spaced(text@).take(iter.index() as int),
    {
        if ch == ',' {
            out.push(' ');
        } else {
            out.push(ch);
        }
        assert(out@ =~= spaced(text@).take(iter.index() + 1));
    }
    assert(spaced(text@).take(text@.len() as int) =~= spaced(text@));
    out
}

/// What is said of a text that should stand for a number: what it should be, and why
/// it is not.
pub open spec fn number_complaint(wanted: Seq<char>, s: Seq<char>, max: nat) -> Seq<char> {
    match number_trouble(s, max) {
        Some(trouble) => wanted + ": "@ + trouble,
        None => wanted,
    }
}

fn complain_of_number(wanted: &str, text: &str, max: u64) -> (complaint: String)
    ensures
        complaint@ == number_complaint(wanted@, text@, max as nat),
{
    let mut complaint = wanted.to_owned();
    if let Some(trouble) = number_trouble_text(text, max) {
        complaint.append(": ");
        complaint.append(trouble);
    }
    complaint
}

/// When a task runs by its setting.
pub open spec fn schedule_of(setting: Seq<char>) -> Result<ScheduleView, Seq<char>> {
    match after_prefix(setting, "interval="@) {
        Some(seconds) => match parse_number(seconds, u64::MAX as nat) {
            Some(n) => Ok(ScheduleView::Interval(n as u64)),
            None => Err(number_complaint("interval 必须是正整数秒"@, seconds, u64::MAX as nat)),
        },
        None => match after_prefix(setting, "cron="@) {
            Some(expression) => Ok(ScheduleView::Cron(spaced(expression))),
            None => Err("schedule 必须是 interval=<秒> 或 cron=<分,时,日,月,周>"@),
        },
    }
}

/// The retries, the wait between them and the words of the prompt that some
/// arguments say, up to the `n`th.
pub open spec fn cron_options(args: Seq<Seq<char>>, n: int) -> Result<
    (u32, u64, Seq<Seq<char>>),
    Seq<char>,
>
    decreases n,
{
    if n <= 3 {
        Ok((0, 5, Seq::empty()))
    } else {
        match cron_options(args, n - 1) {
            Err(error) => Err(error),
            Ok((retries, backoff, prompt)) => match after_prefix(args[n - 1], "--retries="@) {
                Some(value) => match parse_number(value, u32::MAX as nat) {
                    Some(count) => Ok((count as u32, backoff, prompt)),
                    None => Err(number_complaint("--retries 必须是非负整数"@, value, u32::MAX as nat)),
                },
                None => match after_prefix(args[n - 1], "--backoff="@) {
                    Some(value) => match parse_number(value, u64::MAX as nat) {
                        Some(seconds) => Ok((retries, seconds as u64, prompt)),
                        None => Err(
                            number_complaint("--backoff 必须是非负整数秒"@, value, u64::MAX as nat),
                        ),
                    },
                    None => Ok((retries, backoff, prompt.push(args[n - 1]))),
                },
            },
        }
    }
}

/// The task that the arguments of a command describe.
pub open spec fn cron_task(args: Seq<Seq<char>>) -> Result<CronAddView, Seq<char>> {
    match schedule_of(args[2]) {
        Err(error) => Err(error),
        Ok(schedule) => match cron_options(args, args.len() as int) {
            Err(error) => Err(error),
            Ok((retries, backoff, prompt)) => if prompt.len() == 0 {
                Err("cron prompt 不能为空"@)
            } else {
                Ok(
                    CronAddView {
                        name: args[1],
                        schedule,
                        prompt: join_with(prompt, " "@),
                        retries,
                        backoff,
                    },
                )
            },
        },
    }
}

proof fn lemma_options_error(args: Seq<Seq<char>>, n: int, m: int)
    requires
        3 <= n <= m,
        cron_options(args, n) is Err,
    ensures
        cron_options(args, m) == cron_options(args, n),
    decreases m - n,
{
    if n < m {
        lemma_options_error(args, n, m - 1);
    }
}

/// The task that the arguments of a command describe: its name, its schedule, and
/// behind them its options and the words of its prompt.
pub fn parse_cron_add(args: &Vec<String>) -> (out: Result<CronAdd, String>)
    requires
        args@.len() >= 3,
    ensures
        match out {
            Ok(task) => cron_task(texts(args@)) == Ok::<CronAddView, Seq<char>>(task@),
            Err(error) => cron_task(texts(args@)) == Err::<CronAddView, Seq<char>>(error@),
        },
{
    let ghost all = texts(args@);
    assert(all[1] == args@[1]@);
    assert(all[2] == args@[2]@);
    let schedule = match strip_prefix(args[2].as_str(), "interval=") {
        Some(seconds) => match parse_u64(seconds.as_str()) {
            Some(seconds) => ScheduleSpec::Interval { seconds },
            None => {
                return Err(complain_of_number("interval 必须是正整数秒", seconds.as_str(), u64::MAX));
            },
        },
        None => match strip_prefix(args[2].as_str(), "cron=") {
            Some(expression) => ScheduleSpec::Cron { expression: space_commas(expression.as_str()) },
            None => {
                return Err("schedule 必须是 interval=<秒> 或 cron=<分,时,日,月,周>".to_owned());
            },
        },
    };
    let mut retries: u32 = 0;
    let mut backoff: u64 = 5;
    let mut prompt: Vec<String> = Vec::new();
    let mut at: usize = 3;
    assert(texts(prompt@) =~= Seq::empty());
    while at < args.len()
        invariant
            3 <= at <= args.len(),
            all == texts(args@),
            schedule_of(all[2]) == Ok::<ScheduleView, Seq<char>>(schedule@),
            cron_options(all, at as int) == Ok::<(u32, u64, Seq<Seq<char>>), Seq<char>>(
                (retries, backoff, texts(prompt@)),
            ),
        decreases args.len() - at,
    {
        let argument = args[at].as_str();
        let ghost before = prompt@;
        assert(all[at as int] == argument@);
        match strip_prefix(argument, "--retries=") {
            Some(value) => match parse_u32(value.as_str()) {
                Some(count) => {
                    retries = count;
                },
                None => {
                    proof {
                        lemma_options_error(all, at as int + 1, all.len() as int);
                    }
                    return Err(
                        complain_of_number("--retries 必须是非负整数", value.as_str(), u32::MAX as u64),
                    );
                },
            },
            None => match strip_prefix(argument, "--backoff=") {
                Some(value) => match parse_u64(value.as_str()) {
                    Some(seconds) => {
                        backoff = seconds;
                    },
                    None => {
                        proof {
                            lemma_options_error(all, at as int + 1, all.len() as int);
                        }
                        return Err(
                            complain_of_number("--backoff 必须是非负整数秒", value.as_str(), u64::MAX),
                        );
                    },
                },
                None => {
                    prompt.push(args[at].clone());
                    assert(texts(prompt@) =~= texts(before).push(argument@));
                },
            },
        }
        at += 1;
    }
    if prompt.len() == 0 {
        return Err("cron prompt 不能为空".to_owned());
    }
    Ok(
        CronAdd {
            name: args[1].clone(),
            schedule,
            prompt: join(&prompt, " "),
            retries,
            backoff,
        },
    )
}

/// What has to be done for a command on tasks.
#[derive(Debug, PartialEq, Eq)]
pub enum CronStep {
    /// Nothing: this is the answer.
    Reply(String),
    List,
    Create(CronAdd),
    Enable { id: String, enabled: bool },
    RunNow { id: String },
    Remove { id: String },
}

/// The mathematical value of a [`CronStep`].
pub enum CronStepView {
    Reply(Seq<char>),
    List,
    Create(CronAddView),
    Enable { id: Seq<char>, enabled: bool },
    RunNow { id: Seq<char> },
    Remove { id: Seq<char> },
}

impl View for CronStep {
    type V = CronStepView;

    open spec fn view(&self) -> CronStepView {
        match *self {
            CronStep::Reply(text) => CronStepView::Reply(text@),
            CronStep::List => CronStepView::List,
            CronStep::Create(task) => CronStepView::Create(task@),
            CronStep::Enable { id, enabled } => CronStepView::Enable { id: id@, enabled },
            CronStep::RunNow { id } => CronStepView::RunNow { id: id@ },
            CronStep::Remove { id } => CronStepView::Remove { id: id@ },
        }
    }
}

/// How a command on tasks is used.
pub open spec fn cron_usage() -> Seq<char> {
    "用法：/cron list | add <name> interval=<秒>|cron=<分,时,日,月,周> [--retries=N] [--backoff=N] <prompt> | enable|disable|run-now <ID或名称> | remove <ID或名称> --confirm"@
}

/// What has to be done for a command on tasks.
pub open spec fn cron_step(args: Seq<Seq<char>>, enabled: bool) -> CronStepView {
    let n = args.len() as int;
    if !enabled {
        CronStepView::Reply("当前 daemon 未启用 cron 管理器。"@)
    } else if n == 1 && args[0] == "list"@ {
        CronStepView::List
    } else if n >= 4 && args[0] == "add"@ {
        match cron_task(args) {
            Ok(task) => CronStepView::Create(task),
            Err(error) => CronStepView::Reply("Cron 命令失败："@ + error),
        }
    } else if n == 2 && args[0] == "enable"@ {
        CronStepView::Enable { id: args[1], enabled: true }
    } else if n == 2 && args[0] == "disable"@ {
        CronStepView::Enable { id: args[1], enabled: false }
    } else if n == 2 && args[0] == "run-now"@ {
        CronStepView::RunNow { id: args[1] }
    } else if n == 3 && args[0] == "remove"@ && args[2] == "--confirm"@ {
        CronStepView::Remove { id: args[1] }
    } else if n == 2 && args[0] == "remove"@ {
        CronStepView::Reply(
            "Cron 命令失败："@ + ("删除需要显式确认：/cron remove "@ + args[1] + " --confirm"@),
        )
    } else {
        CronStepView::Reply("Cron 命令失败："@ + cron_usage())
    }
}

fn cron_failure(error: &str) -> (step: CronStep)
    ensures
        step@ == CronStepView::Reply("Cron 命令失败："@ + error@),
{
    let mut text = "Cron 命令失败：".to_owned();
    text.append(error);
    CronStep::Reply(text)
}

/// What has to be done for a command on tasks.
pub fn execute_cron_command(args: &Vec<String>, enabled: bool) -> (step: CronStep)
    ensures
        step@ == cron_step(texts(args@), enabled),
{
    let n = args.len();
    let ghost all = texts(args@);
    if !enabled {
        return CronStep::Reply("当前 daemon 未启用 cron 管理器。".to_owned());
    }
    assert(forall|i: int| 0 <= i < n ==> #[trigger] all[i] == args@[i]@);
    if n >= 1 {
        let verb = args[0].as_str();
        assert(all[0] == verb@);
        if n == 1 && same_text(verb, "list") {
            return CronStep::List;
        }
        if n >= 4 && same_text(verb, "add") {
            return match parse_cron_add(args) {
                Ok(task) => CronStep::Create(task),
                Err(error) => cron_failure(error.as_str()),
            };
        }
        if n == 2 && same_text(verb, "enable") {
            return CronStep::Enable { id: args[1].clone(), enabled: true };
        }
        if n == 2 && same_text(verb, "disable") {
            return CronStep::Enable { id: args[1].clone(), enabled: false };
        }
        if n == 2 && same_text(verb, "run-now") {
            return CronStep::RunNow { id: args[1].clone() };
        }
        if n == 3 && same_text(verb, "remove") && same_text(args[2].as_str(), "--confirm") {
            return CronStep::Remove { id: args[1].clone() };
        }
        if n == 2 && same_text(verb, "remove") {
            let mut error = "删除需要显式确认：/cron remove ".to_owned();
            error.append(args[1].as_str());
            error.append(" --confirm");
            return cron_failure(error.as_str());
        }
    }
    cron_failure(
        "用法：/cron list | add <name> interval=<秒>|cron=<分,时,日,月,周> [--retries=N] [--backoff=N] <prompt> | enable|disable|run-now <ID或名称> | remove <ID或名称> --confirm",
    )
}

/// Nothing is removed that is not confirmed.
pub proof fn law_tasks_are_removed_only_when_confirmed(args: Seq<Seq<char>>, enabled: bool)
    requires
        cron_step(args, enabled) is Remove,
    ensures
        enabled,
        args.len() == 3,
        args[2] == "--confirm"@,
{
}

/// The answer to a command on tasks of which something came, or why nothing did.
pub fn cron_reply(result: Result<String, String>) -> (response: SlashResponse)
    ensures
        is_text(response, command_reply("Cron 命令失败："@, result)),
{
    match result {
        Ok(content) => SlashResponse::Text { content },
        Err(error) => {
            let mut content = "Cron 命令失败：".to_owned();
            content.append(error.as_str());
            SlashResponse::Text { content }
        },
    }
}

/// A run of a task.
#[derive(Clone, Debug, PartialEq, Eq)]
pub struct CronRun {
    pub finished_at: u64,
    pub attempts: u32,
    pub success: bool,
    pub result: String,
}

/// A task.
#[derive(Clone, Debug, PartialEq, Eq)]
pub struct CronJob {
    pub id: String,
    pub name: String,
    pub enabled: bool,
    /// The schedule in words.
    pub schedule: String,
    pub next_run_at: u64,
    pub history: Vec<CronRun>,
}

/// Whether something went well, in a word.
pub open spec fn success_word(success: bool) -> Seq<char> {
    if success {
        "成功"@
    } else {
        "失败"@
    }
}

/// The last run of a task, in words.
pub open spec fn last_run(history: Seq<CronRun>) -> Seq<char> {
    if history.len() == 0 {
        "尚未运行"@
    } else {
        let run = history.last();
        "上次="@ + decimal(run.finished_at as nat) + "，尝试="@ + decimal(run.attempts as nat)
            + "，结果="@ + success_word(run.success)
    }
}

/// The line of a task in the list.
pub open spec fn job_line(job: CronJob) -> Seq<char> {
    job.name@ + " ["@ + job.id@ + "] "@ + (if job.enabled {
        "启用"@
    } else {
        "停用"@
    }) + " · "@ + job.schedule@ + " · next="@ + decimal(job.next_run_at as nat) + " · "@ + last_run(
        job.history@,
    )
}

/// The list of the tasks in words.
pub open spec fn job_list(jobs: Seq<CronJob>) -> Seq<char> {
    if jobs.len() == 0 {
        "暂无 cron 任务。"@
    } else {
        join_with(Seq::new(jobs.len(), |i: int| job_line(jobs[i])), "\n"@)
    }
}

fn success_text(success: bool) -> (text: &'static str)
    ensures
        text@ == success_word(success),
{
    if success {
        "成功"
    } else {
        "失败"
    }
}

/// The list of the tasks in words.
pub fn job_list_text(jobs: &Vec<CronJob>) -> (text: String)
    ensures
        text@ == job_list(jobs@),
{
    if jobs.len() == 0 {
        return "暂无 cron 任务。".to_owned();
    }
    let ghost lines = Seq::new(jobs@.len(), |i: int| job_line(jobs@[i]));
    let mut list: Vec<String> = Vec::new();
    let mut at: usize = 0;
    while at < jobs.len()
        invariant
            at == list.len(),
            at <= jobs.len(),
            forall|i: int| 0 <= i < at ==> (#[trigger] list@[i])@ == job_line(jobs@[i]),
        decreases jobs.len() - at,
    {
        let job = &jobs[at];
        let mut last = String::new();
        if job.history.len() == 0 {
            last.append("尚未运行");
        } else {
            let run = &job.history[job.history.len() - 1];
            last.append("上次=");
            last.append(decimal_text(run.finished_at as u128).as_str());
            last.append("，尝试=");
            last.append(decimal_text(run.attempts as u128).as_str());
            last.append("，结果=");
            last.append(success_text(run.success));
        }
        assert(last@ =~= last_run(job.history@));
        let mut line = job.name.clone();
        line.append(" [");
        line.append(job.id.as_str());
        line.append("] ");
        line.append(
            if job.enabled {
                "启用"
            } else {
                "停用"
            },
        );
        line.append(" · ");
        line.append(job.schedule.as_str());
        line.append(" · next=");
        line.append(decimal_text(job.next_run_at as u128).as_str());
        line.append(" · ");
        line.append(last.as_str());
        assert(line@ == job_line(*job));
        list.push(line);
        at += 1;
    }
    assert(texts(list@) =~= lines);
    join(&list, "\n")
}

/// What is said of a task that has been added.
pub fn job_added_text(job: &CronJob) -> (text: String)
    ensures
        text@ == "已添加 "@ + job.name@ + " ["@ + job.id@ + "]，下次运行 "@ + decimal(
            job.next_run_at as nat,
        ),
{
    let mut text = "已添加 ".to_owned();
    text.append(job.name.as_str());
    text.append(" [");
    text.append(job.id.as_str());
    text.append("]，下次运行 ");
    text.append(decimal_text(job.next_run_at as u128).as_str());
    text
}

/// What is said of a task that has been switched on or off.
pub fn job_switched_text(job: &CronJob, enabled: bool) -> (text: String)
    ensures
        text@ == (if enabled {
            "已启用 "@
        } else {
            "已停用 "@
        }) + job.name@,
{
    let mut text = if enabled {
        "已启用 ".to_owned()
    } else {
        "已停用 ".to_owned()
    };
    text.append(job.name.as_str());
    text
}

/// What is said of a task that has been removed.
pub fn job_removed_text(job: &CronJob) -> (text: String)
    ensures
        text@ == "已删除 "@ + job.name@,
{
    let mut text = "已删除 ".to_owned();
    text.append(job.name.as_str());
    text
}

/// What is said of a task that has been run at once.
pub fn run_now_text(run: &CronRun) -> (text: String)
    ensures
        text@ == "立即运行"@ + success_word(run.success) + "（尝试 "@ + decimal(run.attempts as nat)
            + " 次）："@ + run.result@,
{
    let mut text = "立即运行".to_owned();
    text.append(success_text(run.success));
    text.append("（尝试 ");
    text.append(decimal_text(run.attempts as u128).as_str());
    text.append(" 次）：");
    text.append(run.result.as_str());
    text
}

/// What has to be done for a command on outside servers.
#[derive(Debug, PartialEq, Eq)]
pub enum McpStep {
    /// Nothing: this is the answer.
    Reply(String),
    /// To connect to the servers anew, and to show their state.
    Reload,
    /// To show the state of the servers, with or without what went wrong.
    Show { errors: bool },
}

/// What has to be done for a command on outside servers.
pub fn execute_mcp_command(args: &Vec<String>, enabled: bool) -> (step: McpStep)
    ensures
        ({
            let all = texts(args@);
            if !enabled {
                step matches McpStep::Reply(text) && text@ == "当前 daemon 未启用 MCP 管理器。"@
            } else if all.len() == 1 && all[0] == "reload"@ {
                step == McpStep::Reload
            } else if all.len() == 1 && all[0] == "status"@ {
                step == (McpStep::Show { errors: true })
            } else if all.len() == 1 && all[0] == "list"@ {
                step == (McpStep::Show { errors: false })
            } else {
                step matches McpStep::Reply(text) && text@
                    == "MCP 命令失败：用法：/mcp list | status | reload"@
            }
        }),
{
    if !enabled {
        return McpStep::Reply("当前 daemon 未启用 MCP 管理器。".to_owned());
    }
    if args.len() == 1 {
        let verb = args[0].as_str();
        assert(texts(args@)[0] == verb@);
        if same_text(verb, "reload") {
            return McpStep::Reload;
        }
        if same_text(verb, "status") {
            return McpStep::Show { errors: true };
        }
        if same_text(verb, "list") {
            return McpStep::Show { errors: false };
        }
    }
    McpStep::Reply("MCP 命令失败：用法：/mcp list | status | reload".to_owned())
}

/// The line of a server.
pub open spec fn server_line(server: ServerStatusView, include_errors: bool) -> Seq<char> {
    let line = server.name + "："@ + (if server.connected {
        "已连接"@
    } else {
        "不可用"@
    }) + " · "@ + (if server.tools.len() == 0 {
        "无工具"@
    } else {
        join_with(server.tools, "、"@)
    });
    match server.error {
        Some(error) => if include_errors {
            line + (" · "@ + error)
        } else {
            line
        },
        None => line,
    }
}

/// The lines on the servers: first what is wrong with their file, then each of them.
pub open spec fn status_lines(
    file_error: Option<Seq<char>>,
    servers: Seq<ServerStatusView>,
    include_errors: bool,
) -> Seq<Seq<char>> {
    (match file_error {
        Some(error) => seq!["配置错误："@ + error],
        None => Seq::empty(),
    }) + Seq::new(servers.len(), |i: int| server_line(servers[i], include_errors))
}

/// The state of the servers in words.
pub open spec fn mcp_status_text(
    file_error: Option<Seq<char>>,
    servers: Seq<ServerStatusView>,
    include_errors: bool,
) -> Seq<char> {
    let lines = status_lines(file_error, servers, include_errors);
    if lines.len() == 0 {
        "未配置 MCP server（期望 .my-agent/mcp.json）。"@
    } else {
        join_with(lines, "\n"@)
    }
}

fn server_text(server: &McpServerStatus, include_errors: bool) -> (line: String)
    ensures
        line@ == server_line(server@, include_errors),
{
    let mut line = server.name.clone();
    line.append("：");
    line.append(
        if server.connected {
            "已连接"
        } else {
            "不可用"
        },
    );
    line.append(" · ");
    if server.tools.len() == 0 {
        line.append("无工具");
    } else {
        line.append(join(&server.tools, "、").as_str());
    }
    if include_errors {
        if let Some(error) = &server.error {
            let ghost front = line@;
            line.append(" · ");
            line.append(error.as_str());
            assert(line@ =~= front + (" · "@ + error@));
        }
    }
    line
}

/// The state of the servers in words.
pub fn format_mcp_status(status: &McpStatus, include_errors: bool) -> (text: String)
    ensures
        text@ == mcp_status_text(
            opt_text(status.file_error),
            server_views(status.servers@),
            include_errors,
        ),
{
    let ghost wanted = status_lines(
        opt_text(status.file_error),
        server_views(status.servers@),
        include_errors,
    );
    let mut list: Vec<String> = Vec::new();
    if let Some(error) = &status.file_error {
        let mut line = "配置错误：".to_owned();
        line.append(error.as_str());
        list.push(line);
    }
    let first = list.len();
    let mut at: usize = 0;
    while at < status.servers.len()
        invariant
            at <= status.servers.len(),
            first <= 1,
            first == wanted.len() - status.servers@.len(),
            list@.len() == first + at,
            wanted == status_lines(
                opt_text(status.file_error),
                server_views(status.servers@),
                include_errors,
            ),
            forall|i: int| 0 <= i < list@.len() ==> (#[trigger] list@[i])@ == wanted[i],
        decreases status.servers.len() - at,
    {
        list.push(server_text(&status.servers[at], include_errors));
        at += 1;
    }
    assert(texts(list@) =~= wanted);
    if list.len() == 0 {
        "未配置 MCP server（期望 .my-agent/mcp.json）。".to_owned()
    } else {
        join(&list, "\n")
    }
}

/// All sessions with messages can be resumed, in their order, and no other.
pub proof fn law_all_filled_sessions_can_be_resumed(sessions: Seq<SessionInfo>)
    ensures
        filled_sessions(sessions) == sessions.filter(
            |session: SessionInfo| session.message_count > 0,
        ),
    decreases sessions.len(),
{
    reveal(Seq::filter);
    if sessions.len() > 0 {
        law_all_filled_sessions_can_be_resumed(sessions.drop_last());
    }
    assert(filled_sessions(sessions) =~= sessions.filter(
        |session: SessionInfo| session.message_count > 0,
    ));
}

/// A number picks the session that stands there in the list, counted from one; a text that
/// is no number picks the session of that name.
pub proof fn law_numbers_pick_from_the_list(
    sessions: Seq<SessionInfo>,
    n: nat,
    selection: Seq<char>,
)
    requires
        n <= usize::MAX,
    ensures
        1 <= n <= sessions.len() ==> selected_session(sessions, decimal(n)) == Ok::<
            Seq<char>,
            (i64, Seq<char>),
        >(sessions[n - 1].id@),
        n == 0 || n > sessions.len() ==> (selected_session(sessions, decimal(n)) matches Err(
            (code, _),
        ) && code == -32602),
        parse_number(selection, usize::MAX as nat) is None ==> selected_session(sessions, selection)
            == Ok::<Seq<char>, (i64, Seq<char>)>(selection),
{
    crate::number::lemma_parse_decimal(n, usize::MAX as nat);
}

/// A command goes on with all its arguments; without a choice there is a list to choose
/// from.
pub proof fn law_commands_go_on_with_their_arguments(step: SlashStep, parsed: SlashParseView)
    requires
        is_step(step, parsed),
    ensures
        parsed matches SlashParseView::Command(action, args) ==> {
            &&& action == SlashAction::Resume && args.len() == 0 ==> step is Choose
            &&& action == SlashAction::Resume && args.len() > 0 ==> step is Resume && (
            step->Resume_0)@ == args[0]
            &&& action == SlashAction::Skill ==> step is Skill && texts((step->Skill_0)@) == args
            &&& action == SlashAction::Cron ==> step is Cron && texts((step->Cron_0)@) == args
            &&& action == SlashAction::Mcp ==> step is Mcp && texts((step->Mcp_0)@) == args
            &&& action == SlashAction::New ==> step is New
            &&& action == SlashAction::Status ==> step is Status
            &&& action == SlashAction::Sessions ==> step is Sessions
            &&& action == SlashAction::Dogfood ==> step is Dogfood
            &&& action == SlashAction::Exit ==> step is Reply && step->Reply_0
                == SlashResponse::Exit
        },
        parsed matches SlashParseView::Error(text) ==> step is Reply && (
        step->Reply_0 matches SlashResponse::Text { content } && content@ == text),
{
}

/// The status counts the messages, the requests and the approvals that the snapshot lists.
pub proof fn law_status_counts_what_is_listed(
    snapshot: JsonView,
    id: Seq<char>,
    messages: Seq<JsonView>,
    requests: Seq<JsonView>,
    approvals: Seq<JsonView>,
)
    requires
        snapshot.field("session_id"@) == JsonView::Text(id),
        snapshot.field("messages"@) == JsonView::List(messages),
        snapshot.field("active_requests"@) == JsonView::List(requests),
        snapshot.field("pending_approvals"@) == JsonView::List(approvals),
    ensures
        status_text(snapshot) == "会话 "@ + id + " · 历史 "@ + decimal(messages.len())
            + " 条 · 活动请求 "@ + decimal(requests.len()) + " 个 · 待审批 "@ + decimal(approvals.len())
            + " 个"@,
{
}

/// Skills are installed from the path that the words make, updated under their name, and
/// removed by their name, confirmed only where that is said.
pub proof fn law_skill_commands_take_their_words(
    list: Seq<Seq<char>>,
    name: Seq<char>,
    last: Seq<char>,
)
    requires
        list.len() > 0,
        join_with(list, " "@).len() > 0,
    ensures
        list.last() != "--force"@ ==> skill_step(seq!["install"@] + list, true)
            == (SkillStepView::Install { path: join_with(list, " "@), force: false }),
        skill_step(seq!["install"@] + list + seq!["--force"@], true) == (SkillStepView::Install {
            path: join_with(list, " "@),
            force: true,
        }),
        skill_step(seq!["update"@, name] + list, true) == (SkillStepView::Update {
            name,
            path: join_with(list, " "@),
        }),
        skill_step(seq!["remove"@, name, "--confirm"@], true) == (SkillStepView::Remove {
            name,
            confirmed: true,
        }),
        last != "--confirm"@ ==> skill_step(seq!["remove"@, name, last], true)
            == (SkillStepView::Remove { name, confirmed: false }),
        skill_step(seq!["remove"@, name], true) == (SkillStepView::Remove {
            name,
            confirmed: false,
        }),
        skill_step(seq!["list"@], true) is List,
        skill_step(list, false) is Reply,
{
    reveal_strlit("install");
    reveal_strlit("update");
    reveal_strlit("remove");
    reveal_strlit("list");
    assert("install"@.len() == 7 && "update"@.len() == 6 && "remove"@.len() == 6 && "list"@.len()
        == 4);
    assert("update"@[0] == 'u' && "remove"@[0] == 'r');
    let plain = seq!["install"@] + list;
    let n = plain.len() as int;
    assert(plain[0] == "install"@);
    assert(plain[n - 1] == list.last());
    assert(plain.subrange(1, n) =~= list);
    let forced = seq!["install"@] + list + seq!["--force"@];
    assert(forced[0] == "install"@);
    assert(forced[n] == "--force"@);
    assert(forced.subrange(1, n) =~= list);
    let updated = seq!["update"@, name] + list;
    assert(updated[0] == "update"@ && updated[1] == name);
    assert(updated.subrange(2, updated.len() as int) =~= list);
}

/// A task runs at an interval of seconds or by an expression whose fields are written with
/// commas; no other schedule is taken.
pub proof fn law_schedules_are_intervals_or_expressions(
    n: nat,
    expression: Seq<char>,
    setting: Seq<char>,
    i: int,
)
    requires
        n <= u64::MAX,
    ensures
        schedule_of("interval="@ + decimal(n)) == Ok::<ScheduleView, Seq<char>>(
            ScheduleView::Interval(n as u64),
        ),
        schedule_of("cron="@ + expression) matches Ok(ScheduleView::Cron(fields)) && fields.len()
            == expression.len() && (0 <= i < fields.len() ==> fields[i] == (if expression[i]
            == ',' {
            ' '
        } else {
            expression[i]
        })),
        !crate::text::begins_with(setting, "interval="@) && !crate::text::begins_with(
            setting,
            "cron="@,
        ) ==> schedule_of(setting) is Err,
{
    crate::number::lemma_parse_decimal(n, u64::MAX as nat);
    let a = "interval="@ + decimal(n);
    let b = "cron="@ + expression;
    crate::text::law_prefix_and_rest_make_the_text(a, "interval="@, decimal(n));
    crate::text::law_prefix_and_rest_make_the_text(b, "cron="@, expression);
    reveal_strlit("interval=");
    reveal_strlit("cron=");
    assert(!crate::text::begins_with(b, "interval="@)) by {
        if crate::text::begins_with(b, "interval="@) {
            assert(b.take("interval="@.len() as int)[0] == b[0]);
            assert("interval="@[0] == 'i' && "cron="@[0] == 'c');
            assert(b[0] == 'c');
        }
    }
    crate::text::law_prefix_and_rest_make_the_text(b, "interval="@, expression);
}

/// Behind the schedule every word but the two options belongs to the prompt, in its place;
/// an option counts wherever it stands, and the last of a kind holds.
pub proof fn law_words_behind_the_schedule_are_the_prompt(
    args: Seq<Seq<char>>,
    word: Seq<char>,
    count: nat,
    seconds: nat,
)
    requires
        args.len() >= 3,
        count <= u32::MAX,
        seconds <= u64::MAX,
    ensures
        args.len() == 3 ==> cron_options(args, 3) == Ok::<(u32, u64, Seq<Seq<char>>), Seq<char>>(
            (0u32, 5u64, Seq::<Seq<char>>::empty()),
        ),
        cron_options(args, args.len() as int) matches Ok((retries, backoff, prompt)) ==> {
            let n = args.len() as int + 1;
            &&& !crate::text::begins_with(word, "--retries="@) && !crate::text::begins_with(
                word,
                "--backoff="@,
            ) ==> cron_options(args.push(word), n) == Ok::<(u32, u64, Seq<Seq<char>>), Seq<char>>(
                (retries, backoff, prompt.push(word)),
            )
            &&& cron_options(args.push("--retries="@ + decimal(count)), n) == Ok::<
                (u32, u64, Seq<Seq<char>>),
                Seq<char>,
            >((count as u32, backoff, prompt))
            &&& cron_options(args.push("--backoff="@ + decimal(seconds)), n) == Ok::<
                (u32, u64, Seq<Seq<char>>),
                Seq<char>,
            >((retries, seconds as u64, prompt))
        },
{
    let n = args.len() as int;
    let a = "--retries="@ + decimal(count);
    let b = "--backoff="@ + decimal(seconds);
    crate::number::lemma_parse_decimal(count, u32::MAX as nat);
    crate::number::lemma_parse_decimal(seconds, u64::MAX as nat);
    crate::text::law_prefix_and_rest_make_the_text(a, "--retries="@, decimal(count));
    crate::text::law_prefix_and_rest_make_the_text(b, "--backoff="@, decimal(seconds));
    reveal_strlit("--retries=");
    reveal_strlit("--backoff=");
    assert(!crate::text::begins_with(b, "--retries="@)) by {
        if crate::text::begins_with(b, "--retries="@) {
            assert(b.take("--retries="@.len() as int)[2] == b[2]);
            assert("--retries="@[2] == 'r' && "--backoff="@[2] == 'b');
            assert(b[2] == 'b');
        }
    }
    crate::text::law_prefix_and_rest_make_the_text(word, "--retries="@, word);
    crate::text::law_prefix_and_rest_make_the_text(word, "--backoff="@, word);
    lemma_same_options(args, word, n);
    lemma_same_options(args, a, n);
    lemma_same_options(args, b, n);
}

proof fn lemma_same_options(args: Seq<Seq<char>>, word: Seq<char>, n: int)
    requires
        n <= args.len(),
    ensures
        cron_options(args.push(word), n) == cron_options(args, n),
    decreases n,
{
    if n > 3 {
        lemma_same_options(args, word, n - 1);
        assert(args.push(word)[n - 1] == args[n - 1]);
    }
}

/// A task that is added has the name, the schedule, the options and the prompt that were
/// given, and it is added wherever they are good.
pub proof fn law_added_task_is_as_given(
    args: Seq<Seq<char>>,
    schedule: ScheduleView,
    retries: u32,
    backoff: u64,
    prompt: Seq<Seq<char>>,
)
    requires
        args.len() >= 4,
        args[0] == "add"@,
        schedule_of(args[2]) == Ok::<ScheduleView, Seq<char>>(schedule),
        cron_options(args, args.len() as int) == Ok::<(u32, u64, Seq<Seq<char>>), Seq<char>>(
            (retries, backoff, prompt),
        ),
        prompt.len() > 0,
    ensures
        cron_step(args, true) matches CronStepView::Create(task) && task.name == args[1]
            && task.schedule == schedule && task.retries == retries && task.backoff == backoff
            && task.prompt == join_with(prompt, " "@),
{
}

/// A task is switched on or off, run or removed by what is typed behind the command.
pub proof fn law_task_commands_take_the_task(id: Seq<char>, args: Seq<Seq<char>>)
    ensures
        cron_step(seq!["enable"@, id], true) == (CronStepView::Enable { id, enabled: true }),
        cron_step(seq!["disable"@, id], true) == (CronStepView::Enable { id, enabled: false }),
        cron_step(seq!["run-now"@, id], true) == (CronStepView::RunNow { id }),
        cron_step(seq!["remove"@, id, "--confirm"@], true) == (CronStepView::Remove { id }),
        cron_step(seq!["remove"@, id], true) is Reply,
        cron_step(seq!["list"@], true) is List,
        cron_step(args, false) is Reply,
{
    reveal_strlit("enable");
    reveal_strlit("disable");
    reveal_strlit("run-now");
    reveal_strlit("remove");
    reveal_strlit("list");
    reveal_strlit("add");
    assert("enable"@.len() == 6 && "disable"@.len() == 7 && "run-now"@.len() == 7 && "remove"@.len()
        == 6 && "list"@.len() == 4 && "add"@.len() == 3);
    assert("enable"@[0] == 'e' && "disable"@[0] == 'd' && "run-now"@[0] == 'r' && "remove"@[0]
        == 'r');
}

/// Every task is on the list, with its name and its id, whether it is on, its schedule and
/// its next and its last run.
pub proof fn law_every_task_is_listed(jobs: Seq<CronJob>, i: int)
    requires
        0 <= i < jobs.len(),
    ensures
        contains_text(job_list(jobs), job_line(jobs[i])),
        jobs[i].enabled && jobs[i].history@.len() == 0 ==> job_line(jobs[i]) == jobs[i].name@
            + " ["@ + jobs[i].id@ + "] "@ + "启用"@ + " · "@ + jobs[i].schedule@ + " · next="@
            + decimal(jobs[i].next_run_at as nat) + " · "@ + "尚未运行"@,
        !jobs[i].enabled && jobs[i].history@.len() == 0 ==> job_line(jobs[i]) == jobs[i].name@
            + " ["@ + jobs[i].id@ + "] "@ + "停用"@ + " · "@ + jobs[i].schedule@ + " · next="@
            + decimal(jobs[i].next_run_at as nat) + " · "@ + "尚未运行"@,
        jobs[i].history@.len() > 0 ==> contains_text(
            job_line(jobs[i]),
            if jobs[i].history@.last().success {
                "结果=成功"@
            } else {
                "结果=失败"@
            },
        ),
{
    let lines = Seq::new(jobs.len(), |i: int| job_line(jobs[i]));
    let at = crate::slash::lemma_join_contains(lines, "\n"@, i);
    assert(occurs_at(job_list(jobs), job_line(jobs[i]), at));
    if jobs[i].history@.len() > 0 {
        let run = jobs[i].history@.last();
        let line = job_line(jobs[i]);
        let word = success_word(run.success);
        reveal_strlit("，结果=");
        reveal_strlit("结果=成功");
        reveal_strlit("结果=失败");
        reveal_strlit("成功");
        reveal_strlit("失败");
        let said = if run.success {
            "结果=成功"@
        } else {
            "结果=失败"@
        };
        let n = line.len() - said.len();
        assert(("，结果="@ + word).skip(1) =~= said);
        assert(line.subrange(n, n + said.len()) =~= said);
        assert(occurs_at(line, said, n));
    }
}

/// Every skill is on the list, and every outcome of an installation is told.
pub proof fn law_every_skill_and_outcome_is_listed(
    infos: Seq<SkillInfo>,
    outcomes: Seq<InstallOutcome>,
    i: int,
)
    ensures
        0 <= i < infos.len() ==> contains_text(
            skill_list(infos),
            label(infos[i].name@, infos[i].version@) + "："@ + infos[i].description@,
        ),
        0 <= i < outcomes.len() ==> contains_text(outcome_list(outcomes), outcomes[i].words()),
{
    if 0 <= i < infos.len() {
        let lines = Seq::new(infos.len(), |i: int| skill_line(infos[i]));
        let at = crate::slash::lemma_join_contains(lines, "\n"@, i);
        assert(occurs_at(skill_list(infos), lines[i], at));
    }
    if 0 <= i < outcomes.len() {
        let lines = Seq::new(outcomes.len(), |i: int| outcomes[i].words());
        let at = crate::slash::lemma_join_contains(lines, "\n"@, i);
        assert(occurs_at(outcome_list(outcomes), lines[i], at));
    }
}

/// Every server is shown, with whether it is connected, its tools, and where that is asked
/// for its error.
pub proof fn law_every_server_is_shown(
    file_error: Option<Seq<char>>,
    servers: Seq<ServerStatusView>,
    include_errors: bool,
    i: int,
)
    requires
        0 <= i < servers.len(),
    ensures
        contains_text(
            mcp_status_text(file_error, servers, include_errors),
            server_line(servers[i], include_errors),
        ),
        file_error matches Some(error) ==> contains_text(
            mcp_status_text(file_error, servers, include_errors),
            "配置错误："@ + error,
        ),
        servers[i].tools.len() == 0 && (servers[i].error is None || !include_errors)
            ==> server_line(servers[i], include_errors) == servers[i].name + "："@ + (
        if servers[i].connected {
            "已连接"@
        } else {
            "不可用"@
        }) + " · "@ + "无工具"@,
        servers[i].tools.len() > 0 && (servers[i].error is None || !include_errors)
            ==> server_line(servers[i], include_errors) == servers[i].name + "："@ + (
        if servers[i].connected {
            "已连接"@
        } else {
            "不可用"@
        }) + " · "@ + join_with(servers[i].tools, "、"@),
        servers[i].error matches Some(error) ==> (include_errors ==> server_line(servers[i], true)
            == server_line(servers[i], false) + " · "@ + error),
{
    let lines = status_lines(file_error, servers, include_errors);
    let k = if file_error is Some {
        i + 1
    } else {
        i
    };
    assert(lines[k] == server_line(servers[i], include_errors));
    let at = crate::slash::lemma_join_contains(lines, "\n"@, k);
    assert(occurs_at(mcp_status_text(file_error, servers, include_errors), lines[k], at));
    if let Some(error) = file_error {
        let first = crate::slash::lemma_join_contains(lines, "\n"@, 0);
        assert(lines[0] == "配置错误："@ + error);
        assert(occurs_at(mcp_status_text(file_error, servers, include_errors), lines[0], first));
    }
    if let Some(error) = servers[i].error {
        assert(server_line(servers[i], true) =~= server_line(servers[i], false) + " · "@ + error);
    }
}

/// Servers are shown with their errors for a status, without them for a list, and connected
/// to anew for a reload.
pub proof fn law_server_commands(args: &Vec<String>, enabled: bool, step: McpStep)
    requires
        call_ensures(execute_mcp_command, (args, enabled), step),
    ensures
        step == McpStep::Reload <==> enabled && args@.len() == 1 && args@[0]@ == "reload"@,
        step == (McpStep::Show { errors: true }) <==> enabled && args@.len() == 1 && args@[0]@
            == "status"@,
        step == (McpStep::Show { errors: false }) <==> enabled && args@.len() == 1 && args@[0]@
            == "list"@,
{
    reveal_strlit("reload");
    reveal_strlit("status");
    reveal_strlit("list");
    assert("reload"@.len() == 6 && "status"@.len() == 6 && "list"@.len() == 4);
    assert("reload"@[0] == 'r' && "status"@[0] == 's');
    if args@.len() == 1 {
        assert(texts(args@)[0] == args@[0]@);
    }
}

/// What came of a command is said as it is; where it failed, so is the error, behind what
/// has failed.
pub proof fn law_outcomes_are_said_as_they_are(
    result: Result<String, String>,
    skill: SlashResponse,
    cron: SlashResponse,
)
    requires
        call_ensures(skill_reply, (result,), skill),
        call_ensures(cron_reply, (result,), cron),
    ensures
        result matches Ok(content) ==> (skill matches SlashResponse::Text { content: said } && said@
            == content@) && (cron matches SlashResponse::Text { content: said } && said@
            == content@),
        result matches Err(error) ==> (skill matches SlashResponse::Text { content: said } && said@
            == "Skill 命令失败："@ + error@) && (cron matches SlashResponse::Text { content: said }
            && said@ == "Cron 命令失败："@ + error@),
{
}

} // verus!

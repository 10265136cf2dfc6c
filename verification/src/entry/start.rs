//! What the program's commands decide before anything is started.
use vstd::prelude::*;

use super::web::api_token;
use crate::daemon::lifecycle::DaemonStatus;
use crate::number::{decimal, decimal_text};
use crate::text::{is_blank_text, join, join_with, texts};

verus! {

/// A process id that may be missing, as it is shown.
pub open spec fn shown_pid(pid: Option<u32>) -> Seq<char> {
    match pid {
        Some(pid) => "Some("@ + decimal(pid as nat) + ")"@,
        None => "None"@,
    }
}

fn pid_text(pid: Option<u32>) -> (text: String)
    ensures
        text@ == shown_pid(pid),
{
    match pid {
        Some(pid) => {
            let mut text = "Some(".to_owned();
            text.append(decimal_text(pid as u128).as_str());
            text.append(")");
            text
        },
        None => "None".to_owned(),
    }
}

/// Whether a server may listen at an address, and the token that requests have to bring
/// then. Only an address of this machine may go without a token.
pub fn run_serve_command(bind: &str, loopback: bool, token: Option<&str>) -> (out: Result<
    Option<String>,
    String,
>)
    ensures
        ({
            let set = token matches Some(text) && !is_blank_text(text@);
            if !loopback && !set {
                out matches Err(message) && message@ == "非回环地址 "@ + bind@
                    + " 必须设置 MY_AGENT_API_TOKEN；建议默认使用 127.0.0.1:8787"@
            } else if set {
                out matches Ok(Some(kept)) && kept@ == token->0@
            } else {
                out == Ok::<Option<String>, String>(None)
            }
        }),
{
    let kept = api_token(token);
    if !loopback && kept.is_none() {
        let mut message = "非回环地址 ".to_owned();
        message.append(bind);
        message.append(" 必须设置 MY_AGENT_API_TOKEN；建议默认使用 127.0.0.1:8787");
        return Err(message);
    }
    Ok(kept)
}

/// What to say to the agent at once, if anything was given on the command line.
pub fn run_chat_command(prompt: &Vec<String>) -> (text: Option<String>)
    ensures
        match text {
            Some(text) => prompt@.len() > 0 && text@ == join_with(texts(prompt@), " "@),
            None => prompt@.len() == 0,
        },
{
    if prompt.len() == 0 {
        None
    } else {
        Some(join(prompt, " "))
    }
}

/// Whether a daemon may be started for a workspace.
pub fn run_daemon_command(status: DaemonStatus) -> (out: Result<(), String>)
    ensures
        match status {
            DaemonStatus::Ready { .. } => out matches Err(message) && message@
                == "该工作区的 daemon 已在运行"@,
            _ => out is Ok,
        },
{
    match status {
        DaemonStatus::Ready { .. } => Err("该工作区的 daemon 已在运行".to_owned()),
        _ => Ok(()),
    }
}

/// How a daemon is, in words.
pub fn run_status_command(status: DaemonStatus, socket: &str) -> (text: String)
    ensures
        text@ == (match status {
            DaemonStatus::Ready { pid } => "ready · pid="@ + decimal(pid as nat) + " · socket="@
                + socket@,
            DaemonStatus::Starting { pid } => "starting · pid="@ + shown_pid(pid),
            DaemonStatus::Stale { pid } => "stale · pid="@ + shown_pid(pid)
                + " · 可再次运行 `my-agent` 自动清理并重启"@,
            DaemonStatus::Stopped => "stopped"@,
        }),
{
    match status {
        DaemonStatus::Ready { pid } => {
            let mut text = "ready · pid=".to_owned();
            text.append(decimal_text(pid as u128).as_str());
            text.append(" · socket=");
            text.append(socket);
            text
        },
        DaemonStatus::Starting { pid } => {
            let mut text = "starting · pid=".to_owned();
            text.append(pid_text(pid).as_str());
            text
        },
        DaemonStatus::Stale { pid } => {
            let mut text = "stale · pid=".to_owned();
            text.append(pid_text(pid).as_str());
            text.append(" · 可再次运行 `my-agent` 自动清理并重启");
            text
        },
        DaemonStatus::Stopped => "stopped".to_owned(),
    }
}

/// What has to be done to stop a daemon.
#[derive(Clone, Copy, Debug, PartialEq, Eq, Structural)]
pub enum StopAction {
    /// To ask it to stop.
    Request,
    /// To remove what it has left.
    CleanUp,
    Nothing,
}

/// What has to be done to stop a daemon, and what is said once it is done.
pub fn run_stop_command(status: DaemonStatus) -> (out: (StopAction, String))
    ensures
        match status {
            DaemonStatus::Ready { .. } => out.0 == StopAction::Request && out.1@
                == "已请求 daemon 优雅停止；正在执行的 turn 不会被超时强杀。"@,
            DaemonStatus::Stale { .. } => out.0 == StopAction::CleanUp && out.1@
                == "已清理失效的 daemon 运行标记。"@,
            DaemonStatus::Starting { pid } => out.0 == StopAction::Nothing && out.1@
                == "daemon 正在启动（pid="@ + shown_pid(pid) + "），请稍后重试 stop。"@,
            DaemonStatus::Stopped => out.0 == StopAction::Nothing && out.1@ == "daemon 未运行。"@,
        },
{
    match status {
        DaemonStatus::Ready { .. } => (
            StopAction::Request,
            "已请求 daemon 优雅停止；正在执行的 turn 不会被超时强杀。".to_owned(),
        ),
        DaemonStatus::Stale { .. } => (
            StopAction::CleanUp,
            "已清理失效的 daemon 运行标记。".to_owned(),
        ),
        DaemonStatus::Starting { pid } => {
            let mut text = "daemon 正在启动（pid=".to_owned();
            text.append(pid_text(pid).as_str());
            text.append("），请稍后重试 stop。");
            (StopAction::Nothing, text)
        },
        DaemonStatus::Stopped => (StopAction::Nothing, "daemon 未运行。".to_owned()),
    }
}

/// A server listens beyond this machine only with a token, and it keeps the token that is
/// set.
pub proof fn law_open_server_needs_a_token(
    bind: &str,
    loopback: bool,
    token: Option<&str>,
    out: Result<Option<String>, String>,
)
    requires
        call_ensures(run_serve_command, (bind, loopback, token), out),
    ensures
        out is Ok <==> loopback || (token is Some && !is_blank_text((token->0)@)),
        out matches Ok(kept) ==> (kept is Some <==> token is Some && !is_blank_text((token->0)@)),
        out matches Ok(Some(kept)) ==> kept@ == (token->0)@,
{
}

/// A daemon is started only where none is ready; only a ready one is asked to stop, and only
/// what a dead one left is cleaned up.
pub proof fn law_only_a_ready_daemon_is_asked_to_stop(
    status: DaemonStatus,
    out: Result<(), String>,
    stop: (StopAction, String),
)
    requires
        call_ensures(run_daemon_command, (status,), out),
        call_ensures(run_stop_command, (status,), stop),
    ensures
        out is Err <==> status is Ready,
        stop.0 == StopAction::Request <==> status is Ready,
        stop.0 == StopAction::CleanUp <==> status is Stale,
        status is Starting || status is Stopped ==> stop.0 == StopAction::Nothing,
{
}

/// The words of a prompt are sent as one text, with spaces between them.
pub proof fn law_words_of_a_prompt_make_one_text(prompt: &Vec<String>, text: Option<String>)
    requires
        call_ensures(run_chat_command, (prompt,), text),
    ensures
        text is None <==> prompt@.len() == 0,
        text matches Some(said) ==> said@ == join_with(texts(prompt@), " "@),
{
}

/// How a daemon is, is told with its process id, where one is known.
pub proof fn law_status_is_told_with_the_process(status: DaemonStatus, socket: &str, text: String)
    requires
        call_ensures(run_status_command, (status, socket), text),
    ensures
        status matches DaemonStatus::Ready { pid } ==> text@ == "ready · pid="@ + decimal(
            pid as nat,
        ) + " · socket="@ + socket@,
        status matches DaemonStatus::Starting { pid: Some(pid) } ==> text@ == "starting · pid="@ + (
        "Some("@ + decimal(pid as nat) + ")"@),
        status matches DaemonStatus::Starting { pid: None } ==> text@ == "starting · pid="@
            + "None"@,
        status matches DaemonStatus::Stale { pid: Some(pid) } ==> text@ == "stale · pid="@ + (
        "Some("@ + decimal(pid as nat) + ")"@) + " · 可再次运行 `my-agent` 自动清理并重启"@,
        status is Stopped ==> text@ == "stopped"@,
{
}

} // verus!

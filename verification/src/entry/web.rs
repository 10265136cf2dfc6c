//! The web server of a workspace: its address, and how it is brought up.
use vstd::prelude::*;

use crate::outside::{add_query_pair, url_scheme, url_with_pair, URL_LIMIT};
use crate::path::{join_path, joined};
use crate::text::{is_blank, is_blank_text, texts};

verus! {

/// The address at which the web server listens where none is set.
pub open spec fn default_web_bind() -> Seq<char> {
    "127.0.0.1:8787"@
}

/// A web server that is there.
#[derive(Clone, Debug, PartialEq, Eq)]
pub struct WebLaunch {
    pub url: String,
    pub started: bool,
}

/// The address of the web server as a URL, from the address that is set, where one is
/// and can be read.
pub fn configured_url(address: Option<&str>) -> (url: String)
    ensures
        url@ == "http://"@ + (match address {
            Some(address) => address@,
            None => default_web_bind(),
        }),
{
    let mut url = "http://".to_owned();
    match address {
        Some(address) => url.append(address),
        None => url.append("127.0.0.1:8787"),
    }
    url
}

/// The URL of a workspace on a web server, or why there is none.
pub fn workspace_url(base_url: &str, workspace: &str) -> (out: Result<String, String>)
    requires
        base_url@.len() + workspace@.len() + 9 <= URL_LIMIT,
    ensures
        match url_scheme(base_url@) {
            Ok(_) => out matches Ok(url) && url@ == url_with_pair(
                base_url@,
                "workspace"@,
                workspace@,
            ),
            Err(error) => out matches Err(message) && message@ == "Web 地址格式无效: "@ + error,
        },
{
    proof {
        reveal_strlit("workspace");
    }
    match add_query_pair(base_url, "workspace", workspace) {
        Ok(url) => Ok(url),
        Err(error) => {
            let mut message = "Web 地址格式无效: ".to_owned();
            message.append(error.as_str());
            Err(message)
        },
    }
}

/// Where the web server of a workspace logs.
pub fn web_log_path(workspace: &str) -> (path: String)
    ensures
        path@ == joined(workspace@, ".my-agent/web.log"@),
{
    join_path(workspace, ".my-agent/web.log")
}

/// The token that requests have to bring, if one is set.
pub fn api_token(value: Option<&str>) -> (token: Option<String>)
    ensures
        match token {
            Some(token) => value matches Some(text) && token@ == text@ && !is_blank_text(text@),
            None => value matches Some(text) ==> is_blank_text(text@),
        },
{
    match value {
        Some(text) => if is_blank(text) {
            None
        } else {
            Some(text.to_owned())
        },
        None => None,
    }
}

/// What a web server is started with.
pub fn web_arguments(workspace: &str, address: &str) -> (out: Vec<String>)
    ensures
        texts(out@) == seq!["--workspace"@, workspace@, "serve"@, "--bind"@, address@],
{
    let mut out: Vec<String> = Vec::new();
    out.push("--workspace".to_owned());
    out.push(workspace.to_owned());
    out.push("serve".to_owned());
    out.push("--bind".to_owned());
    out.push(address.to_owned());
    assert(texts(out@) =~= seq!["--workspace"@, workspace@, "serve"@, "--bind"@, address@]);
    out
}

/// How a web server answers.
#[derive(Clone, Copy, Debug, PartialEq, Eq, Structural)]
pub enum ProbeResult {
    /// Nothing answers.
    Missing,
    Healthy,
    Unhealthy,
}

/// How a web server is by the status of its answer, which is given in words too.
pub fn probe(url: &str, status: u16, status_text: &str) -> (out: Result<ProbeResult, String>)
    ensures
        if 200 <= status < 300 {
            out == Ok::<ProbeResult, String>(ProbeResult::Healthy)
        } else if status == 503 {
            out == Ok::<ProbeResult, String>(ProbeResult::Unhealthy)
        } else {
            out matches Err(message) && message@ == url@ + " 已有服务响应，但健康检查返回 "@
                + status_text@
        },
{
    if 200 <= status && status < 300 {
        Ok(ProbeResult::Healthy)
    } else if status == 503 {
        Ok(ProbeResult::Unhealthy)
    } else {
        let mut message = url.to_owned();
        message.append(" 已有服务响应，但健康检查返回 ");
        message.append(status_text);
        Err(message)
    }
}

/// How often a server that ends is waited for.
pub const OLD_ROUNDS: usize = 20;

/// How often a server that was started is waited for.
pub const NEW_ROUNDS: usize = 40;

/// How far the way to a web server has been gone.
#[derive(Clone, Copy, Debug, PartialEq, Eq, Structural)]
pub enum WebStage {
    /// To see whether a server is there.
    Looking,
    /// To wait for one that ends, in this round.
    OldWait(usize),
    /// To see whether it has ended, in this round.
    OldLook(usize),
    /// To see whether it has ended after all rounds.
    LastLook,
    /// To start a server.
    Starting,
    /// To wait for the new one, in this round.
    NewWait(usize),
    /// To see whether it is there, in this round.
    NewLook(usize),
    Over,
}

/// What came of an action.
#[derive(Debug)]
pub enum WebEvent {
    /// How the server answered, or why that could not be told.
    Probed(Result<ProbeResult, String>),
    /// What had to be done is done.
    Done,
}

/// What has to be done next.
#[derive(Debug)]
pub enum WebAction {
    Probe,
    /// To wait for a tenth of a second.
    Wait,
    Start,
    Finish(WebLaunch),
    Fail(String),
}

/// The way to a web server.
#[derive(Debug)]
pub struct EnsureWeb {
    pub stage: WebStage,
    pub url: String,
    pub log: String,
    /// What went wrong with the last look at the new server that failed.
    pub last_error: Option<String>,
}

/// Whether an event is one that a stage waits for.
pub open spec fn web_awaits(stage: WebStage, event: WebEvent) -> bool {
    match stage {
        WebStage::Looking | WebStage::OldLook(_) | WebStage::LastLook | WebStage::NewLook(_) =>
            event is Probed,
        WebStage::OldWait(_) | WebStage::NewWait(_) | WebStage::Starting => event is Done,
        WebStage::Over => false,
    }
}

/// Whether a stage is one that can be reached.
pub open spec fn web_in_rounds(stage: WebStage) -> bool {
    match stage {
        WebStage::OldWait(n) | WebStage::OldLook(n) => n < OLD_ROUNDS,
        WebStage::NewWait(n) | WebStage::NewLook(n) => n < NEW_ROUNDS,
        _ => true,
    }
}

/// What comes after a look that could not be made.
pub open spec fn failed_look(action: WebAction, error: String) -> bool {
    action matches WebAction::Fail(message) && message@ == error@
}

/// What comes after the last look at the new server, which was not there.
pub open spec fn gave_up(action: WebAction, last_error: Option<String>, log: Seq<char>) -> bool {
    action matches WebAction::Fail(message) && message@ == (match last_error {
        Some(error) => "Web 服务启动后健康检查失败: "@ + error@,
        None => "Web 服务启动超时；请查看 "@ + log,
    })
}

/// Whether one step of the way is right: from a state and an event to the next state
/// and what has to be done in it.
pub open spec fn web_step(
    before: EnsureWeb,
    event: WebEvent,
    after: EnsureWeb,
    action: WebAction,
) -> bool {
    let kept = after.last_error == before.last_error;
    match (before.stage, event) {
        (WebStage::Looking, WebEvent::Probed(Ok(found))) => kept && (match found {
            ProbeResult::Healthy => after.stage == WebStage::Over && (action matches WebAction::Finish(
                launch,
            ) && launch.url@ == before.url@ && !launch.started),
            ProbeResult::Unhealthy => after.stage == WebStage::OldWait(0) && action is Wait,
            ProbeResult::Missing => after.stage == WebStage::Starting && action is Start,
        }),
        (WebStage::OldWait(n), _) => kept && after.stage == WebStage::OldLook(n) && action is Probe,
        (WebStage::OldLook(n), WebEvent::Probed(Ok(found))) => kept && if found
            != ProbeResult::Missing && n + 1 < OLD_ROUNDS {
            after.stage == WebStage::OldWait((n + 1) as usize) && action is Wait
        } else {
            after.stage == WebStage::LastLook && action is Probe
        },
        (WebStage::LastLook, WebEvent::Probed(Ok(found))) => kept && if found
            == ProbeResult::Missing {
            after.stage == WebStage::Starting && action is Start
        } else {
            after.stage == WebStage::Over && (action matches WebAction::Fail(message) && message@
                == "旧 Web 服务仍在退出，请稍后重试 /web"@)
        },
        (WebStage::Starting, _) => kept && after.stage == WebStage::NewWait(0) && action is Wait,
        (WebStage::NewWait(n), _) => kept && after.stage == WebStage::NewLook(n) && action is Probe,
        (WebStage::NewLook(n), WebEvent::Probed(Ok(ProbeResult::Healthy))) => kept && after.stage
            == WebStage::Over && (action matches WebAction::Finish(launch) && launch.url@
            == before.url@ && launch.started),
        (WebStage::NewLook(n), WebEvent::Probed(found)) => {
            &&& match found {
                Ok(_) => kept,
                Err(error) => after.last_error == Some(error),
            }
            &&& if n + 1 < NEW_ROUNDS {
                after.stage == WebStage::NewWait((n + 1) as usize) && action is Wait
            } else {
                after.stage == WebStage::Over && gave_up(action, after.last_error, before.log@)
            }
        },
        (_, WebEvent::Probed(Err(error))) => kept && after.stage == WebStage::Over && failed_look(
            action,
            error,
        ),
        (_, _) => true,
    }
}

impl EnsureWeb {
    /// The start of the way. The server is brought up only at an address of this
    /// machine.
    pub fn start(address: &str, loopback: bool, workspace: &str) -> (out: Result<
        (EnsureWeb, WebAction),
        String,
    >)
        requires
            address@.len() + workspace@.len() + 16 <= URL_LIMIT,
        ensures
            if !loopback {
                out matches Err(message) && message@
                    == "TUI /web 只允许自动启动回环地址，当前为 "@ + address@
            } else {
                match url_scheme("http://"@ + address@) {
                    Err(error) => out matches Err(message) && message@ == "Web 地址格式无效: "@
                        + error,
                    Ok(_) => out matches Ok((web, action)) && action is Probe && web.stage
                        == WebStage::Looking && web.url@ == url_with_pair(
                        "http://"@ + address@,
                        "workspace"@,
                        workspace@,
                    ) && web.log@ == joined(workspace@, ".my-agent/web.log"@) && web.last_error
                        is None,
                }
            },
    {
        if !loopback {
            let mut message = "TUI /web 只允许自动启动回环地址，当前为 ".to_owned();
            message.append(address);
            return Err(message);
        }
        let base = configured_url(Some(address));
        proof {
            reveal_strlit("http://");
        }
        match workspace_url(base.as_str(), workspace) {
            Ok(url) => Ok(
                (
                    EnsureWeb {
                        stage: WebStage::Looking,
                        url,
                        log: web_log_path(workspace),
                        last_error: None,
                    },
                    WebAction::Probe,
                ),
            ),
            Err(message) => Err(message),
        }
    }

    /// What has to be done after what came of the last action.
    pub fn ensure_running(&mut self, event: WebEvent) -> (action: WebAction)
        requires
            web_awaits(old(self).stage, event),
            web_in_rounds(old(self).stage),
        ensures
            web_step(*old(self), event, *final(self), action),
            web_in_rounds(final(self).stage),
            final(self).url == old(self).url,
            final(self).log == old(self).log,
    {
        match self.stage {
            WebStage::OldWait(n) => {
                self.stage = WebStage::OldLook(n);
                return WebAction::Probe;
            },
            WebStage::NewWait(n) => {
                self.stage = WebStage::NewLook(n);
                return WebAction::Probe;
            },
            WebStage::Starting => {
                self.stage = WebStage::NewWait(0);
                return WebAction::Wait;
            },
            _ => {},
        }
        let found = match event {
            WebEvent::Probed(found) => found,
            WebEvent::Done => return WebAction::Probe,
        };
        match self.stage {
            WebStage::Looking => match found {
                Ok(ProbeResult::Healthy) => {
                    self.stage = WebStage::Over;
                    WebAction::Finish(WebLaunch { url: self.url.clone(), started: false })
                },
                Ok(ProbeResult::Unhealthy) => {
                    self.stage = WebStage::OldWait(0);
                    WebAction::Wait
                },
                Ok(ProbeResult::Missing) => {
                    self.stage = WebStage::Starting;
                    WebAction::Start
                },
                Err(error) => {
                    self.stage = WebStage::Over;
                    WebAction::Fail(error)
                },
            },
            WebStage::OldLook(n) => match found {
                Ok(found) => {
                    if found != ProbeResult::Missing && n + 1 < OLD_ROUNDS {
                        self.stage = WebStage::OldWait(n + 1);
                        WebAction::Wait
                    } else {
                        self.stage = WebStage::LastLook;
                        WebAction::Probe
                    }
                },
                Err(error) => {
                    self.stage = WebStage::Over;
                    WebAction::Fail(error)
                },
            },
            WebStage::LastLook => match found {
                Ok(ProbeResult::Missing) => {
                    self.stage = WebStage::Starting;
                    WebAction::Start
                },
                Ok(_) => {
                    self.stage = WebStage::Over;
                    WebAction::Fail("旧 Web 服务仍在退出，请稍后重试 /web".to_owned())
                },
                Err(error) => {
                    self.stage = WebStage::Over;
                    WebAction::Fail(error)
                },
            },
            WebStage::NewLook(n) => {
                match found {
                    Ok(ProbeResult::Healthy) => {
                        self.stage = WebStage::Over;
                        return WebAction::Finish(
                            WebLaunch { url: self.url.clone(), started: true },
                        );
                    },
                    Ok(_) => {},
                    Err(error) => {
                        self.last_error = Some(error);
                    },
                }
                if n + 1 < NEW_ROUNDS {
                    self.stage = WebStage::NewWait(n + 1);
                    return WebAction::Wait;
                }
                self.stage = WebStage::Over;
                let message = match &self.last_error {
                    Some(error) => {
                        let mut message = "Web 服务启动后健康检查失败: ".to_owned();
                        message.append(error.as_str());
                        message
                    },
                    None => {
                        let mut message = "Web 服务启动超时；请查看 ".to_owned();
                        message.append(self.log.as_str());
                        message
                    },
                };
                WebAction::Fail(message)
            },
            _ => WebAction::Probe,
        }
    }
}

/// How many actions there are still to come at most.
pub open spec fn web_actions_left(stage: WebStage) -> int {
    match stage {
        WebStage::Looking => 124,
        WebStage::OldWait(n) => 83 + 2 * (OLD_ROUNDS - n),
        WebStage::OldLook(n) => 82 + 2 * (OLD_ROUNDS - n),
        WebStage::LastLook => 83,
        WebStage::Starting => 82,
        WebStage::NewWait(n) => 1 + 2 * (NEW_ROUNDS - n),
        WebStage::NewLook(n) => 2 * (NEW_ROUNDS - n),
        WebStage::Over => 0,
    }
}

/// The way to a web server comes to an end: with each action fewer are left.
pub proof fn law_ensuring_web_comes_to_an_end(
    before: EnsureWeb,
    event: WebEvent,
    after: EnsureWeb,
    action: WebAction,
)
    requires
        web_awaits(before.stage, event),
        web_in_rounds(before.stage),
        web_step(before, event, after, action),
    ensures
        0 <= web_actions_left(after.stage) < web_actions_left(before.stage),
        web_in_rounds(after.stage),
{
}

/// A server is started only where none answers.
pub proof fn law_web_server_is_started_only_where_none_answers(
    before: EnsureWeb,
    event: WebEvent,
    after: EnsureWeb,
    action: WebAction,
)
    requires
        web_awaits(before.stage, event),
        web_in_rounds(before.stage),
        web_step(before, event, after, action),
        action is Start,
    ensures
        event == WebEvent::Probed(Ok(ProbeResult::Missing)),
{
}

/// A server that answers well is used as it is; one that does not answer is started; one
/// that answers badly is given time to end.
pub proof fn law_answering_server_is_used(
    before: EnsureWeb,
    event: WebEvent,
    after: EnsureWeb,
    action: WebAction,
)
    requires
        web_step(before, event, after, action),
        before.stage == WebStage::Looking,
    ensures
        event == WebEvent::Probed(Ok(ProbeResult::Healthy)) ==> (action matches WebAction::Finish(
            launch,
        ) && launch.url@ == before.url@ && !launch.started),
        event == WebEvent::Probed(Ok(ProbeResult::Missing)) ==> action is Start,
        event == WebEvent::Probed(Ok(ProbeResult::Unhealthy)) ==> action is Wait && after.stage
            == WebStage::OldWait(0),
        event matches WebEvent::Probed(Err(error)) ==> action is Fail && (action->Fail_0)@ == error@,
{
}

/// A server that was started is used as soon as it answers well, and looked at in forty
/// rounds; an old one is given twenty to end, and a new one is started only where it has.
pub proof fn law_started_server_is_used_once_it_answers(
    before: EnsureWeb,
    event: WebEvent,
    after: EnsureWeb,
    action: WebAction,
    n: usize,
)
    requires
        web_step(before, event, after, action),
    ensures
        before.stage == WebStage::NewLook(n) && event == WebEvent::Probed(Ok(ProbeResult::Healthy))
            ==> (action matches WebAction::Finish(launch) && launch.url@ == before.url@
            && launch.started),
        before.stage == WebStage::NewLook(n) && event == WebEvent::Probed(Ok(ProbeResult::Missing))
            && n < 39 ==> action is Wait && after.stage == WebStage::NewWait((n + 1) as usize),
        before.stage == WebStage::NewLook(n) && event == WebEvent::Probed(Ok(ProbeResult::Missing))
            && n >= 39 ==> action is Fail,
        before.stage == WebStage::OldLook(n) && event
            == WebEvent::Probed(Ok(ProbeResult::Unhealthy)) && n < 19 ==> action is Wait
            && after.stage == WebStage::OldWait((n + 1) as usize),
        before.stage == WebStage::OldLook(n) && event
            == WebEvent::Probed(Ok(ProbeResult::Unhealthy)) && n >= 19 ==> after.stage
            == WebStage::LastLook,
        before.stage == WebStage::OldLook(n) && event == WebEvent::Probed(Ok(ProbeResult::Missing))
            ==> after.stage == WebStage::LastLook,
        before.stage == WebStage::LastLook && event == WebEvent::Probed(Ok(ProbeResult::Missing))
            ==> action is Start,
        before.stage == WebStage::LastLook && (event == WebEvent::Probed(Ok(ProbeResult::Healthy))
            || event == WebEvent::Probed(Ok(ProbeResult::Unhealthy))) ==> action is Fail,
{
}

/// What went wrong last with the new server is what is told when it is given up.
pub proof fn law_last_error_is_told(
    before: EnsureWeb,
    event: WebEvent,
    after: EnsureWeb,
    action: WebAction,
    n: usize,
    error: String,
)
    requires
        web_step(before, event, after, action),
        before.stage == WebStage::NewLook(n),
        event == WebEvent::Probed(Err(error)),
    ensures
        after.last_error == Some(error),
        n >= 39 ==> action is Fail && (action->Fail_0)@ == "Web 服务启动后健康检查失败: "@ + error@,
{
}

/// A server is well with an answer of success, ending with one that it is not available, and
/// anything else is told.
pub proof fn law_health_is_read_from_the_status(
    url: &str,
    status: u16,
    status_text: &str,
    out: Result<ProbeResult, String>,
)
    requires
        call_ensures(probe, (url, status, status_text), out),
    ensures
        out == Ok::<ProbeResult, String>(ProbeResult::Healthy) <==> 200 <= status <= 299,
        out == Ok::<ProbeResult, String>(ProbeResult::Unhealthy) <==> status == 503,
        out is Err <==> !(200 <= status <= 299) && status != 503,
{
}

/// A token counts exactly where it is set to some text, and then as it is set.
pub proof fn law_token_is_kept_as_it_is_set(value: Option<&str>, token: Option<String>)
    requires
        call_ensures(api_token, (value,), token),
    ensures
        token is Some <==> value is Some && !is_blank_text((value->0)@),
        token matches Some(kept) ==> kept@ == (value->0)@,
{
}

/// A server is started only on this machine; it is looked for first, at the address of the
/// workspace.
pub proof fn law_server_is_started_on_this_machine_alone(
    address: &str,
    loopback: bool,
    workspace: &str,
    out: Result<(EnsureWeb, WebAction), String>,
)
    requires
        call_ensures(EnsureWeb::start, (address, loopback, workspace), out),
    ensures
        !loopback ==> out is Err,
        out matches Ok((web, action)) ==> loopback && action is Probe && web.stage
            == WebStage::Looking && web.url@ == url_with_pair(
            "http://"@ + address@,
            "workspace"@,
            workspace@,
        ),
        loopback && url_scheme("http://"@ + address@) is Ok ==> out is Ok,
{
}

/// The web server is found at the address that is set, else on this machine.
pub proof fn law_server_is_found_where_it_is_set(address: Option<&str>, url: String)
    requires
        call_ensures(configured_url, (address,), url),
    ensures
        address matches Some(at) ==> url@ == "http://"@ + at@,
        address is None ==> url@ == "http://"@ + "127.0.0.1:8787"@,
{
}

} // verus!

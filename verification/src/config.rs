//! The check of the settings that come from the environment.
use vstd::prelude::*;

use crate::number::{decimal, decimal_text, parse_number, parse_usize};
use crate::outside::{parse_url_scheme, url_scheme};
use crate::provider::{bool_setting, EnvValue};
use crate::text::{
    is_blank, is_blank_text, join, join_with, same_text, texts, to_ascii_lowercase, trimmed,
};

verus! {

/// Something that is wrong with a setting.
#[derive(Clone, Debug, PartialEq, Eq)]
pub struct ConfigIssue {
    pub variable: &'static str,
    pub message: String,
}

/// The mathematical value of a [`ConfigIssue`].
pub struct IssueView {
    pub variable: Seq<char>,
    pub message: Seq<char>,
}

impl View for ConfigIssue {
    type V = IssueView;

    open spec fn view(&self) -> IssueView {
        IssueView { variable: self.variable@, message: self.message@ }
    }
}

/// The views of some issues.
pub open spec fn issue_views(issues: Seq<ConfigIssue>) -> Seq<IssueView> {
    Seq::new(issues.len(), |i: int| issues[i]@)
}

/// The settings that the environment holds.
#[derive(Clone, Debug, PartialEq, Eq)]
pub struct Environment {
    pub openai_api_key: EnvValue,
    pub openai_base_url: EnvValue,
    pub model_name: EnvValue,
    pub context_token_budget: EnvValue,
    pub context_recent_messages: EnvValue,
    pub context_mild_percent: EnvValue,
    pub context_strong_percent: EnvValue,
    pub multimodal_enabled: EnvValue,
}

/// No issue.
pub open spec fn no_issue() -> Seq<IssueView> {
    Seq::empty()
}

/// One issue.
pub open spec fn one_issue(variable: Seq<char>, message: Seq<char>) -> Seq<IssueView> {
    seq![IssueView { variable, message }]
}

/// What is wrong with a setting that has to be there.
pub open spec fn filled_issue(variable: Seq<char>, value: EnvValue) -> Seq<IssueView> {
    match value {
        EnvValue::Missing => one_issue(variable, "未设置"@),
        EnvValue::Unreadable(error) => one_issue(variable, "无法读取："@ + error@),
        EnvValue::Present(text) => if is_blank_text(text@) {
            one_issue(variable, "不能为空"@)
        } else {
            no_issue()
        },
    }
}

/// What is wrong with the address of the model's service, where its text stands for a
/// URL with a scheme, or for none.
pub open spec fn base_url_issue(
    value: EnvValue,
    parsed: Result<Seq<char>, Seq<char>>,
) -> Seq<IssueView> {
    match value {
        EnvValue::Present(text) => if is_blank_text(text@) {
            one_issue("OPENAI_BASE_URL"@, "不能为空"@)
        } else {
            match parsed {
                Ok(scheme) => if scheme == "http"@ || scheme == "https"@ {
                    no_issue()
                } else {
                    one_issue("OPENAI_BASE_URL"@, "必须使用 http:// 或 https://"@)
                },
                Err(error) => one_issue("OPENAI_BASE_URL"@, "不是合法 URL："@ + error),
            }
        },
        _ => filled_issue("OPENAI_BASE_URL"@, value),
    }
}

/// The number that a setting stands for.
pub open spec fn setting_number(value: EnvValue) -> Option<nat> {
    match value {
        EnvValue::Present(text) => parse_number(text@, usize::MAX as nat),
        _ => None,
    }
}

/// What is wrong with a setting that has to be a number in a range.
pub open spec fn range_issue(
    variable: Seq<char>,
    value: EnvValue,
    minimum: nat,
    maximum: nat,
) -> Seq<IssueView> {
    let fits = setting_number(value) matches Some(n) && minimum <= n <= maximum;
    if value is Present && !fits {
        one_issue(
            variable,
            "必须是 "@ + decimal(minimum) + "..="@ + decimal(maximum) + " 的整数"@,
        )
    } else {
        no_issue()
    }
}

/// A number or what stands for it.
pub open spec fn or_else(number: Option<nat>, default: nat) -> nat {
    match number {
        Some(n) => n,
        None => default,
    }
}

/// What is wrong with the two percentages at which a context is compressed.
pub open spec fn order_issue(mild: EnvValue, strong: EnvValue) -> Seq<IssueView> {
    if or_else(setting_number(mild), 60) >= or_else(setting_number(strong), 85) {
        one_issue(
            "CONTEXT_MILD_PERCENT / CONTEXT_STRONG_PERCENT"@,
            "必须满足温和阈值小于强力阈值"@,
        )
    } else {
        no_issue()
    }
}

/// What is wrong with a setting that is on or off.
pub open spec fn switch_issue(value: EnvValue) -> Seq<IssueView> {
    match value {
        EnvValue::Present(text) => if bool_setting(text@) is None {
            one_issue("MULTIMODAL_ENABLED"@, "必须是 true/false、1/0、yes/no 或 on/off"@)
        } else {
            no_issue()
        },
        _ => no_issue(),
    }
}

/// All that is wrong with the settings, where the address of the model's service was
/// read as given.
pub open spec fn all_issues(
    environment: Environment,
    parsed: Result<Seq<char>, Seq<char>>,
) -> Seq<IssueView> {
    filled_issue("OPENAI_API_KEY"@, environment.openai_api_key) + base_url_issue(
        environment.openai_base_url,
        parsed,
    ) + filled_issue("MODEL_NAME"@, environment.model_name) + range_issue(
        "CONTEXT_TOKEN_BUDGET"@,
        environment.context_token_budget,
        256,
        usize::MAX as nat,
    ) + range_issue(
        "CONTEXT_RECENT_MESSAGES"@,
        environment.context_recent_messages,
        1,
        usize::MAX as nat,
    ) + range_issue("CONTEXT_MILD_PERCENT"@, environment.context_mild_percent, 1, 99) + range_issue(
        "CONTEXT_STRONG_PERCENT"@,
        environment.context_strong_percent,
        2,
        100,
    ) + order_issue(environment.context_mild_percent, environment.context_strong_percent)
        + switch_issue(environment.multimodal_enabled)
}

fn add_issue(issues: &mut Vec<ConfigIssue>, variable: &'static str, message: String)
    ensures
        issue_views(final(issues)@) == issue_views(old(issues)@) + one_issue(variable@, message@),
{
    let ghost before = issues@;
    issues.push(ConfigIssue { variable, message });
    assert(issue_views(issues@) =~= issue_views(before) + one_issue(variable@, message@));
}

fn require_non_empty(variable: &'static str, value: &EnvValue, issues: &mut Vec<ConfigIssue>)
    ensures
        issue_views(final(issues)@) == issue_views(old(issues)@) + filled_issue(variable@, *value),
{
    match value {
        EnvValue::Missing => add_issue(issues, variable, "未设置".to_owned()),
        EnvValue::Unreadable(error) => {
            let mut message = "无法读取：".to_owned();
            message.append(error.as_str());
            add_issue(issues, variable, message);
        },
        EnvValue::Present(text) => {
            if is_blank(text.as_str()) {
                add_issue(issues, variable, "不能为空".to_owned());
            } else {
                assert(issue_views(issues@) =~= issue_views(issues@) + no_issue());
            }
        },
    }
}

fn require_base_url(
    value: &EnvValue,
    parsed: &Result<String, String>,
    issues: &mut Vec<ConfigIssue>,
)
    ensures
        issue_views(final(issues)@) == issue_views(old(issues)@) + base_url_issue(
            *value,
            parsed_view(*parsed),
        ),
{
    match value {
        EnvValue::Present(text) => {
            if is_blank(text.as_str()) {
                add_issue(issues, "OPENAI_BASE_URL", "不能为空".to_owned());
            } else {
                match parsed {
                    Ok(scheme) => {
                        if same_text(scheme.as_str(), "http") || same_text(
                            scheme.as_str(),
                            "https",
                        ) {
                            assert(issue_views(issues@) =~= issue_views(issues@) + no_issue());
                        } else {
                            add_issue(
                                issues,
                                "OPENAI_BASE_URL",
                                "必须使用 http:// 或 https://".to_owned(),
                            );
                        }
                    },
                    Err(error) => {
                        let mut message = "不是合法 URL：".to_owned();
                        message.append(error.as_str());
                        add_issue(issues, "OPENAI_BASE_URL", message);
                    },
                }
            }
        },
        _ => require_non_empty("OPENAI_BASE_URL", value, issues),
    }
}

fn optional_parsed_usize(value: &EnvValue) -> (number: Option<usize>)
    ensures
        match number {
            Some(n) => setting_number(*value) == Some(n as nat),
            None => setting_number(*value) is None,
        },
{
    match value {
        EnvValue::Present(text) => parse_usize(text.as_str()),
        _ => None,
    }
}

fn validate_usize(
    variable: &'static str,
    value: &EnvValue,
    minimum: usize,
    maximum: usize,
    issues: &mut Vec<ConfigIssue>,
)
    ensures
        issue_views(final(issues)@) == issue_views(old(issues)@) + range_issue(
            variable@,
            *value,
            minimum as nat,
            maximum as nat,
        ),
{
    if let EnvValue::Present(_) = value {
        let fits = match optional_parsed_usize(value) {
            Some(n) => minimum <= n && n <= maximum,
            None => false,
        };
        if !fits {
            let mut message = "必须是 ".to_owned();
            message.append(decimal_text(minimum as u128).as_str());
            message.append("..=");
            message.append(decimal_text(maximum as u128).as_str());
            message.append(" 的整数");
            add_issue(issues, variable, message);
            return ;
        }
    }
    assert(issue_views(issues@) =~= issue_views(issues@) + no_issue());
}

fn validate_switch(value: &EnvValue, issues: &mut Vec<ConfigIssue>)
    ensures
        issue_views(final(issues)@) == issue_views(old(issues)@) + switch_issue(*value),
{
    if let EnvValue::Present(text) = value {
        let lower = to_ascii_lowercase(trimmed(text.as_str()).as_str());
        let word = lower.as_str();
        let known = same_text(word, "1") || same_text(word, "true") || same_text(word, "yes")
            || same_text(word, "on") || same_text(word, "0") || same_text(word, "false")
            || same_text(word, "no") || same_text(word, "off");
        if !known {
            add_issue(
                issues,
                "MULTIMODAL_ENABLED",
                "必须是 true/false、1/0、yes/no 或 on/off".to_owned(),
            );
            return ;
        }
    }
    assert(issue_views(issues@) =~= issue_views(issues@) + no_issue());
}

/// The view of what a URL was read as.
pub open spec fn parsed_view(parsed: Result<String, String>) -> Result<Seq<char>, Seq<char>> {
    match parsed {
        Ok(scheme) => Ok(scheme@),
        Err(error) => Err(error@),
    }
}

/// All that is wrong with the settings, where the address of the model's service was
/// read as given: as a URL with a scheme, or as none for a reason.
pub fn check_settings(environment: &Environment, parsed: &Result<String, String>) -> (issues: Vec<
    ConfigIssue,
>)
    ensures
        issue_views(issues@) == all_issues(*environment, parsed_view(*parsed)),
{
    let mut issues: Vec<ConfigIssue> = Vec::new();
    assert(issue_views(issues@) =~= Seq::empty());
    require_non_empty("OPENAI_API_KEY", &environment.openai_api_key, &mut issues);
    assert(issue_views(issues@) =~= filled_issue("OPENAI_API_KEY"@, environment.openai_api_key));
    require_base_url(&environment.openai_base_url, parsed, &mut issues);
    require_non_empty("MODEL_NAME", &environment.model_name, &mut issues);
    validate_usize(
        "CONTEXT_TOKEN_BUDGET",
        &environment.context_token_budget,
        256,
        usize::MAX,
        &mut issues,
    );
    validate_usize(
        "CONTEXT_RECENT_MESSAGES",
        &environment.context_recent_messages,
        1,
        usize::MAX,
        &mut issues,
    );
    validate_usize("CONTEXT_MILD_PERCENT", &environment.context_mild_percent, 1, 99, &mut issues);
    validate_usize(
        "CONTEXT_STRONG_PERCENT",
        &environment.context_strong_percent,
        2,
        100,
        &mut issues,
    );
    let mild = match optional_parsed_usize(&environment.context_mild_percent) {
        Some(n) => n,
        None => 60,
    };
    let strong = match optional_parsed_usize(&environment.context_strong_percent) {
        Some(n) => n,
        None => 85,
    };
    if mild >= strong {
        add_issue(
            &mut issues,
            "CONTEXT_MILD_PERCENT / CONTEXT_STRONG_PERCENT",
            "必须满足温和阈值小于强力阈值".to_owned(),
        );
    } else {
        assert(issue_views(issues@) =~= issue_views(issues@) + no_issue());
    }
    validate_switch(&environment.multimodal_enabled, &mut issues);
    issues
}

/// What the text of a setting stands for as a URL.
pub open spec fn setting_url(value: EnvValue) -> Result<Seq<char>, Seq<char>> {
    match value {
        EnvValue::Present(text) => url_scheme(text@),
        _ => Err(Seq::empty()),
    }
}

/// All that is wrong with the settings.
pub fn check_environment(environment: &Environment) -> (issues: Vec<ConfigIssue>)
    ensures
        issue_views(issues@) == all_issues(*environment, setting_url(environment.openai_base_url)),
{
    let parsed: Result<String, String> = match &environment.openai_base_url {
        EnvValue::Present(text) => parse_url_scheme(text.as_str()),
        _ => {
            let none = String::new();
            assert(none@ =~= Seq::empty());
            Err(none)
        },
    };
    check_settings(environment, &parsed)
}

/// An issue on one line.
pub open spec fn issue_line(issue: IssueView) -> Seq<char> {
    issue.variable + "："@ + issue.message
}

/// What is said where the settings are not in order.
pub open spec fn refusal(issues: Seq<IssueView>) -> Seq<char> {
    "配置校验失败："@ + join_with(Seq::new(issues.len(), |i: int| issue_line(issues[i])), "；"@)
        + "\n首次使用示例：\n  export OPENAI_API_KEY='你的密钥'\n  export OPENAI_BASE_URL='https://api.deepseek.com'\n  export MODEL_NAME='deepseek-chat'\n然后运行：my-agent config check"@
}

fn issue_lines(issues: &Vec<ConfigIssue>) -> (lines: Vec<String>)
    ensures
        texts(lines@) == Seq::new(
            issues@.len(),
            |i: int| issue_line(issue_views(issues@)[i]),
        ),
{
    let mut lines: Vec<String> = Vec::new();
    let mut at: usize = 0;
    while at < issues.len()
        invariant
            at == lines.len(),
            at <= issues.len(),
            forall|i: int| 0 <= i < at ==> (#[trigger] lines@[i])@ == issue_line(issues@[i]@),
        decreases issues.len() - at,
    {
        let mut line = issues[at].variable.to_owned();
        line.append("：");
        line.append(issues[at].message.as_str());
        lines.push(line);
        at += 1;
    }
    assert(texts(lines@) =~= Seq::new(
        issues@.len(),
        |i: int| issue_line(issue_views(issues@)[i]),
    ));
    lines
}

/// What is said of some issues; nothing is said where there are none.
pub fn refuse_issues(issues: &Vec<ConfigIssue>) -> (out: Result<(), String>)
    ensures
        match out {
            Ok(_) => issues@.len() == 0,
            Err(message) => issues@.len() > 0 && message@ == refusal(issue_views(issues@)),
        },
{
    if issues.len() == 0 {
        return Ok(());
    }
    let lines = issue_lines(issues);
    let mut message = "配置校验失败：".to_owned();
    message.append(join(&lines, "；").as_str());
    message.append(
        "\n首次使用示例：\n  export OPENAI_API_KEY='你的密钥'\n  export OPENAI_BASE_URL='https://api.deepseek.com'\n  export MODEL_NAME='deepseek-chat'\n然后运行：my-agent config check",
    );
    Err(message)
}

/// Whether the settings are in order; if not, all that is wrong with them.
pub fn validate_environment(environment: &Environment) -> (out: Result<(), String>)
    ensures
        ({
            let issues = all_issues(*environment, setting_url(environment.openai_base_url));
            match out {
                Ok(_) => issues.len() == 0,
                Err(message) => issues.len() > 0 && message@ == refusal(issues),
            }
        }),
{
    let issues = check_environment(environment);
    assert(issue_views(issues@).len() == issues@.len());
    refuse_issues(&issues)
}

/// What a check of the settings prints: that all is well, or each issue.
pub open spec fn report_lines(issues: Seq<IssueView>) -> Seq<Seq<char>> {
    if issues.len() == 0 {
        seq!["配置检查通过。API 密钥已设置（值不会显示）。"@]
    } else {
        seq!["配置检查发现 "@ + decimal(issues.len()) + " 个问题："@] + Seq::new(
            issues.len(),
            |i: int| "- "@ + issues[i].variable + "："@ + issues[i].message,
        )
    }
}

/// What a check of the settings prints, and why it fails, if it does.
pub fn run_config_check(issues: &Vec<ConfigIssue>) -> (out: (Vec<String>, Result<(), String>))
    ensures
        texts(out.0@) == report_lines(issue_views(issues@)),
        match out.1 {
            Ok(_) => issues@.len() == 0,
            Err(message) => issues@.len() > 0 && message@
                == "配置尚未就绪；请修正以上环境变量"@,
        },
{
    let mut lines: Vec<String> = Vec::new();
    if issues.len() == 0 {
        lines.push("配置检查通过。API 密钥已设置（值不会显示）。".to_owned());
        assert(texts(lines@) =~= report_lines(issue_views(issues@)));
        return (lines, Ok(()));
    }
    let mut head = "配置检查发现 ".to_owned();
    head.append(decimal_text(issues.len() as u128).as_str());
    head.append(" 个问题：");
    lines.push(head);
    let ghost wanted = report_lines(issue_views(issues@));
    let mut at: usize = 0;
    while at < issues.len()
        invariant
            at <= issues.len(),
            lines.len() == at + 1,
            lines@[0]@ == wanted[0],
            forall|i: int|
                1 <= i < at + 1 ==> (#[trigger] lines@[i])@ == "- "@ + issues@[i - 1]@.variable
                    + "："@ + issues@[i - 1]@.message,
        decreases issues.len() - at,
    {
        let mut line = "- ".to_owned();
        line.append(issues[at].variable);
        line.append("：");
        line.append(issues[at].message.as_str());
        lines.push(line);
        at += 1;
    }
    assert(texts(lines@) =~= wanted);
    (lines, Err("配置尚未就绪；请修正以上环境变量".to_owned()))
}

/// The settings are in order only with a key, an address and a model, and with the
/// first of the two percentages below the second.
pub proof fn law_valid_settings_are_complete(
    environment: Environment,
    parsed: Result<Seq<char>, Seq<char>>,
)
    requires
        all_issues(environment, parsed).len() == 0,
    ensures
        environment.openai_api_key matches EnvValue::Present(key) && !is_blank_text(key@),
        environment.openai_base_url matches EnvValue::Present(url) && !is_blank_text(url@),
        parsed == Ok::<Seq<char>, Seq<char>>("http"@) || parsed == Ok::<Seq<char>, Seq<char>>(
            "https"@,
        ),
        environment.model_name matches EnvValue::Present(name) && !is_blank_text(name@),
        or_else(setting_number(environment.context_mild_percent), 60) < or_else(
            setting_number(environment.context_strong_percent),
            85,
        ),
{
}

/// The key shows in nothing that is said of the settings: with another key that is
/// filled all is said alike.
pub proof fn law_key_is_never_shown(
    environment: Environment,
    other: Environment,
    parsed: Result<Seq<char>, Seq<char>>,
)
    requires
        environment.openai_api_key matches EnvValue::Present(key) && !is_blank_text(key@),
        other.openai_api_key matches EnvValue::Present(key) && !is_blank_text(key@),
        (Environment { openai_api_key: other.openai_api_key, ..environment }) == other,
    ensures
        all_issues(environment, parsed) == all_issues(other, parsed),
        refusal(all_issues(environment, parsed)) == refusal(all_issues(other, parsed)),
        report_lines(all_issues(environment, parsed)) == report_lines(all_issues(other, parsed)),
{
}

/// Nothing is wrong with the settings exactly where the key, the address and the model are
/// given, the address is one of the web, the numbers lie in their ranges, the mild threshold
/// lies below the strong one, and the switch can be read.
pub proof fn law_good_settings_have_no_issue(
    environment: Environment,
    parsed: Result<Seq<char>, Seq<char>>,
)
    ensures
        all_issues(environment, parsed).len() == 0 <==> {
            &&& environment.openai_api_key matches EnvValue::Present(key) && !is_blank_text(key@)
            &&& environment.openai_base_url matches EnvValue::Present(url) && !is_blank_text(url@)
            &&& parsed == Ok::<Seq<char>, Seq<char>>("http"@) || parsed == Ok::<
                Seq<char>,
                Seq<char>,
            >("https"@)
            &&& environment.model_name matches EnvValue::Present(name) && !is_blank_text(name@)
            &&& environment.context_token_budget matches EnvValue::Present(text) ==> parse_number(
                text@,
                usize::MAX as nat,
            ) matches Some(n) && n >= 256
            &&& environment.context_recent_messages matches EnvValue::Present(text)
                ==> parse_number(text@, usize::MAX as nat) matches Some(n) && n >= 1
            &&& environment.context_mild_percent matches EnvValue::Present(text) ==> parse_number(
                text@,
                usize::MAX as nat,
            ) matches Some(n) && 1 <= n <= 99
            &&& environment.context_strong_percent matches EnvValue::Present(text) ==> parse_number(
                text@,
                usize::MAX as nat,
            ) matches Some(n) && 2 <= n <= 100
            &&& threshold(environment.context_mild_percent, 60) < threshold(
                environment.context_strong_percent,
                85,
            )
            &&& environment.multimodal_enabled matches EnvValue::Present(text) ==> bool_setting(
                text@,
            ) is Some
        },
{
    lemma_lengths_add(environment, parsed);
    if let EnvValue::Present(text) = environment.context_token_budget {
        if let Some(n) = parse_number(text@, usize::MAX as nat) {
            assert(n <= usize::MAX);
        }
    }
}

/// The number of a setting, and a number for where it gives none.
pub open spec fn threshold(value: EnvValue, default: nat) -> nat {
    match value {
        EnvValue::Present(text) => match parse_number(text@, usize::MAX as nat) {
            Some(n) => n,
            None => default,
        },
        _ => default,
    }
}

proof fn lemma_lengths_add(environment: Environment, parsed: Result<Seq<char>, Seq<char>>)
    ensures
        all_issues(environment, parsed).len() == filled_issue(
            "OPENAI_API_KEY"@,
            environment.openai_api_key,
        ).len() + base_url_issue(environment.openai_base_url, parsed).len() + filled_issue(
            "MODEL_NAME"@,
            environment.model_name,
        ).len() + range_issue(
            "CONTEXT_TOKEN_BUDGET"@,
            environment.context_token_budget,
            256,
            usize::MAX as nat,
        ).len() + range_issue(
            "CONTEXT_RECENT_MESSAGES"@,
            environment.context_recent_messages,
            1,
            usize::MAX as nat,
        ).len() + range_issue(
            "CONTEXT_MILD_PERCENT"@,
            environment.context_mild_percent,
            1,
            99,
        ).len() + range_issue(
            "CONTEXT_STRONG_PERCENT"@,
            environment.context_strong_percent,
            2,
            100,
        ).len() + order_issue(
            environment.context_mild_percent,
            environment.context_strong_percent,
        ).len() + switch_issue(environment.multimodal_enabled).len(),
{
}

/// A setting that is missing, unreadable or empty is reported as such, whatever else is
/// wrong.
pub proof fn law_missing_settings_are_reported(
    environment: Environment,
    parsed: Result<Seq<char>, Seq<char>>,
)
    ensures
        ({
            let issues = all_issues(environment, parsed);
            &&& environment.openai_api_key is Missing ==> issues.contains(
                IssueView { variable: "OPENAI_API_KEY"@, message: "未设置"@ },
            )
            &&& environment.openai_base_url is Missing ==> issues.contains(
                IssueView { variable: "OPENAI_BASE_URL"@, message: "未设置"@ },
            )
            &&& environment.model_name is Missing ==> issues.contains(
                IssueView { variable: "MODEL_NAME"@, message: "未设置"@ },
            )
            &&& (environment.openai_api_key matches EnvValue::Present(text) && is_blank_text(text@))
                ==> issues.contains(
                IssueView { variable: "OPENAI_API_KEY"@, message: "不能为空"@ },
            )
            &&& (environment.openai_base_url matches EnvValue::Present(text) && is_blank_text(text@))
                ==> issues.contains(
                IssueView { variable: "OPENAI_BASE_URL"@, message: "不能为空"@ },
            )
            &&& (environment.model_name matches EnvValue::Present(text) && is_blank_text(text@))
                ==> issues.contains(IssueView { variable: "MODEL_NAME"@, message: "不能为空"@ })
        }),
{
    let issues = all_issues(environment, parsed);
    let key = filled_issue("OPENAI_API_KEY"@, environment.openai_api_key);
    let url = base_url_issue(environment.openai_base_url, parsed);
    let model = filled_issue("MODEL_NAME"@, environment.model_name);
    if key.len() > 0 {
        assert(issues[0] == key[0]);
    }
    if url.len() > 0 {
        assert(issues[key.len() as int] == url[0]);
    }
    if model.len() > 0 {
        assert(issues[key.len() + url.len() as int] == model[0]);
    }
}

/// Every issue is told with its variable and what is wrong with it, in a refusal as in a
/// report.
pub proof fn law_every_issue_is_told(issues: Seq<IssueView>, i: int)
    requires
        0 <= i < issues.len(),
    ensures
        crate::text::contains_text(
            refusal(issues),
            issues[i].variable + "："@ + issues[i].message,
        ),
        report_lines(issues).len() == issues.len() + 1,
        report_lines(issues)[0] == "配置检查发现 "@ + decimal(issues.len()) + " 个问题："@,
        report_lines(issues)[i + 1] == "- "@ + issues[i].variable + "："@ + issues[i].message,
{
    let lines = Seq::new(issues.len(), |i: int| issue_line(issues[i]));
    let line = issues[i].variable + "："@ + issues[i].message;
    let at = crate::slash::lemma_join_contains(lines, "；"@, i);
    let said = join_with(lines, "；"@);
    let head = "配置校验失败："@;
    let whole = refusal(issues);
    let tail = "\n首次使用示例：\n  export OPENAI_API_KEY='你的密钥'\n  export OPENAI_BASE_URL='https://api.deepseek.com'\n  export MODEL_NAME='deepseek-chat'\n然后运行：my-agent config check"@;
    assert(said =~= said.take(at) + line + said.skip(at + line.len()));
    assert(whole =~= (head + said.take(at)) + line + (said.skip(at + line.len()) + tail));
    crate::text::law_text_contains_its_pieces(
        whole,
        head + said.take(at),
        line,
        said.skip(at + line.len()) + tail,
    );
}

/// Settings that pass have a key and a model, and the address that is set is one of the web.
pub proof fn law_passing_settings_can_be_used(environment: &Environment, out: Result<(), String>)
    requires
        call_ensures(validate_environment, (environment,), out),
        out is Ok,
    ensures
        environment.openai_api_key matches EnvValue::Present(key) && !is_blank_text(key@),
        environment.model_name matches EnvValue::Present(name) && !is_blank_text(name@),
        environment.openai_base_url matches EnvValue::Present(url) && (url_scheme(url@) == Ok::<
            Seq<char>,
            Seq<char>,
        >("http"@) || url_scheme(url@) == Ok::<Seq<char>, Seq<char>>("https"@)),
{
    law_valid_settings_are_complete(*environment, setting_url(environment.openai_base_url));
}

} // verus!

//! The commands that a user types with a slash.
use vstd::prelude::*;

use crate::json::Json;
use crate::session::SessionInfo;
use crate::text::{
    ascii_lower_text, chars_of, contains_text, join, join_with, occurs_at, same_text, slice_text,
    split_whitespace, texts, to_ascii_lowercase, trim, trimmed, words,
};

verus! {

/// What a command does.
#[derive(Clone, Copy, Debug, PartialEq, Eq, Structural)]
pub enum SlashAction {
    Help,
    Status,
    Sessions,
    Resume,
    New,
    Cancel,
    Exit,
    Ping,
    Skill,
    Cron,
    Mcp,
    Dogfood,
    Web,
}

/// How many arguments a command takes; what they are, in words.
#[derive(Clone, Copy, Debug, PartialEq, Eq)]
pub enum ArgSpec {
    NoArgs,
    OptionalOne(&'static str),
    AtLeastOne(&'static str),
}

/// The mathematical value of an [`ArgSpec`].
pub enum ArgView {
    NoArgs,
    OptionalOne(Seq<char>),
    AtLeastOne(Seq<char>),
}

impl View for ArgSpec {
    type V = ArgView;

    open spec fn view(&self) -> ArgView {
        match *self {
            ArgSpec::NoArgs => ArgView::NoArgs,
            ArgSpec::OptionalOne(label) => ArgView::OptionalOne(label@),
            ArgSpec::AtLeastOne(label) => ArgView::AtLeastOne(label@),
        }
    }
}

/// A command of the registry.
#[derive(Clone, Debug, PartialEq, Eq)]
pub struct SlashCommand {
    pub name: &'static str,
    pub aliases: Vec<&'static str>,
    pub help: &'static str,
    pub usage: &'static str,
    pub args: ArgSpec,
    pub action: SlashAction,
}

/// The mathematical value of a [`SlashCommand`].
pub struct CommandView {
    pub name: Seq<char>,
    pub aliases: Seq<Seq<char>>,
    pub help: Seq<char>,
    pub usage: Seq<char>,
    pub args: ArgView,
    pub action: SlashAction,
}

/// The views of some borrowed texts.
pub open spec fn str_views(list: Seq<&'static str>) -> Seq<Seq<char>> {
    Seq::new(list.len(), |i: int| list[i]@)
}

impl View for SlashCommand {
    type V = CommandView;

    open spec fn view(&self) -> CommandView {
        CommandView {
            name: self.name@,
            aliases: str_views(self.aliases@),
            help: self.help@,
            usage: self.usage@,
            args: self.args@,
            action: self.action,
        }
    }
}

/// The views of some commands.
pub open spec fn command_views(commands: Seq<SlashCommand>) -> Seq<CommandView> {
    Seq::new(commands.len(), |i: int| commands[i]@)
}

/// A command without aliases.
pub open spec fn plain_command(
    name: Seq<char>,
    help: Seq<char>,
    usage: Seq<char>,
    args: ArgView,
    action: SlashAction,
) -> CommandView {
    CommandView { name, aliases: Seq::empty(), help, usage, args, action }
}

/// The commands that there are.
pub open spec fn builtin_commands() -> Seq<CommandView> {
    seq![
        plain_command("help"@, "查看命令"@, "/help"@, ArgView::NoArgs, SlashAction::Help),
        plain_command("status"@, "查看当前会话状态"@, "/status"@, ArgView::NoArgs, SlashAction::Status),
        plain_command("sessions"@, "列出会话文件"@, "/sessions"@, ArgView::NoArgs, SlashAction::Sessions),
        plain_command(
            "resume"@,
            "列出或恢复历史会话"@,
            "/resume [编号|ID]"@,
            ArgView::OptionalOne("编号或 session ID"@),
            SlashAction::Resume,
        ),
        plain_command("new"@, "新建空白会话"@, "/new"@, ArgView::NoArgs, SlashAction::New),
        plain_command("cancel"@, "提示如何取消前台请求"@, "/cancel"@, ArgView::NoArgs, SlashAction::Cancel),
        plain_command(
            "skill"@,
            "管理本地版本化 skill（list/install/update/remove）"@,
            "/skill <子命令> [...]"@,
            ArgView::AtLeastOne("子命令"@),
            SlashAction::Skill,
        ),
        plain_command(
            "cron"@,
            "管理定时任务（list/add/enable/disable/run-now/remove）"@,
            "/cron <子命令> [...]"@,
            ArgView::AtLeastOne("子命令"@),
            SlashAction::Cron,
        ),
        plain_command(
            "mcp"@,
            "查看或重载 MCP server（list/status/reload）"@,
            "/mcp <list|status|reload>"@,
            ArgView::AtLeastOne("子命令"@),
            SlashAction::Mcp,
        ),
        plain_command(
            "ping"@,
            "检查命令注册表与 daemon 连通性"@,
            "/ping"@,
            ArgView::NoArgs,
            SlashAction::Ping,
        ),
        CommandView {
            name: "exit"@,
            aliases: seq!["quit"@],
            help: "断开并退出当前交互入口"@,
            usage: "/exit"@,
            args: ArgView::NoArgs,
            action: SlashAction::Exit,
        },
    ]
}

/// Whether a command goes by a name.
pub open spec fn goes_by(command: CommandView, name: Seq<char>) -> bool {
    command.name == name || command.aliases.contains(name)
}

/// The first command that goes by a name.
pub open spec fn find_command(commands: Seq<CommandView>, name: Seq<char>) -> Option<CommandView>
    decreases commands.len(),
{
    if commands.len() == 0 {
        None
    } else if goes_by(commands[0], name) {
        Some(commands[0])
    } else {
        find_command(commands.skip(1), name)
    }
}

/// Whether a command takes a number of arguments.
pub open spec fn takes(args: ArgView, count: nat) -> bool {
    match args {
        ArgView::NoArgs => count == 0,
        ArgView::OptionalOne(_) => count <= 1,
        ArgView::AtLeastOne(_) => count > 0,
    }
}

/// What is wrong with arguments that a command does not take.
pub open spec fn args_complaint(args: ArgView) -> Seq<char> {
    match args {
        ArgView::NoArgs => "不接受参数"@,
        ArgView::OptionalOne(label) => "最多接受一个参数："@ + label,
        ArgView::AtLeastOne(label) => "至少需要一个参数："@ + label,
    }
}

/// A command with its arguments.
#[derive(Clone, Debug, PartialEq, Eq)]
pub struct SlashInvocation {
    pub action: SlashAction,
    pub args: Vec<String>,
}

/// What a line of input is.
#[derive(Clone, Debug, PartialEq, Eq)]
pub enum SlashParse {
    NotCommand,
    Command(SlashInvocation),
    Error(String),
}

/// The mathematical value of a [`SlashParse`].
pub enum SlashParseView {
    NotCommand,
    Command(SlashAction, Seq<Seq<char>>),
    Error(Seq<char>),
}

impl View for SlashParse {
    type V = SlashParseView;

    open spec fn view(&self) -> SlashParseView {
        match *self {
            SlashParse::NotCommand => SlashParseView::NotCommand,
            SlashParse::Command(invocation) => SlashParseView::Command(
                invocation.action,
                texts(invocation.args@),
            ),
            SlashParse::Error(text) => SlashParseView::Error(text@),
        }
    }
}

/// What some words after a slash ask for.
pub open spec fn parse_words(commands: Seq<CommandView>, list: Seq<Seq<char>>) -> SlashParseView {
    let name = if list.len() > 0 {
        ascii_lower_text(list[0])
    } else {
        Seq::empty()
    };
    let args = if list.len() > 0 {
        list.skip(1)
    } else {
        Seq::empty()
    };
    match find_command(commands, name) {
        None => SlashParseView::Error("未知命令：/"@ + name + "。输入 /help 查看命令。"@),
        Some(command) => if takes(command.args, args.len()) {
            SlashParseView::Command(command.action, args)
        } else {
            SlashParseView::Error(
                "命令 /"@ + command.name + " 参数错误："@ + args_complaint(command.args) + "。用法："@
                    + command.usage,
            )
        },
    }
}

/// What a line of input is: a command where a slash comes first.
pub open spec fn parse_line(commands: Seq<CommandView>, input: Seq<char>) -> SlashParseView {
    let line = trim(input);
    if line.len() > 0 && line[0] == '/' {
        parse_words(commands, words(line.skip(1)))
    } else {
        SlashParseView::NotCommand
    }
}

/// The length of the longest usage.
pub open spec fn widest_usage(commands: Seq<CommandView>) -> nat
    decreases commands.len(),
{
    if commands.len() == 0 {
        0
    } else {
        let rest = widest_usage(commands.drop_last());
        if commands.last().usage.len() > rest {
            commands.last().usage.len()
        } else {
            rest
        }
    }
}

/// A text with spaces behind it up to a width.
pub open spec fn padded(s: Seq<char>, width: nat) -> Seq<char> {
    if s.len() >= width {
        s
    } else {
        s + Seq::new((width - s.len()) as nat, |i: int| ' ')
    }
}

/// The line of help on a command.
pub open spec fn help_line(command: CommandView, width: nat) -> Seq<char> {
    padded(command.usage, width) + command.help + (if command.aliases.len() == 0 {
        Seq::empty()
    } else {
        "（别名：/"@ + join_with(command.aliases, "、/"@) + "）"@
    })
}

/// The lines of help on some commands.
pub open spec fn help_lines(commands: Seq<CommandView>) -> Seq<Seq<char>> {
    Seq::new(commands.len(), |i: int| help_line(commands[i], widest_usage(commands) + 2))
}

fn command(
    name: &'static str,
    aliases: Vec<&'static str>,
    help: &'static str,
    usage: &'static str,
    args: ArgSpec,
    action: SlashAction,
) -> (out: SlashCommand)
    ensures
        out@ == (CommandView {
            name: name@,
            aliases: str_views(aliases@),
            help: help@,
            usage: usage@,
            args: args@,
            action,
        }),
{
    SlashCommand { name, aliases, help, usage, args, action }
}

fn plain(
    name: &'static str,
    help: &'static str,
    usage: &'static str,
    args: ArgSpec,
    action: SlashAction,
) -> (out: SlashCommand)
    ensures
        out@ == plain_command(name@, help@, usage@, args@, action),
{
    let aliases: Vec<&'static str> = Vec::new();
    assert(str_views(aliases@) =~= Seq::empty());
    command(name, aliases, help, usage, args, action)
}

fn pad(text: &str, width: usize) -> (out: String)
    ensures
        out@ == padded(text@, width as nat),
{
    let mut out = text.to_owned();
    let length = chars_of(text).len();
    let mut at = length;
    while at < width
        invariant
            at >= length,
            length == text@.len(),
            at <= width || at == length,
            out@ == text@ + Seq::new((at - length) as nat, |i: int| ' '),
        decreases width - at,
    {
        out.push(' ');
        at += 1;
        assert(out@ =~= text@ + Seq::new((at - length) as nat, |i: int| ' '));
    }
    assert(out@ =~= padded(text@, width as nat));
    out
}

/// The registry of the commands that there are.
#[derive(Clone, Copy, Debug, PartialEq, Eq)]
pub struct SlashRegistry;

impl SlashRegistry {
    /// The registry of the commands that come with the agent.
    pub fn builtin() -> (registry: SlashRegistry)
        ensures
            registry == SlashRegistry,
    {
        SlashRegistry
    }

    /// The commands of the registry.
    pub fn commands(&self) -> (out: Vec<SlashCommand>)
        ensures
            command_views(out@) == builtin_commands(),
    {
        let mut out: Vec<SlashCommand> = Vec::new();
        out.push(plain("help", "查看命令", "/help", ArgSpec::NoArgs, SlashAction::Help));
        out.push(plain("status", "查看当前会话状态", "/status", ArgSpec::NoArgs, SlashAction::Status));
        out.push(plain("sessions", "列出会话文件", "/sessions", ArgSpec::NoArgs, SlashAction::Sessions));
        out.push(
            plain(
                "resume",
                "列出或恢复历史会话",
                "/resume [编号|ID]",
                ArgSpec::OptionalOne("编号或 session ID"),
                SlashAction::Resume,
            ),
        );
        out.push(plain("new", "新建空白会话", "/new", ArgSpec::NoArgs, SlashAction::New));
        out.push(plain("cancel", "提示如何取消前台请求", "/cancel", ArgSpec::NoArgs, SlashAction::Cancel));
        out.push(
            plain(
                "skill",
                "管理本地版本化 skill（list/install/update/remove）",
                "/skill <子命令> [...]",
                ArgSpec::AtLeastOne("子命令"),
                SlashAction::Skill,
            ),
        );
        out.push(
            plain(
                "cron",
                "管理定时任务（list/add/enable/disable/run-now/remove）",
                "/cron <子命令> [...]",
                ArgSpec::AtLeastOne("子命令"),
                SlashAction::Cron,
            ),
        );
        out.push(
            plain(
                "mcp",
                "查看或重载 MCP server（list/status/reload）",
                "/mcp <list|status|reload>",
                ArgSpec::AtLeastOne("子命令"),
                SlashAction::Mcp,
            ),
        );
        out.push(
            plain(
                "ping",
                "检查命令注册表与 daemon 连通性",
                "/ping",
                ArgSpec::NoArgs,
                SlashAction::Ping,
            ),
        );
        let aliases: Vec<&'static str> = vec!["quit"];
        assert(str_views(aliases@) =~= seq!["quit"@]);
        out.push(
            command("exit", aliases, "断开并退出当前交互入口", "/exit", ArgSpec::NoArgs, SlashAction::Exit),
        );
        assert(command_views(out@) =~= builtin_commands());
        out
    }

    /// What a line of input is.
    pub fn parse(&self, input: &str) -> (out: SlashParse)
        ensures
            out@ == parse_line(builtin_commands(), input@),
    {
        let line = trimmed(input);
        let chars = chars_of(line.as_str());
        if chars.len() == 0 || chars[0] != '/' {
            return SlashParse::NotCommand;
        }
        let rest = slice_text(&chars, 1, chars.len());
        assert(rest@ =~= line@.skip(1));
        let mut list = split_whitespace(rest.as_str());
        let ghost all = texts(list@);
        let mut name = String::new();
        let mut args: Vec<String> = Vec::new();
        if list.len() > 0 {
            args = list.split_off(1);
            name = to_ascii_lowercase(list[0].as_str());
            assert(texts(args@) =~= all.skip(1));
            assert(all[0] == list@[0]@);
        }
        assert(texts(args@) =~= (if all.len() > 0 {
            all.skip(1)
        } else {
            Seq::empty()
        }));
        let ghost wanted = name@;
        let commands = self.commands();
        let ghost table = builtin_commands();
        let mut at: usize = 0;
        assert(table.skip(0) =~= table);
        while at < commands.len() && !is_named(&commands[at], name.as_str())
            invariant
                at <= commands.len(),
                command_views(commands@) == table,
                find_command(table, name@) == find_command(table.skip(at as int), name@),
            decreases commands.len() - at,
        {
            assert(table.skip(at as int)[0] == commands@[at as int]@);
            assert(table.skip(at as int).skip(1) =~= table.skip(at + 1));
            at += 1;
        }
        if at == commands.len() {
            let mut text = "未知命令：/".to_owned();
            text.append(name.as_str());
            text.append("。输入 /help 查看命令。");
            return SlashParse::Error(text);
        }
        assert(table.skip(at as int)[0] == commands@[at as int]@);
        let found = &commands[at];
        let valid = match found.args {
            ArgSpec::NoArgs => args.len() == 0,
            ArgSpec::OptionalOne(_) => args.len() <= 1,
            ArgSpec::AtLeastOne(_) => args.len() > 0,
        };
        if !valid {
            let mut text = "命令 /".to_owned();
            text.append(found.name);
            text.append(" 参数错误：");
            let mut detail = String::new();
            match found.args {
                ArgSpec::NoArgs => {
                    detail.append("不接受参数");
                },
                ArgSpec::OptionalOne(label) => {
                    detail.append("最多接受一个参数：");
                    detail.append(label);
                },
                ArgSpec::AtLeastOne(label) => {
                    detail.append("至少需要一个参数：");
                    detail.append(label);
                },
            }
            assert(detail@ =~= args_complaint(found@.args));
            text.append(detail.as_str());
            text.append("。用法：");
            text.append(found.usage);
            return SlashParse::Error(text);
        }
        SlashParse::Command(SlashInvocation { action: found.action, args })
    }

    /// The help on all commands, one line each.
    pub fn help(&self) -> (out: String)
        ensures
            out@ == join_with(help_lines(builtin_commands()), "\n"@),
    {
        let commands = self.commands();
        let ghost table = builtin_commands();
        let mut width: usize = 0;
        let mut at: usize = 0;
        while at < commands.len()
            invariant
                at <= commands.len(),
                command_views(commands@) == table,
                width == widest_usage(table.take(at as int)),
                width <= 65535,
                table == builtin_commands(),
            decreases commands.len() - at,
        {
            assert(table.take(at + 1).drop_last() =~= table.take(at as int));
            assert(table.take(at + 1).last() == commands@[at as int]@);
            proof {
                lemma_usages_are_short(at as int);
            }
            let length = chars_of(commands[at].usage).len();
            if length > width {
                width = length;
            }
            at += 1;
        }
        assert(table.take(at as int) =~= table);
        width = width + 2;
        let mut list: Vec<String> = Vec::new();
        at = 0;
        while at < commands.len()
            invariant
                at == list.len(),
                at <= commands.len(),
                command_views(commands@) == table,
                width == widest_usage(table) + 2,
                forall|i: int|
                    0 <= i < at ==> (#[trigger] list@[i])@ == help_line(table[i], width as nat),
            decreases commands.len() - at,
        {
            let item = &commands[at];
            let mut line = pad(item.usage, width);
            line.append(item.help);
            let ghost front = line@;
            if item.aliases.len() > 0 {
                line.append("（别名：/");
                let names = owned(&item.aliases);
                let joined = join(&names, "、/");
                line.append(joined.as_str());
                line.append("）");
                assert(line@ =~= front + ("（别名：/"@ + join_with(item@.aliases, "、/"@) + "）"@));
            } else {
                assert(line@ =~= front + Seq::empty());
            }
            assert(table[at as int] == commands@[at as int]@);
            list.push(line);
            at += 1;
        }
        assert(texts(list@) =~= help_lines(table));
        join(&list, "\n")
    }
}

fn owned(list: &Vec<&'static str>) -> (out: Vec<String>)
    ensures
        texts(out@) == str_views(list@),
{
    let mut out: Vec<String> = Vec::new();
    let mut at: usize = 0;
    while at < list.len()
        invariant
            at == out.len(),
            at <= list.len(),
            forall|i: int| 0 <= i < at ==> (#[trigger] out@[i])@ == list@[i]@,
        decreases list.len() - at,
    {
        out.push(list[at].to_owned());
        at += 1;
    }
    assert(texts(out@) =~= str_views(list@));
    out
}

fn is_named(command: &SlashCommand, name: &str) -> (named: bool)
    ensures
        named == goes_by(command@, name@),
{
    if same_text(command.name, name) {
        return true;
    }
    let mut at: usize = 0;
    while at < command.aliases.len()
        invariant
            at <= command.aliases.len(),
            forall|i: int| 0 <= i < at ==> #[trigger] str_views(command.aliases@)[i] != name@,
        decreases command.aliases.len() - at,
    {
        if same_text(command.aliases[at], name) {
            assert(command@.aliases[at as int] == name@);
            return true;
        }
        at += 1;
    }
    false
}

proof fn lemma_usages_are_short(i: int)
    requires
        0 <= i < builtin_commands().len(),
    ensures
        builtin_commands()[i].usage.len() <= 65535,
{
    reveal_strlit("/help");
    reveal_strlit("/status");
    reveal_strlit("/sessions");
    reveal_strlit("/resume [编号|ID]");
    reveal_strlit("/new");
    reveal_strlit("/cancel");
    reveal_strlit("/skill <子命令> [...]");
    reveal_strlit("/cron <子命令> [...]");
    reveal_strlit("/mcp <list|status|reload>");
    reveal_strlit("/ping");
    reveal_strlit("/exit");
}

/// Each of some texts that are joined stands in what comes out.
pub proof fn lemma_join_contains(parts: Seq<Seq<char>>, separator: Seq<char>, i: int) -> (at: int)
    requires
        0 <= i < parts.len(),
    ensures
        occurs_at(join_with(parts, separator), parts[i], at),
    decreases parts.len(),
{
    let all = join_with(parts, separator);
    if parts.len() == 1 {
        assert(all.subrange(0, parts[0].len() as int) =~= parts[0]);
        0
    } else {
        let front = join_with(parts.drop_last(), separator);
        if i == parts.len() - 1 {
            let at = (front + separator).len() as int;
            assert(all.subrange(at, at + parts[i].len()) =~= parts[i]);
            at
        } else {
            let at = lemma_join_contains(parts.drop_last(), separator, i);
            assert(all.subrange(at, at + parts[i].len()) =~= front.subrange(at, at + parts[i].len()));
            at
        }
    }
}

/// The help is made from the registry: the usage of every command stands in it.
pub proof fn law_help_shows_every_command(i: int)
    requires
        0 <= i < builtin_commands().len(),
    ensures
        contains_text(join_with(help_lines(builtin_commands()), "\n"@), builtin_commands()[i].usage),
{
    let list = help_lines(builtin_commands());
    let all = join_with(list, "\n"@);
    let usage = builtin_commands()[i].usage;
    let at = lemma_join_contains(list, "\n"@, i);
    assert(list[i].take(usage.len() as int) =~= usage);
    assert(all.subrange(at, at + usage.len()) =~= all.subrange(at, at + list[i].len()).take(
        usage.len() as int,
    ));
    assert(occurs_at(all, usage, at));
}

/// An alias stands for the command that it belongs to.
pub proof fn law_alias_names_its_command(i: int, k: int)
    requires
        0 <= i < builtin_commands().len(),
        0 <= k < builtin_commands()[i].aliases.len(),
    ensures
        find_command(builtin_commands(), builtin_commands()[i].aliases[k]) == Some(
            builtin_commands()[i],
        ),
        find_command(builtin_commands(), builtin_commands()[i].name) == Some(builtin_commands()[i]),
{
    let table = builtin_commands();
    reveal_with_fuel(find_command, 12);
    reveal_strlit("help");
    reveal_strlit("status");
    reveal_strlit("sessions");
    reveal_strlit("resume");
    reveal_strlit("new");
    reveal_strlit("cancel");
    reveal_strlit("skill");
    reveal_strlit("cron");
    reveal_strlit("mcp");
    reveal_strlit("ping");
    reveal_strlit("exit");
    reveal_strlit("quit");
    assert(i == 10 && k == 0);
    assert(table[10].aliases[0] == "quit"@);
    assert(table[10].aliases.contains("quit"@));
    assert("quit"@[0] == 'q' && "exit"@[0] == 'e');
    assert(forall|j: int| 0 <= j < 10 ==> #[trigger] table[j].name[0] != 'q' && table[j].name[0] != 'e');
    lemma_find_at(table, "quit"@, 0, 10);
    lemma_find_at(table, "exit"@, 0, 10);
    assert(table.skip(0) =~= table);
}

proof fn lemma_find_at(commands: Seq<CommandView>, name: Seq<char>, from: int, at: int)
    requires
        0 <= from <= at < commands.len(),
        forall|j: int| from <= j < at ==> !goes_by(#[trigger] commands[j], name),
        goes_by(commands[at], name),
    ensures
        find_command(commands.skip(from), name) == Some(commands[at]),
    decreases at - from,
{
    let here = commands.skip(from);
    assert(here[0] == commands[from]);
    if from < at {
        assert(!goes_by(commands[from], name));
        assert(here.skip(1) =~= commands.skip(from + 1));
        lemma_find_at(commands, name, from + 1, at);
    }
}

/// What the daemon answers to a command.
#[derive(Debug, PartialEq, Eq)]
pub enum SlashResponse {
    Text { content: String },
    Exit,
    Sessions { sessions: Vec<SessionInfo>, select: bool },
    SessionChanged { message: String, snapshot: Json },
}

/// A command is found by its name or one of its aliases: the first that goes by it, and none
/// where none does.
pub proof fn law_commands_are_found_by_name_or_alias(
    commands: Seq<CommandView>,
    name: Seq<char>,
    at: int,
)
    requires
        0 <= at <= commands.len(),
        forall|i: int|
            0 <= i < at ==> (#[trigger] commands[i]).name != name && !commands[i].aliases.contains(
                name,
            ),
        at < commands.len() ==> commands[at].name == name || commands[at].aliases.contains(name),
    ensures
        at < commands.len() ==> find_command(commands, name) == Some(commands[at]),
        at == commands.len() ==> find_command(commands, name) is None,
    decreases commands.len(),
{
    if at > 0 {
        let rest = commands.skip(1);
        assert(commands[0].name != name);
        assert forall|i: int| 0 <= i < at - 1 implies (#[trigger] rest[i]).name != name
            && !rest[i].aliases.contains(name) by {
            assert(rest[i] == commands[i + 1]);
        }
        law_commands_are_found_by_name_or_alias(rest, name, at - 1);
    }
}

/// A line is a command exactly where it starts with a slash, white space aside. Its first
/// word, in any case of letters, names the command; the words behind it are its arguments,
/// and they are handed on as they are wherever their number fits.
pub proof fn law_lines_with_a_slash_are_commands(
    commands: Seq<CommandView>,
    input: Seq<char>,
    command: CommandView,
)
    ensures
        parse_line(commands, input) is NotCommand <==> !(trim(input).len() > 0 && trim(input)[0]
            == '/'),
        ({
            let line = trim(input);
            let list = words(line.skip(1));
            line.len() > 0 && line[0] == '/' && list.len() > 0 && find_command(
                commands,
                ascii_lower_text(list[0]),
            ) == Some(command) ==> {
                let count = list.len() - 1;
                let fits = match command.args {
                    ArgView::NoArgs => count == 0,
                    ArgView::OptionalOne(_) => count == 0 || count == 1,
                    ArgView::AtLeastOne(_) => count >= 1,
                };
                &&& fits ==> parse_line(commands, input) == SlashParseView::Command(
                    command.action,
                    list.skip(1),
                )
                &&& !fits ==> parse_line(commands, input) is Error
            }
        }),
        ({
            let line = trim(input);
            let list = words(line.skip(1));
            line.len() > 0 && line[0] == '/' && list.len() > 0 && find_command(
                commands,
                ascii_lower_text(list[0]),
            ) is None ==> parse_line(commands, input) == SlashParseView::Error(
                "未知命令：/"@ + ascii_lower_text(list[0]) + "。输入 /help 查看命令。"@,
            )
        }),
{
}

/// In the help every command stands on its own line: its usage, at least two spaces, and
/// then what it does, which starts at one column on all lines. Aliases are named behind it.
pub proof fn law_help_is_set_in_columns(commands: Seq<CommandView>, i: int)
    requires
        0 <= i < commands.len(),
    ensures
        ({
            let line = help_lines(commands)[i];
            let column = widest_usage(commands) as int + 2;
            &&& help_lines(commands).len() == commands.len()
            &&& commands[i].usage.len() + 2 <= column <= line.len()
            &&& line.take(commands[i].usage.len() as int) == commands[i].usage
            &&& forall|k: int| commands[i].usage.len() <= k < column ==> #[trigger] line[k] == ' '
            &&& commands[i].aliases.len() == 0 ==> line.skip(column) == commands[i].help
            &&& commands[i].aliases.len() > 0 ==> line.skip(column) == commands[i].help + "（别名：/"@
                + join_with(commands[i].aliases, "、/"@) + "）"@
        }),
{
    lemma_usage_fits(commands, i);
    let command = commands[i];
    let column = widest_usage(commands) as int + 2;
    let line = help_lines(commands)[i];
    let front = padded(command.usage, column as nat);
    assert(front.len() == column);
    assert(line.take(command.usage.len() as int) =~= command.usage);
    if command.aliases.len() == 0 {
        assert(line.skip(column) =~= command.help);
    } else {
        assert(line.skip(column) =~= command.help + "（别名：/"@ + join_with(
            command.aliases,
            "、/"@,
        ) + "）"@);
    }
}

proof fn lemma_usage_fits(commands: Seq<CommandView>, i: int)
    requires
        0 <= i < commands.len(),
    ensures
        commands[i].usage.len() <= widest_usage(commands),
    decreases commands.len(),
{
    if i < commands.len() - 1 {
        lemma_usage_fits(commands.drop_last(), i);
    }
}

} // verus!

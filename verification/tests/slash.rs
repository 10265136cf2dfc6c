use my_agent::slash::{ArgSpec, SlashAction, SlashInvocation, SlashParse, SlashRegistry};

#[test]
fn parses_alias_and_validates_arguments() {
    let registry = SlashRegistry::builtin();
    assert_eq!(
        registry.parse("/quit"),
        SlashParse::Command(SlashInvocation { action: SlashAction::Exit, args: Vec::new() })
    );
    assert!(matches!(registry.parse("/status extra"), SlashParse::Error(_)));
    assert!(matches!(registry.parse("hello"), SlashParse::NotCommand));
}

#[test]
fn help_is_generated_from_the_same_registry() {
    let registry = SlashRegistry::builtin();
    let help = registry.help();
    for command in registry.commands() {
        assert!(help.contains(command.usage));
    }
    assert!(help.contains("/ping"));
}

#[test]
fn each_kind_of_argument_error_names_its_command() {
    let registry = SlashRegistry::builtin();
    assert_eq!(
        registry.parse("/status extra"),
        SlashParse::Error("命令 /status 参数错误：不接受参数。用法：/status".to_owned())
    );
    assert_eq!(
        registry.parse("/resume a b"),
        SlashParse::Error(
            "命令 /resume 参数错误：最多接受一个参数：编号或 session ID。用法：/resume [编号|ID]"
                .to_owned()
        )
    );
    assert_eq!(
        registry.parse("/skill"),
        SlashParse::Error(
            "命令 /skill 参数错误：至少需要一个参数：子命令。用法：/skill <子命令> [...]".to_owned()
        )
    );
    assert_eq!(
        registry.parse("/ 什么"),
        SlashParse::Error("未知命令：/什么。输入 /help 查看命令。".to_owned())
    );
    assert_eq!(
        registry.parse("/"),
        SlashParse::Error("未知命令：/。输入 /help 查看命令。".to_owned())
    );
}

#[test]
fn names_are_read_without_regard_to_case_and_arguments_are_kept() {
    let registry = SlashRegistry::builtin();
    assert_eq!(
        registry.parse("  /SKILL install  a.md --Force "),
        SlashParse::Command(SlashInvocation {
            action: SlashAction::Skill,
            args: vec!["install".to_owned(), "a.md".to_owned(), "--Force".to_owned()],
        })
    );
}

#[test]
fn help_has_one_aligned_line_for_each_command() {
    let registry = SlashRegistry::builtin();
    let help = registry.help();
    let lines: Vec<&str> = help.lines().collect();
    let commands = registry.commands();
    assert_eq!(lines.len(), commands.len());
    let width = commands.iter().map(|command| command.usage.chars().count()).max().unwrap() + 2;
    for (line, command) in lines.iter().zip(&commands) {
        let aliases = if command.aliases.is_empty() {
            String::new()
        } else {
            format!("（别名：/{}）", command.aliases.join("、/"))
        };
        assert_eq!(
            *line,
            format!("{:<width$}{}{}", command.usage, command.help, aliases, width = width)
        );
    }
    assert!(matches!(commands[0].args, ArgSpec::NoArgs));
    assert!(lines.last().unwrap().ends_with("断开并退出当前交互入口（别名：/quit）"));
}

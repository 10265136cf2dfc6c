//! The tool that hands a task to an agent of its own.
use vstd::prelude::*;

use crate::json::{no_entries, Entries, JsonView};
use crate::memory::{RecallMemoryTool, RememberTool};
use crate::plan::PlanTool;
use crate::provider::{ToolSpec, ToolSpecView};
use crate::text::{is_blank, is_blank_text, texts, trim, trimmed};
use crate::tools::exec::{
    described_kind, described_kind_value, name_list, object_schema, object_schema_entries, ExecTool,
};
use crate::tools::write::WriteFileTool;
use crate::tools::{
    law_registered_tool_is_found, registered, selected, tool_named, unavailable, Tool, ToolRegistry,
    ToolView,
};

verus! {

/// How many rounds an agent for a task has.
pub const DEFAULT_MAX_ROUNDS: usize = 15;

/// What an agent for a task is told of its role.
pub open spec fn sub_agent_prompt() -> Seq<char> {
    "你是主 Agent 派出的只负责一个明确子任务的子 Agent。你拥有全新且独立的消息历史，不知道主对话内容；只依据用户给出的子任务和可用工具开展工作。优先调查、核验和提炼结论，不扩展任务范围。工具失败时可调整方案。完成后只返回给主 Agent 一份自洽、简洁、包含关键证据的结论。你不能再派生子 Agent。"@
}

/// The tools that an agent for a task has where none are asked for.
pub open spec fn default_tools() -> Seq<Seq<char>> {
    seq!["read_file"@, "exec"@, "recall_memory"@]
}

fn default_tool_list() -> (list: Vec<String>)
    ensures
        texts(list@) == default_tools(),
{
    let mut list: Vec<String> = Vec::new();
    list.push("read_file".to_owned());
    list.push("exec".to_owned());
    list.push("recall_memory".to_owned());
    assert(texts(list@) =~= default_tools());
    list
}

/// What an agent for a task is made of. It starts without any history.
#[derive(Debug)]
pub struct SubAgentRun {
    pub task: String,
    pub tools: ToolRegistry,
    pub system_prompt: &'static str,
    pub max_rounds: usize,
}

/// The tool that hands a task to an agent of its own.
#[derive(Debug)]
pub struct SubAgentTool {
    pub available_tools: ToolRegistry,
    pub max_rounds: usize,
}

/// The names of the tools that are asked for.
pub open spec fn wanted_tools(tools: Option<Vec<String>>) -> Seq<Seq<char>> {
    match tools {
        Some(names) => texts(names@),
        None => default_tools(),
    }
}

impl SubAgentTool {
    /// The tool, with the tools that it may hand on.
    pub fn new(available_tools: ToolRegistry) -> (tool: SubAgentTool)
        ensures
            tool.available_tools@ == available_tools@,
            tool.max_rounds == DEFAULT_MAX_ROUNDS,
    {
        SubAgentTool { available_tools, max_rounds: DEFAULT_MAX_ROUNDS }
    }

    /// The tool with another number of rounds.
    pub fn with_max_rounds(self, max_rounds: usize) -> (tool: SubAgentTool)
        ensures
            tool.available_tools == self.available_tools,
            tool.max_rounds == max_rounds,
    {
        SubAgentTool { available_tools: self.available_tools, max_rounds }
    }

    /// What the agent for a task is made of, or why there is none: the task has to say
    /// something, and there has to be at least one tool, each of which can be had.
    pub fn execute(&self, task: &str, tools: Option<Vec<String>>) -> (out: Result<
        SubAgentRun,
        String,
    >)
        ensures
            ({
                let wanted = wanted_tools(tools);
                let missing = unavailable(self.available_tools@, wanted, 0);
                if is_blank_text(task@) {
                    out matches Err(message) && message@ == "sub_agent.task 不能为空"@
                } else if wanted.len() == 0 {
                    out matches Err(message) && message@
                        == "sub_agent.tools 不能为空数组；若不需要工具请省略该字段"@
                } else if missing is Some {
                    out matches Err(message) && message@ == "不可用的子 Agent 工具: "@ + missing->0
                } else {
                    out matches Ok(run) && run.task@ == trim(task@) && run.tools@ == selected(
                        self.available_tools@,
                        wanted,
                        wanted.len() as int,
                    ) && run.system_prompt@ == sub_agent_prompt() && run.max_rounds
                        == self.max_rounds
                }
            }),
    {
        if is_blank(task) {
            return Err("sub_agent.task 不能为空".to_owned());
        }
        let wanted = match tools {
            Some(names) => names,
            None => default_tool_list(),
        };
        assert(texts(wanted@).len() == wanted@.len());
        if wanted.len() == 0 {
            return Err("sub_agent.tools 不能为空数组；若不需要工具请省略该字段".to_owned());
        }
        match self.available_tools.subset(&wanted) {
            Ok(tools) => Ok(
                SubAgentRun {
                    task: trimmed(task),
                    tools,
                    system_prompt: "你是主 Agent 派出的只负责一个明确子任务的子 Agent。你拥有全新且独立的消息历史，不知道主对话内容；只依据用户给出的子任务和可用工具开展工作。优先调查、核验和提炼结论，不扩展任务范围。工具失败时可调整方案。完成后只返回给主 Agent 一份自洽、简洁、包含关键证据的结论。你不能再派生子 Agent。",
                    max_rounds: self.max_rounds,
                },
            ),
            Err(error) => Err(error.message()),
        }
    }
}

/// A schema for a list of texts, with what it is for.
pub open spec fn text_list_schema(description: Seq<char>) -> JsonView {
    JsonView::Object(
        no_entries().push(("type"@, JsonView::Text("array"@))).push(
            (
                "items"@,
                JsonView::Object(no_entries().push(("type"@, JsonView::Text("string"@)))),
            ),
        ).push(("description"@, JsonView::Text(description))),
    )
}

impl Tool for SubAgentTool {
    open spec fn described(&self) -> ToolSpecView {
        sub_agent_spec()
    }

    open spec fn harmless(&self) -> bool {
        false
    }

    fn spec(&self) -> (out: ToolSpec) {
        let items = Entries::new().with_text("type", "string").object();
        let list = Entries::new().with_text("type", "array").with("items", items).with_text(
            "description",
            "可选工具名列表；省略时使用 read_file、exec、recall_memory。write_file/edit_file 等写工具必须显式列出",
        ).object();
        let properties = Entries::new().with(
            "task",
            described_kind_value(
                "string",
                "完整、自洽的子任务描述；子 Agent 不会看到主对话",
            ),
        ).with("tools", list);
        ToolSpec {
            name: "sub_agent".to_owned(),
            description: "把边界清晰、可独立完成的调研或分析子任务交给一个全新上下文的子 Agent，只取回最终结论；默认仅开放 read_file、exec、recall_memory，可显式指定其他可用工具".to_owned(),
            parameters: object_schema_entries(properties, &name_list("task")).with_bool(
                "additionalProperties",
                false,
            ).object(),
        }
    }

    fn is_read_only(&self) -> (read_only: bool) {
        false
    }
}

/// What the model is told of the tool that hands a task on.
pub open spec fn sub_agent_spec() -> ToolSpecView {
    ToolSpecView {
        name: "sub_agent"@,
        description:
            "把边界清晰、可独立完成的调研或分析子任务交给一个全新上下文的子 Agent，只取回最终结论；默认仅开放 read_file、exec、recall_memory，可显式指定其他可用工具"@,
        parameters: JsonView::Object(
            object_schema(
                no_entries().push(
                    (
                        "task"@,
                        described_kind(
                            "string"@,
                            "完整、自洽的子任务描述；子 Agent 不会看到主对话"@,
                        ),
                    ),
                ).push(
                    (
                        "tools"@,
                        text_list_schema(
                            "可选工具名列表；省略时使用 read_file、exec、recall_memory。write_file/edit_file 等写工具必须显式列出"@,
                        ),
                    ),
                ),
                seq!["task"@],
            ).push(("additionalProperties"@, JsonView::Bool(false))),
        ),
    }
}

/// A tool as it is registered.
pub open spec fn tool_view<T: Tool>(tool: T) -> ToolView {
    ToolView { spec: tool.described(), read_only: tool.harmless() }
}

/// Some tools and those that run commands, write files and keep facts. An agent for a
/// task may have them.
pub open spec fn lendable_tools(files: Seq<ToolView>) -> Seq<ToolView> {
    registered(
        registered(
            registered(
                registered(files, tool_view(ExecTool)),
                tool_view(WriteFileTool),
            ),
            tool_view(RememberTool),
        ),
        tool_view(RecallMemoryTool),
    )
}

/// All tools of the daemon.
pub open spec fn daemon_tools(files: Seq<ToolView>) -> Seq<ToolView> {
    registered(
        registered(lendable_tools(files), tool_view(PlanTool)),
        ToolView { spec: sub_agent_spec(), read_only: false },
    )
}

/// The tools of the daemon, and among them the tool that hands a task on, which lends
/// out all tools but the plan and itself.
pub fn build_tools(files: ToolRegistry) -> (out: (ToolRegistry, SubAgentTool))
    ensures
        out.0@ == daemon_tools(files@),
        out.1.available_tools@ == lendable_tools(files@),
        out.1.max_rounds == DEFAULT_MAX_ROUNDS,
{
    let mut tools = files;
    tools.register(&ExecTool::new());
    tools.register(&WriteFileTool::new());
    tools.register(&RememberTool::new());
    tools.register(&RecallMemoryTool::new());
    let sub_agent = SubAgentTool::new(tools.copy());
    tools.register(&PlanTool::new());
    tools.register(&sub_agent);
    (tools, sub_agent)
}

/// An agent for a task cannot hand tasks on: the tool for that is not lent out.
pub proof fn law_sub_agents_do_not_start_sub_agents(
    files: Seq<ToolView>,
    names: Seq<Seq<char>>,
    i: int,
)
    requires
        tool_named(files, "sub_agent"@) is None,
        0 <= i < names.len(),
        names[i] == "sub_agent"@,
    ensures
        tool_named(lendable_tools(files), "sub_agent"@) is None,
        unavailable(lendable_tools(files), names, 0) is Some,
{
    reveal_strlit("sub_agent");
    reveal_strlit("exec");
    reveal_strlit("write_file");
    reveal_strlit("remember");
    reveal_strlit("recall_memory");
    let one = registered(files, tool_view(ExecTool));
    let two = registered(one, tool_view(WriteFileTool));
    let three = registered(two, tool_view(RememberTool));
    assert("sub_agent"@.len() != "exec"@.len());
    assert("sub_agent"@.len() != "write_file"@.len());
    assert("sub_agent"@.len() != "remember"@.len());
    assert("sub_agent"@.len() != "recall_memory"@.len());
    law_registered_tool_is_found(files, tool_view(ExecTool), "sub_agent"@);
    law_registered_tool_is_found(one, tool_view(WriteFileTool), "sub_agent"@);
    law_registered_tool_is_found(two, tool_view(RememberTool), "sub_agent"@);
    law_registered_tool_is_found(three, tool_view(RecallMemoryTool), "sub_agent"@);
    lemma_unavailable(lendable_tools(files), names, 0, i);
}

proof fn lemma_unavailable(tools: Seq<ToolView>, names: Seq<Seq<char>>, from: int, i: int)
    requires
        0 <= from <= i < names.len(),
        tool_named(tools, names[i]) is None,
    ensures
        unavailable(tools, names, from) is Some,
    decreases i - from,
{
    if from < i {
        lemma_unavailable(tools, names, from + 1, i);
    }
}

/// A sub-agent gets the tools that are named for it, and those for reading where none are
/// named.
pub proof fn law_named_tools_are_lent(tools: Option<Vec<String>>, i: int)
    ensures
        tools matches Some(names) ==> wanted_tools(tools).len() == names@.len() && (0 <= i
            < names@.len() ==> wanted_tools(tools)[i] == names@[i]@),
        tools is None ==> wanted_tools(tools) == seq!["read_file"@, "exec"@, "recall_memory"@],
{
}

/// The daemon has the tools of the files, those that it lends out, the plan and the tool
/// that hands tasks on.
pub proof fn law_daemon_has_all_its_tools(files: Seq<ToolView>)
    ensures
        tool_named(daemon_tools(files), "exec"@) == Some(tool_view(ExecTool)),
        tool_named(daemon_tools(files), "write_file"@) == Some(tool_view(WriteFileTool)),
        tool_named(daemon_tools(files), "remember"@) == Some(tool_view(RememberTool)),
        tool_named(daemon_tools(files), "recall_memory"@) == Some(tool_view(RecallMemoryTool)),
        tool_named(daemon_tools(files), "plan"@) == Some(tool_view(PlanTool)),
        tool_named(daemon_tools(files), "sub_agent"@) is Some,
        tool_named(lendable_tools(files), "exec"@) == Some(tool_view(ExecTool)),
        tool_named(lendable_tools(files), "recall_memory"@) == Some(tool_view(RecallMemoryTool)),
{
    reveal_strlit("sub_agent");
    reveal_strlit("exec");
    reveal_strlit("write_file");
    reveal_strlit("remember");
    reveal_strlit("recall_memory");
    reveal_strlit("plan");
    assert("sub_agent"@.len() == 9 && "exec"@.len() == 4 && "write_file"@.len() == 10
        && "remember"@.len() == 8 && "recall_memory"@.len() == 13 && "plan"@.len() == 4);
    assert("exec"@[0] == 'e' && "plan"@[0] == 'p');
    let one = registered(files, tool_view(ExecTool));
    let two = registered(one, tool_view(WriteFileTool));
    let three = registered(two, tool_view(RememberTool));
    let four = registered(three, tool_view(RecallMemoryTool));
    let five = registered(four, tool_view(PlanTool));
    let sub = ToolView { spec: sub_agent_spec(), read_only: false };
    law_registered_tool_is_found(files, tool_view(ExecTool), "exec"@);
    law_registered_tool_is_found(one, tool_view(WriteFileTool), "exec"@);
    law_registered_tool_is_found(two, tool_view(RememberTool), "exec"@);
    law_registered_tool_is_found(three, tool_view(RecallMemoryTool), "exec"@);
    law_registered_tool_is_found(four, tool_view(PlanTool), "exec"@);
    law_registered_tool_is_found(five, sub, "exec"@);
    law_registered_tool_is_found(two, tool_view(RememberTool), "write_file"@);
    law_registered_tool_is_found(three, tool_view(RecallMemoryTool), "write_file"@);
    law_registered_tool_is_found(four, tool_view(PlanTool), "write_file"@);
    law_registered_tool_is_found(five, sub, "write_file"@);
    law_registered_tool_is_found(three, tool_view(RecallMemoryTool), "remember"@);
    law_registered_tool_is_found(four, tool_view(PlanTool), "remember"@);
    law_registered_tool_is_found(five, sub, "remember"@);
    law_registered_tool_is_found(four, tool_view(PlanTool), "recall_memory"@);
    law_registered_tool_is_found(five, sub, "recall_memory"@);
    law_registered_tool_is_found(five, sub, "plan"@);
}

/// A task is handed on exactly where it holds some text and every tool that it wants can be
/// lent; the agent gets the task and those tools.
pub proof fn law_tasks_are_handed_on_with_their_tools(
    tool: &SubAgentTool,
    task: &str,
    tools: Option<Vec<String>>,
    out: Result<SubAgentRun, String>,
    i: int,
)
    requires
        call_ensures(SubAgentTool::execute, (tool, task, tools), out),
    ensures
        out is Ok <==> !is_blank_text(task@) && wanted_tools(tools).len() > 0 && forall|k: int|
            0 <= k < wanted_tools(tools).len() ==> tool_named(
                tool.available_tools@,
                #[trigger] wanted_tools(tools)[k],
            ) is Some,
        out matches Ok(run) ==> run.task@ == trim(task@) && run.max_rounds == tool.max_rounds && (
        0 <= i < wanted_tools(tools).len() ==> tool_named(run.tools@, wanted_tools(tools)[i])
            == tool_named(tool.available_tools@, wanted_tools(tools)[i])),
{
    let wanted = wanted_tools(tools);
    crate::tools::law_subset_needs_every_tool(tool.available_tools@, wanted);
    if 0 <= i < wanted.len() {
        crate::tools::law_subset_holds_all_that_was_asked_for(
            tool.available_tools@,
            wanted,
            wanted.len() as int,
            i,
        );
    }
}

/// A task is handed on only where one is given, and any text is a task.
pub proof fn law_sub_agent_needs_a_task(
    entries: Seq<(Seq<char>, JsonView)>,
    task: Seq<char>,
    path: Seq<char>,
)
    ensures
        ({
            let schema = sub_agent_spec().parameters;
            &&& (forall|k: int| 0 <= k < entries.len() ==> (#[trigger] entries[k]).0 != "task"@)
                ==> crate::tools::complaint(schema, JsonView::Object(entries), path) == Some(
                path + " 缺少必填字段 "@ + "task"@,
            )
            &&& crate::tools::complaint(
                schema,
                JsonView::Object(seq![("task"@, JsonView::Text(task))]),
                path,
            ) is None
        }),
{
    let said = "完整、自洽的子任务描述；子 Agent 不会看到主对话"@;
    let properties = no_entries().push(("task"@, described_kind("string"@, said))).push(
        (
            "tools"@,
            text_list_schema(
                "可选工具名列表；省略时使用 read_file、exec、recall_memory。write_file/edit_file 等写工具必须显式列出"@,
            ),
        ),
    );
    crate::tools::exec::law_schema_says_what_it_was_made_of(
        properties,
        seq!["task"@],
        "string"@,
        "string"@,
    );
    crate::json::law_objects_give_the_first_entry_of_a_key(properties, "task"@, 0);
    crate::tools::exec::law_schema_asks_for_its_text(
        sub_agent_spec().parameters,
        properties,
        "task"@,
        said,
        entries,
        task,
        path,
    );
}

} // verus!
